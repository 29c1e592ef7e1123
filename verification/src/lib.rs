//! Static checks over the commands of an install script: each check looks at the
//! commands the script runs and tells the user what it does to the machine before
//! the script is piped into a shell.

pub mod auto_update;
pub mod dynamic_download;
pub mod model;
pub mod package_repos;
pub mod script;
pub mod search;
pub mod telemetry;
pub mod text;
