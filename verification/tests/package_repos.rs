//! The `package_repos` check, on scripts written out as the commands they run.

use bashka::model::{Finding, FlagKind};
use bashka::package_repos::{adds_repo, PackageRepos};
use bashka::script::{Command, Ctx, Span, Word};

/// A command of `src`: `raw` is its source text, the rest what it runs.
fn command(src: &str, raw: &str, name: &str, args: &[&str], redirects: &[&str]) -> Command {
    let start = src.find(raw).expect("the command is part of the script");
    let span = Span { start, end: start + raw.len() };
    let word = |t: &&str| Word { text: t.to_string(), span };
    Command {
        name: name.to_string(),
        args: args.iter().map(word).collect(),
        redirects: redirects.iter().map(word).collect(),
        guards: Vec::new(),
        span,
    }
}

fn findings(commands: Vec<Command>) -> Vec<Finding> {
    PackageRepos::new().analyze(&Ctx { commands, programs: Vec::new() })
}

fn fires(commands: Vec<Command>) -> bool {
    !findings(commands).is_empty()
}

#[test]
fn detects_repo_additions() {
    let src = "curl -fsSL https://x.io/key | sudo apt-key add -";
    assert!(fires(vec![
        command(src, "curl -fsSL https://x.io/key", "curl", &["-fsSL", "https://x.io/key"], &[]),
        command(src, "apt-key add -", "apt-key", &["add", "-"], &[]),
    ]));
    let src = "echo 'deb https://x.io stable main' > /etc/apt/sources.list.d/x.list";
    assert!(fires(vec![command(
        src,
        src,
        "echo",
        &["deb https://x.io stable main"],
        &["/etc/apt/sources.list.d/x.list"],
    )]));
    let src = "sudo dnf config-manager --add-repo https://x.io/x.repo";
    assert!(fires(vec![command(
        src,
        "dnf config-manager --add-repo https://x.io/x.repo",
        "dnf",
        &["config-manager", "--add-repo", "https://x.io/x.repo"],
        &[],
    )]));
    let src = "rm -f /etc/zypp/repos.d/rancher-k3s-common*.repo";
    assert!(
        !fires(vec![command(src, src, "rm", &["-f", "/etc/zypp/repos.d/rancher-k3s-common*.repo"], &[])]),
        "removing a repo file adds nothing"
    );
    let src = "apt-get install -y curl";
    assert!(!fires(vec![command(src, src, "apt-get", &["install", "-y", "curl"], &[])]));
}

#[test]
fn names_what_is_added() {
    let src = "curl -fsSL https://x.io/key | sudo apt-key add -";
    let f = findings(vec![
        command(src, "curl -fsSL https://x.io/key", "curl", &["-fsSL", "https://x.io/key"], &[]),
        command(src, "apt-key add -", "apt-key", &["add", "-"], &[]),
    ]);
    assert_eq!(f.len(), 1);
    assert!(matches!(f[0].kind, FlagKind::Yellow));
    assert_eq!(f[0].detail.title, "adds a APT signing key to the system package manager");
    assert!(f[0].detail.fix.is_none());
    let at = f[0].detail.span.unwrap();
    assert_eq!(&src[at.start..at.end], "apt-key add -");
}

#[test]
fn each_tool_has_its_own_name() {
    let src = "x";
    let c = |name: &str, args: &[&str]| command(src, src, name, args, &[]);
    assert_eq!(adds_repo(&c("add-apt-repository", &["ppa:x/y"])), Some("APT repository"));
    assert_eq!(adds_repo(&c("rpm", &["--import", "k.asc"])), Some("RPM signing key"));
    assert_eq!(adds_repo(&c("yum", &["--add-repo", "u"])), Some("YUM/DNF repository"));
    assert_eq!(adds_repo(&c("zypper", &["ar", "u"])), Some("zypper repository"));
    assert_eq!(adds_repo(&c("zypper", &["addrepo", "u"])), Some("zypper repository"));
    assert_eq!(adds_repo(&c("rpm", &["-i", "x.rpm"])), None);
    assert_eq!(adds_repo(&c("apt-key", &["list"])), None);
    assert_eq!(
        adds_repo(&c("cp", &["k.gpg", "/usr/share/keyrings/k.gpg"])),
        Some("package repository definition")
    );
    assert_eq!(adds_repo(&c("unlink", &["/etc/yum.repos.d/x.repo"])), None);
    assert_eq!(
        adds_repo(&command(src, src, "tee", &[], &["/etc/pacman.d/mirrorlist"])),
        Some("package repository definition")
    );
}

#[test]
fn only_the_first_addition_is_reported() {
    let src = "apt-key add k\nadd-apt-repository ppa:x/y";
    let f = findings(vec![
        command(src, "apt-key add k", "apt-key", &["add", "k"], &[]),
        command(src, "add-apt-repository ppa:x/y", "add-apt-repository", &["ppa:x/y"], &[]),
    ]);
    assert_eq!(f.len(), 1);
    assert_eq!(f[0].detail.title, "adds a APT signing key to the system package manager");
}
