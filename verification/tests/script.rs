//! The parsed form of a script and the text helpers the checks share.

use bashka::model::{Detail, FlagKind, Verdict};
use bashka::script::{base_name_of, is_url_text, Command, Shared, Span, Word};
use bashka::text::{contains, contains_upper, ends_with, starts_with, str_eq, upper_eq};
use bashka::{auto_update, dynamic_download, package_repos, telemetry};

fn command(name: &str, args: &[&str]) -> Command {
    let span = Span { start: 0, end: 1 };
    Command {
        name: name.to_string(),
        args: args.iter().map(|t| Word { text: t.to_string(), span }).collect(),
        redirects: Vec::new(),
        guards: Vec::new(),
        span,
    }
}

#[test]
fn base_names_drop_the_directory() {
    assert_eq!(base_name_of("/usr/bin/curl"), "curl");
    assert_eq!(base_name_of("curl"), "curl");
    assert_eq!(base_name_of("/usr/bin/"), "");
    assert_eq!(base_name_of(""), "");
}

#[test]
fn network_commands_are_curl_and_wget_by_default() {
    let shared = Shared::new();
    assert!(shared.is_network("curl"));
    assert!(shared.is_network("/usr/local/bin/wget"));
    assert!(!shared.is_network("curly"));
    assert!(!shared.is_network("git"));
    assert!(shared.downloads(&command("wget", &["https://x.io/t"])));
    let custom = Shared { network: vec!["aria2c".to_string()] };
    assert!(custom.is_network("aria2c"));
    assert!(!custom.is_network("curl"));
}

#[test]
fn arguments_are_found_whole() {
    let c = command("apt-key", &["add", "-"]);
    assert!(c.has_arg("add"));
    assert!(c.has_arg("-"));
    assert!(!c.has_arg("ad"));
}

#[test]
fn urls_name_a_web_scheme() {
    assert!(is_url_text("https://x.io"));
    assert!(is_url_text("http://x.io"));
    assert!(!is_url_text("ftp://x.io"));
    assert!(!is_url_text("$BASE/x"));
}

#[test]
fn text_helpers() {
    assert!(str_eq("abc", "abc"));
    assert!(!str_eq("abc", "abd"));
    assert!(!str_eq("ab", "abc"));
    assert!(starts_with("--post-data=x", "--post-data"));
    assert!(!starts_with("-d", "--data"));
    assert!(ends_with("/proc/sys/kernel/random/uuid", "random/uuid"));
    assert!(!ends_with("uuid", "random/uuid"));
    assert!(contains("a://b", "://"));
    assert!(contains("x", ""));
    assert!(!contains("ab", "ba"));
    assert!(contains_upper("Do_Not_Track", "DO_NOT_TRACK"));
    assert!(!contains_upper("do-not-track", "DO_NOT_TRACK"));
    assert!(upper_eq("post", "POST"));
    assert!(upper_eq("PaTcH", "PATCH"));
    assert!(!upper_eq("posts", "POST"));
}

#[test]
fn details_are_built_step_by_step() {
    let d = Detail::new("t".to_string(), "e".to_string())
        .fix("f".to_string())
        .at(Span { start: 3, end: 5 });
    assert_eq!(d.title, "t");
    assert_eq!(d.explanation, "e");
    assert_eq!(d.fix.as_deref(), Some("f"));
    assert_eq!(d.span.map(|s| (s.start, s.end)), Some((3, 5)));
    assert!(Verdict::Ignore.into_finding().is_none());
    let f = Verdict::Yellow(Detail::new("t".to_string(), "e".to_string())).into_finding().unwrap();
    assert!(matches!(f.kind, FlagKind::Yellow));
}

#[test]
fn each_check_is_registered_under_its_name() {
    assert_eq!(auto_update::ID, "auto_update");
    assert_eq!(dynamic_download::ID, "dynamic_download");
    assert_eq!(package_repos::ID, "package_repos");
    assert_eq!(telemetry::ID, "telemetry");
    assert!(matches!(package_repos::KIND, FlagKind::Yellow));
    assert!(matches!(telemetry::KIND, FlagKind::Red));
}
