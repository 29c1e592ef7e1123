//! The `dynamic_download` check, on scripts written out as the commands they run.

use bashka::dynamic_download::{substituted_url, DynamicDownload};
use bashka::model::{Finding, FlagKind};
use bashka::script::{Command, Ctx, Shared, Span, Word};

/// A command of `src`: `raw` is its source text, the rest what it runs.
fn command(src: &str, raw: &str, name: &str, args: &[&str]) -> Command {
    let start = src.find(raw).expect("the command is part of the script");
    let span = Span { start, end: start + raw.len() };
    let word = |t: &&str| Word {
        text: t.to_string(),
        span: src[start..].find(*t).map_or(span, |i| Span {
            start: start + i,
            end: start + i + t.len(),
        }),
    };
    Command {
        name: name.to_string(),
        args: args.iter().map(word).collect(),
        redirects: Vec::new(),
        guards: Vec::new(),
        span,
    }
}

fn script(commands: Vec<Command>) -> Ctx {
    Ctx { commands, programs: Vec::new() }
}

fn findings(ctx: &Ctx) -> Vec<Finding> {
    DynamicDownload::new(Shared::new()).analyze(ctx)
}

fn fires(ctx: &Ctx) -> bool {
    !findings(ctx).is_empty()
}

#[test]
fn fires_on_substituted_urls() {
    let src = "curl -fsL --max-time 120 -o \"$tmp.tgz\" \"$(get url)\"";
    assert!(fires(&script(vec![command(
        src,
        src,
        "curl",
        &["-fsL", "--max-time", "120", "-o", "$tmp.tgz", "$(get url)"],
    )])));
    let src = "wget -O t.tgz \"$(jq -r .url rep.json)\"";
    assert!(fires(&script(vec![command(
        src,
        src,
        "wget",
        &["-O", "t.tgz", "$(jq -r .url rep.json)"],
    )])));
}

#[test]
fn ignores_interpolated_and_literal_urls() {
    let src = "curl -fsSL \"$BASE/$VERSION/tool.tgz\" -o t.tgz";
    assert!(!fires(&script(vec![command(
        src,
        src,
        "curl",
        &["-fsSL", "$BASE/$VERSION/tool.tgz", "-o", "t.tgz"],
    )])));
    let src = "curl -fsSL \"https://x.io/$(uname -m)/tool.tgz\" -o t.tgz";
    assert!(!fires(&script(vec![
        command(src, src, "curl", &["-fsSL", "https://x.io/$(uname -m)/tool.tgz", "-o", "t.tgz"]),
        command(src, "uname -m", "uname", &["-m"]),
    ])));
    let src = "curl -fsSL https://x.io/t.tgz -o \"$(mktemp)\"";
    assert!(!fires(&script(vec![
        command(src, src, "curl", &["-fsSL", "https://x.io/t.tgz", "-o", "$(mktemp)"]),
        command(src, "mktemp", "mktemp", &[]),
    ])));
    let src = "V=$(curl -s https://x.io/latest)";
    assert!(!fires(&script(vec![command(
        src,
        "curl -s https://x.io/latest",
        "curl",
        &["-s", "https://x.io/latest"],
    )])));
}

#[test]
fn the_finding_names_the_expression_and_points_at_it() {
    let src = "curl -fsL --max-time 120 -o \"$tmp.tgz\" \"$(get url)\"";
    let f = findings(&script(vec![command(
        src,
        src,
        "curl",
        &["-fsL", "--max-time", "120", "-o", "$tmp.tgz", "$(get url)"],
    )]));
    assert_eq!(f.len(), 1);
    assert!(matches!(f[0].kind, FlagKind::Red));
    assert_eq!(
        f[0].detail.title,
        "fetches a url that is constructed from the io at runtime, impossible to inspect: `$(get url)`"
    );
    let at = f[0].detail.span.unwrap();
    assert_eq!(&src[at.start..at.end], "$(get url)");
    assert!(f[0].detail.fix.as_deref().unwrap().starts_with("Find the command that produces the URL."));
}

#[test]
fn backticks_count_as_a_substitution() {
    let src = "wget `cat url.txt`";
    let c = command(src, src, "wget", &["`cat url.txt`"]);
    assert_eq!(substituted_url(&c).map(|w| w.text.as_str()), Some("`cat url.txt`"));
    assert!(fires(&script(vec![c])));
}

#[test]
fn only_the_first_such_download_is_reported() {
    let src = "curl -o a \"$(get a)\"\ncurl -o b \"$(get b)\"";
    let ctx = script(vec![
        command(src, "curl -o a \"$(get a)\"", "curl", &["-o", "a", "$(get a)"]),
        command(src, "curl -o b \"$(get b)\"", "curl", &["-o", "b", "$(get b)"]),
    ]);
    let f = findings(&ctx);
    assert_eq!(f.len(), 1);
    assert!(f[0].detail.title.ends_with("`$(get a)`"));
    let mut check = DynamicDownload::new(Shared::new());
    assert!(!check.analyze(&ctx).is_empty());
    assert!(check.analyze(&ctx).is_empty(), "a check reports once");
}

#[test]
fn non_network_commands_and_option_values_are_ignored() {
    let src = "echo \"$(get url)\"";
    assert!(!fires(&script(vec![command(src, src, "echo", &["$(get url)"])])));
    let src = "curl -H \"$(auth)\" https://x.io/t";
    let c = command(src, src, "curl", &["-H", "$(auth)", "https://x.io/t"]);
    assert!(substituted_url(&c).is_none());
    let src = "curl \"$(echo https://x.io/t)\"";
    let c = command(src, src, "curl", &["$(echo https://x.io/t)"]);
    assert!(substituted_url(&c).is_none(), "an address the script writes itself");
}

#[test]
fn a_trailing_value_option_leaves_nothing_to_consume() {
    let src = "curl \"$(get url)\" -o";
    let c = command(src, src, "curl", &["$(get url)", "-o"]);
    assert!(substituted_url(&c).is_some());
}

#[test]
fn curl_remote_name_takes_no_value() {
    let src = "curl -O \"$(get url)\"";
    let c = command(src, src, "curl", &["-O", "$(get url)"]);
    assert_eq!(substituted_url(&c).map(|w| w.text.as_str()), Some("$(get url)"));
    assert!(fires(&script(vec![c])));
    let src = "/usr/bin/curl -fsSLO \"$(get url)\"";
    assert!(fires(&script(vec![command(src, src, "/usr/bin/curl", &["-fsSLO", "$(get url)"])])));
    let src = "wget -O \"$(mktemp)\" https://x.io/t.tgz";
    let c = command(src, src, "wget", &["-O", "$(mktemp)", "https://x.io/t.tgz"]);
    assert!(substituted_url(&c).is_none(), "wget's -O names the output file");
    let src = "wget --directory-prefix \"$(pwd)\" https://x.io/t.tgz";
    let c = command(src, src, "wget", &["--directory-prefix", "$(pwd)", "https://x.io/t.tgz"]);
    assert!(substituted_url(&c).is_none());
}
