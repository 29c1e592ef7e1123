//! The `telemetry` check, on scripts written out as the commands they run.

use bashka::model::{Finding, FlagKind};
use bashka::script::{host, Command, Ctx, Shared, Span, Word};
use bashka::telemetry::{
    destination, fingerprints, looks_like_telemetry, mints_identifier, opt_out_variable, uploads,
    Telemetry,
};

/// A command of `src`: `raw` is its source text, the rest what it runs.
fn command(src: &str, raw: &str, name: &str, args: &[&str]) -> Command {
    let start = src.find(raw).expect("the command is part of the script");
    let span = Span { start, end: start + raw.len() };
    let word = |t: &&str| Word { text: t.to_string(), span };
    Command {
        name: name.to_string(),
        args: args.iter().map(word).collect(),
        redirects: Vec::new(),
        guards: Vec::new(),
        span,
    }
}

/// The same command, run only where the tests on `guards` allow it.
fn guarded(mut c: Command, guards: &[&str]) -> Command {
    c.guards = guards.iter().map(|g| g.to_string()).collect();
    c
}

fn with_redirects(mut c: Command, targets: &[&str]) -> Command {
    let span = c.span;
    c.redirects = targets.iter().map(|t| Word { text: t.to_string(), span }).collect();
    c
}

fn findings(commands: Vec<Command>) -> Vec<Finding> {
    Telemetry::new(Shared::new()).analyze(&Ctx { commands, programs: Vec::new() })
}

fn titles(commands: Vec<Command>) -> Vec<String> {
    findings(commands).into_iter().map(|f| f.detail.title).collect()
}

fn fires(commands: Vec<Command>) -> bool {
    !findings(commands).is_empty()
}

/// A script of one command.
fn one(src: &str, name: &str, args: &[&str]) -> Vec<Command> {
    vec![command(src, src, name, args)]
}

#[test]
fn detects_uploads_and_analytics_urls() {
    assert!(fires(one(
        "curl -s -X POST -d \"os=$OS\" https://x.io/install-event",
        "curl",
        &["-s", "-X", "POST", "-d", "os=$OS", "https://x.io/install-event"],
    )));
    assert!(fires(one(
        "curl -fsSL https://analytics.x.io/collect?v=1 -o /dev/null",
        "curl",
        &["-fsSL", "https://analytics.x.io/collect?v=1", "-o", "/dev/null"],
    )));
    assert!(!fires(one(
        "curl -fsSL https://x.io/releases/t.tgz -o t.tgz",
        "curl",
        &["-fsSL", "https://x.io/releases/t.tgz", "-o", "t.tgz"],
    )));
}

#[test]
fn keywords_must_be_whole_words_outside_expansions() {
    let src = "curl -fsSL \"https://pkgs.tailscale.com/$TRACK/$OS/$VERSION/tailscale.repo\" > /etc/yum.repos.d/tailscale.repo";
    assert!(!fires(vec![with_redirects(
        command(
            src,
            src,
            "curl",
            &["-fsSL", "https://pkgs.tailscale.com/$TRACK/$OS/$VERSION/tailscale.repo"],
        ),
        &["/etc/yum.repos.d/tailscale.repo"],
    )]));
    assert!(!fires(one(
        "curl -fsSL https://x.io/tracker-tool/latest.tgz -o t.tgz",
        "curl",
        &["-fsSL", "https://x.io/tracker-tool/latest.tgz", "-o", "t.tgz"],
    )));
    assert!(fires(one(
        "curl -fsSL \"https://x.io/ping?v=$VERSION\"",
        "curl",
        &["-fsSL", "https://x.io/ping?v=$VERSION"],
    )));
}

#[test]
fn sees_through_variable_destinations() {
    let src = "O=${ORIGIN:-https://x.io}\ncurl -s --max-time 3 -H 'Content-Type: application/json' \"$O/ping\" -d \"{\\\"os\\\":\\\"$(uname -s)\\\",\\\"arch\\\":\\\"$(uname -m)\\\"}\"";
    let t = titles(vec![
        command(
            src,
            "curl -s --max-time 3",
            "curl",
            &[
                "-s",
                "--max-time",
                "3",
                "-H",
                "Content-Type: application/json",
                "$O/ping",
                "-d",
                "{\"os\":\"$(uname -s)\",\"arch\":\"$(uname -m)\"}",
            ],
        ),
        command(src, "uname -s", "uname", &["-s"]),
        command(src, "uname -m", "uname", &["-m"]),
    ]);
    assert_eq!(
        t,
        ["phones home to `$O/ping` with your OS and architecture"]
    );
    assert!(!fires(one(
        "curl -fsSL \"$BASE/$VERSION/tool.tgz\" -o t.tgz",
        "curl",
        &["-fsSL", "$BASE/$VERSION/tool.tgz", "-o", "t.tgz"],
    )));
    assert!(
        !fires(one(
            "curl -o /dev/null -fsLI -X HEAD \"$1\"",
            "curl",
            &["-o", "/dev/null", "-fsLI", "-X", "HEAD", "$1"],
        )),
        "a HEAD probe sends nothing"
    );
}

#[test]
fn names_the_opt_out_variable() {
    let src = "[ -n \"${BEND_NO_TELEMETRY:-}\" ] || curl -d \"os=$(uname -s)\" https://x.io/ping";
    let f = findings(vec![
        command(src, "[ -n \"${BEND_NO_TELEMETRY:-}\" ]", "[", &["-n", "${BEND_NO_TELEMETRY:-}", "]"]),
        guarded(
            command(
                src,
                "curl -d \"os=$(uname -s)\" https://x.io/ping",
                "curl",
                &["-d", "os=$(uname -s)", "https://x.io/ping"],
            ),
            &["BEND_NO_TELEMETRY"],
        ),
        command(src, "uname -s", "uname", &["-s"]),
    ]);
    assert_eq!(
        f[0].detail.title,
        "phones home to `x.io` with your OS and architecture (opt out: `BEND_NO_TELEMETRY`)"
    );
    assert!(
        f[0].detail
            .fix
            .as_deref()
            .unwrap()
            .contains("BEND_NO_TELEMETRY=1")
    );
    let f = findings(one(
        "curl -d \"os=$OS\" https://x.io/ping",
        "curl",
        &["-d", "os=$OS", "https://x.io/ping"],
    ));
    assert!(
        f[0].detail
            .fix
            .as_deref()
            .unwrap()
            .contains("Nothing guards")
    );
    let src = "NO_TELEMETRY=${NO_TELEMETRY:-0}\ncurl -d \"os=$OS\" https://x.io/ping";
    let f = findings(vec![command(
        src,
        "curl -d \"os=$OS\" https://x.io/ping",
        "curl",
        &["-d", "os=$OS", "https://x.io/ping"],
    )]);
    assert!(
        f[0].detail
            .fix
            .as_deref()
            .unwrap()
            .contains("Nothing guards"),
        "a variable that is mentioned but never tested around the request is no opt-out"
    );
}

#[test]
fn notes_a_persistent_identifier() {
    let src = "{ cat /proc/sys/kernel/random/uuid 2>/dev/null || uuidgen; } > \"$B/id\"\ncurl -d \"id=$(cat \"$B/id\")\" https://x.io/ping";
    let t = titles(vec![
        with_redirects(
            command(src, "cat /proc/sys/kernel/random/uuid", "cat", &["/proc/sys/kernel/random/uuid"]),
            &["/dev/null"],
        ),
        command(src, "uuidgen", "uuidgen", &[]),
        command(
            src,
            "curl -d \"id=$(cat \"$B/id\")\" https://x.io/ping",
            "curl",
            &["-d", "id=$(cat \"$B/id\")", "https://x.io/ping"],
        ),
        command(src, "cat \"$B/id\"", "cat", &["$B/id"]),
    ]);
    assert_eq!(t, ["phones home to `x.io` under a persistent identifier"]);
    assert!(
        !fires(one("uuidgen > \"$B/id\"", "uuidgen", &[])),
        "an id that is never sent is not telemetry"
    );
}

#[test]
fn the_finding_is_red_and_located_at_the_request() {
    let src = "echo start\ncurl -d x https://x.io/ping";
    let f = findings(vec![
        command(src, "echo start", "echo", &["start"]),
        command(src, "curl -d x https://x.io/ping", "curl", &["-d", "x", "https://x.io/ping"]),
    ]);
    assert_eq!(f.len(), 1);
    assert!(matches!(f[0].kind, FlagKind::Red));
    let at = f[0].detail.span.unwrap();
    assert_eq!(&src[at.start..at.end], "curl -d x https://x.io/ping");
    assert_eq!(
        f[0].detail.explanation,
        "The installer reports something about you or this machine; check what is sent and whether it can be disabled."
    );
}

#[test]
fn only_the_first_phone_home_is_reported() {
    let src = "curl -d a https://one.io/x\ncurl -d b https://two.io/y";
    let t = titles(vec![
        command(src, "curl -d a https://one.io/x", "curl", &["-d", "a", "https://one.io/x"]),
        command(src, "curl -d b https://two.io/y", "curl", &["-d", "b", "https://two.io/y"]),
    ]);
    assert_eq!(t, ["phones home to `one.io`"]);
}

#[test]
fn an_identifier_minted_after_the_request_still_counts() {
    let src = "curl -d a https://x.io/ping\nuuidgen > id";
    let f = findings(vec![
        command(src, "curl -d a https://x.io/ping", "curl", &["-d", "a", "https://x.io/ping"]),
        command(src, "uuidgen", "uuidgen", &[]),
    ]);
    assert_eq!(f[0].detail.title, "phones home to `x.io` under a persistent identifier");
    assert!(f[0].detail.explanation.ends_with(
        " A generated id is written to disk, so every later report from this machine can be linked together."
    ));
}

#[test]
fn reporting_twice_reports_nothing_more() {
    let src = "curl -d a https://x.io/ping";
    let ctx = Ctx { commands: one(src, "curl", &["-d", "a", "https://x.io/ping"]), programs: Vec::new() };
    let mut check = Telemetry::new(Shared::new());
    assert_eq!(check.analyze(&ctx).len(), 1);
    assert!(check.finalize(&ctx).into_finding().is_none());
}

#[test]
fn lists_every_fact_once_in_order() {
    let src = "x";
    let c = command(
        src,
        src,
        "curl",
        &["-d", "h=$(hostname)&u=`whoami`&o=$(uname -s)", "-d", "m=$(uname -m)&i=$(ip addr)&f=$(ifconfig)"],
    );
    assert_eq!(
        fingerprints(&c),
        vec!["OS and architecture", "hostname", "user name", "network interfaces"]
    );
    let c = command(src, src, "curl", &["-d", "v=$(sw_vers)&d=$(lsb_release -a)&id=$(id -u)"]);
    assert_eq!(fingerprints(&c), vec!["user id", "macOS version", "distro"]);
}

#[test]
fn uploads_by_body_method_or_post() {
    let src = "x";
    assert!(uploads(&command(src, src, "curl", &["-dfoo", "https://x.io"])));
    assert!(uploads(&command(src, src, "curl", &["--data-binary", "@f", "https://x.io"])));
    assert!(uploads(&command(src, src, "curl", &["-F", "a=b", "https://x.io"])));
    assert!(uploads(&command(src, src, "curl", &["--request", "put", "https://x.io"])));
    assert!(uploads(&command(src, src, "/usr/bin/curl", &["-X", "PATCH", "https://x.io"])));
    assert!(!uploads(&command(src, src, "curl", &["-X", "GET", "https://x.io"])));
    assert!(!uploads(&command(src, src, "curl", &["https://x.io", "-X"])));
    assert!(uploads(&command(src, src, "wget", &["--post-data=a=b", "https://x.io"])));
    assert!(uploads(&command(src, src, "wget", &["--post-file", "f", "https://x.io"])));
    assert!(!uploads(&command(src, src, "wget", &["-q", "https://x.io"])));
    assert!(!uploads(&command(src, src, "http", &["-d", "https://x.io"])));
}

#[test]
fn telemetry_words_ignore_case_and_expansions() {
    assert!(looks_like_telemetry("https://x.io/Beacon"));
    assert!(looks_like_telemetry("https://STATS.x.io/"));
    assert!(!looks_like_telemetry("https://x.io/${TRACK}/x"));
    assert!(!looks_like_telemetry("https://x.io/$METRICS_URL"));
    assert!(looks_like_telemetry("https://x.io/${V}/event"));
    assert!(!looks_like_telemetry("https://x.io/pings"));
    assert!(looks_like_telemetry("https://x.io/a_metrics"));
    assert!(!looks_like_telemetry("https://x.io/${unclosed ping"));
}

#[test]
fn hosts_and_destinations() {
    assert_eq!(host("https://x.io/install-event").as_deref(), Some("x.io"));
    assert_eq!(host("https://analytics.x.io:8443/c?v=1").as_deref(), Some("analytics.x.io"));
    assert_eq!(host("https://x.io?a#b").as_deref(), Some("x.io"));
    assert_eq!(host("https:///path"), None);
    assert_eq!(host("x.io/ping"), None);
    let src = "x";
    let c = command(src, src, "curl", &["-d", "a", "https:///ping"]);
    assert_eq!(destination(&c).as_deref(), Some("https:///ping"));
    let c = command(src, src, "curl", &["-X", "POST", "-o", "/tmp/out", "localhost:8080"]);
    assert_eq!(destination(&c), None);
    let c = command(src, src, "curl", &["-fsSL", "https://x.io/t.tgz"]);
    assert_eq!(destination(&c), None);
}

#[test]
fn the_first_matching_guard_is_the_opt_out() {
    let src = "x";
    let c = guarded(command(src, src, "curl", &[]), &["CI", "do_not_track", "NO_STATS"]);
    assert_eq!(opt_out_variable(&c).as_deref(), Some("do_not_track"));
    let c = guarded(command(src, src, "curl", &[]), &["CI", "HOME"]);
    assert_eq!(opt_out_variable(&c), None);
}

#[test]
fn identifiers_come_from_uuid_sources() {
    let src = "x";
    assert!(mints_identifier(&command(src, src, "/usr/bin/uuidgen", &[])));
    assert!(mints_identifier(&command(src, src, "head", &["-c", "36", "/proc/sys/kernel/random/uuid"])));
    assert!(!mints_identifier(&command(src, src, "cat", &["/etc/machine-id"])));
    assert!(!mints_identifier(&command(src, src, "echo", &["/proc/sys/kernel/random/uuid"])));
}

#[test]
fn telemetry_words_match_in_any_case() {
    for u in ["https://x.io/ping?v=$VERSION", "https://analytics.x.io/c", "https://x.io/releases/t.tgz", "https://x.io/$TRACK/x"] {
        assert_eq!(looks_like_telemetry(u), looks_like_telemetry(&u.to_ascii_lowercase()));
        assert_eq!(looks_like_telemetry(u), looks_like_telemetry(&u.to_ascii_uppercase()));
    }
}
