//! The `auto_update` check, on scripts written out as the commands they run.

use bashka::auto_update::AutoUpdate;
use bashka::model::Finding;
use bashka::script::{Command, Ctx, Program, Shared, Span, Word};

/// Where `needle` first stands in `src`.
fn span_of(src: &str, needle: &str) -> Span {
    let start = src.find(needle).expect("the text is part of the script");
    Span { start, end: start + needle.len() }
}

/// A command of `src`: `raw` is its source text, the rest what it runs.
fn command(src: &str, raw: &str, name: &str, args: &[&str], redirects: &[&str]) -> Command {
    let span = span_of(src, raw);
    let word = |t: &&str| Word {
        text: t.to_string(),
        span: src[span.start..].find(*t).map_or(span, |i| Span {
            start: span.start + i,
            end: span.start + i + t.len(),
        }),
    };
    Command {
        name: name.to_string(),
        args: args.iter().map(word).collect(),
        redirects: redirects.iter().map(word).collect(),
        guards: Vec::new(),
        span,
    }
}

fn findings(ctx: &Ctx) -> Vec<Finding> {
    AutoUpdate::new(Shared::new()).analyze(ctx)
}

fn titles(ctx: &Ctx) -> Vec<String> {
    findings(ctx).into_iter().map(|f| f.detail.title).collect()
}

fn fires(ctx: &Ctx) -> bool {
    !findings(ctx).is_empty()
}

/// The script with a launcher that looks up the latest release each time it runs.
fn fetching_launcher() -> (String, Ctx) {
    let src = "cat > \"$B/bin/tool\" <<'EOF'\n#!/bin/sh\nrep=$(curl -fs \"$O/latest.json\")\nexec \"$B/current/tool\" \"$@\"\nEOF\nchmod +x \"$B/bin/tool\"".to_string();
    let body = span_of(&src, "#!/bin/sh\nrep=$(curl -fs \"$O/latest.json\")\nexec \"$B/current/tool\" \"$@\"\n");
    let ctx = Ctx {
        commands: vec![
            command(&src, "cat > \"$B/bin/tool\"", "cat", &[], &["$B/bin/tool"]),
            command(&src, "curl -fs \"$O/latest.json\"", "curl", &["-fs", "$O/latest.json"], &[]),
            command(&src, "exec \"$B/current/tool\" \"$@\"", "exec", &["$B/current/tool", "$@"], &[]),
            command(&src, "chmod +x \"$B/bin/tool\"", "chmod", &["+x", "$B/bin/tool"], &[]),
        ],
        programs: vec![Program { span: body, target: Some("$B/bin/tool".to_string()) }],
    };
    (src, ctx)
}

#[test]
fn fires_on_a_launcher_that_fetches() {
    let (_, ctx) = fetching_launcher();
    let t = titles(&ctx);
    assert_eq!(
        t,
        ["installs `$B/bin/tool`, which downloads on its own every time it runs"]
    );
}

#[test]
fn ignores_launchers_that_only_run_what_is_installed() {
    let src = "cat > \"$B/bin/tool\" <<'EOF'\n#!/bin/sh\nexport PATH=\"$B/bin:$PATH\"\nexec \"$B/lib/tool\" \"$@\"\nEOF";
    let ctx = Ctx {
        commands: vec![
            command(src, "cat > \"$B/bin/tool\"", "cat", &[], &["$B/bin/tool"]),
            command(src, "export PATH=\"$B/bin:$PATH\"", "export", &["PATH=$B/bin:$PATH"], &[]),
            command(src, "exec \"$B/lib/tool\" \"$@\"", "exec", &["$B/lib/tool", "$@"], &[]),
        ],
        programs: vec![Program {
            span: span_of(src, "#!/bin/sh\nexport PATH=\"$B/bin:$PATH\"\nexec \"$B/lib/tool\" \"$@\"\n"),
            target: Some("$B/bin/tool".to_string()),
        }],
    };
    assert!(!fires(&ctx));

    let src = "curl -fsSL https://x.io/t.tgz -o t.tgz\ncat > notes <<'EOF'\n#!/bin/sh\necho hi\nEOF";
    let ctx = Ctx {
        commands: vec![
            command(src, "curl -fsSL https://x.io/t.tgz -o t.tgz", "curl", &["-fsSL", "https://x.io/t.tgz", "-o", "t.tgz"], &[]),
            command(src, "cat > notes", "cat", &[], &["notes"]),
            command(src, "echo hi", "echo", &["hi"], &[]),
        ],
        programs: vec![Program {
            span: span_of(src, "#!/bin/sh\necho hi\n"),
            target: Some("notes".to_string()),
        }],
    };
    assert!(
        !fires(&ctx),
        "the installer's own download is not the program's"
    );
}

#[test]
fn the_finding_points_at_the_fetch_and_explains_it() {
    let (src, ctx) = fetching_launcher();
    let f = findings(&ctx);
    assert_eq!(f.len(), 1);
    assert!(matches!(f[0].kind, bashka::model::FlagKind::Red));
    let at = f[0].detail.span.expect("located");
    assert_eq!(&src[at.start..at.end], "curl -fs \"$O/latest.json\"");
    assert_eq!(
        f[0].detail.explanation,
        "The launcher this installer writes to disk contains a network fetch, so it updates itself later without asking."
    );
    assert!(f[0].detail.fix.as_deref().unwrap().starts_with("Read the written program"));
}

#[test]
fn an_unnamed_program_is_called_a_program() {
    let (_, mut ctx) = fetching_launcher();
    ctx.programs[0].target = None;
    assert_eq!(
        titles(&ctx),
        ["installs a program, which downloads on its own every time it runs"]
    );
}

#[test]
fn a_fetch_by_path_counts_as_a_download() {
    let src = "cat > run <<'EOF'\n#!/bin/sh\n/usr/bin/wget -q https://x.io/v\nEOF";
    let ctx = Ctx {
        commands: vec![
            command(src, "cat > run", "cat", &[], &["run"]),
            command(src, "/usr/bin/wget -q https://x.io/v", "/usr/bin/wget", &["-q", "https://x.io/v"], &[]),
        ],
        programs: vec![Program {
            span: span_of(src, "#!/bin/sh\n/usr/bin/wget -q https://x.io/v\n"),
            target: Some("run".to_string()),
        }],
    };
    assert_eq!(titles(&ctx), ["installs `run`, which downloads on its own every time it runs"]);
}

#[test]
fn a_script_without_programs_is_fine() {
    let src = "curl -fsSL https://x.io/t.tgz -o t.tgz";
    let ctx = Ctx {
        commands: vec![command(src, src, "curl", &["-fsSL", "https://x.io/t.tgz", "-o", "t.tgz"], &[])],
        programs: Vec::new(),
    };
    assert!(!fires(&ctx));
}
