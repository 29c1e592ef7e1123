//! `dynamic_download`: a fetch whose address is nothing but another command's output,
//! as in `curl -o f "$(get url)"`.

use vstd::prelude::*;
use crate::model::{Category, Detail, Finding, FlagKind, Verdict};
use crate::script::{base_name, base_name_of, consumed, operand, Command, Ctx, Shared, Word};
use crate::search::{first_index, is_first, lemma_first_index, some_index};
use crate::text::{contains, ends_with, has_infix, has_prefix, has_suffix, starts_with, str_eq};

verus! {

/// The check's name.
pub const ID: &'static str = "dynamic_download";

/// How serious its findings are.
pub const KIND: FlagKind = FlagKind::Red;

/// What it watches over.
pub const CATEGORY: Category = Category::Remote;

/// What it looks for.
pub const DESCRIPTION: &'static str = "Download URL is entirely another command's output, e.g. a field from a server reply (`curl \"$(get url)\"`); templated URLs like `$BASE/$VERSION/x` are fine";

/// The options of a download command that take the next word as their value, for
/// the tool `tool` (a base name). `-O` and `--directory-prefix` take a value for
/// `wget` only: `curl -O` (`--remote-name`) takes none, so in `curl -O "$(get url)"`
/// the substitution is the URL operand. `-P` takes a value for both tools (`wget`'s
/// directory prefix, `curl`'s `--ftp-port`).
pub open spec fn download_value_option(tool: Seq<char>, t: Seq<char>) -> bool {
    ||| t == "-o"@
    ||| t == "--output"@
    ||| t == "-H"@
    ||| t == "--header"@
    ||| t == "-d"@
    ||| t == "--data"@
    ||| t == "-A"@
    ||| t == "--user-agent"@
    ||| t == "--max-time"@
    ||| t == "--connect-timeout"@
    ||| t == "--retry"@
    ||| t == "-u"@
    ||| t == "--user"@
    ||| t == "-P"@
    ||| tool == "wget"@ && (t == "-O"@ || t == "--directory-prefix"@)
}

/// `download_value_option` for the tool `tool`, as a value.
pub open spec fn download_options(tool: Seq<char>) -> spec_fn(Seq<char>) -> bool {
    |t: Seq<char>| download_value_option(tool, t)
}

fn is_download_value_option(tool: &str, t: &str) -> (r: bool)
    ensures
        r == download_value_option(tool@, t@),
{
    str_eq(t, "-o") || str_eq(t, "--output") || str_eq(t, "-H") || str_eq(t, "--header")
        || str_eq(t, "-d") || str_eq(t, "--data") || str_eq(t, "-A") || str_eq(t, "--user-agent")
        || str_eq(t, "--max-time") || str_eq(t, "--connect-timeout") || str_eq(t, "--retry")
        || str_eq(t, "-u") || str_eq(t, "--user") || str_eq(t, "-P") || (str_eq(tool, "wget") && (
    str_eq(t, "-O") || str_eq(t, "--directory-prefix")))
}

/// The whole word is one command substitution: `$(...)` or `` `...` ``.
pub open spec fn whole_substitution(t: Seq<char>) -> bool {
    ||| has_prefix(t, "$("@) && has_suffix(t, ")"@)
    ||| has_prefix(t, "`"@) && has_suffix(t, "`"@)
}

/// Argument `i` of a `tool` command is an operand that is nothing but a command
/// substitution, and names no address of its own (no `://`).
pub open spec fn substituted_at(tool: Seq<char>, args: Seq<Seq<char>>, i: int) -> bool {
    &&& operand(args, i, download_options(tool))
    &&& whole_substitution(args[i])
    &&& !has_infix(args[i], "://"@)
}

/// `substituted_at` as a property of positions.
pub open spec fn substituted_positions(tool: Seq<char>, args: Seq<Seq<char>>) -> spec_fn(
    int,
) -> bool {
    |i: int| substituted_at(tool, args, i)
}

/// The position of the first substituted URL operand, if there is one.
pub open spec fn substituted_index(tool: Seq<char>, args: Seq<Seq<char>>) -> Option<int> {
    if some_index(substituted_positions(tool, args)) {
        Some(first_index(substituted_positions(tool, args)))
    } else {
        None
    }
}

/// The URL operand is nothing but a command substitution: `curl -o f "$(get url)"`.
pub fn substituted_url(c: &Command) -> (r: Option<&Word>)
    ensures
        r is Some <==> substituted_index(base_name(c.name@), c.arg_texts()) is Some,
        r matches Some(w) ==> *w == c.args@[substituted_index(base_name(c.name@), c.arg_texts())->0],
{
    let tool = base_name_of(c.name.as_str());
    let n = c.args.len();
    let ghost args = c.arg_texts();
    let ghost p = substituted_positions(tool@, args);
    let mut skip = false;
    let mut i: usize = 0;
    while i < n
        invariant
            n == c.args@.len(),
            args == c.arg_texts(),
            tool@ == base_name(c.name@),
            p == substituted_positions(tool@, args),
            args.len() == n,
            i <= n,
            i < n ==> skip == consumed(args, i as int, download_options(tool@)),
            forall|j: int| 0 <= j < i ==> !#[trigger] substituted_at(tool@, args, j),
        decreases n - i,
    {
        let t = c.args[i].text.as_str();
        assert(args[i as int] == t@);
        if skip {
            skip = false;
            i = i + 1;
            continue;
        }
        if starts_with(t, "-") {
            skip = is_download_value_option(tool.as_str(), t) && i + 1 < n;
            i = i + 1;
            continue;
        }
        let whole = (starts_with(t, "$(") && ends_with(t, ")")) || (starts_with(t, "`") && ends_with(
            t,
            "`",
        ));
        if whole && !contains(t, "://") {
            proof {
                assert(is_first(p, i as int));
                lemma_first_index(p, i as int);
            }
            return Some(&c.args[i]);
        }
        i = i + 1;
    }
    proof {
        assert forall|j: int| 0 <= j implies !#[trigger] p(j) by {
            if j < n {
                assert(!substituted_at(tool@, args, j));
            }
        }
    }
    None
}

/// Reports the first download whose URL is another command's output.
pub struct DynamicDownload {
    shared: Shared,
    reported: bool,
}

impl DynamicDownload {
    /// The shared settings the check was built with.
    pub closed spec fn shared(self) -> Shared {
        self.shared
    }

    /// The check has reported already.
    pub closed spec fn reported(self) -> bool {
        self.reported
    }

    /// A fresh check with the given settings.
    pub fn new(shared: Shared) -> (d: DynamicDownload)
        ensures
            d.shared() == shared,
            !d.reported(),
    {
        DynamicDownload { shared, reported: false }
    }
}

/// The title of the finding for the URL expression `url`.
pub open spec fn dynamic_download_title(url: Seq<char>) -> Seq<char> {
    "fetches a url that is constructed from the io at runtime, impossible to inspect: `"@ + url
        + "`"@
}

/// The command is one this check reports: a network command with a substituted URL.
pub open spec fn fetches_substituted(shared: Shared, c: Command) -> bool {
    shared.spec_is_network(c.name@) && substituted_index(base_name(c.name@), c.arg_texts()) is Some
}

/// The finding this check gives for the command `c`.
pub open spec fn dynamic_download_detail(c: Command, d: Detail) -> bool {
    let w = c.args@[substituted_index(base_name(c.name@), c.arg_texts())->0];
    &&& d.title@ == dynamic_download_title(w.text@)
    &&& d.explanation@ == DYNAMIC_DOWNLOAD_EXPLANATION@
    &&& d.fix matches Some(f) && f@ == DYNAMIC_DOWNLOAD_FIX@
    &&& d.span == Some(w.span)
}

pub const DYNAMIC_DOWNLOAD_EXPLANATION: &'static str = "The URL is not written in the script, not even as a template like `$BASE/releases/download/$VERSION/tool.tgz`; it is the output of another command, typically a field parsed out of a reply the server gave earlier.";

pub const DYNAMIC_DOWNLOAD_FIX: &'static str = "Find the command that produces the URL. If it reads a server reply, treat the download as untrusted; a release URL that the script names itself, even with `$VERSION` filled in, would not be flagged.";

impl DynamicDownload {
    /// Looks at one command: the first network command whose URL is a command
    /// substitution is reported, once.
    pub fn visit_command(&mut self, c: &Command) -> (v: Verdict)
        ensures
            final(self).shared() == old(self).shared(),
            !old(self).reported() && fetches_substituted(old(self).shared(), *c) ==> {
                &&& final(self).reported()
                &&& v matches Verdict::Red(d) && dynamic_download_detail(*c, d)
            },
            !(!old(self).reported() && fetches_substituted(old(self).shared(), *c)) ==> {
                &&& final(self).reported() == old(self).reported()
                &&& v is Ignore
            },
    {
        if self.reported || !self.shared.is_network(c.name.as_str()) {
            return Verdict::Ignore;
        }
        let w = match substituted_url(c) {
            Some(w) => w,
            None => return Verdict::Ignore,
        };
        self.reported = true;
        let mut title = String::from_str(
            "fetches a url that is constructed from the io at runtime, impossible to inspect: `",
        );
        title.append(w.text.as_str());
        title.append("`");
        Verdict::Red(
            Detail::new(title, String::from_str(DYNAMIC_DOWNLOAD_EXPLANATION)).fix(
                String::from_str(DYNAMIC_DOWNLOAD_FIX),
            ).at(w.span),
        )
    }
}

/// The commands of the script that this check reports, by position.
pub open spec fn substituted_fetches(shared: Shared, ctx: Ctx) -> spec_fn(int) -> bool {
    |k: int| 0 <= k < ctx.commands@.len() && fetches_substituted(shared, ctx.commands@[k])
}

impl DynamicDownload {
    /// Runs the check over a whole script: every command in order.
    ///
    /// A script with a download whose URL is a command's output gets exactly one
    /// finding, about the first such download; any other script gets none, and a
    /// check that has reported already reports nothing more.
    pub fn analyze(&mut self, ctx: &Ctx) -> (findings: Vec<Finding>)
        ensures
            final(self).shared() == old(self).shared(),
            old(self).reported() || !some_index(substituted_fetches(old(self).shared(), *ctx)) ==> {
                &&& findings@.len() == 0
                &&& final(self).reported() == old(self).reported()
            },
            !old(self).reported() && some_index(substituted_fetches(old(self).shared(), *ctx)) ==> {
                &&& final(self).reported()
                &&& findings@.len() == 1
                &&& findings@[0].kind is Red
                &&& dynamic_download_detail(
                    ctx.commands@[first_index(substituted_fetches(old(self).shared(), *ctx))],
                    findings@[0].detail,
                )
            },
    {
        let ghost was = self.reported();
        let ghost ap = substituted_fetches(self.shared(), *ctx);
        let ghost sh = self.shared();
        let mut findings: Vec<Finding> = Vec::new();
        let mut k: usize = 0;
        while k < ctx.commands.len()
            invariant
                sh == self.shared(),
                ap == substituted_fetches(sh, *ctx),
                k <= ctx.commands@.len(),
                was ==> self.reported() && findings@.len() == 0,
                !was ==> (self.reported() <==> exists|j: int| 0 <= j < k && #[trigger] ap(j)),
                !was && !self.reported() ==> findings@.len() == 0,
                !was && self.reported() ==> {
                    &&& is_first(ap, first_index(ap))
                    &&& findings@.len() == 1
                    &&& findings@[0].kind is Red
                    &&& dynamic_download_detail(ctx.commands@[first_index(ap)], findings@[0].detail)
                },
            decreases ctx.commands.len() - k,
        {
            let ghost before = self.reported();
            let v = self.visit_command(&ctx.commands[k]);
            proof {
                if !before && ap(k as int) {
                    assert(is_first(ap, k as int));
                    lemma_first_index(ap, k as int);
                }
            }
            if let Some(f) = v.into_finding() {
                findings.push(f);
            }
            k = k + 1;
        }
        proof {
            if some_index(ap) {
                let j = choose|j: int| 0 <= j && #[trigger] ap(j);
                assert(0 <= j < k);
            }
        }
        findings
    }
}

/// A URL that the script writes itself is never reported, even with `$VERSION` filled
/// in or a command substitution inside it: a word that holds `://`, or that does not
/// begin with `$(` or a backquote, is never taken for another command's output.
pub proof fn lemma_written_urls_are_fine(tool: Seq<char>, args: Seq<Seq<char>>, i: int)
    requires
        has_infix(args[i], "://"@) || !(has_prefix(args[i], "$("@) || has_prefix(args[i], "`"@)),
    ensures
        !substituted_at(tool, args, i),
{
}

/// The value of an option such as `-o "$(mktemp)"` is never taken for the URL.
pub proof fn lemma_option_values_are_not_urls(tool: Seq<char>, args: Seq<Seq<char>>, i: int)
    requires
        consumed(args, i, download_options(tool)),
    ensures
        !substituted_at(tool, args, i),
{
}

/// Only the value options consume the next word. In a `tool` command whose arguments
/// before position `i` are all options other than `-o`, `--output`, `-H`, `--header`,
/// `-d`, `--data`, `-A`, `--user-agent`, `--max-time`, `--connect-timeout`, `--retry`,
/// `-u`, `--user`, `-P` (and, for `wget`, `-O` and `--directory-prefix`), such as `-L`
/// or `curl`'s `-O`, an argument `i` that is a whole `$(...)` or backquoted
/// substitution without `://` is the substituted URL.
pub proof fn lemma_unlisted_options_take_no_value(tool: Seq<char>, args: Seq<Seq<char>>, i: int)
    requires
        0 <= i < args.len(),
        (has_prefix(args[i], "$("@) && has_suffix(args[i], ")"@)) || (has_prefix(args[i], "`"@)
            && has_suffix(args[i], "`"@)),
        !has_infix(args[i], "://"@),
        forall|j: int|
            0 <= j < i ==> {
                let a = #[trigger] args[j];
                &&& has_prefix(a, "-"@)
                &&& a != "-o"@ && a != "--output"@ && a != "-H"@ && a != "--header"@
                &&& a != "-d"@ && a != "--data"@ && a != "-A"@ && a != "--user-agent"@
                &&& a != "--max-time"@ && a != "--connect-timeout"@ && a != "--retry"@
                &&& a != "-u"@ && a != "--user"@ && a != "-P"@
                &&& tool == "wget"@ ==> a != "-O"@ && a != "--directory-prefix"@
            },
    ensures
        substituted_index(tool, args) == Some(i),
{
    reveal_strlit("$(");
    reveal_strlit("`");
    reveal_strlit("-");
    let p = substituted_positions(tool, args);
    assert(args[i].subrange(0, 1)[0] == args[i][0]);
    assert(!has_prefix(args[i], "-"@));
    if i > 0 {
        assert(!download_value_option(tool, args[i - 1]));
    }
    assert(!consumed(args, i, download_options(tool)));
    assert(p(i));
    assert forall|j: int| 0 <= j < i implies !#[trigger] p(j) by {
        assert(has_prefix(args[j], "-"@));
    }
    assert(is_first(p, i));
    lemma_first_index(p, i);
}

/// The value options consume the next word. In a `tool` command whose arguments
/// before position `i - 1` are options that take no value, an argument `i` that
/// follows `-o`, `--output`, `-H`, `--header`, `-d`, `--data`, `-A`, `--user-agent`,
/// `--max-time`, `--connect-timeout`, `--retry`, `-u`, `--user`, `-P` (or, for `wget`,
/// `-O` or `--directory-prefix`) is that option's value, never the substituted URL.
pub proof fn lemma_listed_options_take_a_value(tool: Seq<char>, args: Seq<Seq<char>>, i: int)
    requires
        0 < i < args.len(),
        ({
            let a = args[i - 1];
            ||| a == "-o"@ || a == "--output"@ || a == "-H"@ || a == "--header"@
            ||| a == "-d"@ || a == "--data"@ || a == "-A"@ || a == "--user-agent"@
            ||| a == "--max-time"@ || a == "--connect-timeout"@ || a == "--retry"@
            ||| a == "-u"@ || a == "--user"@ || a == "-P"@
            ||| tool == "wget"@ && (a == "-O"@ || a == "--directory-prefix"@)
        }),
        forall|j: int| 0 <= j < i - 1 ==> !download_value_option(tool, #[trigger] args[j]),
    ensures
        !substituted_at(tool, args, i),
{
    reveal_strlit("-");
    reveal_strlit("-o");
    reveal_strlit("--output");
    reveal_strlit("-H");
    reveal_strlit("--header");
    reveal_strlit("-d");
    reveal_strlit("--data");
    reveal_strlit("-A");
    reveal_strlit("--user-agent");
    reveal_strlit("--max-time");
    reveal_strlit("--connect-timeout");
    reveal_strlit("--retry");
    reveal_strlit("-u");
    reveal_strlit("--user");
    reveal_strlit("-P");
    reveal_strlit("-O");
    reveal_strlit("--directory-prefix");
    let a = args[i - 1];
    assert(a[0] == '-');
    assert(a.subrange(0, 1) =~= "-"@);
    if i - 1 > 0 {
        assert(!download_value_option(tool, args[i - 2]));
    }
    assert(!consumed(args, i - 1, download_options(tool)));
    assert(consumed(args, i, download_options(tool)));
}

} // verus!
