//! `telemetry`: the script sends something about the machine out, to an analytics
//! address or as the body of an upload.

use vstd::prelude::*;
use crate::model::{Category, Detail, Finding, FlagKind, Verdict};
use crate::script::{
    base_name, base_name_of, consumed, host, is_url, is_url_text, opt_text, operand, spec_host,
    Command, Ctx, Shared, Span,
};
use crate::search::{first_index, is_first, lemma_first_index, some_index};
use crate::text::{
    chars_of, contains, contains_upper, ends_with, has_infix, has_prefix, has_suffix, is_alnum,
    lower, lower_char, lower_range_eq, starts_with, str_eq, upper, upper_char, upper_eq,
};

verus! {

/// The check's name.
pub const ID: &'static str = "telemetry";

/// How serious its findings are.
pub const KIND: FlagKind = FlagKind::Red;

/// What it watches over.
pub const CATEGORY: Category = Category::Remote;

/// What it looks for.
pub const DESCRIPTION: &'static str = "Sends data out (POST/--data, or telemetry/analytics URLs), fingerprints the machine, or saves a tracking id";

/// A variable name that reads as a switch for reporting, such as `BEND_NO_TELEMETRY`
/// or `DO_NOT_TRACK`: its upper case holds one of the opt-out fragments.
pub open spec fn opt_out_name(g: Seq<char>) -> bool {
    let u = upper(g);
    ||| has_infix(u, "TELEMETRY"@)
    ||| has_infix(u, "ANALYTICS"@)
    ||| has_infix(u, "DO_NOT_TRACK"@)
    ||| has_infix(u, "TRACKING"@)
    ||| has_infix(u, "NO_TRACK"@)
    ||| has_infix(u, "OPT_OUT"@)
    ||| has_infix(u, "OPTOUT"@)
    ||| has_infix(u, "NO_STATS"@)
    ||| has_infix(u, "METRICS"@)
}

fn is_opt_out_name(g: &str) -> (r: bool)
    ensures
        r == opt_out_name(g@),
{
    contains_upper(g, "TELEMETRY") || contains_upper(g, "ANALYTICS") || contains_upper(
        g,
        "DO_NOT_TRACK",
    ) || contains_upper(g, "TRACKING") || contains_upper(g, "NO_TRACK") || contains_upper(
        g,
        "OPT_OUT",
    ) || contains_upper(g, "OPTOUT") || contains_upper(g, "NO_STATS") || contains_upper(
        g,
        "METRICS",
    )
}

/// The positions of the guard variables of `c` that read as opt-out switches.
pub open spec fn opt_out_positions(c: Command) -> spec_fn(int) -> bool {
    |i: int| 0 <= i < c.guards@.len() && opt_out_name(c.guards@[i]@)
}

/// The first guard variable of `c` that reads as an opt-out switch.
pub open spec fn spec_opt_out_variable(c: Command) -> Option<Seq<char>> {
    if some_index(opt_out_positions(c)) {
        Some(c.guards@[first_index(opt_out_positions(c))]@)
    } else {
        None
    }
}

/// The guard around the request that looks like a telemetry switch: the request only runs
/// under a condition testing `BEND_NO_TELEMETRY`, `DO_NOT_TRACK`, and the like.
pub fn opt_out_variable(c: &Command) -> (r: Option<String>)
    ensures
        opt_text(r) == spec_opt_out_variable(*c),
{
    let ghost p = opt_out_positions(*c);
    let mut i: usize = 0;
    while i < c.guards.len()
        invariant
            p == opt_out_positions(*c),
            i <= c.guards@.len(),
            forall|j: int| 0 <= j < i ==> !#[trigger] p(j),
        decreases c.guards.len() - i,
    {
        if is_opt_out_name(c.guards[i].as_str()) {
            proof {
                assert(is_first(p, i as int));
                lemma_first_index(p, i as int);
            }
            return Some(c.guards[i].clone());
        }
        i = i + 1;
    }
    assert(!some_index(p));
    None
}

/// An option of `curl` that sends a request body.
pub open spec fn curl_data_option(a: Seq<char>) -> bool {
    ||| a == "-d"@
    ||| a == "--data"@
    ||| a == "--data-raw"@
    ||| a == "--data-binary"@
    ||| a == "-F"@
    ||| a == "--form"@
    ||| has_prefix(a, "-d"@)
}

/// An HTTP method that writes.
pub open spec fn writing_method(m: Seq<char>) -> bool {
    let u = upper(m);
    u == "POST"@ || u == "PUT"@ || u == "PATCH"@
}

/// Argument `i` of a `curl` command makes it send something: a body option, or
/// `-X`/`--request` followed by a writing method (a `-X HEAD` probe sends nothing).
pub open spec fn curl_sends_at(args: Seq<Seq<char>>, i: int) -> bool {
    &&& 0 <= i < args.len()
    &&& {
        ||| curl_data_option(args[i])
        ||| (args[i] == "-X"@ || args[i] == "--request"@) && i + 1 < args.len() && writing_method(
            args[i + 1],
        )
    }
}

/// Argument `i` of a `wget` command posts data or a file.
pub open spec fn wget_posts_at(args: Seq<Seq<char>>, i: int) -> bool {
    &&& 0 <= i < args.len()
    &&& (has_prefix(args[i], "--post-data"@) || has_prefix(args[i], "--post-file"@))
}

/// The command uploads: a `curl` that sends a body or uses a writing method, or a
/// `wget` that posts.
pub open spec fn spec_uploads(c: Command) -> bool {
    let b = base_name(c.name@);
    let args = c.arg_texts();
    if b == "curl"@ {
        exists|i: int| curl_sends_at(args, i)
    } else if b == "wget"@ {
        exists|i: int| wget_posts_at(args, i)
    } else {
        false
    }
}

/// Whether the command uploads something.
pub fn uploads(c: &Command) -> (r: bool)
    ensures
        r == spec_uploads(*c),
{
    let b = base_name_of(c.name.as_str());
    let ghost args = c.arg_texts();
    let n = c.args.len();
    if str_eq(b.as_str(), "curl") {
        let mut i: usize = 0;
        while i < n
            invariant
                n == c.args@.len(),
                args == c.arg_texts(),
                i <= n,
                b@ == base_name(c.name@),
                b@ == "curl"@,
                forall|j: int| 0 <= j < i ==> !#[trigger] curl_sends_at(args, j),
            decreases n - i,
        {
            let a = c.args[i].text.as_str();
            assert(args[i as int] == a@);
            let data = str_eq(a, "-d") || str_eq(a, "--data") || str_eq(a, "--data-raw") || str_eq(
                a,
                "--data-binary",
            ) || str_eq(a, "-F") || str_eq(a, "--form") || starts_with(a, "-d");
            let method = (str_eq(a, "-X") || str_eq(a, "--request")) && i + 1 < n && {
                let m = c.args[i + 1].text.as_str();
                assert(args[i + 1] == m@);
                upper_eq(m, "POST") || upper_eq(m, "PUT") || upper_eq(m, "PATCH")
            };
            if data || method {
                assert(curl_sends_at(args, i as int));
                return true;
            }
            i = i + 1;
        }
        false
    } else if str_eq(b.as_str(), "wget") {
        let mut i: usize = 0;
        while i < n
            invariant
                n == c.args@.len(),
                args == c.arg_texts(),
                i <= n,
                b@ == base_name(c.name@),
                b@ == "wget"@,
                b@ != "curl"@,
                forall|j: int| 0 <= j < i ==> !#[trigger] wget_posts_at(args, j),
            decreases n - i,
        {
            let a = c.args[i].text.as_str();
            assert(args[i as int] == a@);
            if starts_with(a, "--post-data") || starts_with(a, "--post-file") {
                assert(wget_posts_at(args, i as int));
                return true;
            }
            i = i + 1;
        }
        false
    } else {
        false
    }
}

/// The command mints an identifier: `uuidgen`, or a `cat`/`head` of the kernel's
/// random UUID.
pub open spec fn spec_mints_identifier(c: Command) -> bool {
    let b = base_name(c.name@);
    if b == "uuidgen"@ {
        true
    } else if b == "cat"@ || b == "head"@ {
        exists|i: int|
            0 <= i < c.args@.len() && has_suffix(
                #[trigger] c.args@[i].text@,
                "/proc/sys/kernel/random/uuid"@,
            )
    } else {
        false
    }
}

/// `uuidgen > "$DIR/id"`, `cat /proc/sys/kernel/random/uuid > id`, `id=$(uuidgen)`: an
/// installer has no other reason to mint a UUID.
pub fn mints_identifier(c: &Command) -> (r: bool)
    ensures
        r == spec_mints_identifier(*c),
{
    let b = base_name_of(c.name.as_str());
    if str_eq(b.as_str(), "uuidgen") {
        true
    } else if str_eq(b.as_str(), "cat") || str_eq(b.as_str(), "head") {
        let mut i: usize = 0;
        while i < c.args.len()
            invariant
                i <= c.args@.len(),
                b@ == base_name(c.name@),
                b@ != "uuidgen"@,
                b@ == "cat"@ || b@ == "head"@,
                forall|j: int|
                    0 <= j < i ==> !has_suffix(
                        #[trigger] c.args@[j].text@,
                        "/proc/sys/kernel/random/uuid"@,
                    ),
            decreases c.args.len() - i,
        {
            if ends_with(c.args[i].text.as_str(), "/proc/sys/kernel/random/uuid") {
                return true;
            }
            i = i + 1;
        }
        false
    } else {
        false
    }
}

/// A character that continues a variable name.
pub open spec fn name_char(c: char) -> bool {
    is_alnum(c) || c == '_'
}

/// The length of the variable name at the start of `s`.
pub open spec fn name_len(s: Seq<char>) -> nat
    decreases s.len(),
{
    if s.len() > 0 && name_char(s[0]) {
        1 + name_len(s.skip(1))
    } else {
        0
    }
}

/// The length of `s` up to and including its first `}`, or all of `s` where it has none.
pub open spec fn brace_len(s: Seq<char>) -> nat
    decreases s.len(),
{
    if s.len() == 0 {
        0
    } else if s[0] == '}' {
        1
    } else {
        1 + brace_len(s.skip(1))
    }
}

/// The length of the expansion that follows a `$`: `{...}` through its closing brace,
/// else a variable name.
pub open spec fn expansion_len(after: Seq<char>) -> nat {
    if after.len() > 0 && after[0] == '{' {
        brace_len(after)
    } else {
        name_len(after)
    }
}

pub proof fn lemma_name_len_bound(s: Seq<char>)
    ensures
        name_len(s) <= s.len(),
    decreases s.len(),
{
    if s.len() > 0 && name_char(s[0]) {
        lemma_name_len_bound(s.skip(1));
    }
}

pub proof fn lemma_brace_len_bound(s: Seq<char>)
    ensures
        brace_len(s) <= s.len(),
    decreases s.len(),
{
    if s.len() > 0 && s[0] != '}' {
        lemma_brace_len_bound(s.skip(1));
    }
}

pub proof fn lemma_expansion_len_bound(s: Seq<char>)
    ensures
        expansion_len(s) <= s.len(),
{
    lemma_name_len_bound(s);
    lemma_brace_len_bound(s);
}

/// The text with every `$NAME` and `${...}` expansion removed.
pub open spec fn strip_expansions(s: Seq<char>) -> Seq<char>
    decreases s.len(),
{
    if s.len() == 0 {
        s
    } else if s[0] == '$' {
        let after = s.skip(1);
        proof {
            lemma_expansion_len_bound(after);
        }
        strip_expansions(after.skip(expansion_len(after) as int))
    } else {
        seq![s[0]] + strip_expansions(s.skip(1))
    }
}

proof fn lemma_name_len(s: Seq<char>, k: int)
    requires
        0 <= k <= s.len(),
        forall|m: int| 0 <= m < k ==> name_char(s[m]),
        k == s.len() || !name_char(s[k]),
    ensures
        name_len(s) == k,
    decreases k,
{
    if k > 0 {
        lemma_name_len(s.skip(1), k - 1);
    }
}

proof fn lemma_brace_len_found(s: Seq<char>, k: int)
    requires
        0 <= k < s.len(),
        s[k] == '}',
        forall|m: int| 0 <= m < k ==> s[m] != '}',
    ensures
        brace_len(s) == k + 1,
    decreases k,
{
    if k > 0 {
        lemma_brace_len_found(s.skip(1), k - 1);
    }
}

proof fn lemma_brace_len_missing(s: Seq<char>)
    requires
        forall|m: int| 0 <= m < s.len() ==> s[m] != '}',
    ensures
        brace_len(s) == s.len(),
    decreases s.len(),
{
    if s.len() > 0 {
        lemma_brace_len_missing(s.skip(1));
    }
}

fn is_name_char(c: char) -> (r: bool)
    ensures
        r == name_char(c),
{
    ('a' <= c && c <= 'z') || ('A' <= c && c <= 'Z') || ('0' <= c && c <= '9') || c == '_'
}

fn is_alnum_char(c: char) -> (r: bool)
    ensures
        r == is_alnum(c),
{
    ('a' <= c && c <= 'z') || ('A' <= c && c <= 'Z') || ('0' <= c && c <= '9')
}

/// The characters of `s` with expansions removed.
fn stripped(s: &str) -> (t: Vec<char>)
    ensures
        t@ == strip_expansions(s@),
{
    let x = chars_of(s);
    let n = x.len();
    let mut out: Vec<char> = Vec::new();
    let mut i: usize = 0;
    assert(x@.skip(0) =~= x@);
    while i < n
        invariant
            n == x@.len(),
            x@ == s@,
            i <= n,
            strip_expansions(s@) == out@ + strip_expansions(x@.skip(i as int)),
        decreases n - i,
    {
        let ghost rest = x@.skip(i as int);
        if x[i] == '$' {
            let start = i + 1;
            let ghost after = x@.skip(start as int);
            assert(rest.skip(1) =~= after);
            let mut j = start;
            let l: usize;
            if start < n && x[start] == '{' {
                while j < n && x[j] != '}'
                    invariant
                        start <= j <= n,
                        n == x@.len(),
                        forall|m: int| start <= m < j ==> x@[m] != '}',
                    decreases n - j,
                {
                    j = j + 1;
                }
                if j < n {
                    l = j - start + 1;
                    proof {
                        lemma_brace_len_found(after, (j - start) as int);
                    }
                } else {
                    l = n - start;
                    proof {
                        lemma_brace_len_missing(after);
                    }
                }
            } else {
                while j < n && is_name_char(x[j])
                    invariant
                        start <= j <= n,
                        n == x@.len(),
                        forall|m: int| start <= m < j ==> name_char(x@[m]),
                    decreases n - j,
                {
                    j = j + 1;
                }
                l = j - start;
                proof {
                    lemma_name_len(after, (j - start) as int);
                }
            }
            assert(l == expansion_len(after));
            assert(after.skip(l as int) =~= x@.skip(start + l));
            i = start + l;
        } else {
            let ghost before = out@;
            out.push(x[i]);
            assert(rest.skip(1) =~= x@.skip(i + 1));
            assert(out@ + strip_expansions(x@.skip(i + 1)) =~= before + (seq![x@[i as int]]
                + strip_expansions(x@.skip(i + 1))));
            i = i + 1;
        }
    }
    assert(x@.skip(n as int) =~= Seq::<char>::empty());
    assert(out@ + Seq::<char>::empty() =~= out@);
    out
}

/// `s[i..j]` is a whole word: a maximal run of ASCII letters and digits.
pub open spec fn word_at(s: Seq<char>, i: int, j: int) -> bool {
    &&& 0 <= i < j <= s.len()
    &&& (i == 0 || !is_alnum(s[i - 1]))
    &&& (j == s.len() || !is_alnum(s[j]))
    &&& forall|k: int| i <= k < j ==> is_alnum(#[trigger] s[k])
}

/// A word that names reporting.
pub open spec fn telemetry_word(w: Seq<char>) -> bool {
    ||| w == "telemetry"@
    ||| w == "analytics"@
    ||| w == "metrics"@
    ||| w == "track"@
    ||| w == "beacon"@
    ||| w == "collect"@
    ||| w == "stats"@
    ||| w == "event"@
    ||| w == "ping"@
}

/// Some whole word of the text, in lower case, names reporting.
pub open spec fn has_telemetry_word(s: Seq<char>) -> bool {
    exists|i: int, j: int| word_at(s, i, j) && telemetry_word(lower(#[trigger] s.subrange(i, j)))
}

/// `analytics.x.io/collect`, `x.io/install-event`: once its expansions are removed, some
/// whole word of the URL (a host label or a path word) names reporting.
pub open spec fn spec_looks_like_telemetry(url: Seq<char>) -> bool {
    has_telemetry_word(strip_expansions(url))
}

fn is_telemetry_word(t: &[char], i: usize, j: usize) -> (r: bool)
    requires
        i <= j <= t@.len(),
    ensures
        r == telemetry_word(lower(t@.subrange(i as int, j as int))),
{
    lower_range_eq(t, i, j, "telemetry") || lower_range_eq(t, i, j, "analytics") || lower_range_eq(
        t,
        i,
        j,
        "metrics",
    ) || lower_range_eq(t, i, j, "track") || lower_range_eq(t, i, j, "beacon") || lower_range_eq(
        t,
        i,
        j,
        "collect",
    ) || lower_range_eq(t, i, j, "stats") || lower_range_eq(t, i, j, "event") || lower_range_eq(
        t,
        i,
        j,
        "ping",
    )
}

/// Whether some whole word of `t`, in lower case, names reporting.
fn find_telemetry_word(t: &Vec<char>) -> (r: bool)
    ensures
        r == has_telemetry_word(t@),
{
    let n = t.len();
    let mut i: usize = 0;
    while i < n
        invariant
            n == t@.len(),
            i <= n,
            0 < i < n && is_alnum(t@[i as int]) ==> !is_alnum(t@[i - 1]),
            forall|a: int, b: int|
                word_at(t@, a, b) && a < i ==> !telemetry_word(lower(#[trigger] t@.subrange(a, b))),
        decreases n - i,
    {
        if !is_alnum_char(t[i]) {
            assert forall|a: int, b: int|
                word_at(t@, a, b) && a < i + 1 implies !telemetry_word(
                lower(#[trigger] t@.subrange(a, b)),
            ) by {
                if a == i {
                    assert(is_alnum(t@[a]));
                }
            }
            i = i + 1;
            continue;
        }
        let mut j = i + 1;
        while j < n && is_alnum_char(t[j])
            invariant
                n == t@.len(),
                i < j <= n,
                forall|k: int| i <= k < j ==> is_alnum(#[trigger] t@[k]),
            decreases n - j,
        {
            j = j + 1;
        }
        assert(word_at(t@, i as int, j as int));
        if is_telemetry_word(t.as_slice(), i, j) {
            return true;
        }
        assert forall|a: int, b: int|
            word_at(t@, a, b) && a < j + 1 implies !telemetry_word(
            lower(#[trigger] t@.subrange(a, b)),
        ) by {
            if a == i {
                if b < j {
                    assert(is_alnum(t@[b]));
                } else if b > j {
                    assert(is_alnum(t@[j as int]));
                }
            } else if i < a {
                if a <= j {
                    assert(is_alnum(t@[a - 1]));
                } else {
                    assert(is_alnum(t@[j as int]));
                }
            }
        }
        if j < n {
            i = j + 1;
        } else {
            i = j;
        }
    }
    false
}

/// `analytics.x.io/collect`, `x.io/install-event`: a hint as a whole host label or path word.
/// Expansions are dropped first so `pkgs.x.com/$TRACK/...` does not read as tracking.
pub fn looks_like_telemetry(url: &str) -> (r: bool)
    ensures
        r == spec_looks_like_telemetry(url@),
{
    let t = stripped(url);
    find_telemetry_word(&t)
}

/// The options of an upload that take the next word as their value.
pub open spec fn upload_value_option(t: Seq<char>) -> bool {
    ||| t == "-X"@
    ||| t == "--request"@
    ||| t == "-d"@
    ||| t == "--data"@
    ||| t == "--data-raw"@
    ||| t == "--data-binary"@
    ||| t == "-F"@
    ||| t == "--form"@
    ||| t == "-H"@
    ||| t == "--header"@
    ||| t == "-o"@
    ||| t == "--output"@
    ||| t == "-A"@
    ||| t == "--user-agent"@
    ||| t == "--max-time"@
    ||| t == "--connect-timeout"@
    ||| t == "--retry"@
    ||| t == "-u"@
    ||| t == "--user"@
}

/// `upload_value_option` as a value.
pub open spec fn upload_options() -> spec_fn(Seq<char>) -> bool {
    |t: Seq<char>| upload_value_option(t)
}

fn is_upload_value_option(t: &str) -> (r: bool)
    ensures
        r == upload_value_option(t@),
{
    str_eq(t, "-X") || str_eq(t, "--request") || str_eq(t, "-d") || str_eq(t, "--data") || str_eq(
        t,
        "--data-raw",
    ) || str_eq(t, "--data-binary") || str_eq(t, "-F") || str_eq(t, "--form") || str_eq(t, "-H")
        || str_eq(t, "--header") || str_eq(t, "-o") || str_eq(t, "--output") || str_eq(t, "-A")
        || str_eq(t, "--user-agent") || str_eq(t, "--max-time") || str_eq(t, "--connect-timeout")
        || str_eq(t, "--retry") || str_eq(t, "-u") || str_eq(t, "--user")
}

/// Argument `i` of `c` is a URL that the report goes to: the command uploads, or the
/// URL itself reads as telemetry.
pub open spec fn reporting_url_at(c: Command, i: int) -> bool {
    let args = c.arg_texts();
    &&& 0 <= i < args.len()
    &&& is_url(args[i])
    &&& (spec_uploads(c) || spec_looks_like_telemetry(args[i]))
}

/// `reporting_url_at` as a property of positions.
pub open spec fn reporting_urls(c: Command) -> spec_fn(int) -> bool {
    |i: int| reporting_url_at(c, i)
}

/// Argument `i` is an operand that names a destination by a variable or a path,
/// such as `$O/ping`.
pub open spec fn destination_operand_at(args: Seq<Seq<char>>, i: int) -> bool {
    &&& operand(args, i, upload_options())
    &&& (has_infix(args[i], "$"@) || has_infix(args[i], "/"@))
}

/// `destination_operand_at` as a property of positions.
pub open spec fn destination_operands(args: Seq<Seq<char>>) -> spec_fn(int) -> bool {
    |i: int| destination_operand_at(args, i)
}

/// The host of a URL, or the URL itself where it has none.
pub open spec fn host_or_url(u: Seq<char>) -> Seq<char> {
    match spec_host(u) {
        Some(h) => h,
        None => u,
    }
}

/// Where the request goes: the host of the first URL that reports, else, for an
/// upload, the first operand that names a variable or a path.
pub open spec fn spec_destination(c: Command) -> Option<Seq<char>> {
    let args = c.arg_texts();
    if some_index(reporting_urls(c)) {
        Some(host_or_url(args[first_index(reporting_urls(c))]))
    } else if !spec_uploads(c) {
        None
    } else if some_index(destination_operands(args)) {
        Some(args[first_index(destination_operands(args))])
    } else {
        None
    }
}

/// Where the request goes: a literal URL, else the `$ORIGIN/ping`-style operand.
pub fn destination(c: &Command) -> (r: Option<String>)
    ensures
        opt_text(r) == spec_destination(*c),
{
    let up = uploads(c);
    let n = c.args.len();
    let ghost args = c.arg_texts();
    let ghost ru = reporting_urls(*c);
    let mut i: usize = 0;
    while i < n
        invariant
            n == c.args@.len(),
            args == c.arg_texts(),
            ru == reporting_urls(*c),
            up == spec_uploads(*c),
            i <= n,
            forall|j: int| 0 <= j < i ==> !#[trigger] ru(j),
        decreases n - i,
    {
        let u = c.args[i].text.as_str();
        assert(args[i as int] == u@);
        if is_url_text(u) && (up || looks_like_telemetry(u)) {
            proof {
                assert(is_first(ru, i as int));
                lemma_first_index(ru, i as int);
            }
            return match host(u) {
                Some(h) => Some(h),
                None => Some(u.to_owned()),
            };
        }
        i = i + 1;
    }
    assert(!some_index(ru));
    if !up {
        return None;
    }
    let ghost dp = destination_operands(args);
    let mut skip = false;
    let mut i: usize = 0;
    while i < n
        invariant
            n == c.args@.len(),
            args == c.arg_texts(),
            args.len() == n,
            dp == destination_operands(args),
            !some_index(reporting_urls(*c)),
            spec_uploads(*c),
            i <= n,
            i < n ==> skip == consumed(args, i as int, upload_options()),
            forall|j: int| 0 <= j < i ==> !#[trigger] dp(j),
        decreases n - i,
    {
        let a = c.args[i].text.as_str();
        assert(args[i as int] == a@);
        if skip {
            skip = false;
            i = i + 1;
            continue;
        }
        if starts_with(a, "-") {
            skip = is_upload_value_option(a) && i + 1 < n;
            i = i + 1;
            continue;
        }
        if contains(a, "$") || contains(a, "/") {
            proof {
                assert(is_first(dp, i as int));
                lemma_first_index(dp, i as int);
            }
            return Some(a.to_owned());
        }
        i = i + 1;
    }
    proof {
        assert forall|j: int| 0 <= j implies !#[trigger] dp(j) by {
            if j < n {
                assert(!dp(j));
            }
        }
    }
    None
}

/// The number of machine probes that the check recognises.
pub const NUM_PROBES: usize = 8;

/// The command of machine probe `k`.
pub open spec fn probe_command(k: int) -> Seq<char> {
    if k == 0 {
        "uname"@
    } else if k == 1 {
        "hostname"@
    } else if k == 2 {
        "whoami"@
    } else if k == 3 {
        "id -u"@
    } else if k == 4 {
        "sw_vers"@
    } else if k == 5 {
        "lsb_release"@
    } else if k == 6 {
        "ifconfig"@
    } else {
        "ip addr"@
    }
}

/// What machine probe `k` tells about the machine.
pub open spec fn probe_fact(k: int) -> Seq<char> {
    if k == 0 {
        "OS and architecture"@
    } else if k == 1 {
        "hostname"@
    } else if k == 2 {
        "user name"@
    } else if k == 3 {
        "user id"@
    } else if k == 4 {
        "macOS version"@
    } else if k == 5 {
        "distro"@
    } else {
        "network interfaces"@
    }
}

fn probe(k: usize) -> (r: (&'static str, &'static str))
    requires
        k < NUM_PROBES,
    ensures
        r.0@ == probe_command(k as int),
        r.1@ == probe_fact(k as int),
{
    match k {
        0 => ("uname", "OS and architecture"),
        1 => ("hostname", "hostname"),
        2 => ("whoami", "user name"),
        3 => ("id -u", "user id"),
        4 => ("sw_vers", "macOS version"),
        5 => ("lsb_release", "distro"),
        6 => ("ifconfig", "network interfaces"),
        _ => ("ip addr", "network interfaces"),
    }
}

/// The word runs probe `k` in a command substitution: `$(uname ...` or `` `uname ...``.
pub open spec fn runs_probe(w: Seq<char>, k: int) -> bool {
    has_infix(w, "$("@ + probe_command(k)) || has_infix(w, "`"@ + probe_command(k))
}

/// The facts that the word `w` reveals through the first `k` probes, in probe order.
pub open spec fn word_facts(w: Seq<char>, k: int) -> Seq<Seq<char>>
    decreases k,
{
    if k <= 0 {
        Seq::empty()
    } else if runs_probe(w, k - 1) {
        word_facts(w, k - 1).push(probe_fact(k - 1))
    } else {
        word_facts(w, k - 1)
    }
}

/// The facts that the words reveal, word by word.
pub open spec fn words_facts(ws: Seq<Seq<char>>) -> Seq<Seq<char>>
    decreases ws.len(),
{
    if ws.len() == 0 {
        Seq::empty()
    } else {
        words_facts(ws.drop_last()) + word_facts(ws.last(), NUM_PROBES as int)
    }
}

/// The distinct elements of `s`, in the order in which they first appear.
pub open spec fn distinct_in_order<A>(s: Seq<A>) -> Seq<A>
    decreases s.len(),
{
    if s.len() == 0 {
        s
    } else {
        let d = distinct_in_order(s.drop_last());
        if d.contains(s.last()) {
            d
        } else {
            d.push(s.last())
        }
    }
}

/// The texts of a sequence of string slices.
pub open spec fn str_texts(v: Seq<&str>) -> Seq<Seq<char>> {
    v.map_values(|s: &str| s@)
}

/// What the command's words tell about the machine: each fact once, in the order
/// first seen.
pub open spec fn spec_fingerprints(c: Command) -> Seq<Seq<char>> {
    distinct_in_order(words_facts(c.arg_texts()))
}

proof fn lemma_distinct_push<A>(s: Seq<A>, x: A)
    ensures
        distinct_in_order(s.push(x)) == if distinct_in_order(s).contains(x) {
            distinct_in_order(s)
        } else {
            distinct_in_order(s).push(x)
        },
{
    assert(s.push(x).drop_last() =~= s);
}

/// Machine details that the command's words carry, such as `$(uname -s)` in a request body.
pub fn fingerprints(c: &Command) -> (out: Vec<&'static str>)
    ensures
        str_texts(out@) == spec_fingerprints(*c),
{
    let ghost args = c.arg_texts();
    let mut out: Vec<&'static str> = Vec::new();
    let mut i: usize = 0;
    assert(args.take(0) =~= Seq::<Seq<char>>::empty());
    while i < c.args.len()
        invariant
            args == c.arg_texts(),
            i <= c.args@.len(),
            str_texts(out@) == distinct_in_order(words_facts(args.take(i as int))),
        decreases c.args.len() - i,
    {
        let w = c.args[i].text.as_str();
        assert(args[i as int] == w@);
        let ghost before = words_facts(args.take(i as int));
        let mut k: usize = 0;
        assert(before + word_facts(w@, 0) =~= before);
        while k < NUM_PROBES
            invariant
                k <= NUM_PROBES,
                str_texts(out@) == distinct_in_order(before + word_facts(w@, k as int)),
            decreases NUM_PROBES - k,
        {
            let (cmd, fact) = probe(k);
            let mut sub = String::from_str("$(");
            sub.append(cmd);
            let mut tick = String::from_str("`");
            tick.append(cmd);
            let ghost prev = before + word_facts(w@, k as int);
            if contains(w, sub.as_str()) || contains(w, tick.as_str()) {
                assert(before + word_facts(w@, k + 1) =~= prev.push(fact@));
                proof {
                    lemma_distinct_push(prev, fact@);
                }
                let mut seen = false;
                let mut m: usize = 0;
                while m < out.len()
                    invariant
                        m <= out@.len(),
                        !seen ==> forall|j: int| 0 <= j < m ==> out@[j]@ != fact@,
                        seen ==> str_texts(out@).contains(fact@),
                    decreases out.len() - m,
                {
                    if str_eq(out[m], fact) {
                        assert(str_texts(out@)[m as int] == fact@);
                        seen = true;
                    }
                    m = m + 1;
                }
                if !seen {
                    assert(!str_texts(out@).contains(fact@)) by {
                        if str_texts(out@).contains(fact@) {
                            let j = choose|j: int|
                                0 <= j < str_texts(out@).len() && str_texts(out@)[j] == fact@;
                            assert(out@[j]@ == fact@);
                        }
                    }
                    let ghost old_out = out@;
                    out.push(fact);
                    assert(str_texts(out@) =~= str_texts(old_out).push(fact@));
                }
            } else {
                assert(before + word_facts(w@, k + 1) =~= prev);
            }
            k = k + 1;
        }
        assert(args.take(i + 1).drop_last() =~= args.take(i as int));
        assert(words_facts(args.take(i + 1)) == before + word_facts(w@, NUM_PROBES as int));
        i = i + 1;
    }
    assert(args.take(i as int) =~= args);
    out
}

/// The texts joined with `sep` between each two.
pub open spec fn join(s: Seq<Seq<char>>, sep: Seq<char>) -> Seq<char>
    decreases s.len(),
{
    if s.len() == 0 {
        Seq::empty()
    } else if s.len() == 1 {
        s[0]
    } else {
        join(s.drop_last(), sep) + sep + s.last()
    }
}

/// The texts joined with `sep` between each two.
pub fn join_strs(v: &Vec<&'static str>, sep: &str) -> (r: String)
    ensures
        r@ == join(str_texts(v@), sep@),
{
    let mut r = String::new();
    let mut i: usize = 0;
    assert(str_texts(v@).take(0) =~= Seq::<Seq<char>>::empty());
    while i < v.len()
        invariant
            i <= v@.len(),
            r@ == join(str_texts(v@).take(i as int), sep@),
        decreases v.len() - i,
    {
        let ghost t = str_texts(v@).take(i + 1);
        assert(t.drop_last() =~= str_texts(v@).take(i as int));
        assert(t.last() == v@[i as int]@);
        if i > 0 {
            r.append(sep);
        } else {
            assert(r@ =~= Seq::<char>::empty());
        }
        r.append(v[i]);
        i = i + 1;
    }
    assert(str_texts(v@).take(i as int) =~= str_texts(v@));
    r
}

/// The first phone-home of a script: where it goes, where it stands, what it tells
/// about the machine, and the opt-out variable its guard tests.
pub struct PhoneHome {
    pub destination: String,
    pub span: Span,
    pub facts: Vec<&'static str>,
    pub opt_out: Option<String>,
}

/// The texts of a phone-home: destination, location, facts, opt-out variable.
pub open spec fn home_view(h: PhoneHome) -> (Seq<char>, Span, Seq<Seq<char>>, Option<Seq<char>>) {
    (h.destination@, h.span, str_texts(h.facts@), opt_text(h.opt_out))
}

/// The command phones home: a network command with a destination.
pub open spec fn phones_home(shared: Shared, c: Command) -> bool {
    shared.spec_is_network(c.name@) && spec_destination(c) is Some
}

/// The phone-home that the command `c` makes.
pub open spec fn home_of(c: Command) -> (Seq<char>, Span, Seq<Seq<char>>, Option<Seq<char>>) {
    (spec_destination(c)->0, c.span, spec_fingerprints(c), spec_opt_out_variable(c))
}

/// Reports the first request that sends something about the machine out.
pub struct Telemetry {
    shared: Shared,
    home: Option<PhoneHome>,
    identifier: Option<Span>,
}

pub const TELEMETRY_EXPLANATION: &'static str = "The installer reports something about you or this machine; check what is sent and whether it can be disabled.";

pub const IDENTIFIER_EXPLANATION: &'static str = " A generated id is written to disk, so every later report from this machine can be linked together.";

pub const UNGUARDED_FIX: &'static str = "Nothing guards this request, so the report is sent unconditionally.";

/// The title of the finding for a phone-home, with or without a persistent identifier.
pub open spec fn telemetry_title(
    h: (Seq<char>, Span, Seq<Seq<char>>, Option<Seq<char>>),
    identified: bool,
) -> Seq<char> {
    "phones home to `"@ + h.0 + "`"@ + (if h.2.len() > 0 {
        " with your "@ + join(h.2, ", "@)
    } else {
        Seq::empty()
    }) + (if identified {
        " under a persistent identifier"@
    } else {
        Seq::empty()
    }) + (match h.3 {
        Some(v) => " (opt out: `"@ + v + "`)"@,
        None => Seq::empty(),
    })
}

/// The explanation of the finding, with or without a persistent identifier.
pub open spec fn telemetry_explanation(identified: bool) -> Seq<char> {
    TELEMETRY_EXPLANATION@ + if identified {
        IDENTIFIER_EXPLANATION@
    } else {
        Seq::empty()
    }
}

/// The suggested fix: how to opt out, or that nothing guards the request.
pub open spec fn telemetry_fix(opt_out: Option<Seq<char>>) -> Seq<char> {
    match opt_out {
        Some(v) => "The request only runs when `"@ + v
            + "` is unset; set it before running (`"@ + v
            + "=1 curl … | bashka`) to keep the report from being sent."@,
        None => UNGUARDED_FIX@,
    }
}

/// The finding for a phone-home.
pub open spec fn telemetry_detail(
    h: (Seq<char>, Span, Seq<Seq<char>>, Option<Seq<char>>),
    identified: bool,
    d: Detail,
) -> bool {
    &&& d.title@ == telemetry_title(h, identified)
    &&& d.explanation@ == telemetry_explanation(identified)
    &&& d.fix matches Some(f) && f@ == telemetry_fix(h.3)
    &&& d.span == Some(h.1)
}

impl Telemetry {
    /// The shared settings the check was built with.
    pub closed spec fn shared(self) -> Shared {
        self.shared
    }

    /// The first phone-home seen so far.
    pub closed spec fn home(self) -> Option<(Seq<char>, Span, Seq<Seq<char>>, Option<Seq<char>>)> {
        match self.home {
            Some(h) => Some(home_view(h)),
            None => None,
        }
    }

    /// Where the script first mints a persistent identifier.
    pub closed spec fn identifier(self) -> Option<Span> {
        self.identifier
    }

    /// A fresh check with the given settings.
    pub fn new(shared: Shared) -> (t: Telemetry)
        ensures
            t.shared() == shared,
            t.home() is None,
            t.identifier() is None,
    {
        Telemetry { shared, home: None, identifier: None }
    }

    /// Looks at one command: notes the first identifier minted and the first request
    /// that phones home. Reports nothing by itself.
    pub fn visit_command(&mut self, c: &Command) -> (v: Verdict)
        ensures
            v is Ignore,
            final(self).shared() == old(self).shared(),
            final(self).identifier() == if old(self).identifier() is None
                && spec_mints_identifier(*c) {
                Some(c.span)
            } else {
                old(self).identifier()
            },
            final(self).home() == if old(self).home() is None && phones_home(
                old(self).shared(),
                *c,
            ) {
                Some(home_of(*c))
            } else {
                old(self).home()
            },
    {
        if self.identifier.is_none() && mints_identifier(c) {
            self.identifier = Some(c.span);
        }
        if self.home.is_none() && self.shared.is_network(c.name.as_str()) {
            if let Some(dest) = destination(c) {
                let facts = fingerprints(c);
                let opt_out = opt_out_variable(c);
                self.home = Some(PhoneHome { destination: dest, span: c.span, facts, opt_out });
            }
        }
        Verdict::Ignore
    }

    /// Reports the first phone-home, with what it carries, whether an identifier ties
    /// the reports together, and how to opt out.
    pub fn finalize(&mut self, _ctx: &Ctx) -> (v: Verdict)
        ensures
            final(self).shared() == old(self).shared(),
            final(self).identifier() == old(self).identifier(),
            final(self).home() is None,
            match old(self).home() {
                None => v is Ignore,
                Some(h) => v matches Verdict::Red(d) && telemetry_detail(
                    h,
                    old(self).identifier() is Some,
                    d,
                ),
            },
    {
        let home = self.home.take();
        let h = match home {
            Some(h) => h,
            None => return Verdict::Ignore,
        };
        let ghost hv = home_view(h);
        let mut title = String::from_str("phones home to `");
        title.append(h.destination.as_str());
        title.append("`");
        let ghost t0 = title@;
        if h.facts.len() > 0 {
            title.append(" with your ");
            let joined = join_strs(&h.facts, ", ");
            title.append(joined.as_str());
            assert(title@ =~= t0 + (" with your "@ + joined@));
        } else {
            assert(title@ =~= t0 + Seq::<char>::empty());
        }
        let ghost t1 = title@;
        let mut explanation = String::from_str(TELEMETRY_EXPLANATION);
        if self.identifier.is_some() {
            title.append(" under a persistent identifier");
            explanation.append(IDENTIFIER_EXPLANATION);
            assert(title@ =~= t1 + " under a persistent identifier"@);
        } else {
            assert(title@ =~= t1 + Seq::<char>::empty());
            assert(explanation@ =~= TELEMETRY_EXPLANATION@ + Seq::<char>::empty());
        }
        let ghost t2 = title@;
        let fix = match &h.opt_out {
            Some(var) => {
                title.append(" (opt out: `");
                title.append(var.as_str());
                title.append("`)");
                assert(title@ =~= t2 + (" (opt out: `"@ + var@ + "`)"@));
                let mut f = String::from_str("The request only runs when `");
                f.append(var.as_str());
                f.append("` is unset; set it before running (`");
                f.append(var.as_str());
                f.append("=1 curl … | bashka`) to keep the report from being sent.");
                f
            },
            None => {
                assert(title@ =~= t2 + Seq::<char>::empty());
                String::from_str(UNGUARDED_FIX)
            },
        };
        Verdict::Red(Detail::new(title, explanation).fix(fix).at(h.span))
    }
}

/// The commands of the script that phone home, by position.
pub open spec fn home_commands(shared: Shared, ctx: Ctx) -> spec_fn(int) -> bool {
    |k: int| 0 <= k < ctx.commands@.len() && phones_home(shared, ctx.commands@[k])
}

/// The commands of the script that mint an identifier, by position.
pub open spec fn minting_commands(ctx: Ctx) -> spec_fn(int) -> bool {
    |k: int| 0 <= k < ctx.commands@.len() && spec_mints_identifier(ctx.commands@[k])
}

/// The phone-home of the first command that phones home, if any.
pub open spec fn first_home(shared: Shared, ctx: Ctx) -> Option<
    (Seq<char>, Span, Seq<Seq<char>>, Option<Seq<char>>),
> {
    if some_index(home_commands(shared, ctx)) {
        Some(home_of(ctx.commands@[first_index(home_commands(shared, ctx))]))
    } else {
        None
    }
}

/// Where the script first mints an identifier, if it does.
pub open spec fn first_identifier(ctx: Ctx) -> Option<Span> {
    if some_index(minting_commands(ctx)) {
        Some(ctx.commands@[first_index(minting_commands(ctx))].span)
    } else {
        None
    }
}

impl Telemetry {
    /// Runs the check over a whole script: every command in order, then the report.
    ///
    /// A script whose commands phone home gets exactly one finding, about the first
    /// request that does, noting a persistent identifier where any command (before or
    /// after the request) mints one; an identifier that is never sent is no finding.
    pub fn analyze(&mut self, ctx: &Ctx) -> (findings: Vec<Finding>)
        ensures
            final(self).shared() == old(self).shared(),
            final(self).home() is None,
            ({
                let home = if old(self).home() is Some {
                    old(self).home()
                } else {
                    first_home(old(self).shared(), *ctx)
                };
                let identified = old(self).identifier() is Some || first_identifier(*ctx) is Some;
                match home {
                    None => findings@.len() == 0,
                    Some(h) => {
                        &&& findings@.len() == 1
                        &&& findings@[0].kind is Red
                        &&& telemetry_detail(h, identified, findings@[0].detail)
                    },
                }
            }),
    {
        let ghost h0 = self.home();
        let ghost i0 = self.identifier();
        let ghost sh = self.shared();
        let ghost hp = home_commands(sh, *ctx);
        let ghost mp = minting_commands(*ctx);
        let mut k: usize = 0;
        while k < ctx.commands.len()
            invariant
                sh == self.shared(),
                hp == home_commands(sh, *ctx),
                mp == minting_commands(*ctx),
                k <= ctx.commands@.len(),
                self.home() == if h0 is Some {
                    h0
                } else if exists|j: int| 0 <= j < k && #[trigger] hp(j) {
                    Some(home_of(ctx.commands@[first_index(hp)]))
                } else {
                    None
                },
                self.identifier() == if i0 is Some {
                    i0
                } else if exists|j: int| 0 <= j < k && #[trigger] mp(j) {
                    Some(ctx.commands@[first_index(mp)].span)
                } else {
                    None
                },
            decreases ctx.commands.len() - k,
        {
            let ghost hb = self.home();
            let ghost ib = self.identifier();
            self.visit_command(&ctx.commands[k]);
            proof {
                if hb is None && h0 is None && hp(k as int) {
                    assert(is_first(hp, k as int));
                    lemma_first_index(hp, k as int);
                }
                if ib is None && i0 is None && mp(k as int) {
                    assert(is_first(mp, k as int));
                    lemma_first_index(mp, k as int);
                }
            }
            k = k + 1;
        }
        proof {
            if some_index(hp) {
                let j = choose|j: int| 0 <= j && #[trigger] hp(j);
                assert(0 <= j < k);
            }
            if some_index(mp) {
                let j = choose|j: int| 0 <= j && #[trigger] mp(j);
                assert(0 <= j < k);
            }
        }
        let mut findings: Vec<Finding> = Vec::new();
        if let Some(f) = self.finalize(ctx).into_finding() {
            findings.push(f);
        }
        findings
    }
}

/// A `curl` that sends no body and names no writing method (a `-X HEAD` or `-X GET`
/// probe) uploads nothing.
pub proof fn lemma_probe_uploads_nothing(c: Command)
    requires
        base_name(c.name@) == "curl"@,
        forall|i: int| 0 <= i < c.arg_texts().len() ==> !curl_data_option(#[trigger] c.arg_texts()[i]),
        forall|i: int|
            0 <= i < c.arg_texts().len() - 1 && (#[trigger] c.arg_texts()[i] == "-X"@
                || c.arg_texts()[i] == "--request"@) ==> !writing_method(c.arg_texts()[i + 1]),
    ensures
        !spec_uploads(c),
{
    let args = c.arg_texts();
    assert forall|i: int| !curl_sends_at(args, i) by {
        if 0 <= i < args.len() {
            assert(!curl_data_option(args[i]));
        }
    }
}

/// Text without `$` reads as itself, ahead of whatever follows it.
pub proof fn lemma_plain_text_kept(pre: Seq<char>, rest: Seq<char>)
    requires
        forall|k: int| 0 <= k < pre.len() ==> pre[k] != '$',
    ensures
        strip_expansions(pre + rest) == pre + strip_expansions(rest),
    decreases pre.len(),
{
    if pre.len() > 0 {
        let s = pre + rest;
        assert(s[0] == pre[0]);
        assert(s.skip(1) =~= pre.skip(1) + rest);
        lemma_plain_text_kept(pre.skip(1), rest);
        assert(seq![pre[0]] + (pre.skip(1) + strip_expansions(rest)) =~= pre + strip_expansions(
            rest,
        ));
    } else {
        assert(pre + rest =~= rest);
        assert(pre + strip_expansions(rest) =~= strip_expansions(rest));
    }
}

/// Variables are dropped before the words of a URL are read: in `pre$NAME post`,
/// where `pre` holds no `$` and `post` does not continue the name, what is read is
/// `pre` followed by what is read of `post`. So `pkgs.x.com/$TRACK/...` does not read
/// as tracking.
pub proof fn lemma_variables_are_dropped(pre: Seq<char>, name: Seq<char>, post: Seq<char>)
    requires
        forall|k: int| 0 <= k < pre.len() ==> pre[k] != '$',
        name.len() > 0,
        forall|k: int| 0 <= k < name.len() ==> name_char(#[trigger] name[k]),
        post.len() == 0 || !name_char(post[0]),
    ensures
        strip_expansions(pre + "$"@ + name + post) == pre + strip_expansions(post),
{
    reveal_strlit("$");
    let tail = "$"@ + name + post;
    assert(pre + "$"@ + name + post =~= pre + tail);
    lemma_plain_text_kept(pre, tail);
    let after = tail.skip(1);
    assert(after =~= name + post);
    assert(after[0] == name[0]);
    lemma_name_len(after, name.len() as int);
    assert(after.skip(name.len() as int) =~= post);
}

/// The character map `f` changes at most the case of letters: it keeps `$`, braces,
/// letters, digits and `_` as they are up to case.
pub open spec fn changes_case_only(f: spec_fn(char) -> char) -> bool {
    forall|c: char|
        #![trigger f(c)]
        {
            &&& (f(c) == '$') == (c == '$')
            &&& (f(c) == '{') == (c == '{')
            &&& (f(c) == '}') == (c == '}')
            &&& is_alnum(f(c)) == is_alnum(c)
            &&& name_char(f(c)) == name_char(c)
            &&& lower_char(f(c)) == lower_char(c)
        }
}

proof fn lemma_name_len_case(s: Seq<char>, f: spec_fn(char) -> char)
    requires
        changes_case_only(f),
    ensures
        name_len(s.map_values(f)) == name_len(s),
    decreases s.len(),
{
    if s.len() > 0 {
        assert(s.map_values(f)[0] == f(s[0]));
        assert(s.map_values(f).skip(1) =~= s.skip(1).map_values(f));
        lemma_name_len_case(s.skip(1), f);
    }
}

proof fn lemma_brace_len_case(s: Seq<char>, f: spec_fn(char) -> char)
    requires
        changes_case_only(f),
    ensures
        brace_len(s.map_values(f)) == brace_len(s),
    decreases s.len(),
{
    if s.len() > 0 {
        assert(s.map_values(f)[0] == f(s[0]));
        assert(s.map_values(f).skip(1) =~= s.skip(1).map_values(f));
        lemma_brace_len_case(s.skip(1), f);
    }
}

/// Removing expansions commutes with a change of case.
proof fn lemma_strip_case(s: Seq<char>, f: spec_fn(char) -> char)
    requires
        changes_case_only(f),
    ensures
        strip_expansions(s.map_values(f)) == strip_expansions(s).map_values(f),
    decreases s.len(),
{
    let m = s.map_values(f);
    if s.len() == 0 {
        assert(strip_expansions(s).map_values(f) =~= m);
    } else {
        assert(m[0] == f(s[0]));
        if s[0] == '$' {
            let after = s.skip(1);
            let after_m = m.skip(1);
            assert(after_m =~= after.map_values(f));
            if after.len() > 0 {
                assert(after_m[0] == f(after[0]));
            }
            lemma_name_len_case(after, f);
            lemma_brace_len_case(after, f);
            lemma_expansion_len_bound(after);
            let l = expansion_len(after) as int;
            assert(expansion_len(after_m) == l);
            assert(after_m.skip(l) =~= after.skip(l).map_values(f));
            lemma_strip_case(after.skip(l), f);
        } else {
            assert(m.skip(1) =~= s.skip(1).map_values(f));
            lemma_strip_case(s.skip(1), f);
            assert(seq![f(s[0])] + strip_expansions(s.skip(1)).map_values(f) =~= (seq![s[0]]
                + strip_expansions(s.skip(1))).map_values(f));
        }
    }
}

/// Whole words, read in lower case, are the same after a change of case.
proof fn lemma_words_case(s: Seq<char>, f: spec_fn(char) -> char)
    requires
        changes_case_only(f),
    ensures
        has_telemetry_word(s.map_values(f)) == has_telemetry_word(s),
{
    let m = s.map_values(f);
    assert forall|k: int| 0 <= k < s.len() implies is_alnum(#[trigger] m[k]) == is_alnum(s[k]) by {
        assert(m[k] == f(s[k]));
    }
    assert forall|i: int, j: int| 0 <= i <= j <= s.len() implies #[trigger] word_at(m, i, j)
        == word_at(s, i, j) by {
        if word_at(s, i, j) {
            assert forall|k: int| i <= k < j implies is_alnum(#[trigger] m[k]) by {
                assert(is_alnum(s[k]));
            }
        }
        if word_at(m, i, j) {
            assert forall|k: int| i <= k < j implies is_alnum(#[trigger] s[k]) by {
                assert(is_alnum(m[k]));
            }
        }
    }
    assert forall|i: int, j: int| 0 <= i <= j <= s.len() implies #[trigger] lower(m.subrange(i, j))
        == lower(s.subrange(i, j)) by {
        assert forall|k: int| 0 <= k < j - i implies lower(m.subrange(i, j))[k] == lower(
            s.subrange(i, j),
        )[k] by {
            assert(m[i + k] == f(s[i + k]));
        }
        assert(lower(m.subrange(i, j)) =~= lower(s.subrange(i, j)));
    }
    if has_telemetry_word(s) {
        let (i, j) = choose|i: int, j: int|
            word_at(s, i, j) && telemetry_word(lower(#[trigger] s.subrange(i, j)));
        assert(word_at(m, i, j) && telemetry_word(lower(m.subrange(i, j))));
    }
    if has_telemetry_word(m) {
        let (i, j) = choose|i: int, j: int|
            word_at(m, i, j) && telemetry_word(lower(#[trigger] m.subrange(i, j)));
        assert(word_at(s, i, j) && telemetry_word(lower(s.subrange(i, j))));
    }
}

proof fn lemma_case_maps()
    ensures
        changes_case_only(|c: char| lower_char(c)),
        changes_case_only(|c: char| upper_char(c)),
{
    assert forall|c: char| 'A' <= c && c <= 'Z' implies 'a' <= #[trigger] lower_char(c) && lower_char(
        c,
    ) <= 'z' && upper_char(lower_char(c)) == c && lower_char(lower_char(c)) == lower_char(c) by {
    }
    assert forall|c: char| 'a' <= c && c <= 'z' implies 'A' <= #[trigger] upper_char(c) && upper_char(
        c,
    ) <= 'Z' && lower_char(upper_char(c)) == c by {
    }
}

/// Telemetry words are matched regardless of ASCII case: a URL reads as telemetry
/// exactly when its lower-case and its upper-case forms do.
pub proof fn lemma_telemetry_ignores_case(u: Seq<char>)
    ensures
        spec_looks_like_telemetry(lower(u)) == spec_looks_like_telemetry(u),
        spec_looks_like_telemetry(upper(u)) == spec_looks_like_telemetry(u),
{
    lemma_case_maps();
    let lo = |c: char| lower_char(c);
    let up = |c: char| upper_char(c);
    assert(lower(u) =~= u.map_values(lo));
    assert(upper(u) =~= u.map_values(up));
    lemma_strip_case(u, lo);
    lemma_strip_case(u, up);
    lemma_words_case(strip_expansions(u), lo);
    lemma_words_case(strip_expansions(u), up);
}

/// The words that name reporting, in lower case.
pub open spec fn is_hint(w: Seq<char>) -> bool {
    ||| w == "telemetry"@
    ||| w == "analytics"@
    ||| w == "metrics"@
    ||| w == "track"@
    ||| w == "beacon"@
    ||| w == "collect"@
    ||| w == "stats"@
    ||| w == "event"@
    ||| w == "ping"@
}

/// A URL reads as telemetry when, once its expansions are removed, some whole word
/// of it (a maximal run of ASCII letters and digits) is, in lower case, one of
/// telemetry, analytics, metrics, track, beacon, collect, stats, event or ping.
pub proof fn lemma_hint_words_read_as_telemetry(u: Seq<char>, i: int, j: int)
    requires
        ({
            let s = strip_expansions(u);
            &&& 0 <= i < j <= s.len()
            &&& (i == 0 || !is_alnum(s[i - 1]))
            &&& (j == s.len() || !is_alnum(s[j]))
            &&& forall|k: int| i <= k < j ==> is_alnum(#[trigger] s[k])
            &&& is_hint(lower(s.subrange(i, j)))
        }),
    ensures
        spec_looks_like_telemetry(u),
{
    let s = strip_expansions(u);
    assert(word_at(s, i, j) && telemetry_word(lower(s.subrange(i, j))));
}

/// A URL without `$`, such as `https://telemetry.x.io/v1/install`, reads as telemetry
/// when one of its own whole words is, in lower case, a reporting word.
pub proof fn lemma_plain_hint_words_read_as_telemetry(u: Seq<char>, i: int, j: int)
    requires
        forall|k: int| 0 <= k < u.len() ==> u[k] != '$',
        0 <= i < j <= u.len(),
        i == 0 || !is_alnum(u[i - 1]),
        j == u.len() || !is_alnum(u[j]),
        forall|k: int| i <= k < j ==> is_alnum(#[trigger] u[k]),
        is_hint(lower(u.subrange(i, j))),
    ensures
        spec_looks_like_telemetry(u),
{
    lemma_plain_text_kept(u, Seq::empty());
    assert(u + Seq::<char>::empty() =~= u);
    assert(strip_expansions(Seq::<char>::empty()) =~= Seq::<char>::empty());
    lemma_hint_words_read_as_telemetry(u, i, j);
}

/// A `curl` (by base name) with an argument that is a body option (`-d`, `--data`,
/// `--data-raw`, `--data-binary`, `-F`, `--form`, or any word starting with `-d`)
/// uploads.
pub proof fn lemma_curl_body_options_upload(c: Command, i: int)
    requires
        base_name(c.name@) == "curl"@,
        0 <= i < c.args@.len(),
        ({
            let a = c.args@[i].text@;
            ||| a == "-d"@
            ||| a == "--data"@
            ||| a == "--data-raw"@
            ||| a == "--data-binary"@
            ||| a == "-F"@
            ||| a == "--form"@
            ||| has_prefix(a, "-d"@)
        }),
    ensures
        spec_uploads(c),
{
    assert(c.arg_texts()[i] == c.args@[i].text@);
    assert(curl_sends_at(c.arg_texts(), i));
}

/// A `curl` whose `-X` or `--request` is followed by POST, PUT or PATCH, in any case,
/// uploads.
pub proof fn lemma_curl_writing_methods_upload(c: Command, i: int)
    requires
        base_name(c.name@) == "curl"@,
        0 <= i && i + 1 < c.args@.len(),
        c.args@[i].text@ == "-X"@ || c.args@[i].text@ == "--request"@,
        ({
            let m = upper(c.args@[i + 1].text@);
            m == "POST"@ || m == "PUT"@ || m == "PATCH"@
        }),
    ensures
        spec_uploads(c),
{
    assert(c.arg_texts()[i] == c.args@[i].text@);
    assert(c.arg_texts()[i + 1] == c.args@[i + 1].text@);
    assert(curl_sends_at(c.arg_texts(), i));
}

/// A `wget` with an argument starting with `--post-data` or `--post-file` uploads.
pub proof fn lemma_wget_posts_upload(c: Command, i: int)
    requires
        base_name(c.name@) == "wget"@,
        0 <= i < c.args@.len(),
        has_prefix(c.args@[i].text@, "--post-data"@) || has_prefix(c.args@[i].text@, "--post-file"@),
    ensures
        spec_uploads(c),
{
    reveal_strlit("curl");
    reveal_strlit("wget");
    assert("curl"@[0] != "wget"@[0]);
    assert(c.arg_texts()[i] == c.args@[i].text@);
    assert(wget_posts_at(c.arg_texts(), i));
}

/// Only `curl` and `wget` upload.
pub proof fn lemma_only_curl_and_wget_upload(c: Command)
    requires
        base_name(c.name@) != "curl"@,
        base_name(c.name@) != "wget"@,
    ensures
        !spec_uploads(c),
{
}

/// A URL reads as telemetry only through a reporting word: where it reads as
/// telemetry, some whole word of it, once its expansions are removed, is in lower case
/// one of telemetry, analytics, metrics, track, beacon, collect, stats, event or ping.
pub proof fn lemma_telemetry_needs_a_hint_word(u: Seq<char>)
    requires
        spec_looks_like_telemetry(u),
    ensures
        exists|i: int, j: int|
            #![trigger strip_expansions(u).subrange(i, j)]
            {
                &&& 0 <= i < j <= strip_expansions(u).len()
                &&& (i == 0 || !is_alnum(strip_expansions(u)[i - 1]))
                &&& (j == strip_expansions(u).len() || !is_alnum(strip_expansions(u)[j]))
                &&& forall|k: int| i <= k < j ==> is_alnum(#[trigger] strip_expansions(u)[k])
                &&& is_hint(lower(strip_expansions(u).subrange(i, j)))
            },
{
    let s = strip_expansions(u);
    let (i, j) = choose|i: int, j: int|
        word_at(s, i, j) && telemetry_word(lower(#[trigger] s.subrange(i, j)));
    assert(is_hint(lower(s.subrange(i, j))));
}

/// A `curl` uploads only through a body option or a writing method: with no argument
/// that is `-d`, `--data`, `--data-raw`, `--data-binary`, `-F`, `--form` or starts
/// with `-d`, and no `-X`/`--request` followed by POST, PUT or PATCH in any case, it
/// uploads nothing.
pub proof fn lemma_curl_uploads_only_by_body_or_method(c: Command)
    requires
        base_name(c.name@) == "curl"@,
        forall|i: int|
            0 <= i < c.args@.len() ==> {
                let a = #[trigger] c.args@[i].text@;
                &&& a != "-d"@ && a != "--data"@ && a != "--data-raw"@ && a != "--data-binary"@
                &&& a != "-F"@ && a != "--form"@ && !has_prefix(a, "-d"@)
            },
        forall|i: int|
            0 <= i && i + 1 < c.args@.len() && (#[trigger] c.args@[i].text@ == "-X"@
                || c.args@[i].text@ == "--request"@) ==> {
                let m = upper(c.args@[i + 1].text@);
                m != "POST"@ && m != "PUT"@ && m != "PATCH"@
            },
    ensures
        !spec_uploads(c),
{
    let args = c.arg_texts();
    assert forall|i: int| !curl_sends_at(args, i) by {
        if 0 <= i < args.len() {
            assert(args[i] == c.args@[i].text@);
            if i + 1 < args.len() {
                assert(args[i + 1] == c.args@[i + 1].text@);
            }
        }
    }
}

/// A `wget` uploads only by `--post-data` or `--post-file`.
pub proof fn lemma_wget_uploads_only_by_posting(c: Command)
    requires
        base_name(c.name@) == "wget"@,
        forall|i: int|
            0 <= i < c.args@.len() ==> !has_prefix(#[trigger] c.args@[i].text@, "--post-data"@)
                && !has_prefix(c.args@[i].text@, "--post-file"@),
    ensures
        !spec_uploads(c),
{
    reveal_strlit("curl");
    reveal_strlit("wget");
    assert("curl"@[0] != "wget"@[0]);
    let args = c.arg_texts();
    assert forall|i: int| !wget_posts_at(args, i) by {
        if 0 <= i < args.len() {
            assert(args[i] == c.args@[i].text@);
        }
    }
}

/// A guard variable names an opt-out when its upper case contains TELEMETRY,
/// ANALYTICS, DO_NOT_TRACK, TRACKING, NO_TRACK, OPT_OUT, OPTOUT, NO_STATS or METRICS.
pub open spec fn names_opt_out(g: Seq<char>) -> bool {
    let u = upper(g);
    has_infix(u, "TELEMETRY"@) || has_infix(u, "ANALYTICS"@) || has_infix(u, "DO_NOT_TRACK"@)
        || has_infix(u, "TRACKING"@) || has_infix(u, "NO_TRACK"@) || has_infix(u, "OPT_OUT"@)
        || has_infix(u, "OPTOUT"@) || has_infix(u, "NO_STATS"@) || has_infix(u, "METRICS"@)
}

/// The opt-out of a request is its first guard variable that names an opt-out, and
/// a request none of whose guards names one has no opt-out.
pub proof fn lemma_first_opt_out_guard(c: Command, g: int)
    requires
        0 <= g <= c.guards@.len(),
        forall|h: int| 0 <= h < g ==> !names_opt_out(#[trigger] c.guards@[h]@),
        g < c.guards@.len() ==> names_opt_out(c.guards@[g]@),
    ensures
        g < c.guards@.len() ==> spec_opt_out_variable(c) == Some(c.guards@[g]@),
        g == c.guards@.len() ==> spec_opt_out_variable(c) is None,
{
    let p = opt_out_positions(c);
    assert forall|h: int| 0 <= h < g implies !#[trigger] p(h) by {
        assert(!names_opt_out(c.guards@[h]@));
    }
    if g < c.guards@.len() {
        assert(p(g));
        lemma_first_index(p, g);
    } else {
        assert forall|h: int| 0 <= h implies !#[trigger] p(h) by {
            if h < g {
                assert(!names_opt_out(c.guards@[h]@));
            }
        }
    }
}

/// `uuidgen` (by base name) always mints an identifier; a `cat` or `head` mints one
/// exactly when an argument ends with `/proc/sys/kernel/random/uuid`; no other
/// command does.
pub proof fn lemma_identifier_sources(c: Command)
    ensures
        base_name(c.name@) == "uuidgen"@ ==> spec_mints_identifier(c),
        base_name(c.name@) == "cat"@ || base_name(c.name@) == "head"@ ==> (spec_mints_identifier(c)
            <==> exists|i: int|
            0 <= i < c.args@.len() && has_suffix(
                #[trigger] c.args@[i].text@,
                "/proc/sys/kernel/random/uuid"@,
            )),
        base_name(c.name@) != "uuidgen"@ && base_name(c.name@) != "cat"@ && base_name(c.name@)
            != "head"@ ==> !spec_mints_identifier(c),
{
    reveal_strlit("uuidgen");
    reveal_strlit("cat");
    reveal_strlit("head");
    assert("uuidgen"@[0] != "cat"@[0] && "uuidgen"@[0] != "head"@[0]);
}

proof fn lemma_distinct_keeps(s: Seq<Seq<char>>, x: Seq<char>)
    requires
        s.contains(x),
    ensures
        distinct_in_order(s).contains(x),
    decreases s.len(),
{
    let d = distinct_in_order(s.drop_last());
    if s.last() == x {
        if !d.contains(x) {
            assert(d.push(x)[d.len() as int] == x);
        }
    } else {
        let i = choose|i: int| 0 <= i < s.len() && #[trigger] s[i] == x;
        assert(s.drop_last()[i] == x);
        lemma_distinct_keeps(s.drop_last(), x);
        if !d.contains(s.last()) {
            let j = choose|j: int| 0 <= j < d.len() && #[trigger] d[j] == x;
            assert(d.push(s.last())[j] == x);
        }
    }
}

proof fn lemma_distinct_only(s: Seq<Seq<char>>, x: Seq<char>)
    requires
        distinct_in_order(s).contains(x),
    ensures
        s.contains(x),
    decreases s.len(),
{
    if s.len() > 0 {
        let d = distinct_in_order(s.drop_last());
        if x == s.last() {
            assert(s[s.len() - 1] == x);
        } else {
            if !d.contains(s.last()) {
                let j = choose|j: int| 0 <= j < d.len() + 1 && #[trigger] d.push(s.last())[j] == x;
                assert(j < d.len());
                assert(d[j] == x);
            }
            lemma_distinct_only(s.drop_last(), x);
            let i = choose|i: int| 0 <= i < s.len() - 1 && #[trigger] s.drop_last()[i] == x;
            assert(s[i] == x);
        }
    }
}

proof fn lemma_distinct_unique(s: Seq<Seq<char>>)
    ensures
        forall|i: int, j: int|
            0 <= i < j < distinct_in_order(s).len() ==> distinct_in_order(s)[i] != distinct_in_order(
                s,
            )[j],
    decreases s.len(),
{
    if s.len() > 0 {
        lemma_distinct_unique(s.drop_last());
        let d = distinct_in_order(s.drop_last());
        let x = s.last();
        if !d.contains(x) {
            let e = d.push(x);
            assert forall|i: int, j: int| 0 <= i < j < e.len() implies e[i] != e[j] by {
                if j == d.len() {
                    assert(e[i] == d[i]);
                    if d[i] == x {
                        assert(d.contains(x));
                    }
                } else {
                    assert(e[i] == d[i] && e[j] == d[j]);
                }
            }
        }
    }
}

proof fn lemma_word_facts_has(w: Seq<char>, n: int, k: int)
    requires
        0 <= k < n,
        runs_probe(w, k),
    ensures
        word_facts(w, n).contains(probe_fact(k)),
    decreases n,
{
    if k == n - 1 {
        assert(word_facts(w, n)[word_facts(w, n).len() - 1] == probe_fact(k));
    } else {
        lemma_word_facts_has(w, n - 1, k);
        let i = choose|i: int|
            0 <= i < word_facts(w, n - 1).len() && #[trigger] word_facts(w, n - 1)[i] == probe_fact(k);
        if runs_probe(w, n - 1) {
            assert(word_facts(w, n)[i] == probe_fact(k));
        }
    }
}

proof fn lemma_words_facts_has(ws: Seq<Seq<char>>, i: int, x: Seq<char>)
    requires
        0 <= i < ws.len(),
        word_facts(ws[i], NUM_PROBES as int).contains(x),
    ensures
        words_facts(ws).contains(x),
    decreases ws.len(),
{
    let a = words_facts(ws.drop_last());
    let b = word_facts(ws.last(), NUM_PROBES as int);
    if i == ws.len() - 1 {
        let j = choose|j: int| 0 <= j < b.len() && #[trigger] b[j] == x;
        assert((a + b)[a.len() + j] == x);
    } else {
        assert(ws.drop_last()[i] == ws[i]);
        lemma_words_facts_has(ws.drop_last(), i, x);
        let j = choose|j: int| 0 <= j < a.len() && #[trigger] a[j] == x;
        assert((a + b)[j] == x);
    }
}

/// What a word tells by the machine probe it runs in a command substitution
/// (`$(probe` or `` `probe``): uname the OS and architecture, hostname the hostname,
/// whoami the user name, `id -u` the user id, sw_vers the macOS version, lsb_release
/// the distro, ifconfig and `ip addr` the network interfaces.
pub open spec fn probe_tells(p: Seq<char>, f: Seq<char>) -> bool {
    ||| p == "uname"@ && f == "OS and architecture"@
    ||| p == "hostname"@ && f == "hostname"@
    ||| p == "whoami"@ && f == "user name"@
    ||| p == "id -u"@ && f == "user id"@
    ||| p == "sw_vers"@ && f == "macOS version"@
    ||| p == "lsb_release"@ && f == "distro"@
    ||| p == "ifconfig"@ && f == "network interfaces"@
    ||| p == "ip addr"@ && f == "network interfaces"@
}

/// A command reports a machine detail when one of its words runs the probe for it:
/// the fact is among its fingerprints. The fingerprints hold each fact once.
pub proof fn lemma_probed_facts_are_reported(c: Command, i: int, p: Seq<char>, f: Seq<char>)
    requires
        0 <= i < c.args@.len(),
        probe_tells(p, f),
        has_infix(c.args@[i].text@, "$("@ + p) || has_infix(c.args@[i].text@, "`"@ + p),
    ensures
        spec_fingerprints(c).contains(f),
        forall|a: int, b: int|
            0 <= a < b < spec_fingerprints(c).len() ==> spec_fingerprints(c)[a]
                != spec_fingerprints(c)[b],
{
    let w = c.args@[i].text@;
    let k: int = if p == "uname"@ {
        0
    } else if p == "hostname"@ {
        1
    } else if p == "whoami"@ {
        2
    } else if p == "id -u"@ {
        3
    } else if p == "sw_vers"@ {
        4
    } else if p == "lsb_release"@ {
        5
    } else if p == "ifconfig"@ {
        6
    } else {
        7
    };
    reveal_strlit("uname");
    reveal_strlit("hostname");
    reveal_strlit("whoami");
    reveal_strlit("id -u");
    reveal_strlit("sw_vers");
    reveal_strlit("lsb_release");
    reveal_strlit("ifconfig");
    reveal_strlit("ip addr");
    assert("uname"@[0] != "hostname"@[0] && "uname"@[0] != "whoami"@[0] && "uname"@[0] != "id -u"@[0]);
    assert("uname"@[0] != "sw_vers"@[0] && "uname"@[0] != "lsb_release"@[0] && "uname"@[0] != "ifconfig"@[0]);
    assert("uname"@[0] != "ip addr"@[0] && "hostname"@[0] != "whoami"@[0] && "hostname"@[0] != "id -u"@[0]);
    assert("hostname"@[0] != "sw_vers"@[0] && "hostname"@[0] != "lsb_release"@[0] && "hostname"@[0] != "ifconfig"@[0]);
    assert("hostname"@[0] != "ip addr"@[0] && "whoami"@[0] != "id -u"@[0] && "whoami"@[0] != "sw_vers"@[0]);
    assert("whoami"@[0] != "lsb_release"@[0] && "whoami"@[0] != "ifconfig"@[0] && "whoami"@[0] != "ip addr"@[0]);
    assert("id -u"@[0] != "sw_vers"@[0] && "id -u"@[0] != "lsb_release"@[0] && "id -u"@[1] != "ifconfig"@[1]);
    assert("id -u"@[1] != "ip addr"@[1] && "sw_vers"@[0] != "lsb_release"@[0] && "sw_vers"@[0] != "ifconfig"@[0]);
    assert("sw_vers"@[0] != "ip addr"@[0] && "lsb_release"@[0] != "ifconfig"@[0] && "lsb_release"@[0] != "ip addr"@[0]);
    assert("ifconfig"@[1] != "ip addr"@[1]);
    assert(probe_command(k) == p && probe_fact(k) == f);
    assert(runs_probe(w, k));
    lemma_word_facts_has(w, NUM_PROBES as int, k);
    assert(c.arg_texts()[i] == w);
    lemma_words_facts_has(c.arg_texts(), i, f);
    lemma_distinct_keeps(words_facts(c.arg_texts()), f);
    lemma_distinct_unique(words_facts(c.arg_texts()));
}

proof fn lemma_word_facts_from(w: Seq<char>, n: int, x: Seq<char>)
    requires
        word_facts(w, n).contains(x),
    ensures
        exists|k: int| 0 <= k < n && runs_probe(w, k) && #[trigger] probe_fact(k) == x,
    decreases n,
{
    if n > 0 {
        let a = word_facts(w, n - 1);
        if runs_probe(w, n - 1) && x == probe_fact(n - 1) {
            assert(probe_fact(n - 1) == x);
        } else {
            if runs_probe(w, n - 1) {
                let j = choose|j: int| 0 <= j < a.len() + 1 && #[trigger] a.push(probe_fact(n - 1))[j] == x;
                assert(j < a.len() && a[j] == x);
            }
            lemma_word_facts_from(w, n - 1, x);
        }
    }
}

proof fn lemma_words_facts_from(ws: Seq<Seq<char>>, x: Seq<char>)
    requires
        words_facts(ws).contains(x),
    ensures
        exists|i: int, k: int|
            0 <= i < ws.len() && 0 <= k < NUM_PROBES && runs_probe(#[trigger] ws[i], k)
                && #[trigger] probe_fact(k) == x,
    decreases ws.len(),
{
    let a = words_facts(ws.drop_last());
    let b = word_facts(ws.last(), NUM_PROBES as int);
    let j = choose|j: int| 0 <= j < (a + b).len() && #[trigger] (a + b)[j] == x;
    if j < a.len() {
        assert(a[j] == x);
        lemma_words_facts_from(ws.drop_last(), x);
        let (i, k) = choose|i: int, k: int|
            0 <= i < ws.drop_last().len() && 0 <= k < NUM_PROBES && runs_probe(
                #[trigger] ws.drop_last()[i],
                k,
            ) && #[trigger] probe_fact(k) == x;
        assert(ws[i] == ws.drop_last()[i]);
    } else {
        assert(b[j - a.len()] == x);
        lemma_word_facts_from(ws.last(), NUM_PROBES as int, x);
        let k = choose|k: int|
            0 <= k < NUM_PROBES && runs_probe(ws.last(), k) && #[trigger] probe_fact(k) == x;
        assert(ws[ws.len() - 1] == ws.last());
    }
}

/// Every machine detail a command reports comes from a probe that one of its words
/// runs in a command substitution.
pub proof fn lemma_reported_facts_are_probed(c: Command, f: Seq<char>)
    requires
        spec_fingerprints(c).contains(f),
    ensures
        exists|i: int, p: Seq<char>|
            #![trigger c.args@[i], probe_tells(p, f)]
            0 <= i < c.args@.len() && probe_tells(p, f) && (has_infix(
                c.args@[i].text@,
                "$("@ + p,
            ) || has_infix(c.args@[i].text@, "`"@ + p)),
{
    lemma_distinct_only(words_facts(c.arg_texts()), f);
    lemma_words_facts_from(c.arg_texts(), f);
    let (i, k) = choose|i: int, k: int|
        0 <= i < c.arg_texts().len() && 0 <= k < NUM_PROBES && runs_probe(
            #[trigger] c.arg_texts()[i],
            k,
        ) && #[trigger] probe_fact(k) == f;
    assert(c.arg_texts()[i] == c.args@[i].text@);
    assert(probe_tells(probe_command(k), f));
    assert(runs_probe(c.args@[i].text@, k));
}

} // verus!
