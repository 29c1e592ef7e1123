//! The parsed form of a script that the checks read: its commands, the words of each
//! command, and the programs that the script writes to disk.

use vstd::prelude::*;
use crate::search::{first_index, is_first, lemma_first_index, some_index};
use crate::text::{chars_of, find_from, has_prefix, occurs_at, starts_with, str_eq};

verus! {

/// A range of positions in the script's source.
#[derive(Clone, Copy, Debug)]
pub struct Span {
    pub start: usize,
    pub end: usize,
}

/// One word of a command, with quotes removed and expansions kept as written.
#[derive(Debug)]
pub struct Word {
    pub text: String,
    pub span: Span,
}

/// One simple command.
#[derive(Debug)]
pub struct Command {
    /// The program run, e.g. `curl` (a leading `sudo` already removed).
    pub name: String,
    /// The arguments, in order.
    pub args: Vec<Word>,
    /// The targets of its redirections, e.g. `/etc/apt/sources.list.d/x.list`.
    pub redirects: Vec<Word>,
    /// The variables tested by the conditions that guard this command,
    /// e.g. `BEND_NO_TELEMETRY` in `[ -n "$BEND_NO_TELEMETRY" ] || curl ...`.
    pub guards: Vec<String>,
    pub span: Span,
}

/// A program the script writes to disk (a heredoc that starts with a shebang).
#[derive(Debug)]
pub struct Program {
    pub span: Span,
    /// The file it is written to, where the script names one.
    pub target: Option<String>,
}

/// A parsed script.
#[derive(Debug)]
pub struct Ctx {
    /// Every command, in the order of the source, including those inside written programs.
    pub commands: Vec<Command>,
    pub programs: Vec<Program>,
}

/// The texts of a sequence of words.
pub open spec fn texts(ws: Seq<Word>) -> Seq<Seq<char>> {
    ws.map_values(|w: Word| w.text@)
}

/// The last path component of a command name: `/usr/bin/curl` is `curl`.
pub open spec fn base_name(s: Seq<char>) -> Seq<char>
    decreases s.len(),
{
    if s.len() == 0 {
        s
    } else if s.last() == '/' {
        Seq::empty()
    } else {
        base_name(s.drop_last()).push(s.last())
    }
}

proof fn lemma_base_name_skip(s: Seq<char>, k: int)
    requires
        0 <= k <= s.len(),
        k == 0 || s[k - 1] == '/',
        forall|j: int| k <= j < s.len() ==> s[j] != '/',
    ensures
        base_name(s) == s.skip(k),
    decreases s.len(),
{
    if s.len() == k {
        assert(s.skip(k) =~= Seq::<char>::empty());
    } else {
        lemma_base_name_skip(s.drop_last(), k);
        assert(s.drop_last().skip(k).push(s.last()) =~= s.skip(k));
    }
}

/// The last path component of a command name.
pub fn base_name_of(s: &str) -> (r: String)
    ensures
        r@ == base_name(s@),
{
    let n = s.unicode_len();
    let mut k = n;
    while k > 0 && s.get_char(k - 1) != '/'
        invariant
            k <= n == s@.len(),
            forall|j: int| k <= j < n ==> s@[j] != '/',
        decreases k,
    {
        k = k - 1;
    }
    proof {
        lemma_base_name_skip(s@, k as int);
        assert(s@.subrange(k as int, n as int) =~= s@.skip(k as int));
    }
    s.substring_char(k, n).to_owned()
}

/// A URL that the script names literally.
pub open spec fn is_url(t: Seq<char>) -> bool {
    has_prefix(t, "http://"@) || has_prefix(t, "https://"@)
}

impl Command {
    /// The texts of the arguments.
    pub open spec fn arg_texts(self) -> Seq<Seq<char>> {
        texts(self.args@)
    }

    /// Some argument is exactly `a`.
    pub open spec fn spec_has_arg(self, a: Seq<char>) -> bool {
        self.arg_texts().contains(a)
    }

    /// Whether some argument is exactly `a`.
    pub fn has_arg(&self, a: &str) -> (r: bool)
        ensures
            r == self.spec_has_arg(a@),
    {
        let mut i: usize = 0;
        while i < self.args.len()
            invariant
                i <= self.args@.len(),
                forall|j: int| 0 <= j < i ==> self.args@[j].text@ != a@,
            decreases self.args.len() - i,
        {
            if str_eq(self.args[i].text.as_str(), a) {
                assert(self.arg_texts()[i as int] == a@);
                return true;
            }
            i = i + 1;
        }
        assert(!self.arg_texts().contains(a@));
        false
    }
}

/// Settings shared by all checks.
#[derive(Debug)]
pub struct Shared {
    /// The names of the commands that fetch from the network.
    pub network: Vec<String>,
}

impl Shared {
    /// The default settings: `curl` and `wget` fetch from the network.
    pub fn new() -> (s: Shared)
        ensures
            s.network@.len() == 2,
            s.network@[0]@ == "curl"@,
            s.network@[1]@ == "wget"@,
    {
        let mut network: Vec<String> = Vec::new();
        network.push(String::from_str("curl"));
        network.push(String::from_str("wget"));
        Shared { network }
    }

    /// The command `name` fetches from the network: its base name is one of the
    /// network commands.
    pub open spec fn spec_is_network(self, name: Seq<char>) -> bool {
        exists|i: int| 0 <= i < self.network@.len() && self.network@[i]@ == base_name(name)
    }

    /// Whether the command `name` fetches from the network.
    pub fn is_network(&self, name: &str) -> (r: bool)
        ensures
            r == self.spec_is_network(name@),
    {
        let b = base_name_of(name);
        let mut i: usize = 0;
        while i < self.network.len()
            invariant
                i <= self.network@.len(),
                b@ == base_name(name@),
                forall|j: int| 0 <= j < i ==> self.network@[j]@ != base_name(name@),
            decreases self.network.len() - i,
        {
            if str_eq(self.network[i].as_str(), b.as_str()) {
                return true;
            }
            i = i + 1;
        }
        false
    }

    /// The command downloads something: it is a network command.
    pub open spec fn spec_downloads(self, c: Command) -> bool {
        self.spec_is_network(c.name@)
    }

    /// Whether the command downloads something.
    pub fn downloads(&self, c: &Command) -> (r: bool)
        ensures
            r == self.spec_downloads(*c),
    {
        self.is_network(c.name.as_str())
    }
}

} // verus!

verus! {

/// Argument `i` is the value of the option just before it: that option takes a
/// value (by `takes`) and is not itself the value of an option.
pub open spec fn consumed(args: Seq<Seq<char>>, i: int, takes: spec_fn(Seq<char>) -> bool) -> bool
    decreases i,
{
    if i <= 0 {
        false
    } else {
        !consumed(args, i - 1, takes) && has_prefix(args[i - 1], "-"@) && takes(args[i - 1])
    }
}

/// Argument `i` is an operand: neither an option nor the value of one.
pub open spec fn operand(args: Seq<Seq<char>>, i: int, takes: spec_fn(Seq<char>) -> bool) -> bool {
    &&& 0 <= i < args.len()
    &&& !consumed(args, i, takes)
    &&& !has_prefix(args[i], "-"@)
}

} // verus!

verus! {

/// The text of an optional string.
pub open spec fn opt_text(o: Option<String>) -> Option<Seq<char>> {
    match o {
        Some(s) => Some(s@),
        None => None,
    }
}

/// A character that ends the host part of a URL.
pub open spec fn host_delimiter(c: char) -> bool {
    c == '/' || c == '?' || c == '#' || c == ':'
}

/// The positions at which `://` occurs in `u`.
pub open spec fn scheme_separators(u: Seq<char>) -> spec_fn(int) -> bool {
    |i: int| occurs_at(u, "://"@, i)
}

/// The positions at which the host part of `rest` can end.
pub open spec fn host_ends(rest: Seq<char>) -> spec_fn(int) -> bool {
    |k: int| k == rest.len() || (0 <= k < rest.len() && host_delimiter(rest[k]))
}

/// The host of a URL: what follows the first `://` up to the first `/`, `?`, `#` or
/// `:`, where that is not empty.
pub open spec fn spec_host(u: Seq<char>) -> Option<Seq<char>> {
    if some_index(scheme_separators(u)) {
        let rest = u.skip(first_index(scheme_separators(u)) + "://"@.len());
        let h = rest.take(first_index(host_ends(rest)));
        if h.len() > 0 {
            Some(h)
        } else {
            None
        }
    } else {
        None
    }
}

/// The host of a URL.
pub fn host(u: &str) -> (r: Option<String>)
    ensures
        opt_text(r) == spec_host(u@),
{
    let x = chars_of(u);
    let sep = chars_of("://");
    let n = x.len();
    match find_from(x.as_slice(), sep.as_slice(), 0) {
        None => {
            assert(!some_index(scheme_separators(u@)));
            None
        },
        Some(i) => {
            proof {
                assert(is_first(scheme_separators(u@), i as int));
                lemma_first_index(scheme_separators(u@), i as int);
            }
            let start = i + sep.len();
            let ghost rest = u@.skip(start as int);
            let mut k = start;
            while k < n && !(x[k] == '/' || x[k] == '?' || x[k] == '#' || x[k] == ':')
                invariant
                    start <= k <= n,
                    n == x@.len(),
                    x@ == u@,
                    forall|m: int| start <= m < k ==> !host_delimiter(x@[m]),
                decreases n - k,
            {
                k = k + 1;
            }
            proof {
                let e = host_ends(rest);
                assert(is_first(e, k - start)) by {
                    assert forall|j: int| 0 <= j < k - start implies !#[trigger] e(j) by {
                        assert(rest[j] == x@[start + j]);
                    }
                    if k < n {
                        assert(rest[k - start] == x@[k as int]);
                    }
                }
                lemma_first_index(e, k - start);
            }
            if k == start {
                None
            } else {
                let h = u.substring_char(start, k);
                assert(h@ =~= rest.take(k - start));
                Some(h.to_owned())
            }
        },
    }
}

/// Whether the word is a URL.
pub fn is_url_text(t: &str) -> (r: bool)
    ensures
        r == is_url(t@),
{
    starts_with(t, "http://") || starts_with(t, "https://")
}

/// The host of `https://HOST...` is HOST: the nonempty text after `https://` up to
/// the first `/`, `?`, `#` or `:`, or to the end.
pub proof fn lemma_https_host(h: Seq<char>, rest: Seq<char>)
    requires
        h.len() > 0,
        forall|k: int| 0 <= k < h.len() ==> !host_delimiter(#[trigger] h[k]),
        rest.len() == 0 || host_delimiter(rest[0]),
    ensures
        spec_host("https://"@ + h + rest) == Some(h),
{
    reveal_strlit("https://");
    reveal_strlit("://");
    let u = "https://"@ + h + rest;
    let sep = scheme_separators(u);
    assert(u.subrange(5, 8) =~= "://"@);
    assert(sep(5));
    assert forall|j: int| 0 <= j < 5 implies !#[trigger] sep(j) by {
        assert(u.subrange(j, j + 3)[0] == u[j]);
    }
    lemma_first_index(sep, 5);
    let r = u.skip(5 + "://"@.len() as int);
    assert(r =~= h + rest);
    let e = host_ends(r);
    assert forall|j: int| 0 <= j < h.len() implies !#[trigger] e(j) by {
        assert(r[j] == h[j]);
    }
    if rest.len() > 0 {
        assert(r[h.len() as int] == rest[0]);
    }
    assert(e(h.len() as int));
    lemma_first_index(e, h.len() as int);
    assert(r.take(h.len() as int) =~= h);
}

} // verus!
