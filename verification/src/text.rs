//! Character-level helpers over the text of words and names.

use vstd::prelude::*;

verus! {

/// `p` occurs in `s` starting at position `i`.
pub open spec fn occurs_at(s: Seq<char>, p: Seq<char>, i: int) -> bool {
    &&& 0 <= i
    &&& i + p.len() <= s.len()
    &&& s.subrange(i, i + p.len()) == p
}

/// `s` begins with `p`.
pub open spec fn has_prefix(s: Seq<char>, p: Seq<char>) -> bool {
    occurs_at(s, p, 0)
}

/// `s` ends with `p`.
pub open spec fn has_suffix(s: Seq<char>, p: Seq<char>) -> bool {
    p.len() <= s.len() && occurs_at(s, p, s.len() - p.len())
}

/// `p` occurs somewhere in `s`.
pub open spec fn has_infix(s: Seq<char>, p: Seq<char>) -> bool {
    exists|i: int| occurs_at(s, p, i)
}

/// An ASCII letter or digit.
pub open spec fn is_alnum(c: char) -> bool {
    ||| ('a' <= c && c <= 'z')
    ||| ('A' <= c && c <= 'Z')
    ||| ('0' <= c && c <= '9')
}

/// ASCII upper case of one character; every other character is kept.
pub open spec fn upper_char(c: char) -> char {
    if 'a' <= c && c <= 'z' {
        ((c as u32) - 32) as char
    } else {
        c
    }
}

/// ASCII lower case of one character; every other character is kept.
pub open spec fn lower_char(c: char) -> char {
    if 'A' <= c && c <= 'Z' {
        ((c as u32) + 32) as char
    } else {
        c
    }
}

/// ASCII upper case of a text.
pub open spec fn upper(s: Seq<char>) -> Seq<char> {
    s.map_values(|c: char| upper_char(c))
}

/// ASCII lower case of a text.
pub open spec fn lower(s: Seq<char>) -> Seq<char> {
    s.map_values(|c: char| lower_char(c))
}

/// The characters of a string slice.
pub fn chars_of(s: &str) -> (v: Vec<char>)
    ensures
        v@ == s@,
{
    let n = s.unicode_len();
    let mut v: Vec<char> = Vec::new();
    let mut i: usize = 0;
    while i < n
        invariant
            n == s@.len(),
            i <= n,
            v@ == s@.subrange(0, i as int),
        decreases n - i,
    {
        v.push(s.get_char(i));
        i = i + 1;
    }
    assert(v@ =~= s@);
    v
}

/// Whether `p` occurs in `s` at position `i`.
pub fn matches_at(s: &[char], p: &[char], i: usize) -> (r: bool)
    ensures
        r == occurs_at(s@, p@, i as int),
{
    if i > s.len() || p.len() > s.len() - i {
        return false;
    }
    let mut k: usize = 0;
    while k < p.len()
        invariant
            i + p@.len() <= s@.len(),
            s@.len() <= usize::MAX,
            k <= p@.len(),
            forall|j: int| 0 <= j < k ==> s@[i + j] == p@[j],
        decreases p.len() - k,
    {
        if s[i + k] != p[k] {
            assert(s@.subrange(i as int, i + p@.len())[k as int] != p@[k as int]);
            return false;
        }
        k = k + 1;
    }
    assert(s@.subrange(i as int, i + p@.len()) =~= p@);
    true
}

/// Whether two string slices hold the same text.
pub fn str_eq(a: &str, b: &str) -> (r: bool)
    ensures
        r == (a@ == b@),
{
    let x = chars_of(a);
    let y = chars_of(b);
    if x.len() != y.len() {
        return false;
    }
    let r = matches_at(x.as_slice(), y.as_slice(), 0);
    proof {
        if r {
            assert(x@.subrange(0, x@.len() as int) =~= x@);
        }
        if a@ == b@ {
            assert(x@.subrange(0, x@.len() as int) =~= x@);
        }
    }
    r
}

/// Whether `s` begins with `p`.
pub fn starts_with(s: &str, p: &str) -> (r: bool)
    ensures
        r == has_prefix(s@, p@),
{
    let x = chars_of(s);
    let y = chars_of(p);
    matches_at(x.as_slice(), y.as_slice(), 0)
}

/// Whether `s` ends with `p`.
pub fn ends_with(s: &str, p: &str) -> (r: bool)
    ensures
        r == has_suffix(s@, p@),
{
    let x = chars_of(s);
    let y = chars_of(p);
    if y.len() > x.len() {
        return false;
    }
    matches_at(x.as_slice(), y.as_slice(), x.len() - y.len())
}

/// The first position at which `p` occurs in `s` at or after `from`.
pub fn find_from(s: &[char], p: &[char], from: usize) -> (r: Option<usize>)
    ensures
        match r {
            Some(i) => from <= i && occurs_at(s@, p@, i as int) && forall|j: int|
                from <= j < i ==> !occurs_at(s@, p@, j),
            None => forall|j: int| from <= j ==> !occurs_at(s@, p@, j),
        },
{
    if from > s.len() {
        return None;
    }
    let mut i = from;
    while i < s.len()
        invariant
            from <= i <= s.len(),
            forall|j: int| from <= j < i ==> !occurs_at(s@, p@, j),
        decreases s.len() - i,
    {
        if matches_at(s, p, i) {
            return Some(i);
        }
        i = i + 1;
    }
    if matches_at(s, p, i) {
        return Some(i);
    }
    None
}

/// Whether `p` occurs anywhere in `s`.
pub fn contains(s: &str, p: &str) -> (r: bool)
    ensures
        r == has_infix(s@, p@),
{
    let x = chars_of(s);
    let y = chars_of(p);
    match find_from(x.as_slice(), y.as_slice(), 0) {
        Some(_) => true,
        None => {
            assert forall|i: int| !occurs_at(s@, p@, i) by {
                if i >= 0 {
                }
            }
            false
        },
    }
}

/// Whether the ASCII upper case of `c` is `p`.
pub fn upper_is(c: char, p: char) -> (r: bool)
    ensures
        r == (upper_char(c) == p),
{
    if 'a' <= c && c <= 'z' {
        (c as u32) - 32 == (p as u32)
    } else {
        c == p
    }
}

/// Whether the ASCII lower case of `c` is `p`.
pub fn lower_is(c: char, p: char) -> (r: bool)
    ensures
        r == (lower_char(c) == p),
{
    if 'A' <= c && c <= 'Z' {
        (c as u32) + 32 == (p as u32)
    } else {
        c == p
    }
}

/// Whether `p` occurs at position `i` of the ASCII upper case of `s`.
pub fn matches_upper_at(s: &[char], p: &[char], i: usize) -> (r: bool)
    ensures
        r == occurs_at(upper(s@), p@, i as int),
{
    if i > s.len() || p.len() > s.len() - i {
        return false;
    }
    let ghost u = upper(s@);
    let mut k: usize = 0;
    while k < p.len()
        invariant
            u == upper(s@),
            u.len() == s@.len(),
            i + p@.len() <= s@.len(),
            s@.len() <= usize::MAX,
            k <= p@.len(),
            forall|j: int| 0 <= j < k ==> u[i + j] == p@[j],
        decreases p.len() - k,
    {
        if !upper_is(s[i + k], p[k]) {
            assert(u.subrange(i as int, i + p@.len())[k as int] != p@[k as int]);
            return false;
        }
        k = k + 1;
    }
    assert(u.subrange(i as int, i + p@.len()) =~= p@);
    true
}

/// Whether `p` occurs anywhere in the ASCII upper case of `s`.
pub fn contains_upper(s: &str, p: &str) -> (r: bool)
    ensures
        r == has_infix(upper(s@), p@),
{
    let x = chars_of(s);
    let y = chars_of(p);
    let mut i: usize = 0;
    while i < x.len()
        invariant
            x@ == s@,
            y@ == p@,
            i <= x@.len(),
            forall|j: int| 0 <= j < i ==> !occurs_at(upper(s@), p@, j),
        decreases x.len() - i,
    {
        if matches_upper_at(x.as_slice(), y.as_slice(), i) {
            return true;
        }
        i = i + 1;
    }
    if matches_upper_at(x.as_slice(), y.as_slice(), i) {
        return true;
    }
    assert forall|j: int| !occurs_at(upper(s@), p@, j) by {
        if 0 <= j && j <= x@.len() {
            assert(j < i || j == i);
        }
    }
    false
}

/// Whether the ASCII upper case of `t` is exactly `p`.
pub fn upper_eq(t: &str, p: &str) -> (r: bool)
    ensures
        r == (upper(t@) == p@),
{
    let x = chars_of(t);
    let y = chars_of(p);
    if x.len() != y.len() {
        assert(upper(t@).len() != p@.len());
        return false;
    }
    let r = matches_upper_at(x.as_slice(), y.as_slice(), 0);
    assert(upper(t@).subrange(0, upper(t@).len() as int) =~= upper(t@));
    r
}

/// Whether the ASCII lower case of `t[i..j]` is exactly `p`.
pub fn lower_range_eq(t: &[char], i: usize, j: usize, p: &str) -> (r: bool)
    requires
        i <= j <= t@.len(),
    ensures
        r == (lower(t@.subrange(i as int, j as int)) == p@),
{
    let y = chars_of(p);
    let ghost w = lower(t@.subrange(i as int, j as int));
    if j - i != y.len() {
        assert(w.len() != p@.len());
        return false;
    }
    let mut k: usize = 0;
    while k < y.len()
        invariant
            w == lower(t@.subrange(i as int, j as int)),
            i <= j <= t@.len(),
            j - i == y@.len(),
            y@ == p@,
            k <= y@.len(),
            forall|m: int| 0 <= m < k ==> w[m] == p@[m],
        decreases y.len() - k,
    {
        if !lower_is(t[i + k], y[k]) {
            assert(w[k as int] != p@[k as int]);
            return false;
        }
        k = k + 1;
    }
    assert(w =~= p@);
    true
}

} // verus!
