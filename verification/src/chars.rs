//! Character classes of the line grammar, and the few string-building
//! helpers the parser and serializer share.

use vstd::prelude::*;
use vstd::string::StrSliceExecFns;
use vstd::string::StringExecFns;

verus! {

/// Whether `c` may appear in a key fragment or locale segment.
pub open spec fn spec_is_key_char(c: char) -> bool {
    ('A' <= c && c <= 'Z') || ('a' <= c && c <= 'z') || ('0' <= c && c <= '9') || c == '-'
}

/// Whether `c` is horizontal whitespace (a space or a tab).
pub open spec fn spec_is_hws(c: char) -> bool {
    c == ' ' || c == '\t'
}

/// Whether `c` may appear in a group header: printable ASCII other than the
/// brackets that delimit the header.
pub open spec fn spec_is_header_char(c: char) -> bool {
    ' ' <= c && c <= '~' && c != '[' && c != ']'
}

/// Whether `c` is a decimal digit.
pub open spec fn spec_is_digit(c: char) -> bool {
    '0' <= c && c <= '9'
}

/// Whether `c` starts a line ending.
pub open spec fn spec_is_eol_char(c: char) -> bool {
    c == '\n' || c == '\r'
}

/// Whether every character of `s` is ASCII.
pub open spec fn spec_is_ascii_seq(s: Seq<char>) -> bool {
    forall|i: int| 0 <= i < s.len() ==> (#[trigger] s[i]) <= '\u{7f}'
}

/// The character classes the scanners below recognize.
#[derive(Clone, Copy, PartialEq, Eq, Structural, Debug)]
pub enum CharClass {
    KeyChar,
    Hws,
    HeaderChar,
    Digit,
    NonEol,
    NonExponentMarker,
}

/// The predicate a `CharClass` stands for.
pub open spec fn class_pred(cl: CharClass) -> spec_fn(char) -> bool {
    match cl {
        CharClass::KeyChar => |c: char| spec_is_key_char(c),
        CharClass::Hws => |c: char| spec_is_hws(c),
        CharClass::HeaderChar => |c: char| spec_is_header_char(c),
        CharClass::Digit => |c: char| spec_is_digit(c),
        CharClass::NonEol => |c: char| !spec_is_eol_char(c),
        CharClass::NonExponentMarker => |c: char| !(c == 'e' || c == 'E'),
    }
}

/// Whether `c` belongs to the class `cl`.
pub fn in_class(c: char, cl: CharClass) -> (r: bool)
    ensures
        r == class_pred(cl)(c),
{
    match cl {
        CharClass::KeyChar => ('A' <= c && c <= 'Z') || ('a' <= c && c <= 'z') || ('0' <= c && c
            <= '9') || c == '-',
        CharClass::Hws => c == ' ' || c == '\t',
        CharClass::HeaderChar => ' ' <= c && c <= '~' && c != '[' && c != ']',
        CharClass::Digit => '0' <= c && c <= '9',
        CharClass::NonEol => !(c == '\n' || c == '\r'),
        CharClass::NonExponentMarker => !(c == 'e' || c == 'E'),
    }
}

/// The length of the run of characters satisfying `p` that starts at `i`
/// and stays below `j`.
pub open spec fn run_len_to(s: Seq<char>, i: int, j: int, p: spec_fn(char) -> bool) -> int
    decreases j - i,
{
    if i < j && 0 <= i < s.len() && p(s[i]) {
        1 + run_len_to(s, i + 1, j, p)
    } else {
        0
    }
}

/// What a run is: all members satisfy `p`, and the run is maximal in
/// `[i, j)`.
pub proof fn lemma_run_len_to(s: Seq<char>, i: int, j: int, p: spec_fn(char) -> bool)
    requires
        0 <= i <= j <= s.len(),
    ensures
        0 <= run_len_to(s, i, j, p) <= j - i,
        forall|t: int| i <= t < i + run_len_to(s, i, j, p) ==> p(s[t]),
        i + run_len_to(s, i, j, p) < j ==> !p(s[i + run_len_to(s, i, j, p)]),
    decreases j - i,
{
    if i < j && p(s[i]) {
        lemma_run_len_to(s, i + 1, j, p);
    }
}

/// A maximal stretch of `p`-characters is what `run_len_to` measures.
pub proof fn lemma_run_len_to_eq(s: Seq<char>, i: int, j: int, k: int, p: spec_fn(char) -> bool)
    requires
        0 <= i <= k <= j <= s.len(),
        forall|t: int| i <= t < k ==> p(s[t]),
        k < j ==> !p(s[k]),
    ensures
        run_len_to(s, i, j, p) == k - i,
    decreases k - i,
{
    if i < k {
        lemma_run_len_to_eq(s, i + 1, j, k, p);
    }
}

/// Runs do not depend on where the sequence came from: the run inside a
/// subrange equals the run at the corresponding absolute position.
pub proof fn lemma_run_len_to_shift(
    s: Seq<char>,
    a: int,
    b: int,
    i: int,
    j: int,
    p: spec_fn(char) -> bool,
)
    requires
        0 <= a <= i <= j <= b <= s.len(),
    ensures
        run_len_to(s.subrange(a, b), i - a, j - a, p) == run_len_to(s, i, j, p),
    decreases j - i,
{
    if i < j && p(s[i]) {
        lemma_run_len_to_shift(s, a, b, i + 1, j, p);
    }
}

/// The length of the run of `cl`-class characters in `v` that starts at
/// `from` and stays below `to`.
pub fn scan_run(v: &Vec<char>, from: usize, to: usize, cl: CharClass) -> (r: usize)
    requires
        from <= to <= v.len(),
    ensures
        r == run_len_to(v@, from as int, to as int, class_pred(cl)),
        from + r <= to,
{
    let mut j = from;
    while j < to && in_class(v[j], cl)
        invariant
            from <= j <= to <= v.len(),
            forall|t: int| from <= t < j ==> class_pred(cl)(v@[t]),
        decreases to - j,
    {
        j = j + 1;
    }
    proof {
        lemma_run_len_to_eq(v@, from as int, to as int, j as int, class_pred(cl));
    }
    j - from
}

/// Whether `c` may appear in a key fragment or locale segment.
pub fn is_key_char(c: char) -> (r: bool)
    ensures
        r == spec_is_key_char(c),
{
    in_class(c, CharClass::KeyChar)
}

/// Appends one character.  Relies on `String::push`, which the standard
/// library documents as appending the given `char` to the end of the
/// string.
#[verifier::external_body]
pub(crate) fn push_char(s: &mut String, c: char)
    ensures
        final(s)@ == old(s)@.push(c),
{
    s.push(c);
}

/// The characters of `s`, in order.
pub fn str_chars(s: &str) -> (v: Vec<char>)
    ensures
        v@ == s@,
{
    let n = s.unicode_len();
    let mut v: Vec<char> = Vec::new();
    let mut i: usize = 0;
    while i < n
        invariant
            i <= n,
            n == s@.len(),
            v@ == s@.subrange(0, i as int),
        decreases n - i,
    {
        let c = s.get_char(i);
        v.push(c);
        assert(v@ =~= s@.subrange(0, i + 1));
        i = i + 1;
    }
    assert(v@ =~= s@);
    v
}

/// The text of `v[from..to]`, as a string.
pub fn chars_to_string(v: &Vec<char>, from: usize, to: usize) -> (s: String)
    requires
        from <= to <= v.len(),
    ensures
        s@ == v@.subrange(from as int, to as int),
{
    let mut s = String::new();
    let mut i = from;
    while i < to
        invariant
            from <= i <= to <= v.len(),
            s@ == v@.subrange(from as int, i as int),
        decreases to - i,
    {
        push_char(&mut s, v[i]);
        assert(s@ =~= v@.subrange(from as int, i + 1));
        i = i + 1;
    }
    s
}

/// A copy of `v[from..to]`.
pub fn copy_range(v: &Vec<char>, from: usize, to: usize) -> (r: Vec<char>)
    requires
        from <= to <= v.len(),
    ensures
        r@ == v@.subrange(from as int, to as int),
{
    let mut r: Vec<char> = Vec::new();
    let mut i = from;
    while i < to
        invariant
            from <= i <= to <= v.len(),
            r@ == v@.subrange(from as int, i as int),
        decreases to - i,
    {
        r.push(v[i]);
        assert(r@ =~= v@.subrange(from as int, i + 1));
        i = i + 1;
    }
    r
}

/// Whether every character of `v[from..]` is ASCII.
pub fn is_ascii_range(v: &Vec<char>, from: usize) -> (r: bool)
    requires
        from <= v.len(),
    ensures
        r == spec_is_ascii_seq(v@.subrange(from as int, v@.len() as int)),
{
    let ghost sub = v@.subrange(from as int, v@.len() as int);
    let n = v.len();
    let mut i = from;
    while i < n
        invariant
            from <= i <= n == v.len(),
            sub == v@.subrange(from as int, v@.len() as int),
            forall|t: int| 0 <= t < i - from ==> (#[trigger] sub[t]) <= '\u{7f}',
        decreases n - i,
    {
        if v[i] > '\u{7f}' {
            assert(sub[i - from] == v@[i as int]);
            return false;
        }
        assert(sub[i - from] == v@[i as int]);
        i = i + 1;
    }
    true
}

} // verus!
