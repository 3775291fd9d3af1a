//! The grammar parser.
//!
//! Text is read line by line.  A line is a comment (`#...`), a group header
//! (`[name]`), an entry (`key=value`, the key optionally locale-qualified),
//! or blank.  Lines are folded left to right into the document model:
//! a header opens a group, an entry is inserted into the open group
//! (overwriting in place on a duplicate key), comments and blank lines are
//! recorded when comment-preserving mode is chosen and dropped otherwise.
//!
//! An entry line before any group header is rejected as an ordinary
//! malformed-file error (`EntryBeforeGroup`) rather than a crash: the
//! line-level check alone would let such a line through, so the fold itself
//! refuses it, and a test pins the choice.
//!
//! A value that is exactly `true` or `false` is a boolean; otherwise a value
//! that is exactly a decimal float literal (optional sign, fraction,
//! exponent) is numeric; any other value is unescaped, and the result is a
//! plain string when it is pure ASCII and a locale string otherwise.

use vstd::prelude::*;

use crate::chars::CharClass;
use crate::chars::chars_to_string;
use crate::chars::class_pred;
use crate::chars::copy_range;
use crate::chars::is_ascii_range;
use crate::chars::lemma_run_len_to;
use crate::chars::run_len_to;
use crate::chars::scan_run;
use crate::chars::spec_is_ascii_seq;
use crate::chars::str_chars;
use crate::model::Comment;
use crate::model::CommentView;
use crate::model::DesktopEntry;
use crate::model::DesktopEntryView;
use crate::model::EntryMap;
use crate::model::Key;
use crate::model::KeyView;
use crate::model::Locale;
use crate::model::LocaleView;
use crate::model::Value;
use crate::model::ValueView;
use crate::model::spec_insert;

verus! {

/// Characters allowed in key fragments and locale segments.
pub open spec fn key_p() -> spec_fn(char) -> bool {
    class_pred(CharClass::KeyChar)
}

/// Horizontal whitespace.
pub open spec fn hws_p() -> spec_fn(char) -> bool {
    class_pred(CharClass::Hws)
}

/// Characters allowed in a group header.
pub open spec fn header_p() -> spec_fn(char) -> bool {
    class_pred(CharClass::HeaderChar)
}

/// Decimal digits.
pub open spec fn digit_p() -> spec_fn(char) -> bool {
    class_pred(CharClass::Digit)
}

/// Characters that do not start a line ending.
pub open spec fn non_eol_p() -> spec_fn(char) -> bool {
    class_pred(CharClass::NonEol)
}

/// Characters other than an exponent marker.
pub open spec fn non_exp_p() -> spec_fn(char) -> bool {
    class_pred(CharClass::NonExponentMarker)
}

/// Why a parse failed.
#[derive(Debug, Clone, Copy, PartialEq, Eq, Structural, Hash)]
pub enum ParseError {
    /// The input does not start with the form this parser recognizes.
    NoMatch,
    /// A line matches no rule of the grammar, or a carriage return is not
    /// followed by a line feed.
    MalformedLine,
    /// A `[` immediately followed by no header character.
    EmptyHeader,
    /// A group header whose `]` is missing.
    UnterminatedHeader,
    /// A backslash followed by anything but `s`, `n`, `t`, `r`, `\` or `;`.
    InvalidEscape,
    /// A plain string value whose decoded text is not pure ASCII.
    NotAscii,
    /// An entry line before the first group header.
    EntryBeforeGroup,
}

/// One classified line.
#[derive(Debug, Clone, PartialEq, Eq)]
pub enum Line {
    Comment(String),
    EmptyLine { white_space: Option<String> },
    GroupHeader(String),
    Entry { key: Key, value: Value },
}

/// The mathematical shape of a `Line`.
pub enum LineView {
    Comment(Seq<char>),
    EmptyLine { white_space: Option<Seq<char>> },
    GroupHeader(Seq<char>),
    Entry { key: KeyView, value: ValueView },
}

impl View for Line {
    type V = LineView;

    open spec fn view(&self) -> LineView {
        match self {
            Line::Comment(s) => LineView::Comment(s@),
            Line::EmptyLine { white_space } => LineView::EmptyLine {
                white_space: match white_space {
                    Option::Some(ref w) => Option::Some(w@),
                    Option::None => Option::None,
                },
            },
            Line::GroupHeader(s) => LineView::GroupHeader(s@),
            Line::Entry { key, value } => LineView::Entry { key: key@, value: value@ },
        }
    }
}

/// Whether an actual line ending (`\n` or `\r\n`) starts at `i`.
pub open spec fn is_line_ending_at(s: Seq<char>, i: int) -> bool {
    0 <= i < s.len() && (s[i] == '\n' || (s[i] == '\r' && i + 1 < s.len() && s[i + 1] == '\n'))
}

/// Whether position `i` is the end of input or the start of a line ending.
pub open spec fn at_line_boundary(s: Seq<char>, i: int) -> bool {
    i == s.len() || is_line_ending_at(s, i)
}

/// How many characters the line ending at `i` occupies.
pub open spec fn spec_line_ending_len(s: Seq<char>, i: int) -> int {
    if i == s.len() {
        0
    } else if s[i] == '\n' {
        1
    } else {
        2
    }
}

/// The text `true`.
pub open spec fn spec_true_chars() -> Seq<char> {
    seq!['t', 'r', 'u', 'e']
}

/// The text `false`.
pub open spec fn spec_false_chars() -> Seq<char> {
    seq!['f', 'a', 'l', 's', 'e']
}

/// What a backslash escape expands to, if it is one of the six accepted
/// escapes.
pub open spec fn spec_escape_expansion(c: char) -> Option<char> {
    if c == 's' {
        Option::Some(' ')
    } else if c == 'n' {
        Option::Some('\n')
    } else if c == 't' {
        Option::Some('\t')
    } else if c == 'r' {
        Option::Some('\r')
    } else if c == '\\' {
        Option::Some('\\')
    } else if c == ';' {
        Option::Some(';')
    } else {
        Option::None
    }
}

/// The decoded form of `s`, or `None` when a backslash is followed by
/// anything but an accepted escape character.
pub open spec fn spec_unescape(s: Seq<char>) -> Option<Seq<char>>
    decreases s.len(),
{
    if s.len() == 0 {
        Option::Some(Seq::empty())
    } else if s[0] == '\\' {
        if s.len() >= 2 {
            match spec_escape_expansion(s[1]) {
                Option::Some(e) => match spec_unescape(s.skip(2)) {
                    Option::Some(t) => Option::Some(seq![e] + t),
                    Option::None => Option::None,
                },
                Option::None => Option::None,
            }
        } else {
            Option::None
        }
    } else {
        match spec_unescape(s.skip(1)) {
            Option::Some(t) => Option::Some(seq![s[0]] + t),
            Option::None => Option::None,
        }
    }
}

/// Whether `[i, j)` is an optionally signed, non-empty digit run.
pub open spec fn spec_is_sign_digits_at(s: Seq<char>, i: int, j: int) -> bool {
    let b = if i < j && 0 <= i < s.len() && (s[i] == '+' || s[i] == '-') {
        i + 1
    } else {
        i
    };
    j - b >= 1 && run_len_to(s, b, j, digit_p()) == j - b
}

/// Whether `[i, j)` is a mantissa: `digit+ ('.' digit*)?` or `'.' digit+`.
pub open spec fn spec_is_mantissa_at(s: Seq<char>, i: int, j: int) -> bool {
    let d = run_len_to(s, i, j, digit_p());
    if i + d == j {
        d >= 1
    } else if 0 <= i + d < s.len() && s[i + d] == '.' {
        if d >= 1 {
            run_len_to(s, i + d + 1, j, digit_p()) == j - (i + d + 1)
        } else {
            j - (i + 1) >= 1 && run_len_to(s, i + 1, j, digit_p()) == j - (i + 1)
        }
    } else {
        false
    }
}

/// Whether `s` is exactly a decimal float literal: optional sign, mantissa,
/// optional exponent.
pub open spec fn spec_is_float_literal(s: Seq<char>) -> bool {
    let n = s.len() as int;
    let b: int = if n > 0 && (s[0] == '+' || s[0] == '-') {
        1
    } else {
        0
    };
    let e = b + run_len_to(s, b, n, non_exp_p());
    if e == n {
        spec_is_mantissa_at(s, b, n)
    } else {
        spec_is_mantissa_at(s, b, e) && spec_is_sign_digits_at(s, e + 1, n)
    }
}

/// How a value's text is typed: `true`/`false` exactly is a boolean, then a
/// float literal is numeric, then the unescaped text is a plain string when
/// ASCII and a locale string otherwise.
pub open spec fn spec_classify_value(s: Seq<char>) -> Result<ValueView, ParseError> {
    if s == spec_true_chars() {
        Result::Ok(ValueView::Boolean(true))
    } else if s == spec_false_chars() {
        Result::Ok(ValueView::Boolean(false))
    } else if spec_is_float_literal(s) {
        Result::Ok(ValueView::Numeric(s))
    } else {
        match spec_unescape(s) {
            Option::None => Result::Err(ParseError::InvalidEscape),
            Option::Some(t) => if spec_is_ascii_seq(t) {
                Result::Ok(ValueView::String(t))
            } else {
                Result::Ok(ValueView::LocaleString(t))
            },
        }
    }
}

/// An optional locale segment: a marker character followed by a key
/// fragment.  When the marker is absent, or nothing parseable follows it,
/// nothing is consumed.
pub open spec fn spec_opt_segment(s: Seq<char>, i: int, marker: char) -> (Option<Seq<char>>, int) {
    let n = s.len() as int;
    if 0 <= i < n && s[i] == marker && run_len_to(s, i + 1, n, key_p()) > 0 {
        let r = run_len_to(s, i + 1, n, key_p());
        (Option::Some(s.subrange(i + 1, i + 1 + r)), i + 1 + r)
    } else {
        (Option::None, i)
    }
}

/// A locale tag starting at `i`: `lang[_country][.encoding][@modifier]`.
pub open spec fn spec_parse_locale(s: Seq<char>, i: int) -> Option<(LocaleView, int)> {
    let n = s.len() as int;
    let ln = run_len_to(s, i, n, key_p());
    if ln == 0 {
        Option::None
    } else {
        let lang = s.subrange(i, i + ln);
        let c = spec_opt_segment(s, i + ln, '_');
        let e = spec_opt_segment(s, c.1, '.');
        let m = spec_opt_segment(s, e.1, '@');
        Option::Some(
            (LocaleView { lang, country: c.0, encoding: e.0, modifier: m.0 }, m.1),
        )
    }
}

/// A key at the start of `s`: a key fragment, optionally followed by a
/// bracketed locale.  A bracket that does not complete a locale leaves the
/// key simple and unconsumed past the fragment.
pub open spec fn spec_parse_key(s: Seq<char>) -> Option<(KeyView, int)> {
    let n = s.len() as int;
    let kn = run_len_to(s, 0, n, key_p());
    if kn == 0 {
        Option::None
    } else {
        let name = s.subrange(0, kn);
        if kn < n && s[kn] == '[' {
            match spec_parse_locale(s, kn + 1) {
                Option::Some((loc, p)) => if p < n && s[p] == ']' {
                    Option::Some((KeyView::Localized { key: name, locale: loc }, p + 1))
                } else {
                    Option::Some((KeyView::Simple(name), kn))
                },
                Option::None => Option::Some((KeyView::Simple(name), kn)),
            }
        } else {
            Option::Some((KeyView::Simple(name), kn))
        }
    }
}

/// A group header at the start of `s`.  Once the `[` is seen, a missing
/// header character or a missing `]` is a fatal error, not a non-match.
pub open spec fn spec_parse_group_header(s: Seq<char>) -> Result<(Seq<char>, int), ParseError> {
    let n = s.len() as int;
    if n == 0 || s[0] != '[' {
        Result::Err(ParseError::NoMatch)
    } else {
        let h = run_len_to(s, 1, n, header_p());
        if h == 0 {
            Result::Err(ParseError::EmptyHeader)
        } else if 1 + h < n && s[1 + h] == ']' {
            Result::Ok((s.subrange(1, 1 + h), 1 + h + 1))
        } else {
            Result::Err(ParseError::UnterminatedHeader)
        }
    }
}

/// An entry at the start of `s`: a key, `=` between optional horizontal
/// whitespace, and a value running to the end of the physical line.
pub open spec fn spec_parse_entry(s: Seq<char>) -> Result<((KeyView, ValueView), int), ParseError> {
    let n = s.len() as int;
    match spec_parse_key(s) {
        Option::None => Result::Err(ParseError::NoMatch),
        Option::Some((k, p)) => {
            let a = p + run_len_to(s, p, n, hws_p());
            if a < n && s[a] == '=' {
                let vstart = a + 1 + run_len_to(s, a + 1, n, hws_p());
                let e = vstart + run_len_to(s, vstart, n, non_eol_p());
                if !at_line_boundary(s, e) {
                    Result::Err(ParseError::MalformedLine)
                } else {
                    match spec_classify_value(s.subrange(vstart, e)) {
                        Result::Ok(v) => Result::Ok(((k, v), e)),
                        Result::Err(er) => Result::Err(er),
                    }
                }
            } else {
                Result::Err(ParseError::NoMatch)
            }
        },
    }
}

/// How one physical line (with its ending already removed) is classified,
/// trying comment, group header, entry, then blank, in that order.
pub open spec fn spec_classify_line(line: Seq<char>) -> Result<LineView, ParseError> {
    let n = line.len() as int;
    if n > 0 && line[0] == '#' {
        Result::Ok(LineView::Comment(line))
    } else if n > 0 && line[0] == '[' {
        match spec_parse_group_header(line) {
            Result::Ok((h, c)) => if c == n {
                Result::Ok(LineView::GroupHeader(h))
            } else {
                Result::Err(ParseError::MalformedLine)
            },
            Result::Err(e) => Result::Err(e),
        }
    } else {
        match spec_parse_entry(line) {
            Result::Ok(((k, v), c)) => if c == n {
                Result::Ok(LineView::Entry { key: k, value: v })
            } else {
                Result::Err(ParseError::MalformedLine)
            },
            Result::Err(e) => if e == ParseError::NoMatch {
                let w = run_len_to(line, 0, n, hws_p());
                if w == n {
                    Result::Ok(
                        LineView::EmptyLine {
                            white_space: if n > 0 {
                                Option::Some(line)
                            } else {
                                Option::None
                            },
                        },
                    )
                } else {
                    Result::Err(ParseError::MalformedLine)
                }
            } else {
                Result::Err(e)
            },
        }
    }
}

/// The state of the left-to-right fold: committed groups, the open group,
/// the physical line counter, and the comment log so far.
pub struct FoldState {
    pub groups: Seq<(Seq<char>, Seq<(KeyView, ValueView)>)>,
    pub cur: Option<(Seq<char>, Seq<(KeyView, ValueView)>)>,
    pub count: nat,
    pub comments: Seq<(nat, CommentView)>,
}

/// The fold state before any line is read: no group is open.
pub open spec fn init_fold_state() -> FoldState {
    FoldState { groups: Seq::empty(), cur: Option::None, count: 0, comments: Seq::empty() }
}

/// One fold step: a header commits the open group and opens a new one, an
/// entry is inserted into the open group and is an error when none is open,
/// comments and blank lines are logged only in comment-preserving mode.
/// Every line advances the line counter.
pub open spec fn spec_fold_line(st: FoldState, lv: LineView, keep: bool) -> Result<
    FoldState,
    ParseError,
> {
    match lv {
        LineView::Comment(c) => Result::Ok(
            FoldState {
                groups: st.groups,
                cur: st.cur,
                count: st.count + 1,
                comments: if keep {
                    st.comments.push((st.count, CommentView::Comment(c)))
                } else {
                    st.comments
                },
            },
        ),
        LineView::EmptyLine { white_space } => Result::Ok(
            FoldState {
                groups: st.groups,
                cur: st.cur,
                count: st.count + 1,
                comments: if keep {
                    st.comments.push((st.count, CommentView::EmptyLine { white_space }))
                } else {
                    st.comments
                },
            },
        ),
        LineView::GroupHeader(h) => Result::Ok(
            FoldState {
                groups: match st.cur {
                    Option::Some(g) => st.groups.push(g),
                    Option::None => st.groups,
                },
                cur: Option::Some((h, Seq::empty())),
                count: st.count + 1,
                comments: st.comments,
            },
        ),
        LineView::Entry { key, value } => match st.cur {
            Option::None => Result::Err(ParseError::EntryBeforeGroup),
            Option::Some((h, es)) => Result::Ok(
                FoldState {
                    groups: st.groups,
                    cur: Option::Some((h, spec_insert(es, key, value))),
                    count: st.count + 1,
                    comments: st.comments,
                },
            ),
        },
    }
}

/// The document the fold ends with: a still-open group is committed.
pub open spec fn spec_finish(st: FoldState) -> DesktopEntryView {
    DesktopEntryView {
        groups: match st.cur {
            Option::Some(g) => st.groups.push(g),
            Option::None => st.groups,
        },
        comments: st.comments,
    }
}

/// The whole read path over the remaining text `s`: take one physical line,
/// classify it, fold it, continue after the line ending.  A carriage return
/// not followed by a line feed is malformed.
pub open spec fn spec_parse_text(s: Seq<char>, st: FoldState, keep: bool) -> Result<
    DesktopEntryView,
    ParseError,
>
    decreases s.len(),
    via spec_parse_text_decreases
{
    if s.len() == 0 {
        Result::Ok(spec_finish(st))
    } else {
        let n = s.len() as int;
        let e = run_len_to(s, 0, n, non_eol_p());
        if !at_line_boundary(s, e) {
            Result::Err(ParseError::MalformedLine)
        } else {
            let elen = spec_line_ending_len(s, e);
            match spec_classify_line(s.subrange(0, e)) {
                Result::Err(er) => Result::Err(er),
                Result::Ok(lv) => match spec_fold_line(st, lv, keep) {
                    Result::Err(er) => Result::Err(er),
                    Result::Ok(st2) => spec_parse_text(s.subrange(e + elen, n), st2, keep),
                },
            }
        }
    }
}

#[via_fn]
proof fn spec_parse_text_decreases(s: Seq<char>, st: FoldState, keep: bool) {
    if s.len() > 0 {
        lemma_run_len_to(s, 0, s.len() as int, non_eol_p());
    }
}

/// What parsing a whole text yields: the document, or the first error.
pub open spec fn spec_parse_document(s: Seq<char>, keep: bool) -> Result<
    DesktopEntryView,
    ParseError,
> {
    spec_parse_text(s, init_fold_state(), keep)
}

/// The expansion of a backslash escape, when the character is one of the
/// six the format accepts.
pub fn escaped_chars(c: char) -> (r: Option<char>)
    ensures
        r == spec_escape_expansion(c),
{
    if c == 's' {
        Option::Some(' ')
    } else if c == 'n' {
        Option::Some('\n')
    } else if c == 't' {
        Option::Some('\t')
    } else if c == 'r' {
        Option::Some('\r')
    } else if c == '\\' {
        Option::Some('\\')
    } else if c == ';' {
        Option::Some(';')
    } else {
        Option::None
    }
}

fn unescape_chars(v: &Vec<char>) -> (r: Option<Vec<char>>)
    ensures
        match r {
            Option::Some(out) => spec_unescape(v@) == Option::Some(out@),
            Option::None => spec_unescape(v@) == Option::None::<Seq<char>>,
        },
{
    let n = v.len();
    let mut out: Vec<char> = Vec::new();
    let mut i: usize = 0;
    proof {
        assert(v@.skip(0) =~= v@);
        match spec_unescape(v@) {
            Option::Some(t) => {
                assert(Seq::<char>::empty() + t =~= t);
            },
            Option::None => {},
        }
    }
    while i < n
        invariant
            i <= n == v.len(),
            spec_unescape(v@) == match spec_unescape(v@.skip(i as int)) {
                Option::Some(t) => Option::Some(out@ + t),
                Option::None => Option::None::<Seq<char>>,
            },
        decreases n - i,
    {
        let ghost rest = v@.skip(i as int);
        let c = v[i];
        assert(rest[0] == c);
        if c == '\\' {
            if i + 1 < n {
                assert(rest.len() >= 2 && rest[1] == v@[i + 1]);
                match escaped_chars(v[i + 1]) {
                    Option::Some(e) => {
                        proof {
                            assert(rest.skip(2) =~= v@.skip(i + 2));
                        }
                        let ghost old_out = out@;
                        out.push(e);
                        i = i + 2;
                        proof {
                            match spec_unescape(v@.skip(i as int)) {
                                Option::Some(t) => {
                                    assert(spec_unescape(rest) == Option::Some(seq![e] + t));
                                    assert(old_out + (seq![e] + t) =~= out@ + t);
                                },
                                Option::None => {},
                            }
                        }
                    },
                    Option::None => {
                        assert(spec_unescape(rest) == Option::None::<Seq<char>>);
                        return Option::None;
                    },
                }
            } else {
                assert(rest.len() == 1);
                assert(spec_unescape(rest) == Option::None::<Seq<char>>);
                return Option::None;
            }
        } else {
            proof {
                assert(rest.skip(1) =~= v@.skip(i + 1));
            }
            let ghost old_out = out@;
            out.push(c);
            i = i + 1;
            proof {
                match spec_unescape(v@.skip(i as int)) {
                    Option::Some(t) => {
                        assert(spec_unescape(rest) == Option::Some(seq![c] + t));
                        assert(old_out + (seq![c] + t) =~= out@ + t);
                    },
                    Option::None => {},
                }
            }
        }
    }
    proof {
        assert(v@.skip(n as int) =~= Seq::<char>::empty());
        assert(spec_unescape(v@.skip(n as int)) == Option::Some(Seq::<char>::empty()));
        assert(out@ + Seq::<char>::empty() =~= out@);
    }
    Option::Some(out)
}

fn is_true_chars(v: &Vec<char>) -> (r: bool)
    ensures
        r == (v@ == spec_true_chars()),
{
    if v.len() == 4 && v[0] == 't' && v[1] == 'r' && v[2] == 'u' && v[3] == 'e' {
        proof {
            assert(v@ =~= spec_true_chars());
        }
        true
    } else {
        proof {
            if v@ == spec_true_chars() {
                assert(v@.len() == 4);
                assert(v@[0] == 't' && v@[1] == 'r' && v@[2] == 'u' && v@[3] == 'e');
            }
        }
        false
    }
}

fn is_false_chars(v: &Vec<char>) -> (r: bool)
    ensures
        r == (v@ == spec_false_chars()),
{
    if v.len() == 5 && v[0] == 'f' && v[1] == 'a' && v[2] == 'l' && v[3] == 's' && v[4] == 'e' {
        proof {
            assert(v@ =~= spec_false_chars());
        }
        true
    } else {
        proof {
            if v@ == spec_false_chars() {
                assert(v@.len() == 5);
                assert(v@[0] == 'f' && v@[1] == 'a' && v@[2] == 'l' && v@[3] == 's' && v@[4]
                    == 'e');
            }
        }
        false
    }
}

fn is_sign_digits(v: &Vec<char>, i: usize, j: usize) -> (r: bool)
    requires
        i <= j <= v.len(),
    ensures
        r == spec_is_sign_digits_at(v@, i as int, j as int),
{
    let b = if i < j && (v[i] == '+' || v[i] == '-') {
        i + 1
    } else {
        i
    };
    let d = scan_run(v, b, j, CharClass::Digit);
    j - b >= 1 && d == j - b
}

fn is_mantissa(v: &Vec<char>, i: usize, j: usize) -> (r: bool)
    requires
        i <= j <= v.len(),
    ensures
        r == spec_is_mantissa_at(v@, i as int, j as int),
{
    let d = scan_run(v, i, j, CharClass::Digit);
    if i + d == j {
        d >= 1
    } else if v[i + d] == '.' {
        if d >= 1 {
            scan_run(v, i + d + 1, j, CharClass::Digit) == j - (i + d + 1)
        } else {
            j - (i + 1) >= 1 && scan_run(v, i + 1, j, CharClass::Digit) == j - (i + 1)
        }
    } else {
        false
    }
}

fn is_float_chars(v: &Vec<char>) -> (r: bool)
    ensures
        r == spec_is_float_literal(v@),
{
    let n = v.len();
    let b: usize = if n > 0 && (v[0] == '+' || v[0] == '-') {
        1
    } else {
        0
    };
    let e = b + scan_run(v, b, n, CharClass::NonExponentMarker);
    if e == n {
        is_mantissa(v, b, n)
    } else {
        is_mantissa(v, b, e) && is_sign_digits(v, e + 1, n)
    }
}

fn classify_value(val: &Vec<char>) -> (r: Result<Value, ParseError>)
    ensures
        match (r, spec_classify_value(val@)) {
            (Result::Ok(x), Result::Ok(xv)) => x@ == xv,
            (Result::Err(a), Result::Err(b)) => a == b,
            _ => false,
        },
{
    if is_true_chars(val) {
        Result::Ok(Value::Boolean(true))
    } else if is_false_chars(val) {
        Result::Ok(Value::Boolean(false))
    } else if is_float_chars(val) {
        let s = chars_to_string(val, 0, val.len());
        proof {
            assert(s@ =~= val@);
        }
        Result::Ok(Value::Numeric(s))
    } else {
        match unescape_chars(val) {
            Option::None => Result::Err(ParseError::InvalidEscape),
            Option::Some(t) => {
                let ascii = is_ascii_range(&t, 0);
                proof {
                    assert(t@.subrange(0, t@.len() as int) =~= t@);
                }
                let s = chars_to_string(&t, 0, t.len());
                proof {
                    assert(s@ =~= t@);
                }
                if ascii {
                    Result::Ok(Value::String(s))
                } else {
                    Result::Ok(Value::LocaleString(s))
                }
            },
        }
    }
}

fn opt_segment(line: &Vec<char>, i: usize, marker: char) -> (r: (Option<String>, usize))
    requires
        i <= line.len(),
    ensures
        ({
            let so = spec_opt_segment(line@, i as int, marker);
            r.1 as int == so.1 && i <= r.1 <= line.len() && match (r.0, so.0) {
                (Option::Some(t), Option::Some(tv)) => t@ == tv,
                (Option::None, Option::None) => true,
                _ => false,
            }
        }),
{
    let n = line.len();
    if i < n && line[i] == marker {
        let run = scan_run(line, i + 1, n, CharClass::KeyChar);
        if run > 0 {
            let t = chars_to_string(line, i + 1, i + 1 + run);
            (Option::Some(t), i + 1 + run)
        } else {
            (Option::None, i)
        }
    } else {
        (Option::None, i)
    }
}

fn parse_locale_at(line: &Vec<char>, i: usize) -> (r: Option<(Locale, usize)>)
    requires
        i <= line.len(),
    ensures
        match (r, spec_parse_locale(line@, i as int)) {
            (Option::Some((loc, p)), Option::Some((lv, pv))) => loc@ == lv && p as int == pv && p
                <= line.len(),
            (Option::None, Option::None) => true,
            _ => false,
        },
{
    let n = line.len();
    let ln = scan_run(line, i, n, CharClass::KeyChar);
    if ln == 0 {
        Option::None
    } else {
        let lang = chars_to_string(line, i, i + ln);
        let (country, i1) = opt_segment(line, i + ln, '_');
        let (encoding, i2) = opt_segment(line, i1, '.');
        let (modifier, i3) = opt_segment(line, i2, '@');
        Option::Some((Locale { lang, country, encoding, modifier }, i3))
    }
}

fn parse_key_at(line: &Vec<char>) -> (r: Option<(Key, usize)>)
    ensures
        match (r, spec_parse_key(line@)) {
            (Option::Some((k, p)), Option::Some((kv, pv))) => k@ == kv && p as int == pv && p
                <= line.len(),
            (Option::None, Option::None) => true,
            _ => false,
        },
{
    let n = line.len();
    let kn = scan_run(line, 0, n, CharClass::KeyChar);
    if kn == 0 {
        Option::None
    } else {
        let name = chars_to_string(line, 0, kn);
        if kn < n && line[kn] == '[' {
            match parse_locale_at(line, kn + 1) {
                Option::Some((loc, p)) => if p < n && line[p] == ']' {
                    Option::Some((Key::Localized { key: name, locale: loc }, p + 1))
                } else {
                    Option::Some((Key::Simple(name), kn))
                },
                Option::None => Option::Some((Key::Simple(name), kn)),
            }
        } else {
            Option::Some((Key::Simple(name), kn))
        }
    }
}

fn line_ending_at(v: &Vec<char>, i: usize) -> (r: (bool, usize))
    requires
        i <= v.len(),
    ensures
        r.0 == at_line_boundary(v@, i as int),
        r.0 ==> i + r.1 <= v.len() && r.1 as int == spec_line_ending_len(v@, i as int),
{
    let n = v.len();
    if i == n {
        (true, 0)
    } else if v[i] == '\n' {
        (true, 1)
    } else if v[i] == '\r' && i + 1 < n && v[i + 1] == '\n' {
        (true, 2)
    } else {
        (false, 0)
    }
}

fn parse_group_header_at(v: &Vec<char>) -> (r: Result<(String, usize), ParseError>)
    ensures
        match (r, spec_parse_group_header(v@)) {
            (Result::Ok((h, c)), Result::Ok((hv, cv))) => h@ == hv && c as int == cv && c
                <= v.len(),
            (Result::Err(a), Result::Err(b)) => a == b,
            _ => false,
        },
{
    let n = v.len();
    if n == 0 || v[0] != '[' {
        return Result::Err(ParseError::NoMatch);
    }
    let h = scan_run(v, 1, n, CharClass::HeaderChar);
    if h == 0 {
        Result::Err(ParseError::EmptyHeader)
    } else if 1 + h < n && v[1 + h] == ']' {
        Result::Ok((chars_to_string(v, 1, 1 + h), 1 + h + 1))
    } else {
        Result::Err(ParseError::UnterminatedHeader)
    }
}

fn parse_entry_at(v: &Vec<char>) -> (r: Result<((Key, Value), usize), ParseError>)
    ensures
        match (r, spec_parse_entry(v@)) {
            (Result::Ok(((k, val), c)), Result::Ok(((kv, vv), cv))) => k@ == kv && val@ == vv && c
                as int == cv && c <= v.len(),
            (Result::Err(a), Result::Err(b)) => a == b,
            _ => false,
        },
{
    let n = v.len();
    match parse_key_at(v) {
        Option::None => Result::Err(ParseError::NoMatch),
        Option::Some((k, p)) => {
            let a = p + scan_run(v, p, n, CharClass::Hws);
            if a < n && v[a] == '=' {
                let vstart = a + 1 + scan_run(v, a + 1, n, CharClass::Hws);
                let e = vstart + scan_run(v, vstart, n, CharClass::NonEol);
                let (okb, _elen) = line_ending_at(v, e);
                if !okb {
                    Result::Err(ParseError::MalformedLine)
                } else {
                    let val_chars = copy_range(v, vstart, e);
                    match classify_value(&val_chars) {
                        Result::Ok(val) => Result::Ok(((k, val), e)),
                        Result::Err(er) => Result::Err(er),
                    }
                }
            } else {
                Result::Err(ParseError::NoMatch)
            }
        },
    }
}

fn classify_line_vec(line: &Vec<char>) -> (r: Result<Line, ParseError>)
    ensures
        match (r, spec_classify_line(line@)) {
            (Result::Ok(l), Result::Ok(lv)) => l@ == lv,
            (Result::Err(a), Result::Err(b)) => a == b,
            _ => false,
        },
{
    let n = line.len();
    if n > 0 && line[0] == '#' {
        let s = chars_to_string(line, 0, n);
        proof {
            assert(s@ =~= line@);
        }
        Result::Ok(Line::Comment(s))
    } else if n > 0 && line[0] == '[' {
        match parse_group_header_at(line) {
            Result::Ok((h, c)) => if c == n {
                Result::Ok(Line::GroupHeader(h))
            } else {
                Result::Err(ParseError::MalformedLine)
            },
            Result::Err(e) => Result::Err(e),
        }
    } else {
        match parse_entry_at(line) {
            Result::Ok(((k, val), c)) => if c == n {
                Result::Ok(Line::Entry { key: k, value: val })
            } else {
                Result::Err(ParseError::MalformedLine)
            },
            Result::Err(e) => if e == ParseError::NoMatch {
                let w = scan_run(line, 0, n, CharClass::Hws);
                if w == n {
                    if n > 0 {
                        let s = chars_to_string(line, 0, n);
                        proof {
                            assert(s@ =~= line@);
                        }
                        Result::Ok(Line::EmptyLine { white_space: Option::Some(s) })
                    } else {
                        Result::Ok(Line::EmptyLine { white_space: Option::None })
                    }
                } else {
                    Result::Err(ParseError::MalformedLine)
                }
            } else {
                Result::Err(e)
            },
        }
    }
}

/// The fold state an executable parse has reached.
pub open spec fn exec_state_view(
    doc: DesktopEntry,
    cur: Option<(String, EntryMap)>,
    count: nat,
) -> FoldState {
    FoldState {
        groups: doc@.groups,
        cur: match cur {
            Option::Some(g) => Option::Some((g.0@, g.1@)),
            Option::None => Option::None,
        },
        count: count,
        comments: doc@.comments,
    }
}

#[verifier::rlimit(50)]
fn parse_document_chars(v: &Vec<char>, keep: bool) -> (r: Result<DesktopEntry, ParseError>)
    ensures
        match (r, spec_parse_document(v@, keep)) {
            (Result::Ok(d), Result::Ok(dv)) => d@ == dv && d.wf(),
            (Result::Err(a), Result::Err(b)) => a == b,
            _ => false,
        },
{
    let n = v.len();
    let mut doc = DesktopEntry::new();
    let mut cur: Option<(String, EntryMap)> = Option::None;
    let mut count: usize = 0;
    let mut pos: usize = 0;
    proof {
        assert(v@.subrange(0, n as int) =~= v@);
        assert(exec_state_view(doc, cur, 0nat) == init_fold_state());
    }
    while pos < n
        invariant
            pos <= n == v.len(),
            count <= pos,
            doc.wf(),
            match cur {
                Option::Some(g) => g.1.wf(),
                Option::None => true,
            },
            spec_parse_document(v@, keep) == spec_parse_text(
                v@.subrange(pos as int, n as int),
                exec_state_view(doc, cur, count as nat),
                keep,
            ),
        decreases n - pos,
    {
        let ghost sub = v@.subrange(pos as int, n as int);
        let ghost st0 = exec_state_view(doc, cur, count as nat);
        let e = scan_run(v, pos, n, CharClass::NonEol);
        proof {
            crate::chars::lemma_run_len_to_shift(v@, pos as int, n as int, pos as int, n as int,
                non_eol_p());
        }
        assert(run_len_to(sub, 0, sub.len() as int, non_eol_p()) == e as int);
        let stop = pos + e;
        let (okb, elen) = line_ending_at(v, stop);
        proof {
            assert(at_line_boundary(sub, e as int) == at_line_boundary(v@, stop as int));
        }
        if !okb {
            return Result::Err(ParseError::MalformedLine);
        }
        proof {
            if (e as int) < sub.len() {
                assert(sub[e as int] == v@[stop as int]);
            }
            assert(spec_line_ending_len(sub, e as int) == elen as int);
        }
        let line = copy_range(v, pos, stop);
        proof {
            assert(line@ =~= sub.subrange(0, e as int));
        }
        match classify_line_vec(&line) {
            Result::Err(er) => {
                return Result::Err(er);
            },
            Result::Ok(l) => {
                match l {
                    Line::Comment(c) => {
                        if keep {
                            doc.push_comment(count, Comment::Comment(c));
                        }
                    },
                    Line::EmptyLine { white_space } => {
                        if keep {
                            doc.push_comment(count, Comment::EmptyLine { white_space });
                        }
                    },
                    Line::GroupHeader(h) => {
                        let prev = cur;
                        cur = Option::Some((h, EntryMap::new()));
                        match prev {
                            Option::Some((ph, pm)) => {
                                doc.push_group(ph, pm);
                            },
                            Option::None => {},
                        }
                    },
                    Line::Entry { key, value } => {
                        match cur {
                            Option::Some((h, mut m)) => {
                                m.insert(key, value);
                                cur = Option::Some((h, m));
                            },
                            Option::None => {
                                return Result::Err(ParseError::EntryBeforeGroup);
                            },
                        }
                    },
                }
                count = count + 1;
                pos = stop + elen;
                proof {
                    assert(sub.subrange(e as int + elen as int, sub.len() as int) =~= v@.subrange(
                        pos as int, n as int));
                }
            },
        }
    }
    proof {
        assert(v@.subrange(n as int, n as int) =~= Seq::<char>::empty());
    }
    match cur {
        Option::Some((h, m)) => {
            doc.push_group(h, m);
        },
        Option::None => {},
    }
    Result::Ok(doc)
}

/// Parses a whole desktop-entry text into its document, dropping comments
/// and blank lines.
///
/// # Errors
///
/// The first malformed line: a bad header, a bad escape, an entry before
/// any group, a stray carriage return, or a line matching no rule.
pub fn parse_desktop_entry(input: &str) -> (r: Result<DesktopEntry, ParseError>)
    ensures
        match (r, spec_parse_document(input@, false)) {
            (Result::Ok(d), Result::Ok(dv)) => d@ == dv && d.wf(),
            (Result::Err(a), Result::Err(b)) => a == b,
            _ => false,
        },
{
    let v = str_chars(input);
    parse_document_chars(&v, false)
}

/// Parses a whole desktop-entry text into its document, retaining comments
/// and blank lines in the comment log under their physical line index.
///
/// # Errors
///
/// As for [`parse_desktop_entry`].
pub fn parse_desktop_entry_keeping_comments(input: &str) -> (r: Result<DesktopEntry, ParseError>)
    ensures
        match (r, spec_parse_document(input@, true)) {
            (Result::Ok(d), Result::Ok(dv)) => d@ == dv && d.wf(),
            (Result::Err(a), Result::Err(b)) => a == b,
            _ => false,
        },
{
    let v = str_chars(input);
    parse_document_chars(&v, true)
}


/// A comment token at the start of `s`: `#` and everything to the end of
/// the physical line.
pub open spec fn spec_parse_comment(s: Seq<char>) -> Result<(Seq<char>, int), ParseError> {
    let n = s.len() as int;
    if n == 0 || s[0] != '#' {
        Result::Err(ParseError::NoMatch)
    } else {
        let e = 1 + run_len_to(s, 1, n, non_eol_p());
        if !at_line_boundary(s, e) {
            Result::Err(ParseError::MalformedLine)
        } else {
            Result::Ok((s.subrange(0, e), e))
        }
    }
}

/// A blank-line token at the start of `s`: either whitespace up to a line
/// boundary (consumed), or a peeked line ending (nothing consumed).
pub open spec fn spec_parse_empty_line(s: Seq<char>) -> Result<(Option<Seq<char>>, int), ParseError> {
    let n = s.len() as int;
    let w = run_len_to(s, 0, n, hws_p());
    if w >= 1 && at_line_boundary(s, w) {
        Result::Ok((Option::Some(s.subrange(0, w)), w))
    } else if is_line_ending_at(s, 0) {
        Result::Ok((Option::None, 0))
    } else {
        Result::Err(ParseError::NoMatch)
    }
}

/// A line ending at the start of `s`, or the end of the input.
pub open spec fn spec_parse_end_of_line(s: Seq<char>) -> Result<(Seq<char>, int), ParseError> {
    if is_line_ending_at(s, 0) {
        let l = spec_line_ending_len(s, 0);
        Result::Ok((s.subrange(0, l), l))
    } else if s.len() == 0 {
        Result::Ok((Seq::empty(), 0))
    } else {
        Result::Err(ParseError::NoMatch)
    }
}

/// A typed value occupying the rest of the physical line.
pub open spec fn spec_parse_value(s: Seq<char>) -> Result<(ValueView, int), ParseError> {
    let n = s.len() as int;
    let e = run_len_to(s, 0, n, non_eol_p());
    if !at_line_boundary(s, e) {
        Result::Err(ParseError::MalformedLine)
    } else {
        match spec_classify_value(s.subrange(0, e)) {
            Result::Ok(v) => Result::Ok((v, e)),
            Result::Err(er) => Result::Err(er),
        }
    }
}

/// A plain string value: the rest of the physical line, unescaped, required
/// to decode to pure ASCII.
pub open spec fn spec_parse_string(s: Seq<char>) -> Result<(Seq<char>, int), ParseError> {
    let n = s.len() as int;
    let e = run_len_to(s, 0, n, non_eol_p());
    if !at_line_boundary(s, e) {
        Result::Err(ParseError::MalformedLine)
    } else {
        match spec_unescape(s.subrange(0, e)) {
            Option::None => Result::Err(ParseError::InvalidEscape),
            Option::Some(t) => if spec_is_ascii_seq(t) {
                Result::Ok((t, e))
            } else {
                Result::Err(ParseError::NotAscii)
            },
        }
    }
}

/// A locale string value: the rest of the physical line, unescaped, with no
/// ASCII restriction.
pub open spec fn spec_parse_local_string(s: Seq<char>) -> Result<(Seq<char>, int), ParseError> {
    let n = s.len() as int;
    let e = run_len_to(s, 0, n, non_eol_p());
    if !at_line_boundary(s, e) {
        Result::Err(ParseError::MalformedLine)
    } else {
        match spec_unescape(s.subrange(0, e)) {
            Option::None => Result::Err(ParseError::InvalidEscape),
            Option::Some(t) => Result::Ok((t, e)),
        }
    }
}

/// A boolean value: the rest of the physical line is exactly `true` or
/// `false`.
pub open spec fn spec_parse_boolean(s: Seq<char>) -> Result<(bool, int), ParseError> {
    let n = s.len() as int;
    let e = run_len_to(s, 0, n, non_eol_p());
    if !at_line_boundary(s, e) {
        Result::Err(ParseError::MalformedLine)
    } else if s.subrange(0, e) == spec_true_chars() {
        Result::Ok((true, e))
    } else if s.subrange(0, e) == spec_false_chars() {
        Result::Ok((false, e))
    } else {
        Result::Err(ParseError::NoMatch)
    }
}

/// A numeric value: the rest of the physical line is exactly a decimal
/// float literal, which is kept as its text.
pub open spec fn spec_parse_numeric(s: Seq<char>) -> Result<(Seq<char>, int), ParseError> {
    let n = s.len() as int;
    let e = run_len_to(s, 0, n, non_eol_p());
    if !at_line_boundary(s, e) {
        Result::Err(ParseError::MalformedLine)
    } else if spec_is_float_literal(s.subrange(0, e)) {
        Result::Ok((s.subrange(0, e), e))
    } else {
        Result::Err(ParseError::NoMatch)
    }
}

/// The whole input, unescaped.
pub open spec fn spec_parse_escaped_string(s: Seq<char>) -> Result<Seq<char>, ParseError> {
    match spec_unescape(s) {
        Option::Some(t) => Result::Ok(t),
        Option::None => Result::Err(ParseError::InvalidEscape),
    }
}

/// A key fragment at the start of `s`: one or more key characters.
pub open spec fn spec_parse_key_part(s: Seq<char>) -> Result<(Seq<char>, int), ParseError> {
    let n = s.len() as int;
    let kn = run_len_to(s, 0, n, key_p());
    if kn == 0 {
        Result::Err(ParseError::NoMatch)
    } else {
        Result::Ok((s.subrange(0, kn), kn))
    }
}

/// One whole line: its classification, with the line ending consumed.
pub open spec fn spec_parse_line(s: Seq<char>) -> Result<(LineView, int), ParseError> {
    let n = s.len() as int;
    let e = run_len_to(s, 0, n, non_eol_p());
    if !at_line_boundary(s, e) {
        Result::Err(ParseError::MalformedLine)
    } else {
        match spec_classify_line(s.subrange(0, e)) {
            Result::Ok(lv) => Result::Ok((lv, e + spec_line_ending_len(s, e))),
            Result::Err(er) => Result::Err(er),
        }
    }
}

/// Parses a comment line: `#` followed by the rest of the physical line.
/// Returns the unconsumed input and the comment text including the `#`.
pub fn parse_comment(input: &str) -> (r: Result<(String, String), ParseError>)
    ensures
        match (r, spec_parse_comment(input@)) {
            (Result::Ok((rest, text)), Result::Ok((tv, c))) => text@ == tv && rest@
                == input@.subrange(c, input@.len() as int),
            (Result::Err(a), Result::Err(b)) => a == b,
            _ => false,
        },
{
    let v = str_chars(input);
    let n = v.len();
    if n == 0 || v[0] != '#' {
        return Result::Err(ParseError::NoMatch);
    }
    let e = 1 + scan_run(&v, 1, n, CharClass::NonEol);
    let (okb, _elen) = line_ending_at(&v, e);
    if !okb {
        return Result::Err(ParseError::MalformedLine);
    }
    let text = chars_to_string(&v, 0, e);
    let rest = chars_to_string(&v, e, n);
    Result::Ok((rest, text))
}

/// Parses a blank line: whitespace (returned) up to a line boundary, or a
/// peeked line ending with nothing consumed and no whitespace.
pub fn parse_empty_line(input: &str) -> (r: Result<(String, Option<String>), ParseError>)
    ensures
        match (r, spec_parse_empty_line(input@)) {
            (Result::Ok((rest, ws)), Result::Ok((wv, c))) => rest@ == input@.subrange(
                c,
                input@.len() as int,
            ) && match (ws, wv) {
                (Option::Some(a), Option::Some(b)) => a@ == b,
                (Option::None, Option::None) => true,
                _ => false,
            },
            (Result::Err(a), Result::Err(b)) => a == b,
            _ => false,
        },
{
    let v = str_chars(input);
    let n = v.len();
    let w = scan_run(&v, 0, n, CharClass::Hws);
    let (okb, _elen) = line_ending_at(&v, w);
    if w >= 1 && okb {
        let ws = chars_to_string(&v, 0, w);
        let rest = chars_to_string(&v, w, n);
        Result::Ok((rest, Option::Some(ws)))
    } else if n > 0 && (v[0] == '\n' || (v[0] == '\r' && 1 < n && v[1] == '\n')) {
        let rest = chars_to_string(&v, 0, n);
        Result::Ok((rest, Option::None))
    } else {
        Result::Err(ParseError::NoMatch)
    }
}

/// Parses a line ending (`\n` or `\r\n`) or the end of the input,
/// returning what matched.
pub fn parse_end_of_line(input: &str) -> (r: Result<(String, String), ParseError>)
    ensures
        match (r, spec_parse_end_of_line(input@)) {
            (Result::Ok((rest, m)), Result::Ok((mv, c))) => m@ == mv && rest@ == input@.subrange(
                c,
                input@.len() as int,
            ),
            (Result::Err(a), Result::Err(b)) => a == b,
            _ => false,
        },
{
    let v = str_chars(input);
    let n = v.len();
    if n > 0 && v[0] == '\n' {
        Result::Ok((chars_to_string(&v, 1, n), chars_to_string(&v, 0, 1)))
    } else if n > 1 && v[0] == '\r' && v[1] == '\n' {
        Result::Ok((chars_to_string(&v, 2, n), chars_to_string(&v, 0, 2)))
    } else if n == 0 {
        let rest = chars_to_string(&v, 0, 0);
        let m = chars_to_string(&v, 0, 0);
        Result::Ok((rest, m))
    } else {
        Result::Err(ParseError::NoMatch)
    }
}

/// Parses a group header `[name]`, returning the unconsumed input and the
/// header text.  A `[` with no content or no closing `]` is a fatal error,
/// never a non-match.
pub fn parse_group_header(input: &str) -> (r: Result<(String, String), ParseError>)
    ensures
        match (r, spec_parse_group_header(input@)) {
            (Result::Ok((rest, h)), Result::Ok((hv, c))) => h@ == hv && rest@ == input@.subrange(
                c,
                input@.len() as int,
            ),
            (Result::Err(a), Result::Err(b)) => a == b,
            _ => false,
        },
{
    let v = str_chars(input);
    match parse_group_header_at(&v) {
        Result::Ok((h, c)) => {
            let rest = chars_to_string(&v, c, v.len());
            Result::Ok((rest, h))
        },
        Result::Err(e) => Result::Err(e),
    }
}

/// Parses a key: a key fragment, optionally locale-qualified.
pub fn parse_key(input: &str) -> (r: Result<(String, Key), ParseError>)
    ensures
        match (r, spec_parse_key(input@)) {
            (Result::Ok((rest, k)), Option::Some((kv, c))) => k@ == kv && rest@ == input@.subrange(
                c,
                input@.len() as int,
            ),
            (Result::Err(e), Option::None) => e == ParseError::NoMatch,
            _ => false,
        },
{
    let v = str_chars(input);
    match parse_key_at(&v) {
        Option::Some((k, c)) => {
            let rest = chars_to_string(&v, c, v.len());
            Result::Ok((rest, k))
        },
        Option::None => Result::Err(ParseError::NoMatch),
    }
}

/// Parses a locale tag `lang[_country][.encoding][@modifier]`.
pub fn parse_key_locale(input: &str) -> (r: Result<(String, Locale), ParseError>)
    ensures
        match (r, spec_parse_locale(input@, 0)) {
            (Result::Ok((rest, l)), Option::Some((lv, c))) => l@ == lv && rest@ == input@.subrange(
                c,
                input@.len() as int,
            ),
            (Result::Err(e), Option::None) => e == ParseError::NoMatch,
            _ => false,
        },
{
    let v = str_chars(input);
    match parse_locale_at(&v, 0) {
        Option::Some((l, c)) => {
            let rest = chars_to_string(&v, c, v.len());
            Result::Ok((rest, l))
        },
        Option::None => Result::Err(ParseError::NoMatch),
    }
}

/// Parses one key fragment: one or more of `A`-`Z`, `a`-`z`, `0`-`9`, `-`.
pub fn parse_key_part(input: &str) -> (r: Result<(String, String), ParseError>)
    ensures
        match (r, spec_parse_key_part(input@)) {
            (Result::Ok((rest, t)), Result::Ok((tv, c))) => t@ == tv && rest@ == input@.subrange(
                c,
                input@.len() as int,
            ),
            (Result::Err(a), Result::Err(b)) => a == b,
            _ => false,
        },
{
    let v = str_chars(input);
    let n = v.len();
    let kn = scan_run(&v, 0, n, CharClass::KeyChar);
    if kn == 0 {
        Result::Err(ParseError::NoMatch)
    } else {
        Result::Ok((chars_to_string(&v, kn, n), chars_to_string(&v, 0, kn)))
    }
}

/// Parses an entry `key=value`, with optional horizontal whitespace around
/// the `=`; the value runs to the end of the physical line.
pub fn parse_entry(input: &str) -> (r: Result<(String, (Key, Value)), ParseError>)
    ensures
        match (r, spec_parse_entry(input@)) {
            (Result::Ok((rest, (k, val))), Result::Ok(((kv, vv), c))) => k@ == kv && val@ == vv
                && rest@ == input@.subrange(c, input@.len() as int),
            (Result::Err(a), Result::Err(b)) => a == b,
            _ => false,
        },
{
    let v = str_chars(input);
    match parse_entry_at(&v) {
        Result::Ok(((k, val), c)) => {
            let rest = chars_to_string(&v, c, v.len());
            Result::Ok((rest, (k, val)))
        },
        Result::Err(e) => Result::Err(e),
    }
}

/// Parses a typed value from the rest of the physical line: `true`/`false`,
/// then a float literal, then an unescaped plain or locale string.
pub fn parse_value(input: &str) -> (r: Result<(String, Value), ParseError>)
    ensures
        match (r, spec_parse_value(input@)) {
            (Result::Ok((rest, val)), Result::Ok((vv, c))) => val@ == vv && rest@
                == input@.subrange(c, input@.len() as int),
            (Result::Err(a), Result::Err(b)) => a == b,
            _ => false,
        },
{
    let v = str_chars(input);
    let n = v.len();
    let e = scan_run(&v, 0, n, CharClass::NonEol);
    let (okb, _elen) = line_ending_at(&v, e);
    if !okb {
        return Result::Err(ParseError::MalformedLine);
    }
    let val_chars = copy_range(&v, 0, e);
    match classify_value(&val_chars) {
        Result::Ok(val) => {
            let rest = chars_to_string(&v, e, n);
            Result::Ok((rest, val))
        },
        Result::Err(er) => Result::Err(er),
    }
}

/// Parses a plain string value: the rest of the physical line, unescaped;
/// the decoded text must be pure ASCII.
pub fn parse_string(input: &str) -> (r: Result<(String, String), ParseError>)
    ensures
        match (r, spec_parse_string(input@)) {
            (Result::Ok((rest, t)), Result::Ok((tv, c))) => t@ == tv && rest@ == input@.subrange(
                c,
                input@.len() as int,
            ),
            (Result::Err(a), Result::Err(b)) => a == b,
            _ => false,
        },
{
    let v = str_chars(input);
    let n = v.len();
    let e = scan_run(&v, 0, n, CharClass::NonEol);
    let (okb, _elen) = line_ending_at(&v, e);
    if !okb {
        return Result::Err(ParseError::MalformedLine);
    }
    let content = copy_range(&v, 0, e);
    match unescape_chars(&content) {
        Option::None => Result::Err(ParseError::InvalidEscape),
        Option::Some(t) => {
            let ascii = is_ascii_range(&t, 0);
            proof {
                assert(t@.subrange(0, t@.len() as int) =~= t@);
            }
            if ascii {
                let text = chars_to_string(&t, 0, t.len());
                proof {
                    assert(text@ =~= t@);
                }
                let rest = chars_to_string(&v, e, n);
                Result::Ok((rest, text))
            } else {
                Result::Err(ParseError::NotAscii)
            }
        },
    }
}

/// Parses a locale string value: the rest of the physical line, unescaped,
/// with no ASCII restriction.
pub fn parse_local_string(input: &str) -> (r: Result<(String, String), ParseError>)
    ensures
        match (r, spec_parse_local_string(input@)) {
            (Result::Ok((rest, t)), Result::Ok((tv, c))) => t@ == tv && rest@ == input@.subrange(
                c,
                input@.len() as int,
            ),
            (Result::Err(a), Result::Err(b)) => a == b,
            _ => false,
        },
{
    let v = str_chars(input);
    let n = v.len();
    let e = scan_run(&v, 0, n, CharClass::NonEol);
    let (okb, _elen) = line_ending_at(&v, e);
    if !okb {
        return Result::Err(ParseError::MalformedLine);
    }
    let content = copy_range(&v, 0, e);
    match unescape_chars(&content) {
        Option::None => Result::Err(ParseError::InvalidEscape),
        Option::Some(t) => {
            let text = chars_to_string(&t, 0, t.len());
            proof {
                assert(text@ =~= t@);
            }
            let rest = chars_to_string(&v, e, n);
            Result::Ok((rest, text))
        },
    }
}

/// Parses a boolean value: the rest of the physical line is exactly `true`
/// or `false`.
pub fn parse_boolean(input: &str) -> (r: Result<(String, bool), ParseError>)
    ensures
        match (r, spec_parse_boolean(input@)) {
            (Result::Ok((rest, b)), Result::Ok((bv, c))) => b == bv && rest@ == input@.subrange(
                c,
                input@.len() as int,
            ),
            (Result::Err(a), Result::Err(b)) => a == b,
            _ => false,
        },
{
    let v = str_chars(input);
    let n = v.len();
    let e = scan_run(&v, 0, n, CharClass::NonEol);
    let (okb, _elen) = line_ending_at(&v, e);
    if !okb {
        return Result::Err(ParseError::MalformedLine);
    }
    let content = copy_range(&v, 0, e);
    if is_true_chars(&content) {
        Result::Ok((chars_to_string(&v, e, n), true))
    } else if is_false_chars(&content) {
        Result::Ok((chars_to_string(&v, e, n), false))
    } else {
        Result::Err(ParseError::NoMatch)
    }
}

/// Parses a numeric value: the rest of the physical line is exactly a
/// decimal float literal, returned as its text.
pub fn parse_numeric(input: &str) -> (r: Result<(String, String), ParseError>)
    ensures
        match (r, spec_parse_numeric(input@)) {
            (Result::Ok((rest, t)), Result::Ok((tv, c))) => t@ == tv && rest@ == input@.subrange(
                c,
                input@.len() as int,
            ),
            (Result::Err(a), Result::Err(b)) => a == b,
            _ => false,
        },
{
    let v = str_chars(input);
    let n = v.len();
    let e = scan_run(&v, 0, n, CharClass::NonEol);
    let (okb, _elen) = line_ending_at(&v, e);
    if !okb {
        return Result::Err(ParseError::MalformedLine);
    }
    let content = copy_range(&v, 0, e);
    if is_float_chars(&content) {
        let text = chars_to_string(&v, 0, e);
        Result::Ok((chars_to_string(&v, e, n), text))
    } else {
        Result::Err(ParseError::NoMatch)
    }
}

/// Unescapes the whole input: a backslash introduces one of the six
/// accepted escapes, everything else is copied through.
pub fn parse_escaped_string(input: &str) -> (r: Result<String, ParseError>)
    ensures
        match (r, spec_parse_escaped_string(input@)) {
            (Result::Ok(t), Result::Ok(tv)) => t@ == tv,
            (Result::Err(a), Result::Err(b)) => a == b,
            _ => false,
        },
{
    let v = str_chars(input);
    match unescape_chars(&v) {
        Option::Some(t) => {
            let text = chars_to_string(&t, 0, t.len());
            proof {
                assert(text@ =~= t@);
            }
            Result::Ok(text)
        },
        Option::None => Result::Err(ParseError::InvalidEscape),
    }
}

/// Parses one whole line, consuming its ending, and classifies it as a
/// comment, group header, entry, or blank line, in that priority order.
pub fn parse_line(input: &str) -> (r: Result<(String, Line), ParseError>)
    ensures
        match (r, spec_parse_line(input@)) {
            (Result::Ok((rest, l)), Result::Ok((lv, c))) => l@ == lv && rest@ == input@.subrange(
                c,
                input@.len() as int,
            ),
            (Result::Err(a), Result::Err(b)) => a == b,
            _ => false,
        },
{
    let v = str_chars(input);
    let n = v.len();
    let e = scan_run(&v, 0, n, CharClass::NonEol);
    let (okb, elen) = line_ending_at(&v, e);
    if !okb {
        return Result::Err(ParseError::MalformedLine);
    }
    let line = copy_range(&v, 0, e);
    match classify_line_vec(&line) {
        Result::Ok(l) => {
            let rest = chars_to_string(&v, e + elen, n);
            Result::Ok((rest, l))
        },
        Result::Err(er) => Result::Err(er),
    }
}


} // verus!
