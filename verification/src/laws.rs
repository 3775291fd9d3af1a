//! The library-wide laws: what holds of every document and every shape, not
//! just of the examples the tests pin down.

use vstd::prelude::*;

use crate::chars::lemma_run_len_to;
use crate::chars::lemma_run_len_to_eq;
use crate::chars::run_len_to;
use crate::chars::spec_is_ascii_seq;
use crate::chars::spec_is_digit;
use crate::chars::spec_is_eol_char;
use crate::chars::spec_is_header_char;
use crate::chars::spec_is_hws;
use crate::chars::spec_is_key_char;
use crate::model::CommentView;
use crate::model::DesktopEntryView;
use crate::model::KeyView;
use crate::model::ValueView;
use crate::model::index_of_key;
use crate::model::lemma_index_of_key;
use crate::model::lemma_index_of_key_found;
use crate::model::spec_insert;
use crate::model::unique_keys;
use crate::parse::FoldState;
use crate::parse::LineView;
use crate::parse::ParseError;
use crate::parse::at_line_boundary;
use crate::parse::digit_p;
use crate::parse::header_p;
use crate::parse::hws_p;
use crate::parse::init_fold_state;
use crate::parse::key_p;
use crate::parse::non_eol_p;
use crate::parse::non_exp_p;
use crate::parse::spec_classify_line;
use crate::parse::spec_classify_value;
use crate::parse::spec_false_chars;
use crate::parse::spec_finish;
use crate::parse::spec_fold_line;
use crate::parse::spec_is_float_literal;
use crate::parse::spec_line_ending_len;
use crate::parse::spec_parse_document;
use crate::parse::spec_parse_text;
use crate::parse::spec_true_chars;
use crate::parse::spec_unescape;
use crate::ser::Error;
use crate::ser::join_lines;
use crate::ser::spec_doc_lines;
use crate::ser::spec_entry_line;
use crate::ser::spec_group_lines;
use crate::ser::spec_header_line;
use crate::ser::spec_ser_value;
use crate::ser::spec_serialize_document;
use crate::ser::Payload;
use crate::ser::Shape;
use crate::ser::spec_ser_entries;
use crate::ser::spec_ser_inline;
use crate::ser::spec_ser_section;
use crate::ser::spec_to_string;

verus! {

/// Overwrite is idempotent and in place: inserting the same key twice into
/// a map with unique keys leaves a map of the same length in which that key
/// stands exactly once, at the position the first insertion gave it, bound
/// to the second value; every other entry is untouched.
pub proof fn lemma_overwrite_in_place(
    m: Seq<(KeyView, ValueView)>,
    k: KeyView,
    v1: ValueView,
    v2: ValueView,
)
    requires
        unique_keys(m),
    ensures
        ({
            let m1 = spec_insert(m, k, v1);
            let m2 = spec_insert(m1, k, v2);
            let r = index_of_key(m1, k);
            &&& m2.len() == m1.len()
            &&& 0 <= r < m1.len()
            &&& index_of_key(m2, k) == r
            &&& m1[r] == (k, v1)
            &&& m2[r] == (k, v2)
            &&& forall|i: int| 0 <= i < m2.len() && i != r ==> m2[i] == m1[i] && m1[i].0 != k
        }),
{
    let r0 = index_of_key(m, k);
    lemma_index_of_key(m, k);
    let m1 = spec_insert(m, k, v1);
    if r0 == -1 {
        assert(m1 == m.push((k, v1)));
        assert(m1[m.len() as int].0 == k);
        lemma_index_of_key_found(m1, k, m.len() as int);
    } else {
        assert(m1 == m.update(r0, (k, v1)));
        assert(forall|j: int| 0 <= j < r0 ==> m1[j] == m[j]);
        lemma_index_of_key_found(m1, k, r0);
    }
    let r = index_of_key(m1, k);
    let m2 = spec_insert(m1, k, v2);
    lemma_index_of_key_found(m2, k, r);
    assert forall|i: int| 0 <= i < m2.len() && i != r implies m2[i] == m1[i] && m1[i].0 != k by {
        if r0 == -1 {
            if i < m.len() {
                assert(m1[i] == m[i]);
            }
        } else {
            assert(m1[i] == m[i]);
            if i < r0 {
            } else {
                assert(m[r0].0 == k);
                assert(m[i].0 != m[r0].0);
            }
        }
    }
}

/// Text that holds no backslash decodes to itself.
pub proof fn lemma_unescape_identity(s: Seq<char>)
    requires
        forall|i: int| 0 <= i < s.len() ==> s[i] != '\\',
    ensures
        spec_unescape(s) == Option::Some(s),
    decreases s.len(),
{
    if s.len() > 0 {
        let t = s.skip(1);
        assert forall|i: int| 0 <= i < t.len() implies t[i] != '\\' by {
            assert(t[i] == s[i + 1]);
        }
        lemma_unescape_identity(t);
        assert(seq![s[0]] + t =~= s);
    }
}

/// A record-valued field is always refused: when the fields before it
/// serialize, a record whose field `i` is itself a record fails with the
/// nesting error, and is never flattened or dropped.
pub proof fn lemma_nested_record_rejected(name: String, fields: Vec<(String, Shape)>, i: int)
    requires
        0 <= i < fields@.len(),
        fields@[i].1 is Record,
        forall|j: int| 0 <= j < i ==> spec_ser_inline(#[trigger] fields@[j].1) is Ok,
    ensures
        spec_to_string(Shape::Record { name, fields }) == Result::<Seq<char>, Error>::Err(
            Error::NestingNotSupported,
        ),
{
    lemma_entries_first_error(fields@, i);
}

/// When the fields before `i` serialize and field `i` does not, the entry
/// list fails with field `i`'s error.
proof fn lemma_entries_first_error(fields: Seq<(String, Shape)>, i: int)
    requires
        0 <= i < fields.len(),
        spec_ser_inline(fields[i].1) is Err,
        forall|j: int| 0 <= j < i ==> spec_ser_inline(#[trigger] fields[j].1) is Ok,
    ensures
        spec_ser_entries(fields) == Result::<Seq<char>, Error>::Err(
            spec_ser_inline(fields[i].1)->Err_0,
        ),
    decreases i,
{
    if i == 0 {
    } else {
        let t = fields.drop_first();
        assert(spec_ser_inline(fields[0].1) is Ok);
        assert forall|j: int| 0 <= j < i - 1 implies spec_ser_inline(#[trigger] t[j].1) is Ok by {
            assert(t[j] == fields[j + 1]);
        }
        assert(t[i - 1] == fields[i]);
        lemma_entries_first_error(t, i - 1);
    }
}


/// Line-by-line classification and folding of already split lines.
pub open spec fn spec_parse_lines(lines: Seq<Seq<char>>, st: FoldState, keep: bool) -> Result<
    DesktopEntryView,
    ParseError,
>
    decreases lines.len(),
{
    if lines.len() == 0 {
        Result::Ok(spec_finish(st))
    } else {
        match spec_classify_line(lines[0]) {
            Result::Err(e) => Result::Err(e),
            Result::Ok(lv) => match spec_fold_line(st, lv, keep) {
                Result::Err(e) => Result::Err(e),
                Result::Ok(st2) => spec_parse_lines(lines.drop_first(), st2, keep),
            },
        }
    }
}

/// The fold state a list of lines ends in.
pub open spec fn spec_fold_all(lines: Seq<Seq<char>>, st: FoldState, keep: bool) -> Result<
    FoldState,
    ParseError,
>
    decreases lines.len(),
{
    if lines.len() == 0 {
        Result::Ok(st)
    } else {
        match spec_classify_line(lines[0]) {
            Result::Err(e) => Result::Err(e),
            Result::Ok(lv) => match spec_fold_line(st, lv, keep) {
                Result::Err(e) => Result::Err(e),
                Result::Ok(st2) => spec_fold_all(lines.drop_first(), st2, keep),
            },
        }
    }
}

proof fn lemma_parse_lines_is_fold_all(lines: Seq<Seq<char>>, st: FoldState, keep: bool)
    ensures
        spec_parse_lines(lines, st, keep) == match spec_fold_all(lines, st, keep) {
            Result::Ok(st2) => Result::<DesktopEntryView, ParseError>::Ok(spec_finish(st2)),
            Result::Err(e) => Result::Err(e),
        },
    decreases lines.len(),
{
    if lines.len() > 0 {
        match spec_classify_line(lines[0]) {
            Result::Err(_) => {},
            Result::Ok(lv) => match spec_fold_line(st, lv, keep) {
                Result::Err(_) => {},
                Result::Ok(st2) => {
                    lemma_parse_lines_is_fold_all(lines.drop_first(), st2, keep);
                },
            },
        }
    }
}

proof fn lemma_fold_all_append(l1: Seq<Seq<char>>, l2: Seq<Seq<char>>, st: FoldState, keep: bool)
    ensures
        spec_fold_all(l1 + l2, st, keep) == match spec_fold_all(l1, st, keep) {
            Result::Ok(st2) => spec_fold_all(l2, st2, keep),
            Result::Err(e) => Result::Err(e),
        },
    decreases l1.len(),
{
    if l1.len() == 0 {
        assert(l1 + l2 =~= l2);
    } else {
        assert((l1 + l2)[0] == l1[0]);
        assert((l1 + l2).drop_first() =~= l1.drop_first() + l2);
        match spec_classify_line(l1[0]) {
            Result::Err(_) => {},
            Result::Ok(lv) => match spec_fold_line(st, lv, keep) {
                Result::Err(_) => {},
                Result::Ok(st2) => {
                    lemma_fold_all_append(l1.drop_first(), l2, st2, keep);
                },
            },
        }
    }
}

/// No character of `l` starts a line ending.
pub open spec fn eol_free(l: Seq<char>) -> bool {
    forall|j: int| 0 <= j < l.len() ==> !spec_is_eol_char(#[trigger] l[j])
}

/// Every line is non-empty and free of line-ending characters.
pub open spec fn wf_lines(lines: Seq<Seq<char>>) -> bool {
    forall|i: int| 0 <= i < lines.len() ==> (#[trigger] lines[i]).len() > 0 && eol_free(lines[i])
}

/// Parsing lines joined by `\n` classifies and folds them one by one.
proof fn lemma_parse_text_join(lines: Seq<Seq<char>>, st: FoldState, keep: bool)
    requires
        wf_lines(lines),
    ensures
        spec_parse_text(join_lines(lines), st, keep) == spec_parse_lines(lines, st, keep),
    decreases lines.len(),
{
    if lines.len() == 0 {
    } else if lines.len() == 1 {
        let s = join_lines(lines);
        assert(s == lines[0]);
        let n = s.len() as int;
        assert forall|t: int| 0 <= t < n implies non_eol_p()(s[t]) by {
            assert(!spec_is_eol_char(lines[0][t]));
        }
        lemma_run_len_to_eq(s, 0, n, n, non_eol_p());
        assert(s.subrange(0, n) =~= lines[0]);
        match spec_classify_line(lines[0]) {
            Result::Err(_) => {},
            Result::Ok(lv) => match spec_fold_line(st, lv, keep) {
                Result::Err(_) => {},
                Result::Ok(st2) => {
                    assert(s.subrange(n, n) =~= Seq::<char>::empty());
                    assert(lines.drop_first() =~= Seq::<Seq<char>>::empty());
                    assert(spec_parse_text(Seq::<char>::empty(), st2, keep)
                        == Result::<DesktopEntryView, ParseError>::Ok(spec_finish(st2)));
                    assert(spec_parse_lines(Seq::<Seq<char>>::empty(), st2, keep)
                        == Result::<DesktopEntryView, ParseError>::Ok(spec_finish(st2)));
                },
            },
        }
    } else {
        let s = join_lines(lines);
        let l0 = lines[0];
        let rest = lines.drop_first();
        let jr = join_lines(rest);
        assert(s == l0 + seq!['\n'] + jr);
        let n = s.len() as int;
        let ln = l0.len() as int;
        assert forall|t: int| 0 <= t < ln implies non_eol_p()(s[t]) by {
            assert(s[t] == l0[t]);
            assert(!spec_is_eol_char(l0[t]));
        }
        assert(s[ln] == '\n');
        lemma_run_len_to_eq(s, 0, n, ln, non_eol_p());
        assert(s.subrange(0, ln) =~= l0);
        assert(s.subrange(ln + 1, n) =~= jr);
        assert forall|i: int| 0 <= i < rest.len() implies (#[trigger] rest[i]).len() > 0
            && eol_free(rest[i]) by {
            assert(rest[i] == lines[i + 1]);
        }
        match spec_classify_line(l0) {
            Result::Err(_) => {},
            Result::Ok(lv) => match spec_fold_line(st, lv, keep) {
                Result::Err(_) => {},
                Result::Ok(st2) => {
                    lemma_parse_text_join(rest, st2, keep);
                },
            },
        }
    }
}

/// A key a simple round trip can carry: bare, with a non-empty name of key
/// characters.
pub open spec fn rt_simple_key(k: KeyView) -> bool {
    match k {
        KeyView::Simple(name) => name.len() > 0 && forall|i: int|
            0 <= i < name.len() ==> spec_is_key_char(#[trigger] name[i]),
        KeyView::Localized { .. } => false,
    }
}

/// A value a simple round trip can carry: a boolean; a numeric holding a
/// float literal, as every parsed numeric does; a plain ASCII string with
/// no escape-sensitive characters, no leading whitespace, and not itself
/// readable as a boolean or a number; or a locale string of the same shape
/// whose text is genuinely not ASCII.
pub open spec fn rt_simple_value(v: ValueView) -> bool {
    match v {
        ValueView::Boolean(_) => true,
        ValueView::Numeric(t) => spec_is_float_literal(t),
        ValueView::String(t) => spec_is_ascii_seq(t) && (forall|i: int|
            0 <= i < t.len() ==> (#[trigger] t[i]) != '\\' && !spec_is_eol_char(t[i])) && (t.len()
            > 0 ==> !spec_is_hws(t[0])) && t != spec_true_chars() && t != spec_false_chars()
            && !spec_is_float_literal(t),
        ValueView::LocaleString(t) => !spec_is_ascii_seq(t) && (forall|i: int|
            0 <= i < t.len() ==> (#[trigger] t[i]) != '\\' && !spec_is_eol_char(t[i])) && (t.len()
            > 0 ==> !spec_is_hws(t[0])),
    }
}

/// A group a simple round trip can carry: a valid header, unique keys, and
/// simple keys and values throughout.
pub open spec fn rt_group(g: (Seq<char>, Seq<(KeyView, ValueView)>)) -> bool {
    g.0.len() > 0 && (forall|i: int| 0 <= i < g.0.len() ==> spec_is_header_char(#[trigger] g.0[i]))
        && unique_keys(g.1) && forall|i: int|
        0 <= i < g.1.len() ==> rt_simple_key(#[trigger] g.1[i].0) && rt_simple_value(g.1[i].1)
}

/// A document built purely from simple groups.
pub open spec fn simple_document(groups: Seq<(Seq<char>, Seq<(KeyView, ValueView)>)>) -> bool {
    forall|i: int| 0 <= i < groups.len() ==> rt_group(#[trigger] groups[i])
}

/// A serialized header line classifies back to its group header.
proof fn lemma_classify_header_line(h: Seq<char>)
    requires
        h.len() > 0,
        forall|i: int| 0 <= i < h.len() ==> spec_is_header_char(#[trigger] h[i]),
    ensures
        spec_classify_line(spec_header_line(h)) == Result::<LineView, ParseError>::Ok(
            LineView::GroupHeader(h),
        ),
{
    let line = spec_header_line(h);
    let n = line.len() as int;
    let hn = h.len() as int;
    assert(n == hn + 2);
    assert(line[0] == '[');
    assert forall|t: int| 1 <= t < 1 + hn implies header_p()(line[t]) by {
        assert(line[t] == h[t - 1]);
    }
    assert(line[1 + hn] == ']');
    assert(!header_p()(line[1 + hn]));
    lemma_run_len_to_eq(line, 1, n, 1 + hn, header_p());
    assert(line.subrange(1, 1 + hn) =~= h);
}

/// Every character of a float literal is a digit, a sign, a dot, or an
/// exponent marker, and the first is never a letter.
proof fn lemma_float_literal_chars(t: Seq<char>)
    requires
        spec_is_float_literal(t),
    ensures
        t.len() > 0,
        forall|i: int|
            0 <= i < t.len() ==> (spec_is_digit(#[trigger] t[i]) || t[i] == '+' || t[i] == '-'
                || t[i] == '.' || t[i] == 'e' || t[i] == 'E'),
        spec_is_digit(t[0]) || t[0] == '+' || t[0] == '-' || t[0] == '.',
{
    let n = t.len() as int;
    let b: int = if n > 0 && (t[0] == '+' || t[0] == '-') {
        1
    } else {
        0
    };
    lemma_run_len_to(t, b, n, non_exp_p());
    let e = b + run_len_to(t, b, n, non_exp_p());
    let m = if e == n {
        n
    } else {
        e
    };
    lemma_mantissa_chars(t, b, m);
    if e < n {
        assert(!non_exp_p()(t[e]));
        let b2: int = if e + 1 < n && (t[e + 1] == '+' || t[e + 1] == '-') {
            e + 2
        } else {
            e + 1
        };
        lemma_run_len_to(t, b2, n, digit_p());
        assert(run_len_to(t, b2, n, digit_p()) == n - b2);
        assert forall|i: int| b2 <= i < n implies spec_is_digit(#[trigger] t[i]) by {}
    }
    assert forall|i: int|
        0 <= i < t.len() implies (spec_is_digit(#[trigger] t[i]) || t[i] == '+' || t[i] == '-'
        || t[i] == '.' || t[i] == 'e' || t[i] == 'E') by {}
}

/// The characters of a mantissa are digits and at most one dot.
proof fn lemma_mantissa_chars(t: Seq<char>, b: int, m: int)
    requires
        0 <= b <= m <= t.len(),
        crate::parse::spec_is_mantissa_at(t, b, m),
    ensures
        m > b,
        forall|i: int| b <= i < m ==> (spec_is_digit(#[trigger] t[i]) || t[i] == '.'),
        spec_is_digit(t[b]) || t[b] == '.',
{
    lemma_run_len_to(t, b, m, digit_p());
    let d = run_len_to(t, b, m, digit_p());
    if b + d == m {
    } else {
        assert(t[b + d] == '.');
        if d >= 1 {
            lemma_run_len_to(t, b + d + 1, m, digit_p());
            assert(run_len_to(t, b + d + 1, m, digit_p()) == m - (b + d + 1));
        } else {
            lemma_run_len_to(t, b + 1, m, digit_p());
            assert(run_len_to(t, b + 1, m, digit_p()) == m - (b + 1));
        }
    }
}

/// A simple value's text classifies back to the value itself, holds no
/// line-ending character, and never starts with whitespace.
proof fn lemma_classify_value_rt(v: ValueView)
    requires
        rt_simple_value(v),
    ensures
        eol_free(spec_ser_value(v)),
        spec_ser_value(v).len() > 0 ==> !spec_is_hws(spec_ser_value(v)[0]),
        spec_classify_value(spec_ser_value(v)) == Result::<ValueView, ParseError>::Ok(v),
{
    let vt = spec_ser_value(v);
    match v {
        ValueView::Boolean(bv) => {
            if bv {
                assert(vt == spec_true_chars());
                assert(eol_free(vt));
                assert(vt[0] == 't');
            } else {
                assert(vt == spec_false_chars());
                assert(eol_free(vt));
                assert(vt[0] == 'f');
                assert(vt.len() != spec_true_chars().len());
                assert(vt != spec_true_chars());
            }
        },
        ValueView::Numeric(t) => {
            lemma_float_literal_chars(t);
            assert(eol_free(vt));
            assert(t[0] != 't' && t[0] != 'f');
            assert(vt != spec_true_chars() && vt != spec_false_chars()) by {
                if vt == spec_true_chars() {
                    assert(vt[0] == 't');
                }
                if vt == spec_false_chars() {
                    assert(vt[0] == 'f');
                }
            }
        },
        ValueView::String(t) => {
            lemma_unescape_identity(t);
        },
        ValueView::LocaleString(t) => {
            lemma_unescape_identity(t);
            let w = choose|i: int| 0 <= i < t.len() && !((#[trigger] t[i]) <= '\u{7f}');
            assert(0 <= w < t.len() && !(t[w] <= '\u{7f}'));
            assert(vt != spec_true_chars() && vt != spec_false_chars()) by {
                if vt == spec_true_chars() {
                    assert(t[w] == spec_true_chars()[w]);
                    assert(spec_true_chars()[w] <= '\u{7f}');
                }
                if vt == spec_false_chars() {
                    assert(t[w] == spec_false_chars()[w]);
                    assert(spec_false_chars()[w] <= '\u{7f}');
                }
            }
            assert(!spec_is_float_literal(t)) by {
                if spec_is_float_literal(t) {
                    lemma_float_literal_chars(t);
                    assert(spec_is_digit(t[w]) || t[w] == '+' || t[w] == '-' || t[w] == '.'
                        || t[w] == 'e' || t[w] == 'E');
                }
            }
        },
    }
}

/// A serialized entry line classifies back to its key and value.
proof fn lemma_classify_entry_line(k: KeyView, v: ValueView)
    requires
        rt_simple_key(k),
        rt_simple_value(v),
    ensures
        spec_classify_line(spec_entry_line(k, v)) == Result::<LineView, ParseError>::Ok(
            LineView::Entry { key: k, value: v },
        ),
{
    let name = k->Simple_0;
    let vt = spec_ser_value(v);
    let line = spec_entry_line(k, v);
    let kn = name.len() as int;
    let n = line.len() as int;
    assert(n == kn + 1 + vt.len());
    lemma_classify_value_rt(v);
    assert forall|t: int| 0 <= t < kn implies key_p()(line[t]) by {
        assert(line[t] == name[t]);
    }
    assert(line[kn] == '=');
    assert(!key_p()(line[kn]));
    lemma_run_len_to_eq(line, 0, n, kn, key_p());
    assert(line.subrange(0, kn) =~= name);
    assert(line[0] == name[0]);
    assert(spec_is_key_char(line[0]));
    assert(line[0] != '#' && line[0] != '[');
    // no whitespace before the `=`
    assert(!hws_p()(line[kn]));
    lemma_run_len_to_eq(line, kn, n, kn, hws_p());
    // no whitespace after it either: the value never starts with whitespace
    if kn + 1 < n {
        assert(line[kn + 1] == vt[0]);
        assert(!hws_p()(line[kn + 1]));
    }
    lemma_run_len_to_eq(line, kn + 1, n, kn + 1, hws_p());
    // the value runs to the end of the line
    assert forall|t: int| kn + 1 <= t < n implies non_eol_p()(line[t]) by {
        assert(line[t] == vt[t - (kn + 1)]);
        assert(!spec_is_eol_char(vt[t - (kn + 1)]));
    }
    lemma_run_len_to_eq(line, kn + 1, n, n, non_eol_p());
    assert(line.subrange(kn + 1, n) =~= vt);
}


/// Folding the entry lines of `es` from position `i` onward, with the
/// first `i` entries already in the open group, inserts the rest in order.
proof fn lemma_fold_entry_lines(
    es: Seq<(KeyView, ValueView)>,
    i: int,
    gs: Seq<(Seq<char>, Seq<(KeyView, ValueView)>)>,
    h: Seq<char>,
    cnt: nat,
    cms: Seq<(nat, CommentView)>,
)
    requires
        0 <= i <= es.len(),
        unique_keys(es),
        forall|j: int|
            0 <= j < es.len() ==> rt_simple_key(#[trigger] es[j].0) && rt_simple_value(es[j].1),
    ensures
        spec_fold_all(
            Seq::new((es.len() - i) as nat, |j: int| spec_entry_line(es[i + j].0, es[i + j].1)),
            FoldState { groups: gs, cur: Option::Some((h, es.take(i))), count: cnt, comments: cms },
            false,
        ) == Result::<FoldState, ParseError>::Ok(
            FoldState {
                groups: gs,
                cur: Option::Some((h, es)),
                count: (cnt + es.len() - i) as nat,
                comments: cms,
            },
        ),
    decreases es.len() - i,
{
    let lines = Seq::new((es.len() - i) as nat, |j: int| spec_entry_line(es[i + j].0, es[i + j].1));
    let st = FoldState { groups: gs, cur: Option::Some((h, es.take(i))), count: cnt, comments: cms };
    if i == es.len() {
        assert(lines.len() == 0);
        assert(es.take(i) =~= es);
    } else {
        assert(lines[0] == spec_entry_line(es[i].0, es[i].1));
        lemma_classify_entry_line(es[i].0, es[i].1);
        let acc = es.take(i);
        lemma_index_of_key(acc, es[i].0);
        if index_of_key(acc, es[i].0) != -1 {
            let r = index_of_key(acc, es[i].0);
            assert(acc[r] == es[r]);
            assert(false);
        }
        assert(spec_insert(acc, es[i].0, es[i].1) =~= es.take(i + 1));
        assert(lines.drop_first() =~= Seq::new(
            (es.len() - (i + 1)) as nat,
            |j: int| spec_entry_line(es[i + 1 + j].0, es[i + 1 + j].1),
        ));
        lemma_fold_entry_lines(es, i + 1, gs, h, (cnt + 1) as nat, cms);
    }
}

/// Folding one group's lines commits the previously open group and leaves
/// this group open, fully populated.
proof fn lemma_fold_group(h: Seq<char>, es: Seq<(KeyView, ValueView)>, st: FoldState)
    requires
        rt_group((h, es)),
    ensures
        spec_fold_all(spec_group_lines(h, es), st, false) == Result::<FoldState, ParseError>::Ok(
            FoldState {
                groups: spec_finish(st).groups,
                cur: Option::Some((h, es)),
                count: (st.count + 1 + es.len()) as nat,
                comments: st.comments,
            },
        ),
{
    let hl = seq![spec_header_line(h)];
    let el = Seq::new(es.len(), |i: int| spec_entry_line(es[i].0, es[i].1));
    assert(spec_group_lines(h, es) == hl + el);
    lemma_fold_all_append(hl, el, st, false);
    lemma_classify_header_line(h);
    assert(hl[0] == spec_header_line(h));
    let st1 = FoldState {
        groups: spec_finish(st).groups,
        cur: Option::Some((h, Seq::<(KeyView, ValueView)>::empty())),
        count: (st.count + 1) as nat,
        comments: st.comments,
    };
    assert(hl.drop_first() =~= Seq::<Seq<char>>::empty());
    assert(spec_fold_all(Seq::<Seq<char>>::empty(), st1, false)
        == Result::<FoldState, ParseError>::Ok(st1));
    assert(spec_fold_all(hl, st, false) == Result::<FoldState, ParseError>::Ok(st1));
    assert(es.take(0) =~= Seq::<(KeyView, ValueView)>::empty());
    lemma_fold_entry_lines(es, 0, spec_finish(st).groups, h, (st.count + 1) as nat, st.comments);
    assert(el =~= Seq::new((es.len() - 0) as nat, |j: int| spec_entry_line(es[0 + j].0, es[0
        + j].1)));
}

/// How many physical lines a document's groups serialize to.
pub open spec fn doc_line_count(groups: Seq<(Seq<char>, Seq<(KeyView, ValueView)>)>) -> nat
    decreases groups.len(),
{
    if groups.len() == 0 {
        0
    } else {
        1 + groups[0].1.len() + doc_line_count(groups.drop_first())
    }
}

/// Folding all lines of a non-empty simple document commits every group but
/// the last, which stays open.
proof fn lemma_fold_doc_lines(groups: Seq<(Seq<char>, Seq<(KeyView, ValueView)>)>, st: FoldState)
    requires
        simple_document(groups),
        groups.len() > 0,
    ensures
        spec_fold_all(spec_doc_lines(groups), st, false) == Result::<FoldState, ParseError>::Ok(
            FoldState {
                groups: spec_finish(st).groups + groups.take(groups.len() - 1),
                cur: Option::Some(groups.last()),
                count: (st.count + doc_line_count(groups)) as nat,
                comments: st.comments,
            },
        ),
    decreases groups.len(),
{
    let g0 = groups[0];
    let rest = groups.drop_first();
    lemma_fold_all_append(spec_group_lines(g0.0, g0.1), spec_doc_lines(rest), st, false);
    assert(rt_group(g0));
    lemma_fold_group(g0.0, g0.1, st);
    let st1 = FoldState {
        groups: spec_finish(st).groups,
        cur: Option::Some((g0.0, g0.1)),
        count: (st.count + 1 + g0.1.len()) as nat,
        comments: st.comments,
    };
    assert((g0.0, g0.1) == g0);
    if rest.len() == 0 {
        assert(spec_doc_lines(rest) == Seq::<Seq<char>>::empty());
        assert(spec_fold_all(Seq::<Seq<char>>::empty(), st1, false)
            == Result::<FoldState, ParseError>::Ok(st1));
        assert(doc_line_count(rest) == 0);
        assert(groups.take(groups.len() - 1) =~= Seq::<(Seq<char>, Seq<(KeyView, ValueView)>)>::empty());
        assert(spec_finish(st).groups + groups.take(groups.len() - 1) =~= spec_finish(st).groups);
        assert(groups.last() == g0);
    } else {
        assert forall|i: int| 0 <= i < rest.len() implies rt_group(#[trigger] rest[i]) by {
            assert(rest[i] == groups[i + 1]);
        }
        lemma_fold_doc_lines(rest, st1);
        assert(spec_finish(st1).groups =~= spec_finish(st).groups.push(g0));
        assert(spec_finish(st1).groups + rest.take(rest.len() - 1) =~= spec_finish(st).groups
            + groups.take(groups.len() - 1));
        assert(rest.last() == groups.last());
    }
}

/// Every line a group serializes to is non-empty and free of line endings.
proof fn lemma_group_lines_wf(h: Seq<char>, es: Seq<(KeyView, ValueView)>)
    requires
        rt_group((h, es)),
    ensures
        wf_lines(spec_group_lines(h, es)),
{
    let gl = spec_group_lines(h, es);
    assert forall|i: int| 0 <= i < gl.len() implies (#[trigger] gl[i]).len() > 0 && eol_free(
        gl[i],
    ) by {
        if i == 0 {
            let line = spec_header_line(h);
            assert(gl[0] == line);
            assert(line.len() == h.len() + 2);
            assert forall|j: int| 0 <= j < line.len() implies !spec_is_eol_char(
                #[trigger] line[j],
            ) by {
                if j == 0 {
                    assert(line[j] == '[');
                } else if j < 1 + h.len() {
                    assert(line[j] == h[j - 1]);
                    assert(spec_is_header_char(h[j - 1]));
                } else {
                    assert(line[j] == ']');
                }
            }
        } else {
            let k = es[i - 1].0;
            let v = es[i - 1].1;
            assert(gl[i] == spec_entry_line(k, v));
            let name = k->Simple_0;
            let vt = spec_ser_value(v);
            lemma_classify_value_rt(v);
            let line = spec_entry_line(k, v);
            assert(line.len() == name.len() + 1 + vt.len());
            assert forall|j: int| 0 <= j < line.len() implies !spec_is_eol_char(
                #[trigger] line[j],
            ) by {
                if j < name.len() {
                    assert(line[j] == name[j]);
                    assert(spec_is_key_char(name[j]));
                } else if j == name.len() {
                    assert(line[j] == '=');
                } else {
                    assert(line[j] == vt[j - (name.len() + 1)]);
                    assert(!spec_is_eol_char(vt[j - (name.len() + 1)]));
                }
            }
        }
    }
}

/// Every line a simple document serializes to is non-empty and free of
/// line endings.
proof fn lemma_doc_lines_wf(groups: Seq<(Seq<char>, Seq<(KeyView, ValueView)>)>)
    requires
        simple_document(groups),
    ensures
        wf_lines(spec_doc_lines(groups)),
    decreases groups.len(),
{
    if groups.len() > 0 {
        let a = spec_group_lines(groups[0].0, groups[0].1);
        let b = spec_doc_lines(groups.drop_first());
        assert(rt_group(groups[0]));
        lemma_group_lines_wf(groups[0].0, groups[0].1);
        assert forall|i: int|
            0 <= i < groups.drop_first().len() implies rt_group(
            #[trigger] groups.drop_first()[i],
        ) by {
            assert(groups.drop_first()[i] == groups[i + 1]);
        }
        lemma_doc_lines_wf(groups.drop_first());
        assert(spec_doc_lines(groups) == a + b);
        assert forall|i: int| 0 <= i < (a + b).len() implies (#[trigger] (a + b)[i]).len() > 0
            && eol_free((a + b)[i]) by {
            if i < a.len() {
                assert((a + b)[i] == a[i]);
            } else {
                assert((a + b)[i] == b[i - a.len()]);
            }
        }
    }
}

/// The round trip: a document built purely from simple groups — valid
/// headers, unique bare keys, and values free of escape-sensitive text —
/// parses back, from its own serialized text, to exactly itself, with an
/// empty comment log.
pub proof fn lemma_round_trip(groups: Seq<(Seq<char>, Seq<(KeyView, ValueView)>)>)
    requires
        simple_document(groups),
    ensures
        spec_parse_document(spec_serialize_document(groups), false) == Result::<
            DesktopEntryView,
            ParseError,
        >::Ok(DesktopEntryView { groups: groups, comments: Seq::empty() }),
{
    let lines = spec_doc_lines(groups);
    lemma_doc_lines_wf(groups);
    lemma_parse_text_join(lines, init_fold_state(), false);
    lemma_parse_lines_is_fold_all(lines, init_fold_state(), false);
    if groups.len() == 0 {
        assert(lines == Seq::<Seq<char>>::empty());
        assert(spec_fold_all(lines, init_fold_state(), false) == Result::<
            FoldState,
            ParseError,
        >::Ok(init_fold_state()));
        assert(spec_finish(init_fold_state()).groups =~= groups);
        assert(spec_finish(init_fold_state()).comments =~= Seq::<(nat, CommentView)>::empty());
    } else {
        lemma_fold_doc_lines(groups, init_fold_state());
        let stf = FoldState {
            groups: spec_finish(init_fold_state()).groups + groups.take(groups.len() - 1),
            cur: Option::Some(groups.last()),
            count: (init_fold_state().count + doc_line_count(groups)) as nat,
            comments: init_fold_state().comments,
        };
        assert(spec_finish(init_fold_state()).groups + groups.take(groups.len() - 1)
            =~= groups.take(groups.len() - 1));
        assert(spec_finish(stf).groups =~= groups);
        assert(spec_finish(stf).comments =~= Seq::<(nat, CommentView)>::empty());
    }
}


proof fn lemma_parse_text_modes_agree(s: Seq<char>, st1: FoldState, st2: FoldState)
    requires
        st1.groups == st2.groups,
        st1.cur == st2.cur,
        st1.count == st2.count,
        st2.comments == Seq::<(nat, CommentView)>::empty(),
    ensures
        match (spec_parse_text(s, st1, true), spec_parse_text(s, st2, false)) {
            (Result::Ok(a), Result::Ok(b)) => a.groups == b.groups && b.comments == Seq::<
                (nat, CommentView),
            >::empty(),
            (Result::Err(a), Result::Err(b)) => a == b,
            _ => false,
        },
    decreases s.len(),
{
    if s.len() == 0 {
    } else {
        let n = s.len() as int;
        let e = run_len_to(s, 0, n, non_eol_p());
        if at_line_boundary(s, e) {
            let elen = spec_line_ending_len(s, e);
            match spec_classify_line(s.subrange(0, e)) {
                Result::Err(_) => {},
                Result::Ok(lv) => {
                    match (spec_fold_line(st1, lv, true), spec_fold_line(st2, lv, false)) {
                        (Result::Ok(n1), Result::Ok(n2)) => {
                            lemma_parse_text_modes_agree(s.subrange(e + elen, n), n1, n2);
                        },
                        _ => {},
                    }
                },
            }
        }
    }
}

/// Comment-preserving mode changes only the comment log: both modes parse
/// any text to the same groups or fail with the same error, and the
/// non-preserving mode always leaves the log empty.
pub proof fn lemma_comment_mode_agrees(s: Seq<char>)
    ensures
        match (spec_parse_document(s, true), spec_parse_document(s, false)) {
            (Result::Ok(a), Result::Ok(b)) => a.groups == b.groups && b.comments == Seq::<
                (nat, CommentView),
            >::empty(),
            (Result::Err(a), Result::Err(b)) => a == b,
            _ => false,
        },
{
    lemma_parse_text_modes_agree(s, init_fold_state(), init_fold_state());
}


} // verus!
