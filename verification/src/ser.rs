//! The generic serializer: the write path.
//!
//! A structured value is first described as a `Shape` — a record with named
//! fields, a tagged-union variant with its payload, a sequence, or a scalar
//! — and one concrete emitter maps that shape onto the line format: a group
//! header per record, one `key=value` line per field, sequence-valued
//! fields joined by `;`.  The format has exactly one level of sectioning,
//! so a record in value position is a fatal `NestingNotSupported` error,
//! and a bare scalar at the root a fatal `ExpectedMap` error.
//!
//! The document model itself is written back by [`serialize_document`],
//! which emits every group and entry in order, lines joined by `\n`, with
//! no trailing newline.

use vstd::prelude::*;
use vstd::string::StringExecFns;

use crate::chars::push_char;
use crate::model::DesktopEntry;
use crate::model::Key;
use crate::model::KeyView;
use crate::model::Locale;
use crate::model::LocaleView;
use crate::model::Value;
use crate::model::ValueView;
use crate::parse::spec_false_chars;
use crate::parse::spec_true_chars;

verus! {

/// Why a shape cannot be expressed in the line format.
#[derive(Debug, Clone, Copy, PartialEq, Eq, Structural, Hash)]
pub enum Error {
    /// The root is a bare scalar or an empty sequence: nothing that yields
    /// at least one group.
    ExpectedMap,
    /// A shape with no defined mapping, such as a unit variant at the root
    /// or a sequence nested inside a sequence.
    UnsupportedType,
    /// A record or struct-shaped variant inside a group: the format has
    /// only one level of sectioning.
    NestingNotSupported,
}

/// The text of a locale tag: `lang[_country][.encoding][@modifier]`.
pub open spec fn spec_ser_locale(l: LocaleView) -> Seq<char> {
    l.lang + (match l.country {
        Option::Some(c) => seq!['_'] + c,
        Option::None => Seq::empty(),
    }) + (match l.encoding {
        Option::Some(e) => seq!['.'] + e,
        Option::None => Seq::empty(),
    }) + (match l.modifier {
        Option::Some(m) => seq!['@'] + m,
        Option::None => Seq::empty(),
    })
}

/// The text of a key: its name, with the locale tag in brackets when it
/// has one.
pub open spec fn spec_ser_key(k: KeyView) -> Seq<char> {
    match k {
        KeyView::Simple(name) => name,
        KeyView::Localized { key, locale } => key + seq!['['] + spec_ser_locale(locale)
            + seq![']'],
    }
}

/// The text of a value: strings and numeric literals verbatim, booleans as
/// `true`/`false`.
pub open spec fn spec_ser_value(v: ValueView) -> Seq<char> {
    match v {
        ValueView::String(t) => t,
        ValueView::LocaleString(t) => t,
        ValueView::Boolean(b) => if b {
            spec_true_chars()
        } else {
            spec_false_chars()
        },
        ValueView::Numeric(t) => t,
    }
}

/// A header line: `[name]`.
pub open spec fn spec_header_line(h: Seq<char>) -> Seq<char> {
    seq!['['] + h + seq![']']
}

/// An entry line: `key=value`.
pub open spec fn spec_entry_line(k: KeyView, v: ValueView) -> Seq<char> {
    spec_ser_key(k) + seq!['='] + spec_ser_value(v)
}

/// The lines of one group: its header, then one line per entry in order.
pub open spec fn spec_group_lines(h: Seq<char>, es: Seq<(KeyView, ValueView)>) -> Seq<Seq<char>> {
    seq![spec_header_line(h)] + Seq::new(es.len(), |i: int| spec_entry_line(es[i].0, es[i].1))
}

/// The lines of a whole document, groups in order.
pub open spec fn spec_doc_lines(groups: Seq<(Seq<char>, Seq<(KeyView, ValueView)>)>) -> Seq<
    Seq<char>,
>
    decreases groups.len(),
{
    if groups.len() == 0 {
        Seq::empty()
    } else {
        spec_group_lines(groups[0].0, groups[0].1) + spec_doc_lines(groups.drop_first())
    }
}

/// Lines joined by `\n`, with no trailing newline.
pub open spec fn join_lines(ls: Seq<Seq<char>>) -> Seq<char>
    decreases ls.len(),
{
    if ls.len() == 0 {
        Seq::empty()
    } else if ls.len() == 1 {
        ls[0]
    } else {
        ls[0] + seq!['\n'] + join_lines(ls.drop_first())
    }
}

/// The text a document serializes to.
pub open spec fn spec_serialize_document(
    groups: Seq<(Seq<char>, Seq<(KeyView, ValueView)>)>,
) -> Seq<char> {
    join_lines(spec_doc_lines(groups))
}

/// Appending one more line appends `\n` and the line, except to an empty
/// document.
pub proof fn lemma_join_snoc(ls: Seq<Seq<char>>, l: Seq<char>)
    ensures
        join_lines(ls.push(l)) == if ls.len() == 0 {
            l
        } else {
            join_lines(ls) + seq!['\n'] + l
        },
    decreases ls.len(),
{
    let p = ls.push(l);
    if ls.len() == 0 {
        assert(p.len() == 1);
        assert(p[0] == l);
    } else if ls.len() == 1 {
        assert(p.len() == 2);
        assert(p.drop_first() =~= seq![l]);
        assert(join_lines(p.drop_first()) == l);
        assert(p[0] == ls[0]);
        assert(join_lines(ls) == ls[0]);
    } else {
        lemma_join_snoc(ls.drop_first(), l);
        assert(p.drop_first() =~= ls.drop_first().push(l));
        assert(p[0] == ls[0]);
        assert(join_lines(p) == ls[0] + seq!['\n'] + join_lines(ls.drop_first().push(l)));
        assert(ls[0] + seq!['\n'] + (join_lines(ls.drop_first()) + seq!['\n'] + l) =~= (ls[0]
            + seq!['\n'] + join_lines(ls.drop_first())) + seq!['\n'] + l);
    }
}

/// The document lines of one more group are the lines so far plus that
/// group's lines.
pub proof fn lemma_doc_lines_snoc(
    groups: Seq<(Seq<char>, Seq<(KeyView, ValueView)>)>,
    g: (Seq<char>, Seq<(KeyView, ValueView)>),
)
    ensures
        spec_doc_lines(groups.push(g)) == spec_doc_lines(groups) + spec_group_lines(g.0, g.1),
    decreases groups.len(),
{
    let p = groups.push(g);
    if groups.len() == 0 {
        assert(p.drop_first() =~= Seq::<(Seq<char>, Seq<(KeyView, ValueView)>)>::empty());
        assert(p[0] == g);
        assert(spec_doc_lines(Seq::<(Seq<char>, Seq<(KeyView, ValueView)>)>::empty())
            == Seq::<Seq<char>>::empty());
        assert(spec_doc_lines(p) =~= spec_group_lines(g.0, g.1));
        assert(spec_doc_lines(groups) + spec_group_lines(g.0, g.1) =~= spec_group_lines(g.0, g.1));
    } else {
        lemma_doc_lines_snoc(groups.drop_first(), g);
        assert(p.drop_first() =~= groups.drop_first().push(g));
        assert(p[0] == groups[0]);
        assert(spec_group_lines(groups[0].0, groups[0].1) + (spec_doc_lines(groups.drop_first())
            + spec_group_lines(g.0, g.1)) =~= (spec_group_lines(groups[0].0, groups[0].1)
            + spec_doc_lines(groups.drop_first())) + spec_group_lines(g.0, g.1));
    }
}

/// Appends a line ending.
pub fn emit_new_line(output: &mut String)
    ensures
        final(output)@ == old(output)@.push('\n'),
{
    push_char(output, '\n');
}

/// Appends a group header line body: `[header]`.
pub fn emit_header(output: &mut String, header: &str)
    ensures
        final(output)@ == old(output)@ + spec_header_line(header@),
{
    let ghost start = output@;
    push_char(output, '[');
    output.append(header);
    push_char(output, ']');
    proof {
        assert(output@ =~= start + spec_header_line(header@));
    }
}

/// Appends a key and the `=` that separates it from its value.
pub fn emit_key(output: &mut String, key: &str)
    ensures
        final(output)@ == old(output)@ + key@ + seq!['='],
{
    let ghost start = output@;
    output.append(key);
    push_char(output, '=');
    proof {
        assert(output@ =~= start + key@ + seq!['=']);
    }
}

/// The text of a key, locale tag included.
pub fn key_to_string(k: &Key) -> (s: String)
    ensures
        s@ == spec_ser_key(k@),
{
    match k {
        Key::Simple(name) => name.clone(),
        Key::Localized { key, locale } => {
            let mut out = key.clone();
            push_char(&mut out, '[');
            out.append(locale.lang.as_str());
            match &locale.country {
                Option::Some(c) => {
                    push_char(&mut out, '_');
                    out.append(c.as_str());
                },
                Option::None => {},
            }
            match &locale.encoding {
                Option::Some(e) => {
                    push_char(&mut out, '.');
                    out.append(e.as_str());
                },
                Option::None => {},
            }
            match &locale.modifier {
                Option::Some(m) => {
                    push_char(&mut out, '@');
                    out.append(m.as_str());
                },
                Option::None => {},
            }
            push_char(&mut out, ']');
            proof {
                assert(out@ =~= spec_ser_key(k@));
            }
            out
        },
    }
}

/// The text of a value.
pub fn value_to_string(v: &Value) -> (s: String)
    ensures
        s@ == spec_ser_value(v@),
{
    match v {
        Value::String(t) => t.clone(),
        Value::LocaleString(t) => t.clone(),
        Value::Numeric(t) => t.clone(),
        Value::Boolean(b) => {
            if *b {
                let s = String::from_str("true");
                proof {
                    reveal_strlit("true");
                    assert(s@ =~= spec_true_chars());
                }
                s
            } else {
                let s = String::from_str("false");
                proof {
                    reveal_strlit("false");
                    assert(s@ =~= spec_false_chars());
                }
                s
            }
        },
    }
}

/// Writes a document back to text: every group in order, its header line
/// then one `key=value` line per entry, all lines joined by `\n` with no
/// trailing newline.  Comments and blank lines of the log are not written.
pub fn serialize_document(doc: &DesktopEntry) -> (out: String)
    ensures
        out@ == spec_serialize_document(doc@.groups),
{
    let mut out = String::new();
    let ghost mut lines: Seq<Seq<char>> = Seq::empty();
    let ng = doc.group_count();
    let mut gi: usize = 0;
    proof {
        assert(doc@.groups.take(0) =~= Seq::<(Seq<char>, Seq<(KeyView, ValueView)>)>::empty());
    }
    while gi < ng
        invariant
            gi <= ng == doc@.groups.len(),
            lines == spec_doc_lines(doc@.groups.take(gi as int)),
            out@ == join_lines(lines),
            (gi == 0) == (lines.len() == 0),
        decreases ng - gi,
    {
        let g = doc.group_at(gi);
        let ghost h = doc@.groups[gi as int].0;
        let ghost es = doc@.groups[gi as int].1;
        if gi > 0 {
            emit_new_line(&mut out);
        }
        emit_header(&mut out, g.0.as_str());
        proof {
            lemma_join_snoc(lines, spec_header_line(h));
            lines = lines.push(spec_header_line(h));
            assert(out@ =~= join_lines(lines));
        }
        let ne = g.1.len();
        let mut ei: usize = 0;
        while ei < ne
            invariant
                ei <= ne == es.len(),
                g.1@ == es,
                lines == spec_doc_lines(doc@.groups.take(gi as int)) + seq![spec_header_line(h)]
                    + Seq::new(ei as nat, |i: int| spec_entry_line(es[i].0, es[i].1)),
                out@ == join_lines(lines),
                lines.len() > 0,
            decreases ne - ei,
        {
            let ent = g.1.entry_at(ei);
            emit_new_line(&mut out);
            let ks = key_to_string(&ent.0);
            emit_key(&mut out, ks.as_str());
            let vs = value_to_string(&ent.1);
            out.append(vs.as_str());
            proof {
                lemma_join_snoc(lines, spec_entry_line(es[ei as int].0, es[ei as int].1));
                lines = lines.push(spec_entry_line(es[ei as int].0, es[ei as int].1));
                assert(out@ =~= join_lines(lines));
                assert(Seq::new((ei + 1) as nat, |i: int| spec_entry_line(es[i].0, es[i].1))
                    =~= Seq::new(ei as nat, |i: int| spec_entry_line(es[i].0, es[i].1)).push(
                    spec_entry_line(es[ei as int].0, es[ei as int].1)));
                assert(lines =~= spec_doc_lines(doc@.groups.take(gi as int)) + seq![
                    spec_header_line(h)] + Seq::new((ei + 1) as nat, |i: int| spec_entry_line(
                    es[i].0, es[i].1)));
            }
            ei = ei + 1;
        }
        proof {
            lemma_doc_lines_snoc(doc@.groups.take(gi as int), (h, es));
            assert(doc@.groups.take(gi + 1) =~= doc@.groups.take(gi as int).push((h, es)));
            assert(Seq::new(es.len(), |i: int| spec_entry_line(es[i].0, es[i].1)) =~= Seq::new(
                ne as nat, |i: int| spec_entry_line(es[i].0, es[i].1)));
            assert(lines =~= spec_doc_lines(doc@.groups.take(gi + 1)));
        }
        gi = gi + 1;
    }
    proof {
        assert(doc@.groups.take(ng as int) =~= doc@.groups);
    }
    out
}


/// A scalar value of a shape.
#[derive(Debug, Clone, PartialEq, Eq)]
pub enum Scalar {
    Boolean(bool),
    Unsigned(u64),
    Signed(i64),
    Text(String),
}

/// The payload of a tagged-union variant.
#[derive(Debug, PartialEq, Eq)]
pub enum Payload {
    Unit,
    Newtype(Box<Shape>),
    Tuple(Vec<Shape>),
    Fields(Vec<(String, Shape)>),
}

/// The shape of a structured value, as the emitter sees it: a scalar, a
/// sequence, a record with named fields, or a tagged-union variant.
#[derive(Debug, PartialEq, Eq)]
pub enum Shape {
    Scalar(Scalar),
    Sequence(Vec<Shape>),
    Record { name: String, fields: Vec<(String, Shape)> },
    Variant { name: String, variant: String, payload: Payload },
}

/// The decimal digit `d` as a character.
pub open spec fn digit_char(d: int) -> char {
    if d == 0 {
        '0'
    } else if d == 1 {
        '1'
    } else if d == 2 {
        '2'
    } else if d == 3 {
        '3'
    } else if d == 4 {
        '4'
    } else if d == 5 {
        '5'
    } else if d == 6 {
        '6'
    } else if d == 7 {
        '7'
    } else if d == 8 {
        '8'
    } else {
        '9'
    }
}

/// The decimal digits of `n`, most significant first.
pub open spec fn spec_u64_dec(n: nat) -> Seq<char>
    decreases n,
{
    if n < 10 {
        seq![digit_char(n as int)]
    } else {
        spec_u64_dec(n / 10).push(digit_char((n % 10) as int))
    }
}

/// The decimal form of `v`, with a leading `-` when negative.
pub open spec fn spec_i64_dec(v: int) -> Seq<char> {
    if v >= 0 {
        spec_u64_dec(v as nat)
    } else {
        seq!['-'] + spec_u64_dec((-v) as nat)
    }
}

/// The text a scalar is emitted as.
pub open spec fn spec_ser_scalar(sc: Scalar) -> Seq<char> {
    match sc {
        Scalar::Boolean(b) => if b {
            spec_true_chars()
        } else {
            spec_false_chars()
        },
        Scalar::Unsigned(n) => spec_u64_dec(n as nat),
        Scalar::Signed(v) => spec_i64_dec(v as int),
        Scalar::Text(t) => t@,
    }
}

/// The text of one sequence element: only a scalar can stand there; a
/// record-like shape is a nesting error, anything else has no mapping.
pub open spec fn spec_ser_item(sh: Shape) -> Result<Seq<char>, Error> {
    match sh {
        Shape::Scalar(sc) => Result::Ok(spec_ser_scalar(sc)),
        Shape::Record { .. } => Result::Err(Error::NestingNotSupported),
        Shape::Variant { .. } => Result::Err(Error::UnsupportedType),
        Shape::Sequence(_) => Result::Err(Error::UnsupportedType),
    }
}

/// The text of a sequence in value position: its elements joined by `;`,
/// with no trailing separator.
pub open spec fn spec_ser_items(items: Seq<Shape>) -> Result<Seq<char>, Error>
    decreases items.len(),
{
    if items.len() == 0 {
        Result::Ok(Seq::empty())
    } else {
        match spec_ser_item(items[0]) {
            Result::Err(e) => Result::Err(e),
            Result::Ok(t) => match spec_ser_items(items.drop_first()) {
                Result::Err(e) => Result::Err(e),
                Result::Ok(rest) => Result::Ok(
                    if items.len() == 1 {
                        t
                    } else {
                        t + seq![';'] + rest
                    },
                ),
            },
        }
    }
}

/// The text a shape is emitted as in value position, after `key=`: a
/// scalar inline, a sequence joined by `;`, a variant as its payload; a
/// record or struct-shaped variant cannot stand inside a group.
pub open spec fn spec_ser_inline(sh: Shape) -> Result<Seq<char>, Error>
    decreases sh,
{
    match sh {
        Shape::Scalar(sc) => Result::Ok(spec_ser_scalar(sc)),
        Shape::Sequence(items) => spec_ser_items(items@),
        Shape::Record { .. } => Result::Err(Error::NestingNotSupported),
        Shape::Variant { name: _, variant: _, payload } => match payload {
            Payload::Unit => Result::Ok(Seq::empty()),
            Payload::Newtype(b) => spec_ser_inline(*b),
            Payload::Tuple(items) => spec_ser_items(items@),
            Payload::Fields(_) => Result::Err(Error::NestingNotSupported),
        },
    }
}

/// The entry lines of a record body: `\n` then `key=value`, one per field,
/// in declaration order.
pub open spec fn spec_ser_entries(fields: Seq<(String, Shape)>) -> Result<Seq<char>, Error>
    decreases fields.len(),
{
    if fields.len() == 0 {
        Result::Ok(Seq::empty())
    } else {
        match spec_ser_inline(fields[0].1) {
            Result::Err(e) => Result::Err(e),
            Result::Ok(t) => match spec_ser_entries(fields.drop_first()) {
                Result::Err(e) => Result::Err(e),
                Result::Ok(rest) => Result::Ok(
                    seq!['\n'] + fields[0].0@ + seq!['='] + t + rest,
                ),
            },
        }
    }
}

/// The text of one section: a record becomes `[name]` and its field lines;
/// a variant becomes `[enum name]` and either one `variant=payload` line or,
/// when struct-shaped, its field lines spliced directly; a unit variant,
/// bare scalar or sequence yields no section.
pub open spec fn spec_ser_section(sh: Shape) -> Result<Seq<char>, Error> {
    match sh {
        Shape::Record { name, fields } => match spec_ser_entries(fields@) {
            Result::Ok(t) => Result::Ok(spec_header_line(name@) + t),
            Result::Err(e) => Result::Err(e),
        },
        Shape::Variant { name, variant, payload } => match payload {
            Payload::Unit => Result::Err(Error::UnsupportedType),
            Payload::Newtype(b) => match spec_ser_inline(*b) {
                Result::Ok(t) => Result::Ok(
                    spec_header_line(name@) + seq!['\n'] + variant@ + seq!['='] + t,
                ),
                Result::Err(e) => Result::Err(e),
            },
            Payload::Tuple(items) => match spec_ser_items(items@) {
                Result::Ok(t) => Result::Ok(
                    spec_header_line(name@) + seq!['\n'] + variant@ + seq!['='] + t,
                ),
                Result::Err(e) => Result::Err(e),
            },
            Payload::Fields(fs) => match spec_ser_entries(fs@) {
                Result::Ok(t) => Result::Ok(spec_header_line(name@) + t),
                Result::Err(e) => Result::Err(e),
            },
        },
        Shape::Scalar(_) => Result::Err(Error::ExpectedMap),
        Shape::Sequence(_) => Result::Err(Error::ExpectedMap),
    }
}

/// The sections of a root sequence, joined by `\n`.
pub open spec fn spec_ser_sections(items: Seq<Shape>) -> Result<Seq<char>, Error>
    decreases items.len(),
{
    if items.len() == 0 {
        Result::Ok(Seq::empty())
    } else {
        match spec_ser_section(items[0]) {
            Result::Err(e) => Result::Err(e),
            Result::Ok(t) => match spec_ser_sections(items.drop_first()) {
                Result::Err(e) => Result::Err(e),
                Result::Ok(rest) => Result::Ok(
                    if items.len() == 1 {
                        t
                    } else {
                        t + seq!['\n'] + rest
                    },
                ),
            },
        }
    }
}

/// What a whole shape serializes to: one section, or a non-empty sequence
/// of sections.  The root must yield at least one group.
pub open spec fn spec_to_string(sh: Shape) -> Result<Seq<char>, Error> {
    match sh {
        Shape::Sequence(items) => if items@.len() == 0 {
            Result::Err(Error::ExpectedMap)
        } else {
            spec_ser_sections(items@)
        },
        _ => spec_ser_section(sh),
    }
}

fn digit_to_char(d: u64) -> (c: char)
    requires
        d < 10,
    ensures
        c == digit_char(d as int),
{
    if d == 0 {
        '0'
    } else if d == 1 {
        '1'
    } else if d == 2 {
        '2'
    } else if d == 3 {
        '3'
    } else if d == 4 {
        '4'
    } else if d == 5 {
        '5'
    } else if d == 6 {
        '6'
    } else if d == 7 {
        '7'
    } else if d == 8 {
        '8'
    } else {
        '9'
    }
}

/// The decimal form of `n`.
pub fn u64_to_string(n: u64) -> (s: String)
    ensures
        s@ == spec_u64_dec(n as nat),
{
    let mut digits: Vec<char> = Vec::new();
    let mut m = n;
    proof {
        assert(spec_u64_dec(n as nat) + digits@.reverse() =~= spec_u64_dec(n as nat));
    }
    while m >= 10
        invariant
            spec_u64_dec(n as nat) == spec_u64_dec(m as nat) + digits@.reverse(),
        decreases m,
    {
        let ghost old_digits = digits@;
        let ghost old_m = m as nat;
        let d = digit_to_char(m % 10);
        digits.push(d);
        m = m / 10;
        proof {
            assert(spec_u64_dec(old_m) == spec_u64_dec(m as nat).push(digit_char((old_m % 10)
                as int)));
            assert(digits@.reverse() =~= seq![d] + old_digits.reverse());
            assert(spec_u64_dec(m as nat).push(d) + old_digits.reverse() =~= spec_u64_dec(m as nat)
                + digits@.reverse());
        }
    }
    let mut out = String::new();
    push_char(&mut out, digit_to_char(m));
    proof {
        assert(out@ =~= spec_u64_dec(m as nat));
    }
    let nd = digits.len();
    let mut i = nd;
    while i > 0
        invariant
            i <= nd == digits@.len(),
            out@ == spec_u64_dec(m as nat) + digits@.reverse().subrange(0, (nd - i) as int),
        decreases i,
    {
        i = i - 1;
        push_char(&mut out, digits[i]);
        proof {
            assert(digits@.reverse()[(nd - 1 - i) as int] == digits@[i as int]);
            assert(out@ =~= spec_u64_dec(m as nat) + digits@.reverse().subrange(0, (nd - i)
                as int));
        }
    }
    proof {
        assert(digits@.reverse().subrange(0, nd as int) =~= digits@.reverse());
    }
    out
}

/// The decimal form of `v`, with a leading `-` when negative.
pub fn i64_to_string(v: i64) -> (s: String)
    ensures
        s@ == spec_i64_dec(v as int),
{
    if v >= 0 {
        let s = u64_to_string(v as u64);
        s
    } else {
        let mag: u64 = if v == i64::MIN {
            9223372036854775808u64
        } else {
            (-v) as u64
        };
        let mut out = String::new();
        push_char(&mut out, '-');
        let digits = u64_to_string(mag);
        out.append(digits.as_str());
        proof {
            assert(out@ =~= spec_i64_dec(v as int));
        }
        out
    }
}

/// The text a scalar is emitted as.
pub fn scalar_to_string(sc: &Scalar) -> (s: String)
    ensures
        s@ == spec_ser_scalar(*sc),
{
    match sc {
        Scalar::Boolean(b) => {
            if *b {
                let s = String::from_str("true");
                proof {
                    reveal_strlit("true");
                    assert(s@ =~= spec_true_chars());
                }
                s
            } else {
                let s = String::from_str("false");
                proof {
                    reveal_strlit("false");
                    assert(s@ =~= spec_false_chars());
                }
                s
            }
        },
        Scalar::Unsigned(n) => u64_to_string(*n),
        Scalar::Signed(v) => i64_to_string(*v),
        Scalar::Text(t) => t.clone(),
    }
}

fn item_to_string(sh: &Shape) -> (r: Result<String, Error>)
    ensures
        match (r, spec_ser_item(*sh)) {
            (Result::Ok(s), Result::Ok(t)) => s@ == t,
            (Result::Err(a), Result::Err(b)) => a == b,
            _ => false,
        },
{
    match sh {
        Shape::Scalar(sc) => Result::Ok(scalar_to_string(sc)),
        Shape::Record { .. } => Result::Err(Error::NestingNotSupported),
        Shape::Variant { .. } => Result::Err(Error::UnsupportedType),
        Shape::Sequence(_) => Result::Err(Error::UnsupportedType),
    }
}

fn items_to_string(items: &Vec<Shape>, i: usize) -> (r: Result<String, Error>)
    requires
        i <= items.len(),
    ensures
        match (r, spec_ser_items(items@.skip(i as int))) {
            (Result::Ok(s), Result::Ok(t)) => s@ == t,
            (Result::Err(a), Result::Err(b)) => a == b,
            _ => false,
        },
    decreases items.len() - i,
{
    let ghost rest_items = items@.skip(i as int);
    if i == items.len() {
        proof {
            assert(rest_items =~= Seq::<Shape>::empty());
        }
        Result::Ok(String::new())
    } else {
        assert(rest_items[0] == items@[i as int]);
        match item_to_string(&items[i]) {
            Result::Err(e) => Result::Err(e),
            Result::Ok(t) => {
                proof {
                    assert(rest_items.drop_first() =~= items@.skip(i + 1));
                }
                match items_to_string(items, i + 1) {
                    Result::Err(e) => Result::Err(e),
                    Result::Ok(rest) => {
                        let mut out = t;
                        if i + 1 < items.len() {
                            push_char(&mut out, ';');
                            out.append(rest.as_str());
                        }
                        proof {
                            match spec_ser_items(rest_items) {
                                Result::Ok(w) => {
                                    assert(out@ =~= w);
                                },
                                Result::Err(_) => {},
                            }
                        }
                        Result::Ok(out)
                    },
                }
            },
        }
    }
}

fn inline_to_string(sh: &Shape) -> (r: Result<String, Error>)
    ensures
        match (r, spec_ser_inline(*sh)) {
            (Result::Ok(s), Result::Ok(t)) => s@ == t,
            (Result::Err(a), Result::Err(b)) => a == b,
            _ => false,
        },
    decreases sh,
{
    match sh {
        Shape::Scalar(sc) => Result::Ok(scalar_to_string(sc)),
        Shape::Sequence(items) => {
            proof {
                assert(items@.skip(0) =~= items@);
            }
            items_to_string(items, 0)
        },
        Shape::Record { .. } => Result::Err(Error::NestingNotSupported),
        Shape::Variant { name: _, variant: _, payload } => match payload {
            Payload::Unit => Result::Ok(String::new()),
            Payload::Newtype(b) => inline_to_string(&**b),
            Payload::Tuple(items) => {
                proof {
                    assert(items@.skip(0) =~= items@);
                }
                items_to_string(items, 0)
            },
            Payload::Fields(_) => Result::Err(Error::NestingNotSupported),
        },
    }
}

fn entries_to_string(fields: &Vec<(String, Shape)>, i: usize) -> (r: Result<String, Error>)
    requires
        i <= fields.len(),
    ensures
        match (r, spec_ser_entries(fields@.skip(i as int))) {
            (Result::Ok(s), Result::Ok(t)) => s@ == t,
            (Result::Err(a), Result::Err(b)) => a == b,
            _ => false,
        },
    decreases fields.len() - i,
{
    let ghost rest_fields = fields@.skip(i as int);
    if i == fields.len() {
        proof {
            assert(rest_fields =~= Seq::<(String, Shape)>::empty());
        }
        Result::Ok(String::new())
    } else {
        assert(rest_fields[0] == fields@[i as int]);
        match inline_to_string(&fields[i].1) {
            Result::Err(e) => Result::Err(e),
            Result::Ok(t) => {
                proof {
                    assert(rest_fields.drop_first() =~= fields@.skip(i + 1));
                }
                match entries_to_string(fields, i + 1) {
                    Result::Err(e) => Result::Err(e),
                    Result::Ok(rest) => {
                        let mut out = String::new();
                        push_char(&mut out, '\n');
                        emit_key(&mut out, fields[i].0.as_str());
                        out.append(t.as_str());
                        out.append(rest.as_str());
                        proof {
                            match spec_ser_entries(rest_fields) {
                                Result::Ok(w) => {
                                    assert(out@ =~= w);
                                },
                                Result::Err(_) => {},
                            }
                        }
                        Result::Ok(out)
                    },
                }
            },
        }
    }
}

fn section_to_string(sh: &Shape) -> (r: Result<String, Error>)
    ensures
        match (r, spec_ser_section(*sh)) {
            (Result::Ok(s), Result::Ok(t)) => s@ == t,
            (Result::Err(a), Result::Err(b)) => a == b,
            _ => false,
        },
{
    match sh {
        Shape::Record { name, fields } => {
            proof {
                assert(fields@.skip(0) =~= fields@);
            }
            match entries_to_string(fields, 0) {
            Result::Err(e) => Result::Err(e),
            Result::Ok(t) => {
                let mut out = String::new();
                emit_header(&mut out, name.as_str());
                out.append(t.as_str());
                proof {
                    match spec_ser_section(*sh) {
                        Result::Ok(w) => {
                            assert(out@ =~= w);
                        },
                        Result::Err(_) => {},
                    }
                }
                Result::Ok(out)
            },
        }
        },
        Shape::Variant { name, variant, payload } => match payload {
            Payload::Unit => Result::Err(Error::UnsupportedType),
            Payload::Newtype(b) => match inline_to_string(&**b) {
                Result::Err(e) => Result::Err(e),
                Result::Ok(t) => {
                    let mut out = String::new();
                    emit_header(&mut out, name.as_str());
                    push_char(&mut out, '\n');
                    emit_key(&mut out, variant.as_str());
                    out.append(t.as_str());
                    proof {
                        match spec_ser_section(*sh) {
                            Result::Ok(w) => {
                                assert(out@ =~= w);
                            },
                            Result::Err(_) => {},
                        }
                    }
                    Result::Ok(out)
                },
            },
            Payload::Tuple(items) => {
                proof {
                    assert(items@.skip(0) =~= items@);
                }
                match items_to_string(items, 0) {
                Result::Err(e) => Result::Err(e),
                Result::Ok(t) => {
                    let mut out = String::new();
                    emit_header(&mut out, name.as_str());
                    push_char(&mut out, '\n');
                    emit_key(&mut out, variant.as_str());
                    out.append(t.as_str());
                    proof {
                        match spec_ser_section(*sh) {
                            Result::Ok(w) => {
                                assert(out@ =~= w);
                            },
                            Result::Err(_) => {},
                        }
                    }
                    Result::Ok(out)
                },
            }
            },
            Payload::Fields(fs) => {
                proof {
                    assert(fs@.skip(0) =~= fs@);
                }
                match entries_to_string(fs, 0) {
                Result::Err(e) => Result::Err(e),
                Result::Ok(t) => {
                    let mut out = String::new();
                    emit_header(&mut out, name.as_str());
                    out.append(t.as_str());
                    proof {
                        match spec_ser_section(*sh) {
                            Result::Ok(w) => {
                                assert(out@ =~= w);
                            },
                            Result::Err(_) => {},
                        }
                    }
                    Result::Ok(out)
                },
            }
            },
        },
        Shape::Scalar(_) => Result::Err(Error::ExpectedMap),
        Shape::Sequence(_) => Result::Err(Error::ExpectedMap),
    }
}

fn sections_to_string(items: &Vec<Shape>, i: usize) -> (r: Result<String, Error>)
    requires
        i <= items.len(),
    ensures
        match (r, spec_ser_sections(items@.skip(i as int))) {
            (Result::Ok(s), Result::Ok(t)) => s@ == t,
            (Result::Err(a), Result::Err(b)) => a == b,
            _ => false,
        },
    decreases items.len() - i,
{
    let ghost rest_items = items@.skip(i as int);
    if i == items.len() {
        proof {
            assert(rest_items =~= Seq::<Shape>::empty());
        }
        Result::Ok(String::new())
    } else {
        assert(rest_items[0] == items@[i as int]);
        match section_to_string(&items[i]) {
            Result::Err(e) => Result::Err(e),
            Result::Ok(t) => {
                proof {
                    assert(rest_items.drop_first() =~= items@.skip(i + 1));
                }
                match sections_to_string(items, i + 1) {
                    Result::Err(e) => Result::Err(e),
                    Result::Ok(rest) => {
                        let mut out = t;
                        if i + 1 < items.len() {
                            push_char(&mut out, '\n');
                            out.append(rest.as_str());
                        }
                        proof {
                            match spec_ser_sections(rest_items) {
                                Result::Ok(w) => {
                                    assert(out@ =~= w);
                                },
                                Result::Err(_) => {},
                            }
                        }
                        Result::Ok(out)
                    },
                }
            },
        }
    }
}

/// Serializes a whole shape to text: one group per record or non-unit
/// variant, a non-empty sequence of those at the root as consecutive
/// groups.
///
/// # Errors
///
/// `ExpectedMap` when the root is a scalar or an empty sequence,
/// `UnsupportedType` for a unit variant at the root or a shape with no
/// mapping, `NestingNotSupported` for a record inside a group.
pub fn to_string(shape: &Shape) -> (r: Result<String, Error>)
    ensures
        match (r, spec_to_string(*shape)) {
            (Result::Ok(s), Result::Ok(t)) => s@ == t,
            (Result::Err(a), Result::Err(b)) => a == b,
            _ => false,
        },
{
    match shape {
        Shape::Sequence(items) => {
            if items.len() == 0 {
                Result::Err(Error::ExpectedMap)
            } else {
                proof {
                    assert(items@.skip(0) =~= items@);
                }
                sections_to_string(items, 0)
            }
        },
        _ => section_to_string(shape),
    }
}


/// The root serializer: a record, a variant, or a sequence of those, each
/// becoming its own group.
pub struct HeaderMapSerializer {
    pub output: String,
    pub new_line: bool,
}

impl HeaderMapSerializer {
    pub fn new(output: String) -> (r: Self)
        ensures
            r.output == output,
            r.new_line == false,
    {
        Self { output, new_line: false }
    }

    /// Appends one element of a root sequence as its own section, on a new
    /// line once a first section has been written.  On an error nothing is
    /// appended.
    pub fn serialize_element(&mut self, sh: &Shape) -> (r: Result<(), Error>)
        ensures
            match (r, spec_ser_section(*sh)) {
                (Result::Ok(u), Result::Ok(t)) => final(self).output@ == old(self).output@ + (
                if old(self).new_line {
                    seq!['\n'] + t
                } else {
                    t
                }) && final(self).new_line == true,
                (Result::Err(a), Result::Err(b)) => a == b && *final(self) == *old(self),
                _ => false,
            },
    {
        match section_to_string(sh) {
            Result::Err(e) => Result::Err(e),
            Result::Ok(t) => {
                if self.new_line {
                    push_char(&mut self.output, '\n');
                }
                self.output.append(t.as_str());
                self.new_line = true;
                proof {
                    match spec_ser_section(*sh) {
                        Result::Ok(w) => {
                            if !old(self).new_line {
                                assert(self.output@ =~= old(self).output@ + w);
                            }
                        },
                        Result::Err(_) => {},
                    }
                }
                Result::Ok(())
            },
        }
    }

    /// Appends the whole serialized form of `sh`.  On an error nothing is
    /// appended.
    pub fn serialize(&mut self, sh: &Shape) -> (r: Result<(), Error>)
        ensures
            match (r, spec_to_string(*sh)) {
                (Result::Ok(u), Result::Ok(t)) => final(self).output@ == old(self).output@ + t
                    && final(self).new_line == true,
                (Result::Err(a), Result::Err(b)) => a == b && *final(self) == *old(self),
                _ => false,
            },
    {
        match to_string(sh) {
            Result::Err(e) => Result::Err(e),
            Result::Ok(t) => {
                self.output.append(t.as_str());
                self.new_line = true;
                Result::Ok(())
            },
        }
    }

    pub fn into_output(self) -> (s: String)
        ensures
            s == self.output,
    {
        self.output
    }
}

/// Serializes one section: a record or a non-unit variant with its header.
pub struct SectionSerializer {
    pub output: String,
    pub new_line: bool,
}

impl SectionSerializer {
    pub fn new(output: String, new_line: bool) -> (r: Self)
        ensures
            r.output == output,
            r.new_line == new_line,
    {
        Self { output, new_line }
    }

    /// Appends the section for `sh`, on a new line when this serializer was
    /// created mid-document.  On an error nothing is appended.
    pub fn serialize(&mut self, sh: &Shape) -> (r: Result<(), Error>)
        ensures
            match (r, spec_ser_section(*sh)) {
                (Result::Ok(u), Result::Ok(t)) => final(self).output@ == old(self).output@ + (
                if old(self).new_line {
                    seq!['\n'] + t
                } else {
                    t
                }) && final(self).new_line == old(self).new_line,
                (Result::Err(a), Result::Err(b)) => a == b && *final(self) == *old(self),
                _ => false,
            },
    {
        match section_to_string(sh) {
            Result::Err(e) => Result::Err(e),
            Result::Ok(t) => {
                if self.new_line {
                    push_char(&mut self.output, '\n');
                }
                self.output.append(t.as_str());
                proof {
                    match spec_ser_section(*sh) {
                        Result::Ok(w) => {
                            if !old(self).new_line {
                                assert(self.output@ =~= old(self).output@ + w);
                            }
                        },
                        Result::Err(_) => {},
                    }
                }
                Result::Ok(())
            },
        }
    }

    pub fn into_output(self) -> (s: String)
        ensures
            s == self.output,
    {
        self.output
    }
}

/// Serializes a group header from a map key.
pub struct HeaderSerializer {
    pub output: String,
    pub new_line: bool,
}

impl HeaderSerializer {
    pub fn new(output: String, new_line: bool) -> (r: Self)
        ensures
            r.output == output,
            r.new_line == new_line,
    {
        Self { output, new_line }
    }

    /// Appends `[header]`, on a new line when a section precedes it.
    pub fn serialize_str(&mut self, header: &str)
        ensures
            final(self).output@ == old(self).output@ + (if old(self).new_line {
                seq!['\n'] + spec_header_line(header@)
            } else {
                spec_header_line(header@)
            }),
            final(self).new_line == true,
    {
        if self.new_line {
            push_char(&mut self.output, '\n');
        }
        emit_header(&mut self.output, header);
        self.new_line = true;
        proof {
            if !old(self).new_line {
                assert(self.output@ =~= old(self).output@ + spec_header_line(header@));
            }
        }
    }

    pub fn into_output(self) -> (s: String)
        ensures
            s == self.output,
    {
        self.output
    }
}

/// Serializes the `key=value` lines of one section.
pub struct EntrySerializer {
    pub output: String,
}

impl EntrySerializer {
    pub fn new(output: String) -> (r: Self)
        ensures
            r.output == output,
    {
        Self { output }
    }

    /// Appends one field as a line of its own: `\n`, the key, `=`, and the
    /// value.  On an error nothing is appended.
    pub fn serialize_field(&mut self, key: &str, sh: &Shape) -> (r: Result<(), Error>)
        ensures
            match (r, spec_ser_inline(*sh)) {
                (Result::Ok(u), Result::Ok(t)) => final(self).output@ == old(self).output@
                    + seq!['\n'] + key@ + seq!['='] + t,
                (Result::Err(a), Result::Err(b)) => a == b && *final(self) == *old(self),
                _ => false,
            },
    {
        match inline_to_string(sh) {
            Result::Err(e) => Result::Err(e),
            Result::Ok(t) => {
                push_char(&mut self.output, '\n');
                emit_key(&mut self.output, key);
                self.output.append(t.as_str());
                proof {
                    match spec_ser_inline(*sh) {
                        Result::Ok(w) => {
                            assert(self.output@ =~= old(self).output@ + seq!['\n'] + key@
                                + seq!['='] + w);
                        },
                        Result::Err(_) => {},
                    }
                }
                Result::Ok(())
            },
        }
    }

    /// Appends one line per field, in order.  On an error nothing is
    /// appended.
    pub fn serialize_fields(&mut self, fields: &Vec<(String, Shape)>) -> (r: Result<(), Error>)
        ensures
            match (r, spec_ser_entries(fields@)) {
                (Result::Ok(u), Result::Ok(t)) => final(self).output@ == old(self).output@ + t,
                (Result::Err(a), Result::Err(b)) => a == b && *final(self) == *old(self),
                _ => false,
            },
    {
        proof {
            assert(fields@.skip(0) =~= fields@);
        }
        match entries_to_string(fields, 0) {
            Result::Err(e) => Result::Err(e),
            Result::Ok(t) => {
                self.output.append(t.as_str());
                Result::Ok(())
            },
        }
    }

    pub fn into_output(self) -> (s: String)
        ensures
            s == self.output,
    {
        self.output
    }
}

/// Serializes a single value after `key=`.
pub struct ValueSerializer {
    pub output: String,
}

impl ValueSerializer {
    pub fn new(output: String) -> (r: Self)
        ensures
            r.output == output,
    {
        Self { output }
    }

    /// Appends the inline text of `sh`.  On an error nothing is appended.
    pub fn serialize(&mut self, sh: &Shape) -> (r: Result<(), Error>)
        ensures
            match (r, spec_ser_inline(*sh)) {
                (Result::Ok(u), Result::Ok(t)) => final(self).output@ == old(self).output@ + t,
                (Result::Err(a), Result::Err(b)) => a == b && *final(self) == *old(self),
                _ => false,
            },
    {
        match inline_to_string(sh) {
            Result::Err(e) => Result::Err(e),
            Result::Ok(t) => {
                self.output.append(t.as_str());
                Result::Ok(())
            },
        }
    }

    pub fn into_output(self) -> (s: String)
        ensures
            s == self.output,
    {
        self.output
    }
}

} // verus!
