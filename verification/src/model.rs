//! The document model: keys (simple or locale-qualified), typed values,
//! ordered entry maps with overwrite-in-place insertion, and the document
//! itself (an ordered list of named groups plus an optional comment log).

use vstd::prelude::*;

verus! {

/// A locale tag attached to a key: `lang[_country][.encoding][@modifier]`.
#[derive(Debug, Clone, PartialEq, Eq, Hash)]
pub struct Locale {
    pub lang: String,
    pub country: Option<String>,
    pub encoding: Option<String>,
    pub modifier: Option<String>,
}

/// The mathematical shape of a `Locale`.
pub struct LocaleView {
    pub lang: Seq<char>,
    pub country: Option<Seq<char>>,
    pub encoding: Option<Seq<char>>,
    pub modifier: Option<Seq<char>>,
}

impl View for Locale {
    type V = LocaleView;

    open spec fn view(&self) -> LocaleView {
        LocaleView {
            lang: self.lang@,
            country: match self.country {
                Option::Some(ref c) => Option::Some(c@),
                Option::None => Option::None,
            },
            encoding: match self.encoding {
                Option::Some(ref c) => Option::Some(c@),
                Option::None => Option::None,
            },
            modifier: match self.modifier {
                Option::Some(ref c) => Option::Some(c@),
                Option::None => Option::None,
            },
        }
    }
}

/// A key of an entry: bare, or qualified by a locale tag.
#[derive(Debug, Clone, PartialEq, Eq, Hash)]
pub enum Key {
    Simple(String),
    Localized { key: String, locale: Locale },
}

/// The mathematical shape of a `Key`.
pub enum KeyView {
    Simple(Seq<char>),
    Localized { key: Seq<char>, locale: LocaleView },
}

impl View for Key {
    type V = KeyView;

    open spec fn view(&self) -> KeyView {
        match self {
            Key::Simple(name) => KeyView::Simple(name@),
            Key::Localized { key, locale } => KeyView::Localized {
                key: key@,
                locale: locale@,
            },
        }
    }
}

/// A typed value of an entry.
///
/// A numeric value holds the decimal literal exactly as it stood in the
/// text, so that writing the document back reproduces it; its variants are
/// open to a future icon kind.
#[derive(Debug, Clone, PartialEq, Eq, Hash)]
pub enum Value {
    String(String),
    LocaleString(String),
    Boolean(bool),
    Numeric(String),
}

/// The mathematical shape of a `Value`.
pub enum ValueView {
    String(Seq<char>),
    LocaleString(Seq<char>),
    Boolean(bool),
    Numeric(Seq<char>),
}

impl View for Value {
    type V = ValueView;

    open spec fn view(&self) -> ValueView {
        match self {
            Value::String(s) => ValueView::String(s@),
            Value::LocaleString(s) => ValueView::LocaleString(s@),
            Value::Boolean(b) => ValueView::Boolean(*b),
            Value::Numeric(s) => ValueView::Numeric(s@),
        }
    }
}

/// A retained non-entry line: a comment, or a blank line with the
/// whitespace it carried.
#[derive(Debug, Clone, PartialEq, Eq, Hash)]
pub enum Comment {
    Comment(String),
    EmptyLine { white_space: Option<String> },
}

/// The mathematical shape of a `Comment`.
pub enum CommentView {
    Comment(Seq<char>),
    EmptyLine { white_space: Option<Seq<char>> },
}

impl View for Comment {
    type V = CommentView;

    open spec fn view(&self) -> CommentView {
        match self {
            Comment::Comment(s) => CommentView::Comment(s@),
            Comment::EmptyLine { white_space } => CommentView::EmptyLine {
                white_space: match white_space {
                    Option::Some(ref w) => Option::Some(w@),
                    Option::None => Option::None,
                },
            },
        }
    }
}

/// The first position in `s` whose key equals `k`, or `-1` if none does.
pub open spec fn index_of_key(s: Seq<(KeyView, ValueView)>, k: KeyView) -> int
    decreases s.len(),
{
    if s.len() == 0 {
        -1
    } else if s[0].0 == k {
        0
    } else {
        let r = index_of_key(s.drop_first(), k);
        if r == -1 {
            -1
        } else {
            r + 1
        }
    }
}

/// What `index_of_key` finds: the first matching position, if any.
pub proof fn lemma_index_of_key(s: Seq<(KeyView, ValueView)>, k: KeyView)
    ensures
        index_of_key(s, k) == -1 ==> forall|i: int| 0 <= i < s.len() ==> s[i].0 != k,
        index_of_key(s, k) != -1 ==> {
            let r = index_of_key(s, k);
            0 <= r < s.len() && s[r].0 == k && forall|i: int| 0 <= i < r ==> s[i].0 != k
        },
    decreases s.len(),
{
    if s.len() > 0 && s[0].0 != k {
        let t = s.drop_first();
        lemma_index_of_key(t, k);
        if index_of_key(s, k) == -1 {
            assert forall|i: int| 0 <= i < s.len() implies s[i].0 != k by {
                if i > 0 {
                    assert(t[i - 1] == s[i]);
                }
            }
        } else {
            let r = index_of_key(s, k);
            assert(t[r - 1] == s[r]);
            assert forall|i: int| 0 <= i < r implies s[i].0 != k by {
                if i > 0 {
                    assert(t[i - 1] == s[i]);
                }
            }
        }
    }
}

/// The result of inserting `(k, v)`: overwrite in place when `k` is
/// present, append at the end when it is not.
pub open spec fn spec_insert(
    s: Seq<(KeyView, ValueView)>,
    k: KeyView,
    v: ValueView,
) -> Seq<(KeyView, ValueView)> {
    let r = index_of_key(s, k);
    if r == -1 {
        s.push((k, v))
    } else {
        s.update(r, (k, v))
    }
}

/// No two entries share a key.
pub open spec fn unique_keys(s: Seq<(KeyView, ValueView)>) -> bool {
    forall|i: int, j: int| 0 <= i < j < s.len() ==> s[i].0 != s[j].0
}

/// An ordered mapping from `Key` to `Value`.
///
/// Insertion order is preserved; inserting a key already present overwrites
/// its value in place without moving the entry.
#[derive(Debug, Clone, PartialEq, Eq)]
pub struct EntryMap {
    entries: Vec<(Key, Value)>,
}

impl View for EntryMap {
    type V = Seq<(KeyView, ValueView)>;

    closed spec fn view(&self) -> Seq<(KeyView, ValueView)> {
        Seq::new(self.entries@.len(), |i: int| (self.entries@[i].0@, self.entries@[i].1@))
    }
}

impl EntryMap {
    /// Every key occurs at most once.
    pub open spec fn wf(&self) -> bool {
        unique_keys(self@)
    }

    pub fn new() -> (r: EntryMap)
        ensures
            r@ =~= Seq::<(KeyView, ValueView)>::empty(),
            r.wf(),
    {
        EntryMap { entries: Vec::new() }
    }

    pub fn len(&self) -> (n: usize)
        ensures
            n == self@.len(),
    {
        self.entries.len()
    }

    /// The entry at position `i`, in insertion order.
    pub fn entry_at(&self, i: usize) -> (r: &(Key, Value))
        requires
            i < self@.len(),
        ensures
            r.0@ == self@[i as int].0,
            r.1@ == self@[i as int].1,
    {
        &self.entries[i]
    }

    /// The position of `k`, if present.
    pub fn find(&self, k: &Key) -> (r: Option<usize>)
        ensures
            match r {
                Option::Some(i) => index_of_key(self@, k@) == i as int && i < self@.len(),
                Option::None => index_of_key(self@, k@) == -1,
            },
    {
        proof {
            lemma_index_of_key(self@, k@);
        }
        let n = self.entries.len();
        for i in 0..n
            invariant
                n == self@.len(),
                forall|j: int| 0 <= j < i ==> self@[j].0 != k@,
        {
            if key_eq(&self.entries[i].0, k) {
                proof {
                    lemma_index_of_key_found(self@, k@, i as int);
                }
                return Option::Some(i);
            }
        }
        proof {
            lemma_index_of_key(self@, k@);
            if index_of_key(self@, k@) != -1 {
                assert(self@[index_of_key(self@, k@)].0 == k@);
            }
        }
        Option::None
    }

    /// The value stored under `k`, if present.
    pub fn get(&self, k: &Key) -> (r: Option<&Value>)
        ensures
            match r {
                Option::Some(v) => {
                    let i = index_of_key(self@, k@);
                    i != -1 && v@ == self@[i].1
                },
                Option::None => index_of_key(self@, k@) == -1,
            },
    {
        match self.find(k) {
            Option::Some(i) => Option::Some(&self.entries[i].1),
            Option::None => Option::None,
        }
    }

    /// Insert `(k, v)`: overwrite in place when `k` is present, append when
    /// it is not.
    pub fn insert(&mut self, k: Key, v: Value)
        requires
            old(self).wf(),
        ensures
            final(self)@ == spec_insert(old(self)@, k@, v@),
            final(self).wf(),
    {
        proof {
            lemma_index_of_key(self@, k@);
        }
        let found = self.find(&k);
        match found {
            Option::Some(i) => {
                self.entries.set(i, (k, v));
                assert(self@ =~= spec_insert(old(self)@, k@, v@));
            },
            Option::None => {
                self.entries.push((k, v));
                assert(self@ =~= spec_insert(old(self)@, k@, v@));
                proof {
                    lemma_index_of_key(old(self)@, k@);
                }
            },
        }
    }
}

/// `index_of_key` is `i` when `s[i]` matches and nothing before it does.
pub proof fn lemma_index_of_key_found(s: Seq<(KeyView, ValueView)>, k: KeyView, i: int)
    requires
        0 <= i < s.len(),
        s[i].0 == k,
        forall|j: int| 0 <= j < i ==> s[j].0 != k,
    ensures
        index_of_key(s, k) == i,
    decreases s.len(),
{
    if i > 0 {
        assert(s[0].0 != k);
        lemma_index_of_key_found(s.drop_first(), k, i - 1);
    }
}

/// Whether two keys have the same shape.
pub fn key_eq(a: &Key, b: &Key) -> (r: bool)
    ensures
        r == (a@ == b@),
{
    match (a, b) {
        (Key::Simple(x), Key::Simple(y)) => *x == *y,
        (
            Key::Localized { key: xk, locale: xl },
            Key::Localized { key: yk, locale: yl },
        ) => *xk == *yk && locale_eq(xl, yl),
        _ => false,
    }
}

/// Whether two locale tags have the same shape.
pub fn locale_eq(a: &Locale, b: &Locale) -> (r: bool)
    ensures
        r == (a@ == b@),
{
    a.lang == b.lang && opt_string_eq(&a.country, &b.country) && opt_string_eq(
        &a.encoding,
        &b.encoding,
    ) && opt_string_eq(&a.modifier, &b.modifier)
}

fn opt_string_eq(a: &Option<String>, b: &Option<String>) -> (r: bool)
    ensures
        r == match (a, b) {
            (Option::Some(x), Option::Some(y)) => Option::Some(x@) == Option::Some::<Seq<char>>(y@),
            (Option::None, Option::None) => true,
            _ => false,
        },
{
    match (a, b) {
        (Option::Some(x), Option::Some(y)) => *x == *y,
        (Option::None, Option::None) => true,
        _ => false,
    }
}

/// A parsed document: groups in file order, and, when comment-preserving
/// mode was chosen, the comment log keyed by zero-based physical line index.
///
/// Re-declaring a header later in the file appends a new trailing group; two
/// same-named groups are never merged.
#[derive(Debug, Clone, PartialEq, Eq)]
pub struct DesktopEntry {
    groups: Vec<(String, EntryMap)>,
    comments: Vec<(usize, Comment)>,
}

/// The mathematical shape of a `DesktopEntry`.
pub struct DesktopEntryView {
    pub groups: Seq<(Seq<char>, Seq<(KeyView, ValueView)>)>,
    pub comments: Seq<(nat, CommentView)>,
}

impl View for DesktopEntry {
    type V = DesktopEntryView;

    closed spec fn view(&self) -> DesktopEntryView {
        DesktopEntryView {
            groups: Seq::new(
                self.groups@.len(),
                |i: int| (self.groups@[i].0@, self.groups@[i].1@),
            ),
            comments: Seq::new(
                self.comments@.len(),
                |i: int| (self.comments@[i].0 as nat, self.comments@[i].1@),
            ),
        }
    }
}

impl DesktopEntry {
    /// Every group's entry map has unique keys.
    pub open spec fn wf(&self) -> bool {
        forall|i: int| 0 <= i < self@.groups.len() ==> unique_keys(#[trigger] self@.groups[i].1)
    }

    pub fn new() -> (r: DesktopEntry)
        ensures
            r@.groups =~= Seq::<(Seq<char>, Seq<(KeyView, ValueView)>)>::empty(),
            r@.comments =~= Seq::<(nat, CommentView)>::empty(),
            r.wf(),
    {
        DesktopEntry { groups: Vec::new(), comments: Vec::new() }
    }

    pub fn group_count(&self) -> (n: usize)
        ensures
            n == self@.groups.len(),
    {
        self.groups.len()
    }

    /// The group at position `i`, in file order.
    pub fn group_at(&self, i: usize) -> (r: &(String, EntryMap))
        requires
            i < self@.groups.len(),
        ensures
            r.0@ == self@.groups[i as int].0,
            r.1@ == self@.groups[i as int].1,
    {
        &self.groups[i]
    }

    /// Append a group with the given header.
    pub fn push_group(&mut self, header: String, entries: EntryMap)
        ensures
            final(self)@.groups == old(self)@.groups.push((header@, entries@)),
            final(self)@.comments == old(self)@.comments,
    {
        let ghost old_view = self@.groups;
        self.groups.push((header, entries));
        assert(self@.groups =~= old_view.push((header@, entries@)));
        assert(self@.comments =~= old(self)@.comments);
    }

    pub fn comment_count(&self) -> (n: usize)
        ensures
            n == self@.comments.len(),
    {
        self.comments.len()
    }

    /// The retained comment or blank line at position `i` of the log,
    /// with the physical line index it stood at.
    pub fn comment_at(&self, i: usize) -> (r: &(usize, Comment))
        requires
            i < self@.comments.len(),
        ensures
            r.0 as nat == self@.comments[i as int].0,
            r.1@ == self@.comments[i as int].1,
    {
        &self.comments[i]
    }

    /// Record a comment or blank line seen at physical line `line`.
    pub fn push_comment(&mut self, line: usize, c: Comment)
        ensures
            final(self)@.comments == old(self)@.comments.push((line as nat, c@)),
            final(self)@.groups == old(self)@.groups,
    {
        let ghost old_comments = self@.comments;
        self.comments.push((line, c));
        assert(self@.comments =~= old_comments.push((line as nat, c@)));
        assert(self@.groups =~= old(self)@.groups);
    }
}

} // verus!
