//! The typed annotation store: a name-to-value mapping where the last
//! write for a name wins, two attribute-derived flags, tag-checked
//! lookups, and an insert-if-absent default rule.

use vstd::prelude::*;

use crate::text::str_eq;
use crate::value::{AnnotationValue, AtomParseable, ValueView};

verus! {

/// An output target. `Cython` is the bridging language whose toolchain has
/// no native expression of "must use" or "deprecated", so those flags are
/// suppressed when queried for it.
#[derive(Clone, Copy, Debug, PartialEq, Eq, Structural)]
pub enum Language {
    C,
    Cxx,
    Cython,
}

/// A set of annotations resolved for one declaration: the name-keyed
/// mapping from the comment directives, and the two flags from the
/// structured attributes.
#[derive(Debug, Clone)]
pub struct AnnotationSet {
    entries: Vec<(String, AnnotationValue)>,
    pub must_use: bool,
    pub deprecated: Option<String>,
}

/// The mathematical shape of an [`AnnotationSet`].
pub struct SetView {
    pub map: Map<Seq<char>, ValueView>,
    pub must_use: bool,
    pub deprecated: Option<Seq<char>>,
}

/// The mapping an entry list denotes: bindings applied left to right,
/// so a later binding for a name overrides an earlier one.
pub open spec fn entry_map(s: Seq<(String, AnnotationValue)>) -> Map<Seq<char>, ValueView>
    decreases s.len(),
{
    if s.len() == 0 {
        Map::empty()
    } else {
        entry_map(s.drop_last()).insert(s.last().0@, s.last().1@)
    }
}

impl View for AnnotationSet {
    type V = SetView;

    closed spec fn view(&self) -> SetView {
        SetView {
            map: entry_map(self.entries@),
            must_use: self.must_use,
            deprecated: self.deprecated.deep_view(),
        }
    }
}

/// A name is in the mapping exactly when some entry carries it.
proof fn lemma_entry_map_domain(s: Seq<(String, AnnotationValue)>, k: Seq<char>)
    ensures
        entry_map(s).contains_key(k) <==> exists|i: int| 0 <= i < s.len() && (#[trigger] s[i]).0@ == k,
    decreases s.len(),
{
    if s.len() > 0 {
        lemma_entry_map_domain(s.drop_last(), k);
        if s.last().0@ == k {
            assert(s[s.len() - 1].0@ == k);
        } else if entry_map(s).contains_key(k) {
            let i = choose|i: int| 0 <= i < s.drop_last().len() && (#[trigger] s.drop_last()[i]).0@ == k;
            assert(s[i].0@ == k);
        } else {
            assert(forall|i: int| 0 <= i < s.len() - 1 ==> (#[trigger] s[i]) == s.drop_last()[i]);
        }
    }
}

/// The mapping's value for a name is the value of the last entry that
/// carries the name.
proof fn lemma_entry_map_value(s: Seq<(String, AnnotationValue)>, k: Seq<char>, i: int)
    requires
        0 <= i < s.len(),
        s[i].0@ == k,
        forall|j: int| i < j < s.len() ==> (#[trigger] s[j]).0@ != k,
    ensures
        entry_map(s).contains_key(k),
        entry_map(s)[k] == s[i].1@,
    decreases s.len(),
{
    if i == s.len() - 1 {
    } else {
        assert(s.drop_last()[i] == s[i]);
        assert(forall|j: int|
            i < j < s.drop_last().len() ==> (#[trigger] s.drop_last()[j]) == s[j]);
        lemma_entry_map_value(s.drop_last(), k, i);
        assert(s.last().0@ != k);
    }
}

/// An entry list denotes the empty mapping exactly when it is empty.
proof fn lemma_entry_map_empty(s: Seq<(String, AnnotationValue)>)
    ensures
        (entry_map(s) == Map::<Seq<char>, ValueView>::empty()) <==> s.len() == 0,
{
    if s.len() > 0 {
        assert(entry_map(s).contains_key(s.last().0@));
        assert(!Map::<Seq<char>, ValueView>::empty().contains_key(s.last().0@));
    }
}

/// The mapping after a default insertion: untouched when the name is
/// already bound, extended otherwise.
pub open spec fn add_default_spec(
    m: Map<Seq<char>, ValueView>,
    name: Seq<char>,
    value: ValueView,
) -> Map<Seq<char>, ValueView> {
    if m.contains_key(name) {
        m
    } else {
        m.insert(name, value)
    }
}

/// An exact copy of a vector of strings.
fn clone_string_vec(v: &Vec<String>) -> (r: Vec<String>)
    ensures
        r@ == v@,
{
    let mut r: Vec<String> = Vec::new();
    let mut i: usize = 0;
    while i < v.len()
        invariant
            i <= v.len(),
            r@ == v@.take(i as int),
        decreases v.len() - i,
    {
        r.push(v[i].clone());
        proof {
            assert(v@.take(i as int).push(v@[i as int]) =~= v@.take(i as int + 1));
        }
        i = i + 1;
    }
    proof {
        assert(v@.take(v@.len() as int) =~= v@);
    }
    r
}

impl AnnotationSet {
    /// An empty set: no names bound, no flags raised.
    pub fn new() -> (r: AnnotationSet)
        ensures
            r@.map == Map::<Seq<char>, ValueView>::empty(),
            r@.must_use == false,
            r@.deprecated is None,
    {
        AnnotationSet { entries: Vec::new(), must_use: false, deprecated: None }
    }

    /// An empty mapping beside already-resolved flags.
    pub fn with_flags(must_use: bool, deprecated: Option<String>) -> (r: AnnotationSet)
        ensures
            r@.map == Map::<Seq<char>, ValueView>::empty(),
            r@.must_use == must_use,
            r@.deprecated == deprecated.deep_view(),
    {
        AnnotationSet { entries: Vec::new(), must_use, deprecated }
    }

    /// True exactly when no name is bound and the must-use flag is down;
    /// a deprecation note alone does not make the set non-empty.
    pub fn is_empty(&self) -> (r: bool)
        ensures
            r == (self@.map == Map::<Seq<char>, ValueView>::empty() && !self@.must_use),
    {
        proof {
            lemma_entry_map_empty(self.entries@);
        }
        self.entries.len() == 0 && !self.must_use
    }

    /// The stored must-use flag, suppressed for the bridging language.
    /// The stored flag itself is never changed by this query.
    pub fn must_use(&self, language: Language) -> (r: bool)
        ensures
            r == (self@.must_use && language != Language::Cython),
    {
        self.must_use && language != Language::Cython
    }

    /// Whether the declaration is deprecated, suppressed for the bridging
    /// language. The stored note itself is never changed by this query.
    pub fn deprecated(&self, language: Language) -> (r: bool)
        ensures
            r == (self@.deprecated is Some && language != Language::Cython),
    {
        self.deprecated.is_some() && language != Language::Cython
    }

    /// The last entry bound to `name`, if any.
    fn get_value(&self, name: &str) -> (r: Option<&AnnotationValue>)
        ensures
            match r {
                Some(v) => self@.map.contains_key(name@) && v@ == self@.map[name@],
                None => !self@.map.contains_key(name@),
            },
    {
        let n = self.entries.len();
        let mut j: usize = n;
        while j > 0
            invariant
                j <= n,
                n == self.entries@.len(),
                forall|m: int| j <= m < n ==> (#[trigger] self.entries@[m]).0@ != name@,
            decreases j,
        {
            j = j - 1;
            let hit = str_eq(self.entries[j].0.as_str(), name);
            if hit {
                proof {
                    lemma_entry_map_value(self.entries@, name@, j as int);
                }
                return Some(&self.entries[j].1);
            }
        }
        proof {
            lemma_entry_map_domain(self.entries@, name@);
        }
        None
    }

    /// Whether `name` is bound.
    fn contains_name(&self, name: &str) -> (r: bool)
        ensures
            r == self@.map.contains_key(name@),
    {
        match self.get_value(name) {
            Some(_) => true,
            None => false,
        }
    }

    /// Binds `name` to `value`, overriding any earlier binding.
    pub(crate) fn insert_value(&mut self, name: String, value: AnnotationValue)
        ensures
            final(self)@.map == old(self)@.map.insert(name@, value@),
            final(self)@.must_use == old(self)@.must_use,
            final(self)@.deprecated == old(self)@.deprecated,
    {
        let ghost before = self.entries@;
        let ghost v = value@;
        self.entries.push((name, value));
        proof {
            assert(self.entries@.drop_last() =~= before);
        }
    }

    /// Binds `name` to `value` only if `name` is not already bound: an
    /// explicit directive always outranks a default added afterwards.
    pub fn add_default(&mut self, name: &str, value: AnnotationValue)
        ensures
            final(self)@.map == add_default_spec(old(self)@.map, name@, value@),
            final(self)@.must_use == old(self)@.must_use,
            final(self)@.deprecated == old(self)@.deprecated,
    {
        let ghost v = value@;
        if !self.contains_name(name) {
            self.insert_value(name.to_owned(), value);
        }
    }

    /// The list payload bound to `name`, exactly when the bound value is a
    /// list; absent on an unbound name or any other tag.
    pub fn list(&self, name: &str) -> (r: Option<Vec<String>>)
        ensures
            match r {
                Some(items) => self@.map.contains_key(name@) && self@.map[name@]
                    == ValueView::List(items.deep_view()),
                None => !(self@.map.contains_key(name@) && self@.map[name@] is List),
            },
    {
        match self.get_value(name) {
            Some(AnnotationValue::List(items)) => {
                let copied = clone_string_vec(items);
                proof {
                    assert(copied.deep_view() =~= items.deep_view());
                }
                Some(copied)
            },
            _ => None,
        }
    }

    /// The atom payload bound to `name`, exactly when the bound value is an
    /// atom; absent on an unbound name or any other tag.
    pub fn atom(&self, name: &str) -> (r: Option<Option<String>>)
        ensures
            match r {
                Some(text) => self@.map.contains_key(name@) && self@.map[name@]
                    == ValueView::Atom(text.deep_view()),
                None => !(self@.map.contains_key(name@) && self@.map[name@] is Atom),
            },
    {
        match self.get_value(name) {
            Some(AnnotationValue::Atom(text)) => match text {
                Some(t) => Some(Some(t.clone())),
                None => Some(None),
            },
            _ => None,
        }
    }

    /// The boolean bound to `name`, exactly when the bound value is a
    /// boolean; absent on an unbound name or any other tag.
    pub fn bool(&self, name: &str) -> (r: Option<bool>)
        ensures
            match r {
                Some(b) => self@.map.contains_key(name@) && self@.map[name@] == ValueView::Bool(b),
                None => !(self@.map.contains_key(name@) && self@.map[name@] is Bool),
            },
    {
        match self.get_value(name) {
            Some(AnnotationValue::Bool(b)) => Some(*b),
            _ => None,
        }
    }

    /// The atom bound to `name`, converted to `T`: the default value when
    /// the atom carries no text, the converted value otherwise. Callers
    /// must not hand a stored atom whose text does not convert.
    pub fn parse_atom<T: AtomParseable>(&self, name: &str) -> (r: Option<T>)
        requires
            ({
                let m = self@.map;
                m.contains_key(name@) ==> match m[name@] {
                    ValueView::Atom(Some(t)) => T::parses(t),
                    _ => true,
                }
            }),
        ensures
            match r {
                Some(v) => self@.map.contains_key(name@) && (match self@.map[name@] {
                    ValueView::Atom(None) => v == T::default_spec(),
                    ValueView::Atom(Some(t)) => v == T::parse_spec(t),
                    _ => false,
                }),
                None => !(self@.map.contains_key(name@) && self@.map[name@] is Atom),
            },
    {
        match self.get_value(name) {
            Some(AnnotationValue::Atom(text)) => match text {
                Some(t) => match T::parse_text(t.as_str()) {
                    Some(v) => Some(v),
                    None => {
                        proof {
                            assert(false);
                        }
                        None
                    },
                },
                None => Some(T::default_value()),
            },
            _ => None,
        }
    }
}

impl Default for AnnotationSet {
    /// The empty set, as [`AnnotationSet::new`] builds it.
    fn default() -> (r: AnnotationSet)
        ensures
            r@.map == Map::<Seq<char>, ValueView>::empty(),
            r@.must_use == false,
            r@.deprecated is None,
    {
        AnnotationSet::new()
    }
}

} // verus!
