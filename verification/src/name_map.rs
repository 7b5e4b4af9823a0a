//! A map that is keyed by names and kept in the order of its keys.
//!
//! Names are ordered as their bytes are: by the first byte in which two names differ, a
//! name that is the beginning of another coming first.

use crate::pairs::{
    lemma_paired_at, lemma_paired_insert, lemma_paired_len, lemma_paired_remove, paired,
};
use crate::types::NameType;
use vstd::prelude::*;

verus! {

/// `a` comes before `b` in the order of names.
pub open spec fn precedes(a: Seq<u8>, b: Seq<u8>) -> bool
    decreases a.len(),
{
    if b.len() == 0 {
        false
    } else if a.len() == 0 {
        true
    } else if a[0] != b[0] {
        a[0] < b[0]
    } else {
        precedes(a.skip(1), b.skip(1))
    }
}

/// No name comes before itself.
pub proof fn lemma_precedes_irreflexive(a: Seq<u8>)
    ensures
        !precedes(a, a),
    decreases a.len(),
{
    if a.len() > 0 {
        lemma_precedes_irreflexive(a.skip(1));
    }
}

/// What comes before a name comes before all that the name comes before.
pub proof fn lemma_precedes_transitive(a: Seq<u8>, b: Seq<u8>, c: Seq<u8>)
    requires
        precedes(a, b),
        precedes(b, c),
    ensures
        precedes(a, c),
    decreases a.len(),
{
    if a.len() > 0 && a[0] == b[0] && b[0] == c[0] {
        lemma_precedes_transitive(a.skip(1), b.skip(1), c.skip(1));
    }
}

/// Of two different names one comes before the other.
pub proof fn lemma_precedes_total(a: Seq<u8>, b: Seq<u8>)
    ensures
        precedes(a, b) || a == b || precedes(b, a),
    decreases a.len(),
{
    if a.len() == 0 || b.len() == 0 {
        if a.len() == 0 && b.len() == 0 {
            assert(a =~= b);
        }
    } else if a[0] == b[0] {
        lemma_precedes_total(a.skip(1), b.skip(1));
        if a.skip(1) == b.skip(1) {
            assert(a =~= b) by {
                assert forall|i: int| 0 <= i < a.len() implies a[i] == b[i] by {
                    if i > 0 {
                        assert(a.skip(1)[i - 1] == b.skip(1)[i - 1]);
                    }
                }
                assert(a.skip(1).len() == b.skip(1).len());
            }
        }
    }
}

/// Two names that start alike are ordered as what follows their common start.
pub proof fn lemma_precedes_behind_common_start(a: Seq<u8>, b: Seq<u8>, n: int)
    requires
        0 <= n <= a.len(),
        n <= b.len(),
        forall|i: int| 0 <= i < n ==> a[i] == b[i],
    ensures
        precedes(a, b) == precedes(a.skip(n), b.skip(n)),
    decreases n,
{
    if n == 0 {
        assert(a.skip(0) =~= a);
        assert(b.skip(0) =~= b);
    } else {
        assert(a[0] == b[0]);
        assert forall|i: int| 0 <= i < n - 1 implies a.skip(1)[i] == b.skip(1)[i] by {
            assert(a[i + 1] == b[i + 1]);
        }
        lemma_precedes_behind_common_start(a.skip(1), b.skip(1), n - 1);
        assert(a.skip(1).skip(n - 1) =~= a.skip(n));
        assert(b.skip(1).skip(n - 1) =~= b.skip(n));
    }
}

/// Where one name stands with respect to another.
#[derive(Clone, Copy, Debug, PartialEq, Eq, Structural)]
pub enum Rank {
    /// It comes before the other.
    Before,
    /// The two are the same name.
    Same,
    /// It comes after the other.
    After,
}

/// Tells where `a` stands with respect to `b`.
pub fn rank(a: &NameType, b: &NameType) -> (r: Rank)
    ensures
        r == Rank::Before <==> precedes(a@, b@),
        r == Rank::Same <==> a@ == b@,
        r == Rank::After <==> precedes(b@, a@),
{
    proof {
        lemma_precedes_irreflexive(a@);
        lemma_precedes_total(a@, b@);
        if precedes(a@, b@) && precedes(b@, a@) {
            lemma_precedes_transitive(a@, b@, a@);
        }
    }
    let mut i: usize = 0;
    while i < a.0.len() && i < b.0.len()
        invariant
            i <= a@.len(),
            i <= b@.len(),
            forall|k: int| 0 <= k < i ==> a@[k] == b@[k],
        decreases a@.len() - i,
    {
        if a.0[i] != b.0[i] {
            proof {
                lemma_precedes_behind_common_start(a@, b@, i as int);
                lemma_precedes_behind_common_start(b@, a@, i as int);
            }
            if a.0[i] < b.0[i] {
                return Rank::Before;
            } else {
                return Rank::After;
            }
        }
        i += 1;
    }
    proof {
        lemma_precedes_behind_common_start(a@, b@, i as int);
        lemma_precedes_behind_common_start(b@, a@, i as int);
    }
    if i < b.0.len() {
        Rank::Before
    } else if i < a.0.len() {
        Rank::After
    } else {
        proof {
            assert(a@ =~= b@);
        }
        Rank::Same
    }
}

/// Each name comes before all that follow it.
pub open spec fn ascending(names: Seq<Seq<u8>>) -> bool {
    forall|i: int, j: int|
        0 <= i < j < names.len() ==> precedes(#[trigger] names[i], #[trigger] names[j])
}

/// In an ascending sequence no name stands twice.
pub proof fn lemma_ascending_distinct(names: Seq<Seq<u8>>)
    requires
        ascending(names),
    ensures
        names.no_duplicates(),
{
    assert forall|i: int, j: int| 0 <= i < names.len() && 0 <= j < names.len() && i != j implies
        names[i] != names[j] by {
        lemma_precedes_irreflexive(names[i]);
        if i < j {
            assert(precedes(names[i], names[j]));
        } else {
            assert(precedes(names[j], names[i]));
        }
    }
}

/// A name that is put between the names before it and the names after it leaves the
/// sequence ascending.
pub proof fn lemma_ascending_insert(names: Seq<Seq<u8>>, at: int, name: Seq<u8>)
    requires
        ascending(names),
        0 <= at <= names.len(),
        forall|i: int| 0 <= i < at ==> precedes(#[trigger] names[i], name),
        at < names.len() ==> precedes(name, names[at]),
    ensures
        ascending(names.insert(at, name)),
{
    let grown = names.insert(at, name);
    assert forall|i: int, j: int| 0 <= i < j < grown.len() implies precedes(
        #[trigger] grown[i],
        #[trigger] grown[j],
    ) by {
        if j == at {
            assert(grown[i] == names[i]);
        } else if i == at {
            assert(grown[j] == names[j - 1]);
            if j - 1 > at {
                assert(precedes(names[at], names[j - 1]));
                lemma_precedes_transitive(name, names[at], names[j - 1]);
            }
        } else {
            let oi = if i < at { i } else { i - 1 };
            let oj = if j < at { j } else { j - 1 };
            assert(grown[i] == names[oi] && grown[j] == names[oj]);
            assert(precedes(names[oi], names[oj]));
        }
    }
}

/// A sequence that loses one of its names stays ascending.
pub proof fn lemma_ascending_remove(names: Seq<Seq<u8>>, at: int)
    requires
        ascending(names),
        0 <= at < names.len(),
    ensures
        ascending(names.remove(at)),
{
    let less = names.remove(at);
    assert forall|i: int, j: int| 0 <= i < j < less.len() implies precedes(
        #[trigger] less[i],
        #[trigger] less[j],
    ) by {
        let oi = if i < at { i } else { i + 1 };
        let oj = if j < at { j } else { j + 1 };
        assert(less[i] == names[oi] && less[j] == names[oj]);
        assert(precedes(names[oi], names[oj]));
    }
}

/// A map from names to values, kept in the order of the names.
pub struct NameMap<V> {
    entries: Vec<(NameType, V)>,
}

impl<V> View for NameMap<V> {
    type V = Map<Seq<u8>, V>;

    closed spec fn view(&self) -> Map<Seq<u8>, V> {
        paired(self.names(), self.values())
    }
}

impl<V> NameMap<V> {
    /// The names of the entries, in the order in which the map holds them.
    pub closed spec fn names(&self) -> Seq<Seq<u8>> {
        Seq::new(self.entries@.len(), |i: int| self.entries@[i].0@)
    }

    /// The values of the entries, each at the place of its name.
    pub closed spec fn values(&self) -> Seq<V> {
        Seq::new(self.entries@.len(), |i: int| self.entries@[i].1)
    }

    /// The names ascend, so that none stands twice.
    pub closed spec fn wf(&self) -> bool {
        ascending(self.names())
    }

    /// How the sequences of names and values relate to the map.
    pub proof fn lemma_entries(&self)
        requires
            self.wf(),
        ensures
            ascending(self.names()),
            self.names().len() == self.values().len(),
            self@ == paired(self.names(), self.values()),
            forall|i: int|
                0 <= i < self.names().len() ==> self@.contains_key(#[trigger] self.names()[i])
                    && self@[self.names()[i]] == self.values()[i],
            forall|n: Seq<u8>| self@.contains_key(n) <==> self.names().contains(n),
            self.names().no_duplicates(),
    {
        lemma_ascending_distinct(self.names());
        assert forall|i: int| 0 <= i < self.names().len() implies self@.contains_key(
            #[trigger] self.names()[i],
        ) && self@[self.names()[i]] == self.values()[i] by {
            lemma_paired_at(self.names(), self.values(), i);
        }
    }

    /// The map holds as many entries as there are names.
    pub proof fn lemma_len(&self)
        requires
            self.wf(),
        ensures
            self@.dom().finite(),
            self@.len() == self.names().len(),
    {
        lemma_ascending_distinct(self.names());
        lemma_paired_len(self.names(), self.values());
    }

    /// A map without entries.
    pub fn new() -> (m: NameMap<V>)
        ensures
            m.wf(),
            m@ == Map::<Seq<u8>, V>::empty(),
            m.names() == Seq::<Seq<u8>>::empty(),
    {
        let m = NameMap { entries: Vec::new() };
        proof {
            assert(m.names() =~= Seq::<Seq<u8>>::empty());
            assert(m@ =~= Map::<Seq<u8>, V>::empty());
        }
        m
    }

    /// The number of entries.
    pub fn len(&self) -> (r: usize)
        ensures
            r == self.names().len(),
    {
        self.entries.len()
    }

    /// The name at place `i`.
    pub fn name_at(&self, i: usize) -> (r: &NameType)
        requires
            i < self.names().len(),
        ensures
            r@ == self.names()[i as int],
    {
        &self.entries[i].0
    }

    /// The value at place `i`.
    pub fn value_at(&self, i: usize) -> (r: &V)
        requires
            i < self.names().len(),
        ensures
            *r == self.values()[i as int],
    {
        &self.entries[i].1
    }

    /// Finds the place of `name`: where it stands, or where it would have to be put.
    fn search(&self, name: &NameType) -> (r: (bool, usize))
        requires
            self.wf(),
        ensures
            r.1 <= self.names().len(),
            forall|i: int| 0 <= i < r.1 ==> precedes(#[trigger] self.names()[i], name@),
            r.0 ==> r.1 < self.names().len() && self.names()[r.1 as int] == name@,
            !r.0 ==> !self.names().contains(name@),
            !r.0 && r.1 < self.names().len() ==> precedes(name@, self.names()[r.1 as int]),
    {
        let mut i: usize = 0;
        while i < self.entries.len()
            invariant
                i <= self.names().len(),
                self.names().len() == self.entries@.len(),
                self.wf(),
                forall|k: int| 0 <= k < i ==> precedes(#[trigger] self.names()[k], name@),
            decreases self.entries@.len() - i,
        {
            match rank(&self.entries[i].0, name) {
                Rank::Before => {},
                Rank::Same => {
                    return (true, i);
                },
                Rank::After => {
                    proof {
                        lemma_absent(self.names(), name@, i as int);
                    }
                    return (false, i);
                },
            }
            i += 1;
        }
        proof {
            lemma_absent(self.names(), name@, i as int);
        }
        (false, i)
    }

    /// Tells whether the map holds an entry under `name`.
    pub fn contains_key(&self, name: &NameType) -> (r: bool)
        requires
            self.wf(),
        ensures
            r == self@.contains_key(name@),
    {
        let (found, _) = self.search(name);
        found
    }

    /// The value that the map holds under `name`.
    pub fn get(&self, name: &NameType) -> (r: Option<&V>)
        requires
            self.wf(),
        ensures
            match r {
                Some(value) => self@.contains_key(name@) && *value == self@[name@],
                None => !self@.contains_key(name@),
            },
    {
        let (found, at) = self.search(name);
        proof {
            self.lemma_entries();
        }
        if found {
            Some(&self.entries[at].1)
        } else {
            None
        }
    }

    /// Puts `value` under `name`, and hands back the value that stood there before.
    pub fn insert(&mut self, name: NameType, value: V) -> (r: Option<V>)
        requires
            old(self).wf(),
        ensures
            final(self).wf(),
            final(self)@ == old(self)@.insert(name@, value),
            r == if old(self)@.contains_key(name@) {
                Some(old(self)@[name@])
            } else {
                None::<V>
            },
    {
        let (found, at) = self.search(&name);
        let ghost names = self.names();
        let ghost values = self.values();
        proof {
            self.lemma_entries();
        }
        if found {
            let previous = self.entries.remove(at);
            proof {
                lemma_paired_remove(names, values, at as int);
                lemma_ascending_remove(names, at as int);
                assert(self.names() =~= names.remove(at as int));
                assert(self.values() =~= values.remove(at as int));
                assert forall|i: int| 0 <= i < at implies precedes(
                    #[trigger] self.names()[i],
                    name@,
                ) by {
                    assert(self.names()[i] == names[i]);
                }
                if at < self.names().len() {
                    assert(self.names()[at as int] == names[at + 1]);
                    assert(precedes(names[at as int], names[at + 1]));
                }
                lemma_ascending_insert(self.names(), at as int, name@);
                lemma_paired_insert(self.names(), self.values(), at as int, name@, value);
            }
            let ghost mid_names = self.names();
            let ghost mid_values = self.values();
            self.entries.insert(at, (name, value));
            proof {
                assert(self.names() =~= mid_names.insert(at as int, name@));
                assert(self.values() =~= mid_values.insert(at as int, value));
                assert(old(self)@.remove(name@).insert(name@, value) =~= old(self)@.insert(
                    name@,
                    value,
                ));
            }
            Some(previous.1)
        } else {
            proof {
                lemma_ascending_insert(names, at as int, name@);
                lemma_paired_insert(names, values, at as int, name@, value);
            }
            self.entries.insert(at, (name, value));
            proof {
                assert(self.names() =~= names.insert(at as int, name@));
                assert(self.values() =~= values.insert(at as int, value));
            }
            None
        }
    }

    /// Takes the entry under `name` out of the map, and hands back its value.
    pub fn remove(&mut self, name: &NameType) -> (r: Option<V>)
        requires
            old(self).wf(),
        ensures
            final(self).wf(),
            final(self)@ == old(self)@.remove(name@),
            r == if old(self)@.contains_key(name@) {
                Some(old(self)@[name@])
            } else {
                None::<V>
            },
    {
        let (found, at) = self.search(name);
        proof {
            self.lemma_entries();
        }
        if found {
            Some(self.remove_at(at))
        } else {
            proof {
                assert(self@.remove(name@) =~= self@);
            }
            None
        }
    }

    /// Takes the entry at place `i` out of the map, and hands back its value.
    pub fn remove_at(&mut self, i: usize) -> (r: V)
        requires
            old(self).wf(),
            i < old(self).names().len(),
        ensures
            final(self).wf(),
            final(self).names() == old(self).names().remove(i as int),
            final(self).values() == old(self).values().remove(i as int),
            final(self)@ == old(self)@.remove(old(self).names()[i as int]),
            r == old(self).values()[i as int],
    {
        let ghost names = self.names();
        let ghost values = self.values();
        let taken = self.entries.remove(i);
        proof {
            lemma_ascending_distinct(names);
            lemma_paired_remove(names, values, i as int);
            lemma_ascending_remove(names, i as int);
            assert(self.names() =~= names.remove(i as int));
            assert(self.values() =~= values.remove(i as int));
        }
        taken.1
    }
}

/// A name that the names up to `at` come before, and that does not come after the name
/// at `at`, stands nowhere in an ascending sequence unless at `at`.
proof fn lemma_absent(names: Seq<Seq<u8>>, name: Seq<u8>, at: int)
    requires
        ascending(names),
        0 <= at <= names.len(),
        forall|i: int| 0 <= i < at ==> precedes(#[trigger] names[i], name),
        at < names.len() ==> precedes(name, names[at]),
    ensures
        !names.contains(name),
{
    if names.contains(name) {
        let k = names.index_of(name);
        lemma_precedes_irreflexive(name);
        if k < at {
            assert(precedes(names[k], name));
        } else if k == at {
        } else {
            assert(precedes(names[at], names[k]));
            lemma_precedes_transitive(name, names[at], names[k]);
        }
    }
}

} // verus!
