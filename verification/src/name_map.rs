//! A map from names to values, kept in name order.
//!
//! The entries are held in a vector sorted strictly by name, so every name
//! occurs at most once and walking the entries visits them in name order.

use crate::names::{
    compare_names, lemma_name_before_asymmetric, lemma_name_before_transitive, name_before,
    NameOrder,
};
use vstd::prelude::*;

verus! {

/// The names of `pairs` are strictly increasing in the name order.
pub open spec fn names_increasing<V>(pairs: Seq<(Seq<char>, V)>) -> bool {
    forall|i: int, j: int|
        0 <= i < j < pairs.len() ==> name_before((#[trigger] pairs[i]).0, (#[trigger] pairs[j]).0)
}

/// Some entry of `pairs` carries `name`.
pub open spec fn has_name<V>(pairs: Seq<(Seq<char>, V)>, name: Seq<char>) -> bool {
    exists|i: int| 0 <= i < pairs.len() && (#[trigger] pairs[i]).0 == name
}

/// The position of an entry of `pairs` that carries `name`.
pub open spec fn index_of_name<V>(pairs: Seq<(Seq<char>, V)>, name: Seq<char>) -> int {
    choose|i: int| 0 <= i < pairs.len() && (#[trigger] pairs[i]).0 == name
}

/// The map that `pairs` spells out.
pub open spec fn pairs_map<V>(pairs: Seq<(Seq<char>, V)>) -> Map<Seq<char>, V> {
    Map::new(
        |name: Seq<char>| has_name(pairs, name),
        |name: Seq<char>| pairs[index_of_name(pairs, name)].1,
    )
}

/// In an increasing sequence each name is found at its own position only.
pub proof fn lemma_name_position<V>(pairs: Seq<(Seq<char>, V)>, i: int)
    requires
        names_increasing(pairs),
        0 <= i < pairs.len(),
    ensures
        has_name(pairs, pairs[i].0),
        index_of_name(pairs, pairs[i].0) == i,
        pairs_map(pairs).contains_key(pairs[i].0),
        pairs_map(pairs)[pairs[i].0] == pairs[i].1,
{
    let j = index_of_name(pairs, pairs[i].0);
    if j < i {
        lemma_name_before_asymmetric(pairs[j].0, pairs[i].0);
    } else if i < j {
        lemma_name_before_asymmetric(pairs[i].0, pairs[j].0);
    }
}

/// A name that sorts strictly between the entries before `at` and those from
/// `at` on is carried by no entry.
pub proof fn lemma_gap_is_absent<V>(pairs: Seq<(Seq<char>, V)>, at: int, name: Seq<char>)
    requires
        0 <= at <= pairs.len(),
        forall|i: int| 0 <= i < at ==> name_before((#[trigger] pairs[i]).0, name),
        forall|i: int| at <= i < pairs.len() ==> name_before(name, (#[trigger] pairs[i]).0),
    ensures
        !has_name(pairs, name),
        !pairs_map(pairs).contains_key(name),
{
    if has_name(pairs, name) {
        let j = index_of_name(pairs, name);
        if j < at {
            lemma_name_before_asymmetric(pairs[j].0, name);
        } else {
            lemma_name_before_asymmetric(name, pairs[j].0);
        }
    }
}

/// Putting a new name into its gap keeps the order and adds one binding.
pub proof fn lemma_insert_in_gap<V>(pairs: Seq<(Seq<char>, V)>, at: int, name: Seq<char>, value: V)
    requires
        names_increasing(pairs),
        0 <= at <= pairs.len(),
        forall|i: int| 0 <= i < at ==> name_before((#[trigger] pairs[i]).0, name),
        forall|i: int| at <= i < pairs.len() ==> name_before(name, (#[trigger] pairs[i]).0),
    ensures
        names_increasing(pairs.insert(at, (name, value))),
        pairs_map(pairs.insert(at, (name, value))) == pairs_map(pairs).insert(name, value),
{
    let grown = pairs.insert(at, (name, value));
    assert(names_increasing(grown)) by {
        assert forall|i: int, j: int| 0 <= i < j < grown.len() implies name_before(
            (#[trigger] grown[i]).0,
            (#[trigger] grown[j]).0,
        ) by {
            if j < at {
                assert(grown[i] == pairs[i] && grown[j] == pairs[j]);
            } else if j == at {
                assert(grown[i] == pairs[i]);
            } else if i < at {
                assert(grown[i] == pairs[i] && grown[j] == pairs[j - 1]);
                lemma_name_before_transitive(pairs[i].0, name, pairs[j - 1].0);
            } else if i == at {
                assert(grown[j] == pairs[j - 1]);
            } else {
                assert(grown[i] == pairs[i - 1] && grown[j] == pairs[j - 1]);
            }
        }
    }
    let target = pairs_map(pairs).insert(name, value);
    assert forall|n: Seq<char>| pairs_map(grown).contains_key(n) <==> target.contains_key(n) by {
        if has_name(grown, n) {
            let j = index_of_name(grown, n);
            if j < at {
                assert(pairs[j].0 == n);
            } else if j > at {
                assert(pairs[j - 1].0 == n);
            }
        }
        if has_name(pairs, n) {
            let j = index_of_name(pairs, n);
            if j < at {
                assert(grown[j].0 == n);
            } else {
                assert(grown[j + 1].0 == n);
            }
        }
        if n == name {
            assert(grown[at].0 == n);
        }
    }
    assert forall|n: Seq<char>| pairs_map(grown).contains_key(n) implies pairs_map(grown)[n]
        == target[n] by {
        let j = index_of_name(grown, n);
        lemma_name_position(grown, j);
        if j < at {
            assert(pairs[j] == grown[j]);
            lemma_name_position(pairs, j);
            lemma_gap_is_absent(pairs, at, name);
        } else if j > at {
            assert(pairs[j - 1] == grown[j]);
            lemma_name_position(pairs, j - 1);
            lemma_gap_is_absent(pairs, at, name);
        }
    }
    assert(pairs_map(grown) =~= target);
}

/// Taking an entry out keeps the order and removes its binding.
pub proof fn lemma_remove_entry<V>(pairs: Seq<(Seq<char>, V)>, at: int)
    requires
        names_increasing(pairs),
        0 <= at < pairs.len(),
    ensures
        names_increasing(pairs.remove(at)),
        pairs_map(pairs.remove(at)) == pairs_map(pairs).remove(pairs[at].0),
        forall|i: int| 0 <= i < at ==> name_before((#[trigger] pairs.remove(at)[i]).0, pairs[at].0),
        forall|i: int|
            at <= i < pairs.remove(at).len() ==> name_before(
                pairs[at].0,
                (#[trigger] pairs.remove(at)[i]).0,
            ),
{
    let shrunk = pairs.remove(at);
    let name = pairs[at].0;
    assert forall|i: int| 0 <= i < shrunk.len() implies shrunk[i] == pairs[if i < at {
        i
    } else {
        i + 1
    }] by {}
    assert(names_increasing(shrunk)) by {
        assert forall|i: int, j: int| 0 <= i < j < shrunk.len() implies name_before(
            (#[trigger] shrunk[i]).0,
            (#[trigger] shrunk[j]).0,
        ) by {
            let pi = if i < at { i } else { i + 1 };
            let pj = if j < at { j } else { j + 1 };
            assert(shrunk[i] == pairs[pi] && shrunk[j] == pairs[pj]);
        }
    }
    assert forall|i: int| 0 <= i < at implies name_before((#[trigger] shrunk[i]).0, name) by {
        assert(shrunk[i] == pairs[i]);
    }
    assert forall|i: int| at <= i < shrunk.len() implies name_before(
        name,
        (#[trigger] shrunk[i]).0,
    ) by {
        assert(shrunk[i] == pairs[i + 1]);
    }
    let target = pairs_map(pairs).remove(name);
    lemma_gap_is_absent(shrunk, at, name);
    assert forall|n: Seq<char>| pairs_map(shrunk).contains_key(n) <==> target.contains_key(n) by {
        if has_name(shrunk, n) {
            let j = index_of_name(shrunk, n);
            let pj = if j < at { j } else { j + 1 };
            assert(pairs[pj].0 == n);
        }
        if has_name(pairs, n) && n != name {
            let j = index_of_name(pairs, n);
            if j < at {
                assert(shrunk[j].0 == n);
            } else {
                assert(shrunk[j - 1].0 == n);
            }
        }
    }
    assert forall|n: Seq<char>| pairs_map(shrunk).contains_key(n) implies pairs_map(shrunk)[n]
        == target[n] by {
        let j = index_of_name(shrunk, n);
        lemma_name_position(shrunk, j);
        let pj = if j < at { j } else { j + 1 };
        assert(pairs[pj] == shrunk[j]);
        lemma_name_position(pairs, pj);
    }
    assert(pairs_map(shrunk) =~= target);
}

/// Two increasing sequences that carry the same names carry them at the same
/// positions.
pub proof fn lemma_ordered_names_determined<V, W>(
    a: Seq<(Seq<char>, V)>,
    b: Seq<(Seq<char>, W)>,
)
    requires
        names_increasing(a),
        names_increasing(b),
        forall|n: Seq<char>| has_name(a, n) <==> has_name(b, n),
    ensures
        a.len() == b.len(),
        forall|i: int| 0 <= i < a.len() ==> (#[trigger] a[i]).0 == b[i].0,
    decreases a.len(),
{
    if a.len() == 0 {
        if b.len() > 0 {
            assert(has_name(b, b[0].0));
            let k = index_of_name(a, b[0].0);
        }
    } else {
        let end = a.len() - 1;
        assert(has_name(a, a[end].0));
        let j = index_of_name(b, a[end].0);
        let last = b.len() - 1;
        assert(has_name(b, b[last].0));
        let i = index_of_name(a, b[last].0);
        if j < last {
            assert(name_before(b[j].0, b[last].0));
            if i < end {
                assert(name_before(a[i].0, a[end].0));
            }
            lemma_name_before_asymmetric(b[j].0, b[last].0);
        }
        let front = a.drop_last();
        let other = b.drop_last();
        assert forall|n: Seq<char>| has_name(front, n) <==> has_name(other, n) by {
            if has_name(front, n) {
                let k = index_of_name(front, n);
                assert(a[k].0 == n);
                assert(name_before(a[k].0, a[end].0));
                lemma_name_before_asymmetric(a[k].0, a[end].0);
                assert(has_name(a, n));
                let m = index_of_name(b, n);
                assert(other[m].0 == n);
            }
            if has_name(other, n) {
                let k = index_of_name(other, n);
                assert(b[k].0 == n);
                assert(name_before(b[k].0, b[last].0));
                lemma_name_before_asymmetric(b[k].0, b[last].0);
                assert(has_name(b, n));
                let m = index_of_name(a, n);
                assert(front[m].0 == n);
            }
        }
        assert forall|x: int, y: int| 0 <= x < y < front.len() implies name_before(
            (#[trigger] front[x]).0,
            (#[trigger] front[y]).0,
        ) by {
            assert(front[x] == a[x] && front[y] == a[y]);
        }
        assert forall|x: int, y: int| 0 <= x < y < other.len() implies name_before(
            (#[trigger] other[x]).0,
            (#[trigger] other[y]).0,
        ) by {
            assert(other[x] == b[x] && other[y] == b[y]);
        }
        lemma_ordered_names_determined(front, other);
        assert forall|i: int| 0 <= i < a.len() implies (#[trigger] a[i]).0 == b[i].0 by {
            if i < end {
                assert(front[i] == a[i] && other[i] == b[i]);
            }
        }
    }
}

/// The entries of a vector, each name taken as its characters.
pub open spec fn entry_pairs<V>(entries: Seq<(String, V)>) -> Seq<(Seq<char>, V)> {
    Seq::new(entries.len(), |i: int| (entries[i].0@, entries[i].1))
}

/// A map whose keys are names, with its entries kept in name order.
#[derive(Debug, PartialEq, Eq)]
pub struct NameMap<V> {
    entries: Vec<(String, V)>,
}

impl<V> View for NameMap<V> {
    type V = Map<Seq<char>, V>;

    /// The bindings of the map.
    open spec fn view(&self) -> Map<Seq<char>, V> {
        pairs_map(self.pairs())
    }
}

impl<V: Clone> Clone for NameMap<V> {
    /// A map with the same names, each bound to a clone of its value.
    fn clone(&self) -> (m: Self)
        ensures
            m.wf(),
            m.pairs().len() == self.pairs().len(),
            forall|i: int|
                0 <= i < self.pairs().len() ==> (#[trigger] m.pairs()[i]).0 == self.pairs()[i].0
                    && cloned(self.pairs()[i].1, m.pairs()[i].1),
    {
        proof {
            use_type_invariant(self);
        }
        let mut entries: Vec<(String, V)> = Vec::new();
        let mut i: usize = 0;
        while i < self.entries.len()
            invariant
                i <= self.entries@.len(),
                entries@.len() == i,
                forall|j: int|
                    0 <= j < i ==> (#[trigger] entries@[j]).0@ == self.entries@[j].0@ && cloned(
                        self.entries@[j].1,
                        entries@[j].1,
                    ),
            decreases self.entries@.len() - i,
        {
            let name = self.entries[i].0.clone();
            let value = self.entries[i].1.clone();
            entries.push((name, value));
            i += 1;
        }
        proof {
            let mine = self.pairs();
            let theirs = entry_pairs(entries@);
            assert forall|a: int, b: int| 0 <= a < b < theirs.len() implies name_before(
                (#[trigger] theirs[a]).0,
                (#[trigger] theirs[b]).0,
            ) by {
                assert(theirs[a].0 == mine[a].0 && theirs[b].0 == mine[b].0);
            }
        }
        NameMap { entries }
    }
}

impl<V> NameMap<V> {
    /// The entries in storage order, each name taken as its characters.
    pub closed spec fn pairs(&self) -> Seq<(Seq<char>, V)> {
        entry_pairs(self.entries@)
    }

    /// The entries are in strictly increasing name order.
    #[verifier::type_invariant]
    pub open spec fn wf(&self) -> bool {
        names_increasing(self.pairs())
    }

    /// A map without entries.
    pub fn new() -> (m: Self)
        ensures
            m.wf(),
            m.pairs() == Seq::<(Seq<char>, V)>::empty(),
            m@ == Map::<Seq<char>, V>::empty(),
    {
        let m = NameMap { entries: Vec::new() };
        proof {
            assert(m.pairs() =~= Seq::<(Seq<char>, V)>::empty());
            assert(m@ =~= Map::<Seq<char>, V>::empty());
        }
        m
    }

    /// The number of entries.
    pub fn len(&self) -> (n: usize)
        ensures
            self.wf(),
            n == self.pairs().len(),
    {
        proof {
            use_type_invariant(self);
        }
        self.entries.len()
    }

    /// Whether the map has no entry.
    pub fn is_empty(&self) -> (b: bool)
        ensures
            self.wf(),
            b == (self.pairs().len() == 0),
            b == (self@ == Map::<Seq<char>, V>::empty()),
    {
        proof {
            use_type_invariant(self);
            if self.pairs().len() == 0 {
                assert(self@ =~= Map::<Seq<char>, V>::empty());
            } else {
                lemma_name_position(self.pairs(), 0);
            }
        }
        self.entries.len() == 0
    }

    /// Finds `name` by bisection: the position of its entry, or else the gap
    /// where it would go.
    fn locate(&self, name: &str) -> (r: (bool, usize))
        ensures
            self.wf(),
            r.1 <= self.pairs().len(),
            r.0 ==> r.1 < self.pairs().len() && self.pairs()[r.1 as int].0 == name@,
            !r.0 ==> forall|i: int|
                0 <= i < r.1 ==> name_before((#[trigger] self.pairs()[i]).0, name@),
            !r.0 ==> forall|i: int|
                r.1 <= i < self.pairs().len() ==> name_before(
                    name@,
                    (#[trigger] self.pairs()[i]).0,
                ),
            r.0 == self@.contains_key(name@),
    {
        proof {
            use_type_invariant(self);
        }
        let mut lo: usize = 0;
        let mut hi: usize = self.entries.len();
        while lo < hi
            invariant
                self.wf(),
                lo <= hi <= self.pairs().len(),
                self.pairs().len() == self.entries@.len(),
                forall|i: int| 0 <= i < lo ==> name_before((#[trigger] self.pairs()[i]).0, name@),
                forall|i: int|
                    hi <= i < self.pairs().len() ==> name_before(
                        name@,
                        (#[trigger] self.pairs()[i]).0,
                    ),
            decreases hi - lo,
        {
            let mid = lo + (hi - lo) / 2;
            let ghost here = self.pairs()[mid as int].0;
            match compare_names(self.entries[mid].0.as_str(), name) {
                NameOrder::Before => {
                    proof {
                        assert forall|i: int| 0 <= i < mid + 1 implies name_before(
                            (#[trigger] self.pairs()[i]).0,
                            name@,
                        ) by {
                            if i < mid {
                                assert(name_before(self.pairs()[i].0, self.pairs()[mid as int].0));
                                lemma_name_before_transitive(self.pairs()[i].0, here, name@);
                            }
                        }
                    }
                    lo = mid + 1;
                },
                NameOrder::Same => {
                    proof {
                        lemma_name_position(self.pairs(), mid as int);
                    }
                    return (true, mid);
                },
                NameOrder::After => {
                    proof {
                        assert forall|i: int| mid <= i < self.pairs().len() implies name_before(
                            name@,
                            (#[trigger] self.pairs()[i]).0,
                        ) by {
                            if mid < i {
                                assert(name_before(self.pairs()[mid as int].0, self.pairs()[i].0));
                                lemma_name_before_transitive(name@, here, self.pairs()[i].0);
                            }
                        }
                    }
                    hi = mid;
                },
            }
        }
        proof {
            lemma_gap_is_absent(self.pairs(), lo as int, name@);
        }
        (false, lo)
    }

    /// Moves the entries out and leaves the map empty.
    fn take_entries(&mut self) -> (entries: Vec<(String, V)>)
        ensures
            entries == old(self).entries,
            final(self).entries@.len() == 0,
    {
        let mut entries: Vec<(String, V)> = Vec::new();
        core::mem::swap(&mut self.entries, &mut entries);
        entries
    }

    /// Whether `name` has an entry.
    pub fn contains_key(&self, name: &str) -> (b: bool)
        ensures
            self.wf(),
            b == self@.contains_key(name@),
    {
        self.locate(name).0
    }

    /// The value bound to `name`, if it has an entry.
    pub fn get(&self, name: &str) -> (r: Option<&V>)
        ensures
            self.wf(),
            self@.contains_key(name@) ==> r == Some(&self@[name@]),
            !self@.contains_key(name@) ==> r is None,
    {
        let (found, at) = self.locate(name);
        if found {
            proof {
                lemma_name_position(self.pairs(), at as int);
            }
            Some(&self.entries[at].1)
        } else {
            None
        }
    }

    /// Binds `name` to `value`, and returns the value it was bound to before.
    pub fn insert(&mut self, name: String, value: V) -> (r: Option<V>)
        ensures
            final(self).wf(),
            final(self)@ == old(self)@.insert(name@, value),
            old(self)@.contains_key(name@) ==> r == Some(old(self)@[name@]),
            !old(self)@.contains_key(name@) ==> r is None,
    {
        let (found, at) = self.locate(name.as_str());
        let ghost before = self.pairs();
        let mut entries = self.take_entries();
        let mut previous: Option<V> = None;
        if found {
            proof {
                lemma_name_position(before, at as int);
                lemma_remove_entry(before, at as int);
            }
            let gone = entries.remove(at);
            proof {
                assert(entry_pairs(entries@) =~= before.remove(at as int));
            }
            previous = Some(gone.1);
        }
        let ghost between = entry_pairs(entries@);
        proof {
            lemma_insert_in_gap(between, at as int, name@, value);
        }
        entries.insert(at, (name, value));
        proof {
            assert(entry_pairs(entries@) =~= between.insert(at as int, (name@, value)));
            assert(pairs_map(between).insert(name@, value) =~= pairs_map(before).insert(
                name@,
                value,
            ));
        }
        self.entries = entries;
        previous
    }

    /// Takes the entry of `name` out, and returns the value it was bound to.
    pub fn remove(&mut self, name: &str) -> (r: Option<V>)
        ensures
            final(self).wf(),
            final(self)@ == old(self)@.remove(name@),
            old(self)@.contains_key(name@) ==> r == Some(old(self)@[name@]),
            !old(self)@.contains_key(name@) ==> r is None,
    {
        let (found, at) = self.locate(name);
        let ghost before = self.pairs();
        if found {
            let mut entries = self.take_entries();
            proof {
                lemma_name_position(before, at as int);
                lemma_remove_entry(before, at as int);
            }
            let gone = entries.remove(at);
            proof {
                assert(entry_pairs(entries@) =~= before.remove(at as int));
            }
            self.entries = entries;
            Some(gone.1)
        } else {
            proof {
                assert(self@ =~= old(self)@.remove(name@));
            }
            None
        }
    }

    /// The entries in name order, handed over.
    pub fn into_entries(self) -> (entries: Vec<(String, V)>)
        ensures
            self.wf(),
            entry_pairs(entries@) == self.pairs(),
    {
        proof {
            use_type_invariant(&self);
        }
        self.entries
    }

    /// The name of the entry at position `i` in name order.
    pub fn name_at(&self, i: usize) -> (name: &String)
        requires
            i < self.pairs().len(),
        ensures
            name@ == self.pairs()[i as int].0,
    {
        &self.entries[i].0
    }

    /// The value of the entry at position `i` in name order.
    pub fn value_at(&self, i: usize) -> (value: &V)
        requires
            i < self.pairs().len(),
        ensures
            *value == self.pairs()[i as int].1,
    {
        &self.entries[i].1
    }
}

} // verus!
