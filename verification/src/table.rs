//! A small map from names to values that remembers the order in which names
//! first came.

use vstd::prelude::*;

use crate::text::same;

verus! {

broadcast use vstd::string::group_string_axioms;

/// A map from names to values.  No name occurs twice; a value set again stands
/// where the name first came.
pub struct Table<V> {
    entries: Vec<(String, V)>,
}

/// The map a list of entries with distinct names stands for.
pub open spec fn entry_map<V>(entries: Seq<(String, V)>) -> Map<Seq<char>, V>
    decreases entries.len(),
{
    if entries.len() == 0 {
        Map::empty()
    } else {
        entry_map(entries.drop_last()).insert(entries.last().0@, entries.last().1)
    }
}

/// Whether no name occurs twice.
pub open spec fn distinct_names<V>(entries: Seq<(String, V)>) -> bool {
    forall|a: int, b: int|
        0 <= a < b < entries.len() ==> (#[trigger] entries[a]).0@ != (#[trigger] entries[b]).0@
}

/// With distinct names, the map holds each entry and nothing else.
pub proof fn lemma_entry_map<V>(entries: Seq<(String, V)>)
    requires
        distinct_names(entries),
    ensures
        forall|i: int|
            0 <= i < entries.len() ==> entry_map(entries).contains_pair(
                (#[trigger] entries[i]).0@,
                entries[i].1,
            ),
        forall|k: Seq<char>| #[trigger]
            entry_map(entries).dom().contains(k) ==> exists|i: int|
                0 <= i < entries.len() && k == (#[trigger] entries[i]).0@,
    decreases entries.len(),
{
    if entries.len() > 0 {
        let front = entries.drop_last();
        assert(distinct_names(front)) by {
            assert forall|a: int, b: int| 0 <= a < b < front.len() implies (#[trigger] front[a]).0@
                != (#[trigger] front[b]).0@ by {
                assert(front[a] == entries[a] && front[b] == entries[b]);
            }
        }
        lemma_entry_map(front);
        let last = entries[entries.len() - 1];
        assert forall|i: int| 0 <= i < entries.len() implies entry_map(entries).contains_pair(
            (#[trigger] entries[i]).0@,
            entries[i].1,
        ) by {
            if i < front.len() {
                assert(front[i] == entries[i]);
                assert(entries[i].0@ != last.0@);
            }
        }
        assert forall|k: Seq<char>| #[trigger] entry_map(entries).dom().contains(k) implies exists|
            i: int,
        | 0 <= i < entries.len() && k == (#[trigger] entries[i]).0@ by {
            if k == last.0@ {
                assert(entries[entries.len() - 1] == last);
            } else {
                assert(entry_map(front).dom().contains(k));
                let i = choose|i: int| 0 <= i < front.len() && k == (#[trigger] front[i]).0@;
                assert(entries[i] == front[i]);
            }
        }
    }
}

/// Two lists with distinct names that hold the same entries stand for the same
/// map.
proof fn lemma_same_map<V>(a: Seq<(String, V)>, m: Map<Seq<char>, V>)
    requires
        distinct_names(a),
        forall|i: int| 0 <= i < a.len() ==> m.contains_pair((#[trigger] a[i]).0@, a[i].1),
        forall|k: Seq<char>| #[trigger]
            m.dom().contains(k) ==> exists|i: int| 0 <= i < a.len() && k == (#[trigger] a[i]).0@,
    ensures
        entry_map(a) == m,
{
    lemma_entry_map(a);
    let got = entry_map(a);
    assert forall|k: Seq<char>| #[trigger] got.dom().contains(k) implies m.contains_pair(
        k,
        got[k],
    ) by {
        let i = choose|i: int| 0 <= i < a.len() && k == (#[trigger] a[i]).0@;
        assert(got.contains_pair(a[i].0@, a[i].1));
        assert(m.contains_pair(a[i].0@, a[i].1));
    }
    assert forall|k: Seq<char>| #[trigger] m.dom().contains(k) implies got.dom().contains(k) by {
        let i = choose|i: int| 0 <= i < a.len() && k == (#[trigger] a[i]).0@;
        assert(got.contains_pair(a[i].0@, a[i].1));
    }
    assert(got =~= m) by {
        assert forall|k: Seq<char>| got.dom().contains(k) implies got[k] == m[k] by {
            assert(m.contains_pair(k, got[k]));
        }
    }
}

impl<V> View for Table<V> {
    type V = Map<Seq<char>, V>;

    closed spec fn view(&self) -> Map<Seq<char>, V> {
        entry_map(self.entries@)
    }
}

impl<V> Table<V> {
    /// Whether no name occurs twice.
    pub closed spec fn well_formed(&self) -> bool {
        distinct_names(self.entries@)
    }

    /// The names in the order they first came.
    pub closed spec fn names(&self) -> Seq<Seq<char>> {
        self.entries@.map_values(|e: (String, V)| e.0@)
    }

    /// A table without entries.
    pub fn new() -> (out: Table<V>)
        ensures
            out.well_formed(),
            out@ == Map::<Seq<char>, V>::empty(),
            out.names() == Seq::<Seq<char>>::empty(),
    {
        let out = Table { entries: Vec::new() };
        assert(out.names() =~= Seq::<Seq<char>>::empty());
        out
    }

    /// Where a name stands.
    fn place(&self, name: &str) -> (out: Option<usize>)
        requires
            self.well_formed(),
        ensures
            match out {
                Some(i) => i < self.entries@.len() && self.entries@[i as int].0@ == name@
                    && self@.contains_pair(name@, self.entries@[i as int].1),
                None => !self@.dom().contains(name@) && forall|k: int|
                    0 <= k < self.entries@.len() ==> (#[trigger] self.entries@[k]).0@ != name@,
            },
    {
        proof {
            lemma_entry_map(self.entries@);
        }
        let mut i: usize = 0;
        while i < self.entries.len()
            invariant
                self.well_formed(),
                0 <= i <= self.entries@.len(),
                forall|k: int| 0 <= k < i ==> (#[trigger] self.entries@[k]).0@ != name@,
            decreases self.entries@.len() - i,
        {
            if same(self.entries[i].0.as_str(), name) {
                proof {
                    lemma_entry_map(self.entries@);
                    assert(self@.contains_pair(
                        self.entries@[i as int].0@,
                        self.entries@[i as int].1,
                    ));
                }
                return Some(i);
            }
            i += 1;
        }
        None
    }

    /// The value of a name.
    pub fn get(&self, name: &str) -> (out: Option<&V>)
        requires
            self.well_formed(),
        ensures
            match out {
                Some(v) => self@.contains_pair(name@, *v),
                None => !self@.dom().contains(name@),
            },
    {
        match self.place(name) {
            Some(i) => Some(&self.entries[i].1),
            None => None,
        }
    }

    /// Whether the table has a value for the name.
    pub fn contains(&self, name: &str) -> (yes: bool)
        requires
            self.well_formed(),
        ensures
            yes == self@.dom().contains(name@),
    {
        match self.place(name) {
            Some(_) => true,
            None => false,
        }
    }

    /// Set the value of a name, in place of the one it had.
    pub fn set(&mut self, name: &str, value: V)
        requires
            old(self).well_formed(),
        ensures
            final(self).well_formed(),
            final(self)@ == old(self)@.insert(name@, value),
            final(self).names() == if old(self)@.dom().contains(name@) {
                old(self).names()
            } else {
                old(self).names().push(name@)
            },
    {
        let ghost before = self.entries@;
        let ghost before_map = self@;
        proof {
            lemma_entry_map(before);
        }
        match self.place(name) {
            Some(i) => {
                let name_now = self.entries[i].0.clone();
                self.entries.set(i, (name_now, value));
                proof {
                    let after = self.entries@;
                    assert forall|a: int, b: int| 0 <= a < b < after.len() implies (
                    #[trigger] after[a]).0@ != (#[trigger] after[b]).0@ by {
                        assert(after[a].0@ == before[a].0@ && after[b].0@ == before[b].0@);
                    }
                    let m = before_map.insert(name@, value);
                    assert forall|k: int| 0 <= k < after.len() implies m.contains_pair(
                        (#[trigger] after[k]).0@,
                        after[k].1,
                    ) by {
                        if k != i {
                            assert(after[k] == before[k]);
                            assert(before_map.contains_pair(before[k].0@, before[k].1));
                            if k < i {
                                assert(before[k].0@ != before[i as int].0@);
                            } else {
                                assert(before[i as int].0@ != before[k].0@);
                            }
                        }
                    }
                    assert forall|k: Seq<char>| #[trigger] m.dom().contains(k) implies exists|
                        j: int,
                    | 0 <= j < after.len() && k == (#[trigger] after[j]).0@ by {
                        if k == name@ {
                            assert(after[i as int].0@ == k);
                        } else {
                            assert(before_map.dom().contains(k));
                            let j = choose|j: int|
                                0 <= j < before.len() && k == (#[trigger] before[j]).0@;
                            assert(after[j].0@ == k);
                        }
                    }
                    lemma_same_map(after, m);
                    assert(self.names() =~= old(self).names());
                }
            },
            None => {
                self.entries.push((name.to_owned(), value));
                proof {
                    let after = self.entries@;
                    assert(after.drop_last() =~= before);
                    assert forall|a: int, b: int| 0 <= a < b < after.len() implies (
                    #[trigger] after[a]).0@ != (#[trigger] after[b]).0@ by {
                        assert(after[a] == before[a]);
                        if b < before.len() {
                            assert(after[b] == before[b]);
                        }
                    }
                    assert(self.names() =~= old(self).names().push(name@));
                }
            },
        }
    }

    /// Take a name out, with the value it had.
    pub fn take(&mut self, name: &str) -> (out: Option<V>)
        requires
            old(self).well_formed(),
        ensures
            final(self).well_formed(),
            final(self)@ == old(self)@.remove(name@),
            match out {
                Some(v) => old(self)@.contains_pair(name@, v),
                None => !old(self)@.dom().contains(name@),
            },
    {
        let ghost before = self.entries@;
        let ghost before_map = self@;
        proof {
            lemma_entry_map(before);
        }
        match self.place(name) {
            Some(i) => {
                let found = self.entries.remove(i);
                proof {
                    let after = self.entries@;
                    assert(after == before.remove(i as int));
                    assert forall|a: int, b: int| 0 <= a < b < after.len() implies (
                    #[trigger] after[a]).0@ != (#[trigger] after[b]).0@ by {
                        let fa = if a < i {
                            a
                        } else {
                            a + 1
                        };
                        let fb = if b < i {
                            b
                        } else {
                            b + 1
                        };
                        assert(after[a] == before[fa] && after[b] == before[fb]);
                    }
                    let m = before_map.remove(name@);
                    assert forall|k: int| 0 <= k < after.len() implies m.contains_pair(
                        (#[trigger] after[k]).0@,
                        after[k].1,
                    ) by {
                        let f = if k < i {
                            k
                        } else {
                            k + 1
                        };
                        assert(after[k] == before[f]);
                        assert(before_map.contains_pair(before[f].0@, before[f].1));
                        if f < i {
                            assert(before[f].0@ != before[i as int].0@);
                        } else {
                            assert(before[i as int].0@ != before[f].0@);
                        }
                    }
                    assert forall|k: Seq<char>| #[trigger] m.dom().contains(k) implies exists|
                        j: int,
                    | 0 <= j < after.len() && k == (#[trigger] after[j]).0@ by {
                        assert(before_map.dom().contains(k));
                        let f = choose|f: int|
                            0 <= f < before.len() && k == (#[trigger] before[f]).0@;
                        let j = if f < i {
                            f
                        } else {
                            f - 1
                        };
                        assert(after[j] == before[f]);
                    }
                    lemma_same_map(after, m);
                }
                Some(found.1)
            },
            None => {
                assert(before_map.remove(name@) =~= before_map);
                None
            },
        }
    }

    /// Take the name that came last out, with its value.
    pub fn pop(&mut self) -> (out: Option<(String, V)>)
        requires
            old(self).well_formed(),
        ensures
            final(self).well_formed(),
            match out {
                Some(e) => {
                    &&& old(self)@.contains_pair(e.0@, e.1)
                    &&& final(self)@ == old(self)@.remove(e.0@)
                    &&& old(self).names() == final(self).names().push(e.0@)
                },
                None => {
                    &&& old(self)@ == Map::<Seq<char>, V>::empty()
                    &&& old(self).names().len() == 0
                    &&& final(self)@ == old(self)@
                    &&& final(self).names() == old(self).names()
                },
            },
    {
        let ghost before = self.entries@;
        let ghost before_names = self.names();
        proof {
            lemma_entry_map(before);
        }
        let out = self.entries.pop();
        proof {
            if before.len() > 0 {
                let last = before.last();
                assert(self.entries@ == before.drop_last());
                lemma_entry_map(self.entries@);
                assert(!self@.dom().contains(last.0@)) by {
                    if self@.dom().contains(last.0@) {
                        let i = choose|i: int|
                            0 <= i < self.entries@.len() && last.0@ == (
                            #[trigger] self.entries@[i]).0@;
                        assert(before[i].0@ != before[before.len() - 1].0@);
                    }
                }
                assert(self@ =~= entry_map(before).remove(last.0@));
                assert(before[before.len() - 1] == last);
                assert(before_names =~= self.names().push(last.0@));
            }
        }
        out
    }

    /// How many names there are.
    pub fn len(&self) -> (n: usize)
        ensures
            n == self.names().len(),
    {
        self.entries.len()
    }

    /// The name at place `i` and its value.
    pub fn entry(&self, i: usize) -> (out: (&str, &V))
        requires
            self.well_formed(),
            i < self.names().len(),
        ensures
            out.0@ == self.names()[i as int],
            self@.contains_pair(out.0@, *out.1),
    {
        proof {
            lemma_entry_map(self.entries@);
            assert(self@.contains_pair(self.entries@[i as int].0@, self.entries@[i as int].1));
        }
        let e = &self.entries[i];
        (e.0.as_str(), &e.1)
    }
}

/// The names of a table are exactly those it has a value for, each once.
pub proof fn law_names_are_the_keys<V>(t: Table<V>)
    requires
        t.well_formed(),
    ensures
        forall|k: Seq<char>| #[trigger] t@.dom().contains(k) <==> t.names().contains(k),
        t.names().no_duplicates(),
{
    lemma_entry_map(t.entries@);
    assert forall|k: Seq<char>| #[trigger] t@.dom().contains(k) implies t.names().contains(k) by {
        let i = choose|i: int| 0 <= i < t.entries@.len() && k == (#[trigger] t.entries@[i]).0@;
        assert(t.names()[i] == k);
    }
    assert forall|k: Seq<char>| t.names().contains(k) implies #[trigger] t@.dom().contains(k) by {
        let i = choose|i: int| 0 <= i < t.names().len() && t.names()[i] == k;
        assert(t.entries@[i].0@ == k);
        assert(t@.contains_pair(t.entries@[i].0@, t.entries@[i].1));
    }
    assert forall|a: int, b: int|
        0 <= a < t.names().len() && 0 <= b < t.names().len() && a != b implies t.names()[a]
        != t.names()[b] by {
        if a < b {
            assert(t.entries@[a].0@ != t.entries@[b].0@);
        } else {
            assert(t.entries@[b].0@ != t.entries@[a].0@);
        }
    }
}

} // verus!
