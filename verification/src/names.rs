//! A small map from names to values, kept as a list of entries.
use vstd::prelude::*;
use crate::text::same_text;

verus! {

/// The map a list of entries stands for: a later entry for a name overrides an earlier one.
pub open spec fn entries_map<V>(s: Seq<(Seq<char>, V)>) -> Map<Seq<char>, V>
    decreases s.len(),
{
    if s.len() == 0 {
        Map::empty()
    } else {
        entries_map(s.drop_last()).insert(s.last().0, s.last().1)
    }
}

/// Names mapped to values.
#[derive(Debug)]
pub struct NameMap<V> {
    entries: Vec<(String, V)>,
}

impl<V> View for NameMap<V> {
    type V = Map<Seq<char>, V>;

    closed spec fn view(&self) -> Map<Seq<char>, V> {
        entries_map(self.entries@.map_values(|e: (String, V)| (e.0@, e.1)))
    }
}

/// No two entries name the same name.
pub open spec fn names_unique<V>(s: Seq<(Seq<char>, V)>) -> bool {
    forall|i: int, j: int| 0 <= i < j < s.len() ==> (#[trigger] s[i]).0 != (#[trigger] s[j]).0
}

/// Every name of an entry is mapped, and every mapped name is the name of an entry.
proof fn lemma_entry_names<V>(s: Seq<(Seq<char>, V)>)
    ensures
        forall|j: int| 0 <= j < s.len() ==> #[trigger] entries_map(s).contains_key(s[j].0),
        forall|n: Seq<char>| #[trigger] entries_map(s).contains_key(n) ==> exists|j: int| 0 <= j < s.len() && (#[trigger] s[j]).0 == n,
    decreases s.len(),
{
    if s.len() > 0 {
        let d = s.drop_last();
        lemma_entry_names(d);
        assert(entries_map(s) == entries_map(d).insert(s.last().0, s.last().1));
        assert forall|j: int| 0 <= j < s.len() implies #[trigger] entries_map(s).contains_key(s[j].0) by {
            if j < s.len() - 1 {
                assert(d[j] == s[j]);
                assert(entries_map(d).contains_key(d[j].0));
            }
        }
        assert forall|n: Seq<char>| #[trigger] entries_map(s).contains_key(n) implies exists|j: int| 0 <= j < s.len() && (#[trigger] s[j]).0 == n by {
            if n == s.last().0 {
                assert(s[s.len() - 1].0 == n);
            } else {
                assert(entries_map(d).contains_key(n));
                let j = choose|j: int| 0 <= j < d.len() && (#[trigger] d[j]).0 == n;
                assert(s[j] == d[j]);
            }
        }
    }
}

/// With unique names, each entry's name is mapped to that entry's value.
proof fn lemma_unique_values<V>(s: Seq<(Seq<char>, V)>)
    requires
        names_unique(s),
    ensures
        forall|j: int| 0 <= j < s.len() ==> #[trigger] entries_map(s)[s[j].0] == s[j].1,
    decreases s.len(),
{
    if s.len() > 0 {
        let d = s.drop_last();
        assert(names_unique(d)) by {
            assert forall|i: int, j: int| 0 <= i < j < d.len() implies (#[trigger] d[i]).0 != (#[trigger] d[j]).0 by {
                assert(d[i] == s[i] && d[j] == s[j]);
            }
        }
        lemma_unique_values(d);
        assert(entries_map(s) == entries_map(d).insert(s.last().0, s.last().1));
        assert forall|j: int| 0 <= j < s.len() implies #[trigger] entries_map(s)[s[j].0] == s[j].1 by {
            if j < s.len() - 1 {
                assert(d[j] == s[j]);
                assert(s[j].0 != s[s.len() - 1].0);
                assert(entries_map(d)[d[j].0] == d[j].1);
            }
        }
    }
}

/// A name that occurs in no entry from `from` on is mapped as it is in the entries before `from`.
proof fn lemma_entries_prefix<V>(s: Seq<(Seq<char>, V)>, from: int, name: Seq<char>)
    requires
        0 <= from <= s.len(),
        forall|j: int| from <= j < s.len() ==> (#[trigger] s[j]).0 != name,
    ensures
        entries_map(s).contains_key(name) == entries_map(s.take(from)).contains_key(name),
        entries_map(s).contains_key(name) ==> entries_map(s)[name] == entries_map(s.take(from))[name],
    decreases s.len(),
{
    if from < s.len() {
        assert(s.drop_last().take(from) =~= s.take(from));
        lemma_entries_prefix(s.drop_last(), from, name);
        assert(s.last() == s[s.len() - 1]);
    } else {
        assert(s.take(from) =~= s);
    }
}

/// Replacing the value of a name's last entry maps the name to the new value.
proof fn lemma_entries_update<V>(s: Seq<(Seq<char>, V)>, i: int, v: V)
    requires
        0 <= i < s.len(),
        forall|j: int| i < j < s.len() ==> (#[trigger] s[j]).0 != s[i].0,
    ensures
        entries_map(s.update(i, (s[i].0, v))) == entries_map(s).insert(s[i].0, v),
    decreases s.len(),
{
    let u = s.update(i, (s[i].0, v));
    if i == s.len() - 1 {
        assert(u.drop_last() =~= s.drop_last());
        assert(entries_map(u) =~= entries_map(s).insert(s[i].0, v));
    } else {
        let d = s.drop_last();
        assert(u.drop_last() =~= d.update(i, (d[i].0, v)));
        assert forall|j: int| i < j < d.len() implies (#[trigger] d[j]).0 != d[i].0 by {
            assert(d[j] == s[j]);
        }
        lemma_entries_update(d, i, v);
        assert(s.last() == s[s.len() - 1]);
        assert(entries_map(u) =~= entries_map(s).insert(s[i].0, v));
    }
}

impl<V> NameMap<V> {
    /// The entries, names as character sequences.
    closed spec fn seq(&self) -> Seq<(Seq<char>, V)> {
        self.entries@.map_values(|e: (String, V)| (e.0@, e.1))
    }

    #[verifier::type_invariant]
    closed spec fn unique(&self) -> bool {
        names_unique(self.seq())
    }
}

impl<V: Copy> NameMap<V> {
    pub fn new() -> (m: NameMap<V>)
        ensures
            m@ == Map::<Seq<char>, V>::empty(),
    {
        let m = NameMap { entries: Vec::new() };
        assert(m.entries@.map_values(|e: (String, V)| (e.0@, e.1)) =~= Seq::empty());
        m
    }

    /// Every value the map holds, once per name.
    pub fn values(&self) -> (r: Vec<V>)
        ensures
            forall|v: V| #[trigger] r@.contains(v) <==> self@.values().contains(v),
    {
        proof {
            use_type_invariant(self);
            lemma_entry_names(self.seq());
            lemma_unique_values(self.seq());
        }
        let ghost s = self.seq();
        let mut r: Vec<V> = Vec::new();
        let mut i: usize = 0;
        while i < self.entries.len()
            invariant
                i <= self.entries@.len(),
                s == self.seq(),
                s.len() == self.entries@.len(),
                r@.len() == i,
                forall|j: int| 0 <= j < i ==> #[trigger] r@[j] == s[j].1,
            decreases self.entries@.len() - i,
        {
            r.push(self.entries[i].1);
            i = i + 1;
        }
        proof {
            assert forall|v: V| #[trigger] r@.contains(v) <==> self@.values().contains(v) by {
                if r@.contains(v) {
                    let j = choose|j: int| 0 <= j < r@.len() && r@[j] == v;
                    assert(s[j].1 == v);
                    assert(self@.contains_key(s[j].0) && self@[s[j].0] == v);
                }
                if self@.values().contains(v) {
                    let n = choose|n: Seq<char>| #[trigger] self@.contains_key(n) && self@[n] == v;
                    let j = choose|j: int| 0 <= j < s.len() && (#[trigger] s[j]).0 == n;
                    assert(r@[j] == v);
                }
            }
        }
        r
    }

    /// The value a name maps to, if any.
    pub fn get(&self, name: &str) -> (r: Option<V>)
        ensures
            r == (if self@.contains_key(name@) { Some(self@[name@]) } else { None::<V> }),
    {
        let ghost s = self.entries@.map_values(|e: (String, V)| (e.0@, e.1));
        let mut i = self.entries.len();
        while i > 0
            invariant
                i <= self.entries@.len(),
                s == self.entries@.map_values(|e: (String, V)| (e.0@, e.1)),
                forall|j: int| i <= j < s.len() ==> (#[trigger] s[j]).0 != name@,
            decreases i,
        {
            i = i - 1;
            if same_text(self.entries[i].0.as_str(), name) {
                proof {
                    lemma_entries_prefix(s, i + 1, name@);
                    assert(s.take(i + 1).drop_last() =~= s.take(i as int));
                    assert(s.take(i + 1).last() == s[i as int]);
                }
                return Some(self.entries[i].1);
            }
        }
        proof {
            lemma_entries_prefix(s, 0, name@);
            assert(s.take(0) =~= Seq::<(Seq<char>, V)>::empty());
        }
        None
    }

    /// Maps a name to a value, replacing the value it had.
    pub fn insert(&mut self, name: String, value: V)
        ensures
            final(self)@ == old(self)@.insert(name@, value),
    {
        proof {
            use_type_invariant(&*self);
        }
        let ghost s = self.seq();
        let mut entries: Vec<(String, V)> = Vec::new();
        std::mem::swap(&mut entries, &mut self.entries);
        assert(entries@.map_values(|e: (String, V)| (e.0@, e.1)) == s);
        let mut i = entries.len();
        while i > 0
            invariant
                i <= entries@.len(),
                entries@ == old(self).entries@,
                s == entries@.map_values(|e: (String, V)| (e.0@, e.1)),
                names_unique(s),
                forall|j: int| i <= j < s.len() ==> (#[trigger] s[j]).0 != name@,
            decreases i,
        {
            i = i - 1;
            if entries[i].0 == name {
                entries.set(i, (name, value));
                proof {
                    lemma_entries_update(s, i as int, value);
                    let s2 = entries@.map_values(|e: (String, V)| (e.0@, e.1));
                    assert(s2 =~= s.update(i as int, (s[i as int].0, value)));
                    assert forall|a: int, b: int| 0 <= a < b < s2.len() implies (#[trigger] s2[a]).0 != (#[trigger] s2[b]).0 by {
                        assert(s2[a].0 == s[a].0 && s2[b].0 == s[b].0);
                    }
                }
                self.entries = entries;
                return;
            }
        }
        entries.push((name, value));
        proof {
            let s2 = entries@.map_values(|e: (String, V)| (e.0@, e.1));
            assert(s2.drop_last() =~= s);
            assert forall|a: int, b: int| 0 <= a < b < s2.len() implies (#[trigger] s2[a]).0 != (#[trigger] s2[b]).0 by {
                if b < s.len() {
                    assert(s2[a] == s[a] && s2[b] == s[b]);
                } else {
                    assert(s2[a] == s[a]);
                }
            }
        }
        self.entries = entries;
    }
}

} // verus!
