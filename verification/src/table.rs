//! The virtual machine's arrays and tables.
use vstd::prelude::*;
use rustc_hash::{FxBuildHasher, FxHashMap};
use crate::value::{Key, Variable, code_of, key_code, lemma_key_code_injective};

verus! {

/// `s` grown with nils to length `n` (unchanged when it is that long already).
pub open spec fn grow(s: Seq<Variable>, n: nat) -> Seq<Variable> {
    if n > s.len() {
        s + Seq::new((n - s.len()) as nat, |_i: int| Variable::Nil)
    } else {
        s
    }
}

/// `s` with `v` at `index`, grown with nils first when it is too short.
pub open spec fn put(s: Seq<Variable>, index: nat, v: Variable) -> Seq<Variable> {
    grow(s, index + 1).update(index as int, v)
}

/// An element that was just set reads back as the value it was set to; the elements
/// before it keep their values, and the ones added in between read as nil.
pub proof fn lemma_array_get_set(s: Seq<Variable>, index: nat, v: Variable, j: int)
    ensures
        array_get(put(s, index, v), index as int) == v,
        0 <= j < s.len() && j != index ==> array_get(put(s, index, v), j) == array_get(s, j),
        s.len() <= j < index ==> array_get(put(s, index, v), j) == Variable::Nil,
{
}

/// Runtime array: reading past the end gives nil, writing past the end grows it.
#[derive(Debug)]
pub struct Array(pub Vec<Variable>);

impl View for Array {
    type V = Seq<Variable>;

    open spec fn view(&self) -> Seq<Variable> {
        self.0@
    }
}

/// The element at `index`, nil past the end.
pub open spec fn array_get(s: Seq<Variable>, index: int) -> Variable {
    if 0 <= index < s.len() { s[index] } else { Variable::Nil }
}

/// Grows `v` with nils to length `n`.
fn grow_to(v: &mut Vec<Variable>, n: usize)
    ensures
        final(v)@ == grow(old(v)@, n as nat),
{
    if n > v.len() {
        let ghost before = v@;
        v.resize(n, Variable::Nil);
        assert(v@ =~= grow(before, n as nat));
    }
}

impl Array {
    pub fn new() -> (a: Array)
        ensures
            a@ == Seq::<Variable>::empty(),
    {
        Array(Vec::new())
    }

    pub fn get(&self, index: usize) -> (v: Variable)
        ensures
            v == array_get(self@, index as int),
    {
        if index < self.0.len() { self.0[index] } else { Variable::Nil }
    }

    pub fn set(&mut self, index: usize, var: Variable)
        requires
            index < usize::MAX,
        ensures
            final(self)@ == put(old(self)@, index as nat, var),
    {
        if index >= self.0.len() {
            // Resize vector and fill missing slots with nil
            grow_to(&mut self.0, index + 1);
        }
        self.0.set(index, var);
    }

    pub fn len(&self) -> (n: usize)
        ensures
            n == self@.len(),
    {
        self.0.len()
    }
}

impl From<Vec<Variable>> for Array {
    fn from(vec: Vec<Variable>) -> (a: Array) {
        Array(vec)
    }
}

impl vstd::std_specs::convert::FromSpecImpl<Vec<Variable>> for Array {
    open spec fn obeys_from_spec() -> bool {
        true
    }

    open spec fn from_spec(v: Vec<Variable>) -> Array {
        Array(v)
    }
}

/// The content of a table: its array part, and its other entries by key code.
pub ghost struct TableV {
    pub map: Map<u128, Variable>,
    pub array: Seq<Variable>,
}

/// What a table gives for a key: the array part for a whole number below its length,
/// otherwise the entry stored under the key (nil if there is none).
pub open spec fn table_lookup(t: TableV, k: Key) -> Variable {
    match k {
        Key::Whole(i) if i < t.array.len() => t.array[i as int],
        _ => if t.map.contains_key(key_code(k)) { t.map[key_code(k)] } else { Variable::Nil },
    }
}

/// Moves the entries under whole keys `i` to `end - 1` into the array part.
pub open spec fn migrate(t: TableV, i: int, end: int) -> TableV
    decreases end - i,
{
    if i >= end || i < 0 {
        t
    } else {
        let c = key_code(Key::Whole(i as usize));
        let t1 = if t.map.contains_key(c) {
            TableV { map: t.map.remove(c), array: put(t.array, i as nat, t.map[c]) }
        } else {
            t
        };
        migrate(t1, i + 1, end)
    }
}

/// A table after setting key `k` to `v`, when its array part had room for `cap`
/// values before and `cap2` after making room for one more.
pub open spec fn table_set(t: TableV, k: Key, v: Variable, cap: usize, cap2: usize) -> TableV {
    match k {
        Key::Whole(idx) => if idx > cap {
            // a sparse index
            TableV { map: t.map.insert(key_code(k), v), ..t }
        } else if idx == cap {
            // the array part grows by one: later whole keys that now fit move in
            migrate(TableV { map: t.map.remove(key_code(k)), array: put(t.array, idx as nat, v) },
                cap + 1, cap2 as int)
        } else {
            TableV { array: put(t.array, idx as nat, v), ..t }
        },
        _ => TableV { map: t.map.insert(key_code(k), v), ..t },
    }
}

#[verifier::external_type_specification]
#[verifier::external_body]
pub struct ExFxBuildHasher(FxBuildHasher);

/// The map of a table's entries outside its array part, by key code.
pub type CodeMap = FxHashMap<u128, Variable>;

/// An empty map (`FxHashMap::default`).
#[verifier::external_body]
fn fx_new() -> (m: CodeMap)
    ensures
        m@.dom().is_empty(),
{
    FxHashMap::default()
}

/// The value stored under `k`, if any (`HashMap::get`, copied out).
#[verifier::external_body]
fn fx_get(m: &CodeMap, k: u128) -> (r: Option<Variable>)
    ensures
        r == (if m@.contains_key(k) { Some(m@[k]) } else { None::<Variable> }),
{
    m.get(&k).copied()
}

/// Stores `v` under `k`, replacing what was there (`HashMap::insert`).
#[verifier::external_body]
fn fx_insert(m: &mut CodeMap, k: u128, v: Variable)
    ensures
        final(m)@ == old(m)@.insert(k, v),
{
    m.insert(k, v);
}

/// Takes the value stored under `k` out of the map, if any (`HashMap::remove`).
#[verifier::external_body]
fn fx_remove(m: &mut CodeMap, k: u128) -> (r: Option<Variable>)
    ensures
        r == (if old(m)@.contains_key(k) { Some(old(m)@[k]) } else { None::<Variable> }),
        final(m)@ == old(m)@.remove(k),
{
    m.remove(&k)
}

/// Runtime table: an array part for whole keys from zero, and a map for the rest.
#[derive(Debug)]
pub struct Table {
    pub map: CodeMap,
    pub array: Vec<Variable>,
}

impl View for Table {
    type V = TableV;

    open spec fn view(&self) -> TableV {
        TableV { map: self.map@, array: self.array@ }
    }
}

/// How many values the vector can hold without reallocating (std's `Vec::capacity`):
/// at least its length, and at most `isize::MAX`, as no allocation is larger.
#[verifier::external_body]
fn capacity_of(v: &Vec<Variable>) -> (c: usize)
    ensures
        v@.len() <= c <= isize::MAX,
{
    v.capacity()
}

impl Table {
    pub fn new() -> (t: Table)
        ensures
            t@.map == Map::<u128, Variable>::empty(),
            t@.array == Seq::<Variable>::empty(),
    {
        let t = Table { map: fx_new(), array: Vec::new() };
        assert(t@.map =~= Map::<u128, Variable>::empty());
        t
    }

    pub fn get(&self, index: Key) -> (v: Variable)
        ensures
            v == table_lookup(self@, index),
    {
        match index {
            Key::Whole(idx) => {
                if idx < self.array.len() {
                    return self.array[idx];
                }
            }
            _ => {}
        }
        match fx_get(&self.map, code_of(index)) {
            Some(v) => v,
            None => Variable::Nil,
        }
    }

    pub fn set_map(&mut self, index: Key, var: Variable)
        ensures
            final(self)@ == (TableV { map: old(self)@.map.insert(key_code(index), var), ..old(self)@ }),
    {
        fx_insert(&mut self.map, code_of(index), var);
    }

    /// Sets a key. How a whole key is stored depends on the array part's capacity,
    /// which the allocator decides.
    pub fn set(&mut self, index: Key, var: Variable)
        ensures
            exists|cap: usize, cap2: usize| #![trigger table_set(old(self)@, index, var, cap, cap2)]
                (index is Whole ==> rooms_ok(old(self)@, index, cap, cap2))
                && final(self)@ == table_set(old(self)@, index, var, cap, cap2),
    {
        let ghost t0 = self@;
        match index {
            Key::Whole(idx) => {
                let cap = capacity_of(&self.array);
                if idx > cap {
                    // Sparse indices
                    self.set_map(index, var);
                    assert(self@ == table_set(t0, index, var, cap, 0));
                    assert(rooms_ok(t0, index, cap, 0));
                } else if idx == cap {
                    // Grow the array part by one
                    self.array.reserve(1);
                    grow_to(&mut self.array, idx + 1);
                    self.array.set(idx, var);
                    fx_remove(&mut self.map, code_of(index));
                    let cap2 = capacity_of(&self.array);
                    assert(rooms_ok(t0, index, cap, cap2));
                    let ghost start = self@;
                    assert(start == (TableV { map: t0.map.remove(key_code(index)), array: put(t0.array, idx as nat, var) }));
                    // Whole keys that now fit move into the array part
                    let mut i = cap + 1;
                    while i < cap2
                        invariant
                            cap + 1 <= i,
                            i <= cap2 || i == cap + 1,
                            cap2 <= isize::MAX,
                            rooms_ok(t0, index, cap, cap2),
                            migrate(start, cap + 1, cap2 as int) == migrate(self@, i as int, cap2 as int),
                        decreases cap2 - i,
                    {
                                        let ghost cur = self@;
                        let ghost c = key_code(Key::Whole(i));
                        match fx_remove(&mut self.map, code_of(Key::Whole(i))) {
                            Some(migrated) => {
                                grow_to(&mut self.array, i + 1);
                                self.array.set(i, migrated);
                            }
                            None => {}
                        }
                        proof {
                            let t1 = if cur.map.contains_key(c) {
                                TableV { map: cur.map.remove(c), array: put(cur.array, i as nat, cur.map[c]) }
                            } else {
                                cur
                            };
                            assert(self@.map =~= t1.map);
                            assert(self@ == t1);
                            assert(migrate(cur, i as int, cap2 as int) == migrate(t1, i + 1, cap2 as int));
                        }
                        i = i + 1;
                    }
                    assert(self@ == table_set(t0, index, var, cap, cap2));
                } else {
                    // Put it in the array
                    grow_to(&mut self.array, idx + 1);
                    self.array.set(idx, var);
                    assert(self@ == table_set(t0, index, var, cap, 0));
                    assert(rooms_ok(t0, index, cap, 0));
                }
            }
            _ => {
                self.set_map(index, var);
                assert(self@ == table_set(t0, index, var, 0, 0));
            }
        }
    }
}

/// A key that was just set gives back the value it was set to, whatever room the
/// array part had.
pub proof fn lemma_table_get_set(t: TableV, k: Key, v: Variable, cap: usize, cap2: usize)
    requires
        k is Whole ==> t.array.len() <= cap,
    ensures
        table_lookup(table_set(t, k, v, cap, cap2), k) == v,
{
    match k {
        Key::Whole(idx) => {
            if idx > cap {
            } else if idx == cap {
                let t1 = TableV { map: t.map.remove(key_code(k)), array: put(t.array, idx as nat, v) };
                lemma_migrate_keeps(t1, cap + 1, cap2 as int, idx as int);
            } else {
            }
        }
        _ => {}
    }
}

/// Moving later whole keys into the array part leaves the array part's first
/// `below + 1` values as they were.
proof fn lemma_migrate_keeps(t: TableV, i: int, end: int, below: int)
    requires
        0 <= below < i,
        below < t.array.len(),
    ensures
        migrate(t, i, end).array.len() >= t.array.len(),
        migrate(t, i, end).array[below] == t.array[below],
    decreases end - i,
{
    if i < end && i >= 0 {
        let c = key_code(Key::Whole(i as usize));
        let t1 = if t.map.contains_key(c) {
            TableV { map: t.map.remove(c), array: put(t.array, i as nat, t.map[c]) }
        } else {
            t
        };
        lemma_migrate_keeps(t1, i + 1, end, below);
    }
}

/// The value a map keeps under whole key `j`, nil if none.
pub open spec fn map_at(t: TableV, j: int) -> Variable {
    let c = key_code(Key::Whole(j as usize));
    if t.map.contains_key(c) { t.map[c] } else { Variable::Nil }
}

/// What moving the whole keys `i` to `end - 1` into the array part does: each of them
/// leaves the map and reads from the array as it read from the map; everything else in
/// the map stays; the array part keeps its values and grows with nils at most to `end`.
proof fn lemma_migrate_effect(t: TableV, i: int, end: int)
    requires
        0 <= i,
        end <= isize::MAX,
        t.array.len() <= i,
    ensures
        migrate(t, i, end).array.len() <= i || migrate(t, i, end).array.len() <= end,
        migrate(t, i, end).array.len() >= t.array.len(),
        forall|j: int| 0 <= j < t.array.len() ==> #[trigger] migrate(t, i, end).array[j] == t.array[j],
        forall|j: int| t.array.len() <= j < i ==> #[trigger] array_get(migrate(t, i, end).array, j) == Variable::Nil,
        forall|j: int| i <= j < end ==> #[trigger] array_get(migrate(t, i, end).array, j) == map_at(t, j)
            && !migrate(t, i, end).map.contains_key(key_code(Key::Whole(j as usize))),
        forall|c: u128| ((c as int) < i || (c as int) >= end) ==>
            (#[trigger] migrate(t, i, end).map.contains_key(c) == t.map.contains_key(c)
            && (t.map.contains_key(c) ==> migrate(t, i, end).map[c] == t.map[c])),
    decreases end - i,
{
    if i < end {
        let c = key_code(Key::Whole(i as usize));
        assert(c == i as u128);
        let t1 = if t.map.contains_key(c) {
            TableV { map: t.map.remove(c), array: put(t.array, i as nat, t.map[c]) }
        } else {
            t
        };
        assert(migrate(t, i, end) == migrate(t1, i + 1, end));
        lemma_migrate_effect(t1, i + 1, end);
        let m = migrate(t, i, end);
        assert forall|j: int| 0 <= j < t.array.len() implies #[trigger] m.array[j] == t.array[j] by {
            assert(t1.array[j] == t.array[j]);
            assert(m.array[j] == t1.array[j]);
        }
        assert forall|j: int| t.array.len() <= j < i implies #[trigger] array_get(m.array, j) == Variable::Nil by {
            if t.map.contains_key(c) {
                assert(array_get(t1.array, j) == Variable::Nil);
                assert(m.array[j] == t1.array[j]);
            }
        }
        assert forall|j: int| i <= j < end implies #[trigger] array_get(m.array, j) == map_at(t, j)
            && !m.map.contains_key(key_code(Key::Whole(j as usize))) by {
            let cj = key_code(Key::Whole(j as usize));
            assert(cj == j as u128);
            if j == i {
                if t.map.contains_key(c) {
                    assert(t1.array[i] == t.map[c]);
                    assert(m.array[i] == t1.array[i]);
                } else {
                    assert(array_get(m.array, i) == Variable::Nil);
                }
                assert(m.map.contains_key(c) == t1.map.contains_key(c));
            } else {
                assert(array_get(m.array, j) == map_at(t1, j));
                assert(t1.map.contains_key(cj) == t.map.contains_key(cj));
            }
        }
        assert forall|cc: u128| ((cc as int) < i || (cc as int) >= end) implies
            (#[trigger] m.map.contains_key(cc) == t.map.contains_key(cc)
            && (t.map.contains_key(cc) ==> m.map[cc] == t.map[cc])) by {
            assert(m.map.contains_key(cc) == t1.map.contains_key(cc));
        }
    }
}

/// No whole key below `room` is kept in the map: those belong to the array part.
pub open spec fn map_above(t: TableV, room: int) -> bool {
    forall|j: usize| (j as int) < room ==> !t.map.contains_key(#[trigger] key_code(Key::Whole(j)))
}

/// The room the array part has after `table_set`: the room after growing it, when the
/// key was the first whole key past it, and the room before otherwise.
pub open spec fn room_after(k: Key, cap: usize, cap2: usize) -> int {
    match k {
        Key::Whole(idx) => if idx == cap { cap2 as int } else { cap as int },
        _ => cap as int,
    }
}

/// The rooms `Table::set` may see: the array part fits in the room before, and growing
/// the array part by its first whole key past that room gives more room.
pub open spec fn rooms_ok(t: TableV, k: Key, cap: usize, cap2: usize) -> bool {
    &&& t.array.len() <= cap
    &&& cap <= isize::MAX
    &&& (k matches Key::Whole(idx) && idx == cap ==> cap < cap2 <= isize::MAX)
}

/// Setting a key keeps the table's shape: with no whole key below the array part's room in
/// the map, none is there after either, measured against the room after.
pub proof fn lemma_table_set_keeps_room(t: TableV, k: Key, v: Variable, cap: usize, cap2: usize)
    requires
        rooms_ok(t, k, cap, cap2),
        map_above(t, cap as int),
    ensures
        map_above(table_set(t, k, v, cap, cap2), room_after(k, cap, cap2)),
        table_set(t, k, v, cap, cap2).array.len() <= room_after(k, cap, cap2),
{
    let u = table_set(t, k, v, cap, cap2);
    match k {
        Key::Whole(idx) => {
            if idx == cap {
                let t1 = TableV { map: t.map.remove(key_code(k)), array: put(t.array, idx as nat, v) };
                lemma_migrate_effect(t1, cap + 1, cap2 as int);
                assert forall|j: usize| (j as int) < cap2 implies !u.map.contains_key(#[trigger] key_code(Key::Whole(j))) by {
                    assert(key_code(Key::Whole(j)) == j as u128);
                    if (j as int) < cap + 1 {
                        assert(u.map.contains_key(j as u128) == t1.map.contains_key(j as u128));
                    } else {
                        assert(array_get(u.array, j as int) == map_at(t1, j as int));
                    }
                }
            } else {
                assert forall|j: usize| (j as int) < cap implies !u.map.contains_key(#[trigger] key_code(Key::Whole(j))) by {
                    assert(key_code(Key::Whole(j)) == j as u128);
                    assert(key_code(Key::Whole(idx)) == idx as u128);
                }
            }
        }
        _ => {
            assert forall|j: usize| (j as int) < cap implies !u.map.contains_key(#[trigger] key_code(Key::Whole(j))) by {
                lemma_key_code_injective(k, Key::Whole(j));
                assert(key_code(Key::Whole(j)) == j as u128);
            }
        }
    }
}

/// Setting a key leaves every other key reading as it did, when no whole key below the
/// array part's room is kept in the map.
pub proof fn lemma_table_set_keeps_others(t: TableV, k: Key, v: Variable, cap: usize, cap2: usize, k2: Key)
    requires
        rooms_ok(t, k, cap, cap2),
        map_above(t, cap as int),
        k2 != k,
    ensures
        table_lookup(table_set(t, k, v, cap, cap2), k2) == table_lookup(t, k2),
{
    let u = table_set(t, k, v, cap, cap2);
    let c2 = key_code(k2);
    lemma_key_code_injective(k, k2);
    match k {
        Key::Whole(idx) => {
            if idx > cap {
            } else if idx == cap {
                let t1 = TableV { map: t.map.remove(key_code(k)), array: put(t.array, idx as nat, v) };
                lemma_migrate_effect(t1, cap + 1, cap2 as int);
                lemma_array_get_set(t.array, idx as nat, v, 0);
                match k2 {
                    Key::Whole(j) => {
                        assert(key_code(k2) == j as u128);
                        assert(key_code(k) == idx as u128);
                        if (j as int) < t.array.len() {
                            lemma_array_get_set(t.array, idx as nat, v, j as int);
                            assert(u.array[j as int] == t1.array[j as int]);
                        } else if j < cap {
                            lemma_array_get_set(t.array, idx as nat, v, j as int);
                            assert(u.array[j as int] == t1.array[j as int]);
                            assert(!t.map.contains_key(key_code(Key::Whole(j))));
                        } else if (j as int) < cap2 {
                            assert(array_get(u.array, j as int) == map_at(t1, j as int));
                            assert(map_at(t1, j as int) == map_at(t, j as int));
                        } else {
                            assert(u.map.contains_key(c2) == t1.map.contains_key(c2));
                        }
                    }
                    _ => {
                        assert(c2 as int >= 0x1_0000_0000_0000_0000);
                        assert(u.map.contains_key(c2) == t1.map.contains_key(c2));
                    }
                }
            } else {
                match k2 {
                    Key::Whole(j) => {
                        lemma_array_get_set(t.array, idx as nat, v, j as int);
                        assert(key_code(Key::Whole(j)) == j as u128);
                        if (j as int) < idx && (j as int) >= t.array.len() {
                            assert(!t.map.contains_key(key_code(Key::Whole(j))));
                        }
                    }
                    _ => {}
                }
            }
        }
        _ => {}
    }
}

} // verus!
