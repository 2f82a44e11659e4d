//! Reachability on the machine's heap, and what collecting garbage leaves of it.
//!
//! The collector traces from the variables the machine holds directly, through the
//! elements of arrays; a string is reachable when a reachable variable names it.
use vstd::prelude::*;
use crate::value::Variable;
use crate::vm::VmV;

verus! {

/// A variable the machine holds directly: in a register, in a global, among a native
/// call's arguments or among the return values.
pub open spec fn is_root(s: VmV, v: Variable) -> bool {
    ||| s.registers.contains(v)
    ||| s.globals.values().contains(v)
    ||| s.call_stack.contains(v)
    ||| s.return_values.contains(v)
}

/// Array `a` holds `v`, and `a` is on the heap.
pub open spec fn holds(s: VmV, a: usize, v: Variable) -> bool {
    s.arrays.contains_key(a) && s.arrays[a].contains(v)
}

/// A chain of arrays: the first is held directly, and each holds the next.
pub open spec fn array_chain(s: VmV, p: Seq<usize>) -> bool {
    &&& p.len() > 0
    &&& is_root(s, Variable::Array(p[0]))
    &&& forall|i: int| #![trigger p[i]] 0 <= i < p.len() - 1 ==> holds(s, p[i], Variable::Array(p[i + 1]))
}

/// An array the machine can reach: the last of some chain.
pub open spec fn array_reachable(s: VmV, k: usize) -> bool {
    exists|p: Seq<usize>| #[trigger] array_chain(s, p) && p.last() == k
}

/// A variable the machine can reach: held directly, or held by an array it can reach.
pub open spec fn var_reachable(s: VmV, v: Variable) -> bool {
    ||| is_root(s, v)
    ||| exists|a: usize| #[trigger] array_reachable(s, a) && holds(s, a, v)
}

/// The arrays the machine can reach.
pub open spec fn live_arrays(s: VmV) -> Set<usize> {
    Set::new(|k: usize| array_reachable(s, k))
}

/// The strings the machine can reach.
pub open spec fn live_strings(s: VmV) -> Set<usize> {
    Set::new(|k: usize| var_reachable(s, Variable::String(k)))
}

/// What collecting garbage leaves: the arrays and strings the machine can reach, and
/// the interned texts of those strings; everything else as it was.
pub open spec fn collected(s: VmV) -> VmV {
    VmV {
        arrays: s.arrays.restrict(live_arrays(s)),
        strings: s.strings.restrict(live_strings(s)),
        interned: Map::new(|t: Seq<char>| s.interned.contains_key(t) && live_strings(s).contains(s.interned[t]),
            |t: Seq<char>| s.interned[t]),
        ..s
    }
}

/// The marks account for `v`: an array or string that is marked, or any other variable.
pub open spec fn marked(arrays: Set<usize>, strings: Set<usize>, v: Variable) -> bool {
    match v {
        Variable::Array(k) => arrays.contains(k),
        Variable::String(k) => strings.contains(k),
        _ => true,
    }
}

/// An array variable is reachable exactly when its array is.
pub proof fn lemma_array_var(s: VmV, k: usize)
    ensures
        var_reachable(s, Variable::Array(k)) == array_reachable(s, k),
{
    if is_root(s, Variable::Array(k)) {
        let p = seq![k];
        assert(array_chain(s, p));
    }
    if exists|a: usize| #[trigger] array_reachable(s, a) && holds(s, a, Variable::Array(k)) {
        let a = choose|a: usize| #[trigger] array_reachable(s, a) && holds(s, a, Variable::Array(k));
        let p = choose|p: Seq<usize>| #[trigger] array_chain(s, p) && p.last() == a;
        let q = p.push(k);
        assert forall|i: int| #![trigger q[i]] 0 <= i < q.len() - 1 implies holds(s, q[i], Variable::Array(q[i + 1])) by {
            if i < p.len() - 1 {
                assert(q[i] == p[i] && q[i + 1] == p[i + 1]);
                assert(holds(s, p[i], Variable::Array(p[i + 1])));
            } else {
                assert(q[i] == a && q[i + 1] == k);
            }
        }
        assert(array_chain(s, q));
    }
    if array_reachable(s, k) {
        let p = choose|p: Seq<usize>| #[trigger] array_chain(s, p) && p.last() == k;
        if p.len() > 1 {
            let q = p.drop_last();
            assert forall|i: int| #![trigger q[i]] 0 <= i < q.len() - 1 implies holds(s, q[i], Variable::Array(q[i + 1])) by {
                assert(q[i] == p[i] && q[i + 1] == p[i + 1]);
                assert(holds(s, p[i], Variable::Array(p[i + 1])));
            }
            assert(array_chain(s, q));
            let a = q.last();
            assert(array_reachable(s, a));
            assert(holds(s, p[p.len() - 2], Variable::Array(p[p.len() - 1])));
        }
    }
}

/// Every array of a chain is marked when the marks cover the roots and every marked array.
proof fn lemma_chain_marked(s: VmV, ma: Set<usize>, ms: Set<usize>, p: Seq<usize>, i: int)
    requires
        array_chain(s, p),
        0 <= i < p.len(),
        forall|v: Variable| #[trigger] is_root(s, v) ==> marked(ma, ms, v),
        forall|k: usize, v: Variable| ma.contains(k) && #[trigger] holds(s, k, v) ==> marked(ma, ms, v),
    ensures
        ma.contains(p[i]),
    decreases i,
{
    if i == 0 {
        assert(marked(ma, ms, Variable::Array(p[0])));
    } else {
        lemma_chain_marked(s, ma, ms, p, i - 1);
        assert(holds(s, p[i - 1], Variable::Array(p[i])));
        assert(marked(ma, ms, Variable::Array(p[i])));
    }
}

/// Marks that account for every root and for everything a marked array holds account
/// for every reachable array and string.
pub proof fn lemma_marks_complete(s: VmV, ma: Set<usize>, ms: Set<usize>)
    requires
        forall|v: Variable| #[trigger] is_root(s, v) ==> marked(ma, ms, v),
        forall|k: usize, v: Variable| ma.contains(k) && #[trigger] holds(s, k, v) ==> marked(ma, ms, v),
    ensures
        forall|k: usize| #[trigger] array_reachable(s, k) ==> ma.contains(k),
        forall|k: usize| #[trigger] var_reachable(s, Variable::String(k)) ==> ms.contains(k),
{
    assert forall|k: usize| #[trigger] array_reachable(s, k) implies ma.contains(k) by {
        let p = choose|p: Seq<usize>| #[trigger] array_chain(s, p) && p.last() == k;
        lemma_chain_marked(s, ma, ms, p, p.len() - 1);
    }
    assert forall|k: usize| #[trigger] var_reachable(s, Variable::String(k)) implies ms.contains(k) by {
        if is_root(s, Variable::String(k)) {
            assert(marked(ma, ms, Variable::String(k)));
        } else {
            let a = choose|a: usize| #[trigger] array_reachable(s, a) && holds(s, a, Variable::String(k));
            assert(ma.contains(a));
            assert(marked(ma, ms, Variable::String(k)));
        }
    }
}

/// Every array of a chain is reachable.
proof fn lemma_chain_reachable(s: VmV, p: Seq<usize>, i: int)
    requires
        array_chain(s, p),
        0 <= i < p.len(),
    ensures
        array_reachable(s, p[i]),
{
    let q = p.take(i + 1);
    assert forall|j: int| #![trigger q[j]] 0 <= j < q.len() - 1 implies holds(s, q[j], Variable::Array(q[j + 1])) by {
        assert(q[j] == p[j] && q[j + 1] == p[j + 1]);
        assert(holds(s, p[j], Variable::Array(p[j + 1])));
    }
    assert(array_chain(s, q));
    assert(q.last() == p[i]);
}

/// Collecting garbage a second time frees nothing: what is left is all reachable.
pub proof fn lemma_collect_idempotent(s: VmV)
    ensures
        collected(collected(s)) == collected(s),
{
    let t = collected(s);
    assert forall|v: Variable| #[trigger] is_root(t, v) == is_root(s, v) by {}
    assert forall|p: Seq<usize>| #[trigger] array_chain(t, p) == array_chain(s, p) by {
        if array_chain(s, p) {
            assert forall|i: int| #![trigger p[i]] 0 <= i < p.len() - 1 implies holds(t, p[i], Variable::Array(p[i + 1])) by {
                assert(holds(s, p[i], Variable::Array(p[i + 1])));
                lemma_chain_reachable(s, p, i);
                assert(live_arrays(s).contains(p[i]));
            }
        }
        if array_chain(t, p) {
            assert forall|i: int| #![trigger p[i]] 0 <= i < p.len() - 1 implies holds(s, p[i], Variable::Array(p[i + 1])) by {
                assert(holds(t, p[i], Variable::Array(p[i + 1])));
            }
        }
    }
    assert forall|k: usize| #[trigger] array_reachable(t, k) == array_reachable(s, k) by {
        if array_reachable(t, k) {
            let p = choose|p: Seq<usize>| #[trigger] array_chain(t, p) && p.last() == k;
            assert(array_chain(s, p));
        }
        if array_reachable(s, k) {
            let p = choose|p: Seq<usize>| #[trigger] array_chain(s, p) && p.last() == k;
            assert(array_chain(t, p));
        }
    }
    assert forall|v: Variable| #[trigger] var_reachable(t, v) == var_reachable(s, v) by {
        if !is_root(s, v) {
            if var_reachable(t, v) {
                let a = choose|a: usize| #[trigger] array_reachable(t, a) && holds(t, a, v);
                assert(array_reachable(s, a) && holds(s, a, v));
            }
            if var_reachable(s, v) {
                let a = choose|a: usize| #[trigger] array_reachable(s, a) && holds(s, a, v);
                assert(live_arrays(s).contains(a));
                assert(array_reachable(t, a) && holds(t, a, v));
            }
        }
    }
    assert(live_arrays(t) =~= live_arrays(s));
    assert(live_strings(t) =~= live_strings(s));
    assert(collected(t).arrays =~= t.arrays);
    assert(collected(t).strings =~= t.strings);
    assert(collected(t).interned =~= t.interned);
}

} // verus!
