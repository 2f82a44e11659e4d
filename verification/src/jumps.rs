//! Where the jumps the IR generator emits lead.
use vstd::prelude::*;
use crate::bytecode::{Opcode, lemma_jump_roundtrip, spec_field_op, spec_jump_offset, spec_jump_word};
use crate::ir::IrInstruction;
use crate::ir_generator::{EmitState, emit_all, emit_simple, emit_step, native, patch_jumps};
use crate::vm::jump_target;

verus! {

/// Where instruction `k` of `s` lands in the code: every instruction but a label takes one word.
#[verifier::opaque]
pub open spec fn code_pos(s: Seq<IrInstruction>, k: int) -> int
    decreases k,
{
    if k <= 0 {
        0
    } else {
        code_pos(s, k - 1) + if s[k - 1] is Label { 0int } else { 1int }
    }
}

/// The label a jump goes to or a label instruction places.
pub open spec fn label_of(i: IrInstruction) -> usize {
    match i {
        IrInstruction::Label(l) => l.0,
        IrInstruction::Jump(l) => l.0,
        _ => 0,
    }
}

/// No label is placed twice.
pub open spec fn labels_unique(s: Seq<IrInstruction>) -> bool {
    forall|i: int, j: int| #![trigger s[i], s[j]] 0 <= i < j < s.len() && s[i] is Label && s[j] is Label
        ==> label_of(s[i]) != label_of(s[j])
}

/// Label instruction `m` of `s`, if it is one, is placed at its position.
pub open spec fn placed_ok(s: Seq<IrInstruction>, st: EmitState, m: int) -> bool {
    s[m] is Label ==> st.labels.contains_key(label_of(s[m])) && st.labels[label_of(s[m])] == code_pos(s, m)
}

/// A label with a position is one that `s` places.
pub open spec fn only_placed(s: Seq<IrInstruction>, st: EmitState, l: usize) -> bool {
    st.labels.contains_key(l) ==> exists|m: int| 0 <= m < s.len() && #[trigger] label_at(s, m, l)
}

/// Instruction `m` of `s` places label `l`.
pub open spec fn label_at(s: Seq<IrInstruction>, m: int, l: usize) -> bool {
    s[m] is Label && label_of(s[m]) == l
}

/// Instruction `j` of `s` is a jump to `l` at position `p`.
pub open spec fn jump_at(s: Seq<IrInstruction>, j: int, l: usize, p: usize) -> bool {
    s[j] is Jump && label_of(s[j]) == l && code_pos(s, j) == p
}

/// For a label not placed yet, position `p` waits for it exactly when a jump to it stands there.
pub open spec fn forward_exact(s: Seq<IrInstruction>, st: EmitState, l: usize, p: usize) -> bool {
    !st.labels.contains_key(l) ==> ((st.forward.contains_key(l) && st.forward[l].contains(p)) <==>
        exists|j: int| 0 <= j < s.len() && #[trigger] jump_at(s, j, l, p))
}

/// Jump `j`, if instruction `m` places its label, is a jump from its position to the label's.
pub open spec fn jump_ok(s: Seq<IrInstruction>, st: EmitState, j: int, m: int) -> bool {
    s[j] is Jump && s[m] is Label && label_of(s[j]) == label_of(s[m]) ==>
        st.chunk.code[code_pos(s, j)] == spec_jump_word((code_pos(s, m) - code_pos(s, j)) as i32)
}

/// Jump `j`, if its label is not placed, is a jump by 0.
pub open spec fn waiting_ok(s: Seq<IrInstruction>, st: EmitState, j: int) -> bool {
    s[j] is Jump && !st.labels.contains_key(label_of(s[j])) ==> st.chunk.code[code_pos(s, j)] == spec_jump_word(0)
}

/// What holds after emitting `s`: the code has a word for every instruction but the
/// labels; each placed label stands at its position; the jumps still waiting for a
/// label are exactly the jumps to it so far; and every jump is a jump to its label's
/// position when that label is placed, and a jump by 0 otherwise.
pub open spec fn emit_facts(s: Seq<IrInstruction>, st: EmitState) -> bool {
    &&& st.chunk.code.len() == code_pos(s, s.len() as int)
    &&& forall|m: int| 0 <= m < s.len() ==> #[trigger] placed_ok(s, st, m)
    &&& forall|l: usize| #[trigger] only_placed(s, st, l)
    &&& forall|l: usize, p: usize| #[trigger] forward_exact(s, st, l, p)
    &&& forall|j: int, m: int| 0 <= j < s.len() && 0 <= m < s.len() ==> #[trigger] jump_ok(s, st, j, m)
    &&& forall|j: int| 0 <= j < s.len() ==> #[trigger] waiting_ok(s, st, j)
}

proof fn lemma_pos_prefix(s: Seq<IrInstruction>, k: int)
    requires
        0 <= k < s.len(),
    ensures
        code_pos(s.drop_last(), k) == code_pos(s, k),
    decreases k,
{
    reveal(code_pos);
    if k > 0 {
        lemma_pos_prefix(s, k - 1);
    }
}

proof fn lemma_pos_mono(s: Seq<IrInstruction>, i: int, j: int)
    requires
        0 <= i <= j <= s.len(),
    ensures
        0 <= code_pos(s, i) <= code_pos(s, j),
        i < j && !(s[i] is Label) ==> code_pos(s, i) < code_pos(s, j),
        code_pos(s, j) <= j,
    decreases j,
{
    reveal(code_pos);
    if j > 0 {
        if i < j {
            lemma_pos_mono(s, i, j - 1);
        }
        lemma_pos_mono(s, 0, j - 1);
    }
}

/// Two instructions that are not labels land at different positions.
proof fn lemma_pos_injective(s: Seq<IrInstruction>, i: int, j: int)
    requires
        0 <= i < s.len(),
        0 <= j < s.len(),
        !(s[i] is Label),
        !(s[j] is Label),
        code_pos(s, i) == code_pos(s, j),
    ensures
        i == j,
{
    if i < j {
        lemma_pos_mono(s, i, j);
    } else if j < i {
        lemma_pos_mono(s, j, i);
    }
}

/// A native instruction that neither jumps, places a label nor loads a function adds one word.
proof fn lemma_simple_pushes(c: crate::bytecode::ChunkView, x: IrInstruction)
    requires
        native(x),
        !(x is Jump || x is Label || x is LoadFunction),
    ensures
        emit_simple(c, x).code.len() == c.code.len() + 1,
        emit_simple(c, x).code.subrange(0, c.code.len() as int) == c.code,
{
    let c2 = emit_simple(c, x);
    assert(c2.code.subrange(0, c.code.len() as int) =~= c.code);
}

/// The state after placing label `l`: the label stands at the current end of the
/// code, and the jumps waiting for it are patched.
pub open spec fn label_shape(st: EmitState, st2: EmitState, l: usize) -> bool {
    let pos = st.chunk.code.len();
    &&& st2.labels == st.labels.insert(l, pos as usize)
    &&& st2.forward == st.forward
    &&& st2.chunk.code == if st.forward.contains_key(l) { patch_jumps(st.chunk.code, st.forward[l], pos as int) } else { st.chunk.code }
}

/// The state after a jump to `l`: a jump back to a placed label, or a jump by 0 that waits.
pub open spec fn jump_shape(st: EmitState, st2: EmitState, l: usize) -> bool {
    let pos = st.chunk.code.len();
    let waiting = if st.forward.contains_key(l) { st.forward[l] } else { Seq::empty() };
    &&& st2.labels == st.labels
    &&& st2.chunk.code == st.chunk.code.push(if st.labels.contains_key(l) {
            spec_jump_word((st.labels[l] as int - pos) as i32) } else { spec_jump_word(0) })
    &&& st2.forward == if st.labels.contains_key(l) { st.forward } else { st.forward.insert(l, waiting.push(pos as usize)) }
}

/// The state after any other instruction: one more word, nothing else changed.
pub open spec fn other_shape(st: EmitState, st2: EmitState) -> bool {
    &&& st2.labels == st.labels
    &&& st2.forward == st.forward
    &&& st2.chunk.code.len() == st.chunk.code.len() + 1
    &&& forall|i: int| 0 <= i < st.chunk.code.len() ==> #[trigger] st2.chunk.code[i] == st.chunk.code[i]
}

proof fn lemma_shapes(fuel: nat, st: EmitState, x: IrInstruction)
    requires
        native(x),
    ensures
        x matches IrInstruction::Label(l) ==> label_shape(st, emit_step(fuel, st, x), l.0),
        x matches IrInstruction::Jump(l) ==> jump_shape(st, emit_step(fuel, st, x), l.0),
        !(x is Label || x is Jump) ==> other_shape(st, emit_step(fuel, st, x)),
{
    let st2 = emit_step(fuel, st, x);
    if !(x is Label || x is Jump) {
        if x is LoadFunction {
            assert forall|i: int| 0 <= i < st.chunk.code.len() implies #[trigger] st2.chunk.code[i] == st.chunk.code[i] by {}
        } else {
            lemma_simple_pushes(st.chunk, x);
            assert forall|i: int| 0 <= i < st.chunk.code.len() implies #[trigger] st2.chunk.code[i] == st.chunk.code[i] by {
                assert(st2.chunk.code.subrange(0, st.chunk.code.len() as int)[i] == st2.chunk.code[i]);
            }
        }
    }
}

/// What the step lemmas share: `s` is `d` and one more instruction, and `d`'s facts hold.
pub open spec fn step_context(s: Seq<IrInstruction>, st: EmitState) -> bool {
    let d = s.drop_last();
    let k = d.len() as int;
    &&& s.len() > 0
    &&& labels_unique(s)
    &&& emit_facts(d, st)
    &&& forall|i: int| 0 <= i <= k ==> code_pos(d, i) == #[trigger] code_pos(s, i)
    &&& forall|i: int| 0 <= i < k ==> #[trigger] d[i] == s[i]
    &&& forall|j: int| 0 <= j < k && !(#[trigger] s[j] is Label) ==> code_pos(s, j) < st.chunk.code.len()
    &&& forall|j: int| 0 <= j <= k ==> 0 <= #[trigger] code_pos(s, j) <= code_pos(s, k)
    &&& code_pos(s, k) <= k
    &&& s.len() < usize::MAX
    &&& code_pos(s, k) == st.chunk.code.len()
    &&& code_pos(s, k + 1) == code_pos(s, k) + if s[k] is Label { 0int } else { 1int }
}

#[verifier::spinoff_prover]
#[verifier::rlimit(50)]
proof fn lemma_step_label(s: Seq<IrInstruction>, st: EmitState, st2: EmitState, l: usize)
    requires
        step_context(s, st),
        s.last() is Label,
        label_of(s.last()) == l,
        label_shape(st, st2, l),
    ensures
        emit_facts(s, st2),
{
    let d = s.drop_last();
    let k = d.len() as int;
    let pos = st.chunk.code.len() as int;
    assert(s[k] is Label && label_of(s[k]) == l);
    // the label was not placed before
    assert(only_placed(d, st, l));
    if st.labels.contains_key(l) {
        let m = choose|m: int| 0 <= m < d.len() && #[trigger] label_at(d, m, l);
        assert(s[m] is Label);
        assert(false);
    }
    let code = st2.chunk.code;
    assert forall|m: int| 0 <= m < s.len() implies #[trigger] placed_ok(s, st2, m) by {
        if m < k {
            assert(placed_ok(d, st, m));
            if s[m] is Label && label_of(s[m]) == l {
                assert(s[m] is Label && s[k] is Label);
            }
        }
    }
    assert forall|l2: usize| #[trigger] only_placed(s, st2, l2) by {
        if st2.labels.contains_key(l2) {
            if l2 != l {
                assert(only_placed(d, st, l2));
                let m = choose|m: int| 0 <= m < d.len() && #[trigger] label_at(d, m, l2);
                assert(label_at(s, m, l2));
            } else {
                assert(label_at(s, k, l2));
            }
        }
    }
    assert forall|l2: usize, p: usize| #[trigger] forward_exact(s, st2, l2, p) by {
        if !st2.labels.contains_key(l2) {
            assert(l2 != l);
            assert(forward_exact(d, st, l2, p));
            if st2.forward.contains_key(l2) && st2.forward[l2].contains(p) {
                let j = choose|j: int| 0 <= j < d.len() && #[trigger] jump_at(d, j, l2, p);
                assert(jump_at(s, j, l2, p));
            }
            if exists|j: int| 0 <= j < s.len() && #[trigger] jump_at(s, j, l2, p) {
                let j = choose|j: int| 0 <= j < s.len() && #[trigger] jump_at(s, j, l2, p);
                assert(j < k);
                assert(jump_at(d, j, l2, p));
            }
        }
    }
    assert forall|j: int, m: int| 0 <= j < s.len() && 0 <= m < s.len() implies #[trigger] jump_ok(s, st2, j, m) by {
        if s[j] is Jump && s[m] is Label && label_of(s[j]) == label_of(s[m]) {
            assert(j < k);
            let p = code_pos(s, j);
            assert(0 <= p < pos);
            if label_of(s[j]) == l {
                if m < k {
                    assert(s[m] is Label && s[k] is Label);
                }
                // the jump waited for this label and is patched now
                assert(forward_exact(d, st, l, p as usize));
                assert(jump_at(d, j, l, p as usize));
                assert(st.forward.contains_key(l) && st.forward[l].contains(p as usize));
            } else {
                assert(jump_ok(d, st, j, m));
                if st.forward.contains_key(l) && st.forward[l].contains(p as usize) {
                    assert(forward_exact(d, st, l, p as usize));
                    let j2 = choose|j2: int| 0 <= j2 < d.len() && #[trigger] jump_at(d, j2, l, p as usize);
                    assert(s[j2] is Jump);
                    lemma_pos_injective(s, j, j2);
                }
            }
        }
    }
    assert forall|j: int| 0 <= j < s.len() implies #[trigger] waiting_ok(s, st2, j) by {
        if s[j] is Jump && !st2.labels.contains_key(label_of(s[j])) {
            assert(j < k);
            assert(waiting_ok(d, st, j));
            let p = code_pos(s, j);
            assert(0 <= p < pos);
            if st.forward.contains_key(l) && st.forward[l].contains(p as usize) {
                assert(forward_exact(d, st, l, p as usize));
                let j2 = choose|j2: int| 0 <= j2 < d.len() && #[trigger] jump_at(d, j2, l, p as usize);
                assert(s[j2] is Jump);
                lemma_pos_injective(s, j, j2);
            }
        }
    }
}

#[verifier::spinoff_prover]
#[verifier::rlimit(50)]
proof fn lemma_step_jump(s: Seq<IrInstruction>, st: EmitState, st2: EmitState, l: usize)
    requires
        step_context(s, st),
        s.last() is Jump,
        label_of(s.last()) == l,
        jump_shape(st, st2, l),
    ensures
        emit_facts(s, st2),
{
    let d = s.drop_last();
    let k = d.len() as int;
    let pos = st.chunk.code.len() as int;
    assert(s[k] is Jump && label_of(s[k]) == l);
    let code = st2.chunk.code;
    let waiting = if st.forward.contains_key(l) { st.forward[l] } else { Seq::empty() };
    assert forall|i: int| 0 <= i < pos implies code[i] == st.chunk.code[i] by {}
    assert forall|m: int| 0 <= m < s.len() implies #[trigger] placed_ok(s, st2, m) by {
        if m < k {
            assert(placed_ok(d, st, m));
        }
    }
    assert forall|l2: usize| #[trigger] only_placed(s, st2, l2) by {
        assert(only_placed(d, st, l2));
        if st2.labels.contains_key(l2) {
            let m = choose|m: int| 0 <= m < d.len() && #[trigger] label_at(d, m, l2);
            assert(label_at(s, m, l2));
        }
    }
    assert forall|l2: usize, p: usize| #[trigger] forward_exact(s, st2, l2, p) by {
        if !st2.labels.contains_key(l2) {
            assert(forward_exact(d, st, l2, p));
            if st2.forward.contains_key(l2) && st2.forward[l2].contains(p) {
                if l2 == l && p as int == pos {
                    assert(jump_at(s, k, l2, p));
                } else {
                    if l2 == l {
                        assert(st2.forward[l2] == waiting.push(pos as usize));
                        let t = choose|t: int| 0 <= t < st2.forward[l2].len() && st2.forward[l2][t] == p;
                        assert(t != waiting.len());
                        assert(waiting[t] == p);
                    }
                    let j = choose|j: int| 0 <= j < d.len() && #[trigger] jump_at(d, j, l2, p);
                    assert(jump_at(s, j, l2, p));
                }
            }
            if exists|j: int| 0 <= j < s.len() && #[trigger] jump_at(s, j, l2, p) {
                let j = choose|j: int| 0 <= j < s.len() && #[trigger] jump_at(s, j, l2, p);
                if j == k {
                    assert(st2.forward[l2] == waiting.push(pos as usize));
                    assert(st2.forward[l2][waiting.len() as int] == p);
                } else {
                    assert(jump_at(d, j, l2, p));
                    if l2 == l {
                        assert(st2.forward[l2] == waiting.push(pos as usize));
                        let t = choose|t: int| 0 <= t < waiting.len() && waiting[t] == p;
                        assert(st2.forward[l2][t] == p);
                    }
                }
            }
        }
    }
    assert forall|j: int, m: int| 0 <= j < s.len() && 0 <= m < s.len() implies #[trigger] jump_ok(s, st2, j, m) by {
        if s[j] is Jump && s[m] is Label && label_of(s[j]) == label_of(s[m]) {
            assert(m < k);
            assert(placed_ok(d, st, m));
            if j < k {
                assert(jump_ok(d, st, j, m));
                assert(code_pos(s, j) < pos);
            }
        }
    }
    assert forall|j: int| 0 <= j < s.len() implies #[trigger] waiting_ok(s, st2, j) by {
        if s[j] is Jump && !st2.labels.contains_key(label_of(s[j])) && j < k {
            assert(waiting_ok(d, st, j));
            assert(code_pos(s, j) < pos);
        }
    }
}

#[verifier::spinoff_prover]
#[verifier::rlimit(50)]
proof fn lemma_step_other(s: Seq<IrInstruction>, st: EmitState, st2: EmitState)
    requires
        step_context(s, st),
        !(s.last() is Label || s.last() is Jump),
        other_shape(st, st2),
    ensures
        emit_facts(s, st2),
{
    let d = s.drop_last();
    let k = d.len() as int;
    assert(!(s[k] is Label || s[k] is Jump));
    assert forall|m: int| 0 <= m < s.len() implies #[trigger] placed_ok(s, st2, m) by {
        if m < k {
            assert(placed_ok(d, st, m));
        }
    }
    assert forall|l2: usize| #[trigger] only_placed(s, st2, l2) by {
        assert(only_placed(d, st, l2));
        if st2.labels.contains_key(l2) {
            let m = choose|m: int| 0 <= m < d.len() && #[trigger] label_at(d, m, l2);
            assert(label_at(s, m, l2));
        }
    }
    assert forall|l2: usize, p: usize| #[trigger] forward_exact(s, st2, l2, p) by {
        assert(forward_exact(d, st, l2, p));
        if !st2.labels.contains_key(l2) {
            if st2.forward.contains_key(l2) && st2.forward[l2].contains(p) {
                let j = choose|j: int| 0 <= j < d.len() && #[trigger] jump_at(d, j, l2, p);
                assert(jump_at(s, j, l2, p));
            }
            if exists|j: int| 0 <= j < s.len() && #[trigger] jump_at(s, j, l2, p) {
                let j = choose|j: int| 0 <= j < s.len() && #[trigger] jump_at(s, j, l2, p);
                assert(j < k);
                assert(jump_at(d, j, l2, p));
            }
        }
    }
    assert forall|j: int, m: int| 0 <= j < s.len() && 0 <= m < s.len() implies #[trigger] jump_ok(s, st2, j, m) by {
        if s[j] is Jump && s[m] is Label && label_of(s[j]) == label_of(s[m]) {
            assert(j < k && m < k);
            assert(jump_ok(d, st, j, m));
            assert(code_pos(s, j) < st.chunk.code.len());
        }
    }
    assert forall|j: int| 0 <= j < s.len() implies #[trigger] waiting_ok(s, st2, j) by {
        if s[j] is Jump && j < k {
            assert(waiting_ok(d, st, j));
            assert(code_pos(s, j) < st.chunk.code.len());
        }
    }
}

/// Emitting a list of native instructions whose labels are placed once each: every
/// jump ends up a jump by the distance from its own position to its label's.
pub proof fn lemma_emit_facts(fuel: nat, s: Seq<IrInstruction>)
    requires
        s.len() < usize::MAX,
        labels_unique(s),
        forall|k: int| 0 <= k < s.len() ==> native(#[trigger] s[k]),
    ensures
        emit_facts(s, emit_all(fuel, s)),
    decreases s.len(),
{
    if s.len() == 0 {
        assert(code_pos(s, 0) == 0) by {
            reveal(code_pos);
        }
        return;
    }
    let d = s.drop_last();
    let k = d.len() as int;
    assert forall|i: int, j: int| #![trigger d[i], d[j]] 0 <= i < j < d.len() && d[i] is Label && d[j] is Label
        implies label_of(d[i]) != label_of(d[j]) by {
        assert(d[i] == s[i] && d[j] == s[j]);
    }
    assert forall|i: int| 0 <= i < d.len() implies native(#[trigger] d[i]) by {
        assert(d[i] == s[i]);
    }
    lemma_emit_facts(fuel, d);
    let st = emit_all(fuel, d);
    let x = s.last();
    assert(x == s[k]);
    assert(native(s[k]));
    let st2 = emit_step(fuel, st, x);
    assert(st2 == emit_all(fuel, s));
    assert forall|i: int| 0 <= i <= k implies code_pos(d, i) == #[trigger] code_pos(s, i) by {
        if i < s.len() {
            lemma_pos_prefix(s, i);
        }
    }
    assert forall|j: int| 0 <= j < k && !(#[trigger] s[j] is Label) implies code_pos(s, j) < st.chunk.code.len() by {
        lemma_pos_mono(s, j, k);
    }
    assert forall|j: int| 0 <= j <= k implies 0 <= #[trigger] code_pos(s, j) <= code_pos(s, k) by {
        lemma_pos_mono(s, j, k);
    }
    lemma_pos_mono(s, k, k);
    assert(code_pos(s, k + 1) == code_pos(s, k) + if s[k] is Label { 0int } else { 1int }) by {
        reveal(code_pos);
    }
    assert(step_context(s, st));
    lemma_shapes(fuel, st, x);
    match x {
        IrInstruction::Label(l) => lemma_step_label(s, st, st2, l.0),
        IrInstruction::Jump(l) => lemma_step_jump(s, st, st2, l.0),
        _ => lemma_step_other(s, st, st2),
    }
}


/// In the code emitted for native instructions whose labels are each placed once, and
/// few enough that every offset fits the 24 bits of a jump, each jump to a placed label
/// is a `JMP` that takes the machine to the label's position.
pub proof fn lemma_jumps_reach_labels(fuel: nat, s: Seq<IrInstruction>, j: int, m: int)
    requires
        s.len() < 0x80_0000,
        labels_unique(s),
        forall|k: int| 0 <= k < s.len() ==> native(#[trigger] s[k]),
        0 <= j < s.len(),
        0 <= m < s.len(),
        s[j] is Jump,
        s[m] is Label,
        label_of(s[j]) == label_of(s[m]),
    ensures
        spec_field_op(emit_all(fuel, s).chunk.code[code_pos(s, j)]) == Opcode::JMP.spec_byte(),
        jump_target((code_pos(s, j) + 1) as usize, spec_jump_offset(emit_all(fuel, s).chunk.code[code_pos(s, j)]))
            == code_pos(s, m),
{
    lemma_emit_facts(fuel, s);
    let st = emit_all(fuel, s);
    assert(jump_ok(s, st, j, m));
    lemma_pos_mono(s, j, s.len() as int);
    lemma_pos_mono(s, m, s.len() as int);
    let off = code_pos(s, m) - code_pos(s, j);
    lemma_jump_roundtrip(off as i32);
    let x = code_pos(s, j) + 1 + off - 1;
    assert(x == code_pos(s, m));
    vstd::arithmetic::div_mod::lemma_small_mod(x as nat, (usize::MAX as int + 1) as nat);
}

} // verus!
