//! Which IR the bytecode emitter accepts, told from the IR's content alone.
use vstd::prelude::*;
use crate::ir::{IrInstruction, IrV, VirtualVar, irs_view, regs_view};
use crate::ir_generator::{
    call_start, compilable, consecutive, emittable, heights_below, ir_height, lemma_body_below,
    max_reg, native, returns_fit, spec_extend, spec_extend_one, spec_lower,
};

verus! {

/// Register numbers that follow one another.
pub open spec fn consecutive_regs(v: Seq<usize>) -> bool {
    forall|i: int| 0 <= i < v.len() - 1 ==> #[trigger] v[i + 1] == v[i] + 1
}

/// The highest of a list of register numbers (0 for none).
pub open spec fn max_regs(v: Seq<usize>) -> usize
    decreases v.len(),
{
    if v.len() <= 1 {
        if v.len() == 1 { v[0] } else { 0 }
    } else {
        let m = max_regs(v.drop_last());
        if v.last() > m { v.last() } else { m }
    }
}

/// How many instructions expanding pseudo-instructions turns one instruction into.
pub open spec fn extend_len_one(i: IrV) -> nat {
    match i {
        IrV::Array(_, v) => 1 + v.len(),
        IrV::Table(_, v) => 1 + v.len(),
        IrV::JumpIfFalse(..) => 2,
        IrV::Return(v) => if v.len() == 0 || consecutive_regs(v) { 1 } else { v.len() + 1 },
        _ => 1,
    }
}

/// How many instructions expanding pseudo-instructions turns a list into.
pub open spec fn extend_len(s: Seq<IrV>) -> nat
    decreases s.len(),
{
    if s.len() == 0 {
        0
    } else {
        extend_len(s.drop_last()) + extend_len_one(s.last())
    }
}

/// A run of `count` registers from `start` stays within the 256 registers of a frame.
pub open spec fn range_fits(start: u8, count: u8) -> bool {
    start as int + count as int <= 256
}

/// The return of `v` as it is emitted: with the registers it copies into when they
/// are not consecutive, and the room above every register that those copies take.
pub open spec fn return_lowers(v: Seq<usize>) -> bool {
    &&& forall|k: int| 0 <= k < v.len() ==> #[trigger] v[k] + v.len() + 1 <= usize::MAX
    &&& if v.len() == 0 {
        true
    } else if consecutive_regs(v) {
        range_fits(v[0] as u8, v.len() as u8)
    } else {
        range_fits((max_regs(v) + 1) as u8, v.len() as u8)
    }
}

/// One instruction, and every function body within it, can be emitted as bytecode.
pub open spec fn lowers_one(i: IrV) -> bool
    decreases i, 0nat,
{
    match i {
        IrV::Return(v) => return_lowers(v),
        IrV::Call(_, args) => range_fits(if args.len() > 0 { args[0] as u8 } else { 0 }, args.len() as u8),
        IrV::Ret(s, o) => range_fits(s, o),
        IrV::Free(_) => false,
        IrV::Noop => false,
        IrV::LoadFunction(_, body) => lowers(body),
        _ => true,
    }
}

/// Every instruction of a list can be emitted.
pub open spec fn lowers_all(s: Seq<IrV>) -> bool
    decreases s, 0nat,
{
    s.len() == 0 || (lowers_one(s[0]) && lowers_all(s.subrange(1, s.len() as int)))
}

/// A list of instructions that compiles to a chunk: each instruction can be emitted,
/// and the expanded list, with its closing return, keeps jump offsets in range.
pub open spec fn lowers(s: Seq<IrV>) -> bool
    decreases s, 1nat,
{
    extend_len(s) + 1 < 0x7F80_0000 && lowers_all(s)
}

proof fn lemma_lowers_all(s: Seq<IrV>)
    requires
        lowers_all(s),
    ensures
        forall|k: int| 0 <= k < s.len() ==> lowers_one(#[trigger] s[k]),
    decreases s.len(),
{
    if s.len() > 0 {
        let t = s.subrange(1, s.len() as int);
        lemma_lowers_all(t);
        assert forall|k: int| 0 <= k < s.len() implies lowers_one(#[trigger] s[k]) by {
            if k > 0 {
                assert(s[k] == t[k - 1]);
            }
        }
    }
}

proof fn lemma_regs_consecutive(v: Seq<VirtualVar>)
    ensures
        consecutive(v) == consecutive_regs(regs_view(v)),
{
    let r = regs_view(v);
    if consecutive(v) {
        assert forall|i: int| 0 <= i < r.len() - 1 implies #[trigger] r[i + 1] == r[i] + 1 by {
            assert(v[i + 1].0 == v[i].0 + 1);
        }
    }
    if consecutive_regs(r) {
        assert forall|i: int| 0 <= i < v.len() - 1 implies #[trigger] v[i + 1].0 == v[i].0 + 1 by {
            assert(r[i + 1] == r[i] + 1);
        }
    }
}

proof fn lemma_regs_max(v: Seq<VirtualVar>)
    ensures
        max_reg(v) == max_regs(regs_view(v)),
    decreases v.len(),
{
    if v.len() > 1 {
        lemma_regs_max(v.drop_last());
        assert(regs_view(v.drop_last()) =~= regs_view(v).drop_last());
    }
}

proof fn lemma_extend_one(i: IrInstruction)
    ensures
        spec_extend_one(i).len() == extend_len_one(i.iv()),
        lowers_one(i.iv()) ==> forall|j: int| 0 <= j < spec_extend_one(i).len() ==> native(#[trigger] spec_extend_one(i)[j]),
        i is LoadFunction ==> spec_extend_one(i) == seq![i],
{
    let e = spec_extend_one(i);
    match i {
        IrInstruction::Return(vals) => {
            let v = vals@;
            lemma_regs_consecutive(v);
            lemma_regs_max(v);
            if lowers_one(i.iv()) {
                assert forall|j: int| 0 <= j < e.len() implies native(#[trigger] e[j]) by {
                    if v.len() > 0 && !consecutive(v) && j < v.len() {
                        assert(e[j] is Copy);
                    }
                }
            }
        }
        IrInstruction::Array { dest, values } => {
            if lowers_one(i.iv()) {
                assert forall|j: int| 0 <= j < e.len() implies native(#[trigger] e[j]) by {
                    if j > 0 {
                        assert(e[j] is AppendArray);
                    }
                }
            }
        }
        IrInstruction::Table { dest, values } => {
            if lowers_one(i.iv()) {
                assert forall|j: int| 0 <= j < e.len() implies native(#[trigger] e[j]) by {
                    if j > 0 {
                        assert(e[j] is AppendArray);
                    }
                }
            }
        }
        IrInstruction::Call { callee, args } => {
            if args@.len() > 0 {
                assert(regs_view(args@)[0] == args@[0].0);
            }
        }
        _ => {}
    }
}

proof fn lemma_extend(s: Seq<IrInstruction>)
    ensures
        spec_extend(s).len() == extend_len(irs_view(s)),
        (forall|k: int| 0 <= k < s.len() ==> lowers_one(#[trigger] s[k].iv())) ==>
            forall|j: int| 0 <= j < spec_extend(s).len() ==> native(#[trigger] spec_extend(s)[j]),
    decreases s.len(),
{
    if s.len() > 0 {
        let d = s.drop_last();
        lemma_extend(d);
        lemma_extend_one(s.last());
        assert(irs_view(s).drop_last() =~= irs_view(d));
        assert(irs_view(s).last() == s.last().iv());
        let a = spec_extend(d);
        let e = spec_extend_one(s.last());
        if forall|k: int| 0 <= k < s.len() ==> lowers_one(#[trigger] s[k].iv()) {
            assert(lowers_one(s[s.len() - 1].iv()));
            assert forall|k: int| 0 <= k < d.len() implies lowers_one(#[trigger] d[k].iv()) by {
                assert(d[k] == s[k]);
            }
            assert forall|j: int| 0 <= j < (a + e).len() implies native(#[trigger] (a + e)[j]) by {
                if j < a.len() {
                    assert((a + e)[j] == a[j]);
                } else {
                    assert((a + e)[j] == e[j - a.len()]);
                }
            }
        }
    } else {
        assert(irs_view(s) =~= Seq::<IrV>::empty());
    }
}

/// A list whose content lowers is one `IrGenerator::compile` accepts, for any nesting
/// budget that covers it.
pub proof fn lemma_lowers_compilable(s: Seq<IrInstruction>, f: nat)
    requires
        lowers(irs_view(s)),
        heights_below(s, f),
        f > 0,
    ensures
        compilable(f, s),
    decreases f,
{
    let v = irs_view(s);
    lemma_lowers_all(v);
    assert forall|k: int| 0 <= k < s.len() implies lowers_one(#[trigger] s[k].iv()) by {
        assert(v[k] == s[k].iv());
    }
    lemma_extend(s);
    // every `Return` leaves room for its copies
    assert forall|i: int| 0 <= i < s.len() implies match #[trigger] s[i] {
        IrInstruction::Return(vals) => forall|k: int| 0 <= k < vals@.len() ==>
            (#[trigger] vals@[k]).0 + vals@.len() + 1 <= usize::MAX,
        _ => true,
    } by {
        assert(lowers_one(s[i].iv()));
        match s[i] {
            IrInstruction::Return(vals) => {
                assert forall|k: int| 0 <= k < vals@.len() implies
                    (#[trigger] vals@[k]).0 + vals@.len() + 1 <= usize::MAX by {
                    assert(regs_view(vals@)[k] == vals@[k].0);
                }
            }
            _ => {}
        }
    }
    assert(returns_fit(s));
    // the lowered list is emittable
    let l = spec_lower(s);
    assert forall|j: int| 0 <= j < l.len() implies native(#[trigger] l[j]) by {
        if j < spec_extend(s).len() {
            assert(l[j] == spec_extend(s)[j]);
        }
    }
    assert(emittable(l));
    // and so is every function body, one level down
    assert forall|k: int| 0 <= k < s.len() implies (#[trigger] s[k] is LoadFunction ==> f > 0 &&
        compilable((f - 1) as nat, s[k]->function@)) by {
        if s[k] is LoadFunction {
            let body = s[k]->function@;
            assert(ir_height(s[k]) < f);
            lemma_body_below(s[k], f);
            assert(s[k].iv()->LoadFunction_1 =~= irs_view(body));
            assert(lowers_one(s[k].iv()));
            lemma_lowers_compilable(body, (f - 1) as nat);
        }
    }
}

proof fn lemma_max_regs_le(r: Seq<usize>, b: int)
    requires
        forall|k: int| 0 <= k < r.len() ==> #[trigger] r[k] <= b,
        r.len() > 0,
    ensures
        max_regs(r) <= b,
    decreases r.len(),
{
    if r.len() > 1 {
        let d = r.drop_last();
        assert forall|k: int| 0 <= k < d.len() implies #[trigger] d[k] <= b by {
            assert(d[k] == r[k]);
        }
        lemma_max_regs_le(d, b);
        assert(r.last() == r[r.len() - 1]);
    }
}

proof fn lemma_extend_len_mono(s: Seq<IrV>, k: int)
    requires
        0 <= k <= s.len(),
    ensures
        extend_len(s.take(k)) <= extend_len(s),
    decreases s.len(),
{
    if k < s.len() {
        lemma_extend_len_mono(s.drop_last(), k);
        assert(s.drop_last().take(k) =~= s.take(k));
    } else {
        assert(s.take(k) =~= s);
    }
}

/// Whether a run of registers stays within the 256 registers of a frame.
fn fits(start: u8, count: u8) -> (b: bool)
    ensures
        b == range_fits(start, count),
{
    (start as u16) + (count as u16) <= 256
}

/// Whether the registers of a list follow one another.
fn regs_consecutive(v: &Vec<VirtualVar>) -> (b: bool)
    ensures
        b == consecutive_regs(regs_view(v@)),
{
    let ghost r = regs_view(v@);
    if v.len() == 0 {
        return true;
    }
    let mut i: usize = 0;
    while i < v.len() - 1
        invariant
            v@.len() > 0,
            i <= v@.len() - 1,
            r == regs_view(v@),
            forall|j: int| 0 <= j < i ==> #[trigger] r[j + 1] == r[j] + 1,
        decreases v@.len() - 1 - i,
    {
        if !(v[i].0 < usize::MAX && v[i + 1].0 == v[i].0 + 1) {
            assert(!(r[i + 1] == r[i as int] + 1));
            return false;
        }
        i = i + 1;
    }
    true
}

/// The highest register of a non-empty list.
fn regs_max(v: &Vec<VirtualVar>) -> (m: usize)
    requires
        v@.len() > 0,
    ensures
        m == max_regs(regs_view(v@)),
{
    let ghost r = regs_view(v@);
    let mut m = v[0].0;
    let mut k: usize = 1;
    assert(r.take(1) =~= seq![r[0]]);
    while k < v.len()
        invariant
            1 <= k <= v@.len(),
            r == regs_view(v@),
            m == max_regs(r.take(k as int)),
        decreases v@.len() - k,
    {
        assert(r.take(k + 1).drop_last() =~= r.take(k as int));
        assert(r.take(k + 1).last() == v@[k as int].0);
        if v[k].0 > m {
            m = v[k].0;
        }
        k = k + 1;
    }
    assert(r.take(k as int) =~= r);
    m
}

/// Whether a `Return` of these registers can be emitted (`return_lowers`).
fn return_ok(v: &Vec<VirtualVar>) -> (b: bool)
    ensures
        b == return_lowers(regs_view(v@)),
{
    let ghost r = regs_view(v@);
    let n = v.len();
    if n == 0 {
        return true;
    }
    if n == usize::MAX {
        assert(!(r[0] + r.len() + 1 <= usize::MAX));
        return false;
    }
    let limit = usize::MAX - n - 1;
    let mut k: usize = 0;
    while k < n
        invariant
            n == v@.len(),
            n < usize::MAX,
            limit == usize::MAX - n - 1,
            k <= n,
            r == regs_view(v@),
            forall|j: int| 0 <= j < k ==> #[trigger] r[j] + r.len() + 1 <= usize::MAX,
        decreases n - k,
    {
        if v[k].0 > limit {
            assert(!(r[k as int] + r.len() + 1 <= usize::MAX));
            return false;
        }
        k = k + 1;
    }
    if regs_consecutive(v) {
        fits(v[0].0 as u8, n as u8)
    } else {
        let m = regs_max(v);
        proof {
            lemma_max_regs_le(r, limit as int);
        }
        fits((m + 1) as u8, n as u8)
    }
}

/// How many instructions expanding pseudo-instructions turns `i` into, when that is
/// below `0x7F80_0000`; `0x7F80_0000` otherwise.
fn extend_count(i: &IrInstruction) -> (n: usize)
    ensures
        n < 0x7F80_0000 ==> n == extend_len_one(i.iv()),
        n >= 0x7F80_0000 ==> extend_len_one(i.iv()) >= 0x7F80_0000,
{
    match i {
        IrInstruction::Array { dest: _, values } | IrInstruction::Table { dest: _, values } => {
            if values.len() >= 0x7F80_0000 { 0x7F80_0000 } else { 1 + values.len() }
        }
        IrInstruction::JumpIfFalse { .. } => 2,
        IrInstruction::Return(values) => {
            if values.len() == 0 || regs_consecutive(values) {
                1
            } else if values.len() >= 0x7F80_0000 {
                0x7F80_0000
            } else {
                values.len() + 1
            }
        }
        _ => 1,
    }
}

/// Whether one instruction, and every function body within it, can be emitted (`lowers_one`).
pub fn lowers_instruction(i: &IrInstruction) -> (b: bool)
    ensures
        b == lowers_one(i.iv()),
    decreases i,
{
    match i {
        IrInstruction::Return(vals) => return_ok(vals),
        IrInstruction::Call { callee: _, args } => {
            let start: u8 = if args.len() > 0 { args[0].0 as u8 } else { 0 };
            proof {
                if args@.len() > 0 {
                    assert(regs_view(args@)[0] == args@[0].0);
                }
            }
            fits(start, args.len() as u8)
        }
        IrInstruction::Ret { start, offset } => fits(*start, *offset),
        IrInstruction::Free(_) => false,
        IrInstruction::Noop => false,
        IrInstruction::LoadFunction { dest: _, function } => {
            assert(i.iv()->LoadFunction_1 =~= irs_view(function@));
            lowerable(function)
        }
        _ => true,
    }
}

/// Whether a list of instructions compiles to a chunk (`lowers`).
pub fn lowerable(instructions: &Vec<IrInstruction>) -> (b: bool)
    ensures
        b == lowers(irs_view(instructions@)),
    decreases instructions,
{
    let ghost v = irs_view(instructions@);
    let mut total: usize = 0;
    let mut k: usize = 0;
    assert(v.subrange(0, v.len() as int) =~= v);
    assert(v.take(0) =~= Seq::<IrV>::empty());
    while k < instructions.len()
        invariant
            k <= instructions@.len(),
            v == irs_view(instructions@),
            total == extend_len(v.take(k as int)),
            total + 1 < 0x7F80_0000,
            lowers_all(v) == lowers_all(v.subrange(k as int, v.len() as int)),
        decreases instructions@.len() - k,
    {
        let ghost sub = v.subrange(k as int, v.len() as int);
        assert(sub[0] == instructions@[k as int].iv());
        assert(sub.subrange(1, sub.len() as int) =~= v.subrange(k + 1, v.len() as int));
        assert(v.take(k + 1).drop_last() =~= v.take(k as int));
        assert(v.take(k + 1).last() == instructions@[k as int].iv());
        let one = extend_count(&instructions[k]);
        if one >= 0x7F80_0000 || total + one + 1 >= 0x7F80_0000 {
            proof {
                lemma_extend_len_mono(v, k + 1);
            }
            return false;
        }
        if !lowers_instruction(&instructions[k]) {
            return false;
        }
        total = total + one;
        k = k + 1;
    }
    assert(v.take(k as int) =~= v);
    assert(v.subrange(k as int, v.len() as int) =~= Seq::<IrV>::empty());
    true
}

} // verus!
