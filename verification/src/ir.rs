//! The intermediate representation: instructions over unbounded virtual registers.
use vstd::prelude::*;

verus! {

/// A jump destination, placed by a `Label` instruction.
#[derive(Debug, Copy, Clone, PartialEq, Eq, Hash, Structural)]
pub struct JumpLabel(pub usize);

/// A virtual register.
#[derive(Debug, Copy, Clone, PartialEq, Eq, Hash, Structural)]
pub struct VirtualVar(pub usize);

/// The number of a function.
#[derive(Debug, Copy, Clone, PartialEq, Eq, Hash, Structural)]
pub struct FunctionId(pub usize);

/// A binary operator.
#[derive(Debug, Clone, Copy, PartialEq, Eq, Structural)]
pub enum Operator {
    // Arithmetic
    Add,
    Sub,
    Mul,
    Div,
    Pow,
    // String concatenation
    Concat,
    // Comparisons
    Eq,
    Ne,
    Lt,
    Le,
    Gt,
    Ge,
}

/// One instruction of the intermediate representation.
#[derive(Debug)]
pub enum IrInstruction {
    // Load
    LoadString { dest: VirtualVar, value: String },
    /// Loads the number whose IEEE-754 double bits are `value`.
    LoadFloat { dest: VirtualVar, value: u64 },
    LoadBool { dest: VirtualVar, value: bool },
    LoadFunction { dest: VirtualVar, function: Vec<IrInstruction> },
    LoadNil(VirtualVar),
    // Branching
    SkipOnTrue(VirtualVar),
    JumpIfFalse { dest: JumpLabel, src: VirtualVar },
    Jump(JumpLabel),
    Label(JumpLabel),
    // Functions
    Call { callee: VirtualVar, args: Vec<VirtualVar> },
    GetReturn { dest: VirtualVar, index: usize },
    Return(Vec<VirtualVar>),
    /// Low level version of `Return`
    Ret { start: u8, offset: u8 },
    // Globals
    GetGlobal { dest: VirtualVar, name: String },
    SetGlobal { src: VirtualVar, name: String },
    // Objects
    GetField { dest: VirtualVar, object: VirtualVar, index: VirtualVar },
    SetField { object: VirtualVar, index: VirtualVar, src: VirtualVar },
    Array { dest: VirtualVar, values: Vec<VirtualVar> },
    Table { dest: VirtualVar, values: Vec<VirtualVar> },
    NewArray(VirtualVar),
    NewTable(VirtualVar),
    AppendArray { dest: VirtualVar, src: VirtualVar },
    // Misc
    Binary { dest: VirtualVar, left: VirtualVar, right: VirtualVar, op: Operator },
    Copy { dest: VirtualVar, src: VirtualVar },
    Free(VirtualVar),
    Noop,
}

/// How an instruction touches a register.
#[derive(Debug, Clone, Copy, PartialEq, Eq, Structural)]
pub enum RegAccess {
    /// The register is written.
    Def,
    /// The register is read.
    Use,
}

/// The content of an IR instruction, with sequences in place of strings and vectors,
/// and register numbers in place of virtual registers.
pub enum IrV {
    LoadString(usize, Seq<char>),
    LoadFloat(usize, u64),
    LoadBool(usize, bool),
    LoadFunction(usize, Seq<IrV>),
    LoadNil(usize),
    SkipOnTrue(usize),
    JumpIfFalse(usize, usize),
    Jump(usize),
    Label(usize),
    Call(usize, Seq<usize>),
    GetReturn(usize, usize),
    Return(Seq<usize>),
    Ret(u8, u8),
    GetGlobal(usize, Seq<char>),
    SetGlobal(usize, Seq<char>),
    GetField(usize, usize, usize),
    SetField(usize, usize, usize),
    Array(usize, Seq<usize>),
    Table(usize, Seq<usize>),
    NewArray(usize),
    NewTable(usize),
    AppendArray(usize, usize),
    Binary(usize, usize, usize, Operator),
    Copy(usize, usize),
    Free(usize),
    Noop,
}

/// The register numbers of a list of virtual registers.
pub open spec fn regs_view(v: Seq<VirtualVar>) -> Seq<usize> {
    v.map_values(|x: VirtualVar| x.0)
}

impl IrInstruction {
    pub open spec fn iv(self) -> IrV
        decreases self,
    {
        match self {
            IrInstruction::LoadString { dest, value } => IrV::LoadString(dest.0, value@),
            IrInstruction::LoadFloat { dest, value } => IrV::LoadFloat(dest.0, value),
            IrInstruction::LoadBool { dest, value } => IrV::LoadBool(dest.0, value),
            IrInstruction::LoadFunction { dest, function } => IrV::LoadFunction(dest.0,
                Seq::new(function@.len(), |i: int| if 0 <= i < function@.len() { function@[i].iv() } else { IrV::Noop })),
            IrInstruction::LoadNil(d) => IrV::LoadNil(d.0),
            IrInstruction::SkipOnTrue(c) => IrV::SkipOnTrue(c.0),
            IrInstruction::JumpIfFalse { dest, src } => IrV::JumpIfFalse(dest.0, src.0),
            IrInstruction::Jump(l) => IrV::Jump(l.0),
            IrInstruction::Label(l) => IrV::Label(l.0),
            IrInstruction::Call { callee, args } => IrV::Call(callee.0, regs_view(args@)),
            IrInstruction::GetReturn { dest, index } => IrV::GetReturn(dest.0, index),
            IrInstruction::Return(v) => IrV::Return(regs_view(v@)),
            IrInstruction::Ret { start, offset } => IrV::Ret(start, offset),
            IrInstruction::GetGlobal { dest, name } => IrV::GetGlobal(dest.0, name@),
            IrInstruction::SetGlobal { src, name } => IrV::SetGlobal(src.0, name@),
            IrInstruction::GetField { dest, object, index } => IrV::GetField(dest.0, object.0, index.0),
            IrInstruction::SetField { object, index, src } => IrV::SetField(object.0, index.0, src.0),
            IrInstruction::Array { dest, values } => IrV::Array(dest.0, regs_view(values@)),
            IrInstruction::Table { dest, values } => IrV::Table(dest.0, regs_view(values@)),
            IrInstruction::NewArray(d) => IrV::NewArray(d.0),
            IrInstruction::NewTable(d) => IrV::NewTable(d.0),
            IrInstruction::AppendArray { dest, src } => IrV::AppendArray(dest.0, src.0),
            IrInstruction::Binary { dest, left, right, op } => IrV::Binary(dest.0, left.0, right.0, op),
            IrInstruction::Copy { dest, src } => IrV::Copy(dest.0, src.0),
            IrInstruction::Free(r) => IrV::Free(r.0),
            IrInstruction::Noop => IrV::Noop,
        }
    }
}

/// The contents of a list of IR instructions.
pub open spec fn irs_view(v: Seq<IrInstruction>) -> Seq<IrV> {
    Seq::new(v.len(), |i: int| if 0 <= i < v.len() { v[i].iv() } else { IrV::Noop })
}


/// The registers an instruction names, in the order `visit_registers_mut` visits them,
/// each with how the instruction uses it. A `Ret` visits every register from `start`
/// up to and including `start + offset`.
pub open spec fn reg_visits(i: IrV) -> Seq<(usize, RegAccess)> {
    match i {
        IrV::Binary(d, l, r, _) => seq![(d, RegAccess::Def), (l, RegAccess::Use), (r, RegAccess::Use)],
        IrV::SetField(o, x, v) => seq![(o, RegAccess::Use), (x, RegAccess::Use), (v, RegAccess::Use)],
        IrV::Copy(d, v) => seq![(d, RegAccess::Def), (v, RegAccess::Use)],
        IrV::Array(d, vs) => seq![(d, RegAccess::Def)] + vs.map_values(|v: usize| (v, RegAccess::Use)),
        IrV::Table(d, vs) => seq![(d, RegAccess::Def)] + vs.map_values(|v: usize| (v, RegAccess::Use)),
        IrV::Call(c, args) => seq![(c, RegAccess::Use)] + args.map_values(|v: usize| (v, RegAccess::Use)),
        IrV::Return(vs) => vs.map_values(|v: usize| (v, RegAccess::Use)),
        IrV::Free(r) => seq![(r, RegAccess::Use)],
        IrV::GetField(d, o, x) => seq![(d, RegAccess::Def), (o, RegAccess::Use), (x, RegAccess::Use)],
        IrV::GetGlobal(d, _) => seq![(d, RegAccess::Def)],
        IrV::GetReturn(d, _) => seq![(d, RegAccess::Def)],
        IrV::JumpIfFalse(_, v) => seq![(v, RegAccess::Use)],
        IrV::LoadBool(d, _) => seq![(d, RegAccess::Def)],
        IrV::LoadFloat(d, _) => seq![(d, RegAccess::Def)],
        IrV::LoadFunction(d, _) => seq![(d, RegAccess::Def)],
        IrV::LoadNil(d) => seq![(d, RegAccess::Def)],
        IrV::LoadString(d, _) => seq![(d, RegAccess::Def)],
        IrV::SetGlobal(v, _) => seq![(v, RegAccess::Use)],
        IrV::SkipOnTrue(v) => seq![(v, RegAccess::Use)],
        IrV::AppendArray(d, v) => seq![(d, RegAccess::Use), (v, RegAccess::Use)],
        IrV::NewArray(d) => seq![(d, RegAccess::Def)],
        IrV::NewTable(d) => seq![(d, RegAccess::Def)],
        IrV::Ret(start, offset) => Seq::new((offset + 1) as nat, |k: int| ((start + k) as usize, RegAccess::Use)),
        IrV::Label(_) => Seq::empty(),
        IrV::Noop => Seq::empty(),
        IrV::Jump(_) => Seq::empty(),
    }
}

/// The instruction with the registers it names replaced by `o`, in visiting order.
/// A `Ret`'s registers are not fields of it, so it stays as it is.
pub open spec fn with_regs(i: IrV, o: Seq<usize>) -> IrV {
    match i {
        IrV::Binary(_, _, _, op) => IrV::Binary(o[0], o[1], o[2], op),
        IrV::SetField(_, _, _) => IrV::SetField(o[0], o[1], o[2]),
        IrV::Copy(_, _) => IrV::Copy(o[0], o[1]),
        IrV::Array(_, vs) => IrV::Array(o[0], o.subrange(1, o.len() as int)),
        IrV::Table(_, vs) => IrV::Table(o[0], o.subrange(1, o.len() as int)),
        IrV::Call(_, args) => IrV::Call(o[0], o.subrange(1, o.len() as int)),
        IrV::Return(_) => IrV::Return(o),
        IrV::Free(_) => IrV::Free(o[0]),
        IrV::GetField(_, _, _) => IrV::GetField(o[0], o[1], o[2]),
        IrV::GetGlobal(_, n) => IrV::GetGlobal(o[0], n),
        IrV::GetReturn(_, x) => IrV::GetReturn(o[0], x),
        IrV::JumpIfFalse(l, _) => IrV::JumpIfFalse(l, o[0]),
        IrV::LoadBool(_, b) => IrV::LoadBool(o[0], b),
        IrV::LoadFloat(_, b) => IrV::LoadFloat(o[0], b),
        IrV::LoadFunction(_, f) => IrV::LoadFunction(o[0], f),
        IrV::LoadNil(_) => IrV::LoadNil(o[0]),
        IrV::LoadString(_, t) => IrV::LoadString(o[0], t),
        IrV::SetGlobal(_, n) => IrV::SetGlobal(o[0], n),
        IrV::SkipOnTrue(_) => IrV::SkipOnTrue(o[0]),
        IrV::AppendArray(_, _) => IrV::AppendArray(o[0], o[1]),
        IrV::NewArray(_) => IrV::NewArray(o[0]),
        IrV::NewTable(_) => IrV::NewTable(o[0]),
        other => other,
    }
}

/// `o` holds, for each register visit, a result `f` may give for it.
pub open spec fn visit_results<F: Fn(VirtualVar, RegAccess) -> VirtualVar>(f: F, visits: Seq<(usize, RegAccess)>, o: Seq<usize>) -> bool {
    &&& o.len() == visits.len()
    &&& forall|k: int| 0 <= k < o.len() ==> call_ensures(f, (VirtualVar(#[trigger] visits[k].0), visits[k].1), VirtualVar(o[k]))
}

/// Replaces each register of a list by `f` of it, read as a use.
fn map_uses<F: Fn(VirtualVar, RegAccess) -> VirtualVar>(values: &mut Vec<VirtualVar>, f: &F) -> (o: Ghost<Seq<usize>>)
    requires
        forall|v: VirtualVar, a: RegAccess| call_requires(*f, (v, a)),
    ensures
        visit_results(*f, regs_view(old(values)@).map_values(|v: usize| (v, RegAccess::Use)), o@),
        regs_view(final(values)@) == o@,
{
    let ghost old_vals = regs_view(values@);
    let ghost visits = old_vals.map_values(|v: usize| (v, RegAccess::Use));
    let mut i: usize = 0;
    while i < values.len()
        invariant
            i <= values@.len(),
            values@.len() == old_vals.len(),
            visits == old_vals.map_values(|v: usize| (v, RegAccess::Use)),
            forall|v: VirtualVar, a: RegAccess| call_requires(*f, (v, a)),
            forall|k: int| i <= k < values@.len() ==> values@[k].0 == old_vals[k],
            forall|k: int| 0 <= k < i ==> call_ensures(*f, (VirtualVar(#[trigger] visits[k].0), visits[k].1), values@[k]),
        decreases values@.len() - i,
    {
        let v = f(values[i], RegAccess::Use);
        values.set(i, v);
        i = i + 1;
    }
    let ghost o = regs_view(values@);
    assert forall|k: int| 0 <= k < o.len() implies call_ensures(*f, (VirtualVar(#[trigger] visits[k].0), visits[k].1), VirtualVar(o[k])) by {
        assert(VirtualVar(o[k]) == values@[k]);
    }
    Ghost(o)
}

impl IrInstruction {
    /// Replaces every register the instruction names by `f` of it and of how the
    /// instruction uses it, in the order `reg_visits` gives. For a `Ret`, `f` is
    /// called on each register of its range and the results are dropped.
    pub fn visit_registers_mut<F: Fn(VirtualVar, RegAccess) -> VirtualVar>(&mut self, f: F)
        requires
            forall|v: VirtualVar, a: RegAccess| call_requires(f, (v, a)),
            old(self).iv() matches IrV::Ret(start, offset) ==> start as int + offset as int <= 255,
        ensures
            exists|o: Seq<usize>| visit_results(f, reg_visits(old(self).iv()), o) && final(self).iv() == with_regs(old(self).iv(), o),
    {
        let ghost old_iv = self.iv();
        match self {
            IrInstruction::Binary { dest, left, right, .. } => {
                *dest = f(*dest, RegAccess::Def);
                *left = f(*left, RegAccess::Use);
                *right = f(*right, RegAccess::Use);
                proof {
                    let o = seq![dest.0, left.0, right.0];
                    assert(visit_results(f, reg_visits(old_iv), o));
                    assert(self.iv() == with_regs(old_iv, o));
                }
            }
            IrInstruction::SetField { object, index, src } => {
                *object = f(*object, RegAccess::Use);
                *index = f(*index, RegAccess::Use);
                *src = f(*src, RegAccess::Use);
                proof {
                    let o = seq![object.0, index.0, src.0];
                    assert(visit_results(f, reg_visits(old_iv), o));
                    assert(self.iv() == with_regs(old_iv, o));
                }
            }
            IrInstruction::GetField { dest, object, index } => {
                *dest = f(*dest, RegAccess::Def);
                *object = f(*object, RegAccess::Use);
                *index = f(*index, RegAccess::Use);
                proof {
                    let o = seq![dest.0, object.0, index.0];
                    assert(visit_results(f, reg_visits(old_iv), o));
                    assert(self.iv() == with_regs(old_iv, o));
                }
            }
            IrInstruction::Copy { dest, src } => {
                *dest = f(*dest, RegAccess::Def);
                *src = f(*src, RegAccess::Use);
                proof {
                    let o = seq![dest.0, src.0];
                    assert(visit_results(f, reg_visits(old_iv), o));
                    assert(self.iv() == with_regs(old_iv, o));
                }
            }
            IrInstruction::AppendArray { dest, src } => {
                *dest = f(*dest, RegAccess::Use);
                *src = f(*src, RegAccess::Use);
                proof {
                    let o = seq![dest.0, src.0];
                    assert(visit_results(f, reg_visits(old_iv), o));
                    assert(self.iv() == with_regs(old_iv, o));
                }
            }
            IrInstruction::Free(reg) => {
                *reg = f(*reg, RegAccess::Use);
                proof {
                    let o = seq![reg.0];
                    assert(visit_results(f, reg_visits(old_iv), o));
                    assert(self.iv() == with_regs(old_iv, o));
                }
            }
            IrInstruction::GetGlobal { dest, .. } => {
                *dest = f(*dest, RegAccess::Def);
                proof {
                    let o = seq![dest.0];
                    assert(visit_results(f, reg_visits(old_iv), o));
                    assert(self.iv() == with_regs(old_iv, o));
                }
            }
            IrInstruction::GetReturn { dest, .. } => {
                *dest = f(*dest, RegAccess::Def);
                proof {
                    let o = seq![dest.0];
                    assert(visit_results(f, reg_visits(old_iv), o));
                    assert(self.iv() == with_regs(old_iv, o));
                }
            }
            IrInstruction::JumpIfFalse { src, .. } => {
                *src = f(*src, RegAccess::Use);
                proof {
                    let o = seq![src.0];
                    assert(visit_results(f, reg_visits(old_iv), o));
                    assert(self.iv() == with_regs(old_iv, o));
                }
            }
            IrInstruction::LoadBool { dest, .. } => {
                *dest = f(*dest, RegAccess::Def);
                proof {
                    let o = seq![dest.0];
                    assert(visit_results(f, reg_visits(old_iv), o));
                    assert(self.iv() == with_regs(old_iv, o));
                }
            }
            IrInstruction::LoadFloat { dest, .. } => {
                *dest = f(*dest, RegAccess::Def);
                proof {
                    let o = seq![dest.0];
                    assert(visit_results(f, reg_visits(old_iv), o));
                    assert(self.iv() == with_regs(old_iv, o));
                }
            }
            IrInstruction::LoadFunction { dest, .. } => {
                *dest = f(*dest, RegAccess::Def);
                proof {
                    let o = seq![dest.0];
                    assert(visit_results(f, reg_visits(old_iv), o));
                    assert(self.iv() == with_regs(old_iv, o));
                }
            }
            IrInstruction::LoadNil(dest) => {
                *dest = f(*dest, RegAccess::Def);
                proof {
                    let o = seq![dest.0];
                    assert(visit_results(f, reg_visits(old_iv), o));
                    assert(self.iv() == with_regs(old_iv, o));
                }
            }
            IrInstruction::LoadString { dest, .. } => {
                *dest = f(*dest, RegAccess::Def);
                proof {
                    let o = seq![dest.0];
                    assert(visit_results(f, reg_visits(old_iv), o));
                    assert(self.iv() == with_regs(old_iv, o));
                }
            }
            IrInstruction::SetGlobal { src, .. } => {
                *src = f(*src, RegAccess::Use);
                proof {
                    let o = seq![src.0];
                    assert(visit_results(f, reg_visits(old_iv), o));
                    assert(self.iv() == with_regs(old_iv, o));
                }
            }
            IrInstruction::SkipOnTrue(src) => {
                *src = f(*src, RegAccess::Use);
                proof {
                    let o = seq![src.0];
                    assert(visit_results(f, reg_visits(old_iv), o));
                    assert(self.iv() == with_regs(old_iv, o));
                }
            }
            IrInstruction::NewArray(dest) => {
                *dest = f(*dest, RegAccess::Def);
                proof {
                    let o = seq![dest.0];
                    assert(visit_results(f, reg_visits(old_iv), o));
                    assert(self.iv() == with_regs(old_iv, o));
                }
            }
            IrInstruction::NewTable(dest) => {
                *dest = f(*dest, RegAccess::Def);
                proof {
                    let o = seq![dest.0];
                    assert(visit_results(f, reg_visits(old_iv), o));
                    assert(self.iv() == with_regs(old_iv, o));
                }
            }
            IrInstruction::Array { dest, values } => {
                *dest = f(*dest, RegAccess::Def);
                let rest = map_uses(values, &f);
                proof {
                    let o = seq![dest.0] + rest@;
                    assert(o.subrange(1, o.len() as int) =~= rest@);
                    let v = reg_visits(old_iv);
                    assert forall|k: int| 0 <= k < o.len() implies call_ensures(f, (VirtualVar(#[trigger] v[k].0), v[k].1), VirtualVar(o[k])) by {
                        if k > 0 {
                            assert(o[k] == rest@[k - 1]);
                        }
                    }
                    assert(visit_results(f, reg_visits(old_iv), o));
                    assert(self.iv() == with_regs(old_iv, o));
                }
            }
            IrInstruction::Table { dest, values } => {
                *dest = f(*dest, RegAccess::Def);
                let rest = map_uses(values, &f);
                proof {
                    let o = seq![dest.0] + rest@;
                    assert(o.subrange(1, o.len() as int) =~= rest@);
                    let v = reg_visits(old_iv);
                    assert forall|k: int| 0 <= k < o.len() implies call_ensures(f, (VirtualVar(#[trigger] v[k].0), v[k].1), VirtualVar(o[k])) by {
                        if k > 0 {
                            assert(o[k] == rest@[k - 1]);
                        }
                    }
                    assert(visit_results(f, reg_visits(old_iv), o));
                    assert(self.iv() == with_regs(old_iv, o));
                }
            }
            IrInstruction::Call { callee, args: values } => {
                *callee = f(*callee, RegAccess::Use);
                let rest = map_uses(values, &f);
                proof {
                    let o = seq![callee.0] + rest@;
                    assert(o.subrange(1, o.len() as int) =~= rest@);
                    let v = reg_visits(old_iv);
                    assert forall|k: int| 0 <= k < o.len() implies call_ensures(f, (VirtualVar(#[trigger] v[k].0), v[k].1), VirtualVar(o[k])) by {
                        if k > 0 {
                            assert(o[k] == rest@[k - 1]);
                        }
                    }
                    assert(visit_results(f, reg_visits(old_iv), o));
                    assert(self.iv() == with_regs(old_iv, o));
                }
            }
            IrInstruction::Return(values) => {
                let rest = map_uses(values, &f);
                proof {
                    assert(visit_results(f, reg_visits(old_iv), rest@));
                    assert(self.iv() == with_regs(old_iv, rest@));
                }
            }
            IrInstruction::Ret { start, offset } => {
                // The registers of a return are visited but are not fields to write back
                let (start, offset) = (*start, *offset);
                let ghost visits = reg_visits(old_iv);
                let ghost mut o: Seq<usize> = Seq::empty();
                let mut done: u16 = 0;
                while done <= offset as u16
                    invariant
                        start as int + offset as int <= 255,
                        done <= offset as int + 1,
                        forall|v: VirtualVar, a: RegAccess| call_requires(f, (v, a)),
                        visits == Seq::new((offset + 1) as nat, |k: int| ((start + k) as usize, RegAccess::Use)),
                        o.len() == done,
                        forall|k: int| 0 <= k < o.len() ==> call_ensures(f, (VirtualVar(#[trigger] visits[k].0), visits[k].1), VirtualVar(o[k])),
                    decreases offset as int + 1 - done,
                {
                    let reg: u8 = start + (done as u8);
                    let r = f(VirtualVar(reg as usize), RegAccess::Use);
                    proof {
                        o = o.push(r.0);
                    }
                    done = done + 1;
                }
                assert(visit_results(f, reg_visits(old_iv), o));
                assert(self.iv() == with_regs(old_iv, o));
            }
            _ => {
                let ghost o: Seq<usize> = Seq::empty();
                assert(visit_results(f, reg_visits(old_iv), o));
                assert(self.iv() == with_regs(old_iv, o));
            }
        }
    }
}
} // verus!
