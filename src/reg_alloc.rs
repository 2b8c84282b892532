use std::collections::HashMap;

use vstd::prelude::*;

verus! {

broadcast use vstd::std_specs::hash::group_hash_axioms;

/// The number of physical registers.
pub const REGISTER_COUNT: usize = 8;

/// The kinds of IR instruction.
#[derive(Debug, Clone, Copy, PartialEq, Eq, Hash)]
pub enum IROp {
    Imm,
    BpOffset,
    Cond,
    Return,
    Add,
    Sub,
    Mul,
    Div,
    Store,
    Load,
    Kill,
    Label,
    Jmp,
}

/// An IR instruction; which operands name registers depends on `op`.
#[derive(Debug, Clone, Copy, PartialEq, Eq, Hash)]
pub struct IR {
    pub op: IROp,
    pub lhs: Option<usize>,
    pub rhs: Option<usize>,
}

/// Why register allocation failed.
#[derive(Debug, Clone, PartialEq, Eq)]
pub enum RegAllocError {
    /// No physical register was free for this virtual register; the map holds
    /// each virtual register bound so far with its physical register.
    OutOfRegisters(usize, HashMap<usize, usize>),
}

/// Holds the IR instruction stream.
pub struct IRGenerator {
    pub ir_vec: Vec<IR>,
}

/// Whether `lhs` names a register.
pub open spec fn reads_lhs(op: IROp) -> bool {
    !(op is Label) && !(op is Jmp)
}

/// Whether `rhs` names a register (else it is a value or an offset).
pub open spec fn reads_rhs(op: IROp) -> bool {
    op is Add || op is Sub || op is Mul || op is Div || op is Store || op is Load
}

/// Every register operand is present.
pub open spec fn ir_wf(ir: IR) -> bool {
    (reads_lhs(ir.op) ==> ir.lhs is Some) && (reads_rhs(ir.op) ==> ir.rhs is Some)
}

/// The register named by operand `k` (0: `lhs`, 1: `rhs`), if it names one.
pub open spec fn operand(ir: IR, k: int) -> Option<usize> {
    if k == 0 && reads_lhs(ir.op) {
        ir.lhs
    } else if k == 1 && reads_rhs(ir.op) {
        ir.rhs
    } else {
        None
    }
}

/// The allocator's state: which physical registers are in use, and the
/// binding of each virtual register met so far.
pub struct RegState {
    pub used: Seq<bool>,
    pub map: Map<usize, usize>,
}

pub open spec fn state_wf(s: RegState) -> bool {
    s.used.len() == REGISTER_COUNT
        && forall|v: usize| #[trigger] s.map.contains_key(v) ==> s.map[v] < REGISTER_COUNT
}

/// All registers free, no binding.
pub open spec fn initial() -> RegState {
    RegState { used: Seq::new(REGISTER_COUNT as nat, |i: int| false), map: Map::empty() }
}

/// The lowest index from `i` on whose register is free, or the length if none is.
pub open spec fn lowest_free(used: Seq<bool>, i: int) -> int
    decreases used.len() - i,
{
    if i < 0 || i >= used.len() {
        used.len() as int
    } else if !used[i] {
        i
    } else {
        lowest_free(used, i + 1)
    }
}

/// The physical register for `v`: its binding, else the lowest free register,
/// now in use and bound to `v`; when none is free, `v` with the bindings so far.
pub open spec fn bind(s: RegState, v: usize) -> Result<(RegState, usize), (usize, Map<usize, usize>)> {
    if s.map.contains_key(v) {
        Ok((s, s.map[v]))
    } else {
        let f = lowest_free(s.used, 0);
        if f < s.used.len() {
            Ok((RegState { used: s.used.update(f, true), map: s.map.insert(v, f as usize) }, f as usize))
        } else {
            Err((v, s.map))
        }
    }
}

/// One instruction with its register operands replaced; a kill then frees its register.
pub open spec fn rewrite(ir: IR, s: RegState) -> Result<(IR, RegState), (usize, Map<usize, usize>)> {
    if !reads_lhs(ir.op) {
        Ok((ir, s))
    } else {
        match bind(s, ir.lhs->Some_0) {
            Err(v) => Err(v),
            Ok((s1, a)) => if reads_rhs(ir.op) {
                match bind(s1, ir.rhs->Some_0) {
                    Err(v) => Err(v),
                    Ok((s2, b)) => Ok((IR { op: ir.op, lhs: Some(a), rhs: Some(b) }, s2)),
                }
            } else if ir.op is Kill {
                Ok((IR { lhs: Some(a), ..ir }, RegState { used: s1.used.update(a as int, false), map: s1.map }))
            } else {
                Ok((IR { lhs: Some(a), ..ir }, s1))
            },
        }
    }
}

/// The instructions rewritten in order from state `s`, with the state after them,
/// or the first virtual register that found no free physical register, with
/// the bindings made up to then.
pub open spec fn allocate(irs: Seq<IR>, s: RegState) -> Result<(Seq<IR>, RegState), (usize, Map<usize, usize>)>
    decreases irs.len(),
{
    if irs.len() == 0 {
        Ok((Seq::empty(), s))
    } else {
        match rewrite(irs[0], s) {
            Err(v) => Err(v),
            Ok((ir, s1)) => match allocate(irs.drop_first(), s1) {
                Err(v) => Err(v),
                Ok((rest, s2)) => Ok((seq![ir] + rest, s2)),
            },
        }
    }
}

pub open spec fn state_of(used: Vec<bool>, map: HashMap<usize, usize>) -> RegState {
    RegState { used: used@, map: map@ }
}

/// The register for `v`, as `bind` gives it.
fn alloc_reg(v: usize, used: &mut Vec<bool>, map: &mut HashMap<usize, usize>) -> (r: Result<usize, usize>)
    requires
        state_wf(state_of(*old(used), *old(map))),
    ensures
        state_wf(state_of(*final(used), *final(map))),
        match bind(state_of(*old(used), *old(map)), v) {
            Ok((s, a)) => r == Ok::<usize, usize>(a) && state_of(*final(used), *final(map)) == s,
            Err((w, _)) => r == Err::<usize, usize>(w) && final(used)@ == old(used)@ && final(map)@ == old(map)@,
        },
        r is Ok ==> r->Ok_0 < REGISTER_COUNT,
{
    match map.get(&v) {
        Some(a) => return Ok(*a),
        None => {},
    }
    let mut i: usize = 0;
    while i < REGISTER_COUNT
        invariant
            used@ == old(used)@,
            state_wf(state_of(*old(used), *old(map))),
            used@.len() == REGISTER_COUNT,
            map@ == old(map)@,
            !map@.contains_key(v),
            0 <= i <= REGISTER_COUNT,
            lowest_free(used@, 0) == lowest_free(used@, i as int),
        decreases REGISTER_COUNT - i,
    {
        if !used[i] {
            used.set(i, true);
            map.insert(v, i);
            assert forall|w: usize| #[trigger] map@.contains_key(w) implies map@[w] < REGISTER_COUNT by {
                if w != v {
                    assert(old(map)@.contains_key(w));
                }
            }
            return Ok(i);
        }
        i += 1;
    }
    Err(v)
}

} // verus!

verus! {

/// One instruction rewritten as `rewrite` gives it.
fn rewrite_ir(ir: IR, used: &mut Vec<bool>, map: &mut HashMap<usize, usize>) -> (r: Result<IR, usize>)
    requires
        state_wf(state_of(*old(used), *old(map))),
        ir_wf(ir),
    ensures
        state_wf(state_of(*final(used), *final(map))),
        match rewrite(ir, state_of(*old(used), *old(map))) {
            Ok((ir2, s)) => r == Ok::<IR, usize>(ir2) && state_of(*final(used), *final(map)) == s,
            Err((w, m)) => r == Err::<IR, usize>(w) && final(map)@ == m,
        },
{
    match ir.op {
        IROp::Label | IROp::Jmp => {
            assert(state_of(*used, *map) == state_of(*old(used), *old(map)));
            Ok(ir)
        },
        IROp::Add | IROp::Sub | IROp::Mul | IROp::Div | IROp::Store | IROp::Load => {
            let a = match alloc_reg(ir.lhs.unwrap(), used, map) {
                Ok(a) => a,
                Err(v) => return Err(v),
            };
            let b = match alloc_reg(ir.rhs.unwrap(), used, map) {
                Ok(b) => b,
                Err(v) => return Err(v),
            };
            Ok(IR { op: ir.op, lhs: Some(a), rhs: Some(b) })
        },
        IROp::Kill => {
            let a = match alloc_reg(ir.lhs.unwrap(), used, map) {
                Ok(a) => a,
                Err(v) => return Err(v),
            };
            used.set(a, false);
            Ok(IR { op: ir.op, lhs: Some(a), rhs: ir.rhs })
        },
        IROp::Imm | IROp::BpOffset | IROp::Cond | IROp::Return => {
            let a = match alloc_reg(ir.lhs.unwrap(), used, map) {
                Ok(a) => a,
                Err(v) => return Err(v),
            };
            Ok(IR { op: ir.op, lhs: Some(a), rhs: ir.rhs })
        },
    }
}

impl IR {
    pub fn new(op: IROp, lhs: Option<usize>, rhs: Option<usize>) -> (r: IR)
        ensures
            r == (IR { op, lhs, rhs }),
    {
        IR { op, lhs, rhs }
    }
}

impl IRGenerator {
    pub fn new(ir_vec: Vec<IR>) -> (r: IRGenerator)
        ensures
            r.ir_vec@ == ir_vec@,
    {
        IRGenerator { ir_vec }
    }

    /// Replace every virtual register operand by a physical register, in one
    /// pass from first to last instruction; on failure the stream is unchanged.
    pub fn reg_alloc(&mut self) -> (r: Result<(), RegAllocError>)
        requires
            forall|i: int| 0 <= i < old(self).ir_vec@.len() ==> ir_wf(#[trigger] old(self).ir_vec@[i]),
        ensures
            match allocate(old(self).ir_vec@, initial()) {
                Ok((out, _)) => r is Ok && final(self).ir_vec@ == out,
                Err((v, m)) => (match r {
                    Err(RegAllocError::OutOfRegisters(w, mapping)) => w == v && mapping@ == m,
                    Ok(()) => false,
                }) && final(self).ir_vec@ == old(self).ir_vec@,
            },
    {
        let mut used: Vec<bool> = Vec::new();
        let mut k: usize = 0;
        while k < REGISTER_COUNT
            invariant
                0 <= k <= REGISTER_COUNT,
                used@ == Seq::new(k as nat, |i: int| false),
            decreases REGISTER_COUNT - k,
        {
            used.push(false);
            k += 1;
            assert(used@ =~= Seq::new(k as nat, |i: int| false));
        }
        let mut map: HashMap<usize, usize> = HashMap::new();
        let ghost irs = self.ir_vec@;
        assert(state_of(used, map) == initial()) by {
            assert(map@ =~= Map::<usize, usize>::empty());
        }
        let mut out: Vec<IR> = Vec::new();
        proof {
            assert(irs.skip(0) =~= irs);
            match allocate(irs, initial()) {
                Ok((rest, s)) => {
                    assert(out@ + rest =~= rest);
                },
                Err(v) => {},
            }
        }
        let n = self.ir_vec.len();
        let mut i: usize = 0;
        while i < n
            invariant
                irs == self.ir_vec@,
                n == irs.len(),
                0 <= i <= n,
                forall|j: int| 0 <= j < irs.len() ==> ir_wf(#[trigger] irs[j]),
                state_wf(state_of(used, map)),
                allocate(irs, initial()) == match allocate(irs.skip(i as int), state_of(used, map)) {
                    Ok((rest, s)) => Ok((out@ + rest, s)),
                    Err(v) => Err(v),
                },
            decreases n - i,
        {
            let ghost s0 = state_of(used, map);
            let ghost out0 = out@;
            let ir = self.ir_vec[i];
            proof {
                assert(irs.skip(i as int)[0] == irs[i as int]);
                assert(irs.skip(i as int).drop_first() =~= irs.skip(i + 1));
            }
            match rewrite_ir(ir, &mut used, &mut map) {
                Ok(ir2) => {
                    out.push(ir2);
                    proof {
                        match allocate(irs.skip(i + 1), state_of(used, map)) {
                            Ok((rest, s)) => {
                                assert(out0 + (seq![ir2] + rest) =~= out@ + rest);
                            },
                            Err(v) => {},
                        }
                    }
                },
                Err(v) => return Err(RegAllocError::OutOfRegisters(v, map)),
            }
            i += 1;
        }
        proof {
            assert(irs.skip(n as int) =~= Seq::<IR>::empty());
            assert(out@ + Seq::<IR>::empty() =~= out@);
        }
        self.ir_vec = out;
        Ok(())
    }
}

} // verus!
