use crate::ir::{get_irinfo, irs_view, irv, spec_ir_ty, IROp, IRType, IRView, IR};
use crate::CompileError;
use crate::REGS_N;
use vstd::prelude::*;

verus! {

/// Model of the allocator's state: which physical slots are in use,
/// and the virtual-to-physical mapping built so far. A mapping entry
/// is never removed once written; after a kill it goes stale and only
/// a fresh slot lookup may touch its slot again.
pub struct AllocSt {
    pub used: Seq<bool>,
    pub map: Seq<Option<int>>,
}

/// First free slot of the register file at or after `i`.
pub open spec fn first_free(used: Seq<bool>, i: int) -> Option<int>
    decreases used.len() - i,
    when 0 <= i <= used.len()
{
    if i >= used.len() {
        None
    } else if !used[i] {
        Some(i)
    } else {
        first_free(used, i + 1)
    }
}

/// Resolve a virtual register to a physical slot: reuse its mapping
/// where one exists (the slot must still be bound, or the sequence
/// uses a register after its kill), bind the first free slot
/// otherwise. Exhaustion of the file is the resource error.
pub open spec fn spec_alloc(st: AllocSt, vreg: int) -> Result<(AllocSt, int), CompileError> {
    if !(0 <= vreg < st.map.len()) {
        Err(CompileError::Semantic)
    } else {
        match st.map[vreg] {
            Some(s) => {
                if 0 <= s < st.used.len() && st.used[s] {
                    Ok((st, s))
                } else {
                    Err(CompileError::Semantic)
                }
            },
            None => match first_free(st.used, 0) {
                Some(s) => Ok(
                    (AllocSt { used: st.used.update(s, true), map: st.map.update(vreg, Some(s)) }, s),
                ),
                None => Err(CompileError::Resource),
            },
        }
    }
}

/// Free a bound physical slot.
pub open spec fn spec_kill(st: AllocSt, s: int) -> Result<AllocSt, CompileError> {
    if 0 <= s < st.used.len() && st.used[s] {
        Ok(AllocSt { used: st.used.update(s, false), map: st.map })
    } else {
        Err(CompileError::Semantic)
    }
}

/// Retire an instruction whose operands are resolved: a kill frees
/// its slot and becomes a placeholder, everything else stands.
pub open spec fn spec_retire(st: AllocSt, ir: IRView) -> Result<(AllocSt, IRView), CompileError> {
    if ir.op == IROp::Kill {
        match spec_kill(st, ir.lhs->0) {
            Ok(st1) => Ok((st1, irv(IROp::Nop, ir.lhs, ir.rhs))),
            Err(e) => Err(e),
        }
    } else {
        Ok((st, ir))
    }
}

/// Allocate one instruction: resolve the register operands its shape
/// carries, left before right, then retire it if it is a kill.
pub open spec fn spec_alloc_ir(st: AllocSt, ir: IRView) -> Result<(AllocSt, IRView), CompileError> {
    match spec_ir_ty(ir.op) {
        IRType::Reg | IRType::RegImm | IRType::RegLabel => match ir.lhs {
            Some(l) => match spec_alloc(st, l) {
                Ok((st1, pl)) => spec_retire(st1, irv(ir.op, Some(pl), ir.rhs)),
                Err(e) => Err(e),
            },
            None => Err(CompileError::Semantic),
        },
        IRType::RegReg => match (ir.lhs, ir.rhs) {
            (Some(l), Some(r)) => match spec_alloc(st, l) {
                Ok((st1, pl)) => match spec_alloc(st1, r) {
                    Ok((st2, pr)) => spec_retire(st2, irv(ir.op, Some(pl), Some(pr))),
                    Err(e) => Err(e),
                },
                Err(e) => Err(e),
            },
            _ => Err(CompileError::Semantic),
        },
        IRType::Label | IRType::NoArg => spec_retire(st, ir),
    }
}

/// Allocate a whole sequence, left to right.
pub open spec fn spec_alloc_all(st: AllocSt, irs: Seq<IRView>) -> Result<
    (AllocSt, Seq<IRView>),
    CompileError,
>
    decreases irs.len(),
{
    if irs.len() == 0 {
        Ok((st, Seq::empty()))
    } else {
        match spec_alloc_ir(st, irs[0]) {
            Ok((st1, ir1)) => match spec_alloc_all(st1, irs.drop_first()) {
                Ok((st2, rest)) => Ok((st2, seq![ir1] + rest)),
                Err(e) => Err(e),
            },
            Err(e) => Err(e),
        }
    }
}

/// The allocator's starting state: every slot free, no virtual
/// register mapped; the mapping table is sized by the sequence, as a
/// virtual register id never exceeds the index of an instruction that
/// produced it.
pub open spec fn alloc_init(len: int) -> AllocSt {
    AllocSt { used: Seq::new(REGS_N as nat, |i: int| false), map: Seq::new(len as nat, |i: int| None) }
}

/// The allocated form of a whole sequence, or the error on which the
/// single pass gives up.
pub open spec fn spec_alloc_regs(irs: Seq<IRView>) -> Result<Seq<IRView>, CompileError> {
    match spec_alloc_all(alloc_init(irs.len() as int), irs) {
        Ok((st, out)) => Ok(out),
        Err(e) => Err(e),
    }
}

/// A gathered prefix of allocated instructions, prefixed onto the
/// outcome of allocating the rest.
pub open spec fn alloc_prepend(pre: Seq<IRView>, r: Result<(AllocSt, Seq<IRView>), CompileError>)
    -> Result<(AllocSt, Seq<IRView>), CompileError> {
    match r {
        Ok((st, rest)) => Ok((st, pre + rest)),
        Err(e) => Err(e),
    }
}

/// The physical register file and the virtual-to-physical mapping:
/// one per allocation pass.
pub struct RegFile {
    pub used: Vec<bool>,
    pub reg_map: Vec<Option<usize>>,
}

/// The model of the register file.
pub open spec fn rf_view(rf: RegFile) -> AllocSt {
    AllocSt {
        used: rf.used@,
        map: rf.reg_map@.map_values(
            |o: Option<usize>|
                match o {
                    Some(v) => Some(v as int),
                    None => None,
                },
        ),
    }
}

impl RegFile {
    fn used_get(&self, i: usize) -> (r: bool)
        requires
            i < self.used@.len(),
        ensures
            r == self.used@[i as int],
    {
        self.used[i]
    }

    fn used_set(&mut self, i: usize, val: bool)
        requires
            i < old(self).used@.len(),
        ensures
            final(self).used@ == old(self).used@.update(i as int, val),
            final(self).reg_map == old(self).reg_map,
    {
        self.used[i] = val;
    }

    fn reg_map_get(&self, i: usize) -> (r: Option<usize>)
        requires
            i < self.reg_map@.len(),
        ensures
            r == self.reg_map@[i as int],
    {
        self.reg_map[i]
    }

    fn reg_map_set(&mut self, i: usize, val: usize)
        requires
            i < old(self).reg_map@.len(),
        ensures
            final(self).reg_map@ == old(self).reg_map@.update(i as int, Some(val)),
            final(self).used == old(self).used,
    {
        self.reg_map[i] = Some(val);
    }

    /// Resolve a virtual register, binding the first free slot at its
    /// first use.
    fn alloc_reg(&mut self, ir_reg: usize) -> (r: Result<usize, CompileError>)
        ensures
            match r {
                Ok(s) => spec_alloc(rf_view(*old(self)), ir_reg as int) == Ok::<
                    (AllocSt, int),
                    CompileError,
                >((rf_view(*final(self)), s as int)),
                Err(e) => spec_alloc(rf_view(*old(self)), ir_reg as int) == Err::<
                    (AllocSt, int),
                    CompileError,
                >(e) && *final(self) == *old(self),
            },
    {
        let ghost st0 = rf_view(*self);
        if ir_reg >= self.reg_map.len() {
            return Err(CompileError::Semantic);
        }
        match self.reg_map_get(ir_reg) {
            Some(s) => {
                if s < self.used.len() && self.used_get(s) {
                    Ok(s)
                } else {
                    Err(CompileError::Semantic)
                }
            },
            None => {
                let mut i: usize = 0;
                #[verifier::loop_isolation(false)]
                while i < self.used.len()
                    invariant
                        i <= self.used@.len(),
                        *self == *old(self),
                        first_free(self.used@, 0) == first_free(self.used@, i as int),
                    decreases self.used@.len() - i,
                {
                    if !self.used_get(i) {
                        self.used_set(i, true);
                        self.reg_map_set(ir_reg, i);
                        proof {
                            assert(rf_view(*self).used =~= st0.used.update(i as int, true));
                            assert(rf_view(*self).map =~= st0.map.update(
                                ir_reg as int,
                                Some(i as int),
                            ));
                        }
                        return Ok(i);
                    }
                    i = i + 1;
                }
                Err(CompileError::Resource)
            },
        }
    }

    /// Free the slot a kill names.
    fn kill(&mut self, r: usize) -> (res: Result<(), CompileError>)
        ensures
            match res {
                Ok(()) => spec_kill(rf_view(*old(self)), r as int) == Ok::<AllocSt, CompileError>(rf_view(*final(self))),
                Err(e) => spec_kill(rf_view(*old(self)), r as int) == Err::<AllocSt, CompileError>(
                    e,
                ) && *final(self) == *old(self),
            },
    {
        let ghost st0 = rf_view(*self);
        if r < self.used.len() && self.used_get(r) {
            self.used_set(r, false);
            proof {
                assert(rf_view(*self).used =~= st0.used.update(r as int, false));
                assert(rf_view(*self).map =~= st0.map);
            }
            Ok(())
        } else {
            Err(CompileError::Semantic)
        }
    }
}

/// Replace every virtual register in the sequence with a physical
/// slot, in one left-to-right pass; retired kills become
/// placeholders. On success the sequence is exactly the allocated
/// form of the input; on failure it is left partly rewritten, as the
/// single pass stops where the error arose.
pub fn alloc_regs(irv_seq: &mut Vec<IR>) -> (r: Result<(), CompileError>)
    ensures
        match r {
            Ok(()) => spec_alloc_regs(irs_view(old(irv_seq)@)) == Ok::<Seq<IRView>, CompileError>(irs_view(final(irv_seq)@)),
            Err(e) => spec_alloc_regs(irs_view(old(irv_seq)@)) == Err::<Seq<IRView>, CompileError>(
                e,
            ),
        },
{
    let ghost whole = irs_view(irv_seq@);
    let irv_len = irv_seq.len();
    let mut rf = RegFile {
        used: vec![false; REGS_N],
        reg_map: vec![None; irv_len],
    };
    proof {
        assert(rf_view(rf).used =~= alloc_init(whole.len() as int).used);
        assert(rf_view(rf).map =~= alloc_init(whole.len() as int).map);
        assert(whole.skip(0) =~= whole);
        assert(irs_view(irv_seq@).subrange(0, 0) =~= Seq::<IRView>::empty());
    }
    let mut i: usize = 0;
    #[verifier::loop_isolation(false)]
    while i < irv_len
        invariant
            i <= irv_len,
            irv_seq@.len() == irv_len,
            forall|k: int| i <= k < irv_len ==> irv_seq@[k] == old(irv_seq)@[k],
            spec_alloc_all(alloc_init(whole.len() as int), whole) == alloc_prepend(
                irs_view(irv_seq@).subrange(0, i as int),
                spec_alloc_all(rf_view(rf), whole.skip(i as int)),
            ),
        decreases irv_len - i,
    {
        let ghost pre = irs_view(irv_seq@).subrange(0, i as int);
        let ghost stc = rf_view(rf);
        proof {
            assert(whole.skip(i as int)[0] == whole[i as int]);
            assert(whole[i as int] == irv_seq@[i as int]@);
            assert(whole.skip(i as int).drop_first() =~= whole.skip(i as int + 1));
        }
        let ir = irv_seq[i];
        let info = get_irinfo(&ir);
        let resolved: IR = match info.ty {
            IRType::Reg | IRType::RegImm | IRType::RegLabel => {
                let l = match ir.lhs {
                    Some(l) => l,
                    None => {
                        return Err(CompileError::Semantic);
                    },
                };
                let pl = match rf.alloc_reg(l) {
                    Ok(pl) => pl,
                    Err(e) => {
                        return Err(e);
                    },
                };
                IR::new(ir.op, Some(pl), ir.rhs)
            },
            IRType::RegReg => {
                let (l, rr) = match (ir.lhs, ir.rhs) {
                    (Some(l), Some(rr)) => (l, rr),
                    _ => {
                        return Err(CompileError::Semantic);
                    },
                };
                let pl = match rf.alloc_reg(l) {
                    Ok(pl) => pl,
                    Err(e) => {
                        return Err(e);
                    },
                };
                let pr = match rf.alloc_reg(rr) {
                    Ok(pr) => pr,
                    Err(e) => {
                        return Err(e);
                    },
                };
                IR::new(ir.op, Some(pl), Some(pr))
            },
            IRType::Label | IRType::NoArg => ir,
        };
        let stored: IR = if matches!(resolved.op, IROp::Kill) {
            // a kill's shape is a single register, so its operand was
            // resolved just above and cannot be absent
            let pl = match resolved.lhs {
                Some(pl) => pl,
                None => {
                    proof {
                        assert(false);
                    }
                    return Err(CompileError::Semantic);
                },
            };
            match rf.kill(pl) {
                Ok(()) => {},
                Err(e) => {
                    return Err(e);
                },
            }
            IR::new(IROp::Nop, resolved.lhs, resolved.rhs)
        } else {
            resolved
        };
        irv_seq[i] = stored;
        proof {
            assert(spec_alloc_ir(stc, whole[i as int]) == Ok::<(AllocSt, IRView), CompileError>(
                (rf_view(rf), stored@),
            ));
            assert(irs_view(irv_seq@).subrange(0, i as int) =~= pre);
            assert(irs_view(irv_seq@).subrange(0, i as int + 1) =~= pre.push(stored@));
            match spec_alloc_all(rf_view(rf), whole.skip(i as int + 1)) {
                Ok((st2, rest)) => {
                    assert(pre + (seq![stored@] + rest) =~= pre.push(stored@) + rest);
                },
                Err(_) => {},
            }
        }
        i = i + 1;
    }
    proof {
        assert(spec_alloc_all(rf_view(rf), whole.skip(i as int)) == Ok::<
            (AllocSt, Seq<IRView>),
            CompileError,
        >((rf_view(rf), Seq::empty())));
        assert(irs_view(irv_seq@).subrange(0, i as int) =~= irs_view(irv_seq@));
        assert(irs_view(irv_seq@) + Seq::<IRView>::empty() =~= irs_view(irv_seq@));
    }
    Ok(())
}

} // verus!
