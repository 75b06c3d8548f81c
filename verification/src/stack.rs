//! The register stack: type-checked, write-once runtime value storage for a
//! single execution.
use vstd::prelude::*;
use crate::model::{
    dup_stack_value, lemma_member_height_lt, literal_kind, plain_height, pv, spec_literal_kind,
    sv, Literal, PlainV, Plaintext, StackValue, ValueV,
};
use crate::program::{iface_members, Operand, PlaintextType, Program, Register, VmError};

verus! {

broadcast use vstd::std_specs::vec::group_vec_axioms;

/// The runtime register file of one execution. A register starts empty and
/// is written at most once.
pub struct Stack {
    pub regs: Vec<Option<StackValue>>,
}

/// The mathematical contents of the register file.
pub open spec fn stack_view(s: Stack) -> Seq<Option<ValueV>> {
    Seq::new(
        s.regs@.len(),
        |i: int|
            if 0 <= i < s.regs@.len() {
                match s.regs@[i] {
                    Some(v) => Some(sv(v)),
                    None => None,
                }
            } else {
                None
            },
    )
}

/// What loading one operand yields: a literal is its own value, a register
/// yields its current contents or fails if unresolved.
pub open spec fn spec_load(regs: Seq<Option<ValueV>>, op: Operand) -> Result<ValueV, VmError> {
    match op {
        Operand::Literal(l) => Ok(ValueV::Plaintext(PlainV::Literal(l))),
        Operand::Register(r) => {
            if r.locator < regs.len() && regs[r.locator as int] is Some {
                Ok(regs[r.locator as int]->Some_0)
            } else {
                Err(VmError::UnresolvedRegister)
            }
        },
    }
}

/// What storing to a register yields: the updated register file, or a
/// failure when the register lies out of range or was already written.
pub open spec fn spec_store(regs: Seq<Option<ValueV>>, dst: Register, v: ValueV) -> Result<
    Seq<Option<ValueV>>,
    VmError,
> {
    if dst.locator >= regs.len() {
        Err(VmError::UnresolvedRegister)
    } else if regs[dst.locator as int] is Some {
        Err(VmError::DoubleWrite)
    } else {
        Ok(regs.update(dst.locator as int, Some(v)))
    }
}

/// Whether a plaintext value has the given plaintext type under the
/// program's definitions. An interface value matches when the named
/// definition exists, the member count agrees, and every member agrees in
/// name and matches its declared type, positionally.
pub open spec fn spec_matches(p: PlainV, t: PlaintextType, prog: Program) -> bool
    decreases p,
{
    match t {
        PlaintextType::Literal(k) => p matches PlainV::Literal(l) && spec_literal_kind(l) == k,
        PlaintextType::Interface(name) => match p {
            PlainV::Literal(_) => false,
            PlainV::Interface(ms) => match iface_members(prog, name) {
                None => false,
                Some(decl) => {
                    &&& ms.len() == decl.len()
                    &&& forall|i: int|
                        0 <= i < ms.len() ==> (#[trigger] ms[i]).0 == decl[i].0 && spec_matches(
                            ms[i].1,
                            decl[i].1,
                            prog,
                        )
                },
            },
        },
    }
}

impl Stack {
    /// Creates a register file with the given number of empty registers.
    pub fn new(count: usize) -> (s: Stack)
        ensures
            stack_view(s).len() == count as int,
            forall|i: int| 0 <= i < count as int ==> stack_view(s)[i] is None,
    {
        let mut regs: Vec<Option<StackValue>> = Vec::new();
        let mut i: usize = 0;
        while i < count
            invariant
                i <= count,
                regs@.len() == i as int,
                forall|j: int| 0 <= j < i as int ==> regs@[j] is None,
            decreases count - i,
        {
            regs.push(None);
            i = i + 1;
        }
        Stack { regs }
    }

    /// Loads the value an operand refers to.
    pub fn load(&self, op: &Operand) -> (r: Result<StackValue, VmError>)
        ensures
            match r {
                Ok(v) => spec_load(stack_view(*self), *op) == Ok::<ValueV, VmError>(sv(v)),
                Err(e) => spec_load(stack_view(*self), *op) == Err::<ValueV, VmError>(e),
            },
    {
        match op {
            Operand::Literal(l) => Ok(StackValue::Plaintext(Plaintext::Literal(*l))),
            Operand::Register(reg) => {
                let idx = reg.locator;
                if idx < self.regs.len() as u64 {
                    match &self.regs[idx as usize] {
                        Some(v) => Ok(dup_stack_value(v)),
                        None => Err(VmError::UnresolvedRegister),
                    }
                } else {
                    Err(VmError::UnresolvedRegister)
                }
            },
        }
    }

    /// Stores a value to a register, failing on a double write or an
    /// out-of-range destination, in which case the register file is
    /// unchanged.
    pub fn store(&mut self, dst: Register, v: StackValue) -> (r: Result<(), VmError>)
        ensures
            match spec_store(stack_view(*old(self)), dst, sv(v)) {
                Ok(nv) => r is Ok && stack_view(*final(self)) == nv,
                Err(e) => r == Err::<(), VmError>(e) && stack_view(*final(self)) == stack_view(
                    *old(self),
                ),
            },
    {
        let idx = dst.locator;
        if idx >= self.regs.len() as u64 {
            return Err(VmError::UnresolvedRegister);
        }
        let i = idx as usize;
        if self.regs[i].is_some() {
            return Err(VmError::DoubleWrite);
        }
        self.regs[i] = Some(v);
        proof {
            assert(stack_view(*self) =~= stack_view(*old(self)).update(
                dst.locator as int,
                Some(sv(v)),
            ));
        }
        Ok(())
    }

    /// Whether a plaintext value matches the given plaintext type.
    pub fn matches_plaintext(p: &Plaintext, t: &PlaintextType, prog: &Program) -> (b: bool)
        ensures
            b == spec_matches(pv(*p), *t, *prog),
        decreases plain_height(*p),
    {
        match (p, t) {
            (Plaintext::Literal(l), PlaintextType::Literal(k)) => {
                let lk = literal_kind(l);
                lk == *k
            },
            (Plaintext::Literal(_), PlaintextType::Interface(_)) => false,
            (Plaintext::Interface(_), PlaintextType::Literal(_)) => false,
            (Plaintext::Interface(ms), PlaintextType::Interface(name)) => {
                match prog.get_interface(*name) {
                    None => false,
                    Some(d) => {
                        if ms.len() != d.members.len() {
                            return false;
                        }
                        let ghost mseq = pv(*p)->Interface_0;
                        let ghost decl = d.members@;
                        let mut i: usize = 0;
                        while i < ms.len()
                            invariant
                                *p == Plaintext::Interface(*ms),
                                *t == PlaintextType::Interface(*name),
                                i <= ms.len(),
                                ms@.len() == d.members@.len(),
                                mseq == pv(*p)->Interface_0,
                                decl == d.members@,
                                mseq.len() == ms@.len(),
                                iface_members(*prog, *name) == Some(d.members@),
                                forall|j: int|
                                    0 <= j < i as int ==> (#[trigger] mseq[j]).0 == decl[j].0
                                        && spec_matches(mseq[j].1, decl[j].1, *prog),
                            decreases ms.len() - i,
                        {
                            if ms[i].0 != d.members[i].0 {
                                proof {
                                    assert(mseq[i as int].0 != decl[i as int].0);
                                }
                                return false;
                            }
                            proof {
                                lemma_member_height_lt(*ms, i as int);
                            }
                            let ok = Stack::matches_plaintext(&ms[i].1, &d.members[i].1, prog);
                            if !ok {
                                proof {
                                    assert(!spec_matches(mseq[i as int].1, decl[i as int].1, *prog));
                                }
                                return false;
                            }
                            i = i + 1;
                        }
                        true
                    },
                }
            },
        }
    }
}

} // verus!
