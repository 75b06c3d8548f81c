//! The cast instruction: converts a list of operand values into an
//! interface aggregate or a record, under the program's type definitions.
use vstd::prelude::*;
use crate::model::{
    dup_plaintext, names_distinct, pv, Address, BalanceV, Entry, EntryV, Literal, OwnerV, PlainV,
    Plaintext, Record, RecordV, StackValue, ValueV, BALANCE_BOUND,
};
use crate::program::{
    iface_members, record_def_of, EntryType, Opcode, Operand, PlaintextType, Program, Register,
    RegisterType, ValueType, VmError,
};
use crate::stack::{spec_load, spec_matches, spec_store, stack_view, Stack};

verus! {

broadcast use vstd::std_specs::vec::group_vec_axioms;

/// Casts the operands into the declared type.
#[derive(Debug, PartialEq, Eq, Clone)]
pub struct Cast {
    pub operands: Vec<Operand>,
    pub destination: Register,
    pub value_type: ValueType,
}

/// The mathematical values of a list of stack values.
pub open spec fn seq_sv(s: Seq<StackValue>) -> Seq<ValueV> {
    Seq::new(
        s.len(),
        |i: int|
            if 0 <= i < s.len() {
                crate::model::sv(s[i])
            } else {
                ValueV::Plaintext(PlainV::Literal(Literal::Boolean(false)))
            },
    )
}

/// The mathematical values of a built member list.
pub open spec fn pm_seq(ms: Seq<(u64, Plaintext)>) -> Seq<(u64, PlainV)> {
    Seq::new(
        ms.len(),
        |i: int|
            if 0 <= i < ms.len() {
                (ms[i].0, pv(ms[i].1))
            } else {
                (0u64, PlainV::Literal(Literal::Boolean(false)))
            },
    )
}

/// The mathematical values of a built entry list.
pub open spec fn pe_seq(es: Seq<(u64, Entry)>) -> Seq<(u64, EntryV)> {
    Seq::new(
        es.len(),
        |i: int|
            if 0 <= i < es.len() {
                (es[i].0, crate::model::ev(es[i].1))
            } else {
                (0u64, EntryV::Constant(PlainV::Literal(Literal::Boolean(false))))
            },
    )
}

/// Loads every operand in order; the first failure is the result.
pub open spec fn spec_loads(regs: Seq<Option<ValueV>>, ops: Seq<Operand>) -> Result<
    Seq<ValueV>,
    VmError,
>
    decreases ops.len(),
{
    if ops.len() == 0 {
        Ok(Seq::empty())
    } else {
        match spec_loads(regs, ops.drop_last()) {
            Err(e) => Err(e),
            Ok(vs) => match spec_load(regs, ops.last()) {
                Ok(v) => Ok(vs.push(v)),
                Err(e) => Err(e),
            },
        }
    }
}

/// Pairs the inputs positionally with the declared interface members.
/// A record input is an illegal cast; a plaintext whose type differs from
/// the declared member type is a type mismatch; the first failure, in input
/// order, is the result.
pub open spec fn spec_iface_members(
    inputs: Seq<ValueV>,
    decl: Seq<(u64, PlaintextType)>,
    prog: Program,
) -> Result<Seq<(u64, PlainV)>, VmError>
    decreases inputs.len(),
{
    if inputs.len() == 0 {
        Ok(Seq::empty())
    } else {
        match spec_iface_members(inputs.drop_last(), decl.drop_last(), prog) {
            Err(e) => Err(e),
            Ok(ms) => match inputs.last() {
                ValueV::Record(_) => Err(VmError::IllegalCast),
                ValueV::Plaintext(p) => {
                    if spec_matches(p, decl[inputs.len() - 1].1, prog) {
                        Ok(ms.push((decl[inputs.len() - 1].0, p)))
                    } else {
                        Err(VmError::TypeMismatch)
                    }
                },
            },
        }
    }
}

/// The plaintext shape a record entry type declares.
pub open spec fn entry_plain_type(et: EntryType) -> PlaintextType {
    match et {
        EntryType::Constant(t) => t,
        EntryType::Public(t) => t,
        EntryType::Private(t) => t,
    }
}

/// Wraps an entry value under the visibility its entry type declares.
pub open spec fn wrap_entry(et: EntryType, p: PlainV) -> EntryV {
    match et {
        EntryType::Constant(_) => EntryV::Constant(p),
        EntryType::Public(_) => EntryV::Public(p),
        EntryType::Private(_) => EntryV::Private(p),
    }
}

/// Pairs the remaining inputs positionally with the declared record
/// entries, wrapping each under its declared visibility.
pub open spec fn spec_rec_entries(
    inputs: Seq<ValueV>,
    decl: Seq<(u64, EntryType)>,
    prog: Program,
) -> Result<Seq<(u64, EntryV)>, VmError>
    decreases inputs.len(),
{
    if inputs.len() == 0 {
        Ok(Seq::empty())
    } else {
        match spec_rec_entries(inputs.drop_last(), decl.drop_last(), prog) {
            Err(e) => Err(e),
            Ok(es) => match inputs.last() {
                ValueV::Record(_) => Err(VmError::IllegalCast),
                ValueV::Plaintext(p) => {
                    if spec_matches(p, entry_plain_type(decl[inputs.len() - 1].1), prog) {
                        Ok(es.push((decl[inputs.len() - 1].0, wrap_entry(decl[inputs.len() - 1].1, p))))
                    } else {
                        Err(VmError::TypeMismatch)
                    }
                },
            },
        }
    }
}

/// The record owner built from the first input: it must be an address
/// literal, wrapped publicly or privately per the record definition.
pub open spec fn spec_owner(v: ValueV, owner_public: bool) -> Result<OwnerV, VmError> {
    match v {
        ValueV::Plaintext(PlainV::Literal(Literal::Address(a))) => {
            if owner_public {
                Ok(OwnerV::Public(a))
            } else {
                Ok(OwnerV::Private(PlainV::Literal(Literal::Address(a))))
            }
        },
        _ => Err(VmError::InvalidValue),
    }
}

/// The record balance built from the second input: it must be a 64-bit
/// unsigned literal strictly below `2^52`, wrapped per the record
/// definition.
pub open spec fn spec_balance(v: ValueV, balance_public: bool) -> Result<BalanceV, VmError> {
    match v {
        ValueV::Plaintext(PlainV::Literal(Literal::U64(b))) => {
            if b < BALANCE_BOUND {
                if balance_public {
                    Ok(BalanceV::Public(b))
                } else {
                    Ok(BalanceV::Private(PlainV::Literal(Literal::U64(b))))
                }
            } else {
                Err(VmError::InvalidValue)
            }
        },
        _ => Err(VmError::InvalidValue),
    }
}

/// The value a cast produces from its loaded inputs, or the exact failure,
/// following the declared target type.
pub open spec fn spec_cast_value(vt: ValueType, loaded: Seq<ValueV>, prog: Program) -> Result<
    ValueV,
    VmError,
> {
    match vt {
        ValueType::Record(name) => {
            if loaded.len() < 2 {
                Err(VmError::Arity)
            } else {
                match record_def_of(prog, name) {
                    None => Err(VmError::Lookup),
                    Some((owner_public, balance_public, decl)) => {
                        match spec_owner(loaded[0], owner_public) {
                            Err(e) => Err(e),
                            Ok(owner) => match spec_balance(loaded[1], balance_public) {
                                Err(e) => Err(e),
                                Ok(balance) => {
                                    if loaded.len() - 2 != decl.len() {
                                        Err(VmError::Arity)
                                    } else {
                                        match spec_rec_entries(
                                            loaded.skip(2),
                                            decl,
                                            prog,
                                        ) {
                                            Err(e) => Err(e),
                                            Ok(entries) => {
                                                if !names_distinct(entries) {
                                                    Err(VmError::InvalidValue)
                                                } else {
                                                    Ok(
                                                        ValueV::Record(
                                                            RecordV { owner, balance, entries },
                                                        ),
                                                    )
                                                }
                                            },
                                        }
                                    }
                                },
                            },
                        }
                    },
                }
            }
        },
        ValueType::Constant(pt) | ValueType::Public(pt) | ValueType::Private(pt) => {
            match pt {
                PlaintextType::Literal(_) => Err(VmError::UnsupportedCast),
                PlaintextType::Interface(name) => {
                    if loaded.len() == 0 {
                        Err(VmError::Arity)
                    } else {
                        match iface_members(prog, name) {
                            None => Err(VmError::Lookup),
                            Some(decl) => {
                                if loaded.len() != decl.len() {
                                    Err(VmError::Arity)
                                } else {
                                    match spec_iface_members(loaded, decl, prog) {
                                        Err(e) => Err(e),
                                        Ok(ms) => Ok(
                                            ValueV::Plaintext(PlainV::Interface(ms)),
                                        ),
                                    }
                                }
                            },
                        }
                    }
                },
            }
        },
    }
}

/// What evaluating a cast does to the register file: load the operands,
/// build the target value, and store it to the destination; the first
/// failure is the result, and a failure leaves the registers unchanged.
pub open spec fn spec_evaluate(c: Cast, regs: Seq<Option<ValueV>>, prog: Program) -> Result<
    Seq<Option<ValueV>>,
    VmError,
> {
    match spec_loads(regs, c.operands@) {
        Err(e) => Err(e),
        Ok(loaded) => match spec_cast_value(c.value_type, loaded, prog) {
            Err(e) => Err(e),
            Ok(v) => spec_store(regs, c.destination, v),
        },
    }
}

impl Cast {
    /// Builds a cast instruction.
    pub fn new(operands: Vec<Operand>, destination: Register, value_type: ValueType) -> (c: Cast)
        ensures
            c.operands@ == operands@,
            c.destination == destination,
            c.value_type == value_type,
    {
        Cast { operands, destination, value_type }
    }

    /// Returns the opcode.
    pub fn opcode() -> (r: Opcode)
        ensures
            r is Cast,
    {
        Opcode::Cast
    }

    /// Returns the operands in the operation.
    pub fn operands(&self) -> (r: &Vec<Operand>)
        ensures
            r@ == self.operands@,
    {
        &self.operands
    }

    /// Returns the destination register.
    pub fn destination(&self) -> (r: &Register)
        ensures
            *r == self.destination,
    {
        &self.destination
    }

    /// Returns the casted value type.
    pub fn value_type(&self) -> (r: &ValueType)
        ensures
            *r == self.value_type,
    {
        &self.value_type
    }

    /// Evaluates the instruction against a register stack: loads every
    /// operand, builds the declared interface or record value, and stores
    /// it to the destination. On failure the stack is unchanged.
    pub fn evaluate(&self, stack: &mut Stack, prog: &Program) -> (r: Result<(), VmError>)
        ensures
            match spec_evaluate(*self, stack_view(*old(stack)), *prog) {
                Ok(nv) => r is Ok && stack_view(*final(stack)) == nv,
                Err(e) => r == Err::<(), VmError>(e) && stack_view(*final(stack)) == stack_view(
                    *old(stack),
                ),
            },
    {
        let ghost regs0 = stack_view(*stack);
        let ghost ops = self.operands@;

        // Load the operands in order.
        let mut inputs: Vec<StackValue> = Vec::new();
        let mut i: usize = 0;
        proof {
            assert(ops.take(0) =~= Seq::<Operand>::empty());
            assert(seq_sv(inputs@) =~= Seq::<ValueV>::empty());
        }
        while i < self.operands.len()
            invariant
                stack_view(*stack) == regs0,
                ops == self.operands@,
                i <= self.operands.len(),
                inputs@.len() == i as int,
                spec_loads(regs0, ops.take(i as int)) == Ok::<Seq<ValueV>, VmError>(
                    seq_sv(inputs@),
                ),
            decreases self.operands.len() - i,
        {
            proof {
                assert(ops.take(i + 1).drop_last() =~= ops.take(i as int));
                assert(ops.take(i + 1).last() == ops[i as int]);
            }
            let ghost prev = inputs@;
            match stack.load(&self.operands[i]) {
                Ok(v) => {
                    inputs.push(v);
                    proof {
                        assert(inputs@.drop_last() =~= prev);
                        assert(seq_sv(inputs@) =~= seq_sv(prev).push(
                            crate::model::sv(inputs@.last()),
                        ));
                    }
                },
                Err(e) => {
                    proof {
                        lemma_spec_loads_prefix_err(regs0, ops, i as int, e);
                    }
                    return Err(e);
                },
            }
            i = i + 1;
        }
        proof {
            assert(ops.take(ops.len() as int) =~= ops);
        }
        let ghost loaded = seq_sv(inputs@);

        // Build the declared value.
        let built: StackValue = match &self.value_type {
            ValueType::Record(name) => {
                if inputs.len() < 2 {
                    return Err(VmError::Arity);
                }
                let d = match prog.get_record(*name) {
                    Some(d) => d,
                    None => {
                        return Err(VmError::Lookup);
                    },
                };
                // The first input must be an address literal.
                let owner: crate::model::Owner = match &inputs[0] {
                    StackValue::Plaintext(Plaintext::Literal(Literal::Address(a))) => {
                        if d.owner_public {
                            crate::model::Owner::Public(*a)
                        } else {
                            crate::model::Owner::Private(
                                Plaintext::Literal(Literal::Address(*a)),
                            )
                        }
                    },
                    _ => {
                        return Err(VmError::InvalidValue);
                    },
                };
                // The second input must be a u64 literal below the bound.
                let balance: crate::model::Balance = match &inputs[1] {
                    StackValue::Plaintext(Plaintext::Literal(Literal::U64(b))) => {
                        if *b >= BALANCE_BOUND {
                            return Err(VmError::InvalidValue);
                        }
                        if d.balance_public {
                            crate::model::Balance::Public(*b)
                        } else {
                            crate::model::Balance::Private(
                                Plaintext::Literal(Literal::U64(*b)),
                            )
                        }
                    },
                    _ => {
                        return Err(VmError::InvalidValue);
                    },
                };
                // Pair the remaining inputs with the declared entries.
                if inputs.len() - 2 != d.entries.len() {
                    return Err(VmError::Arity);
                }
                let ghost decl = d.entries@;
                let ghost rname = *name;
                let mut entries: Vec<(u64, Entry)> = Vec::new();
                let mut j: usize = 2;
                proof {
                    assert(loaded.skip(2).take(0) =~= Seq::<ValueV>::empty());
                    assert(decl.take(0) =~= Seq::<(u64, EntryType)>::empty());
                    assert(pe_seq(entries@) =~= Seq::<(u64, EntryV)>::empty());
                }
                while j < inputs.len()
                    invariant
                        2 <= j <= inputs@.len(),
                        stack_view(*old(stack)) == regs0,
                        stack_view(*stack) == regs0,
                        ops == self.operands@,
                        spec_loads(regs0, ops) == Ok::<Seq<ValueV>, VmError>(loaded),
                        self.value_type == ValueType::Record(rname),
                        record_def_of(*prog, rname) == Some(
                            (d.owner_public, d.balance_public, decl),
                        ),
                        spec_owner(loaded[0], d.owner_public) is Ok,
                        spec_balance(loaded[1], d.balance_public) is Ok,
                        loaded == seq_sv(inputs@),
                        loaded.len() == inputs@.len(),
                        decl == d.entries@,
                        inputs@.len() - 2 == decl.len(),
                        entries@.len() == j - 2,
                        spec_rec_entries(
                            loaded.skip(2).take(j - 2),
                            decl.take(j - 2),
                            *prog,
                        ) == Ok::<Seq<(u64, EntryV)>, VmError>(pe_seq(entries@)),
                    decreases inputs.len() - j,
                {
                    proof {
                        let k = j - 2;
                        assert(loaded.skip(2).take(k + 1).drop_last() =~= loaded.skip(2).take(
                            k as int,
                        ));
                        assert(decl.take(k + 1).drop_last() =~= decl.take(k as int));
                        assert(loaded.skip(2).take(k + 1).last() == loaded[j as int]);
                        assert(loaded[j as int] == crate::model::sv(inputs@[j as int]));
                    }
                    let et: PlaintextType = match &d.entries[j - 2].1 {
                        EntryType::Constant(t) => *t,
                        EntryType::Public(t) => *t,
                        EntryType::Private(t) => *t,
                    };
                    match &inputs[j] {
                        StackValue::Record(_) => {
                            proof {
                                lemma_spec_rec_entries_stops(
                                    loaded.skip(2),
                                    decl,
                                    *prog,
                                    (j - 2) as int,
                                );
                            }
                            return Err(VmError::IllegalCast);
                        },
                        StackValue::Plaintext(p) => {
                            if !Stack::matches_plaintext(p, &et, prog) {
                                proof {
                                    lemma_spec_rec_entries_stops(
                                        loaded.skip(2),
                                        decl,
                                        *prog,
                                        (j - 2) as int,
                                    );
                                }
                                return Err(VmError::TypeMismatch);
                            }
                            let pd = dup_plaintext(p);
                            let wrapped: Entry = match &d.entries[j - 2].1 {
                                EntryType::Constant(_) => Entry::Constant(pd),
                                EntryType::Public(_) => Entry::Public(pd),
                                EntryType::Private(_) => Entry::Private(pd),
                            };
                            let ghost prev_entries = entries@;
                            entries.push((d.entries[j - 2].0, wrapped));
                            proof {
                                let k = j - 2;
                                assert(entries@.drop_last() =~= prev_entries);
                                assert(crate::model::ev(entries@.last().1) == wrap_entry(
                                    decl[k as int].1,
                                    pv(*p),
                                ));
                                assert(pe_seq(entries@) =~= pe_seq(prev_entries).push(
                                    (decl[k as int].0, wrap_entry(decl[k as int].1, pv(*p))),
                                ));
                                assert(spec_rec_entries(
                                    loaded.skip(2).take(k + 1),
                                    decl.take(k + 1),
                                    *prog,
                                ) == Ok::<Seq<(u64, EntryV)>, VmError>(pe_seq(entries@)));
                            }
                        },
                    }
                    j = j + 1;
                }
                proof {
                    assert(loaded.skip(2).take(loaded.skip(2).len() as int) =~= loaded.skip(2));
                    assert(decl.take(decl.len() as int) =~= decl);
                }
                // Entry names must be distinct for the record to be valid.
                let mut a: usize = 0;
                while a < entries.len()
                    invariant
                        a <= entries@.len(),
                        stack_view(*old(stack)) == regs0,
                        stack_view(*stack) == regs0,
                        ops == self.operands@,
                        spec_loads(regs0, ops) == Ok::<Seq<ValueV>, VmError>(loaded),
                        self.value_type == ValueType::Record(rname),
                        record_def_of(*prog, rname) == Some(
                            (d.owner_public, d.balance_public, decl),
                        ),
                        spec_owner(loaded[0], d.owner_public) is Ok,
                        spec_balance(loaded[1], d.balance_public) is Ok,
                        2 <= loaded.len(),
                        loaded.len() - 2 == decl.len(),
                        spec_rec_entries(loaded.skip(2), decl, *prog) == Ok::<
                            Seq<(u64, EntryV)>,
                            VmError,
                        >(pe_seq(entries@)),
                        forall|x: int, y: int|
                            0 <= x < y < entries@.len() && x < a as int ==> (
                            #[trigger] entries@[x]).0 != (#[trigger] entries@[y]).0,
                    decreases entries.len() - a,
                {
                    let mut b: usize = a + 1;
                    while b < entries.len()
                        invariant
                            a < entries@.len(),
                            a + 1 <= b <= entries@.len(),
                            stack_view(*old(stack)) == regs0,
                            stack_view(*stack) == regs0,
                            ops == self.operands@,
                            spec_loads(regs0, ops) == Ok::<Seq<ValueV>, VmError>(loaded),
                            self.value_type == ValueType::Record(rname),
                            record_def_of(*prog, rname) == Some(
                                (d.owner_public, d.balance_public, decl),
                            ),
                            spec_owner(loaded[0], d.owner_public) is Ok,
                            spec_balance(loaded[1], d.balance_public) is Ok,
                            2 <= loaded.len(),
                            loaded.len() - 2 == decl.len(),
                            spec_rec_entries(loaded.skip(2), decl, *prog) == Ok::<
                                Seq<(u64, EntryV)>,
                                VmError,
                            >(pe_seq(entries@)),
                            forall|y: int|
                                a < y < b as int ==> entries@[a as int].0 != (
                                #[trigger] entries@[y]).0,
                            forall|x: int, y: int|
                                0 <= x < y < entries@.len() && x < a as int ==> (
                                #[trigger] entries@[x]).0 != (#[trigger] entries@[y]).0,
                        decreases entries.len() - b,
                    {
                        if entries[a].0 == entries[b].0 {
                            proof {
                                assert(pe_seq(entries@)[a as int].0 == pe_seq(
                                    entries@,
                                )[b as int].0);
                                assert(!names_distinct(pe_seq(entries@)));
                            }
                            return Err(VmError::InvalidValue);
                        }
                        b = b + 1;
                    }
                    a = a + 1;
                }
                proof {
                    assert forall|x: int, y: int|
                        0 <= x < y < pe_seq(entries@).len() implies (#[trigger] pe_seq(
                        entries@,
                    )[x]).0 != (#[trigger] pe_seq(entries@)[y]).0 by {
                        assert(entries@[x].0 != entries@[y].0);
                    }
                    assert(names_distinct(pe_seq(entries@)));
                }
                let rec = Record { owner, balance, entries };
                proof {
                    assert(crate::model::rv(rec).entries =~= pe_seq(rec.entries@));
                }
                StackValue::Record(rec)
            },
            ValueType::Constant(pt) | ValueType::Public(pt) | ValueType::Private(pt) => {
                let iname: u64 = match pt {
                    PlaintextType::Literal(_) => {
                        return Err(VmError::UnsupportedCast);
                    },
                    PlaintextType::Interface(name) => *name,
                };
                if inputs.len() == 0 {
                    return Err(VmError::Arity);
                }
                let d = match prog.get_interface(iname) {
                    Some(d) => d,
                    None => {
                        return Err(VmError::Lookup);
                    },
                };
                if inputs.len() != d.members.len() {
                    return Err(VmError::Arity);
                }
                let ghost decl = d.members@;
                let ghost iname2 = iname;
                let mut members: Vec<(u64, Plaintext)> = Vec::new();
                let mut j: usize = 0;
                proof {
                    assert(loaded.take(0) =~= Seq::<ValueV>::empty());
                    assert(decl.take(0) =~= Seq::<(u64, PlaintextType)>::empty());
                    assert(pm_seq(members@) =~= Seq::<(u64, PlainV)>::empty());
                }
                while j < inputs.len()
                    invariant
                        j <= inputs@.len(),
                        stack_view(*old(stack)) == regs0,
                        stack_view(*stack) == regs0,
                        ops == self.operands@,
                        spec_loads(regs0, ops) == Ok::<Seq<ValueV>, VmError>(loaded),
                        match self.value_type {
                            ValueType::Constant(p2) => p2 == PlaintextType::Interface(iname2),
                            ValueType::Public(p2) => p2 == PlaintextType::Interface(iname2),
                            ValueType::Private(p2) => p2 == PlaintextType::Interface(iname2),
                            ValueType::Record(_) => false,
                        },
                        iface_members(*prog, iname2) == Some(decl),
                        loaded == seq_sv(inputs@),
                        loaded.len() == inputs@.len(),
                        loaded.len() != 0,
                        decl == d.members@,
                        inputs@.len() == decl.len(),
                        members@.len() == j as int,
                        spec_iface_members(loaded.take(j as int), decl.take(j as int), *prog)
                            == Ok::<Seq<(u64, PlainV)>, VmError>(pm_seq(members@)),
                    decreases inputs.len() - j,
                {
                    proof {
                        assert(loaded.take(j + 1).drop_last() =~= loaded.take(j as int));
                        assert(decl.take(j + 1).drop_last() =~= decl.take(j as int));
                        assert(loaded.take(j + 1).last() == loaded[j as int]);
                        assert(loaded[j as int] == crate::model::sv(inputs@[j as int]));
                    }
                    match &inputs[j] {
                        StackValue::Record(_) => {
                            proof {
                                lemma_spec_iface_members_stops(loaded, decl, *prog, j as int);
                            }
                            return Err(VmError::IllegalCast);
                        },
                        StackValue::Plaintext(p) => {
                            if !Stack::matches_plaintext(p, &d.members[j].1, prog) {
                                proof {
                                    lemma_spec_iface_members_stops(loaded, decl, *prog, j as int);
                                }
                                return Err(VmError::TypeMismatch);
                            }
                            let pd = dup_plaintext(p);
                            let ghost prev_members = members@;
                            members.push((d.members[j].0, pd));
                            proof {
                                assert(members@.drop_last() =~= prev_members);
                                assert(pv(members@.last().1) == pv(*p));
                                assert(pm_seq(members@) =~= pm_seq(prev_members).push(
                                    (decl[j as int].0, pv(*p)),
                                ));
                                assert(spec_iface_members(
                                    loaded.take(j + 1),
                                    decl.take(j + 1),
                                    *prog,
                                ) == Ok::<Seq<(u64, PlainV)>, VmError>(pm_seq(members@)));
                            }
                        },
                    }
                    j = j + 1;
                }
                proof {
                    assert(loaded.take(loaded.len() as int) =~= loaded);
                    assert(decl.take(decl.len() as int) =~= decl);
                }
                let pt_built = Plaintext::Interface(members);
                proof {
                    assert(pv(pt_built)->Interface_0 =~= pm_seq(members@));
                }
                StackValue::Plaintext(pt_built)
            },
        };

        // Store the built value to the destination register.
        let ghost builtv = crate::model::sv(built);
        proof {
            assert(spec_cast_value(self.value_type, loaded, *prog) == Ok::<ValueV, VmError>(
                builtv,
            ));
        }
        let res = stack.store(self.destination, built);
        res
    }
}

/// Checks the declared interface member types against the input types,
/// positionally; a record input type, or a plaintext type that differs from
/// the declared member type, is a type mismatch.
pub open spec fn spec_check_member_types(
    decl: Seq<(u64, PlaintextType)>,
    its: Seq<RegisterType>,
) -> Result<(), VmError>
    decreases its.len(),
{
    if its.len() == 0 {
        Ok(())
    } else {
        match spec_check_member_types(decl.drop_last(), its.drop_last()) {
            Err(e) => Err(e),
            Ok(_) => match its.last() {
                RegisterType::Record(_) => Err(VmError::TypeMismatch),
                RegisterType::Plaintext(pt) => {
                    if pt == decl[its.len() - 1].1 {
                        Ok(())
                    } else {
                        Err(VmError::TypeMismatch)
                    }
                },
            },
        }
    }
}

/// Checks the declared record entry types against the remaining input
/// types, positionally.
pub open spec fn spec_check_entry_types(
    decl: Seq<(u64, EntryType)>,
    its: Seq<RegisterType>,
) -> Result<(), VmError>
    decreases its.len(),
{
    if its.len() == 0 {
        Ok(())
    } else {
        match spec_check_entry_types(decl.drop_last(), its.drop_last()) {
            Err(e) => Err(e),
            Ok(_) => match its.last() {
                RegisterType::Record(_) => Err(VmError::TypeMismatch),
                RegisterType::Plaintext(pt) => {
                    if pt == entry_plain_type(decl[its.len() - 1].1) {
                        Ok(())
                    } else {
                        Err(VmError::TypeMismatch)
                    }
                },
            },
        }
    }
}

/// The register type a cast produces from the given input types, or the
/// exact failure. The operand count is checked against the input-type
/// count before any type is inspected. For a record target, the first two
/// input types (the intended owner and balance) are not checked; only the
/// remaining ones are paired with the declared entries.
pub open spec fn spec_output_type(c: Cast, its: Seq<RegisterType>, prog: Program) -> Result<
    RegisterType,
    VmError,
> {
    if its.len() != c.operands@.len() {
        Err(VmError::Arity)
    } else {
        match c.value_type {
            ValueType::Record(name) => match record_def_of(prog, name) {
                None => Err(VmError::Lookup),
                Some((op, bp, decl)) => {
                    if its.len() < 2 || its.len() - 2 != decl.len() {
                        Err(VmError::Arity)
                    } else {
                        match spec_check_entry_types(decl, its.skip(2)) {
                            Err(e) => Err(e),
                            Ok(_) => Ok(RegisterType::Record(name)),
                        }
                    }
                },
            },
            ValueType::Constant(pt) | ValueType::Public(pt) | ValueType::Private(pt) => {
                match pt {
                    PlaintextType::Literal(_) => Err(VmError::UnsupportedCast),
                    PlaintextType::Interface(name) => match iface_members(prog, name) {
                        None => Err(VmError::Lookup),
                        Some(decl) => {
                            if its.len() != decl.len() {
                                Err(VmError::Arity)
                            } else {
                                match spec_check_member_types(decl, its) {
                                    Err(e) => Err(e),
                                    Ok(_) => Ok(RegisterType::Plaintext(pt)),
                                }
                            }
                        },
                    },
                }
            },
        }
    }
}

impl Cast {
    /// Returns the output type from the given program and input types,
    /// without consulting any register. An input-type count that differs
    /// from the operand count is rejected before any type is inspected.
    pub fn output_type(&self, prog: &Program, input_types: &Vec<RegisterType>) -> (r: Result<
        RegisterType,
        VmError,
    >)
        ensures
            r == spec_output_type(*self, input_types@, *prog),
            input_types@.len() != self.operands@.len() ==> r == Err::<RegisterType, VmError>(
                VmError::Arity,
            ),
    {
        if input_types.len() != self.operands.len() {
            return Err(VmError::Arity);
        }
        let ghost its = input_types@;
        match &self.value_type {
            ValueType::Record(name) => {
                let d = match prog.get_record(*name) {
                    Some(d) => d,
                    None => {
                        return Err(VmError::Lookup);
                    },
                };
                if input_types.len() < 2 || input_types.len() - 2 != d.entries.len() {
                    return Err(VmError::Arity);
                }
                let ghost decl = d.entries@;
                let ghost rname = *name;
                let mut j: usize = 0;
                proof {
                    assert(its.skip(2).take(0) =~= Seq::<RegisterType>::empty());
                    assert(decl.take(0) =~= Seq::<(u64, EntryType)>::empty());
                }
                while j < d.entries.len()
                    invariant
                        j <= decl.len(),
                        its == input_types@,
                        its.len() == self.operands@.len(),
                        self.value_type == ValueType::Record(rname),
                        record_def_of(*prog, rname) == Some(
                            (d.owner_public, d.balance_public, decl),
                        ),
                        decl == d.entries@,
                        2 <= its.len(),
                        its.len() <= usize::MAX,
                        its.len() - 2 == decl.len(),
                        spec_check_entry_types(decl.take(j as int), its.skip(2).take(j as int))
                            == Ok::<(), VmError>(()),
                    decreases d.entries.len() - j,
                {
                    proof {
                        assert(its.skip(2).take(j + 1).drop_last() =~= its.skip(2).take(j as int));
                        assert(decl.take(j + 1).drop_last() =~= decl.take(j as int));
                        assert(its.skip(2).take(j + 1).last() == its[j + 2]);
                    }
                    let ok: bool = match &input_types[j + 2] {
                        RegisterType::Record(_) => false,
                        RegisterType::Plaintext(pt) => {
                            let et: PlaintextType = match &d.entries[j].1 {
                                EntryType::Constant(t) => *t,
                                EntryType::Public(t) => *t,
                                EntryType::Private(t) => *t,
                            };
                            *pt == et
                        },
                    };
                    if !ok {
                        proof {
                            lemma_spec_check_entry_stops(decl, its.skip(2), j as int);
                        }
                        return Err(VmError::TypeMismatch);
                    }
                    j = j + 1;
                }
                proof {
                    assert(its.skip(2).take(decl.len() as int) =~= its.skip(2));
                    assert(decl.take(decl.len() as int) =~= decl);
                }
                Ok(RegisterType::Record(*name))
            },
            ValueType::Constant(pt) | ValueType::Public(pt) | ValueType::Private(pt) => {
                let iname: u64 = match pt {
                    PlaintextType::Literal(_) => {
                        return Err(VmError::UnsupportedCast);
                    },
                    PlaintextType::Interface(name) => *name,
                };
                let d = match prog.get_interface(iname) {
                    Some(d) => d,
                    None => {
                        return Err(VmError::Lookup);
                    },
                };
                if input_types.len() != d.members.len() {
                    return Err(VmError::Arity);
                }
                let ghost decl = d.members@;
                let ghost pt0 = *pt;
                let mut j: usize = 0;
                proof {
                    assert(its.take(0) =~= Seq::<RegisterType>::empty());
                    assert(decl.take(0) =~= Seq::<(u64, PlaintextType)>::empty());
                }
                while j < d.members.len()
                    invariant
                        j <= decl.len(),
                        its == input_types@,
                        its.len() == self.operands@.len(),
                        match self.value_type {
                            ValueType::Constant(p2) => p2 == pt0,
                            ValueType::Public(p2) => p2 == pt0,
                            ValueType::Private(p2) => p2 == pt0,
                            ValueType::Record(_) => false,
                        },
                        pt0 == PlaintextType::Interface(d.name),
                        iface_members(*prog, d.name) == Some(decl),
                        decl == d.members@,
                        its.len() == decl.len(),
                        spec_check_member_types(decl.take(j as int), its.take(j as int)) == Ok::<
                            (),
                            VmError,
                        >(()),
                    decreases d.members.len() - j,
                {
                    proof {
                        assert(its.take(j + 1).drop_last() =~= its.take(j as int));
                        assert(decl.take(j + 1).drop_last() =~= decl.take(j as int));
                        assert(its.take(j + 1).last() == its[j as int]);
                    }
                    let ok: bool = match &input_types[j] {
                        RegisterType::Record(_) => false,
                        RegisterType::Plaintext(ipt) => *ipt == d.members[j].1,
                    };
                    if !ok {
                        proof {
                            lemma_spec_check_member_stops(decl, its, j as int);
                        }
                        return Err(VmError::TypeMismatch);
                    }
                    j = j + 1;
                }
                proof {
                    assert(its.take(decl.len() as int) =~= its);
                    assert(decl.take(decl.len() as int) =~= decl);
                }
                Ok(RegisterType::Plaintext(*pt))
            },
        }
    }
}

/// A mismatch at position `k`, with all earlier member types accepted,
/// makes the member type check fail.
proof fn lemma_spec_check_member_stops(
    decl: Seq<(u64, PlaintextType)>,
    its: Seq<RegisterType>,
    k: int,
)
    requires
        0 <= k < its.len(),
        its.len() == decl.len(),
        spec_check_member_types(decl.take(k), its.take(k)) is Ok,
        match its[k] {
            RegisterType::Record(_) => true,
            RegisterType::Plaintext(pt) => pt != decl[k].1,
        },
    ensures
        spec_check_member_types(decl, its) == Err::<(), VmError>(VmError::TypeMismatch),
    decreases its.len(),
{
    if its.len() - 1 == k {
        assert(its.drop_last() =~= its.take(k));
        assert(decl.drop_last() =~= decl.take(k));
    } else {
        assert(its.drop_last().take(k) =~= its.take(k));
        assert(decl.drop_last().take(k) =~= decl.take(k));
        lemma_spec_check_member_stops(decl.drop_last(), its.drop_last(), k);
    }
}

/// The record-entry analogue of the lemma above.
proof fn lemma_spec_check_entry_stops(
    decl: Seq<(u64, EntryType)>,
    its: Seq<RegisterType>,
    k: int,
)
    requires
        0 <= k < its.len(),
        its.len() == decl.len(),
        spec_check_entry_types(decl.take(k), its.take(k)) is Ok,
        match its[k] {
            RegisterType::Record(_) => true,
            RegisterType::Plaintext(pt) => pt != entry_plain_type(decl[k].1),
        },
    ensures
        spec_check_entry_types(decl, its) == Err::<(), VmError>(VmError::TypeMismatch),
    decreases its.len(),
{
    if its.len() - 1 == k {
        assert(its.drop_last() =~= its.take(k));
        assert(decl.drop_last() =~= decl.take(k));
    } else {
        assert(its.drop_last().take(k) =~= its.take(k));
        assert(decl.drop_last().take(k) =~= decl.take(k));
        lemma_spec_check_entry_stops(decl.drop_last(), its.drop_last(), k);
    }
}

/// A failed load at position `i`, with all earlier loads succeeding, makes
/// the whole load phase fail with that error.
proof fn lemma_spec_loads_prefix_err(
    regs: Seq<Option<ValueV>>,
    ops: Seq<Operand>,
    i: int,
    e: VmError,
)
    requires
        0 <= i < ops.len(),
        spec_loads(regs, ops.take(i)) is Ok,
        spec_load(regs, ops[i]) == Err::<ValueV, VmError>(e),
    ensures
        spec_loads(regs, ops) == Err::<Seq<ValueV>, VmError>(e),
    decreases ops.len(),
{
    if ops.len() - 1 == i {
        assert(ops.drop_last() =~= ops.take(i));
        assert(ops.last() == ops[i]);
    } else {
        assert(ops.drop_last().take(i) =~= ops.take(i));
        assert(ops.drop_last()[i] == ops[i]);
        lemma_spec_loads_prefix_err(regs, ops.drop_last(), i, e);
    }
}

/// A record input or a mismatched member at position `k`, with all earlier
/// members accepted, makes the member pairing fail with the corresponding
/// error.
proof fn lemma_spec_iface_members_stops(
    inputs: Seq<ValueV>,
    decl: Seq<(u64, PlaintextType)>,
    prog: Program,
    k: int,
)
    requires
        0 <= k < inputs.len(),
        inputs.len() == decl.len(),
        spec_iface_members(inputs.take(k), decl.take(k), prog) is Ok,
        match inputs[k] {
            ValueV::Record(_) => true,
            ValueV::Plaintext(p) => !spec_matches(p, decl[k].1, prog),
        },
    ensures
        spec_iface_members(inputs, decl, prog) == Err::<Seq<(u64, PlainV)>, VmError>(
            if inputs[k] is Record {
                VmError::IllegalCast
            } else {
                VmError::TypeMismatch
            },
        ),
    decreases inputs.len(),
{
    if inputs.len() - 1 == k {
        assert(inputs.drop_last() =~= inputs.take(k));
        assert(decl.drop_last() =~= decl.take(k));
    } else {
        assert(inputs.drop_last().take(k) =~= inputs.take(k));
        assert(decl.drop_last().take(k) =~= decl.take(k));
        lemma_spec_iface_members_stops(inputs.drop_last(), decl.drop_last(), prog, k);
    }
}

/// The record-entry analogue of the lemma above.
proof fn lemma_spec_rec_entries_stops(
    inputs: Seq<ValueV>,
    decl: Seq<(u64, EntryType)>,
    prog: Program,
    k: int,
)
    requires
        0 <= k < inputs.len(),
        inputs.len() == decl.len(),
        spec_rec_entries(inputs.take(k), decl.take(k), prog) is Ok,
        match inputs[k] {
            ValueV::Record(_) => true,
            ValueV::Plaintext(p) => !spec_matches(p, entry_plain_type(decl[k].1), prog),
        },
    ensures
        spec_rec_entries(inputs, decl, prog) == Err::<Seq<(u64, EntryV)>, VmError>(
            if inputs[k] is Record {
                VmError::IllegalCast
            } else {
                VmError::TypeMismatch
            },
        ),
    decreases inputs.len(),
{
    if inputs.len() - 1 == k {
        assert(inputs.drop_last() =~= inputs.take(k));
        assert(decl.drop_last() =~= decl.take(k));
    } else {
        assert(inputs.drop_last().take(k) =~= inputs.take(k));
        assert(decl.drop_last().take(k) =~= decl.take(k));
        lemma_spec_rec_entries_stops(inputs.drop_last(), decl.drop_last(), prog, k);
    }
}

/// Inputs that are all well-typed plaintexts pair successfully with the
/// declared interface members.
pub proof fn lemma_iface_members_all_ok(
    inputs: Seq<ValueV>,
    decl: Seq<(u64, PlaintextType)>,
    prog: Program,
)
    requires
        inputs.len() == decl.len(),
        forall|i: int|
            0 <= i < inputs.len() ==> ((#[trigger] inputs[i]) matches ValueV::Plaintext(p)
                && spec_matches(p, decl[i].1, prog)),
    ensures
        spec_iface_members(inputs, decl, prog) == Ok::<Seq<(u64, PlainV)>, VmError>(
            Seq::new(
                decl.len(),
                |i: int|
                    if 0 <= i < decl.len() {
                        (decl[i].0, inputs[i]->Plaintext_0)
                    } else {
                        (0u64, PlainV::Literal(Literal::Boolean(false)))
                    },
            ),
        ),
    decreases inputs.len(),
{
    let expect = Seq::new(
        decl.len(),
        |i: int|
            if 0 <= i < decl.len() {
                (decl[i].0, inputs[i]->Plaintext_0)
            } else {
                (0u64, PlainV::Literal(Literal::Boolean(false)))
            },
    );
    if inputs.len() == 0 {
        assert(expect =~= Seq::<(u64, PlainV)>::empty());
    } else {
        lemma_iface_members_all_ok(inputs.drop_last(), decl.drop_last(), prog);
        let pre = Seq::new(
            decl.drop_last().len(),
            |i: int|
                if 0 <= i < decl.drop_last().len() {
                    (decl.drop_last()[i].0, inputs.drop_last()[i]->Plaintext_0)
                } else {
                    (0u64, PlainV::Literal(Literal::Boolean(false)))
                },
        );
        assert(inputs[inputs.len() - 1] matches ValueV::Plaintext(p) && spec_matches(
            p,
            decl[inputs.len() - 1].1,
            prog,
        ));
        assert(expect =~= pre.push((decl[inputs.len() - 1].0, inputs.last()->Plaintext_0)));
    }
}

/// Remaining inputs that are all well-typed plaintexts pair successfully
/// with the declared record entries, wrapped under their visibilities.
pub proof fn lemma_rec_entries_all_ok(
    inputs: Seq<ValueV>,
    decl: Seq<(u64, EntryType)>,
    prog: Program,
)
    requires
        inputs.len() == decl.len(),
        forall|i: int|
            0 <= i < inputs.len() ==> ((#[trigger] inputs[i]) matches ValueV::Plaintext(p)
                && spec_matches(p, entry_plain_type(decl[i].1), prog)),
    ensures
        spec_rec_entries(inputs, decl, prog) == Ok::<Seq<(u64, EntryV)>, VmError>(
            Seq::new(
                decl.len(),
                |i: int|
                    if 0 <= i < decl.len() {
                        (decl[i].0, wrap_entry(decl[i].1, inputs[i]->Plaintext_0))
                    } else {
                        (0u64, EntryV::Constant(PlainV::Literal(Literal::Boolean(false))))
                    },
            ),
        ),
    decreases inputs.len(),
{
    let expect = Seq::new(
        decl.len(),
        |i: int|
            if 0 <= i < decl.len() {
                (decl[i].0, wrap_entry(decl[i].1, inputs[i]->Plaintext_0))
            } else {
                (0u64, EntryV::Constant(PlainV::Literal(Literal::Boolean(false))))
            },
    );
    if inputs.len() == 0 {
        assert(expect =~= Seq::<(u64, EntryV)>::empty());
    } else {
        lemma_rec_entries_all_ok(inputs.drop_last(), decl.drop_last(), prog);
        let pre = Seq::new(
            decl.drop_last().len(),
            |i: int|
                if 0 <= i < decl.drop_last().len() {
                    (decl.drop_last()[i].0, wrap_entry(
                        decl.drop_last()[i].1,
                        inputs.drop_last()[i]->Plaintext_0,
                    ))
                } else {
                    (0u64, EntryV::Constant(PlainV::Literal(Literal::Boolean(false))))
                },
        );
        assert(inputs[inputs.len() - 1] matches ValueV::Plaintext(p) && spec_matches(
            p,
            entry_plain_type(decl[inputs.len() - 1].1),
            prog,
        ));
        assert(expect =~= pre.push(
            (decl[inputs.len() - 1].0, wrap_entry(decl[inputs.len() - 1].1, inputs.last()->Plaintext_0)),
        ));
    }
}

/// A record cast whose first input is an address, whose second is a 64-bit
/// balance below `2^52`, and whose remaining inputs match the declared
/// entries in count and type, produces exactly the record with those
/// fields, each wrapped under its declared visibility.
pub proof fn law_valid_record_cast(
    loaded: Seq<ValueV>,
    prog: Program,
    name: u64,
    owner_public: bool,
    balance_public: bool,
    decl: Seq<(u64, EntryType)>,
    a: Address,
    b: u64,
)
    requires
        record_def_of(prog, name) == Some((owner_public, balance_public, decl)),
        loaded.len() == 2 + decl.len(),
        loaded[0] == ValueV::Plaintext(PlainV::Literal(Literal::Address(a))),
        loaded[1] == ValueV::Plaintext(PlainV::Literal(Literal::U64(b))),
        b < BALANCE_BOUND,
        forall|i: int|
            0 <= i < decl.len() ==> ((#[trigger] loaded[2 + i]) matches ValueV::Plaintext(p)
                && spec_matches(p, entry_plain_type(decl[i].1), prog)),
        names_distinct(decl),
    ensures
        spec_cast_value(ValueType::Record(name), loaded, prog) == Ok::<ValueV, VmError>(
            ValueV::Record(
                RecordV {
                    owner: if owner_public {
                        OwnerV::Public(a)
                    } else {
                        OwnerV::Private(PlainV::Literal(Literal::Address(a)))
                    },
                    balance: if balance_public {
                        BalanceV::Public(b)
                    } else {
                        BalanceV::Private(PlainV::Literal(Literal::U64(b)))
                    },
                    entries: Seq::new(
                        decl.len(),
                        |i: int|
                            if 0 <= i < decl.len() {
                                (decl[i].0, wrap_entry(decl[i].1, loaded[2 + i]->Plaintext_0))
                            } else {
                                (0u64, EntryV::Constant(PlainV::Literal(Literal::Boolean(false))))
                            },
                    ),
                },
            ),
        ),
{
    let rest = loaded.skip(2);
    assert forall|i: int| 0 <= i < rest.len() implies (#[trigger] rest[i]) matches
        ValueV::Plaintext(p) && spec_matches(p, entry_plain_type(decl[i].1), prog) by {
        assert(rest[i] == loaded[2 + i]);
    }
    lemma_rec_entries_all_ok(rest, decl, prog);
    let entries = Seq::new(
        decl.len(),
        |i: int|
            if 0 <= i < decl.len() {
                (decl[i].0, wrap_entry(decl[i].1, rest[i]->Plaintext_0))
            } else {
                (0u64, EntryV::Constant(PlainV::Literal(Literal::Boolean(false))))
            },
    );
    assert(names_distinct(entries));
    assert(entries =~= Seq::new(
        decl.len(),
        |i: int|
            if 0 <= i < decl.len() {
                (decl[i].0, wrap_entry(decl[i].1, loaded[2 + i]->Plaintext_0))
            } else {
                (0u64, EntryV::Constant(PlainV::Literal(Literal::Boolean(false))))
            },
    ));
}

/// A valid record cast evaluates successfully: when every operand loads,
/// the first two inputs are a valid owner address and an in-bounds
/// balance, the remaining inputs match the declared entries, and the
/// destination register is in range and unwritten, evaluation returns the
/// register file with exactly the built record stored at the destination.
/// In particular a balance of `2^52 - 1` is accepted.
pub proof fn law_valid_record_cast_evaluates(
    c: Cast,
    regs: Seq<Option<ValueV>>,
    prog: Program,
    loaded: Seq<ValueV>,
    owner_public: bool,
    balance_public: bool,
    decl: Seq<(u64, EntryType)>,
    a: Address,
    b: u64,
)
    requires
        spec_loads(regs, c.operands@) == Ok::<Seq<ValueV>, VmError>(loaded),
        c.value_type matches ValueType::Record(name) && record_def_of(prog, name) == Some(
            (owner_public, balance_public, decl),
        ),
        loaded.len() == 2 + decl.len(),
        loaded[0] == ValueV::Plaintext(PlainV::Literal(Literal::Address(a))),
        loaded[1] == ValueV::Plaintext(PlainV::Literal(Literal::U64(b))),
        b < BALANCE_BOUND,
        forall|i: int|
            0 <= i < decl.len() ==> ((#[trigger] loaded[2 + i]) matches ValueV::Plaintext(p)
                && spec_matches(p, entry_plain_type(decl[i].1), prog)),
        names_distinct(decl),
        c.destination.locator < regs.len(),
        regs[c.destination.locator as int] is None,
    ensures
        spec_evaluate(c, regs, prog) == Ok::<Seq<Option<ValueV>>, VmError>(
            regs.update(
                c.destination.locator as int,
                Some(
                    ValueV::Record(
                        RecordV {
                            owner: if owner_public {
                                OwnerV::Public(a)
                            } else {
                                OwnerV::Private(PlainV::Literal(Literal::Address(a)))
                            },
                            balance: if balance_public {
                                BalanceV::Public(b)
                            } else {
                                BalanceV::Private(PlainV::Literal(Literal::U64(b)))
                            },
                            entries: Seq::new(
                                decl.len(),
                                |i: int|
                                    if 0 <= i < decl.len() {
                                        (
                                            decl[i].0,
                                            wrap_entry(decl[i].1, loaded[2 + i]->Plaintext_0),
                                        )
                                    } else {
                                        (
                                            0u64,
                                            EntryV::Constant(
                                                PlainV::Literal(Literal::Boolean(false)),
                                            ),
                                        )
                                    },
                            ),
                        },
                    ),
                ),
            ),
        ),
{
    let name = c.value_type->Record_0;
    law_valid_record_cast(loaded, prog, name, owner_public, balance_public, decl, a, b);
}

/// Every record a successful cast produces is structurally valid: its
/// owner is an address under either visibility, its balance lies below
/// `2^52` under either visibility, and its entry names are distinct.
pub proof fn law_cast_record_well_formed(
    vt: ValueType,
    loaded: Seq<ValueV>,
    prog: Program,
    r: RecordV,
)
    requires
        spec_cast_value(vt, loaded, prog) == Ok::<ValueV, VmError>(ValueV::Record(r)),
    ensures
        crate::model::record_wf(r),
{
    match vt {
        ValueType::Record(name) => {
            match record_def_of(prog, name) {
                None => {},
                Some((op, bp, decl)) => {},
            }
        },
        ValueType::Constant(_) | ValueType::Public(_) | ValueType::Private(_) => {},
    }
}

/// A record input among the pairing positions makes the pairing fail.
proof fn lemma_members_with_record_err(
    inputs: Seq<ValueV>,
    decl: Seq<(u64, PlaintextType)>,
    prog: Program,
    k: int,
)
    requires
        0 <= k < inputs.len(),
        inputs[k] is Record,
    ensures
        spec_iface_members(inputs, decl, prog) is Err,
    decreases inputs.len(),
{
    if k < inputs.len() - 1 {
        assert(inputs.drop_last()[k] == inputs[k]);
        lemma_members_with_record_err(inputs.drop_last(), decl.drop_last(), prog, k);
    }
}

/// The record-entry analogue of the lemma above.
proof fn lemma_entries_with_record_err(
    inputs: Seq<ValueV>,
    decl: Seq<(u64, EntryType)>,
    prog: Program,
    k: int,
)
    requires
        0 <= k < inputs.len(),
        inputs[k] is Record,
    ensures
        spec_rec_entries(inputs, decl, prog) is Err,
    decreases inputs.len(),
{
    if k < inputs.len() - 1 {
        assert(inputs.drop_last()[k] == inputs[k]);
        lemma_entries_with_record_err(inputs.drop_last(), decl.drop_last(), prog, k);
    }
}

/// Supplying a record value as an interface member or record entry input
/// never succeeds: the cast fails, whatever else holds of the inputs. When
/// every earlier member is a well-typed plaintext and the arity and lookup
/// checks pass, the failure is exactly the illegal-cast error.
pub proof fn law_record_input_never_casts(vt: ValueType, loaded: Seq<ValueV>, prog: Program, k: int)
    requires
        0 <= k < loaded.len(),
        loaded[k] is Record,
        vt is Record ==> k >= 2,
    ensures
        spec_cast_value(vt, loaded, prog) is Err,
{
    match vt {
        ValueType::Record(name) => {
            match record_def_of(prog, name) {
                None => {},
                Some((op, bp, decl)) => {
                    if loaded.len() - 2 == decl.len() {
                        assert(loaded.skip(2)[k - 2] == loaded[k]);
                        lemma_entries_with_record_err(loaded.skip(2), decl, prog, k - 2);
                    }
                },
            }
        },
        ValueType::Constant(pt) | ValueType::Public(pt) | ValueType::Private(pt) => {
            match pt {
                PlaintextType::Literal(_) => {},
                PlaintextType::Interface(name) => {
                    match iface_members(prog, name) {
                        None => {},
                        Some(decl) => {
                            if loaded.len() == decl.len() {
                                lemma_members_with_record_err(loaded, decl, prog, k);
                            }
                        },
                    }
                },
            }
        },
    }
}

/// The sharp form for a record target: with every earlier entry input a
/// well-typed plaintext, a record input at entry position `k` fails the
/// entry pairing with exactly the illegal-cast error.
pub proof fn law_record_entry_illegal_exact(
    loaded: Seq<ValueV>,
    decl: Seq<(u64, EntryType)>,
    prog: Program,
    k: int,
)
    requires
        0 <= k < loaded.len(),
        loaded.len() == decl.len(),
        loaded[k] is Record,
        forall|j: int|
            0 <= j < k ==> ((#[trigger] loaded[j]) matches ValueV::Plaintext(p) && spec_matches(
                p,
                entry_plain_type(decl[j].1),
                prog,
            )),
    ensures
        spec_rec_entries(loaded, decl, prog) == Err::<Seq<(u64, EntryV)>, VmError>(
            VmError::IllegalCast,
        ),
{
    let pre = loaded.take(k);
    let pdecl = decl.take(k);
    assert forall|j: int| 0 <= j < pre.len() implies ((#[trigger] pre[j]) matches
        ValueV::Plaintext(p) && spec_matches(p, entry_plain_type(pdecl[j].1), prog)) by {
        assert(pre[j] == loaded[j]);
        assert(pdecl[j] == decl[j]);
    }
    lemma_rec_entries_all_ok(pre, pdecl, prog);
    lemma_spec_rec_entries_stops(loaded, decl, prog, k);
}

/// The sharp form for an interface target: with the arity and lookup
/// checks passing and every earlier member a well-typed plaintext, a
/// record input at position `k` fails with exactly the illegal-cast
/// error.
pub proof fn law_record_member_illegal_exact(
    loaded: Seq<ValueV>,
    decl: Seq<(u64, PlaintextType)>,
    prog: Program,
    k: int,
)
    requires
        0 <= k < loaded.len(),
        loaded.len() == decl.len(),
        loaded[k] is Record,
        forall|j: int|
            0 <= j < k ==> ((#[trigger] loaded[j]) matches ValueV::Plaintext(p) && spec_matches(
                p,
                decl[j].1,
                prog,
            )),
    ensures
        spec_iface_members(loaded, decl, prog) == Err::<Seq<(u64, PlainV)>, VmError>(
            VmError::IllegalCast,
        ),
{
    let pre = loaded.take(k);
    let pdecl = decl.take(k);
    assert forall|j: int| 0 <= j < pre.len() implies (#[trigger] pre[j]) matches ValueV::Plaintext(
        p,
    ) && spec_matches(p, pdecl[j].1, prog) by {
        assert(pre[j] == loaded[j]);
        assert(pdecl[j] == decl[j]);
    }
    lemma_iface_members_all_ok(pre, pdecl, prog);
    lemma_spec_iface_members_stops(loaded, decl, prog, k);
}

} // verus!
