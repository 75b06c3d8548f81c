//! The static type system: plaintext, value, and register types, the
//! per-program definitions of interfaces and record shapes, and the registry
//! that holds them.
use vstd::prelude::*;
use crate::model::{LiteralKind, Literal};

verus! {

/// The shape of a plaintext value.
#[derive(Clone, Copy, PartialEq, Eq, Structural, Debug)]
pub enum PlaintextType {
    Literal(LiteralKind),
    Interface(u64),
}

/// The declared visibility and shape of a produced value.
#[derive(Clone, Copy, PartialEq, Eq, Structural, Debug)]
pub enum ValueType {
    Constant(PlaintextType),
    Public(PlaintextType),
    Private(PlaintextType),
    Record(u64),
}

/// The type of a register: a plaintext shape or a named record shape.
#[derive(Clone, Copy, PartialEq, Eq, Structural, Debug)]
pub enum RegisterType {
    Plaintext(PlaintextType),
    Record(u64),
}

/// The declared visibility and shape of one record entry.
#[derive(Clone, Copy, PartialEq, Eq, Structural, Debug)]
pub enum EntryType {
    Constant(PlaintextType),
    Public(PlaintextType),
    Private(PlaintextType),
}

/// A destination or source register, addressed by its locator.
#[derive(Clone, Copy, PartialEq, Eq, Structural, Debug)]
pub struct Register {
    pub locator: u64,
}

/// A reference to a register, or a literal constant.
#[derive(Clone, Copy, PartialEq, Eq, Structural, Debug)]
pub enum Operand {
    Register(Register),
    Literal(Literal),
}

/// The mnemonic of an instruction.
#[derive(Clone, Copy)]
pub enum Opcode {
    /// The opcode of a literal operation.
    Literal(&'static str),
    /// The opcode of a cast operation.
    Cast,
}

impl Opcode {
    /// Returns the opcode as a string.
    pub fn mnemonic(&self) -> (r: &'static str)
        ensures
            match *self {
                Opcode::Literal(s) => r == s,
                Opcode::Cast => r@ == "cast"@,
            },
    {
        match self {
            Opcode::Literal(s) => s,
            Opcode::Cast => "cast",
        }
    }

    /// Returns whether this is the cast opcode.
    pub fn is_cast(&self) -> (r: bool)
        ensures
            r == (*self matches Opcode::Cast),
    {
        matches!(self, Opcode::Cast)
    }
}

/// Every failure an instruction or codec can report.
#[derive(Clone, Copy, PartialEq, Eq, Structural, Debug)]
pub enum VmError {
    /// The textual form could not be parsed.
    Parse,
    /// The binary form violates the operand-count bounds.
    Format,
    /// The number of supplied operands or input types is wrong.
    Arity,
    /// An input's type differs from the declared member or entry type.
    TypeMismatch,
    /// The cast target is a literal type.
    UnsupportedCast,
    /// A record value was supplied where a plaintext is required.
    IllegalCast,
    /// A malformed owner, an out-of-range balance, or a duplicate entry name.
    InvalidValue,
    /// The named interface or record type is not defined in the program.
    Lookup,
    /// A register was read before being written, or lies out of range.
    UnresolvedRegister,
    /// A register was written twice.
    DoubleWrite,
}

/// The definition of an interface: its ordered, named member types.
pub struct InterfaceDef {
    pub name: u64,
    pub members: Vec<(u64, PlaintextType)>,
}

/// The definition of a record shape: owner and balance visibilities and the
/// ordered, named entry types.
pub struct RecordDef {
    pub name: u64,
    pub owner_public: bool,
    pub balance_public: bool,
    pub entries: Vec<(u64, EntryType)>,
}

/// A program's static type definitions.
pub struct Program {
    pub interfaces: Vec<InterfaceDef>,
    pub records: Vec<RecordDef>,
}

/// The member list of the first interface definition with the given name.
pub open spec fn iface_members(p: Program, name: u64) -> Option<Seq<(u64, PlaintextType)>>
    decreases p.interfaces@.len(),
{
    iface_members_at(p.interfaces@, name)
}

pub open spec fn iface_members_at(defs: Seq<InterfaceDef>, name: u64) -> Option<
    Seq<(u64, PlaintextType)>,
>
    decreases defs.len(),
{
    if defs.len() == 0 {
        None
    } else if defs[0].name == name {
        Some(defs[0].members@)
    } else {
        iface_members_at(defs.drop_first(), name)
    }
}

/// The visibilities and entry list of the first record definition with the
/// given name: `(owner_public, balance_public, entries)`.
pub open spec fn record_def_of(p: Program, name: u64) -> Option<
    (bool, bool, Seq<(u64, EntryType)>),
> {
    record_def_at(p.records@, name)
}

pub open spec fn record_def_at(defs: Seq<RecordDef>, name: u64) -> Option<
    (bool, bool, Seq<(u64, EntryType)>),
>
    decreases defs.len(),
{
    if defs.len() == 0 {
        None
    } else if defs[0].name == name {
        Some((defs[0].owner_public, defs[0].balance_public, defs[0].entries@))
    } else {
        record_def_at(defs.drop_first(), name)
    }
}

impl Program {
    /// Looks up an interface definition by name.
    pub fn get_interface(&self, name: u64) -> (r: Option<&InterfaceDef>)
        ensures
            match r {
                Some(d) => iface_members(*self, name) == Some(d.members@) && d.name == name,
                None => iface_members(*self, name) is None,
            },
    {
        let mut i: usize = 0;
        proof {
            assert(self.interfaces@.subrange(0, self.interfaces@.len() as int) =~= self.interfaces@);
        }
        while i < self.interfaces.len()
            invariant
                i <= self.interfaces.len(),
                iface_members_at(self.interfaces@, name) == iface_members_at(
                    self.interfaces@.subrange(i as int, self.interfaces@.len() as int),
                    name,
                ),
            decreases self.interfaces.len() - i,
        {
            if self.interfaces[i].name == name {
                proof {
                    let rest = self.interfaces@.subrange(i as int, self.interfaces@.len() as int);
                    assert(rest[0] == self.interfaces@[i as int]);
                }
                return Some(&self.interfaces[i]);
            }
            proof {
                let rest = self.interfaces@.subrange(i as int, self.interfaces@.len() as int);
                assert(rest.drop_first() =~= self.interfaces@.subrange(
                    i + 1,
                    self.interfaces@.len() as int,
                ));
            }
            i = i + 1;
        }
        proof {
            assert(self.interfaces@.subrange(i as int, self.interfaces@.len() as int).len() == 0);
        }
        None
    }

    /// Looks up a record definition by name.
    pub fn get_record(&self, name: u64) -> (r: Option<&RecordDef>)
        ensures
            match r {
                Some(d) => record_def_of(*self, name) == Some(
                    (d.owner_public, d.balance_public, d.entries@),
                ) && d.name == name,
                None => record_def_of(*self, name) is None,
            },
    {
        let mut i: usize = 0;
        proof {
            assert(self.records@.subrange(0, self.records@.len() as int) =~= self.records@);
        }
        while i < self.records.len()
            invariant
                i <= self.records.len(),
                record_def_at(self.records@, name) == record_def_at(
                    self.records@.subrange(i as int, self.records@.len() as int),
                    name,
                ),
            decreases self.records.len() - i,
        {
            if self.records[i].name == name {
                proof {
                    let rest = self.records@.subrange(i as int, self.records@.len() as int);
                    assert(rest[0] == self.records@[i as int]);
                }
                return Some(&self.records[i]);
            }
            proof {
                let rest = self.records@.subrange(i as int, self.records@.len() as int);
                assert(rest.drop_first() =~= self.records@.subrange(
                    i + 1,
                    self.records@.len() as int,
                ));
            }
            i = i + 1;
        }
        proof {
            assert(self.records@.subrange(i as int, self.records@.len() as int).len() == 0);
        }
        None
    }
}

} // verus!
