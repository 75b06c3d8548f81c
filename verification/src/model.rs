//! The value model: plaintexts, records, and the values held by registers.
//!
//! An interface value keeps its members as an ordered list of
//! `(identifier, value)` pairs, so that declaration order is preserved for
//! serialization and for positional pairing against type definitions.
//! Identifiers are opaque tokens, modelled as `u64` values.
use vstd::prelude::*;

verus! {

broadcast use vstd::std_specs::vec::group_vec_axioms;

/// The balance of a record must fit in 52 bits.
pub const BALANCE_BOUND: u64 = 0x10_0000_0000_0000;

/// An account address, an opaque identity token.
#[derive(Clone, Copy, PartialEq, Eq, Structural, Debug)]
pub struct Address {
    pub id: u64,
}

/// A literal constant value.
#[derive(Clone, Copy, PartialEq, Eq, Structural, Debug)]
pub enum Literal {
    Address(Address),
    Boolean(bool),
    U64(u64),
}

/// The kind of a literal, used by the type system.
#[derive(Clone, Copy, PartialEq, Eq, Structural, Debug)]
pub enum LiteralKind {
    Address,
    Boolean,
    U64,
}

/// A runtime plaintext value: a literal, or an interface aggregate whose
/// members are kept in declaration order.
#[derive(Debug, PartialEq, Eq)]
pub enum Plaintext {
    Literal(Literal),
    Interface(Vec<(u64, Plaintext)>),
}

/// Record ownership, either publicly visible or held as a private plaintext.
#[derive(Debug, PartialEq, Eq)]
pub enum Owner {
    Public(Address),
    Private(Plaintext),
}

/// A record balance, either publicly visible or held as a private plaintext.
#[derive(Debug, PartialEq, Eq)]
pub enum Balance {
    Public(u64),
    Private(Plaintext),
}

/// One named record entry, with its declared visibility.
#[derive(Debug, PartialEq, Eq)]
pub enum Entry {
    Constant(Plaintext),
    Public(Plaintext),
    Private(Plaintext),
}

/// An owned, confidential value: owner, balance, and ordered named entries.
#[derive(Debug, PartialEq, Eq)]
pub struct Record {
    pub owner: Owner,
    pub balance: Balance,
    pub entries: Vec<(u64, Entry)>,
}

/// Any value a register can hold.
#[derive(Debug, PartialEq, Eq)]
pub enum StackValue {
    Plaintext(Plaintext),
    Record(Record),
}

// Mathematical mirrors of the value types, with sequences in place of
// vectors, used by every contract to state deep equality.

pub enum PlainV {
    Literal(Literal),
    Interface(Seq<(u64, PlainV)>),
}

pub enum OwnerV {
    Public(Address),
    Private(PlainV),
}

pub enum BalanceV {
    Public(u64),
    Private(PlainV),
}

pub enum EntryV {
    Constant(PlainV),
    Public(PlainV),
    Private(PlainV),
}

pub struct RecordV {
    pub owner: OwnerV,
    pub balance: BalanceV,
    pub entries: Seq<(u64, EntryV)>,
}

pub enum ValueV {
    Plaintext(PlainV),
    Record(RecordV),
}

/// The mathematical value of a plaintext.
pub open spec fn pv(p: Plaintext) -> PlainV
    decreases p,
{
    match p {
        Plaintext::Literal(l) => PlainV::Literal(l),
        Plaintext::Interface(ms) => PlainV::Interface(
            Seq::new(
                ms@.len(),
                |i: int|
                    if 0 <= i < ms@.len() {
                        (ms@[i].0, pv(ms@[i].1))
                    } else {
                        (0u64, PlainV::Literal(Literal::Boolean(false)))
                    },
            ),
        ),
    }
}

pub open spec fn ov(o: Owner) -> OwnerV {
    match o {
        Owner::Public(a) => OwnerV::Public(a),
        Owner::Private(p) => OwnerV::Private(pv(p)),
    }
}

pub open spec fn bv(b: Balance) -> BalanceV {
    match b {
        Balance::Public(x) => BalanceV::Public(x),
        Balance::Private(p) => BalanceV::Private(pv(p)),
    }
}

pub open spec fn ev(e: Entry) -> EntryV {
    match e {
        Entry::Constant(p) => EntryV::Constant(pv(p)),
        Entry::Public(p) => EntryV::Public(pv(p)),
        Entry::Private(p) => EntryV::Private(pv(p)),
    }
}

/// The mathematical value of a record.
pub open spec fn rv(r: Record) -> RecordV {
    RecordV {
        owner: ov(r.owner),
        balance: bv(r.balance),
        entries: Seq::new(
            r.entries@.len(),
            |i: int|
                if 0 <= i < r.entries@.len() {
                    (r.entries@[i].0, ev(r.entries@[i].1))
                } else {
                    (0u64, EntryV::Constant(PlainV::Literal(Literal::Boolean(false))))
                },
        ),
    }
}

/// The mathematical value of a stack value.
pub open spec fn sv(v: StackValue) -> ValueV {
    match v {
        StackValue::Plaintext(p) => ValueV::Plaintext(pv(p)),
        StackValue::Record(r) => ValueV::Record(rv(r)),
    }
}

/// The nesting depth of a plaintext value, counting only the first `k`
/// members of an interface aggregate.
pub open spec fn plain_height_upto(p: Plaintext, k: int) -> nat
    decreases p, 0int, k,
{
    match p {
        Plaintext::Literal(_) => 0,
        Plaintext::Interface(ms) => {
            if k <= 0 {
                1
            } else if k > ms@.len() {
                plain_height_upto(p, ms@.len() as int)
            } else {
                let rest = plain_height_upto(p, k - 1);
                let here = 1 + plain_height(ms@[k - 1].1);
                if here > rest {
                    here
                } else {
                    rest
                }
            }
        },
    }
}

/// The nesting depth of a plaintext value.
pub open spec fn plain_height(p: Plaintext) -> nat
    decreases p, 1int, 0int,
{
    match p {
        Plaintext::Literal(_) => 0,
        Plaintext::Interface(ms) => plain_height_upto(p, ms@.len() as int),
    }
}

pub proof fn lemma_member_height_lt_upto(ms: Vec<(u64, Plaintext)>, i: int, k: int)
    requires
        0 <= i < k <= ms@.len(),
    ensures
        plain_height(ms@[i].1) < plain_height_upto(Plaintext::Interface(ms), k),
    decreases k,
{
    if i < k - 1 {
        lemma_member_height_lt_upto(ms, i, k - 1);
    }
}

pub proof fn lemma_member_height_lt(ms: Vec<(u64, Plaintext)>, i: int)
    requires
        0 <= i < ms@.len(),
    ensures
        plain_height(ms@[i].1) < plain_height(Plaintext::Interface(ms)),
{
    lemma_member_height_lt_upto(ms, i, ms@.len() as int);
}

/// The kind of a literal.
pub open spec fn spec_literal_kind(l: Literal) -> LiteralKind {
    match l {
        Literal::Address(_) => LiteralKind::Address,
        Literal::Boolean(_) => LiteralKind::Boolean,
        Literal::U64(_) => LiteralKind::U64,
    }
}

pub fn literal_kind(l: &Literal) -> (k: LiteralKind)
    ensures
        k == spec_literal_kind(*l),
{
    match l {
        Literal::Address(_) => LiteralKind::Address,
        Literal::Boolean(_) => LiteralKind::Boolean,
        Literal::U64(_) => LiteralKind::U64,
    }
}

/// No two pairs in the list carry the same name.
pub open spec fn names_distinct<T>(ms: Seq<(u64, T)>) -> bool {
    forall|i: int, j: int| 0 <= i < j < ms.len() ==> ms[i].0 != ms[j].0
}

/// A structurally valid record: the owner is an address (in the clear or as
/// a private address literal), the balance is below the 52-bit bound under
/// either visibility, and entry names are distinct.
pub open spec fn record_wf(r: RecordV) -> bool {
    &&& match r.owner {
        OwnerV::Public(_) => true,
        OwnerV::Private(p) => p matches PlainV::Literal(Literal::Address(_)),
    }
    &&& match r.balance {
        BalanceV::Public(b) => b < BALANCE_BOUND,
        BalanceV::Private(p) => p matches PlainV::Literal(Literal::U64(b)) && b < BALANCE_BOUND,
    }
    &&& names_distinct(r.entries)
}

/// Copies a plaintext value.
pub fn dup_plaintext(p: &Plaintext) -> (r: Plaintext)
    ensures
        pv(r) == pv(*p),
    decreases plain_height(*p),
{
    match p {
        Plaintext::Literal(l) => Plaintext::Literal(*l),
        Plaintext::Interface(ms) => {
            let mut out: Vec<(u64, Plaintext)> = Vec::new();
            let mut i: usize = 0;
            while i < ms.len()
                invariant
                    *p == Plaintext::Interface(*ms),
                    i <= ms.len(),
                    out@.len() == i as int,
                    forall|j: int|
                        0 <= j < i ==> out@[j].0 == ms@[j].0 && pv(#[trigger] out@[j].1) == pv(
                            ms@[j].1,
                        ),
                decreases ms.len() - i,
            {
                proof {
                    assert(*p == Plaintext::Interface(*ms));
                    lemma_member_height_lt(*ms, i as int);
                }
                let v = dup_plaintext(&ms[i].1);
                out.push((ms[i].0, v));
                i = i + 1;
            }
            let r = Plaintext::Interface(out);
            proof {
                let mv = pv(r)->Interface_0;
                let mp = pv(Plaintext::Interface(*ms))->Interface_0;
                assert(mv =~= mp);
            }
            r
        },
    }
}

/// Copies a record entry.
pub fn dup_entry(e: &Entry) -> (r: Entry)
    ensures
        ev(r) == ev(*e),
{
    match e {
        Entry::Constant(p) => Entry::Constant(dup_plaintext(p)),
        Entry::Public(p) => Entry::Public(dup_plaintext(p)),
        Entry::Private(p) => Entry::Private(dup_plaintext(p)),
    }
}

/// Copies a record.
pub fn dup_record(r: &Record) -> (out: Record)
    ensures
        rv(out) == rv(*r),
{
    let owner = match &r.owner {
        Owner::Public(a) => Owner::Public(*a),
        Owner::Private(p) => Owner::Private(dup_plaintext(p)),
    };
    let balance = match &r.balance {
        Balance::Public(b) => Balance::Public(*b),
        Balance::Private(p) => Balance::Private(dup_plaintext(p)),
    };
    let mut entries: Vec<(u64, Entry)> = Vec::new();
    let mut i: usize = 0;
    while i < r.entries.len()
        invariant
            i <= r.entries.len(),
            entries@.len() == i as int,
            forall|j: int|
                0 <= j < i ==> entries@[j].0 == r.entries@[j].0 && ev(
                    #[trigger] entries@[j].1,
                ) == ev(r.entries@[j].1),
        decreases r.entries.len() - i,
    {
        let e = dup_entry(&r.entries[i].1);
        entries.push((r.entries[i].0, e));
        i = i + 1;
    }
    let out = Record { owner, balance, entries };
    proof {
        assert(rv(out).entries =~= rv(*r).entries);
    }
    out
}

/// Copies a stack value.
pub fn dup_stack_value(v: &StackValue) -> (r: StackValue)
    ensures
        sv(r) == sv(*v),
{
    match v {
        StackValue::Plaintext(p) => StackValue::Plaintext(dup_plaintext(p)),
        StackValue::Record(rec) => StackValue::Record(dup_record(rec)),
    }
}

} // verus!
