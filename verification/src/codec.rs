//! The binary form of a cast instruction: a one-byte operand count, the
//! operands, the destination register, and the value type, little-endian
//! throughout. The count must lie in `[1, max_operands]`; both encoding
//! and decoding enforce the same bound, and an out-of-bounds count fails
//! rather than truncating.
use vstd::prelude::*;
use crate::cast::Cast;
use crate::model::{Literal, LiteralKind, Address};
use crate::program::{Operand, PlaintextType, Register, ValueType, VmError};

verus! {

broadcast use vstd::std_specs::vec::group_vec_axioms;

/// The byte of a literal kind.
pub open spec fn kind_byte(k: LiteralKind) -> u8 {
    match k {
        LiteralKind::Address => 0,
        LiteralKind::Boolean => 1,
        LiteralKind::U64 => 2,
    }
}

/// The little-endian bytes of a 64-bit word.
pub open spec fn enc_u64(x: u64) -> Seq<u8> {
    seq![
        (x & 0xff) as u8,
        ((x >> 8) & 0xff) as u8,
        ((x >> 16) & 0xff) as u8,
        ((x >> 24) & 0xff) as u8,
        ((x >> 32) & 0xff) as u8,
        ((x >> 40) & 0xff) as u8,
        ((x >> 48) & 0xff) as u8,
        ((x >> 56) & 0xff) as u8,
    ]
}

/// The 64-bit word read from eight little-endian bytes.
pub open spec fn u64_from(
    b0: u8,
    b1: u8,
    b2: u8,
    b3: u8,
    b4: u8,
    b5: u8,
    b6: u8,
    b7: u8,
) -> u64 {
    (b0 as u64) | ((b1 as u64) << 8) | ((b2 as u64) << 16) | ((b3 as u64) << 24) | ((b4 as u64)
        << 32) | ((b5 as u64) << 40) | ((b6 as u64) << 48) | ((b7 as u64) << 56)
}

proof fn lemma_u64_roundtrip(x: u64)
    ensures
        u64_from(
            (x & 0xff) as u8,
            ((x >> 8) & 0xff) as u8,
            ((x >> 16) & 0xff) as u8,
            ((x >> 24) & 0xff) as u8,
            ((x >> 32) & 0xff) as u8,
            ((x >> 40) & 0xff) as u8,
            ((x >> 48) & 0xff) as u8,
            ((x >> 56) & 0xff) as u8,
        ) == x,
{
    assert((((x & 0xff) as u8) as u64) | ((((x >> 8) & 0xff) as u8) as u64) << 8 | ((((x >> 16)
        & 0xff) as u8) as u64) << 16 | ((((x >> 24) & 0xff) as u8) as u64) << 24 | ((((x >> 32)
        & 0xff) as u8) as u64) << 32 | ((((x >> 40) & 0xff) as u8) as u64) << 40 | ((((x >> 48)
        & 0xff) as u8) as u64) << 48 | ((((x >> 56) & 0xff) as u8) as u64) << 56 == x)
        by (bit_vector);
}

/// Reads a 64-bit word at the given position.
pub open spec fn dec_u64(s: Seq<u8>, i: int) -> Option<(u64, int)> {
    if 0 <= i && i + 8 <= s.len() {
        Some(
            (
                u64_from(s[i], s[i + 1], s[i + 2], s[i + 3], s[i + 4], s[i + 5], s[i + 6], s[i + 7]),
                i + 8,
            ),
        )
    } else {
        None
    }
}

/// Splits a known window of a byte string into its head and tail.
pub(crate) proof fn lemma_subrange_shift(s: Seq<u8>, i: int, head: Seq<u8>, tail: Seq<u8>)
    requires
        0 <= i,
        i + head.len() + tail.len() <= s.len(),
        s.subrange(i, i + head.len() + tail.len()) == head + tail,
    ensures
        s.subrange(i + head.len(), i + head.len() + tail.len()) == tail,
        s.subrange(i, i + head.len() as int) == head,
{
    let hl = head.len() as int;
    let tl = tail.len() as int;
    let w = s.subrange(i, i + hl + tl);
    assert forall|m: int| 0 <= m < tl implies s.subrange(i + hl, i + hl + tl)[m] == tail[m] by {
        assert(s.subrange(i + hl, i + hl + tl)[m] == s[i + hl + m]);
        assert(w[hl + m] == s[i + hl + m]);
        assert((head + tail)[hl + m] == tail[m]);
    }
    assert(s.subrange(i + hl, i + hl + tl) =~= tail);
    assert forall|m: int| 0 <= m < hl implies s.subrange(i, i + hl)[m] == head[m] by {
        assert(s.subrange(i, i + hl)[m] == s[i + m]);
        assert(w[m] == s[i + m]);
        assert((head + tail)[m] == head[m]);
    }
    assert(s.subrange(i, i + hl) =~= head);
}

proof fn lemma_dec_enc_u64(s: Seq<u8>, i: int, x: u64)
    requires
        0 <= i,
        i + 8 <= s.len(),
        s.subrange(i, i + 8) == enc_u64(x),
    ensures
        dec_u64(s, i) == Some(((x, i + 8))),
{
    assert forall|k: int| 0 <= k < 8 implies s[i + k] == enc_u64(x)[k] by {
        assert(s.subrange(i, i + 8)[k] == s[i + k]);
    }
    assert(s[i + 0] == enc_u64(x)[0]);
    assert(s[i + 1] == enc_u64(x)[1]);
    assert(s[i + 2] == enc_u64(x)[2]);
    assert(s[i + 3] == enc_u64(x)[3]);
    assert(s[i + 4] == enc_u64(x)[4]);
    assert(s[i + 5] == enc_u64(x)[5]);
    assert(s[i + 6] == enc_u64(x)[6]);
    assert(s[i + 7] == enc_u64(x)[7]);
    lemma_u64_roundtrip(x);
}

/// The bytes of a literal: a kind byte, then its payload.
pub open spec fn enc_lit(l: Literal) -> Seq<u8> {
    match l {
        Literal::Address(a) => seq![0u8] + enc_u64(a.id),
        Literal::Boolean(b) => seq![
            1u8,
            if b {
                1u8
            } else {
                0u8
            },
        ],
        Literal::U64(v) => seq![2u8] + enc_u64(v),
    }
}

/// Reads a literal at the given position.
pub open spec fn dec_lit(s: Seq<u8>, i: int) -> Option<(Literal, int)> {
    if 0 <= i && i < s.len() {
        if s[i] == 0 {
            match dec_u64(s, i + 1) {
                Some((x, j)) => Some((Literal::Address(Address { id: x }), j)),
                None => None,
            }
        } else if s[i] == 1 {
            if i + 2 <= s.len() && (s[i + 1] == 0 || s[i + 1] == 1) {
                Some((Literal::Boolean(s[i + 1] == 1), i + 2))
            } else {
                None
            }
        } else if s[i] == 2 {
            match dec_u64(s, i + 1) {
                Some((x, j)) => Some((Literal::U64(x), j)),
                None => None,
            }
        } else {
            None
        }
    } else {
        None
    }
}

proof fn lemma_dec_enc_lit(s: Seq<u8>, i: int, l: Literal)
    requires
        0 <= i,
        i + enc_lit(l).len() <= s.len(),
        s.subrange(i, i + enc_lit(l).len() as int) == enc_lit(l),
    ensures
        dec_lit(s, i) == Some(((l, i + enc_lit(l).len() as int))),
{
    match l {
        Literal::Address(a) => {
            lemma_subrange_shift(s, i, seq![0u8], enc_u64(a.id));
            assert(s.subrange(i, i + 1)[0] == s[i]);
            lemma_dec_enc_u64(s, i + 1, a.id);
        },
        Literal::Boolean(_) => {
            assert(s.subrange(i, i + 2)[0] == s[i]);
            assert(s.subrange(i, i + 2)[1] == s[i + 1]);
        },
        Literal::U64(v) => {
            lemma_subrange_shift(s, i, seq![2u8], enc_u64(v));
            assert(s.subrange(i, i + 1)[0] == s[i]);
            lemma_dec_enc_u64(s, i + 1, v);
        },
    }
}

/// The bytes of an operand: a tag byte, then the register locator or the
/// literal.
pub open spec fn enc_op(o: Operand) -> Seq<u8> {
    match o {
        Operand::Register(r) => seq![0u8] + enc_u64(r.locator),
        Operand::Literal(l) => seq![1u8] + enc_lit(l),
    }
}

/// Reads an operand at the given position.
pub open spec fn dec_op(s: Seq<u8>, i: int) -> Option<(Operand, int)> {
    if 0 <= i && i < s.len() {
        if s[i] == 0 {
            match dec_u64(s, i + 1) {
                Some((x, j)) => Some((Operand::Register(Register { locator: x }), j)),
                None => None,
            }
        } else if s[i] == 1 {
            match dec_lit(s, i + 1) {
                Some((l, j)) => Some((Operand::Literal(l), j)),
                None => None,
            }
        } else {
            None
        }
    } else {
        None
    }
}

proof fn lemma_dec_enc_op(s: Seq<u8>, i: int, o: Operand)
    requires
        0 <= i,
        i + enc_op(o).len() <= s.len(),
        s.subrange(i, i + enc_op(o).len() as int) == enc_op(o),
    ensures
        dec_op(s, i) == Some(((o, i + enc_op(o).len() as int))),
{
    match o {
        Operand::Register(r) => {
            lemma_subrange_shift(s, i, seq![0u8], enc_u64(r.locator));
            assert(s.subrange(i, i + 1)[0] == s[i]);
            lemma_dec_enc_u64(s, i + 1, r.locator);
        },
        Operand::Literal(l) => {
            lemma_subrange_shift(s, i, seq![1u8], enc_lit(l));
            assert(s.subrange(i, i + 1)[0] == s[i]);
            lemma_dec_enc_lit(s, i + 1, l);
        },
    }
}

/// The bytes of a plaintext type.
pub open spec fn enc_pt(t: PlaintextType) -> Seq<u8> {
    match t {
        PlaintextType::Literal(k) => seq![0u8, kind_byte(k)],
        PlaintextType::Interface(n) => seq![1u8] + enc_u64(n),
    }
}

/// Reads a plaintext type at the given position.
pub open spec fn dec_pt(s: Seq<u8>, i: int) -> Option<(PlaintextType, int)> {
    if 0 <= i && i < s.len() {
        if s[i] == 0 {
            if i + 2 <= s.len() {
                if s[i + 1] == 0 {
                    Some((PlaintextType::Literal(LiteralKind::Address), i + 2))
                } else if s[i + 1] == 1 {
                    Some((PlaintextType::Literal(LiteralKind::Boolean), i + 2))
                } else if s[i + 1] == 2 {
                    Some((PlaintextType::Literal(LiteralKind::U64), i + 2))
                } else {
                    None
                }
            } else {
                None
            }
        } else if s[i] == 1 {
            match dec_u64(s, i + 1) {
                Some((x, j)) => Some((PlaintextType::Interface(x), j)),
                None => None,
            }
        } else {
            None
        }
    } else {
        None
    }
}

proof fn lemma_dec_enc_pt(s: Seq<u8>, i: int, t: PlaintextType)
    requires
        0 <= i,
        i + enc_pt(t).len() <= s.len(),
        s.subrange(i, i + enc_pt(t).len() as int) == enc_pt(t),
    ensures
        dec_pt(s, i) == Some(((t, i + enc_pt(t).len() as int))),
{
    match t {
        PlaintextType::Literal(_) => {
            assert(s.subrange(i, i + 2)[0] == s[i]);
            assert(s.subrange(i, i + 2)[1] == s[i + 1]);
        },
        PlaintextType::Interface(n) => {
            lemma_subrange_shift(s, i, seq![1u8], enc_u64(n));
            assert(s.subrange(i, i + 1)[0] == s[i]);
            lemma_dec_enc_u64(s, i + 1, n);
        },
    }
}

/// The bytes of a value type.
pub open spec fn enc_vt(vt: ValueType) -> Seq<u8> {
    match vt {
        ValueType::Constant(t) => seq![0u8] + enc_pt(t),
        ValueType::Public(t) => seq![1u8] + enc_pt(t),
        ValueType::Private(t) => seq![2u8] + enc_pt(t),
        ValueType::Record(n) => seq![3u8] + enc_u64(n),
    }
}

/// Reads a value type at the given position.
pub open spec fn dec_vt(s: Seq<u8>, i: int) -> Option<(ValueType, int)> {
    if 0 <= i && i < s.len() {
        if s[i] == 0 {
            match dec_pt(s, i + 1) {
                Some((t, j)) => Some((ValueType::Constant(t), j)),
                None => None,
            }
        } else if s[i] == 1 {
            match dec_pt(s, i + 1) {
                Some((t, j)) => Some((ValueType::Public(t), j)),
                None => None,
            }
        } else if s[i] == 2 {
            match dec_pt(s, i + 1) {
                Some((t, j)) => Some((ValueType::Private(t), j)),
                None => None,
            }
        } else if s[i] == 3 {
            match dec_u64(s, i + 1) {
                Some((x, j)) => Some((ValueType::Record(x), j)),
                None => None,
            }
        } else {
            None
        }
    } else {
        None
    }
}

proof fn lemma_dec_enc_vt(s: Seq<u8>, i: int, vt: ValueType)
    requires
        0 <= i,
        i + enc_vt(vt).len() <= s.len(),
        s.subrange(i, i + enc_vt(vt).len() as int) == enc_vt(vt),
    ensures
        dec_vt(s, i) == Some(((vt, i + enc_vt(vt).len() as int))),
{
    match vt {
        ValueType::Constant(t) => {
            lemma_subrange_shift(s, i, seq![0u8], enc_pt(t));
            assert(s.subrange(i, i + 1)[0] == s[i]);
            lemma_dec_enc_pt(s, i + 1, t);
        },
        ValueType::Public(t) => {
            lemma_subrange_shift(s, i, seq![1u8], enc_pt(t));
            assert(s.subrange(i, i + 1)[0] == s[i]);
            lemma_dec_enc_pt(s, i + 1, t);
        },
        ValueType::Private(t) => {
            lemma_subrange_shift(s, i, seq![2u8], enc_pt(t));
            assert(s.subrange(i, i + 1)[0] == s[i]);
            lemma_dec_enc_pt(s, i + 1, t);
        },
        ValueType::Record(n) => {
            lemma_subrange_shift(s, i, seq![3u8], enc_u64(n));
            assert(s.subrange(i, i + 1)[0] == s[i]);
            lemma_dec_enc_u64(s, i + 1, n);
        },
    }
}

/// The bytes of the operand list, in order.
pub open spec fn enc_ops(ops: Seq<Operand>) -> Seq<u8>
    decreases ops.len(),
{
    if ops.len() == 0 {
        Seq::empty()
    } else {
        enc_ops(ops.drop_last()) + enc_op(ops.last())
    }
}

/// Reads `n` operands starting at the given position.
pub open spec fn dec_ops(s: Seq<u8>, i: int, n: int) -> Option<(Seq<Operand>, int)>
    decreases n,
{
    if n <= 0 {
        Some((Seq::empty(), i))
    } else {
        match dec_op(s, i) {
            None => None,
            Some((o, j)) => match dec_ops(s, j, n - 1) {
                None => None,
                Some((os, e)) => Some((seq![o] + os, e)),
            },
        }
    }
}

/// The operand list's bytes decompose at the front.
proof fn lemma_enc_ops_cons(ops: Seq<Operand>)
    requires
        ops.len() > 0,
    ensures
        enc_ops(ops) == enc_op(ops.first()) + enc_ops(ops.drop_first()),
    decreases ops.len(),
{
    if ops.len() == 1 {
        assert(ops.drop_last() =~= Seq::<Operand>::empty());
        assert(ops.drop_first() =~= Seq::<Operand>::empty());
        assert(enc_ops(ops) =~= enc_op(ops.first()) + enc_ops(ops.drop_first()));
    } else {
        lemma_enc_ops_cons(ops.drop_last());
        assert(ops.drop_last().first() == ops.first());
        assert(ops.drop_last().drop_first() =~= ops.drop_first().drop_last());
        assert(ops.drop_first().last() == ops.last());
        assert(enc_ops(ops) == enc_ops(ops.drop_last()) + enc_op(ops.last()));
        assert(enc_ops(ops.drop_first()) == enc_ops(ops.drop_first().drop_last()) + enc_op(
            ops.last(),
        ));
        assert((enc_op(ops.first()) + enc_ops(ops.drop_first().drop_last())) + enc_op(ops.last())
            =~= enc_op(ops.first()) + (enc_ops(ops.drop_first().drop_last()) + enc_op(ops.last())));
    }
}

proof fn lemma_dec_enc_ops(s: Seq<u8>, i: int, ops: Seq<Operand>)
    requires
        0 <= i,
        i + enc_ops(ops).len() <= s.len(),
        s.subrange(i, i + enc_ops(ops).len() as int) == enc_ops(ops),
    ensures
        dec_ops(s, i, ops.len() as int) == Some(((ops, i + enc_ops(ops).len() as int))),
    decreases ops.len(),
{
    if ops.len() == 0 {
        assert(dec_ops(s, i, 0) == Some(((Seq::<Operand>::empty(), i))));
        assert(ops =~= Seq::<Operand>::empty());
    } else {
        lemma_enc_ops_cons(ops);
        let o = ops.first();
        let e0 = enc_op(o);
        let rest = ops.drop_first();
        lemma_subrange_shift(s, i, e0, enc_ops(rest));
        lemma_dec_enc_op(s, i, o);
        let j = i + e0.len() as int;
        lemma_dec_enc_ops(s, j, rest);
        assert(seq![o] + rest =~= ops);
    }
}

/// The bytes of a whole cast instruction.
pub open spec fn enc_cast(c: Cast) -> Seq<u8> {
    seq![c.operands@.len() as u8] + enc_ops(c.operands@) + enc_u64(c.destination.locator) + enc_vt(
        c.value_type,
    )
}

/// What encoding yields: the bytes, or a format failure when the operand
/// count lies outside `[1, max_operands]`.
pub open spec fn spec_encode(c: Cast, max_operands: u8) -> Result<Seq<u8>, VmError> {
    if 1 <= c.operands@.len() <= max_operands as int {
        Ok(enc_cast(c))
    } else {
        Err(VmError::Format)
    }
}

/// What decoding yields: the components of the instruction, or a format
/// failure on an out-of-bounds count, malformed bytes, or trailing bytes.
pub open spec fn spec_decode(s: Seq<u8>, max_operands: u8) -> Result<
    (Seq<Operand>, Register, ValueType),
    VmError,
> {
    if s.len() == 0 {
        Err(VmError::Format)
    } else {
        let n = s[0] as int;
        if n < 1 || n > max_operands as int {
            Err(VmError::Format)
        } else {
            match dec_ops(s, 1, n) {
                None => Err(VmError::Format),
                Some((ops, i)) => match dec_u64(s, i) {
                    None => Err(VmError::Format),
                    Some((loc, j)) => match dec_vt(s, j) {
                        None => Err(VmError::Format),
                        Some((vt, k)) => {
                            if k == s.len() {
                                Ok((ops, Register { locator: loc }, vt))
                            } else {
                                Err(VmError::Format)
                            }
                        },
                    },
                },
            }
        }
    }
}

/// Decoding the encoding of any cast whose operand count lies in
/// `[1, max_operands]` yields the cast back; a count of zero or above the
/// bound fails encoding, and a leading count byte of zero or above the
/// bound fails decoding.
pub proof fn lemma_codec_round_trip(c: Cast, max_operands: u8)
    ensures
        1 <= c.operands@.len() <= max_operands as int ==> spec_decode(enc_cast(c), max_operands)
            == Ok::<(Seq<Operand>, Register, ValueType), VmError>(
            (c.operands@, c.destination, c.value_type),
        ),
        c.operands@.len() == 0 || c.operands@.len() > max_operands as int ==> spec_encode(
            c,
            max_operands,
        ) == Err::<Seq<u8>, VmError>(VmError::Format),
        forall|s: Seq<u8>|
            s.len() > 0 && (s[0] == 0 || s[0] > max_operands) ==> #[trigger] spec_decode(
                s,
                max_operands,
            ) == Err::<(Seq<Operand>, Register, ValueType), VmError>(VmError::Format),
{
    if 1 <= c.operands@.len() <= max_operands as int {
        let s = enc_cast(c);
        let ops = c.operands@;
        let eo = enc_ops(ops);
        let ed = enc_u64(c.destination.locator);
        let ev = enc_vt(c.value_type);
        assert(s =~= seq![ops.len() as u8] + (eo + (ed + ev)));
        assert(s.subrange(0, s.len() as int) =~= s);
        lemma_subrange_shift(s, 0, seq![ops.len() as u8], eo + (ed + ev));
        assert(s.subrange(0, 1)[0] == s[0]);
        lemma_subrange_shift(s, 1, eo, ed + ev);
        lemma_dec_enc_ops(s, 1, ops);
        let i1 = 1 + eo.len() as int;
        lemma_subrange_shift(s, i1, ed, ev);
        lemma_dec_enc_u64(s, i1, c.destination.locator);
        let i2 = i1 + 8;
        lemma_dec_enc_vt(s, i2, c.value_type);
        assert(i2 + ev.len() as int == s.len());
    }
}

fn read_u8(bytes: &Vec<u8>, pos: usize) -> (r: Option<(u8, usize)>)
    ensures
        match r {
            Some((b, p)) => pos < bytes@.len() && b == bytes@[pos as int] && p == pos + 1,
            None => pos >= bytes@.len(),
        },
{
    if pos < bytes.len() {
        Some((bytes[pos], pos + 1))
    } else {
        None
    }
}

fn write_u64(out: &mut Vec<u8>, x: u64)
    ensures
        final(out)@ == old(out)@ + enc_u64(x),
{
    out.push((x & 0xff) as u8);
    out.push(((x >> 8) & 0xff) as u8);
    out.push(((x >> 16) & 0xff) as u8);
    out.push(((x >> 24) & 0xff) as u8);
    out.push(((x >> 32) & 0xff) as u8);
    out.push(((x >> 40) & 0xff) as u8);
    out.push(((x >> 48) & 0xff) as u8);
    out.push(((x >> 56) & 0xff) as u8);
    proof {
        assert(out@ =~= old(out)@ + enc_u64(x));
    }
}

fn read_u64(bytes: &Vec<u8>, pos: usize) -> (r: Option<(u64, usize)>)
    ensures
        match r {
            Some((x, p)) => dec_u64(bytes@, pos as int) == Some(((x, p as int))) && p
                <= bytes@.len(),
            None => dec_u64(bytes@, pos as int) is None,
        },
{
    if pos <= bytes.len() && bytes.len() - pos >= 8 {
        let x = (bytes[pos] as u64) | ((bytes[pos + 1] as u64) << 8) | ((bytes[pos + 2] as u64)
            << 16) | ((bytes[pos + 3] as u64) << 24) | ((bytes[pos + 4] as u64) << 32) | ((
        bytes[pos + 5] as u64) << 40) | ((bytes[pos + 6] as u64) << 48) | ((bytes[pos + 7] as u64)
            << 56);
        Some((x, pos + 8))
    } else {
        None
    }
}

fn write_op(out: &mut Vec<u8>, o: &Operand)
    ensures
        final(out)@ == old(out)@ + enc_op(*o),
{
    match o {
        Operand::Register(r) => {
            out.push(0);
            write_u64(out, r.locator);
            proof {
                assert(out@ =~= old(out)@ + enc_op(*o));
            }
        },
        Operand::Literal(l) => {
            out.push(1);
            match l {
                Literal::Address(a) => {
                    out.push(0);
                    write_u64(out, a.id);
                },
                Literal::Boolean(b) => {
                    out.push(1);
                    out.push(if *b { 1 } else { 0 });
                },
                Literal::U64(v) => {
                    out.push(2);
                    write_u64(out, *v);
                },
            }
            proof {
                assert(out@ =~= old(out)@ + enc_op(*o));
            }
        },
    }
}

fn read_op(bytes: &Vec<u8>, pos: usize) -> (r: Option<(Operand, usize)>)
    ensures
        match r {
            Some((o, p)) => dec_op(bytes@, pos as int) == Some(((o, p as int))) && p
                <= bytes@.len(),
            None => dec_op(bytes@, pos as int) is None,
        },
{
    let (tag, p1) = match read_u8(bytes, pos) {
        Some(t) => t,
        None => {
            return None;
        },
    };
    if tag == 0 {
        match read_u64(bytes, p1) {
            Some((x, p2)) => Some((Operand::Register(Register { locator: x }), p2)),
            None => None,
        }
    } else if tag == 1 {
        let (kind, p2) = match read_u8(bytes, p1) {
            Some(t) => t,
            None => {
                return None;
            },
        };
        if kind == 0 {
            match read_u64(bytes, p2) {
                Some((x, p3)) => Some((Operand::Literal(Literal::Address(Address { id: x })), p3)),
                None => None,
            }
        } else if kind == 1 {
            let (bb, p3) = match read_u8(bytes, p2) {
                Some(t) => t,
                None => {
                    return None;
                },
            };
            if bb == 0 || bb == 1 {
                Some((Operand::Literal(Literal::Boolean(bb == 1)), p3))
            } else {
                None
            }
        } else if kind == 2 {
            match read_u64(bytes, p2) {
                Some((x, p3)) => Some((Operand::Literal(Literal::U64(x)), p3)),
                None => None,
            }
        } else {
            None
        }
    } else {
        None
    }
}

fn read_pt(bytes: &Vec<u8>, pos: usize) -> (r: Option<(PlaintextType, usize)>)
    ensures
        match r {
            Some((t, p)) => dec_pt(bytes@, pos as int) == Some(((t, p as int))) && p
                <= bytes@.len(),
            None => dec_pt(bytes@, pos as int) is None,
        },
{
    let (tag, p1) = match read_u8(bytes, pos) {
        Some(t) => t,
        None => {
            return None;
        },
    };
    if tag == 0 {
        let (kind, p2) = match read_u8(bytes, p1) {
            Some(t) => t,
            None => {
                return None;
            },
        };
        if kind == 0 {
            Some((PlaintextType::Literal(LiteralKind::Address), p2))
        } else if kind == 1 {
            Some((PlaintextType::Literal(LiteralKind::Boolean), p2))
        } else if kind == 2 {
            Some((PlaintextType::Literal(LiteralKind::U64), p2))
        } else {
            None
        }
    } else if tag == 1 {
        match read_u64(bytes, p1) {
            Some((x, p2)) => Some((PlaintextType::Interface(x), p2)),
            None => None,
        }
    } else {
        None
    }
}

fn read_vt(bytes: &Vec<u8>, pos: usize) -> (r: Option<(ValueType, usize)>)
    ensures
        match r {
            Some((t, p)) => dec_vt(bytes@, pos as int) == Some(((t, p as int))) && p
                <= bytes@.len(),
            None => dec_vt(bytes@, pos as int) is None,
        },
{
    let (tag, p1) = match read_u8(bytes, pos) {
        Some(t) => t,
        None => {
            return None;
        },
    };
    if tag == 0 {
        match read_pt(bytes, p1) {
            Some((t, p2)) => Some((ValueType::Constant(t), p2)),
            None => None,
        }
    } else if tag == 1 {
        match read_pt(bytes, p1) {
            Some((t, p2)) => Some((ValueType::Public(t), p2)),
            None => None,
        }
    } else if tag == 2 {
        match read_pt(bytes, p1) {
            Some((t, p2)) => Some((ValueType::Private(t), p2)),
            None => None,
        }
    } else if tag == 3 {
        match read_u64(bytes, p1) {
            Some((x, p2)) => Some((ValueType::Record(x), p2)),
            None => None,
        }
    } else {
        None
    }
}

/// Prepends already-read operands to a pending read.
pub open spec fn opt_prepend(pre: Seq<Operand>, o: Option<(Seq<Operand>, int)>) -> Option<
    (Seq<Operand>, int),
> {
    match o {
        None => None,
        Some((os, e)) => Some((pre + os, e)),
    }
}

impl Cast {
    /// Writes the instruction to bytes: the operand count, the operands,
    /// the destination register, and the value type. Fails with a format
    /// error, writing nothing, when the operand count lies outside
    /// `[1, max_operands]`.
    pub fn to_bytes(&self, max_operands: u8) -> (r: Result<Vec<u8>, VmError>)
        ensures
            match spec_encode(*self, max_operands) {
                Ok(b) => r matches Ok(v) && v@ == b,
                Err(e) => r matches Err(e2) && e == e2,
            },
    {
        if self.operands.len() == 0 || self.operands.len() > max_operands as usize {
            return Err(VmError::Format);
        }
        let mut out: Vec<u8> = Vec::new();
        out.push(self.operands.len() as u8);
        let ghost ops = self.operands@;
        let mut i: usize = 0;
        proof {
            assert(ops.take(0) =~= Seq::<Operand>::empty());
            assert(out@ =~= seq![ops.len() as u8] + enc_ops(ops.take(0)));
        }
        while i < self.operands.len()
            invariant
                i <= self.operands@.len(),
                ops == self.operands@,
                out@ == seq![ops.len() as u8] + enc_ops(ops.take(i as int)),
            decreases self.operands.len() - i,
        {
            write_op(&mut out, &self.operands[i]);
            proof {
                assert(ops.take(i + 1).drop_last() =~= ops.take(i as int));
                assert(ops.take(i + 1).last() == ops[i as int]);
                assert(out@ =~= seq![ops.len() as u8] + enc_ops(ops.take(i + 1)));
            }
            i = i + 1;
        }
        proof {
            assert(ops.take(ops.len() as int) =~= ops);
        }
        write_u64(&mut out, self.destination.locator);
        let ghost before_vt = out@;
        match &self.value_type {
            ValueType::Constant(t) => {
                out.push(0);
                match t {
                    PlaintextType::Literal(k) => {
                        out.push(0);
                        out.push(kind_byte_exec(k));
                    },
                    PlaintextType::Interface(n) => {
                        out.push(1);
                        write_u64(&mut out, *n);
                    },
                }
            },
            ValueType::Public(t) => {
                out.push(1);
                match t {
                    PlaintextType::Literal(k) => {
                        out.push(0);
                        out.push(kind_byte_exec(k));
                    },
                    PlaintextType::Interface(n) => {
                        out.push(1);
                        write_u64(&mut out, *n);
                    },
                }
            },
            ValueType::Private(t) => {
                out.push(2);
                match t {
                    PlaintextType::Literal(k) => {
                        out.push(0);
                        out.push(kind_byte_exec(k));
                    },
                    PlaintextType::Interface(n) => {
                        out.push(1);
                        write_u64(&mut out, *n);
                    },
                }
            },
            ValueType::Record(n) => {
                out.push(3);
                write_u64(&mut out, *n);
            },
        }
        proof {
            assert(out@ =~= before_vt + enc_vt(self.value_type));
            assert(out@ =~= enc_cast(*self));
        }
        Ok(out)
    }

    /// Reads an instruction from bytes, consuming them entirely. Fails
    /// with a format error on an operand count outside
    /// `[1, max_operands]`, on malformed bytes, and on trailing bytes.
    pub fn from_bytes(bytes: &Vec<u8>, max_operands: u8) -> (r: Result<Cast, VmError>)
        ensures
            match spec_decode(bytes@, max_operands) {
                Ok((ops, dst, vt)) => r matches Ok(c) && c.operands@ == ops && c.destination == dst
                    && c.value_type == vt,
                Err(e) => r matches Err(e2) && e == e2,
            },
    {
        let (count, p0) = match read_u8(bytes, 0) {
            Some(t) => t,
            None => {
                return Err(VmError::Format);
            },
        };
        if count == 0 || count > max_operands {
            return Err(VmError::Format);
        }
        let n = count as usize;
        let ghost nn = n as int;
        let mut ops: Vec<Operand> = Vec::new();
        let mut pos: usize = 1;
        let mut k: usize = 0;
        proof {
            assert(opt_prepend(Seq::<Operand>::empty(), dec_ops(bytes@, 1, nn)) == dec_ops(
                bytes@,
                1,
                nn,
            ) || dec_ops(bytes@, 1, nn) is None);
            if dec_ops(bytes@, 1, nn) is Some {
                let (os, e) = dec_ops(bytes@, 1, nn)->Some_0;
                assert(Seq::<Operand>::empty() + os =~= os);
            }
        }
        while k < n
            invariant
                k <= n,
                nn == n as int,
                bytes@.len() > 0,
                bytes@[0] as int == nn,
                1 <= nn <= max_operands as int,
                ops@.len() == k as int,
                dec_ops(bytes@, 1, nn) == opt_prepend(ops@, dec_ops(bytes@, pos as int, nn - k)),
                pos <= bytes@.len(),
            decreases n - k,
        {
            match read_op(bytes, pos) {
                Some((o, p2)) => {
                    proof {
                        if dec_ops(bytes@, p2 as int, nn - k - 1) is Some {
                            let (os, e) = dec_ops(bytes@, p2 as int, nn - k - 1)->Some_0;
                            assert(ops@ + (seq![o] + os) =~= ops@.push(o) + os);
                        }
                    }
                    ops.push(o);
                    pos = p2;
                },
                None => {
                    return Err(VmError::Format);
                },
            }
            k = k + 1;
        }
        proof {
            assert(dec_ops(bytes@, pos as int, 0) == Some(((Seq::<Operand>::empty(), pos as int))));
            assert(ops@ + Seq::<Operand>::empty() =~= ops@);
        }
        let (loc, p3) = match read_u64(bytes, pos) {
            Some(t) => t,
            None => {
                return Err(VmError::Format);
            },
        };
        let (vt, p4) = match read_vt(bytes, p3) {
            Some(t) => t,
            None => {
                return Err(VmError::Format);
            },
        };
        if p4 != bytes.len() {
            return Err(VmError::Format);
        }
        Ok(Cast { operands: ops, destination: Register { locator: loc }, value_type: vt })
    }
}

fn kind_byte_exec(k: &LiteralKind) -> (r: u8)
    ensures
        r == kind_byte(*k),
{
    match k {
        LiteralKind::Address => 0,
        LiteralKind::Boolean => 1,
        LiteralKind::U64 => 2,
    }
}

} // verus!
