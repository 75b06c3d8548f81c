//! The textual form of a cast instruction:
//! `cast <operand>+ into <register> as <value_type>`, whitespace-delimited,
//! with the keywords `into` and `as` literal.
//!
//! Tokens: a register is `r` followed by decimal digits; an address literal
//! is `a` followed by digits; a 64-bit literal is digits followed by `u64`;
//! a boolean literal is `true` or `false`. A value type is a literal kind
//! (`address`, `boolean`, `u64`) or an interface identifier in digits,
//! followed by `.constant`, `.public` or `.private`; or a record identifier
//! in digits followed by `.record`.
use vstd::prelude::*;
use crate::cast::Cast;
use crate::codec::lemma_subrange_shift;
use crate::model::{Address, Literal, LiteralKind};
use crate::program::{Operand, PlaintextType, Register, ValueType, VmError};

verus! {

broadcast use vstd::std_specs::vec::group_vec_axioms;

/// The decimal digits of a 64-bit word.
pub open spec fn dec_digits(x: u64) -> Seq<u8>
    decreases x,
{
    if x < 10 {
        seq![(48 + x) as u8]
    } else {
        dec_digits(x / 10) + seq![(48 + x % 10) as u8]
    }
}

/// The token of a literal.
pub open spec fn lit_text(l: Literal) -> Seq<u8> {
    match l {
        Literal::Address(a) => seq![97u8] + dec_digits(a.id),
        Literal::Boolean(b) => {
            if b {
                seq![116u8, 114u8, 117u8, 101u8]
            } else {
                seq![102u8, 97u8, 108u8, 115u8, 101u8]
            }
        },
        Literal::U64(v) => dec_digits(v) + seq![117u8, 54u8, 52u8],
    }
}

/// The token of an operand.
pub open spec fn op_text(o: Operand) -> Seq<u8> {
    match o {
        Operand::Register(r) => seq![114u8] + dec_digits(r.locator),
        Operand::Literal(l) => lit_text(l),
    }
}

/// The operand tokens in order, each preceded by one space.
pub open spec fn ops_text(ops: Seq<Operand>) -> Seq<u8>
    decreases ops.len(),
{
    if ops.len() == 0 {
        Seq::empty()
    } else {
        ops_text(ops.drop_last()) + seq![32u8] + op_text(ops.last())
    }
}

/// The token of a plaintext type.
pub open spec fn pt_text(t: PlaintextType) -> Seq<u8> {
    match t {
        PlaintextType::Literal(LiteralKind::Address) => seq![
            97u8,
            100u8,
            100u8,
            114u8,
            101u8,
            115u8,
            115u8,
        ],
        PlaintextType::Literal(LiteralKind::Boolean) => seq![
            98u8,
            111u8,
            111u8,
            108u8,
            101u8,
            97u8,
            110u8,
        ],
        PlaintextType::Literal(LiteralKind::U64) => seq![117u8, 54u8, 52u8],
        PlaintextType::Interface(n) => dec_digits(n),
    }
}

/// The token of a value type.
pub open spec fn vt_text(vt: ValueType) -> Seq<u8> {
    match vt {
        ValueType::Constant(t) => pt_text(t) + seq![
            46u8,
            99u8,
            111u8,
            110u8,
            115u8,
            116u8,
            97u8,
            110u8,
            116u8,
        ],
        ValueType::Public(t) => pt_text(t) + seq![46u8, 112u8, 117u8, 98u8, 108u8, 105u8, 99u8],
        ValueType::Private(t) => pt_text(t) + seq![
            46u8,
            112u8,
            114u8,
            105u8,
            118u8,
            97u8,
            116u8,
            101u8,
        ],
        ValueType::Record(n) => dec_digits(n) + seq![46u8, 114u8, 101u8, 99u8, 111u8, 114u8, 100u8],
    }
}

/// The whole text: `cast <operands> into r<dst> as <value_type>`.
pub open spec fn text_of(c: Cast) -> Seq<u8> {
    seq![99u8, 97u8, 115u8, 116u8] + ops_text(c.operands@) + seq![
        32u8,
        105u8,
        110u8,
        116u8,
        111u8,
        32u8,
        114u8,
    ] + dec_digits(c.destination.locator) + seq![32u8, 97u8, 115u8, 32u8] + vt_text(c.value_type)
}

/// Appends the decimal digits of a 64-bit word.
fn push_digits(out: &mut Vec<u8>, x: u64)
    ensures
        final (out)@ == old(out)@ + dec_digits(x),
    decreases x,
{
    if x < 10 {
        out.push(48 + x as u8);
        proof {
            assert(out@ =~= old(out)@ + dec_digits(x));
        }
    } else {
        push_digits(out, x / 10);
        out.push(48 + (x % 10) as u8);
        proof {
            assert(out@ =~= old(out)@ + dec_digits(x));
        }
    }
}

/// The byte offset of the separator before operand `i` in the canonical
/// text: right after `cast` and the first `i` operand tokens.
pub open spec fn off(w: Cast, i: int) -> int {
    4 + ops_text(w.operands@.take(i)).len() as int
}

/// The operand tokens from position `i` on, each preceded by one space.
pub open spec fn ops_tail(ops: Seq<Operand>, i: int) -> Seq<u8>
    decreases ops.len() - i,
{
    if i < 0 || i >= ops.len() {
        Seq::empty()
    } else {
        seq![32u8] + op_text(ops[i]) + ops_tail(ops, i + 1)
    }
}

/// The operand text splits at any position into a prefix and a tail.
proof fn lemma_ops_split(ops: Seq<Operand>, i: int)
    requires
        0 <= i <= ops.len(),
    ensures
        ops_text(ops) == ops_text(ops.take(i)) + ops_tail(ops, i),
    decreases ops.len() - i,
{
    if i == ops.len() {
        assert(ops.take(i) =~= ops);
        assert(ops_text(ops) =~= ops_text(ops.take(i)) + ops_tail(ops, i));
    } else {
        lemma_ops_split(ops, i + 1);
        assert(ops.take(i + 1).drop_last() =~= ops.take(i));
        assert(ops.take(i + 1).last() == ops[i]);
        assert(ops_text(ops.take(i + 1)) == ops_text(ops.take(i)) + seq![32u8] + op_text(ops[i]));
        assert(ops_text(ops.take(i)) + ops_tail(ops, i) =~= (ops_text(ops.take(i)) + seq![32u8]
            + op_text(ops[i])) + ops_tail(ops, i + 1));
    }
}

/// What the canonical text forces at the separator before position `i`:
/// the `cast` prefix, a space, then either the next operand token followed
/// by a space, or the `into r<destination> as <value_type>` tail.
#[verifier::rlimit(100)]
proof fn lemma_canonical_at(w: Cast, i: int, s: Seq<u8>)
    requires
        s == text_of(w),
        0 <= i <= w.operands@.len(),
        w.operands@.len() >= 1,
    ensures
        s.len() > 4,
        s[0] == 99 && s[1] == 97 && s[2] == 115 && s[3] == 116,
        off(w, 0) == 4,
        4 <= off(w, i) < s.len(),
        s[off(w, i)] == 32,
        i < w.operands@.len() ==> ({
            let t = op_text(w.operands@[i]);
            &&& t.len() >= 1
            &&& off(w, i) + 1 + t.len() < s.len()
            &&& s.subrange(off(w, i) + 1, off(w, i) + 1 + t.len() as int) == t
            &&& s[off(w, i) + 1 + t.len()] == 32
            &&& (forall|j: int|
                off(w, i) + 1 <= j < off(w, i) + 1 + t.len() ==> (#[trigger] s[j]) != 32)
            &&& s[off(w, i) + 1] != 105
            &&& off(w, i + 1) == off(w, i) + 1 + t.len()
        }),
        i == w.operands@.len() ==> ({
            let p = off(w, i);
            let q = p + 7 + dec_digits(w.destination.locator).len() as int;
            &&& p + 7 < s.len()
            &&& s[p + 1] == 105 && s[p + 2] == 110 && s[p + 3] == 116 && s[p + 4] == 111
            &&& s[p + 5] == 32 && s[p + 6] == 114
            &&& digit_run_at(s, p + 7, w.destination.locator)
            &&& q + 4 < s.len()
            &&& s[q] == 32 && s[q + 1] == 97 && s[q + 2] == 115 && s[q + 3] == 32
            &&& s.subrange(q + 4, s.len() as int) == vt_text(w.value_type)
            &&& s.len() == q + 4 + vt_text(w.value_type).len()
        }),
{
    let ops = w.operands@;
    let k = ops.len() as int;
    let aa = seq![99u8, 97u8, 115u8, 116u8];
    let mm = seq![32u8, 105u8, 110u8, 116u8, 111u8, 32u8, 114u8];
    let dd = dec_digits(w.destination.locator);
    let s2 = seq![32u8, 97u8, 115u8, 32u8];
    let vv = vt_text(w.value_type);
    lemma_dec_digits_props(w.destination.locator);
    lemma_vt_head_no_dot(w.value_type, 0);
    assert(vv =~= vt_head(w.value_type) + (seq![46u8] + vt_vis(w.value_type)));
    lemma_ops_split(ops, i);
    let ot = ops_text(ops.take(i));
    let tl = ops_tail(ops, i);
    let p = 4 + ot.len() as int;
    let tail = tl + mm + dd + s2 + vv;
    assert(s =~= (aa + ot) + tail);
    assert(s.subrange(0, s.len() as int) =~= s);
    lemma_subrange_shift(s, 0, aa + ot, tail);
    assert forall|j: int| 0 <= j < 4 implies s[j] == aa[j] by {
        assert(s.subrange(0, p)[j] == s[j]);
        assert((aa + ot)[j] == aa[j]);
    }
    assert(ops.take(0) =~= Seq::<Operand>::empty());
    if i < k {
        let t = op_text(ops[i]);
        lemma_op_text_props(ops[i]);
        let t1 = t + ops_tail(ops, i + 1) + mm + dd + s2 + vv;
        assert(tl == seq![32u8] + t + ops_tail(ops, i + 1));
        assert(tail =~= seq![32u8] + t1);
        lemma_subrange_shift(s, p, seq![32u8], t1);
        assert(s.subrange(p, p + 1)[0] == s[p]);
        let t2 = ops_tail(ops, i + 1) + mm + dd + s2 + vv;
        assert(t1 =~= t + t2);
        lemma_subrange_shift(s, p + 1, t, t2);
        assert(t2.len() >= 1) by {
            if i + 1 < k {
                assert(ops_tail(ops, i + 1).len() >= 0);
            }
        }
        assert(s.subrange(p + 1 + t.len(), s.len() as int)[0] == s[p + 1 + t.len()]);
        assert(t2[0] == 32) by {
            if i + 1 < k {
                assert(ops_tail(ops, i + 1) == seq![32u8] + op_text(ops[i + 1]) + ops_tail(
                    ops,
                    i + 2,
                ));
                assert(ops_tail(ops, i + 1)[0] == 32);
            } else {
                assert(ops_tail(ops, i + 1) =~= Seq::<u8>::empty());
                assert(t2 =~= mm + dd + s2 + vv);
                assert((mm + dd + s2 + vv)[0] == 32);
            }
        }
        assert forall|j: int|
            p + 1 <= j < p + 1 + t.len() implies (#[trigger] s[j]) != 32 by {
            assert(s.subrange(p + 1, p + 1 + t.len() as int)[j - p - 1] == s[j]);
        }
        assert(s.subrange(p + 1, p + 1 + t.len() as int)[0] == s[p + 1]);
        assert(ops.take(i + 1).drop_last() =~= ops.take(i));
        assert(ops.take(i + 1).last() == ops[i]);
        assert(ops_text(ops.take(i + 1)) == ops_text(ops.take(i)) + seq![32u8] + op_text(ops[i]));
    } else {
        assert(tl =~= Seq::<u8>::empty());
        assert(tail =~= mm + (dd + (s2 + vv)));
        lemma_subrange_shift(s, p, mm, dd + (s2 + vv));
        assert forall|j: int| 0 <= j < 7 implies s[p + j] == mm[j] by {
            assert(s.subrange(p, p + 7)[j] == s[p + j]);
        }
        lemma_subrange_shift(s, p + 7, dd, s2 + vv);
        let q = p + 7 + dd.len() as int;
        lemma_subrange_shift(s, q, s2, vv);
        assert forall|j: int| 0 <= j < 4 implies s[q + j] == s2[j] by {
            assert(s.subrange(q, q + 4)[j] == s[q + j]);
        }
        assert(digit_run_at(s, p + 7, w.destination.locator));
    }
}

impl Cast {
    /// Prints the instruction to its textual form. Fails with a format
    /// error when the operand count lies outside `[1, max_operands]`.
    pub fn to_text(&self, max_operands: u8) -> (r: Result<Vec<u8>, VmError>)
        ensures
            1 <= self.operands@.len() <= max_operands as int ==> (r matches Ok(v) && v@ == text_of(
                *self,
            )),
            !(1 <= self.operands@.len() <= max_operands as int) ==> r == Err::<Vec<u8>, VmError>(
                VmError::Format,
            ),
    {
        if self.operands.len() == 0 || self.operands.len() > max_operands as usize {
            return Err(VmError::Format);
        }
        let mut out: Vec<u8> = Vec::new();
        out.push(99);
        out.push(97);
        out.push(115);
        out.push(116);
        let ghost ops = self.operands@;
        let mut i: usize = 0;
        proof {
            assert(ops.take(0) =~= Seq::<Operand>::empty());
            assert(out@ =~= seq![99u8, 97u8, 115u8, 116u8] + ops_text(ops.take(0)));
        }
        while i < self.operands.len()
            invariant
                i <= self.operands@.len(),
                ops == self.operands@,
                out@ == seq![99u8, 97u8, 115u8, 116u8] + ops_text(ops.take(i as int)),
            decreases self.operands.len() - i,
        {
            out.push(32);
            push_op_text(&mut out, &self.operands[i]);
            proof {
                assert(ops.take(i + 1).drop_last() =~= ops.take(i as int));
                assert(ops.take(i + 1).last() == ops[i as int]);
                assert(out@ =~= seq![99u8, 97u8, 115u8, 116u8] + ops_text(ops.take(i + 1)));
            }
            i = i + 1;
        }
        proof {
            assert(ops.take(ops.len() as int) =~= ops);
        }
        let ghost mid0 = out@;
        out.push(32);
        out.push(105);
        out.push(110);
        out.push(116);
        out.push(111);
        out.push(32);
        out.push(114);
        proof {
            assert(out@ =~= mid0 + seq![32u8, 105u8, 110u8, 116u8, 111u8, 32u8, 114u8]);
        }
        push_digits(&mut out, self.destination.locator);
        let ghost mid1 = out@;
        out.push(32);
        out.push(97);
        out.push(115);
        out.push(32);
        proof {
            assert(out@ =~= mid1 + seq![32u8, 97u8, 115u8, 32u8]);
        }
        push_vt_text(&mut out, &self.value_type);
        proof {
            assert(out@ =~= text_of(*self));
        }
        Ok(out)
    }

    /// Parses the textual form, consuming the whole string. Exactly the
    /// canonical texts are accepted: the canonical text of every
    /// instruction whose operand count lies in `[1, max_operands]` parses
    /// to an instruction that prints back to the input, and anything else
    /// — runs of whitespace, redundant leading zeros in a number, a count
    /// outside the bounds, trailing bytes — is a parse error, never a
    /// truncation.
    pub fn parse_text(s: &Vec<u8>, max_operands: u8) -> (r: Result<Cast, VmError>)
        ensures
            r matches Ok(c) ==> 1 <= c.operands@.len() <= max_operands as int && s@ == text_of(c),
            (exists|c: Cast|
                1 <= c.operands@.len() <= max_operands as int && s@ == text_of(c)) ==> r is Ok,
    {
        let ghost canonical: bool = exists|c: Cast|
            1 <= c.operands@.len() <= max_operands as int && s@ == text_of(c);
        let ghost w: Cast = if canonical {
            choose|c: Cast| 1 <= c.operands@.len() <= max_operands as int && s@ == text_of(c)
        } else {
            vstd::pervasive::arbitrary()
        };
        proof {
            if canonical {
                lemma_canonical_at(w, 0, s@);
            }
        }
        let n = s.len();
        if n < 4 || s[0] != 99 || s[1] != 97 || s[2] != 115 || s[3] != 116 {
            proof {
                if canonical {
                    assert(false);
                }
            }
            return Err(VmError::Parse);
        }
        let mut pos: usize = 4;
        let mut operands: Vec<Operand> = Vec::new();
        proof {
            if canonical {
                assert(operands@ =~= w.operands@.take(0));
            }
        }
        loop
            invariant_except_break
                pos <= n,
                n == s@.len(),
                canonical == (exists|c: Cast|
                    1 <= c.operands@.len() <= max_operands as int && s@ == text_of(c)),
                canonical ==> (1 <= w.operands@.len() <= max_operands as int && s@ == text_of(w)),
                canonical ==> operands@.len() <= w.operands@.len(),
                canonical ==> operands@ == w.operands@.take(operands@.len() as int),
                canonical ==> pos as int == off(w, operands@.len() as int),
            ensures
                pos <= n,
                n == s@.len(),
                canonical == (exists|c: Cast|
                    1 <= c.operands@.len() <= max_operands as int && s@ == text_of(c)),
                canonical ==> (1 <= w.operands@.len() <= max_operands as int && s@ == text_of(w)),
                canonical ==> operands@ == w.operands@,
                canonical ==> pos as int == off(w, w.operands@.len() as int) + 5,
            decreases n - pos,
        {
            let ghost i0 = operands@.len() as int;
            proof {
                if canonical {
                    lemma_canonical_at(w, i0, s@);
                }
            }
            if pos >= n || s[pos] != 32 {
                proof {
                    if canonical {
                        assert(false);
                    }
                }
                return Err(VmError::Parse);
            }
            pos = pos + 1;
            let tok_start = pos;
            let mut end: usize = pos;
            while end < n && s[end] != 32
                invariant
                    tok_start <= end <= n,
                    n == s@.len(),
                    forall|j: int| tok_start as int <= j < end as int ==> (#[trigger] s@[j]) != 32,
                decreases n - end,
            {
                end = end + 1;
            }
            proof {
                if canonical {
                    if i0 < w.operands@.len() {
                        let t = op_text(w.operands@[i0]);
                        let te = off(w, i0) + 1 + t.len() as int;
                        if (end as int) < te {
                            assert(s@[end as int] != 32);
                            assert(false);
                        }
                        if (end as int) > te {
                            assert(s@[te] != 32);
                            assert(false);
                        }
                    } else {
                        let p = off(w, i0);
                        if (end as int) < p + 5 {
                            assert(s@[end as int] != 32);
                            assert(false);
                        }
                        if (end as int) > p + 5 {
                            assert(s@[p + 5] != 32);
                            assert(false);
                        }
                    }
                }
            }
            if end == pos {
                proof {
                    if canonical {
                        assert(false);
                    }
                }
                return Err(VmError::Parse);
            }
            // The keyword `into` ends the operand list.
            if end - pos == 4 && s[pos] == 105 && s[pos + 1] == 110 && s[pos + 2] == 116 && s[pos
                + 3] == 111 {
                proof {
                    if canonical {
                        if i0 < w.operands@.len() {
                            assert(s@[off(w, i0) + 1] != 105);
                            assert(false);
                        }
                        assert(operands@ =~= w.operands@);
                    }
                }
                pos = end;
                break;
            }
            proof {
                if canonical {
                    if i0 == w.operands@.len() {
                        assert(false);
                    }
                }
            }
            let ghost go: Option<Operand> = if canonical && i0 < w.operands@.len() {
                Some(w.operands@[i0])
            } else {
                None
            };
            let op = match parse_operand_token(s, pos, end, Ghost(go)) {
                Some(o) => o,
                None => {
                    proof {
                        if canonical {
                            assert(false);
                        }
                    }
                    return Err(VmError::Parse);
                },
            };
            operands.push(op);
            proof {
                if canonical {
                    assert(operands@ =~= w.operands@.take(i0 + 1));
                }
            }
            pos = end;
        }
        if operands.len() == 0 || operands.len() > max_operands as usize {
            proof {
                if canonical {
                    assert(false);
                }
            }
            return Err(VmError::Parse);
        }
        proof {
            if canonical {
                lemma_canonical_at(w, w.operands@.len() as int, s@);
                lemma_dec_digits_props(w.destination.locator);
            }
        }
        // The destination register.
        if pos >= n || s[pos] != 32 {
            proof {
                if canonical {
                    assert(false);
                }
            }
            return Err(VmError::Parse);
        }
        pos = pos + 1;
        if pos >= n || s[pos] != 114 {
            proof {
                if canonical {
                    assert(false);
                }
            }
            return Err(VmError::Parse);
        }
        pos = pos + 1;
        let ghost gdst: Option<u64> = if canonical {
            Some(w.destination.locator)
        } else {
            None
        };
        let (dst, p2) = match parse_u64_digits(s, pos, Ghost(gdst)) {
            Some(t) => t,
            None => {
                proof {
                    if canonical {
                        assert(false);
                    }
                }
                return Err(VmError::Parse);
            },
        };
        pos = p2;
        // The keyword `as`.
        if n - pos < 4 || s[pos] != 32 || s[pos + 1] != 97 || s[pos + 2] != 115 || s[pos + 3]
            != 32 {
            proof {
                if canonical {
                    assert(false);
                }
            }
            return Err(VmError::Parse);
        }
        pos = pos + 4;
        // The value type, running to the end of the string.
        let ghost gvt: Option<ValueType> = if canonical {
            Some(w.value_type)
        } else {
            None
        };
        let vt = match parse_value_type_token(s, pos, n, Ghost(gvt)) {
            Some(v) => v,
            None => {
                proof {
                    if canonical {
                        assert(false);
                    }
                }
                return Err(VmError::Parse);
            },
        };
        let c = Cast { operands, destination: Register { locator: dst }, value_type: vt };
        proof {
            if canonical {
                assert(text_of(c) == text_of(w));
            }
        }
        // The parse is accepted only when the instruction prints back to
        // exactly the input, so every accepted text is canonical.
        let printed = match c.to_text(max_operands) {
            Ok(v) => v,
            Err(_) => {
                proof {
                    if canonical {
                        assert(false);
                    }
                }
                return Err(VmError::Parse);
            },
        };
        if !bytes_eq(&printed, s) {
            proof {
                if canonical {
                    assert(false);
                }
            }
            return Err(VmError::Parse);
        }
        Ok(c)
    }
}

/// Appends the token of an operand.
fn push_op_text(out: &mut Vec<u8>, o: &Operand)
    ensures
        final (out)@ == old(out)@ + op_text(*o),
{
    match o {
        Operand::Register(reg) => {
            out.push(114);
            push_digits(out, reg.locator);
            proof {
                assert(out@ =~= old(out)@ + op_text(*o));
            }
        },
        Operand::Literal(Literal::Address(a)) => {
            out.push(97);
            push_digits(out, a.id);
            proof {
                assert(out@ =~= old(out)@ + op_text(*o));
            }
        },
        Operand::Literal(Literal::Boolean(b)) => {
            if *b {
                out.push(116);
                out.push(114);
                out.push(117);
                out.push(101);
            } else {
                out.push(102);
                out.push(97);
                out.push(108);
                out.push(115);
                out.push(101);
            }
            proof {
                assert(out@ =~= old(out)@ + op_text(*o));
            }
        },
        Operand::Literal(Literal::U64(v)) => {
            push_digits(out, *v);
            out.push(117);
            out.push(54);
            out.push(52);
            proof {
                assert(out@ =~= old(out)@ + op_text(*o));
            }
        },
    }
}

/// Appends the token of a plaintext type.
fn push_pt_text(out: &mut Vec<u8>, t: &PlaintextType)
    ensures
        final (out)@ == old(out)@ + pt_text(*t),
{
    match t {
        PlaintextType::Literal(LiteralKind::Address) => {
            out.push(97);
            out.push(100);
            out.push(100);
            out.push(114);
            out.push(101);
            out.push(115);
            out.push(115);
            proof {
                assert(out@ =~= old(out)@ + pt_text(*t));
            }
        },
        PlaintextType::Literal(LiteralKind::Boolean) => {
            out.push(98);
            out.push(111);
            out.push(111);
            out.push(108);
            out.push(101);
            out.push(97);
            out.push(110);
            proof {
                assert(out@ =~= old(out)@ + pt_text(*t));
            }
        },
        PlaintextType::Literal(LiteralKind::U64) => {
            out.push(117);
            out.push(54);
            out.push(52);
            proof {
                assert(out@ =~= old(out)@ + pt_text(*t));
            }
        },
        PlaintextType::Interface(n) => {
            push_digits(out, *n);
        },
    }
}

/// Appends the token of a value type.
fn push_vt_text(out: &mut Vec<u8>, vt: &ValueType)
    ensures
        final (out)@ == old(out)@ + vt_text(*vt),
{
    match vt {
        ValueType::Constant(t) => {
            push_pt_text(out, t);
            out.push(46);
            out.push(99);
            out.push(111);
            out.push(110);
            out.push(115);
            out.push(116);
            out.push(97);
            out.push(110);
            out.push(116);
            proof {
                assert(out@ =~= old(out)@ + vt_text(*vt));
            }
        },
        ValueType::Public(t) => {
            push_pt_text(out, t);
            out.push(46);
            out.push(112);
            out.push(117);
            out.push(98);
            out.push(108);
            out.push(105);
            out.push(99);
            proof {
                assert(out@ =~= old(out)@ + vt_text(*vt));
            }
        },
        ValueType::Private(t) => {
            push_pt_text(out, t);
            out.push(46);
            out.push(112);
            out.push(114);
            out.push(105);
            out.push(118);
            out.push(97);
            out.push(116);
            out.push(101);
            proof {
                assert(out@ =~= old(out)@ + vt_text(*vt));
            }
        },
        ValueType::Record(n) => {
            push_digits(out, *n);
            out.push(46);
            out.push(114);
            out.push(101);
            out.push(99);
            out.push(111);
            out.push(114);
            out.push(100);
            proof {
                assert(out@ =~= old(out)@ + vt_text(*vt));
            }
        },
    }
}

/// Compares two byte strings.
fn bytes_eq(a: &Vec<u8>, b: &Vec<u8>) -> (r: bool)
    ensures
        r == (a@ == b@),
{
    if a.len() != b.len() {
        return false;
    }
    let mut i: usize = 0;
    while i < a.len()
        invariant
            i <= a.len(),
            a@.len() == b@.len(),
            forall|j: int| 0 <= j < i as int ==> a@[j] == b@[j],
        decreases a.len() - i,
    {
        if a[i] != b[i] {
            return false;
        }
        i = i + 1;
    }
    proof {
        assert(a@ =~= b@);
    }
    true
}

/// Whether a byte is a decimal digit.
pub open spec fn is_digit(b: u8) -> bool {
    48 <= b && b <= 57
}

/// The value of a string of decimal digits.
pub open spec fn val_of_digits(s: Seq<u8>) -> int
    decreases s.len(),
{
    if s.len() == 0 {
        0
    } else {
        val_of_digits(s.drop_last()) * 10 + (s.last() - 48)
    }
}

/// The decimal digits of a word are digit bytes whose value is the word,
/// and every proper prefix has a value no greater than the word.
proof fn lemma_dec_digits_props(x: u64)
    ensures
        dec_digits(x).len() >= 1,
        forall|j: int| 0 <= j < dec_digits(x).len() ==> is_digit(#[trigger] dec_digits(x)[j]),
        val_of_digits(dec_digits(x)) == x,
        forall|j: int|
            0 <= j <= dec_digits(x).len() ==> 0 <= val_of_digits(
                #[trigger] dec_digits(x).take(j),
            ) <= x,
    decreases x,
{
    if x < 10 {
        vstd::arithmetic::div_mod::lemma_small_mod((48 + x) as nat, 256);
        assert(((48 + x) as u8) as int == 48 + x as int);
        let dd1 = seq![(48 + x) as u8];
        assert(dd1.drop_last() =~= Seq::<u8>::empty());
        assert(val_of_digits(Seq::<u8>::empty()) == 0);
        assert(val_of_digits(dd1) == (48 + x) as u8 - 48);
        assert(dec_digits(x) =~= dd1);
        assert(dec_digits(x).take(1) =~= dec_digits(x));
        assert(val_of_digits(dec_digits(x)) == x);
        assert(dec_digits(x).drop_last() =~= Seq::<u8>::empty());
        assert forall|j: int|
            0 <= j <= dec_digits(x).len() implies 0 <= val_of_digits(
            #[trigger] dec_digits(x).take(j),
        ) <= x by {
            if j == 0 {
                assert(dec_digits(x).take(0) =~= Seq::<u8>::empty());
            } else {
                assert(dec_digits(x).take(1) =~= dec_digits(x));
            }
        }
    } else {
        lemma_dec_digits_props(x / 10);
        let dd0 = dec_digits(x / 10);
        let dd = dec_digits(x);
        vstd::arithmetic::div_mod::lemma_small_mod((48 + x % 10) as nat, 256);
        assert(((48 + x % 10) as u8) as int == 48 + (x % 10) as int);
        assert(dd == dd0 + seq![(48 + x % 10) as u8]);
        assert(dd.drop_last() =~= dd0);
        assert forall|j: int| 0 <= j < dd.len() implies is_digit(#[trigger] dd[j]) by {
            if j < dd0.len() {
                assert(dd[j] == dd0[j]);
            }
        }
        vstd::arithmetic::div_mod::lemma_fundamental_div_mod(x as int, 10);
        assert(val_of_digits(dd) == x);
        assert forall|j: int|
            0 <= j <= dd.len() implies 0 <= val_of_digits(#[trigger] dd.take(j)) <= x by {
            if j <= dd0.len() {
                assert(dd.take(j) =~= dd0.take(j));
            } else {
                assert(dd.take(j) =~= dd);
            }
        }
    }
}

/// The canonical digits of `x` stand at position `i`, ended by the string
/// or by a non-digit byte.
pub open spec fn digit_run_at(s: Seq<u8>, i: int, x: u64) -> bool {
    &&& 0 <= i
    &&& i + dec_digits(x).len() <= s.len()
    &&& s.subrange(i, i + dec_digits(x).len() as int) == dec_digits(x)
    &&& (i + dec_digits(x).len() == s.len() || !is_digit(s[i + dec_digits(x).len() as int]))
}

/// Reads a run of decimal digits as a 64-bit word, rejecting overflow.
/// When the witness names a word whose canonical digits stand here, that
/// word is returned.
fn parse_u64_digits(s: &Vec<u8>, start: usize, gx: Ghost<Option<u64>>) -> (r: Option<(u64, usize)>)
    ensures
        r matches Some((x, p)) ==> start < p <= s@.len(),
        match gx@ {
            Some(xw) => digit_run_at(s@, start as int, xw) ==> (r matches Some((y, p)) && y == xw
                && p as int == start as int + dec_digits(xw).len()),
            None => true,
        },
{
    let n = s.len();
    if start >= n || s[start] < 48 || s[start] > 57 {
        proof {
            if gx@ is Some {
                let xw = gx@->Some_0;
                if digit_run_at(s@, start as int, xw) {
                    lemma_dec_digits_props(xw);
                    let ll = dec_digits(xw).len() as int;
                    assert(s@.subrange(start as int, start as int + ll)[0] == s@[start as int]);
                    assert(false);
                }
            }
        }
        return None;
    }
    let mut x: u64 = 0;
    let mut pos: usize = start;
    while pos < n && s[pos] >= 48 && s[pos] <= 57
        invariant
            start <= pos <= n,
            n == s@.len(),
            forall|j: int| start as int <= j < pos as int ==> is_digit(#[trigger] s@[j]),
            x as int == val_of_digits(s@.subrange(start as int, pos as int)),
        decreases n - pos,
    {
        let d = (s[pos] - 48) as u64;
        proof {
            if gx@ is Some {
                let xw = gx@->Some_0;
                if digit_run_at(s@, start as int, xw) {
                    lemma_run_next_digit(s@, start as int, pos as int, xw, x);
                }
            }
        }
        if x > u64::MAX / 10 {
            proof {
                if gx@ is Some {
                    let xw = gx@->Some_0;
                    if digit_run_at(s@, start as int, xw) {
                        assert(x as int * 10 <= u64::MAX as int);
                        assert(false);
                    }
                }
            }
            return None;
        }
        x = x * 10;
        if d > u64::MAX - x {
            proof {
                if gx@ is Some {
                    let xw = gx@->Some_0;
                    if digit_run_at(s@, start as int, xw) {
                        assert(x as int + d as int <= u64::MAX as int);
                        assert(false);
                    }
                }
            }
            return None;
        }
        x = x + d;
        pos = pos + 1;
        proof {
            assert(s@.subrange(start as int, pos as int).drop_last() =~= s@.subrange(
                start as int,
                pos as int - 1,
            ));
            assert(s@.subrange(start as int, pos as int).last() == s@[pos as int - 1]);
        }
    }
    proof {
        if gx@ is Some {
            let xw = gx@->Some_0;
            if digit_run_at(s@, start as int, xw) {
                lemma_dec_digits_props(xw);
                let ll = dec_digits(xw).len() as int;
                let j = pos as int - start as int;
                if j < ll {
                    assert(s@.subrange(start as int, start as int + ll)[j] == s@[pos as int]);
                    assert(is_digit(dec_digits(xw)[j]));
                    assert(false);
                }
                if j > ll {
                    assert(is_digit(s@[start as int + ll]));
                    assert(false);
                }
                assert forall|m: int|
                    0 <= m < ll implies s@.subrange(start as int, pos as int)[m] == dec_digits(
                    xw,
                )[m] by {
                    assert(s@.subrange(start as int, start as int + ll)[m] == s@[start as int + m]);
                }
                assert(s@.subrange(start as int, pos as int) =~= dec_digits(xw));
                assert(x as int == val_of_digits(dec_digits(xw)));
            }
        }
    }
    Some((x, pos))
}

/// In the middle of scanning the canonical digits of `xw`, the next byte
/// is the next digit, and extending the scanned value by it stays within
/// the word.
proof fn lemma_run_next_digit(s: Seq<u8>, start: int, pos: int, xw: u64, x: u64)
    requires
        digit_run_at(s, start, xw),
        start <= pos < s.len(),
        is_digit(s[pos]),
        forall|j: int| start <= j < pos ==> is_digit(#[trigger] s[j]),
        x as int == val_of_digits(s.subrange(start, pos)),
    ensures
        x as int * 10 + (s[pos] - 48) <= xw,
{
    lemma_dec_digits_props(xw);
    let ll = dec_digits(xw).len() as int;
    let j = pos - start;
    if j >= ll {
        if start + ll == s.len() {
            assert(false);
        } else {
            if j > ll {
                assert(is_digit(s[start + ll]));
            }
            assert(false);
        }
    }
    assert forall|m: int|
        0 <= m < j implies s.subrange(start, pos)[m] == dec_digits(xw).take(j)[m] by {
        assert(s.subrange(start, start + ll)[m] == s[start + m]);
    }
    assert(s.subrange(start, pos) =~= dec_digits(xw).take(j));
    assert(s.subrange(start, start + ll)[j] == s[pos]);
    assert(dec_digits(xw).take(j + 1).drop_last() =~= dec_digits(xw).take(j));
    assert(dec_digits(xw).take(j + 1).last() == dec_digits(xw)[j]);
    assert(val_of_digits(dec_digits(xw).take(j + 1)) == x as int * 10 + (s[pos] - 48));
    assert(val_of_digits(dec_digits(xw).take(j + 1)) <= xw);
}

/// The token of an operand never holds a space, never starts the keyword
/// `into`, and is never empty.
proof fn lemma_op_text_props(o: Operand)
    ensures
        op_text(o).len() >= 1,
        forall|j: int| 0 <= j < op_text(o).len() ==> (#[trigger] op_text(o)[j]) != 32,
        op_text(o)[0] != 105,
{
    match o {
        Operand::Register(rg) => {
            lemma_dec_digits_props(rg.locator);
            assert forall|j: int|
                0 <= j < op_text(o).len() implies (#[trigger] op_text(o)[j]) != 32 by {
                if j >= 1 {
                    assert(op_text(o)[j] == dec_digits(rg.locator)[j - 1]);
                }
            }
        },
        Operand::Literal(Literal::Address(ad)) => {
            lemma_dec_digits_props(ad.id);
            assert forall|j: int|
                0 <= j < op_text(o).len() implies (#[trigger] op_text(o)[j]) != 32 by {
                if j >= 1 {
                    assert(op_text(o)[j] == dec_digits(ad.id)[j - 1]);
                }
            }
        },
        Operand::Literal(Literal::Boolean(_)) => {},
        Operand::Literal(Literal::U64(v)) => {
            lemma_dec_digits_props(v);
            let dl = dec_digits(v).len() as int;
            assert forall|j: int|
                0 <= j < op_text(o).len() implies (#[trigger] op_text(o)[j]) != 32 by {
                if j < dl {
                    assert(op_text(o)[j] == dec_digits(v)[j]);
                }
            }
            assert(op_text(o)[0] == dec_digits(v)[0]);
        },
    }
}

/// What the bytes of an operand token force at each position, per the
/// operand's shape.
proof fn lemma_op_token_facts(s: Seq<u8>, a: int, b: int, o: Operand)
    requires
        0 <= a < b <= s.len(),
        b - a == op_text(o).len(),
        s.subrange(a, b) == op_text(o),
        b == s.len() || !is_digit(s[b]),
    ensures
        match o {
            Operand::Register(rg) => s[a] == 114 && digit_run_at(s, a + 1, rg.locator) && b == a
                + 1 + dec_digits(rg.locator).len(),
            Operand::Literal(Literal::Address(ad)) => s[a] == 97 && digit_run_at(s, a + 1, ad.id)
                && b == a + 1 + dec_digits(ad.id).len(),
            Operand::Literal(Literal::Boolean(bb)) => {
                if bb {
                    b - a == 4 && s[a] == 116 && s[a + 1] == 114 && s[a + 2] == 117 && s[a + 3]
                        == 101
                } else {
                    b - a == 5 && s[a] == 102 && s[a + 1] == 97 && s[a + 2] == 108 && s[a + 3]
                        == 115 && s[a + 4] == 101
                }
            },
            Operand::Literal(Literal::U64(v)) => is_digit(s[a]) && digit_run_at(s, a, v) && b == a
                + dec_digits(v).len() + 3 && s[b - 3] == 117 && s[b - 2] == 54 && s[b - 1] == 52,
        },
{
    match o {
        Operand::Register(rg) => {
            lemma_subrange_shift(s, a, seq![114u8], dec_digits(rg.locator));
            assert(s.subrange(a, a + 1)[0] == s[a]);
        },
        Operand::Literal(Literal::Address(ad)) => {
            lemma_subrange_shift(s, a, seq![97u8], dec_digits(ad.id));
            assert(s.subrange(a, a + 1)[0] == s[a]);
        },
        Operand::Literal(Literal::Boolean(bb)) => {
            if bb {
                assert(s.subrange(a, b)[0] == s[a]);
                assert(s.subrange(a, b)[1] == s[a + 1]);
                assert(s.subrange(a, b)[2] == s[a + 2]);
                assert(s.subrange(a, b)[3] == s[a + 3]);
            } else {
                assert(s.subrange(a, b)[0] == s[a]);
                assert(s.subrange(a, b)[1] == s[a + 1]);
                assert(s.subrange(a, b)[2] == s[a + 2]);
                assert(s.subrange(a, b)[3] == s[a + 3]);
                assert(s.subrange(a, b)[4] == s[a + 4]);
            }
        },
        Operand::Literal(Literal::U64(v)) => {
            lemma_dec_digits_props(v);
            let dl = dec_digits(v).len() as int;
            lemma_subrange_shift(s, a, dec_digits(v), seq![117u8, 54u8, 52u8]);
            assert(s.subrange(a, a + dl)[0] == s[a]);
            assert(s.subrange(a + dl, b)[0] == s[a + dl]);
            assert(s.subrange(a + dl, b)[1] == s[a + dl + 1]);
            assert(s.subrange(a + dl, b)[2] == s[a + dl + 2]);
        },
    }
}

/// Reads one operand token spanning exactly `[start, end)`. When the
/// witness names the operand whose token stands here, that operand is
/// returned.
fn parse_operand_token(s: &Vec<u8>, start: usize, end: usize, go: Ghost<Option<Operand>>) -> (r:
    Option<Operand>)
    requires
        start < end <= s@.len(),
        match go@ {
            Some(o) => end as int - start as int == op_text(o).len() && s@.subrange(
                start as int,
                end as int,
            ) == op_text(o) && (end as int == s@.len() || !is_digit(s@[end as int])),
            None => true,
        },
    ensures
        match go@ {
            Some(o) => r == Some(o),
            None => true,
        },
{
    proof {
        if go@ is Some {
            lemma_op_token_facts(s@, start as int, end as int, go@->Some_0);
        }
    }
    let ghost gd_reg: Option<u64> = match go@ {
        Some(Operand::Register(rg)) => Some(rg.locator),
        _ => None,
    };
    let ghost gd_addr: Option<u64> = match go@ {
        Some(Operand::Literal(Literal::Address(ad))) => Some(ad.id),
        _ => None,
    };
    let ghost gd_u64: Option<u64> = match go@ {
        Some(Operand::Literal(Literal::U64(v))) => Some(v),
        _ => None,
    };
    let first = s[start];
    if first == 114 {
        // `r<digits>`: a register reference.
        match parse_u64_digits(s, start + 1, Ghost(gd_reg)) {
            Some((x, p)) if p == end => Some(Operand::Register(Register { locator: x })),
            _ => None,
        }
    } else if first == 97 {
        // `a<digits>`: an address literal.
        match parse_u64_digits(s, start + 1, Ghost(gd_addr)) {
            Some((x, p)) if p == end => Some(Operand::Literal(Literal::Address(Address { id: x }))),
            _ => None,
        }
    } else if first == 116 {
        if end - start == 4 && s[start + 1] == 114 && s[start + 2] == 117 && s[start + 3] == 101 {
            Some(Operand::Literal(Literal::Boolean(true)))
        } else {
            None
        }
    } else if first == 102 {
        if end - start == 5 && s[start + 1] == 97 && s[start + 2] == 108 && s[start + 3] == 115
            && s[start + 4] == 101 {
            Some(Operand::Literal(Literal::Boolean(false)))
        } else {
            None
        }
    } else if first >= 48 && first <= 57 {
        // `<digits>u64`: a 64-bit literal.
        match parse_u64_digits(s, start, Ghost(gd_u64)) {
            Some((x, p)) => {
                if p <= end && end - p == 3 && s[p] == 117 && s[p + 1] == 54 && s[p + 2] == 52 {
                    Some(Operand::Literal(Literal::U64(x)))
                } else {
                    None
                }
            },
            None => None,
        }
    } else {
        None
    }
}

/// Matches the bytes of `[start, end)` against a pattern.
fn suffix_eq(s: &Vec<u8>, start: usize, end: usize, pat: &Vec<u8>) -> (r: bool)
    requires
        end <= s@.len(),
    ensures
        start <= end ==> r == (s@.subrange(start as int, end as int) == pat@),
        end < start ==> r == false,
{
    if end < start {
        return false;
    }
    if end - start != pat.len() {
        proof {
            assert(s@.subrange(start as int, end as int).len() != pat@.len());
        }
        return false;
    }
    let mut i: usize = 0;
    while i < pat.len()
        invariant
            start + pat@.len() == end,
            end <= s@.len(),
            i <= pat@.len(),
            forall|j: int| 0 <= j < i as int ==> s@[start as int + j] == pat@[j],
        decreases pat.len() - i,
    {
        if s[start + i] != pat[i] {
            proof {
                assert(s@.subrange(start as int, end as int)[i as int] == s@[start as int
                    + i as int]);
            }
            return false;
        }
        i = i + 1;
    }
    proof {
        assert forall|j: int|
            0 <= j < pat@.len() implies s@.subrange(start as int, end as int)[j] == pat@[j] by {
            assert(s@.subrange(start as int, end as int)[j] == s@[start as int + j]);
        }
        assert(s@.subrange(start as int, end as int) =~= pat@);
    }
    true
}

/// The head of a value-type token: the plaintext-type token or the record
/// identifier's digits.
pub open spec fn vt_head(vt: ValueType) -> Seq<u8> {
    match vt {
        ValueType::Constant(t) => pt_text(t),
        ValueType::Public(t) => pt_text(t),
        ValueType::Private(t) => pt_text(t),
        ValueType::Record(n) => dec_digits(n),
    }
}

/// The visibility suffix of a value-type token, after the dot.
pub open spec fn vt_vis(vt: ValueType) -> Seq<u8> {
    match vt {
        ValueType::Constant(_) => seq![99u8, 111u8, 110u8, 115u8, 116u8, 97u8, 110u8, 116u8],
        ValueType::Public(_) => seq![112u8, 117u8, 98u8, 108u8, 105u8, 99u8],
        ValueType::Private(_) => seq![112u8, 114u8, 105u8, 118u8, 97u8, 116u8, 101u8],
        ValueType::Record(_) => seq![114u8, 101u8, 99u8, 111u8, 114u8, 100u8],
    }
}

/// What the bytes of a value-type token force: a dot-free head, the dot,
/// and the visibility suffix, with the head's digits where the type is
/// named by an identifier.
proof fn lemma_vt_token_facts(s: Seq<u8>, a: int, b: int, vt: ValueType)
    requires
        0 <= a <= b <= s.len(),
        b - a == vt_text(vt).len(),
        s.subrange(a, b) == vt_text(vt),
    ensures
        vt_head(vt).len() >= 1,
        a + vt_head(vt).len() < b,
        forall|j: int| a <= j < a + vt_head(vt).len() ==> (#[trigger] s[j]) != 46,
        s[a + vt_head(vt).len()] == 46,
        s.subrange(a, a + vt_head(vt).len() as int) == vt_head(vt),
        s.subrange(a + vt_head(vt).len() + 1, b) == vt_vis(vt),
        b == a + vt_head(vt).len() + 1 + vt_vis(vt).len(),
        match vt {
            ValueType::Record(nm) => is_digit(s[a]) && digit_run_at(s, a, nm),
            ValueType::Constant(t) => match t {
                PlaintextType::Interface(nm) => is_digit(s[a]) && digit_run_at(s, a, nm),
                PlaintextType::Literal(_) => !is_digit(s[a]),
            },
            ValueType::Public(t) => match t {
                PlaintextType::Interface(nm) => is_digit(s[a]) && digit_run_at(s, a, nm),
                PlaintextType::Literal(_) => !is_digit(s[a]),
            },
            ValueType::Private(t) => match t {
                PlaintextType::Interface(nm) => is_digit(s[a]) && digit_run_at(s, a, nm),
                PlaintextType::Literal(_) => !is_digit(s[a]),
            },
        },
{
    let hd = vt_head(vt);
    let vis = vt_vis(vt);
    let hl = hd.len() as int;
    assert(vt_text(vt) =~= hd + (seq![46u8] + vis));
    lemma_subrange_shift(s, a, hd, seq![46u8] + vis);
    lemma_subrange_shift(s, a + hl, seq![46u8], vis);
    assert(s.subrange(a + hl, a + hl + 1)[0] == s[a + hl]);
    assert forall|j: int| a <= j < a + hl implies (#[trigger] s[j]) != 46 by {
        assert(s.subrange(a, a + hl)[j - a] == s[j]);
        assert(hd[j - a] != 46) by {
            lemma_vt_head_no_dot(vt, j - a);
        }
    }
    assert(s.subrange(a, a + hl)[0] == s[a]);
    match vt {
        ValueType::Record(nm) => {
            lemma_dec_digits_props(nm);
        },
        ValueType::Constant(t) | ValueType::Public(t) | ValueType::Private(t) => {
            match t {
                PlaintextType::Interface(nm) => {
                    lemma_dec_digits_props(nm);
                },
                PlaintextType::Literal(_) => {},
            }
        },
    }
}

/// No byte of a value-type token's head is a dot, and the head is
/// nonempty.
proof fn lemma_vt_head_no_dot(vt: ValueType, j: int)
    ensures
        vt_head(vt).len() >= 1,
        0 <= j < vt_head(vt).len() ==> vt_head(vt)[j] != 46,
{
    match vt {
        ValueType::Record(nm) => {
            lemma_dec_digits_props(nm);
        },
        ValueType::Constant(t) | ValueType::Public(t) | ValueType::Private(t) => {
            match t {
                PlaintextType::Interface(nm) => {
                    lemma_dec_digits_props(nm);
                },
                PlaintextType::Literal(_) => {},
            }
        },
    }
}

/// Reads the value-type token spanning exactly `[start, end)`. When the
/// witness names the value type whose token stands here, that value type
/// is returned.
fn parse_value_type_token(s: &Vec<u8>, start: usize, end: usize, gv: Ghost<Option<ValueType>>) -> (r:
    Option<ValueType>)
    requires
        end <= s@.len(),
        match gv@ {
            Some(vt) => start as int <= end as int && end as int - start as int == vt_text(
                vt,
            ).len() && s@.subrange(start as int, end as int) == vt_text(vt),
            None => true,
        },
    ensures
        match gv@ {
            Some(vt) => r == Some(vt),
            None => true,
        },
{
    proof {
        if gv@ is Some {
            lemma_vt_token_facts(s@, start as int, end as int, gv@->Some_0);
        }
    }
    if start >= end {
        return None;
    }
    // Split at the dot.
    let mut dot: usize = start;
    while dot < end && s[dot] != 46
        invariant
            start <= dot <= end <= s@.len(),
            forall|j: int| start as int <= j < dot as int ==> (#[trigger] s@[j]) != 46,
        decreases end - dot,
    {
        dot = dot + 1;
    }
    if dot == end || dot == start {
        return None;
    }
    let ghost gname: Option<u64> = match gv@ {
        Some(ValueType::Record(nm)) => Some(nm),
        Some(ValueType::Constant(PlaintextType::Interface(nm))) => Some(nm),
        Some(ValueType::Public(PlaintextType::Interface(nm))) => Some(nm),
        Some(ValueType::Private(PlaintextType::Interface(nm))) => Some(nm),
        _ => None,
    };
    let first = s[start];
    let vis_start = dot + 1;
    let record_pat: Vec<u8> = vec![114, 101, 99, 111, 114, 100];
    let constant_pat: Vec<u8> = vec![99, 111, 110, 115, 116, 97, 110, 116];
    let public_pat: Vec<u8> = vec![112, 117, 98, 108, 105, 99];
    let private_pat: Vec<u8> = vec![112, 114, 105, 118, 97, 116, 101];
    if first >= 48 && first <= 57 {
        // An interface or record identifier in digits.
        let name = match parse_u64_digits(s, start, Ghost(gname)) {
            Some((x, p)) if p == dot => x,
            _ => {
                return None;
            },
        };
        if suffix_eq(s, vis_start, end, &record_pat) {
            Some(ValueType::Record(name))
        } else if suffix_eq(s, vis_start, end, &constant_pat) {
            Some(ValueType::Constant(PlaintextType::Interface(name)))
        } else if suffix_eq(s, vis_start, end, &public_pat) {
            Some(ValueType::Public(PlaintextType::Interface(name)))
        } else if suffix_eq(s, vis_start, end, &private_pat) {
            Some(ValueType::Private(PlaintextType::Interface(name)))
        } else {
            None
        }
    } else {
        // A literal kind.
        let address_pat: Vec<u8> = vec![97, 100, 100, 114, 101, 115, 115];
        let boolean_pat: Vec<u8> = vec![98, 111, 111, 108, 101, 97, 110];
        let u64_pat: Vec<u8> = vec![117, 54, 52];
        let kind: LiteralKind = if suffix_eq(s, start, dot, &address_pat) {
            LiteralKind::Address
        } else if suffix_eq(s, start, dot, &boolean_pat) {
            LiteralKind::Boolean
        } else if suffix_eq(s, start, dot, &u64_pat) {
            LiteralKind::U64
        } else {
            return None;
        };
        if suffix_eq(s, vis_start, end, &constant_pat) {
            Some(ValueType::Constant(PlaintextType::Literal(kind)))
        } else if suffix_eq(s, vis_start, end, &public_pat) {
            Some(ValueType::Public(PlaintextType::Literal(kind)))
        } else if suffix_eq(s, vis_start, end, &private_pat) {
            Some(ValueType::Private(PlaintextType::Literal(kind)))
        } else {
            None
        }
    }
}

} // verus!
