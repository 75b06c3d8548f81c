use cast_ledger::cast::Cast;
use cast_ledger::crypto::{derive_serial_number, derive_tag};
use cast_ledger::ledger::{Ledger, PrivateKey, RecordsFilter, ViewKey};
use cast_ledger::model::{Address, Balance, Entry, Literal, LiteralKind, Owner, Plaintext, Record, StackValue};
use cast_ledger::program::{
    EntryType, InterfaceDef, Operand, PlaintextType, Program, RecordDef, Register, RegisterType,
    ValueType, VmError,
};
use cast_ledger::stack::Stack;

const BOUND: u64 = 1u64 << 52;

fn addr_lit(id: u64) -> Operand {
    Operand::Literal(Literal::Address(Address { id }))
}

fn u64_lit(v: u64) -> Operand {
    Operand::Literal(Literal::U64(v))
}

fn token_program() -> Program {
    // Record 7: private owner, private balance, one private u64 entry named 1.
    // Interface 9: one u64 member named 3, one boolean member named 4.
    Program {
        interfaces: vec![InterfaceDef {
            name: 9,
            members: vec![
                (3, PlaintextType::Literal(LiteralKind::U64)),
                (4, PlaintextType::Literal(LiteralKind::Boolean)),
            ],
        }],
        records: vec![RecordDef {
            name: 7,
            owner_public: false,
            balance_public: false,
            entries: vec![(1, EntryType::Private(PlaintextType::Literal(LiteralKind::U64)))],
        }],
    }
}

fn field_bytes(x: u8) -> Vec<u8> {
    let mut v = vec![0u8; 32];
    v[0] = x;
    v
}

#[test]
fn opcode_is_cast() {
    assert_eq!(Cast::opcode().mnemonic(), "cast");
    assert!(Cast::opcode().is_cast());
}

#[test]
fn record_cast_stores_fields_under_visibilities() {
    let prog = token_program();
    let cast = Cast::new(
        vec![addr_lit(5), u64_lit(100), u64_lit(42)],
        Register { locator: 0 },
        ValueType::Record(7),
    );
    let mut stack = Stack::new(1);
    assert_eq!(cast.evaluate(&mut stack, &prog), Ok(()));
    let expected = Record {
        owner: Owner::Private(Plaintext::Literal(Literal::Address(Address { id: 5 }))),
        balance: Balance::Private(Plaintext::Literal(Literal::U64(100))),
        entries: vec![(1, Entry::Private(Plaintext::Literal(Literal::U64(42))))],
    };
    assert_eq!(stack.regs[0], Some(StackValue::Record(expected)));
}

#[test]
fn record_cast_public_visibilities() {
    let mut prog = token_program();
    prog.records[0].owner_public = true;
    prog.records[0].balance_public = true;
    let cast = Cast::new(
        vec![addr_lit(5), u64_lit(100), u64_lit(42)],
        Register { locator: 0 },
        ValueType::Record(7),
    );
    let mut stack = Stack::new(1);
    assert_eq!(cast.evaluate(&mut stack, &prog), Ok(()));
    match &stack.regs[0] {
        Some(StackValue::Record(r)) => {
            assert_eq!(r.owner, Owner::Public(Address { id: 5 }));
            assert_eq!(r.balance, Balance::Public(100));
        }
        other => panic!("expected a record, found {:?}", other),
    }
}

#[test]
fn balance_at_bound_fails_below_succeeds() {
    let prog = token_program();
    let mut stack = Stack::new(1);
    let cast = Cast::new(
        vec![addr_lit(5), u64_lit(BOUND), u64_lit(0)],
        Register { locator: 0 },
        ValueType::Record(7),
    );
    assert_eq!(cast.evaluate(&mut stack, &prog), Err(VmError::InvalidValue));
    let cast2 = Cast::new(
        vec![addr_lit(5), u64_lit(BOUND - 1), u64_lit(0)],
        Register { locator: 0 },
        ValueType::Record(7),
    );
    assert_eq!(cast2.evaluate(&mut stack, &prog), Ok(()));
}

#[test]
fn interface_cast_zero_operands_is_arity_error() {
    let prog = token_program();
    let mut stack = Stack::new(1);
    let cast = Cast::new(
        vec![],
        Register { locator: 0 },
        ValueType::Private(PlaintextType::Interface(9)),
    );
    assert_eq!(cast.evaluate(&mut stack, &prog), Err(VmError::Arity));
}

#[test]
fn record_cast_one_operand_is_arity_error() {
    let prog = token_program();
    let mut stack = Stack::new(1);
    let cast = Cast::new(vec![addr_lit(5)], Register { locator: 0 }, ValueType::Record(7));
    assert_eq!(cast.evaluate(&mut stack, &prog), Err(VmError::Arity));
}

#[test]
fn interface_cast_builds_members_in_order() {
    let prog = token_program();
    let mut stack = Stack::new(1);
    let cast = Cast::new(
        vec![u64_lit(11), Operand::Literal(Literal::Boolean(true))],
        Register { locator: 0 },
        ValueType::Private(PlaintextType::Interface(9)),
    );
    assert_eq!(cast.evaluate(&mut stack, &prog), Ok(()));
    let expected = Plaintext::Interface(vec![
        (3, Plaintext::Literal(Literal::U64(11))),
        (4, Plaintext::Literal(Literal::Boolean(true))),
    ]);
    assert_eq!(stack.regs[0], Some(StackValue::Plaintext(expected)));
}

#[test]
fn output_type_rejects_count_mismatch_before_types() {
    let prog = token_program();
    let cast = Cast::new(vec![u64_lit(1)], Register { locator: 0 }, ValueType::Record(7));
    // The sole input type is nonsense for a record cast, but the count is
    // checked first.
    let types = vec![RegisterType::Record(999), RegisterType::Record(999)];
    assert_eq!(cast.output_type(&prog, &types), Err(VmError::Arity));
    let empty: Vec<RegisterType> = vec![];
    assert_eq!(cast.output_type(&prog, &empty), Err(VmError::Arity));
}

#[test]
fn output_type_interface_and_record() {
    let prog = token_program();
    let icast = Cast::new(
        vec![u64_lit(1), Operand::Literal(Literal::Boolean(false))],
        Register { locator: 0 },
        ValueType::Public(PlaintextType::Interface(9)),
    );
    let itypes = vec![
        RegisterType::Plaintext(PlaintextType::Literal(LiteralKind::U64)),
        RegisterType::Plaintext(PlaintextType::Literal(LiteralKind::Boolean)),
    ];
    assert_eq!(
        icast.output_type(&prog, &itypes),
        Ok(RegisterType::Plaintext(PlaintextType::Interface(9)))
    );
    let rcast = Cast::new(
        vec![addr_lit(5), u64_lit(1), u64_lit(2)],
        Register { locator: 0 },
        ValueType::Record(7),
    );
    // The first two input types, the intended owner and balance, are not
    // inspected for a record target; only the entries are paired.
    let rtypes = vec![
        RegisterType::Plaintext(PlaintextType::Literal(LiteralKind::Boolean)),
        RegisterType::Plaintext(PlaintextType::Literal(LiteralKind::Boolean)),
        RegisterType::Plaintext(PlaintextType::Literal(LiteralKind::U64)),
    ];
    assert_eq!(rcast.output_type(&prog, &rtypes), Ok(RegisterType::Record(7)));
    let bad = vec![
        RegisterType::Plaintext(PlaintextType::Literal(LiteralKind::Boolean)),
        RegisterType::Plaintext(PlaintextType::Literal(LiteralKind::Boolean)),
        RegisterType::Plaintext(PlaintextType::Literal(LiteralKind::Boolean)),
    ];
    assert_eq!(rcast.output_type(&prog, &bad), Err(VmError::TypeMismatch));
}

#[test]
fn record_value_as_member_is_illegal_cast() {
    let prog = token_program();
    // Put a record into register 0 first.
    let mut stack = Stack::new(2);
    let mk = Cast::new(
        vec![addr_lit(5), u64_lit(1), u64_lit(2)],
        Register { locator: 0 },
        ValueType::Record(7),
    );
    assert_eq!(mk.evaluate(&mut stack, &prog), Ok(()));
    // An interface member fed from that register is illegal.
    let icast = Cast::new(
        vec![Operand::Register(Register { locator: 0 }), Operand::Literal(Literal::Boolean(true))],
        Register { locator: 1 },
        ValueType::Private(PlaintextType::Interface(9)),
    );
    assert_eq!(icast.evaluate(&mut stack, &prog), Err(VmError::IllegalCast));
    // A record entry fed from that register is illegal too.
    let rcast = Cast::new(
        vec![addr_lit(5), u64_lit(1), Operand::Register(Register { locator: 0 })],
        Register { locator: 1 },
        ValueType::Record(7),
    );
    assert_eq!(rcast.evaluate(&mut stack, &prog), Err(VmError::IllegalCast));
}

#[test]
fn literal_target_is_unsupported() {
    let prog = token_program();
    let mut stack = Stack::new(1);
    let cast = Cast::new(
        vec![u64_lit(1)],
        Register { locator: 0 },
        ValueType::Constant(PlaintextType::Literal(LiteralKind::U64)),
    );
    assert_eq!(cast.evaluate(&mut stack, &prog), Err(VmError::UnsupportedCast));
}

#[test]
fn undefined_names_are_lookup_errors() {
    let prog = token_program();
    let mut stack = Stack::new(1);
    let c1 = Cast::new(
        vec![u64_lit(1)],
        Register { locator: 0 },
        ValueType::Public(PlaintextType::Interface(999)),
    );
    assert_eq!(c1.evaluate(&mut stack, &prog), Err(VmError::Lookup));
    let c2 = Cast::new(
        vec![addr_lit(5), u64_lit(1)],
        Register { locator: 0 },
        ValueType::Record(999),
    );
    assert_eq!(c2.evaluate(&mut stack, &prog), Err(VmError::Lookup));
}

#[test]
fn member_type_mismatch() {
    let prog = token_program();
    let mut stack = Stack::new(1);
    let cast = Cast::new(
        vec![Operand::Literal(Literal::Boolean(true)), Operand::Literal(Literal::Boolean(true))],
        Register { locator: 0 },
        ValueType::Private(PlaintextType::Interface(9)),
    );
    assert_eq!(cast.evaluate(&mut stack, &prog), Err(VmError::TypeMismatch));
}

#[test]
fn unresolved_register_and_double_write() {
    let prog = token_program();
    let mut stack = Stack::new(1);
    let c1 = Cast::new(
        vec![Operand::Register(Register { locator: 0 }), u64_lit(1)],
        Register { locator: 0 },
        ValueType::Private(PlaintextType::Interface(9)),
    );
    assert_eq!(c1.evaluate(&mut stack, &prog), Err(VmError::UnresolvedRegister));
    let mk = Cast::new(
        vec![u64_lit(1), Operand::Literal(Literal::Boolean(false))],
        Register { locator: 0 },
        ValueType::Private(PlaintextType::Interface(9)),
    );
    assert_eq!(mk.evaluate(&mut stack, &prog), Ok(()));
    assert_eq!(mk.evaluate(&mut stack, &prog), Err(VmError::DoubleWrite));
}

#[test]
fn codec_round_trip() {
    let cast = Cast::new(
        vec![
            Operand::Register(Register { locator: 3 }),
            addr_lit(77),
            Operand::Literal(Literal::Boolean(true)),
            u64_lit(123456789),
        ],
        Register { locator: 9 },
        ValueType::Record(7),
    );
    let bytes = cast.to_bytes(8).unwrap();
    assert_eq!(Cast::from_bytes(&bytes, 8), Ok(cast.clone()));
    let cast2 = Cast::new(
        vec![u64_lit(0)],
        Register { locator: 0 },
        ValueType::Constant(PlaintextType::Literal(LiteralKind::Boolean)),
    );
    let bytes2 = cast2.to_bytes(8).unwrap();
    assert_eq!(Cast::from_bytes(&bytes2, 8), Ok(cast2));
}

#[test]
fn codec_rejects_out_of_bounds_counts() {
    let none = Cast::new(vec![], Register { locator: 0 }, ValueType::Record(7));
    assert_eq!(none.to_bytes(8), Err(VmError::Format));
    let three = Cast::new(
        vec![u64_lit(1), u64_lit(2), u64_lit(3)],
        Register { locator: 0 },
        ValueType::Record(7),
    );
    assert_eq!(three.to_bytes(2), Err(VmError::Format));
    // A zero count byte fails decoding.
    assert_eq!(Cast::from_bytes(&vec![0u8], 8), Err(VmError::Format));
    // A count byte above the bound fails decoding.
    assert_eq!(Cast::from_bytes(&vec![9u8, 0, 0], 8), Err(VmError::Format));
    // Trailing bytes fail decoding.
    let one = Cast::new(vec![u64_lit(1)], Register { locator: 0 }, ValueType::Record(7));
    let mut bytes = one.to_bytes(8).unwrap();
    bytes.push(0);
    assert_eq!(Cast::from_bytes(&bytes, 8), Err(VmError::Format));
}

fn owned_record(owner_id: u64, balance: u64) -> Record {
    Record {
        owner: Owner::Private(Plaintext::Literal(Literal::Address(Address { id: owner_id }))),
        balance: Balance::Private(Plaintext::Literal(Literal::U64(balance))),
        entries: vec![],
    }
}

#[test]
fn unspent_yields_owned_record_spent_yields_nothing() {
    let ledger = Ledger {
        records: vec![(field_bytes(1), owned_record(5, 100))],
        spent_serial_numbers: vec![],
        spent_tags: vec![],
    };
    let vk = ViewKey { address: Address { id: 5 }, sk_tag: field_bytes(2) };
    let unspent = ledger.find_records(&vk, &RecordsFilter::Unspent);
    assert_eq!(unspent, vec![(field_bytes(1), owned_record(5, 100))]);
    let spent = ledger.find_records(&vk, &RecordsFilter::Spent);
    assert_eq!(spent, vec![]);
}

#[test]
fn spent_and_unspent_partition_owned_records() {
    let c1 = field_bytes(1);
    let c2 = field_bytes(3);
    let sk_tag = field_bytes(2);
    let t1 = derive_tag(&sk_tag, &c1).unwrap();
    let ledger = Ledger {
        records: vec![
            (c1.clone(), owned_record(5, 100)),
            (c2.clone(), owned_record(5, 200)),
            (field_bytes(4), owned_record(6, 300)),
        ],
        spent_serial_numbers: vec![],
        spent_tags: vec![t1],
    };
    let vk = ViewKey { address: Address { id: 5 }, sk_tag };
    let spent = ledger.find_records(&vk, &RecordsFilter::Spent);
    assert_eq!(spent, vec![(c1, owned_record(5, 100))]);
    let unspent = ledger.find_records(&vk, &RecordsFilter::Unspent);
    assert_eq!(unspent, vec![(c2, owned_record(5, 200))]);
    let all = ledger.find_records(&vk, &RecordsFilter::All);
    assert_eq!(all.len(), 2);
}

#[test]
fn slow_filters_use_serial_numbers() {
    let c1 = field_bytes(1);
    let c2 = field_bytes(3);
    let pk = PrivateKey { sk_sig: field_bytes(9) };
    let sn1 = derive_serial_number(&pk.sk_sig, &c1).unwrap();
    let ledger = Ledger {
        records: vec![(c1.clone(), owned_record(5, 100)), (c2.clone(), owned_record(5, 200))],
        spent_serial_numbers: vec![sn1],
        spent_tags: vec![],
    };
    let vk = ViewKey { address: Address { id: 5 }, sk_tag: field_bytes(2) };
    let spent = ledger.find_records(&vk, &RecordsFilter::SlowSpent(PrivateKey {
        sk_sig: field_bytes(9),
    }));
    assert_eq!(spent, vec![(c1, owned_record(5, 100))]);
    let unspent = ledger.find_records(&vk, &RecordsFilter::SlowUnspent(PrivateKey {
        sk_sig: field_bytes(9),
    }));
    assert_eq!(unspent, vec![(c2, owned_record(5, 200))]);
}

#[test]
fn tag_derivation_is_nontrivial() {
    let sk_tag = field_bytes(2);
    let c = field_bytes(1);
    let t = derive_tag(&sk_tag, &c).unwrap();
    assert_ne!(t, c);
    assert_ne!(t, sk_tag);
    let t2 = derive_tag(&sk_tag, &field_bytes(3)).unwrap();
    assert_ne!(t, t2);
    // Non-canonical field bytes make the derivation fail.
    assert_eq!(derive_tag(&vec![0xffu8; 32], &c), None);
}

#[test]
fn serial_number_derivation_is_nontrivial() {
    let c = field_bytes(1);
    let sn_a = derive_serial_number(&field_bytes(9), &c).unwrap();
    let sn_b = derive_serial_number(&field_bytes(10), &c).unwrap();
    assert_ne!(sn_a, c);
    assert_ne!(sn_a, sn_b);
    let sn_c = derive_serial_number(&field_bytes(9), &field_bytes(3)).unwrap();
    assert_ne!(sn_a, sn_c);
}

#[test]
fn nested_interface_members_type_check() {
    let mut prog = token_program();
    prog.interfaces.push(InterfaceDef {
        name: 10,
        members: vec![(6, PlaintextType::Interface(9))],
    });
    let mut stack = Stack::new(2);
    let inner = Cast::new(
        vec![u64_lit(1), Operand::Literal(Literal::Boolean(false))],
        Register { locator: 0 },
        ValueType::Private(PlaintextType::Interface(9)),
    );
    assert_eq!(inner.evaluate(&mut stack, &prog), Ok(()));
    let outer = Cast::new(
        vec![Operand::Register(Register { locator: 0 })],
        Register { locator: 1 },
        ValueType::Private(PlaintextType::Interface(10)),
    );
    assert_eq!(outer.evaluate(&mut stack, &prog), Ok(()));
    match &stack.regs[1] {
        Some(StackValue::Plaintext(Plaintext::Interface(ms))) => {
            assert_eq!(ms.len(), 1);
            assert_eq!(ms[0].0, 6);
        }
        other => panic!("expected an interface value, found {:?}", other),
    }
}

#[test]
fn getters_return_fields() {
    let cast = Cast::new(vec![u64_lit(1)], Register { locator: 4 }, ValueType::Record(7));
    assert_eq!(cast.operands().len(), 1);
    assert_eq!(*cast.destination(), Register { locator: 4 });
    assert_eq!(*cast.value_type(), ValueType::Record(7));
}

#[test]
fn text_format_exact() {
    let cast = Cast::new(
        vec![addr_lit(5), u64_lit(100)],
        Register { locator: 0 },
        ValueType::Record(7),
    );
    let text = cast.to_text(8).unwrap();
    assert_eq!(String::from_utf8(text).unwrap(), "cast a5 100u64 into r0 as 7.record");
    let icast = Cast::new(
        vec![Operand::Register(Register { locator: 12 }), Operand::Literal(Literal::Boolean(true))],
        Register { locator: 3 },
        ValueType::Public(PlaintextType::Interface(9)),
    );
    let itext = icast.to_text(8).unwrap();
    assert_eq!(String::from_utf8(itext).unwrap(), "cast r12 true into r3 as 9.public");
}

#[test]
fn text_round_trip() {
    let cast = Cast::new(
        vec![
            addr_lit(5),
            u64_lit(100),
            Operand::Literal(Literal::Boolean(false)),
            Operand::Register(Register { locator: 2 }),
        ],
        Register { locator: 1 },
        ValueType::Constant(PlaintextType::Literal(LiteralKind::U64)),
    );
    let text = cast.to_text(8).unwrap();
    assert_eq!(Cast::parse_text(&text, 8), Ok(cast));
}

#[test]
fn text_parse_rejects_malformed() {
    let parse = |s: &str| Cast::parse_text(&s.as_bytes().to_vec(), 8);
    assert_eq!(parse("cast into r0 as 7.record"), Err(VmError::Parse));
    assert_eq!(parse("cast a5 into r0 as 7.nonsense"), Err(VmError::Parse));
    assert_eq!(parse("move a5 into r0 as 7.record"), Err(VmError::Parse));
    assert_eq!(parse("cast a5 r0 as 7.record"), Err(VmError::Parse));
    assert_eq!(parse(""), Err(VmError::Parse));
    // Too many operands for the bound.
    assert_eq!(
        Cast::parse_text(&"cast a1 a2 a3 into r0 as 7.record".as_bytes().to_vec(), 2),
        Err(VmError::Parse)
    );
}

#[test]
fn text_parse_accepts_only_canonical_digits() {
    // A leading zero in a number is not the canonical text of any
    // instruction, so it is rejected rather than silently renormalized.
    assert_eq!(
        Cast::parse_text(&"cast a05 1u64 into r0 as 7.record".as_bytes().to_vec(), 8),
        Err(VmError::Parse)
    );
    assert_eq!(
        Cast::parse_text(&"cast a5 1u64 into r0 as 7.record".as_bytes().to_vec(), 8)
            .map(|c| c.operands().len()),
        Ok(2)
    );
}
