use jvm::constants::{parse_constant_pool, resolve_utf8, Constant, ConstantTag};
use jvm::descriptor::{parse_descriptor, parse_field, FieldDescriptor, ReturnDescriptor};
use jvm::error::{ClassError, ConstantKind};
use jvm::fields::{FieldAccessFlags, Visibility};
use jvm::instructions::{decode_instruction, parse_code, Instruction};

#[test]
fn widths_of_instructions() {
    assert_eq!(Instruction::Nop.get_width(), 1);
    assert_eq!(Instruction::IAdd.get_width(), 1);
    assert_eq!(Instruction::Ldc(4).get_width(), 2);
    assert_eq!(Instruction::Ldc2W(4).get_width(), 3);
    assert_eq!(Instruction::IfACmpNe(7).get_width(), 3);
    assert_eq!(Instruction::Goto(0).get_width(), 3);
    assert_eq!(Instruction::InvokeSpecial(1).get_width(), 3);
    assert_eq!(Instruction::InvokeStatic(1).get_width(), 3);
}

#[test]
fn code_block_decodes_with_operands() {
    // iconst_1, ldc 5, if_acmpne +7, goto -3, invokestatic 0x0102, ireturn
    let block = [4u8, 18, 5, 166, 0, 7, 167, 0xFF, 0xFD, 184, 1, 2, 172];
    let code = parse_code(&block).unwrap();
    assert_eq!(
        code,
        vec![
            Instruction::IConst1,
            Instruction::Ldc(5),
            Instruction::IfACmpNe(7),
            Instruction::Goto(-3),
            Instruction::InvokeStatic(0x0102),
            Instruction::IReturn,
        ]
    );
    let total: usize = code.iter().map(|i| i.get_width()).sum();
    assert_eq!(total, block.len());
}

#[test]
fn unknown_opcode_is_rejected() {
    assert_eq!(parse_code(&[0u8, 0xFE, 0]), Err(ClassError::UnknownOpcode(0xFE)));
    assert_eq!(decode_instruction(&[0xFEu8], 0), Err(ClassError::UnknownOpcode(0xFE)));
}

#[test]
fn truncated_operand_is_rejected() {
    assert_eq!(parse_code(&[167u8, 0]), Err(ClassError::UnexpectedEof));
    assert_eq!(parse_code(&[18u8]), Err(ClassError::UnexpectedEof));
}

#[test]
fn empty_code_block() {
    assert_eq!(parse_code(&[]), Ok(vec![]));
}

fn pool_bytes(count: u16, entries: &[u8]) -> Vec<u8> {
    let mut v = count.to_be_bytes().to_vec();
    v.extend_from_slice(entries);
    v
}

#[test]
fn long_constant_takes_two_slots() {
    // 1: Utf8 "A", 2: Class #1, 3: Long 7, (4: placeholder), 5: Integer 9
    let mut entries = vec![1u8, 0, 1, b'A', 7, 0, 1, 5, 0, 0, 0, 0, 0, 0, 0, 7];
    entries.extend_from_slice(&[3, 0, 0, 0, 9]);
    let bytes = pool_bytes(6, &entries);
    let mut pos: usize = 0;
    let pool = parse_constant_pool(&bytes, &mut pos).unwrap();
    assert_eq!(pos, bytes.len());
    assert_eq!(pool.len(), 5);
    assert!(matches!(pool[2], Constant::LongInfo { value: 7 }));
    assert!(matches!(pool[3], Constant::Placeholder));
    assert!(matches!(pool[4], Constant::IntInfo { value: 9 }));
    assert_eq!(pool[2].get_constant_value(&pool), Some(jvm::execution::DataType::Long(7)));
}

#[test]
fn wide_constant_in_last_slot_is_rejected() {
    let bytes = pool_bytes(2, &[5u8, 0, 0, 0, 0, 0, 0, 0, 1]);
    assert_eq!(parse_constant_pool(&bytes, &mut 0).err(), Some(ClassError::TruncatedPool));
}

#[test]
fn unknown_tag_is_rejected() {
    let bytes = pool_bytes(2, &[2u8, 0, 0]);
    assert_eq!(parse_constant_pool(&bytes, &mut 0).err(), Some(ClassError::UnknownTag(2)));
}

#[test]
fn bad_utf8_is_rejected() {
    let bytes = pool_bytes(2, &[1u8, 0, 2, 0xC3, 0x28]);
    assert_eq!(parse_constant_pool(&bytes, &mut 0).err(), Some(ClassError::BadUtf8));
}

#[test]
fn reference_to_placeholder_is_rejected() {
    // 1: Long, (2: placeholder), 3: Class #2
    let bytes = pool_bytes(4, &[5u8, 0, 0, 0, 0, 0, 0, 0, 1, 7, 0, 2]);
    assert_eq!(parse_constant_pool(&bytes, &mut 0).err(), Some(ClassError::BadIndex(2)));
    let zero = pool_bytes(2, &[8u8, 0, 0]);
    assert_eq!(parse_constant_pool(&zero, &mut 0).err(), Some(ClassError::BadIndex(0)));
}

#[test]
fn truncated_pool_entry_is_rejected() {
    let bytes = pool_bytes(2, &[10u8, 0, 1]);
    assert_eq!(parse_constant_pool(&bytes, &mut 0).err(), Some(ClassError::UnexpectedEof));
}

#[test]
fn resolve_utf8_follows_class_to_name() {
    // 1: Utf8 "Hi", 2: Class #1, 3: Integer 4, 4: Class #3
    let bytes = pool_bytes(5, &[1u8, 0, 2, b'H', b'i', 7, 0, 1, 3, 0, 0, 0, 4, 7, 0, 3]);
    let pool = parse_constant_pool(&bytes, &mut 0).unwrap();
    assert_eq!(resolve_utf8(1, &pool), Ok(b"Hi".to_vec()));
    assert_eq!(resolve_utf8(2, &pool), Ok(b"Hi".to_vec()));
    assert_eq!(
        resolve_utf8(3, &pool),
        Err(ClassError::BadConstantKind { expected: ConstantKind::Utf8, found: ConstantKind::Integer })
    );
    assert_eq!(
        resolve_utf8(4, &pool),
        Err(ClassError::BadConstantKind { expected: ConstantKind::Utf8, found: ConstantKind::Integer })
    );
    assert_eq!(resolve_utf8(0, &pool), Err(ClassError::BadIndex(0)));
    assert_eq!(resolve_utf8(5, &pool), Err(ClassError::BadIndex(5)));
}

#[test]
fn constant_tags_from_bytes() {
    assert_eq!(ConstantTag::from_byte(1), Some(ConstantTag::Utf8));
    assert_eq!(ConstantTag::from_byte(7), Some(ConstantTag::Class));
    assert_eq!(ConstantTag::from_byte(10), Some(ConstantTag::MethodRef));
    assert_eq!(ConstantTag::from_byte(20), Some(ConstantTag::Package));
    assert_eq!(ConstantTag::from_byte(2), None);
    assert_eq!(ConstantTag::from_byte(14), None);
}

#[test]
fn descriptor_with_base_types() {
    let d = parse_descriptor(b"(IJ)V").unwrap();
    assert_eq!(d.arg_types.len(), 2);
    assert!(matches!(d.arg_types[0], FieldDescriptor::Int));
    assert!(matches!(d.arg_types[1], FieldDescriptor::Long));
    assert!(matches!(d.return_type, ReturnDescriptor::Void));
}

#[test]
fn descriptor_with_references_and_arrays() {
    let d = parse_descriptor(b"(Ljava/lang/String;[[IZ)[J").unwrap();
    assert_eq!(d.arg_types.len(), 3);
    match &d.arg_types[0] {
        FieldDescriptor::Ref(name) => assert_eq!(name.as_slice(), b"java/lang/String"),
        other => panic!("unexpected {:?}", other),
    }
    assert!(matches!(d.arg_types[1], FieldDescriptor::Array));
    assert!(matches!(d.arg_types[2], FieldDescriptor::Bool));
    assert!(matches!(d.return_type, ReturnDescriptor::Return(FieldDescriptor::Array)));
}

#[test]
fn descriptor_without_arguments() {
    let d = parse_descriptor(b"()I").unwrap();
    assert_eq!(d.arg_types.len(), 0);
    assert!(matches!(d.return_type, ReturnDescriptor::Return(FieldDescriptor::Int)));
}

#[test]
fn malformed_descriptors_are_rejected() {
    assert!(parse_descriptor(b"").is_none());
    assert!(parse_descriptor(b"I)V").is_none());
    assert!(parse_descriptor(b"(I").is_none());
    assert!(parse_descriptor(b"(Q)V").is_none());
    assert!(parse_descriptor(b"(Ljava/lang/String)V").is_none());
    assert!(parse_descriptor(b"()VV").is_none());
    assert!(parse_descriptor(b"()").is_none());
}

#[test]
fn field_descriptor_end_positions() {
    let s = b"[Ljava/Foo;I";
    let (f, end) = parse_field(s, 0).unwrap();
    assert!(matches!(f, FieldDescriptor::Array));
    assert_eq!(end, 11);
    let (g, end2) = parse_field(s, 11).unwrap();
    assert!(matches!(g, FieldDescriptor::Int));
    assert_eq!(end2, 12);
}

#[test]
fn field_access_flags() {
    let f = jvm::fields::parse_access_flags(0x0008 | 0x0010 | 0x0004 | 0x4000);
    assert_eq!(
        f,
        FieldAccessFlags {
            visibility: Visibility::Protected,
            is_static: true,
            is_final: true,
            is_volatile: false,
            is_transient: false,
            is_synthetic: false,
            is_enum: true,
        }
    );
    assert_eq!(jvm::fields::parse_access_flags(0).visibility, Visibility::Public);
    assert_eq!(jvm::fields::parse_access_flags(0x0003).visibility, Visibility::Private);
}

#[test]
fn method_access_flags() {
    let m = jvm::methods::parse_access_flags(0x0001 | 0x0008 | 0x0020 | 0x0100 | 0x0800);
    assert_eq!(m.visibility, Visibility::Public);
    assert!(m.is_static && m.is_synchronized && m.is_native && m.is_strict);
    assert!(!m.is_final && !m.is_bridge && !m.is_varargs && !m.is_abstract && !m.is_synthetic);
    let b = jvm::methods::parse_access_flags(0x0040 | 0x0080 | 0x0400 | 0x1000);
    assert!(b.is_bridge && b.is_varargs && b.is_abstract && b.is_synthetic);
}
