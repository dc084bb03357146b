use jvm::attributes::Attribute;
use jvm::class::parse_class;
use jvm::fields::Visibility;
use jvm::instructions::Instruction;
use jvm::error::{ClassError, ConstantKind};
use jvm::execution::{load_frame, run_main, DataType, ExecError};

/// Assembles class files for the tests.
struct ClassBuilder {
    pool: Vec<u8>,
    next: u16,
    methods: Vec<u8>,
    method_count: u16,
    code_name: u16,
    this_class: u16,
    super_class: u16,
    interfaces: Vec<u16>,
    fields: Vec<u8>,
    field_count: u16,
    attrs: Vec<u8>,
    attr_count: u16,
}

impl ClassBuilder {
    fn new(name: &str) -> ClassBuilder {
        let mut b = ClassBuilder {
            pool: Vec::new(),
            next: 1,
            methods: Vec::new(),
            method_count: 0,
            code_name: 0,
            this_class: 0,
            super_class: 0,
            interfaces: Vec::new(),
            fields: Vec::new(),
            field_count: 0,
            attrs: Vec::new(),
            attr_count: 0,
        };
        b.code_name = b.utf8("Code");
        b.this_class = b.class(name);
        b
    }

    fn utf8(&mut self, s: &str) -> u16 {
        self.pool.push(1);
        self.pool.extend_from_slice(&(s.len() as u16).to_be_bytes());
        self.pool.extend_from_slice(s.as_bytes());
        self.slot(1)
    }

    fn slot(&mut self, width: u16) -> u16 {
        let i = self.next;
        self.next += width;
        i
    }

    fn class(&mut self, name: &str) -> u16 {
        let n = self.utf8(name);
        self.pool.push(7);
        self.pool.extend_from_slice(&n.to_be_bytes());
        self.slot(1)
    }

    fn integer(&mut self, v: i32) -> u16 {
        self.pool.push(3);
        self.pool.extend_from_slice(&v.to_be_bytes());
        self.slot(1)
    }

    fn long(&mut self, v: i64) -> u16 {
        self.pool.push(5);
        self.pool.extend_from_slice(&v.to_be_bytes());
        self.slot(2)
    }

    fn method_ref(&mut self, class: u16, name: &str, desc: &str) -> u16 {
        let n = self.utf8(name);
        let d = self.utf8(desc);
        self.pool.push(12);
        self.pool.extend_from_slice(&n.to_be_bytes());
        self.pool.extend_from_slice(&d.to_be_bytes());
        let nat = self.slot(1);
        self.pool.push(10);
        self.pool.extend_from_slice(&class.to_be_bytes());
        self.pool.extend_from_slice(&nat.to_be_bytes());
        self.slot(1)
    }

    fn method(&mut self, name: &str, desc: &str, code: &[u8]) {
        let n = self.utf8(name);
        let d = self.utf8(desc);
        let m = &mut self.methods;
        m.extend_from_slice(&0x0009u16.to_be_bytes());
        m.extend_from_slice(&n.to_be_bytes());
        m.extend_from_slice(&d.to_be_bytes());
        m.extend_from_slice(&1u16.to_be_bytes());
        m.extend_from_slice(&self.code_name.to_be_bytes());
        m.extend_from_slice(&((12 + code.len()) as u32).to_be_bytes());
        m.extend_from_slice(&4u16.to_be_bytes());
        m.extend_from_slice(&4u16.to_be_bytes());
        m.extend_from_slice(&(code.len() as u32).to_be_bytes());
        m.extend_from_slice(code);
        m.extend_from_slice(&0u16.to_be_bytes());
        m.extend_from_slice(&0u16.to_be_bytes());
        self.method_count += 1;
    }

    fn attribute(out: &mut Vec<u8>, name: u16, body: &[u8]) {
        out.extend_from_slice(&name.to_be_bytes());
        out.extend_from_slice(&(body.len() as u32).to_be_bytes());
        out.extend_from_slice(body);
    }

    fn field(&mut self, flags: u16, name: &str, desc: &str, attrs: &[(u16, Vec<u8>)]) {
        let n = self.utf8(name);
        let d = self.utf8(desc);
        let f = &mut self.fields;
        f.extend_from_slice(&flags.to_be_bytes());
        f.extend_from_slice(&n.to_be_bytes());
        f.extend_from_slice(&d.to_be_bytes());
        f.extend_from_slice(&(attrs.len() as u16).to_be_bytes());
        for (name, body) in attrs {
            ClassBuilder::attribute(f, *name, body);
        }
        self.field_count += 1;
    }

    fn class_attribute(&mut self, name: u16, body: &[u8]) {
        ClassBuilder::attribute(&mut self.attrs, name, body);
        self.attr_count += 1;
    }

    fn raw_method(&mut self, name: &str, desc: &str, attrs: &[(u16, Vec<u8>)]) {
        let n = self.utf8(name);
        let d = self.utf8(desc);
        let m = &mut self.methods;
        m.extend_from_slice(&0x0009u16.to_be_bytes());
        m.extend_from_slice(&n.to_be_bytes());
        m.extend_from_slice(&d.to_be_bytes());
        m.extend_from_slice(&(attrs.len() as u16).to_be_bytes());
        for (name, body) in attrs {
            ClassBuilder::attribute(m, *name, body);
        }
        self.method_count += 1;
    }

    fn build(&self) -> Vec<u8> {
        let mut v = vec![0xCA, 0xFE, 0xBA, 0xBE, 0, 0, 0, 52];
        v.extend_from_slice(&self.next.to_be_bytes());
        v.extend_from_slice(&self.pool);
        v.extend_from_slice(&0x0021u16.to_be_bytes());
        v.extend_from_slice(&self.this_class.to_be_bytes());
        v.extend_from_slice(&self.super_class.to_be_bytes());
        v.extend_from_slice(&(self.interfaces.len() as u16).to_be_bytes());
        for i in &self.interfaces {
            v.extend_from_slice(&i.to_be_bytes());
        }
        v.extend_from_slice(&self.field_count.to_be_bytes());
        v.extend_from_slice(&self.fields);
        v.extend_from_slice(&self.method_count.to_be_bytes());
        v.extend_from_slice(&self.methods);
        v.extend_from_slice(&self.attr_count.to_be_bytes());
        v.extend_from_slice(&self.attrs);
        v
    }
}

const FUEL: u64 = 1000;

fn run_bytes(bytes: &[u8]) -> Result<DataType, ExecError> {
    let mut pos: usize = 0;
    let class = parse_class(bytes, &mut pos).unwrap();
    assert_eq!(pos, bytes.len());
    run_main(&class, FUEL)
}

#[test]
fn bad_magic_stops_after_four_bytes() {
    let mut bytes = ClassBuilder::new("T").build();
    bytes[0] = 0xCB;
    let mut pos: usize = 0;
    assert_eq!(parse_class(&bytes, &mut pos).err(), Some(ClassError::BadMagic));
    assert_eq!(pos, 4);
    assert_eq!(parse_class(&[0xCA, 0xFE], &mut 0).err(), Some(ClassError::UnexpectedEof));
}

#[test]
fn loader_reads_whole_file() {
    let mut b = ClassBuilder::new("Trivial");
    b.method("main", "()I", &[4, 172]);
    let bytes = b.build();
    let mut pos: usize = 0;
    let class = parse_class(&bytes, &mut pos).unwrap();
    assert_eq!(pos, bytes.len());
    assert_eq!(class.name, b"Trivial".to_vec());
    assert_eq!(class.super_name, None);
    assert_eq!(class.methods.len(), 1);
    assert_eq!(class.methods[0].name, b"main".to_vec());
    assert_eq!(class.methods[0].num_args(), 0);
    assert!(class.has_method(b"main"));
    assert!(!class.has_method(b"<clinit>"));
    assert_eq!(class.get_code(b"main"), Some(&vec![jvm::instructions::Instruction::IConst1, jvm::instructions::Instruction::IReturn]));
    assert_eq!(class.get_code(b"other"), None);
}

#[test]
fn trailing_bytes_are_not_read() {
    let mut b = ClassBuilder::new("Trivial");
    b.method("main", "()I", &[4, 172]);
    let mut bytes = b.build();
    let len = bytes.len();
    bytes.extend_from_slice(&[0xEE, 0xEE]);
    let mut pos: usize = 0;
    assert!(parse_class(&bytes, &mut pos).is_ok());
    assert_eq!(pos, len);
}

#[test]
fn trivial_return() {
    let mut b = ClassBuilder::new("Trivial");
    b.method("main", "()I", &[4, 172]);
    assert_eq!(run_bytes(&b.build()), Ok(DataType::Integer(1)));
}

#[test]
fn constant_load() {
    let mut b = ClassBuilder::new("Answer");
    let k = b.integer(42);
    assert!(k < 256);
    b.method("main", "()I", &[18, k as u8, 172]);
    assert_eq!(run_bytes(&b.build()), Ok(DataType::Integer(42)));
}

#[test]
fn arithmetic_across_frames() {
    let mut b = ClassBuilder::new("Adder");
    let this = b.this_class;
    let add = b.method_ref(this, "add", "(II)I");
    b.method("add", "(II)I", &[26, 27, 96, 172]);
    let [hi, lo] = add.to_be_bytes();
    b.method("main", "()I", &[5, 6, 184, hi, lo, 172]);
    assert_eq!(run_bytes(&b.build()), Ok(DataType::Integer(5)));
}

#[test]
fn arguments_keep_their_order() {
    // first(a, b) returns a: first(2, 3) == 2
    let mut b = ClassBuilder::new("Order");
    let this = b.this_class;
    let first = b.method_ref(this, "first", "(II)I");
    b.method("first", "(II)I", &[26, 172]);
    let [hi, lo] = first.to_be_bytes();
    b.method("main", "()I", &[5, 6, 184, hi, lo, 172]);
    assert_eq!(run_bytes(&b.build()), Ok(DataType::Integer(2)));
}

#[test]
fn branching_on_equal_references() {
    // cmp(a, b): aload_0 aload_1 if_acmpne +5 iconst_0 ireturn iconst_1 ireturn
    let mut b = ClassBuilder::new("Branch");
    let this = b.this_class;
    let cmp = b.method_ref(this, "cmp", "(Ljava/lang/Object;Ljava/lang/Object;)I");
    b.method("cmp", "(Ljava/lang/Object;Ljava/lang/Object;)I", &[42, 43, 166, 0, 5, 3, 172, 4, 172]);
    let [hi, lo] = cmp.to_be_bytes();
    b.method("main", "()I", &[1, 1, 184, hi, lo, 172]);
    let bytes = b.build();
    assert_eq!(run_bytes(&bytes), Ok(DataType::Integer(0)));

    let class = parse_class(&bytes, &mut 0).unwrap();
    let mut frame = load_frame(b"cmp", &class, vec![DataType::Reference, DataType::Integer(3)]).unwrap();
    assert_eq!(frame.exec(FUEL), Ok(DataType::Integer(1)));
}

#[test]
fn class_initializer_runs_first() {
    // A <clinit> that faults stops the run before main; one that returns lets main run.
    let mut failing = ClassBuilder::new("Init");
    failing.method("<clinit>", "()V", &[96, 177]);
    failing.method("main", "()I", &[4, 172]);
    assert_eq!(run_bytes(&failing.build()), Err(ExecError::StackUnderflow));

    let mut fine = ClassBuilder::new("Init");
    fine.method("<clinit>", "()V", &[177]);
    fine.method("main", "()I", &[4, 172]);
    assert_eq!(run_bytes(&fine.build()), Ok(DataType::Integer(1)));
}

#[test]
fn double_wide_constant_load() {
    let mut b = ClassBuilder::new("Wide");
    let l = b.long(0x1_0000_0002);
    let after = b.integer(5);
    assert_eq!(after, l + 2);
    let [hi, lo] = l.to_be_bytes();
    b.method("main", "()J", &[20, hi, lo, 173]);
    let bytes = b.build();
    let class = parse_class(&bytes, &mut 0).unwrap();
    assert!(matches!(class.get_constant(l as usize + 1), Some(jvm::constants::Constant::Placeholder)));
    assert_eq!(class.get_constant_value(after as usize), Some(DataType::Integer(5)));
    assert_eq!(run_bytes(&bytes), Ok(DataType::Long(0x1_0000_0002)));
}

#[test]
fn method_ref_with_bad_class_chain() {
    // The method reference's class slot names an Integer instead of a Utf8 name.
    let mut b = ClassBuilder::new("Chain");
    let num = b.integer(7);
    b.pool.push(7);
    b.pool.extend_from_slice(&num.to_be_bytes());
    let bad_class = b.slot(1);
    let r = b.method_ref(bad_class, "f", "()I");
    b.method("f", "()I", &[4, 172]);
    let [hi, lo] = r.to_be_bytes();
    b.method("main", "()I", &[184, hi, lo, 172]);
    let bytes = b.build();
    let class = parse_class(&bytes, &mut 0).unwrap();
    let expected = ClassError::BadConstantKind { expected: ConstantKind::Utf8, found: ConstantKind::Integer };
    assert_eq!(class.get_method_ref_from_constant(r as usize).err(), Some(expected));
    assert_eq!(run_main(&class, FUEL), Err(ExecError::Constant(expected)));
}

#[test]
fn unknown_opcode_in_code_attribute() {
    let mut b = ClassBuilder::new("Bad");
    b.method("main", "()I", &[0xFE, 172]);
    assert_eq!(parse_class(&b.build(), &mut 0).err(), Some(ClassError::UnknownOpcode(0xFE)));
}

#[test]
fn iadd_wraps_around() {
    let mut b = ClassBuilder::new("Wrap");
    let max = b.integer(i32::MAX);
    b.method("main", "()I", &[18, max as u8, 4, 96, 172]);
    assert_eq!(run_bytes(&b.build()), Ok(DataType::Integer(i32::MIN)));
}

#[test]
fn ladd_wraps_around() {
    let mut b = ClassBuilder::new("WrapL");
    let max = b.long(i64::MAX);
    let [hi, lo] = max.to_be_bytes();
    b.method("main", "()J", &[20, hi, lo, 10, 97, 173]);
    assert_eq!(run_bytes(&b.build()), Ok(DataType::Long(i64::MIN)));
}

#[test]
fn add_type_mismatch() {
    let mut b = ClassBuilder::new("Mix");
    b.method("main", "()I", &[4, 10, 96, 172]);
    assert_eq!(run_bytes(&b.build()), Err(ExecError::TypeMismatch));
}

#[test]
fn goto_zero_loops_in_place() {
    let mut b = ClassBuilder::new("Spin");
    b.method("main", "()V", &[0, 167, 0, 0]);
    let bytes = b.build();
    let class = parse_class(&bytes, &mut 0).unwrap();
    let mut frame = load_frame(b"main", &class, vec![]).unwrap();
    assert_eq!(frame.exec(50), Err(ExecError::OutOfSteps));
    assert_eq!(frame.ip, 1);
    assert!(frame.operand_stack.is_empty());
}

#[test]
fn backward_branch_is_signed() {
    // iconst_0 goto +4 (to ireturn... ) exercised with a backward jump:
    // 0: goto +5 -> 5; 3: iconst_2; 4: ireturn; 5: goto -2 -> 3
    let mut b = ClassBuilder::new("Back");
    b.method("main", "()I", &[167, 0, 5, 5, 172, 167, 0xFF, 0xFE]);
    assert_eq!(run_bytes(&b.build()), Ok(DataType::Integer(2)));
}

#[test]
fn branch_into_an_instruction_faults() {
    let mut b = ClassBuilder::new("Mid");
    b.method("main", "()I", &[167, 0, 1]);
    assert_eq!(run_bytes(&b.build()), Err(ExecError::BadBranchTarget));
}

#[test]
fn running_off_the_end_returns_void() {
    let mut b = ClassBuilder::new("Off");
    b.method("main", "()V", &[4, 0]);
    assert_eq!(run_bytes(&b.build()), Ok(DataType::Void));
}

#[test]
fn void_callee_pushes_nothing() {
    let mut b = ClassBuilder::new("Void");
    let this = b.this_class;
    let f = b.method_ref(this, "f", "()V");
    b.method("f", "()V", &[177]);
    let [hi, lo] = f.to_be_bytes();
    // main: iconst_3, invokestatic f, ireturn -> 3 (nothing pushed over it)
    b.method("main", "()I", &[6, 184, hi, lo, 172]);
    assert_eq!(run_bytes(&b.build()), Ok(DataType::Integer(3)));
}

#[test]
fn stack_and_local_faults() {
    let mut under = ClassBuilder::new("Under");
    under.method("main", "()I", &[172]);
    assert_eq!(run_bytes(&under.build()), Err(ExecError::StackUnderflow));

    let mut local = ClassBuilder::new("Local");
    local.method("main", "()I", &[27, 172]);
    assert_eq!(run_bytes(&local.build()), Err(ExecError::LocalOutOfRange(1)));
}

#[test]
fn store_then_load_local() {
    // iconst_4 istore_1 dup? no: iconst_4 istore_1 iload_1 iload_1 iadd ireturn -> 8
    let mut b = ClassBuilder::new("Store");
    b.method("main", "()I", &[7, 60, 27, 27, 96, 172]);
    assert_eq!(run_bytes(&b.build()), Ok(DataType::Integer(8)));
}

#[test]
fn ldc_of_non_loadable_constant() {
    let mut b = ClassBuilder::new("NoLoad");
    let this = b.this_class;
    b.method("main", "()I", &[18, this as u8, 172]);
    assert_eq!(run_bytes(&b.build()), Err(ExecError::NotLoadable(this as usize)));
    let mut m = ClassBuilder::new("Missing");
    m.method("main", "()I", &[18, 200, 172]);
    assert_eq!(run_bytes(&m.build()), Err(ExecError::MissingConstant(200)));
}

#[test]
fn float_constants_and_dup() {
    let mut b = ClassBuilder::new("Floats");
    b.method("main", "()F", &[12, 89, 87, 174]);
    // fconst_1, dup, then 87 (pop) is not supported: rejected when loading
    assert_eq!(parse_class(&b.build(), &mut 0).err(), Some(ClassError::UnknownOpcode(87)));
    let mut ok = ClassBuilder::new("Floats");
    ok.method("main", "()F", &[13, 89, 174]);
    assert_eq!(run_bytes(&ok.build()), Ok(DataType::Float(0x4000_0000)));
}

#[test]
fn missing_main_is_reported() {
    let b = ClassBuilder::new("Empty");
    assert_eq!(run_bytes(&b.build()), Err(ExecError::MissingCode));
}

#[test]
fn fields_interfaces_and_attributes_are_read() {
    let mut b = ClassBuilder::new("Rich");
    b.super_class = b.class("java/lang/Object");
    let iface = b.class("java/lang/Runnable");
    b.interfaces.push(iface);
    let cv = b.utf8("ConstantValue");
    let seven = b.integer(7);
    b.field(0x0002 | 0x0008 | 0x0010, "SEVEN", "I", &[(cv, seven.to_be_bytes().to_vec())]);
    let odd = b.utf8("Deprecated");
    b.field(0, "plain", "J", &[(odd, vec![])]);
    let bsm = b.utf8("BootstrapMethods");
    // two entries: (ref 3, args [4, 5]) and (ref 6, no args)
    b.class_attribute(bsm, &[0, 2, 0, 3, 0, 2, 0, 4, 0, 5, 0, 6, 0, 0]);
    let src = b.utf8("SourceFile");
    b.class_attribute(src, &[0, 1]);
    b.method("main", "()I", &[4, 172]);
    let bytes = b.build();
    let mut pos: usize = 0;
    let class = parse_class(&bytes, &mut pos).unwrap();
    assert_eq!(pos, bytes.len());
    assert_eq!(class.super_name, Some(b"java/lang/Object".to_vec()));
    assert_eq!(class.interfaces, vec![b"java/lang/Runnable".to_vec()]);
    assert_eq!(class.fields.len(), 2);
    let f = &class.fields[0];
    assert_eq!(f.name, b"SEVEN".to_vec());
    assert_eq!(f.descriptor, b"I".to_vec());
    assert_eq!(f.access_flags.visibility, Visibility::Private);
    assert!(f.access_flags.is_static && f.access_flags.is_final);
    match &f.attributes[0] {
        Attribute::ConstantValue { name, value } => {
            assert_eq!(name, &b"ConstantValue".to_vec());
            assert_eq!(*value, Some(DataType::Integer(7)));
        }
        other => panic!("unexpected {:?}", other),
    }
    match &class.fields[1].attributes[0] {
        Attribute::Unknown { name, data } => {
            assert_eq!(name, &b"Deprecated".to_vec());
            assert!(data.is_empty());
        }
        other => panic!("unexpected {:?}", other),
    }
    assert_eq!(class.attributes.len(), 2);
    match &class.attributes[0] {
        Attribute::BootstrapMethods { methods, .. } => {
            assert_eq!(methods.len(), 2);
            assert_eq!(methods[0].method_ref, 3);
            assert_eq!(methods[0].arguments, vec![4, 5]);
            assert_eq!(methods[1].method_ref, 6);
            assert!(methods[1].arguments.is_empty());
        }
        other => panic!("unexpected {:?}", other),
    }
    match &class.attributes[1] {
        Attribute::Unknown { data, .. } => assert_eq!(data, &vec![0, 1]),
        other => panic!("unexpected {:?}", other),
    }
}

#[test]
fn code_with_exception_table_and_nested_attributes() {
    let mut b = ClassBuilder::new("Guarded");
    let code_name = b.code_name;
    let exc = b.class("java/lang/Exception");
    let lines = b.utf8("LineNumberTable");
    let mut body = vec![0, 2, 0, 1, 0, 0, 0, 2, 4, 172];
    body.extend_from_slice(&[0, 2]);
    body.extend_from_slice(&[0, 0, 0, 1, 0, 1, 0, 0]);
    body.extend_from_slice(&[0, 0, 0, 2, 0, 1]);
    body.extend_from_slice(&exc.to_be_bytes());
    body.extend_from_slice(&[0, 1]);
    body.extend_from_slice(&lines.to_be_bytes());
    body.extend_from_slice(&[0, 0, 0, 2, 0, 0]);
    b.raw_method("main", "()I", &[(code_name, body)]);
    let bytes = b.build();
    let class = parse_class(&bytes, &mut 0).unwrap();
    match &class.methods[0].attributes[0] {
        Attribute::Code { max_stack, max_locals, code_length, code, exceptions, attributes, .. } => {
            assert_eq!((*max_stack, *max_locals, *code_length), (2, 1, 2));
            assert_eq!(code, &vec![Instruction::IConst1, Instruction::IReturn]);
            assert_eq!(exceptions.len(), 2);
            assert_eq!((exceptions[0].start_pc, exceptions[0].end_pc, exceptions[0].handler_pc), (0, 1, 1));
            assert_eq!(exceptions[0].catch_type, None);
            assert_eq!(exceptions[1].catch_type, Some(b"java/lang/Exception".to_vec()));
            assert_eq!(attributes.len(), 1);
            assert!(matches!(&attributes[0], Attribute::Unknown { data, .. } if data == &vec![0, 0]));
        }
        other => panic!("unexpected {:?}", other),
    }
    assert_eq!(run_bytes(&bytes), Ok(DataType::Integer(1)));
}

#[test]
fn unknown_attribute_is_skipped_by_length() {
    let mut b = ClassBuilder::new("Skip");
    let junk = b.utf8("Whatever");
    b.class_attribute(junk, &[0xFF; 9]);
    b.method("main", "()I", &[5, 172]);
    let bytes = b.build();
    let mut pos: usize = 0;
    let class = parse_class(&bytes, &mut pos).unwrap();
    assert_eq!(pos, bytes.len());
    assert!(matches!(&class.attributes[0], Attribute::Unknown { data, .. } if data.len() == 9));
}

#[test]
fn code_running_past_its_attribute_is_rejected() {
    let mut b = ClassBuilder::new("Short");
    let code_name = b.code_name;
    // code_length says 5 but the attribute body ends after 2 code bytes
    b.raw_method("main", "()I", &[(code_name, vec![0, 1, 0, 0, 0, 0, 0, 5, 4, 172])]);
    assert_eq!(parse_class(&b.build(), &mut 0).err(), Some(ClassError::UnexpectedEof));
}

#[test]
fn bad_method_descriptor_is_rejected() {
    let mut b = ClassBuilder::new("Desc");
    b.method("main", "(I", &[4, 172]);
    assert_eq!(parse_class(&b.build(), &mut 0).err(), Some(ClassError::BadDescriptor));
}

#[test]
fn call_to_unknown_method_or_class() {
    let mut b = ClassBuilder::new("Caller");
    let this = b.this_class;
    let missing = b.method_ref(this, "nowhere", "()I");
    let other = b.class("Elsewhere");
    let foreign = b.method_ref(other, "main", "()I");
    let [hi, lo] = missing.to_be_bytes();
    b.method("main", "()I", &[184, hi, lo, 172]);
    let [fhi, flo] = foreign.to_be_bytes();
    b.method("viaOther", "()I", &[184, fhi, flo, 172]);
    let bytes = b.build();
    assert_eq!(run_bytes(&bytes), Err(ExecError::UnresolvedMethod));
    let class = parse_class(&bytes, &mut 0).unwrap();
    let mut frame = load_frame(b"viaOther", &class, vec![]).unwrap();
    assert_eq!(frame.exec(FUEL), Err(ExecError::UnresolvedMethod));
}

#[test]
fn method_without_code_cannot_run() {
    let mut b = ClassBuilder::new("Abstract");
    b.raw_method("main", "()I", &[]);
    let bytes = b.build();
    let class = parse_class(&bytes, &mut 0).unwrap();
    assert!(class.has_method(b"main"));
    assert_eq!(class.methods[0].get_code(), None);
    assert!(load_frame(b"main", &class, vec![]).is_err());
    assert_eq!(run_main(&class, FUEL), Err(ExecError::MissingCode));
}

#[test]
fn invocation_pops_arguments_into_new_frame() {
    let mut b = ClassBuilder::new("Frames");
    let this = b.this_class;
    let f = b.method_ref(this, "f", "(IJ)I");
    b.method("f", "(IJ)I", &[26, 172]);
    let [hi, lo] = f.to_be_bytes();
    b.method("main", "()I", &[8, 7, 10, 184, hi, lo, 172]);
    let bytes = b.build();
    let class = parse_class(&bytes, &mut 0).unwrap();
    let mut caller = load_frame(b"main", &class, vec![]).unwrap();
    caller.operand_stack = vec![DataType::Integer(5), DataType::Integer(4), DataType::Long(1)];
    let callee = caller.new_frame_for_static_method_from_constant(f as usize).ok().unwrap();
    assert_eq!(callee.local_variables, vec![DataType::Integer(4), DataType::Long(1)]);
    assert!(callee.operand_stack.is_empty());
    assert_eq!(callee.ip, 0);
    assert_eq!(callee.method_name, b"f");
    assert_eq!(caller.operand_stack, vec![DataType::Integer(5)]);
    assert_eq!(run_bytes(&bytes), Ok(DataType::Integer(4)));
}

#[test]
fn store_local_pads_with_placeholders() {
    let mut b = ClassBuilder::new("Locals");
    b.method("main", "()V", &[177]);
    let bytes = b.build();
    let class = parse_class(&bytes, &mut 0).unwrap();
    let mut frame = load_frame(b"main", &class, vec![]).unwrap();
    frame.store_local(2, DataType::Integer(9));
    assert_eq!(frame.local_variables, vec![DataType::Placeholder, DataType::Placeholder, DataType::Integer(9)]);
    frame.store_local(0, DataType::Bool(true));
    assert_eq!(frame.local_variables[0], DataType::Bool(true));
    assert_eq!(frame.local_variables.len(), 3);
}

#[test]
fn lookups_by_name_and_reference() {
    let mut b = ClassBuilder::new("Look");
    let this = b.this_class;
    let r = b.method_ref(this, "twice", "()I");
    b.method("twice", "()I", &[4, 172]);
    b.method("twice", "()I", &[5, 172]);
    b.method("main", "()I", &[4, 172]);
    let bytes = b.build();
    let class = parse_class(&bytes, &mut 0).unwrap();
    let (class_name, nat) = class.get_method_ref_from_constant(r as usize).ok().unwrap();
    assert_eq!(class_name, b"Look".to_vec());
    let m = class.get_method(nat).unwrap();
    assert_eq!(m.get_code(), Some(&vec![Instruction::IConst2, Instruction::IReturn]));
    assert_eq!(class.get_code(b"twice"), Some(&vec![Instruction::IConst1, Instruction::IReturn]));
    assert!(class.get_constant(0).is_none());
    assert!(class.get_constant(class.constant_pool.len() + 1).is_none());
    assert_eq!(class.get_method_ref_from_constant(0).err(), Some(ClassError::BadIndex(0)));
    assert_eq!(
        class.get_method_ref_from_constant(this as usize).err(),
        Some(ClassError::BadConstantKind { expected: ConstantKind::MethodRef, found: ConstantKind::Class })
    );
}
