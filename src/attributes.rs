use vstd::prelude::*;

use crate::constants::{
    constant_value, pool_view, resolve_utf8, resolve_utf8_spec, slot, u2_at, Constant, ConstantView,
};
use crate::error::ClassError;
use crate::execution::DataType;
use crate::instructions::{code_width, decode_from, lemma_decode_width, parse_code, Instruction};
use crate::read::{be_value, can_read, read_bytes, read_u2, read_u4};

verus! {

/// One entry of a `Code` attribute's exception table.
#[derive(Debug, Clone)]
pub struct Exception {
    pub start_pc: u16,
    pub end_pc: u16,
    pub handler_pc: u16,
    /// The class name of the caught type; `None` catches everything.
    pub catch_type: Option<Vec<u8>>,
}

/// One entry of a `BootstrapMethods` attribute: a method-handle index and the
/// pool indices of its static arguments.
#[derive(Debug, Clone)]
pub struct BootstrapMethod {
    pub method_ref: u16,
    pub arguments: Vec<u16>,
}

/// An attribute, tagged by its name. Attributes whose structure is not read keep
/// their bytes.
#[derive(Debug)]
pub enum Attribute {
    ConstantValue { name: Vec<u8>, value: Option<DataType> },
    Code {
        name: Vec<u8>,
        max_stack: u16,
        max_locals: u16,
        code_length: u32,
        code: Vec<Instruction>,
        exceptions: Vec<Exception>,
        attributes: Vec<Attribute>,
    },
    StackMapTable { name: Vec<u8>, data: Vec<u8> },
    BootstrapMethods { name: Vec<u8>, methods: Vec<BootstrapMethod> },
    NestHost { name: Vec<u8>, data: Vec<u8> },
    NestMembers { name: Vec<u8>, data: Vec<u8> },
    Unknown { name: Vec<u8>, data: Vec<u8> },
}

/// `Code`
pub open spec fn code_name() -> Seq<u8> {
    seq![67u8, 111, 100, 101]
}

/// `ConstantValue`
pub open spec fn constant_value_name() -> Seq<u8> {
    seq![67u8, 111, 110, 115, 116, 97, 110, 116, 86, 97, 108, 117, 101]
}

/// `StackMapTable`
pub open spec fn stack_map_table_name() -> Seq<u8> {
    seq![83u8, 116, 97, 99, 107, 77, 97, 112, 84, 97, 98, 108, 101]
}

/// `BootstrapMethods`
pub open spec fn bootstrap_methods_name() -> Seq<u8> {
    seq![66u8, 111, 111, 116, 115, 116, 114, 97, 112, 77, 101, 116, 104, 111, 100, 115]
}

/// `NestHost`
pub open spec fn nest_host_name() -> Seq<u8> {
    seq![78u8, 101, 115, 116, 72, 111, 115, 116]
}

/// `NestMembers`
pub open spec fn nest_members_name() -> Seq<u8> {
    seq![78u8, 101, 115, 116, 77, 101, 109, 98, 101, 114, 115]
}

/// The name an attribute was stored under.
pub open spec fn attr_name(a: Attribute) -> Seq<u8> {
    match a {
        Attribute::ConstantValue { name, .. } => name@,
        Attribute::Code { name, .. } => name@,
        Attribute::StackMapTable { name, .. } => name@,
        Attribute::BootstrapMethods { name, .. } => name@,
        Attribute::NestHost { name, .. } => name@,
        Attribute::NestMembers { name, .. } => name@,
        Attribute::Unknown { name, .. } => name@,
    }
}

/// The declared body length of the attribute whose header starts at `pos`.
pub open spec fn attr_len(s: Seq<u8>, pos: int) -> int {
    be_value(s, pos + 2, 4) as int
}

/// The position just past `n` attributes laid out from `pos`.
pub open spec fn attrs_end(s: Seq<u8>, pos: int, n: nat) -> int
    decreases n,
{
    if n == 0 {
        pos
    } else {
        attrs_end(s, pos + 6 + attr_len(s, pos), (n - 1) as nat)
    }
}

/// Whether `ex` is the exception-table entry at `p`.
pub open spec fn exception_matches(b: Seq<u8>, p: int, pool: Seq<ConstantView>, ex: Exception) -> bool {
    &&& can_read(b, p, 8)
    &&& ex.start_pc == u2_at(b, p)
    &&& ex.end_pc == u2_at(b, p + 2)
    &&& ex.handler_pc == u2_at(b, p + 4)
    &&& if u2_at(b, p + 6) == 0 {
        ex.catch_type is None
    } else {
        ex.catch_type matches Some(t) && resolve_utf8_spec(pool, u2_at(b, p + 6) as int) == Ok::<
            Seq<u8>,
            ClassError,
        >(t@)
    }
}

/// Whether `m` is the bootstrap-method entry at `pos`.
pub open spec fn bootstrap_entry(b: Seq<u8>, pos: int, m: BootstrapMethod) -> bool {
    let k = be_value(b, pos + 2, 2) as int;
    &&& can_read(b, pos, 4)
    &&& m.method_ref == u2_at(b, pos)
    &&& m.arguments@.len() == k
    &&& can_read(b, pos + 4, 2 * k as nat)
    &&& forall|j: int| 0 <= j < k ==> #[trigger] m.arguments@[j] == u2_at(b, pos + 4 + 2 * j)
}

/// Whether `ms` are the `n` bootstrap-method entries laid out from `pos`.
pub open spec fn bootstrap_match(b: Seq<u8>, pos: int, n: nat, ms: Seq<BootstrapMethod>) -> bool
    decreases n,
{
    if n == 0 {
        ms.len() == 0
    } else {
        &&& ms.len() >= 1
        &&& bootstrap_entry(b, pos, ms[0])
        &&& bootstrap_match(b, pos + 4 + 2 * be_value(b, pos + 2, 2), (n - 1) as nat, ms.drop_first())
    }
}

/// Whether `attrs` are the `n` attributes laid out from `pos`.
pub open spec fn attrs_match(
    s: Seq<u8>,
    pos: int,
    n: nat,
    pool: Seq<ConstantView>,
    attrs: Seq<Attribute>,
) -> bool
    decreases s.len(), 2int, n,
{
    if n == 0 {
        attrs.len() == 0
    } else {
        &&& attrs.len() >= 1
        &&& attr_matches(s, pos, pool, attrs[0])
        &&& attrs_match(s, pos + 6 + attr_len(s, pos), (n - 1) as nat, pool, attrs.drop_first())
    }
}

/// Whether `a` is the attribute whose header starts at `pos`: its name resolves
/// through the pool, and its body is the `length` bytes after the header.
pub open spec fn attr_matches(s: Seq<u8>, pos: int, pool: Seq<ConstantView>, a: Attribute) -> bool
    decreases s.len(), 1int, 0nat,
{
    let len = attr_len(s, pos);
    let name = attr_name(a);
    &&& can_read(s, pos, 6)
    &&& can_read(s, pos + 6, len as nat)
    &&& resolve_utf8_spec(pool, u2_at(s, pos) as int) == Ok::<Seq<u8>, ClassError>(name)
    &&& {
        let block = s.subrange(pos + 6, pos + 6 + len);
        if name == code_name() {
            code_matches(block, pool, a)
        } else if name == constant_value_name() {
            a matches Attribute::ConstantValue { value, .. } && can_read(block, 0, 2) && match slot(
                pool,
                u2_at(block, 0) as int,
            ) {
                Some(c) => value == constant_value(c),
                None => false,
            }
        } else if name == stack_map_table_name() {
            a matches Attribute::StackMapTable { data, .. } && data@ == block
        } else if name == bootstrap_methods_name() {
            a matches Attribute::BootstrapMethods { methods, .. } && can_read(block, 0, 2)
                && bootstrap_match(block, 2, be_value(block, 0, 2), methods@)
        } else if name == nest_host_name() {
            a matches Attribute::NestHost { data, .. } && data@ == block
        } else if name == nest_members_name() {
            a matches Attribute::NestMembers { data, .. } && data@ == block
        } else {
            a matches Attribute::Unknown { data, .. } && data@ == block
        }
    }
}

/// Whether `a` is the `Code` attribute whose body is `b`: stack and locals sizes,
/// the decoded instructions, the exception table, then nested attributes.
pub open spec fn code_matches(b: Seq<u8>, pool: Seq<ConstantView>, a: Attribute) -> bool
    decreases b.len(), 3int, 0nat,
{
    match a {
        Attribute::Code { max_stack, max_locals, code_length, code, exceptions, attributes, .. } => {
            let cl = code_length as int;
            let ep = 8 + cl;
            let ne = be_value(b, ep, 2) as int;
            let ap = ep + 2 + 8 * ne;
            &&& can_read(b, 0, 8)
            &&& max_stack == u2_at(b, 0)
            &&& max_locals == u2_at(b, 2)
            &&& code_length as nat == be_value(b, 4, 4)
            &&& can_read(b, 8, code_length as nat)
            &&& decode_from(b.subrange(8, ep), 0) == Ok::<Seq<Instruction>, ClassError>(code@)
            &&& can_read(b, ep, 2)
            &&& exceptions@.len() == ne
            &&& forall|i: int|
                0 <= i < ne ==> exception_matches(b, ep + 2 + 8 * i, pool, #[trigger] exceptions@[i])
            &&& can_read(b, ap, 2)
            &&& attrs_match(b, ap + 2, be_value(b, ap, 2), pool, attributes@)
        },
        _ => false,
    }
}

/// Whether two byte strings are equal.
pub fn same_bytes(a: &[u8], b: &[u8]) -> (r: bool)
    ensures
        r == (a@ == b@),
{
    if a.len() != b.len() {
        return false;
    }
    let mut i: usize = 0;
    while i < a.len()
        invariant
            i <= a@.len(),
            a@.len() == b@.len(),
            a@.subrange(0, i as int) == b@.subrange(0, i as int),
        decreases a@.len() - i,
    {
        if a[i] != b[i] {
            proof {
                assert(a@[i as int] != b@[i as int]);
            }
            return false;
        }
        proof {
            assert(a@.subrange(0, i + 1) =~= a@.subrange(0, i as int).push(a@[i as int]));
            assert(b@.subrange(0, i + 1) =~= b@.subrange(0, i as int).push(b@[i as int]));
        }
        i = i + 1;
    }
    proof {
        assert(a@ =~= a@.subrange(0, i as int));
        assert(b@ =~= b@.subrange(0, i as int));
    }
    true
}

/// Reads one exception-table entry at `*pos`.
fn parse_exception(b: &[u8], pos: &mut usize, constant_pool: &Vec<Constant>) -> (r: Result<Exception, ClassError>)
    ensures
        r matches Ok(ex) ==> exception_matches(b@, *old(pos) as int, pool_view(constant_pool@), ex)
            && *final(pos) == *old(pos) + 8,
        r is Err ==> forall|ex: Exception| !exception_matches(b@, *old(pos) as int, pool_view(constant_pool@), ex),
{
    let p = *pos;
    if p > b.len() || b.len() - p < 8 {
        return Err(ClassError::UnexpectedEof);
    }
    let start_pc = read_u2(b, pos)?;
    let end_pc = read_u2(b, pos)?;
    let handler_pc = read_u2(b, pos)?;
    let catch_index = read_u2(b, pos)?;
    let catch_type = if catch_index > 0 {
        Some(resolve_utf8(catch_index as usize, constant_pool)?)
    } else {
        None
    };
    Ok(Exception { start_pc, end_pc, handler_pc, catch_type })
}

/// Reads an attribute table whose count field stands at `*pos`, and advances past it.
///
/// Each attribute advances the position by exactly six bytes of header plus its
/// declared length, whatever its name.
pub fn parse_attributes(bytes: &[u8], pos: &mut usize, constant_pool: &Vec<Constant>) -> (r: Result<
    Vec<Attribute>,
    ClassError,
>)
    ensures
        r matches Ok(v) ==> {
            &&& can_read(bytes@, *old(pos) as int, 2)
            &&& attrs_match(
                bytes@,
                *old(pos) + 2,
                be_value(bytes@, *old(pos) as int, 2),
                pool_view(constant_pool@),
                v@,
            )
            &&& *final(pos) == attrs_end(bytes@, *old(pos) + 2, be_value(bytes@, *old(pos) as int, 2))
        },
        r is Err ==> forall|t: Seq<Attribute>|
            !(can_read(bytes@, *old(pos) as int, 2) && #[trigger] attrs_match(
                bytes@,
                *old(pos) + 2,
                be_value(bytes@, *old(pos) as int, 2),
                pool_view(constant_pool@),
                t,
            )),
    decreases bytes@.len(), 2int,
{
    let ghost start = *pos as int;
    let count = read_u2(bytes, pos)?;
    let ghost first = *pos as int;
    let mut attributes: Vec<Attribute> = Vec::new();
    proof {
        assert forall|t: Seq<Attribute>| attrs_match(bytes@, first, count as nat, pool_view(constant_pool@), t)
            implies attrs_match(bytes@, first, count as nat, pool_view(constant_pool@), t.subrange(0, t.len() as int)) by {
            assert(t.subrange(0, t.len() as int) =~= t);
        }
    }
    let mut i: u16 = 0;
    while i < count
        invariant
            i <= count,
            count as nat == be_value(bytes@, start, 2),
            can_read(bytes@, start, 2),
            first == start + 2,
            start == *old(pos),
            attributes@.len() == i,
            attrs_end(bytes@, first, count as nat) == attrs_end(bytes@, *pos as int, (count - i) as nat),
            forall|t: Seq<Attribute>|
                attrs_match(bytes@, *pos as int, (count - i) as nat, pool_view(constant_pool@), t)
                    ==> attrs_match(bytes@, first, count as nat, pool_view(constant_pool@), attributes@ + t),
            forall|t: Seq<Attribute>|
                attrs_match(bytes@, first, count as nat, pool_view(constant_pool@), t) ==> t.len() >= i
                    && attrs_match(bytes@, *pos as int, (count - i) as nat, pool_view(constant_pool@), t.subrange(i as int, t.len() as int)),
        decreases count - i,
    {
        let ghost here = *pos as int;
        let ghost a0 = attributes@;
        let a = match parse_attribute(bytes, pos, constant_pool) {
            Ok(a) => a,
            Err(e) => {
                proof {
                    assert forall|t: Seq<Attribute>|
                        !(can_read(bytes@, start, 2) && #[trigger] attrs_match(bytes@, start + 2, be_value(bytes@, start, 2), pool_view(constant_pool@), t)) by {
                        if attrs_match(bytes@, first, count as nat, pool_view(constant_pool@), t) {
                            let tail = t.subrange(i as int, t.len() as int);
                            assert(attrs_match(bytes@, here, (count - i) as nat, pool_view(constant_pool@), tail));
                            assert(attr_matches(bytes@, here, pool_view(constant_pool@), tail[0]));
                        }
                    }
                }
                return Err(e);
            },
        };
        proof {
            assert forall|t: Seq<Attribute>|
                attrs_match(bytes@, first, count as nat, pool_view(constant_pool@), t) implies t.len() >= i + 1
                    && attrs_match(bytes@, *pos as int, (count - i - 1) as nat, pool_view(constant_pool@), t.subrange(i + 1, t.len() as int)) by {
                let tail = t.subrange(i as int, t.len() as int);
                assert(attrs_match(bytes@, here, (count - i) as nat, pool_view(constant_pool@), tail));
                assert(tail.drop_first() =~= t.subrange(i + 1, t.len() as int));
            }
            assert forall|t: Seq<Attribute>|
                attrs_match(bytes@, *pos as int, (count - i - 1) as nat, pool_view(constant_pool@), t)
                implies attrs_match(bytes@, first, count as nat, pool_view(constant_pool@), a0.push(a) + t) by {
                let t2 = seq![a] + t;
                assert(t2.drop_first() =~= t);
                assert(attrs_match(bytes@, here, (count - i) as nat, pool_view(constant_pool@), t2));
                assert(a0 + t2 =~= a0.push(a) + t);
            }
        }
        attributes.push(a);
        i = i + 1;
    }
    proof {
        assert(attributes@ + Seq::<Attribute>::empty() =~= attributes@);
        assert(attrs_match(bytes@, *pos as int, 0, pool_view(constant_pool@), Seq::<Attribute>::empty()));
    }
    Ok(attributes)
}

/// Reads one attribute at `*pos`, dispatching on its name.
fn parse_attribute(bytes: &[u8], pos: &mut usize, constant_pool: &Vec<Constant>) -> (r: Result<
    Attribute,
    ClassError,
>)
    ensures
        r matches Ok(a) ==> attr_matches(bytes@, *old(pos) as int, pool_view(constant_pool@), a)
            && *final(pos) == *old(pos) + 6 + attr_len(bytes@, *old(pos) as int),
        r is Err ==> forall|a: Attribute| !attr_matches(bytes@, *old(pos) as int, pool_view(constant_pool@), a),
    decreases bytes@.len(), 1int,
{
    let ghost start = *pos as int;
    let name_index = read_u2(bytes, pos)?;
    let length = read_u4(bytes, pos)?;
    let name = resolve_utf8(name_index as usize, constant_pool)?;
    let block = read_bytes(length as u64, bytes, pos)?;
    let ghost body = bytes@.subrange(start + 6, start + 6 + length as int);
    assert(block@ == body);
    let ghost pool = pool_view(constant_pool@);
    // Known names, spelled as bytes: Code, ConstantValue, StackMapTable,
    // BootstrapMethods, NestHost, NestMembers.
    if same_bytes(name.as_slice(), &[67u8, 111, 100, 101]) {
        let ghost n = name@;
        let r = parse_code_body(block.as_slice(), name, constant_pool);
        proof {
            assert(n == code_name());
            if r is Err {
                assert forall|a: Attribute| !attr_matches(bytes@, start, pool, a) by {
                    if attr_matches(bytes@, start, pool, a) {
                        assert(attr_name(a) == n);
                        assert(code_matches(body, pool, a));
                    }
                }
            }
        }
        r
    } else if same_bytes(name.as_slice(), &[67u8, 111, 110, 115, 116, 97, 110, 116, 86, 97, 108, 117, 101]) {
        let ghost n = name@;
        proof {
            assert(n == constant_value_name());
            assert(n != code_name());
        }
        let mut p: usize = 0;
        let index = match read_u2(block.as_slice(), &mut p) {
            Ok(v) => v,
            Err(e) => {
                proof {
                    assert forall|a: Attribute| !attr_matches(bytes@, start, pool, a) by {
                        if attr_matches(bytes@, start, pool, a) {
                            assert(attr_name(a) == n);
                            assert(can_read(body, 0, 2));
                        }
                    }
                }
                return Err(e);
            },
        };
        let i = index as usize;
        if i == 0 || i > constant_pool.len() {
            proof {
                assert forall|a: Attribute| !attr_matches(bytes@, start, pool, a) by {
                    if attr_matches(bytes@, start, pool, a) {
                        assert(attr_name(a) == n);
                        assert(slot(pool, u2_at(body, 0) as int) is Some);
                    }
                }
            }
            return Err(ClassError::BadIndex(i));
        }
        let value = constant_pool[i - 1].get_constant_value(constant_pool);
        Ok(Attribute::ConstantValue { name, value })
    } else if same_bytes(name.as_slice(), &[83u8, 116, 97, 99, 107, 77, 97, 112, 84, 97, 98, 108, 101]) {
        Ok(Attribute::StackMapTable { name, data: block })
    } else if same_bytes(
        name.as_slice(),
        &[66u8, 111, 111, 116, 115, 116, 114, 97, 112, 77, 101, 116, 104, 111, 100, 115],
    ) {
        let ghost n = name@;
        proof {
            assert(n == bootstrap_methods_name());
            assert(n != code_name() && n != constant_value_name() && n != stack_map_table_name());
        }
        match parse_bootstrap_methods(block.as_slice()) {
            Ok(methods) => Ok(Attribute::BootstrapMethods { name, methods }),
            Err(e) => {
                proof {
                    assert forall|a: Attribute| !attr_matches(bytes@, start, pool, a) by {
                        if attr_matches(bytes@, start, pool, a) {
                            assert(attr_name(a) == n);
                        }
                    }
                }
                Err(e)
            },
        }
    } else if same_bytes(name.as_slice(), &[78u8, 101, 115, 116, 72, 111, 115, 116]) {
        Ok(Attribute::NestHost { name, data: block })
    } else if same_bytes(name.as_slice(), &[78u8, 101, 115, 116, 77, 101, 109, 98, 101, 114, 115]) {
        Ok(Attribute::NestMembers { name, data: block })
    } else {
        Ok(Attribute::Unknown { name, data: block })
    }
}

/// Reads the entry at `*pos` of a `BootstrapMethods` attribute.
fn parse_bootstrap_method(b: &[u8], pos: &mut usize) -> (r: Result<BootstrapMethod, ClassError>)
    ensures
        r matches Ok(m) ==> bootstrap_entry(b@, *old(pos) as int, m) && *final(pos) == *old(pos) + 4 + 2
            * be_value(b@, *old(pos) + 2, 2),
        r is Err ==> forall|m: BootstrapMethod| !bootstrap_entry(b@, *old(pos) as int, m),
{
    let ghost start = *pos as int;
    let method_ref = read_u2(b, pos)?;
    let count = read_u2(b, pos)?;
    let mut arguments: Vec<u16> = Vec::new();
    let mut j: u16 = 0;
    while j < count
        invariant
            j <= count,
            count as nat == be_value(b@, start + 2, 2),
            can_read(b@, start, 4),
            start == *old(pos),
            *pos == start + 4 + 2 * j,
            *pos <= b@.len(),
            arguments@.len() == j,
            forall|i: int| 0 <= i < j ==> #[trigger] arguments@[i] == u2_at(b@, start + 4 + 2 * i),
        decreases count - j,
    {
        let v = read_u2(b, pos)?;
        arguments.push(v);
        j = j + 1;
    }
    Ok(BootstrapMethod { method_ref, arguments })
}

/// Reads the body of a `BootstrapMethods` attribute.
fn parse_bootstrap_methods(b: &[u8]) -> (r: Result<Vec<BootstrapMethod>, ClassError>)
    ensures
        r matches Ok(v) ==> can_read(b@, 0, 2) && bootstrap_match(b@, 2, be_value(b@, 0, 2), v@),
        r is Err ==> forall|t: Seq<BootstrapMethod>| !(can_read(b@, 0, 2) && #[trigger] bootstrap_match(b@, 2, be_value(b@, 0, 2), t)),
{
    let mut pos: usize = 0;
    let count = read_u2(b, &mut pos)?;
    let mut methods: Vec<BootstrapMethod> = Vec::new();
    let mut i: u16 = 0;
    proof {
        assert forall|t: Seq<BootstrapMethod>| bootstrap_match(b@, 2, count as nat, t)
            implies bootstrap_match(b@, 2, count as nat, t.subrange(0, t.len() as int)) by {
            assert(t.subrange(0, t.len() as int) =~= t);
        }
    }
    while i < count
        invariant
            i <= count,
            count as nat == be_value(b@, 0, 2),
            can_read(b@, 0, 2),
            methods@.len() == i,
            forall|t: Seq<BootstrapMethod>|
                bootstrap_match(b@, pos as int, (count - i) as nat, t) ==> bootstrap_match(b@, 2, count as nat, methods@ + t),
            forall|t: Seq<BootstrapMethod>|
                bootstrap_match(b@, 2, count as nat, t) ==> t.len() >= i && bootstrap_match(
                    b@,
                    pos as int,
                    (count - i) as nat,
                    t.subrange(i as int, t.len() as int),
                ),
        decreases count - i,
    {
        let ghost here = pos as int;
        let ghost m0 = methods@;
        let m = match parse_bootstrap_method(b, &mut pos) {
            Ok(m) => m,
            Err(e) => {
                proof {
                    assert forall|t: Seq<BootstrapMethod>| !(can_read(b@, 0, 2) && #[trigger] bootstrap_match(b@, 2, be_value(b@, 0, 2), t)) by {
                        if bootstrap_match(b@, 2, count as nat, t) {
                            let tail = t.subrange(i as int, t.len() as int);
                            assert(bootstrap_match(b@, here, (count - i) as nat, tail));
                            assert(bootstrap_entry(b@, here, tail[0]));
                        }
                    }
                }
                return Err(e);
            },
        };
        proof {
            assert forall|t: Seq<BootstrapMethod>|
                bootstrap_match(b@, pos as int, (count - i - 1) as nat, t) implies bootstrap_match(
                b@,
                2,
                count as nat,
                m0.push(m) + t,
            ) by {
                let t2 = seq![m] + t;
                assert(t2.drop_first() =~= t);
                assert(bootstrap_match(b@, here, (count - i) as nat, t2));
                assert(m0 + t2 =~= m0.push(m) + t);
            }
            assert forall|t: Seq<BootstrapMethod>| bootstrap_match(b@, 2, count as nat, t) implies t.len() >= i + 1
                && bootstrap_match(b@, pos as int, (count - i - 1) as nat, t.subrange(i + 1, t.len() as int)) by {
                let tail = t.subrange(i as int, t.len() as int);
                assert(bootstrap_match(b@, here, (count - i) as nat, tail));
                assert(tail.drop_first() =~= t.subrange(i + 1, t.len() as int));
            }
        }
        methods.push(m);
        i = i + 1;
    }
    proof {
        assert(methods@ + Seq::<BootstrapMethod>::empty() =~= methods@);
    }
    Ok(methods)
}

/// Reads the body of a `Code` attribute.
fn parse_code_body(b: &[u8], name: Vec<u8>, constant_pool: &Vec<Constant>) -> (r: Result<Attribute, ClassError>)
    ensures
        r matches Ok(a) ==> code_matches(b@, pool_view(constant_pool@), a) && attr_name(a) == name@,
        r is Err ==> forall|a: Attribute| !code_matches(b@, pool_view(constant_pool@), a),
    decreases b@.len(), 3int,
{
    let mut pos: usize = 0;
    let max_stack = read_u2(b, &mut pos)?;
    let max_locals = read_u2(b, &mut pos)?;
    let code_length = read_u4(b, &mut pos)?;
    let code_bytes = read_bytes(code_length as u64, b, &mut pos)?;
    let code = parse_code(code_bytes.as_slice())?;
    let ghost ep = pos as int;
    let exceptions_length = read_u2(b, &mut pos)?;
    let mut exceptions: Vec<Exception> = Vec::new();
    let mut k: u16 = 0;
    while k < exceptions_length
        invariant
            k <= exceptions_length,
            exceptions@.len() == k,
            pos == ep + 2 + 8 * k,
            ep == 8 + code_length,
            can_read(b@, 0, 8),
            code_length as nat == be_value(b@, 4, 4),
            exceptions_length as nat == be_value(b@, ep, 2),
            forall|i: int|
                0 <= i < k ==> exception_matches(b@, ep + 2 + 8 * i, pool_view(constant_pool@), #[trigger] exceptions@[i]),
        decreases exceptions_length - k,
    {
        let e = match parse_exception(b, &mut pos, constant_pool) {
            Ok(e) => e,
            Err(err) => {
                proof {
                    assert forall|a: Attribute| !code_matches(b@, pool_view(constant_pool@), a) by {
                        if code_matches(b@, pool_view(constant_pool@), a) {
                            if let Attribute::Code { exceptions: ex2, .. } = a {
                                assert(exception_matches(b@, ep + 2 + 8 * k, pool_view(constant_pool@), ex2@[k as int]));
                            }
                        }
                    }
                }
                return Err(err);
            },
        };
        exceptions.push(e);
        k = k + 1;
    }
    let ghost ap = pos as int;
    let attributes = match parse_attributes(b, &mut pos, constant_pool) {
        Ok(v) => v,
        Err(err) => {
            proof {
                assert forall|a: Attribute| !code_matches(b@, pool_view(constant_pool@), a) by {
                    if code_matches(b@, pool_view(constant_pool@), a) {
                        if let Attribute::Code { attributes: at2, .. } = a {
                            assert(attrs_match(b@, ap + 2, be_value(b@, ap, 2), pool_view(constant_pool@), at2@));
                        }
                    }
                }
            }
            return Err(err);
        },
    };
    let a = Attribute::Code { name, max_stack, max_locals, code_length, code, exceptions, attributes };
    Ok(a)
}

/// In every parsed `Code` attribute, the widths of the decoded instructions add
/// up to `code_length`.
pub proof fn lemma_code_width_is_code_length(b: Seq<u8>, pool: Seq<ConstantView>, a: Attribute)
    requires
        code_matches(b, pool, a),
    ensures
        a matches Attribute::Code { code, code_length, .. } && code_width(code@) == code_length,
{
    if let Attribute::Code { code, code_length, .. } = a {
        let block = b.subrange(8, 8 + code_length as int);
        lemma_decode_width(block, 0);
    }
}

} // verus!
