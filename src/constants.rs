use vstd::prelude::*;

use crate::error::{ClassError, ConstantKind};
use crate::execution::DataType;
use crate::read::{be_value, read_bytes, read_u1, read_u2, read_u4, read_u8};

verus! {

/// The tag byte that opens each constant-pool entry.
#[derive(Debug, Clone, Copy, PartialEq, Eq, Structural)]
pub enum ConstantTag {
    Class,
    FieldRef,
    MethodRef,
    InterfaceMethodRef,
    ConstString,
    Integer,
    Float,
    Long,
    Double,
    NameAndType,
    Utf8,
    MethodHandle,
    MethodType,
    Dynamic,
    InvokeDynamic,
    Module,
    Package,
    Placeholder,
}

/// The tag that a byte denotes in the class-file format, if any.
pub open spec fn tag_of_byte(b: u8) -> Option<ConstantTag> {
    if b == 1 { Some(ConstantTag::Utf8) }
    else if b == 3 { Some(ConstantTag::Integer) }
    else if b == 4 { Some(ConstantTag::Float) }
    else if b == 5 { Some(ConstantTag::Long) }
    else if b == 6 { Some(ConstantTag::Double) }
    else if b == 7 { Some(ConstantTag::Class) }
    else if b == 8 { Some(ConstantTag::ConstString) }
    else if b == 9 { Some(ConstantTag::FieldRef) }
    else if b == 10 { Some(ConstantTag::MethodRef) }
    else if b == 11 { Some(ConstantTag::InterfaceMethodRef) }
    else if b == 12 { Some(ConstantTag::NameAndType) }
    else if b == 15 { Some(ConstantTag::MethodHandle) }
    else if b == 16 { Some(ConstantTag::MethodType) }
    else if b == 17 { Some(ConstantTag::Dynamic) }
    else if b == 18 { Some(ConstantTag::InvokeDynamic) }
    else if b == 19 { Some(ConstantTag::Module) }
    else if b == 20 { Some(ConstantTag::Package) }
    else { None }
}

impl ConstantTag {
    /// The tag that a byte denotes, or `None` for an undefined tag byte.
    pub fn from_byte(b: u8) -> (r: Option<ConstantTag>)
        ensures
            r == tag_of_byte(b),
    {
        match b {
            1 => Some(ConstantTag::Utf8),
            3 => Some(ConstantTag::Integer),
            4 => Some(ConstantTag::Float),
            5 => Some(ConstantTag::Long),
            6 => Some(ConstantTag::Double),
            7 => Some(ConstantTag::Class),
            8 => Some(ConstantTag::ConstString),
            9 => Some(ConstantTag::FieldRef),
            10 => Some(ConstantTag::MethodRef),
            11 => Some(ConstantTag::InterfaceMethodRef),
            12 => Some(ConstantTag::NameAndType),
            15 => Some(ConstantTag::MethodHandle),
            16 => Some(ConstantTag::MethodType),
            17 => Some(ConstantTag::Dynamic),
            18 => Some(ConstantTag::InvokeDynamic),
            19 => Some(ConstantTag::Module),
            20 => Some(ConstantTag::Package),
            _ => None,
        }
    }
}

/// One slot of the constant pool.
///
/// `Float` and `Double` values are kept as their IEEE-754 bit patterns; `Utf8`
/// values as their (validated) bytes.
#[derive(Debug, Clone)]
#[allow(inconsistent_fields)]
pub enum Constant {
    ClassInfo { name_index: u16 },
    FieldInfo { tag: ConstantTag, class_index: u16, name_and_type_index: u16 },
    StringInfo { index: u16 },
    IntInfo { value: i32 },
    FloatInfo { bits: u32 },
    LongInfo { value: i64 },
    DoubleInfo { bits: u64 },
    NameAndTypeInfo { name_index: u16, descriptor_index: u16 },
    Utf8Info { value: Vec<u8> },
    MethodHandleInfo { kind: u8, index: u16 },
    MethodTypeInfo { descriptor_index: u16 },
    DynamicInfo { tag: ConstantTag, bootstrap_method_attr_index: u16, name_and_type_index: u16 },
    ModuleInfo { name_index: u16 },
    PackageInfo { name_index: u16 },
    /// The second slot of a `Long` or `Double`.
    Placeholder,
}

/// The mathematical value of a constant-pool slot.
#[allow(inconsistent_fields)]
pub enum ConstantView {
    ClassInfo { name_index: u16 },
    FieldInfo { tag: ConstantTag, class_index: u16, name_and_type_index: u16 },
    StringInfo { index: u16 },
    IntInfo { value: i32 },
    FloatInfo { bits: u32 },
    LongInfo { value: i64 },
    DoubleInfo { bits: u64 },
    NameAndTypeInfo { name_index: u16, descriptor_index: u16 },
    Utf8Info { value: Seq<u8> },
    MethodHandleInfo { kind: u8, index: u16 },
    MethodTypeInfo { descriptor_index: u16 },
    DynamicInfo { tag: ConstantTag, bootstrap_method_attr_index: u16, name_and_type_index: u16 },
    ModuleInfo { name_index: u16 },
    PackageInfo { name_index: u16 },
    Placeholder,
}

impl View for Constant {
    type V = ConstantView;

    open spec fn view(&self) -> ConstantView {
        match self {
            Constant::ClassInfo { name_index } => ConstantView::ClassInfo { name_index: *name_index },
            Constant::FieldInfo { tag, class_index, name_and_type_index } => ConstantView::FieldInfo {
                tag: *tag,
                class_index: *class_index,
                name_and_type_index: *name_and_type_index,
            },
            Constant::StringInfo { index } => ConstantView::StringInfo { index: *index },
            Constant::IntInfo { value } => ConstantView::IntInfo { value: *value },
            Constant::FloatInfo { bits } => ConstantView::FloatInfo { bits: *bits },
            Constant::LongInfo { value } => ConstantView::LongInfo { value: *value },
            Constant::DoubleInfo { bits } => ConstantView::DoubleInfo { bits: *bits },
            Constant::NameAndTypeInfo { name_index, descriptor_index } =>
                ConstantView::NameAndTypeInfo {
                name_index: *name_index,
                descriptor_index: *descriptor_index,
            },
            Constant::Utf8Info { value } => ConstantView::Utf8Info { value: value@ },
            Constant::MethodHandleInfo { kind, index } => ConstantView::MethodHandleInfo {
                kind: *kind,
                index: *index,
            },
            Constant::MethodTypeInfo { descriptor_index } => ConstantView::MethodTypeInfo {
                descriptor_index: *descriptor_index,
            },
            Constant::DynamicInfo { tag, bootstrap_method_attr_index, name_and_type_index } =>
                ConstantView::DynamicInfo {
                tag: *tag,
                bootstrap_method_attr_index: *bootstrap_method_attr_index,
                name_and_type_index: *name_and_type_index,
            },
            Constant::ModuleInfo { name_index } => ConstantView::ModuleInfo { name_index: *name_index },
            Constant::PackageInfo { name_index } => ConstantView::PackageInfo {
                name_index: *name_index,
            },
            Constant::Placeholder => ConstantView::Placeholder,
        }
    }
}

/// The slots of a pool as values.
pub open spec fn pool_view(pool: Seq<Constant>) -> Seq<ConstantView> {
    pool.map_values(|c: Constant| c@)
}

/// Whether the UTF-8 check of the standard library accepts these bytes.
pub uninterp spec fn is_utf8(b: Seq<u8>) -> bool;

/// Relies on `std::str::from_utf8`: it succeeds exactly on well-formed UTF-8.
#[verifier::external_body]
fn check_utf8(b: &[u8]) -> (r: bool)
    ensures
        r == is_utf8(b@),
{
    std::str::from_utf8(b).is_ok()
}

/// The kind of a slot value.
pub open spec fn kind_of(c: ConstantView) -> ConstantKind {
    match c {
        ConstantView::ClassInfo { .. } => ConstantKind::Class,
        ConstantView::FieldInfo { tag, .. } => if tag == ConstantTag::FieldRef {
            ConstantKind::FieldRef
        } else if tag == ConstantTag::MethodRef {
            ConstantKind::MethodRef
        } else {
            ConstantKind::InterfaceMethodRef
        },
        ConstantView::StringInfo { .. } => ConstantKind::String,
        ConstantView::IntInfo { .. } => ConstantKind::Integer,
        ConstantView::FloatInfo { .. } => ConstantKind::Float,
        ConstantView::LongInfo { .. } => ConstantKind::Long,
        ConstantView::DoubleInfo { .. } => ConstantKind::Double,
        ConstantView::NameAndTypeInfo { .. } => ConstantKind::NameAndType,
        ConstantView::Utf8Info { .. } => ConstantKind::Utf8,
        ConstantView::MethodHandleInfo { .. } => ConstantKind::MethodHandle,
        ConstantView::MethodTypeInfo { .. } => ConstantKind::MethodType,
        ConstantView::DynamicInfo { tag, .. } => if tag == ConstantTag::Dynamic {
            ConstantKind::Dynamic
        } else {
            ConstantKind::InvokeDynamic
        },
        ConstantView::ModuleInfo { .. } => ConstantKind::Module,
        ConstantView::PackageInfo { .. } => ConstantKind::Package,
        ConstantView::Placeholder => ConstantKind::Placeholder,
    }
}

/// Whether a constant takes two slots of the pool.
pub open spec fn is_wide(c: ConstantView) -> bool {
    c is LongInfo || c is DoubleInfo
}

/// A two-byte big-endian field at `pos`.
pub open spec fn u2_at(s: Seq<u8>, pos: int) -> u16 {
    be_value(s, pos, 2) as u16
}

/// The entry that starts at `pos`, with the position just past it.
pub open spec fn constant_at(s: Seq<u8>, pos: int) -> Result<(ConstantView, int), ClassError> {
    if pos < 0 || pos >= s.len() {
        Err(ClassError::UnexpectedEof)
    } else {
        let t = s[pos];
        let p = pos + 1;
        match tag_of_byte(t) {
            None => Err(ClassError::UnknownTag(t)),
            Some(tag) => {
                let size: int = match tag {
                    ConstantTag::Class | ConstantTag::ConstString | ConstantTag::MethodType
                    | ConstantTag::Module | ConstantTag::Package => 2,
                    ConstantTag::MethodHandle => 3,
                    ConstantTag::Long | ConstantTag::Double => 8,
                    ConstantTag::Utf8 => 2,
                    _ => 4,
                };
                if p + size > s.len() {
                    Err(ClassError::UnexpectedEof)
                } else if tag == ConstantTag::Utf8 {
                    let len = be_value(s, p, 2) as int;
                    if p + 2 + len > s.len() {
                        Err(ClassError::UnexpectedEof)
                    } else if !is_utf8(s.subrange(p + 2, p + 2 + len)) {
                        Err(ClassError::BadUtf8)
                    } else {
                        Ok((ConstantView::Utf8Info { value: s.subrange(p + 2, p + 2 + len) }, p + 2 + len))
                    }
                } else {
                    let c = match tag {
                        ConstantTag::Class => ConstantView::ClassInfo { name_index: u2_at(s, p) },
                        ConstantTag::FieldRef | ConstantTag::MethodRef
                        | ConstantTag::InterfaceMethodRef => ConstantView::FieldInfo {
                            tag,
                            class_index: u2_at(s, p),
                            name_and_type_index: u2_at(s, p + 2),
                        },
                        ConstantTag::ConstString => ConstantView::StringInfo { index: u2_at(s, p) },
                        ConstantTag::Integer => ConstantView::IntInfo {
                            value: be_value(s, p, 4) as u32 as i32,
                        },
                        ConstantTag::Float => ConstantView::FloatInfo { bits: be_value(s, p, 4) as u32 },
                        ConstantTag::Long => ConstantView::LongInfo {
                            value: be_value(s, p, 8) as u64 as i64,
                        },
                        ConstantTag::Double => ConstantView::DoubleInfo { bits: be_value(s, p, 8) as u64 },
                        ConstantTag::NameAndType => ConstantView::NameAndTypeInfo {
                            name_index: u2_at(s, p),
                            descriptor_index: u2_at(s, p + 2),
                        },
                        ConstantTag::MethodHandle => ConstantView::MethodHandleInfo {
                            kind: s[p],
                            index: u2_at(s, p + 1),
                        },
                        ConstantTag::MethodType => ConstantView::MethodTypeInfo {
                            descriptor_index: u2_at(s, p),
                        },
                        ConstantTag::Dynamic | ConstantTag::InvokeDynamic => ConstantView::DynamicInfo {
                            tag,
                            bootstrap_method_attr_index: u2_at(s, p),
                            name_and_type_index: u2_at(s, p + 2),
                        },
                        ConstantTag::Module => ConstantView::ModuleInfo { name_index: u2_at(s, p) },
                        _ => ConstantView::PackageInfo { name_index: u2_at(s, p) },
                    };
                    Ok((c, p + size))
                }
            },
        }
    }
}

/// Parses the entry at `*pos` and advances past it.
fn parse_constant(bytes: &[u8], pos: &mut usize) -> (r: Result<Constant, ClassError>)
    ensures
        match constant_at(bytes@, *old(pos) as int) {
            Ok((c, end)) => r matches Ok(v) && v@ == c && *final(pos) == end,
            Err(e) => r == Err::<Constant, ClassError>(e),
        },
{
    let start = *pos;
    let t = read_u1(bytes, pos)?;
    let tag = match ConstantTag::from_byte(t) {
        Some(tag) => tag,
        None => {
            return Err(ClassError::UnknownTag(t));
        },
    };
    let p = *pos;
    proof {
        reveal_with_fuel(be_value, 3);
    }
    let c = match tag {
        ConstantTag::Class => Constant::ClassInfo { name_index: read_u2(bytes, pos)? },
        ConstantTag::FieldRef | ConstantTag::MethodRef | ConstantTag::InterfaceMethodRef => {
            if bytes.len() - p < 4 {
                return Err(ClassError::UnexpectedEof);
            }
            let class_index = read_u2(bytes, pos)?;
            let name_and_type_index = read_u2(bytes, pos)?;
            Constant::FieldInfo { tag, class_index, name_and_type_index }
        },
        ConstantTag::ConstString => Constant::StringInfo { index: read_u2(bytes, pos)? },
        ConstantTag::Integer => {
            let v = read_u4(bytes, pos)?;
            Constant::IntInfo { value: v as i32 }
        },
        ConstantTag::Float => Constant::FloatInfo { bits: read_u4(bytes, pos)? },
        ConstantTag::Long => {
            let v = read_u8(bytes, pos)?;
            Constant::LongInfo { value: v as i64 }
        },
        ConstantTag::Double => Constant::DoubleInfo { bits: read_u8(bytes, pos)? },
        ConstantTag::NameAndType => {
            if bytes.len() - p < 4 {
                return Err(ClassError::UnexpectedEof);
            }
            let name_index = read_u2(bytes, pos)?;
            let descriptor_index = read_u2(bytes, pos)?;
            Constant::NameAndTypeInfo { name_index, descriptor_index }
        },
        ConstantTag::Utf8 => {
            let len = read_u2(bytes, pos)?;
            let value = read_bytes(len as u64, bytes, pos)?;
            if !check_utf8(value.as_slice()) {
                return Err(ClassError::BadUtf8);
            }
            Constant::Utf8Info { value }
        },
        ConstantTag::MethodHandle => {
            if bytes.len() - p < 3 {
                return Err(ClassError::UnexpectedEof);
            }
            let kind = read_u1(bytes, pos)?;
            let index = read_u2(bytes, pos)?;
            Constant::MethodHandleInfo { kind, index }
        },
        ConstantTag::MethodType => Constant::MethodTypeInfo { descriptor_index: read_u2(bytes, pos)? },
        ConstantTag::Dynamic | ConstantTag::InvokeDynamic => {
            if bytes.len() - p < 4 {
                return Err(ClassError::UnexpectedEof);
            }
            let bootstrap_method_attr_index = read_u2(bytes, pos)?;
            let name_and_type_index = read_u2(bytes, pos)?;
            Constant::DynamicInfo { tag, bootstrap_method_attr_index, name_and_type_index }
        },
        ConstantTag::Module => Constant::ModuleInfo { name_index: read_u2(bytes, pos)? },
        ConstantTag::Package => Constant::PackageInfo { name_index: read_u2(bytes, pos)? },
        ConstantTag::Placeholder => {
            return Err(ClassError::UnknownTag(t));
        },
    };
    Ok(c)
}

/// The slots of `n` pool entries laid out from `pos`, with the position past them.
///
/// A `Long` or `Double` fills its own slot and the following one, which holds a
/// `Placeholder` and has no bytes of its own.
pub open spec fn pool_from(s: Seq<u8>, pos: int, n: nat) -> Result<(Seq<ConstantView>, int), ClassError>
    decreases n,
{
    if n == 0 {
        Ok((Seq::empty(), pos))
    } else {
        match constant_at(s, pos) {
            Err(e) => Err(e),
            Ok((c, end)) => if is_wide(c) {
                if n < 2 {
                    Err(ClassError::TruncatedPool)
                } else {
                    match pool_from(s, end, (n - 2) as nat) {
                        Err(e) => Err(e),
                        Ok((rest, last)) => Ok((seq![c, ConstantView::Placeholder] + rest, last)),
                    }
                }
            } else {
                match pool_from(s, end, (n - 1) as nat) {
                    Err(e) => Err(e),
                    Ok((rest, last)) => Ok((seq![c] + rest, last)),
                }
            },
        }
    }
}

/// The slots of the constant pool whose count field stands at `pos`, as laid out in
/// the bytes, before cross-references are checked.
pub open spec fn pool_layout(s: Seq<u8>, pos: int) -> Result<(Seq<ConstantView>, int), ClassError> {
    if pos < 0 || pos + 2 > s.len() {
        Err(ClassError::UnexpectedEof)
    } else {
        let count = be_value(s, pos, 2);
        pool_from(s, pos + 2, if count == 0 { 0 } else { (count - 1) as nat })
    }
}

/// The pool indices that a slot refers to.
pub open spec fn refs_of(c: ConstantView) -> Seq<u16> {
    match c {
        ConstantView::ClassInfo { name_index } => seq![name_index],
        ConstantView::FieldInfo { class_index, name_and_type_index, .. } => seq![
            class_index,
            name_and_type_index,
        ],
        ConstantView::StringInfo { index } => seq![index],
        ConstantView::NameAndTypeInfo { name_index, descriptor_index } => seq![
            name_index,
            descriptor_index,
        ],
        ConstantView::MethodHandleInfo { index, .. } => seq![index],
        ConstantView::MethodTypeInfo { descriptor_index } => seq![descriptor_index],
        ConstantView::DynamicInfo { name_and_type_index, .. } => seq![name_and_type_index],
        ConstantView::ModuleInfo { name_index } => seq![name_index],
        ConstantView::PackageInfo { name_index } => seq![name_index],
        _ => Seq::empty(),
    }
}

/// The slot at 1-based index `i`, if there is one.
pub open spec fn slot(pool: Seq<ConstantView>, i: int) -> Option<ConstantView> {
    if 1 <= i <= pool.len() {
        Some(pool[i - 1])
    } else {
        None
    }
}

/// Whether index `i` names a real slot: in range and not the second slot of a wide constant.
pub open spec fn valid_ref(pool: Seq<ConstantView>, i: int) -> bool {
    slot(pool, i) matches Some(c) && !(c is Placeholder)
}

/// Whether every cross-reference in the pool names a real slot.
pub open spec fn refs_valid(pool: Seq<ConstantView>) -> bool {
    forall|k: int, j: int|
        0 <= k < pool.len() && 0 <= j < refs_of(pool[k]).len() ==> valid_ref(
            pool,
            #[trigger] refs_of(pool[k])[j] as int,
        )
}

/// Whether `i` is an index that some slot refers to and that names no real slot.
pub open spec fn is_bad_ref(pool: Seq<ConstantView>, i: int) -> bool {
    exists|k: int, j: int|
        0 <= k < pool.len() && 0 <= j < refs_of(pool[k]).len() && #[trigger] refs_of(pool[k])[j]
            == i && !valid_ref(pool, i)
}

/// Checks that each pool index of `c` names a real slot of `pool`.
fn check_refs(c: &Constant, pool: &Vec<Constant>) -> (r: Result<(), ClassError>)
    ensures
        r is Ok <==> forall|j: int|
            0 <= j < refs_of(c@).len() ==> valid_ref(pool_view(pool@), #[trigger] refs_of(c@)[j] as int),
        r matches Err(e) ==> exists|j: int|
            0 <= j < refs_of(c@).len() && e == ClassError::BadIndex(#[trigger] refs_of(c@)[j] as usize)
                && !valid_ref(pool_view(pool@), refs_of(c@)[j] as int),
{
    let (a, b): (u16, u16) = match c {
        Constant::ClassInfo { name_index } => (*name_index, *name_index),
        Constant::FieldInfo { class_index, name_and_type_index, .. } => (
            *class_index,
            *name_and_type_index,
        ),
        Constant::StringInfo { index } => (*index, *index),
        Constant::NameAndTypeInfo { name_index, descriptor_index } => (
            *name_index,
            *descriptor_index,
        ),
        Constant::MethodHandleInfo { index, .. } => (*index, *index),
        Constant::MethodTypeInfo { descriptor_index } => (*descriptor_index, *descriptor_index),
        Constant::DynamicInfo { name_and_type_index, .. } => (
            *name_and_type_index,
            *name_and_type_index,
        ),
        Constant::ModuleInfo { name_index } => (*name_index, *name_index),
        Constant::PackageInfo { name_index } => (*name_index, *name_index),
        _ => {
            return Ok(());
        },
    };
    let ghost rs = refs_of(c@);
    assert(1 <= rs.len() <= 2 && rs[0] == a && rs[rs.len() - 1] == b);
    if !ref_ok(a, pool) {
        return Err(ClassError::BadIndex(a as usize));
    }
    if !ref_ok(b, pool) {
        return Err(ClassError::BadIndex(b as usize));
    }
    Ok(())
}

/// Whether index `i` names a real slot of `pool`.
fn ref_ok(i: u16, pool: &Vec<Constant>) -> (r: bool)
    ensures
        r == valid_ref(pool_view(pool@), i as int),
{
    i >= 1 && (i as usize) <= pool.len() && !matches!(pool[i as usize - 1], Constant::Placeholder)
}

/// `r` with `pre` put before its slots.
pub open spec fn prepend_slots(
    pre: Seq<ConstantView>,
    r: Result<(Seq<ConstantView>, int), ClassError>,
) -> Result<(Seq<ConstantView>, int), ClassError> {
    match r {
        Ok((tail, last)) => Ok((pre + tail, last)),
        Err(e) => Err(e),
    }
}

/// Reads the constant pool whose count field stands at `*pos`, and advances past it.
///
/// The pool keeps the file's 1-based numbering through an offset: index `i` is
/// element `i - 1`. Each cross-reference must name a real slot, else `BadIndex`.
pub fn parse_constant_pool(bytes: &[u8], pos: &mut usize) -> (r: Result<Vec<Constant>, ClassError>)
    ensures
        match pool_layout(bytes@, *old(pos) as int) {
            Err(e) => r == Err::<Vec<Constant>, ClassError>(e),
            Ok((p, end)) => if refs_valid(p) {
                r matches Ok(v) && pool_view(v@) == p && *final(pos) == end
            } else {
                r matches Err(ClassError::BadIndex(i)) && is_bad_ref(p, i as int)
            },
        },
{
    let start = *pos;
    let count = read_u2(bytes, pos)?;
    let n: u16 = if count == 0 { 0 } else { count - 1 };
    let ghost base = *pos as int;
    let mut pool: Vec<Constant> = Vec::new();
    let mut remaining: u16 = n;
    while remaining > 0
        invariant
            remaining <= n,
            start == *old(pos),
            pool_layout(bytes@, start as int) == prepend_slots(
                pool_view(pool@),
                pool_from(bytes@, *pos as int, remaining as nat),
            ),
        decreases remaining,
    {
        let ghost here = *pos as int;
        let ghost v0 = pool_view(pool@);
        let c = match parse_constant(bytes, pos) {
            Ok(c) => c,
            Err(e) => {
                return Err(e);
            },
        };
        let wide = matches!(c, Constant::LongInfo { .. } | Constant::DoubleInfo { .. });
        if wide {
            if remaining < 2 {
                return Err(ClassError::TruncatedPool);
            }
            pool.push(c);
            pool.push(Constant::Placeholder);
            proof {
                let pv = pool_view(pool@);
                assert(pv =~= v0.push(c@).push(ConstantView::Placeholder));
                let rest = pool_from(bytes@, *pos as int, (remaining - 2) as nat);
                if let Ok((tail, last)) = rest {
                    assert(v0 + (seq![c@, ConstantView::Placeholder] + tail) =~= pv + tail);
                }
            }
            remaining = remaining - 2;
        } else {
            pool.push(c);
            proof {
                let pv = pool_view(pool@);
                assert(pv =~= v0.push(c@));
                let rest = pool_from(bytes@, *pos as int, (remaining - 1) as nat);
                if let Ok((tail, last)) = rest {
                    assert(v0 + (seq![c@] + tail) =~= pv + tail);
                }
            }
            remaining = remaining - 1;
        }
    }
    proof {
        assert(pool_view(pool@) + Seq::<ConstantView>::empty() =~= pool_view(pool@));
    }
    let mut k: usize = 0;
    while k < pool.len()
        invariant
            k <= pool@.len(),
            start == *old(pos),
            pool_layout(bytes@, start as int) == Ok::<(Seq<ConstantView>, int), ClassError>(
                (pool_view(pool@), *pos as int),
            ),
            forall|k2: int, j: int|
                0 <= k2 < k && 0 <= j < refs_of(pool_view(pool@)[k2]).len() ==> valid_ref(
                    pool_view(pool@),
                    #[trigger] refs_of(pool_view(pool@)[k2])[j] as int,
                ),
        decreases pool@.len() - k,
    {
        match check_refs(&pool[k], &pool) {
            Ok(()) => {},
            Err(e) => {
                proof {
                    let pv = pool_view(pool@);
                    assert(pv[k as int] == pool@[k as int]@);
                    let j = choose|j: int|
                        0 <= j < refs_of(pool@[k as int]@).len() && e == ClassError::BadIndex(
                            #[trigger] refs_of(pool@[k as int]@)[j] as usize,
                        ) && !valid_ref(pv, refs_of(pool@[k as int]@)[j] as int);
                    assert(!refs_valid(pv));
                    assert(refs_of(pv[k as int])[j] == refs_of(pool@[k as int]@)[j]);
                    assert(is_bad_ref(pv, refs_of(pv[k as int])[j] as int));
                }
                return Err(e);
            },
        }
        k = k + 1;
    }
    Ok(pool)
}

/// In a laid-out pool, every `Long` or `Double` is followed by a `Placeholder` slot.
pub proof fn lemma_pool_from_slotting(s: Seq<u8>, pos: int, n: nat)
    ensures
        pool_from(s, pos, n) matches Ok((p, _)) ==> forall|i: int|
            0 <= i < p.len() && is_wide(#[trigger] p[i]) ==> i + 1 < p.len() && p[i + 1] is Placeholder,
    decreases n,
{
    if n > 0 {
        if let Ok((c, end)) = constant_at(s, pos) {
            if is_wide(c) {
                if n >= 2 {
                    lemma_pool_from_slotting(s, end, (n - 2) as nat);
                    if let Ok((rest, last)) = pool_from(s, end, (n - 2) as nat) {
                        let p = seq![c, ConstantView::Placeholder] + rest;
                        assert forall|i: int| 0 <= i < p.len() && is_wide(#[trigger] p[i]) implies i + 1
                            < p.len() && p[i + 1] is Placeholder by {
                            if i >= 2 {
                                assert(p[i] == rest[i - 2]);
                                assert(p[i + 1] == rest[i - 1]);
                            }
                        }
                    }
                }
            } else {
                lemma_pool_from_slotting(s, end, (n - 1) as nat);
                if let Ok((rest, last)) = pool_from(s, end, (n - 1) as nat) {
                    let p = seq![c] + rest;
                    assert forall|i: int| 0 <= i < p.len() && is_wide(#[trigger] p[i]) implies i + 1
                        < p.len() && p[i + 1] is Placeholder by {
                        if i >= 1 {
                            assert(p[i] == rest[i - 1]);
                            assert(p[i + 1] == rest[i]);
                        }
                    }
                }
            }
        }
    }
}

/// Every `Long` or `Double` of a loaded constant pool, at 1-based index `i`, is
/// followed by a `Placeholder` at `i + 1`, and no cross-reference of the pool
/// names `i + 1`.
pub proof fn lemma_wide_constant_slotting(s: Seq<u8>, pos: int)
    requires
        pool_layout(s, pos) matches Ok((p, _)) && refs_valid(p),
    ensures
        pool_layout(s, pos) matches Ok((p, _)) && forall|i: int|
            1 <= i <= p.len() && is_wide(#[trigger] slot(p, i)->0) ==> slot(p, i + 1) == Some(
                ConstantView::Placeholder,
            ) && forall|k: int, j: int|
                0 <= k < p.len() && 0 <= j < refs_of(p[k]).len() ==> #[trigger] refs_of(p[k])[j] != i + 1,
{
    let count = be_value(s, pos, 2);
    lemma_pool_from_slotting(s, pos + 2, if count == 0 { 0 } else { (count - 1) as nat });
    let p = pool_layout(s, pos)->Ok_0.0;
    assert forall|i: int| 1 <= i <= p.len() && is_wide(#[trigger] slot(p, i)->0) implies slot(p, i + 1)
        == Some(ConstantView::Placeholder) && forall|k: int, j: int|
        0 <= k < p.len() && 0 <= j < refs_of(p[k]).len() ==> #[trigger] refs_of(p[k])[j] != i + 1 by {
        assert(is_wide(p[i - 1]));
        assert forall|k: int, j: int| 0 <= k < p.len() && 0 <= j < refs_of(p[k]).len() implies #[trigger] refs_of(
            p[k],
        )[j] != i + 1 by {
            assert(valid_ref(p, refs_of(p[k])[j] as int));
        }
    }
}

/// The UTF-8 text that index `i` resolves to: a `Utf8` slot gives its bytes, a
/// `Class` slot gives the `Utf8` slot that it names. Nothing else resolves.
pub open spec fn resolve_utf8_spec(pool: Seq<ConstantView>, i: int) -> Result<Seq<u8>, ClassError> {
    match slot(pool, i) {
        None => Err(ClassError::BadIndex(i as usize)),
        Some(ConstantView::Utf8Info { value }) => Ok(value),
        Some(ConstantView::ClassInfo { name_index }) => match slot(pool, name_index as int) {
            None => Err(ClassError::BadIndex(name_index as usize)),
            Some(ConstantView::Utf8Info { value }) => Ok(value),
            Some(c) => Err(ClassError::BadConstantKind { expected: ConstantKind::Utf8, found: kind_of(c) }),
        },
        Some(c) => Err(ClassError::BadConstantKind { expected: ConstantKind::Utf8, found: kind_of(c) }),
    }
}

/// Resolution looks at no more than two slots: the result depends only on slot `i`
/// and, when that is a `Class`, on the slot it names.
pub proof fn lemma_resolve_utf8_depth(pool_a: Seq<ConstantView>, pool_b: Seq<ConstantView>, i: int)
    requires
        slot(pool_a, i) == slot(pool_b, i),
        slot(pool_a, i) matches Some(ConstantView::ClassInfo { name_index }) ==> slot(pool_a, name_index as int)
            == slot(pool_b, name_index as int),
    ensures
        resolve_utf8_spec(pool_a, i) == resolve_utf8_spec(pool_b, i),
{
}

/// Copies a byte vector.
fn copy_bytes(v: &Vec<u8>) -> (r: Vec<u8>)
    ensures
        r@ == v@,
{
    let mut out: Vec<u8> = Vec::new();
    let mut i: usize = 0;
    while i < v.len()
        invariant
            i <= v@.len(),
            out@ == v@.subrange(0, i as int),
        decreases v@.len() - i,
    {
        out.push(v[i]);
        i = i + 1;
    }
    proof {
        assert(v@.subrange(0, v@.len() as int) =~= v@);
    }
    out
}

/// The kind of the slot at 1-based index `i`, or `Missing`.
pub fn kind_at(pool: &Vec<Constant>, i: usize) -> (r: ConstantKind)
    ensures
        r == match slot(pool_view(pool@), i as int) {
            Some(c) => kind_of(c),
            None => ConstantKind::Missing,
        },
{
    if i == 0 || i > pool.len() {
        return ConstantKind::Missing;
    }
    match &pool[i - 1] {
        Constant::ClassInfo { .. } => ConstantKind::Class,
        Constant::FieldInfo { tag, .. } => match tag {
            ConstantTag::FieldRef => ConstantKind::FieldRef,
            ConstantTag::MethodRef => ConstantKind::MethodRef,
            _ => ConstantKind::InterfaceMethodRef,
        },
        Constant::StringInfo { .. } => ConstantKind::String,
        Constant::IntInfo { .. } => ConstantKind::Integer,
        Constant::FloatInfo { .. } => ConstantKind::Float,
        Constant::LongInfo { .. } => ConstantKind::Long,
        Constant::DoubleInfo { .. } => ConstantKind::Double,
        Constant::NameAndTypeInfo { .. } => ConstantKind::NameAndType,
        Constant::Utf8Info { .. } => ConstantKind::Utf8,
        Constant::MethodHandleInfo { .. } => ConstantKind::MethodHandle,
        Constant::MethodTypeInfo { .. } => ConstantKind::MethodType,
        Constant::DynamicInfo { tag, .. } => match tag {
            ConstantTag::Dynamic => ConstantKind::Dynamic,
            _ => ConstantKind::InvokeDynamic,
        },
        Constant::ModuleInfo { .. } => ConstantKind::Module,
        Constant::PackageInfo { .. } => ConstantKind::Package,
        Constant::Placeholder => ConstantKind::Placeholder,
    }
}

/// Resolves a 1-based pool index to UTF-8 text, following a `Class` slot to its name.
pub fn resolve_utf8(index: usize, constant_pool: &Vec<Constant>) -> (r: Result<Vec<u8>, ClassError>)
    ensures
        match resolve_utf8_spec(pool_view(constant_pool@), index as int) {
            Ok(v) => r matches Ok(b) && b@ == v,
            Err(e) => r == Err::<Vec<u8>, ClassError>(e),
        },
{
    let ghost pv = pool_view(constant_pool@);
    if index == 0 || index > constant_pool.len() {
        return Err(ClassError::BadIndex(index));
    }
    proof {
        assert(pv[index - 1] == constant_pool@[index - 1]@);
    }
    match &constant_pool[index - 1] {
        Constant::Utf8Info { value } => Ok(copy_bytes(value)),
        Constant::ClassInfo { name_index } => {
            let n = *name_index as usize;
            if n == 0 || n > constant_pool.len() {
                return Err(ClassError::BadIndex(n));
            }
            proof {
                assert(pv[n - 1] == constant_pool@[n - 1]@);
            }
            match &constant_pool[n - 1] {
                Constant::Utf8Info { value } => Ok(copy_bytes(value)),
                _ => Err(
                    ClassError::BadConstantKind { expected: ConstantKind::Utf8, found: kind_at(constant_pool, n) },
                ),
            }
        },
        _ => Err(
            ClassError::BadConstantKind { expected: ConstantKind::Utf8, found: kind_at(constant_pool, index) },
        ),
    }
}

/// The value that `ldc` pushes for a constant, if it is loadable.
pub open spec fn constant_value(c: ConstantView) -> Option<DataType> {
    match c {
        ConstantView::IntInfo { value } => Some(DataType::Integer(value)),
        ConstantView::FloatInfo { bits } => Some(DataType::Float(bits)),
        ConstantView::LongInfo { value } => Some(DataType::Long(value)),
        ConstantView::DoubleInfo { bits } => Some(DataType::Double(bits)),
        ConstantView::StringInfo { .. } => Some(DataType::Reference),
        _ => None,
    }
}

impl Constant {
    /// The value that loading this constant pushes: numbers as typed values, a
    /// string as a reference; `None` for a constant that is not loadable.
    pub fn get_constant_value(&self, _constant_pool: &Vec<Constant>) -> (r: Option<DataType>)
        ensures
            r == constant_value(self@),
    {
        match self {
            Constant::IntInfo { value } => Some(DataType::Integer(*value)),
            Constant::FloatInfo { bits } => Some(DataType::Float(*bits)),
            Constant::LongInfo { value } => Some(DataType::Long(*value)),
            Constant::DoubleInfo { bits } => Some(DataType::Double(*bits)),
            Constant::StringInfo { .. } => Some(DataType::Reference),
            _ => None,
        }
    }
}

} // verus!
