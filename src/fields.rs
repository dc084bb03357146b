use vstd::prelude::*;

use crate::attributes::{attrs_end, attrs_match, parse_attributes, Attribute};
use crate::constants::{pool_view, resolve_utf8, resolve_utf8_spec, u2_at, Constant, ConstantView};
use crate::error::ClassError;
use crate::read::{be_value, can_read, read_u2};

verus! {

/// Who may access a field or method.
#[derive(Debug, Clone, Copy, PartialEq, Eq, Structural)]
pub enum Visibility {
    Private,
    Protected,
    Public,
}

/// Whether `bit` is set in `mask`.
pub open spec fn has_flag(mask: u16, bit: u16) -> bool {
    mask & bit != 0
}

/// The visibility a flag word gives: `Private`, else `Protected`, else `Public`,
/// which is also what no visibility flag at all means.
pub open spec fn visibility_of(mask: u16) -> Visibility {
    if has_flag(mask, 0x0002) {
        Visibility::Private
    } else if has_flag(mask, 0x0004) {
        Visibility::Protected
    } else {
        Visibility::Public
    }
}

/// The visibility that a flag word gives.
pub fn visibility(mask: u16) -> (r: Visibility)
    ensures
        r == visibility_of(mask),
{
    if mask & 0x0002 != 0 {
        Visibility::Private
    } else if mask & 0x0004 != 0 {
        Visibility::Protected
    } else {
        Visibility::Public
    }
}

/// The decoded access flags of a field.
#[derive(Debug, Clone, Copy, PartialEq, Eq, Structural)]
pub struct FieldAccessFlags {
    pub visibility: Visibility,
    pub is_static: bool,
    pub is_final: bool,
    pub is_volatile: bool,
    pub is_transient: bool,
    pub is_synthetic: bool,
    pub is_enum: bool,
}

/// The field flags that a flag word encodes; bits without a meaning are ignored.
pub open spec fn field_flags_of(mask: u16) -> FieldAccessFlags {
    FieldAccessFlags {
        visibility: visibility_of(mask),
        is_static: has_flag(mask, 0x0008),
        is_final: has_flag(mask, 0x0010),
        is_volatile: has_flag(mask, 0x0040),
        is_transient: has_flag(mask, 0x0080),
        is_synthetic: has_flag(mask, 0x1000),
        is_enum: has_flag(mask, 0x4000),
    }
}

/// Decodes the access flags of a field.
pub fn parse_access_flags(mask: u16) -> (r: FieldAccessFlags)
    ensures
        r == field_flags_of(mask),
{
    FieldAccessFlags {
        visibility: visibility(mask),
        is_static: mask & 0x0008 != 0,
        is_final: mask & 0x0010 != 0,
        is_volatile: mask & 0x0040 != 0,
        is_transient: mask & 0x0080 != 0,
        is_synthetic: mask & 0x1000 != 0,
        is_enum: mask & 0x4000 != 0,
    }
}

/// A field of a class.
#[derive(Debug)]
pub struct Field {
    pub access_flags: FieldAccessFlags,
    pub name: Vec<u8>,
    pub descriptor: Vec<u8>,
    pub attributes: Vec<Attribute>,
}

/// The position just past the field or method entry at `pos`.
pub open spec fn member_end(s: Seq<u8>, pos: int) -> int {
    attrs_end(s, pos + 8, be_value(s, pos + 6, 2))
}

/// Whether `f` is the field entry at `pos`: flags, name and descriptor through the
/// pool, then its attributes.
pub open spec fn field_matches_at(s: Seq<u8>, pos: int, pool: Seq<ConstantView>, f: Field) -> bool {
    &&& can_read(s, pos, 8)
    &&& f.access_flags == field_flags_of(u2_at(s, pos))
    &&& resolve_utf8_spec(pool, u2_at(s, pos + 2) as int) == Ok::<Seq<u8>, ClassError>(f.name@)
    &&& resolve_utf8_spec(pool, u2_at(s, pos + 4) as int) == Ok::<Seq<u8>, ClassError>(f.descriptor@)
    &&& attrs_match(s, pos + 8, be_value(s, pos + 6, 2), pool, f.attributes@)
}

/// Whether `fields` are the `n` field entries laid out from `pos`.
pub open spec fn fields_match(s: Seq<u8>, pos: int, n: nat, pool: Seq<ConstantView>, fields: Seq<Field>) -> bool
    decreases n,
{
    if n == 0 {
        fields.len() == 0
    } else {
        &&& fields.len() >= 1
        &&& field_matches_at(s, pos, pool, fields[0])
        &&& fields_match(s, member_end(s, pos), (n - 1) as nat, pool, fields.drop_first())
    }
}

/// The position just past `n` field or method entries laid out from `pos`.
pub open spec fn members_end(s: Seq<u8>, pos: int, n: nat) -> int
    decreases n,
{
    if n == 0 {
        pos
    } else {
        members_end(s, member_end(s, pos), (n - 1) as nat)
    }
}

/// Reads one field entry at `*pos`.
fn parse_field_entry(bytes: &[u8], pos: &mut usize, constant_pool: &Vec<Constant>) -> (r: Result<Field, ClassError>)
    ensures
        r matches Ok(x) ==> field_matches_at(bytes@, *old(pos) as int, pool_view(constant_pool@), x)
            && *final(pos) == member_end(bytes@, *old(pos) as int),
        r is Err ==> forall|x: Field| !field_matches_at(bytes@, *old(pos) as int, pool_view(constant_pool@), x),
{
    let flags = read_u2(bytes, pos)?;
    let name_index = read_u2(bytes, pos)?;
    let descriptor_index = read_u2(bytes, pos)?;
    let name = resolve_utf8(name_index as usize, constant_pool)?;
    let descriptor = resolve_utf8(descriptor_index as usize, constant_pool)?;
    let attributes = parse_attributes(bytes, pos, constant_pool)?;
    let f = Field { access_flags: parse_access_flags(flags), name, descriptor, attributes };
    Ok(f)
}

/// Reads the fields table whose count stands at `*pos`, and advances past it.
pub fn parse_fields(bytes: &[u8], pos: &mut usize, constant_pool: &Vec<Constant>) -> (r: Result<Vec<Field>, ClassError>)
    ensures
        r matches Ok(v) ==> {
            &&& can_read(bytes@, *old(pos) as int, 2)
            &&& fields_match(bytes@, *old(pos) + 2, be_value(bytes@, *old(pos) as int, 2), pool_view(constant_pool@), v@)
            &&& *final(pos) == members_end(bytes@, *old(pos) + 2, be_value(bytes@, *old(pos) as int, 2))
        },
        r is Err ==> forall|t: Seq<Field>|
            !(can_read(bytes@, *old(pos) as int, 2) && #[trigger] fields_match(
                bytes@,
                *old(pos) + 2,
                be_value(bytes@, *old(pos) as int, 2),
                pool_view(constant_pool@),
                t,
            )),
{
    let ghost start = *pos as int;
    let count = read_u2(bytes, pos)?;
    let ghost first = *pos as int;
    let mut fields: Vec<Field> = Vec::new();
    let mut i: u16 = 0;
    proof {
        assert forall|t: Seq<Field>| fields_match(bytes@, first, count as nat, pool_view(constant_pool@), t)
            implies fields_match(bytes@, first, count as nat, pool_view(constant_pool@), t.subrange(0, t.len() as int)) by {
            assert(t.subrange(0, t.len() as int) =~= t);
        }
    }
    while i < count
        invariant
            i <= count,
            count as nat == be_value(bytes@, start, 2),
            can_read(bytes@, start, 2),
            first == start + 2,
            start == *old(pos),
            members_end(bytes@, first, count as nat) == members_end(bytes@, *pos as int, (count - i) as nat),
            forall|t: Seq<Field>|
                fields_match(bytes@, *pos as int, (count - i) as nat, pool_view(constant_pool@), t)
                    ==> fields_match(bytes@, first, count as nat, pool_view(constant_pool@), fields@ + t),
            forall|t: Seq<Field>|
                fields_match(bytes@, first, count as nat, pool_view(constant_pool@), t) ==> t.len() >= i
                    && fields_match(bytes@, *pos as int, (count - i) as nat, pool_view(constant_pool@), t.subrange(i as int, t.len() as int)),
        decreases count - i,
    {
        let ghost here = *pos as int;
        let ghost f0 = fields@;
        let f = match parse_field_entry(bytes, pos, constant_pool) {
            Ok(x) => x,
            Err(e) => {
                proof {
                    assert forall|t: Seq<Field>|
                        !(can_read(bytes@, start, 2) && #[trigger] fields_match(bytes@, start + 2, be_value(bytes@, start, 2), pool_view(constant_pool@), t)) by {
                        if fields_match(bytes@, first, count as nat, pool_view(constant_pool@), t) {
                            let tail = t.subrange(i as int, t.len() as int);
                            assert(fields_match(bytes@, here, (count - i) as nat, pool_view(constant_pool@), tail));
                            assert(field_matches_at(bytes@, here, pool_view(constant_pool@), tail[0]));
                        }
                    }
                }
                return Err(e);
            },
        };
        proof {
            assert forall|t: Seq<Field>|
                fields_match(bytes@, first, count as nat, pool_view(constant_pool@), t) implies t.len() >= i + 1
                    && fields_match(bytes@, *pos as int, (count - i - 1) as nat, pool_view(constant_pool@), t.subrange(i + 1, t.len() as int)) by {
                let tail = t.subrange(i as int, t.len() as int);
                assert(fields_match(bytes@, here, (count - i) as nat, pool_view(constant_pool@), tail));
                assert(tail.drop_first() =~= t.subrange(i + 1, t.len() as int));
            }
            assert(field_matches_at(bytes@, here, pool_view(constant_pool@), f));
            assert forall|t: Seq<Field>|
                fields_match(bytes@, *pos as int, (count - i - 1) as nat, pool_view(constant_pool@), t)
                implies fields_match(bytes@, first, count as nat, pool_view(constant_pool@), f0.push(f) + t) by {
                let t2 = seq![f] + t;
                assert(t2.drop_first() =~= t);
                assert(fields_match(bytes@, here, (count - i) as nat, pool_view(constant_pool@), t2));
                assert(f0 + t2 =~= f0.push(f) + t);
            }
        }
        fields.push(f);
        i = i + 1;
    }
    proof {
        assert(fields@ + Seq::<Field>::empty() =~= fields@);
    }
    Ok(fields)
}

} // verus!
