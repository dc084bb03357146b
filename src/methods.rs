use vstd::prelude::*;

use crate::attributes::{attrs_match, parse_attributes, Attribute};
use crate::constants::{pool_view, resolve_utf8, resolve_utf8_spec, u2_at, Constant, ConstantView};
use crate::descriptor::{descriptor_matches, descriptor_ok, parse_descriptor, MethodDescriptor};
use crate::error::ClassError;
use crate::fields::{has_flag, member_end, members_end, visibility, visibility_of, Visibility};
use crate::instructions::Instruction;
use crate::read::{be_value, can_read, read_u2};

verus! {

/// The decoded access flags of a method.
#[derive(Debug, Clone, Copy, PartialEq, Eq, Structural)]
pub struct MethodAccessFlags {
    pub visibility: Visibility,
    pub is_static: bool,
    pub is_final: bool,
    pub is_synchronized: bool,
    pub is_bridge: bool,
    pub is_varargs: bool,
    pub is_native: bool,
    pub is_abstract: bool,
    pub is_strict: bool,
    pub is_synthetic: bool,
}

/// The method flags that a flag word encodes; bits without a meaning are ignored.
pub open spec fn method_flags_of(mask: u16) -> MethodAccessFlags {
    MethodAccessFlags {
        visibility: visibility_of(mask),
        is_static: has_flag(mask, 0x0008),
        is_final: has_flag(mask, 0x0010),
        is_synchronized: has_flag(mask, 0x0020),
        is_bridge: has_flag(mask, 0x0040),
        is_varargs: has_flag(mask, 0x0080),
        is_native: has_flag(mask, 0x0100),
        is_abstract: has_flag(mask, 0x0400),
        is_strict: has_flag(mask, 0x0800),
        is_synthetic: has_flag(mask, 0x1000),
    }
}

/// Decodes the access flags of a method.
pub fn parse_access_flags(mask: u16) -> (r: MethodAccessFlags)
    ensures
        r == method_flags_of(mask),
{
    MethodAccessFlags {
        visibility: visibility(mask),
        is_static: mask & 0x0008 != 0,
        is_final: mask & 0x0010 != 0,
        is_synchronized: mask & 0x0020 != 0,
        is_bridge: mask & 0x0040 != 0,
        is_varargs: mask & 0x0080 != 0,
        is_native: mask & 0x0100 != 0,
        is_abstract: mask & 0x0400 != 0,
        is_strict: mask & 0x0800 != 0,
        is_synthetic: mask & 0x1000 != 0,
    }
}

/// A method of a class, with its parsed descriptor.
#[derive(Debug)]
pub struct Method {
    pub access_flags: MethodAccessFlags,
    pub name: Vec<u8>,
    pub descriptor: MethodDescriptor,
    pub attributes: Vec<Attribute>,
}

/// The instructions of the first `Code` attribute among `attrs`, if any.
pub open spec fn first_code(attrs: Seq<Attribute>) -> Option<Seq<Instruction>>
    decreases attrs.len(),
{
    if attrs.len() == 0 {
        None
    } else if let Attribute::Code { code, .. } = attrs[0] {
        Some(code@)
    } else {
        first_code(attrs.drop_first())
    }
}

impl Method {
    /// The number of arguments the descriptor lists; a `long` or `double` counts once.
    pub fn num_args(&self) -> (r: usize)
        ensures
            r == self.descriptor.arg_types@.len(),
    {
        self.descriptor.arg_types.len()
    }

    /// The instructions of the method's first `Code` attribute, if it has one.
    pub fn get_code(&self) -> (r: Option<&Vec<Instruction>>)
        ensures
            match first_code(self.attributes@) {
                Some(c) => r matches Some(v) && v@ == c,
                None => r is None,
            },
    {
        let mut i: usize = 0;
        proof {
            assert(self.attributes@.subrange(0, self.attributes@.len() as int) =~= self.attributes@);
        }
        while i < self.attributes.len()
            invariant
                i <= self.attributes@.len(),
                first_code(self.attributes@) == first_code(self.attributes@.subrange(i as int, self.attributes@.len() as int)),
            decreases self.attributes@.len() - i,
        {
            proof {
                let rest = self.attributes@.subrange(i as int, self.attributes@.len() as int);
                assert(rest.drop_first() =~= self.attributes@.subrange(i + 1, self.attributes@.len() as int));
                assert(rest[0] == self.attributes@[i as int]);
            }
            if let Attribute::Code { code, .. } = &self.attributes[i] {
                return Some(code);
            }
            i = i + 1;
        }
        None
    }
}

/// Whether `m` is the method entry at `pos`: flags, name and descriptor through the
/// pool, the descriptor parsed, then its attributes.
pub open spec fn method_matches_at(s: Seq<u8>, pos: int, pool: Seq<ConstantView>, m: Method) -> bool {
    &&& can_read(s, pos, 8)
    &&& m.access_flags == method_flags_of(u2_at(s, pos))
    &&& resolve_utf8_spec(pool, u2_at(s, pos + 2) as int) == Ok::<Seq<u8>, ClassError>(m.name@)
    &&& resolve_utf8_spec(pool, u2_at(s, pos + 4) as int) matches Ok(d)
    &&& descriptor_ok(d) && descriptor_matches(d, m.descriptor)
    &&& attrs_match(s, pos + 8, be_value(s, pos + 6, 2), pool, m.attributes@)
}

/// Whether `methods` are the `n` method entries laid out from `pos`.
pub open spec fn methods_match(s: Seq<u8>, pos: int, n: nat, pool: Seq<ConstantView>, methods: Seq<Method>) -> bool
    decreases n,
{
    if n == 0 {
        methods.len() == 0
    } else {
        &&& methods.len() >= 1
        &&& method_matches_at(s, pos, pool, methods[0])
        &&& methods_match(s, member_end(s, pos), (n - 1) as nat, pool, methods.drop_first())
    }
}

/// Reads one method entry at `*pos`.
fn parse_method_entry(bytes: &[u8], pos: &mut usize, constant_pool: &Vec<Constant>) -> (r: Result<Method, ClassError>)
    ensures
        r matches Ok(x) ==> method_matches_at(bytes@, *old(pos) as int, pool_view(constant_pool@), x)
            && *final(pos) == member_end(bytes@, *old(pos) as int),
        r is Err ==> forall|x: Method| !method_matches_at(bytes@, *old(pos) as int, pool_view(constant_pool@), x),
{
    let flags = read_u2(bytes, pos)?;
    let name_index = read_u2(bytes, pos)?;
    let descriptor_index = read_u2(bytes, pos)?;
    let name = resolve_utf8(name_index as usize, constant_pool)?;
    let descriptor_text = resolve_utf8(descriptor_index as usize, constant_pool)?;
    let descriptor = match parse_descriptor(descriptor_text.as_slice()) {
        Some(d) => d,
        None => {
            return Err(ClassError::BadDescriptor);
        },
    };
    let attributes = parse_attributes(bytes, pos, constant_pool)?;
    let m = Method { access_flags: parse_access_flags(flags), name, descriptor, attributes };
    Ok(m)
}

/// Reads the methods table whose count stands at `*pos`, and advances past it.
///
/// A descriptor that does not follow the descriptor grammar gives `BadDescriptor`.
pub fn parse_methods(bytes: &[u8], pos: &mut usize, constant_pool: &Vec<Constant>) -> (r: Result<Vec<Method>, ClassError>)
    ensures
        r matches Ok(v) ==> {
            &&& can_read(bytes@, *old(pos) as int, 2)
            &&& methods_match(bytes@, *old(pos) + 2, be_value(bytes@, *old(pos) as int, 2), pool_view(constant_pool@), v@)
            &&& *final(pos) == members_end(bytes@, *old(pos) + 2, be_value(bytes@, *old(pos) as int, 2))
        },
        r is Err ==> forall|t: Seq<Method>|
            !(can_read(bytes@, *old(pos) as int, 2) && #[trigger] methods_match(
                bytes@,
                *old(pos) + 2,
                be_value(bytes@, *old(pos) as int, 2),
                pool_view(constant_pool@),
                t,
            )),
{
    let ghost start = *pos as int;
    let count = read_u2(bytes, pos)?;
    let ghost first = *pos as int;
    let mut methods: Vec<Method> = Vec::new();
    let mut i: u16 = 0;
    proof {
        assert forall|t: Seq<Method>| methods_match(bytes@, first, count as nat, pool_view(constant_pool@), t)
            implies methods_match(bytes@, first, count as nat, pool_view(constant_pool@), t.subrange(0, t.len() as int)) by {
            assert(t.subrange(0, t.len() as int) =~= t);
        }
    }
    while i < count
        invariant
            i <= count,
            count as nat == be_value(bytes@, start, 2),
            can_read(bytes@, start, 2),
            first == start + 2,
            start == *old(pos),
            members_end(bytes@, first, count as nat) == members_end(bytes@, *pos as int, (count - i) as nat),
            forall|t: Seq<Method>|
                methods_match(bytes@, *pos as int, (count - i) as nat, pool_view(constant_pool@), t)
                    ==> methods_match(bytes@, first, count as nat, pool_view(constant_pool@), methods@ + t),
            forall|t: Seq<Method>|
                methods_match(bytes@, first, count as nat, pool_view(constant_pool@), t) ==> t.len() >= i
                    && methods_match(bytes@, *pos as int, (count - i) as nat, pool_view(constant_pool@), t.subrange(i as int, t.len() as int)),
        decreases count - i,
    {
        let ghost here = *pos as int;
        let ghost m0 = methods@;
        let m = match parse_method_entry(bytes, pos, constant_pool) {
            Ok(x) => x,
            Err(e) => {
                proof {
                    assert forall|t: Seq<Method>|
                        !(can_read(bytes@, start, 2) && #[trigger] methods_match(bytes@, start + 2, be_value(bytes@, start, 2), pool_view(constant_pool@), t)) by {
                        if methods_match(bytes@, first, count as nat, pool_view(constant_pool@), t) {
                            let tail = t.subrange(i as int, t.len() as int);
                            assert(methods_match(bytes@, here, (count - i) as nat, pool_view(constant_pool@), tail));
                            assert(method_matches_at(bytes@, here, pool_view(constant_pool@), tail[0]));
                        }
                    }
                }
                return Err(e);
            },
        };
        proof {
            assert forall|t: Seq<Method>|
                methods_match(bytes@, first, count as nat, pool_view(constant_pool@), t) implies t.len() >= i + 1
                    && methods_match(bytes@, *pos as int, (count - i - 1) as nat, pool_view(constant_pool@), t.subrange(i + 1, t.len() as int)) by {
                let tail = t.subrange(i as int, t.len() as int);
                assert(methods_match(bytes@, here, (count - i) as nat, pool_view(constant_pool@), tail));
                assert(tail.drop_first() =~= t.subrange(i + 1, t.len() as int));
            }
            assert(method_matches_at(bytes@, here, pool_view(constant_pool@), m));
            assert forall|t: Seq<Method>|
                methods_match(bytes@, *pos as int, (count - i - 1) as nat, pool_view(constant_pool@), t)
                implies methods_match(bytes@, first, count as nat, pool_view(constant_pool@), m0.push(m) + t) by {
                let t2 = seq![m] + t;
                assert(t2.drop_first() =~= t);
                assert(methods_match(bytes@, here, (count - i) as nat, pool_view(constant_pool@), t2));
                assert(m0 + t2 =~= m0.push(m) + t);
            }
        }
        methods.push(m);
        i = i + 1;
    }
    proof {
        assert(methods@ + Seq::<Method>::empty() =~= methods@);
    }
    Ok(methods)
}

} // verus!
