use vstd::prelude::*;

use crate::attributes::{
    attr_len, attr_matches, attrs_end, attrs_match, parse_attributes, same_bytes, Attribute,
};
use crate::constants::{
    constant_at, constant_value, is_wide, kind_at, kind_of, parse_constant_pool, pool_from, pool_layout, pool_view, refs_valid, resolve_utf8,
    resolve_utf8_spec, slot, u2_at, Constant, ConstantView,
};
use crate::error::{ClassError, ConstantKind};
use crate::execution::DataType;
use crate::fields::{field_matches_at, fields_match, member_end, members_end, parse_fields, Field};
use crate::instructions::Instruction;
use crate::methods::{first_code, method_matches_at, methods_match, parse_methods, Method};
use crate::read::{be_value, can_read, read_u2, read_u4};

verus! {

/// A loaded class. Pool index `i` is `constant_pool[i - 1]`.
#[derive(Debug)]
pub struct Class {
    pub minor_version: u16,
    pub major_version: u16,
    pub constant_pool: Vec<Constant>,
    pub access_flags: u16,
    pub name: Vec<u8>,
    /// `None` when the class has no superclass (index 0).
    pub super_name: Option<Vec<u8>>,
    pub interfaces: Vec<Vec<u8>>,
    pub fields: Vec<Field>,
    pub methods: Vec<Method>,
    pub attributes: Vec<Attribute>,
}

/// The magic number that opens every class file.
pub const CLASS_MAGIC: u32 = 0xCAFEBABE;

/// The position just past a table (fields or methods) whose count stands at `pos`.
pub open spec fn table_end(s: Seq<u8>, pos: int) -> int {
    members_end(s, pos + 2, be_value(s, pos, 2))
}

/// The position just past the interfaces list whose count stands at `pos`.
pub open spec fn interfaces_end(s: Seq<u8>, pos: int) -> int {
    pos + 2 + 2 * be_value(s, pos, 2)
}

/// Whether `names` are the interfaces listed from `pos`, each resolved through the pool.
pub open spec fn interfaces_match(s: Seq<u8>, pos: int, pool: Seq<ConstantView>, names: Seq<Vec<u8>>) -> bool {
    &&& can_read(s, pos, 2)
    &&& names.len() == be_value(s, pos, 2)
    &&& can_read(s, pos + 2, 2 * names.len())
    &&& forall|i: int|
        0 <= i < names.len() ==> resolve_utf8_spec(pool, u2_at(s, pos + 2 + 2 * i) as int) == Ok::<
            Seq<u8>,
            ClassError,
        >(#[trigger] names[i]@)
}

/// Whether `c` is the class file laid out from `pos`, and `end` the position after
/// its last section: the header (magic and versions), the constant pool, flags,
/// this and super class, interfaces, fields, methods and attributes, back to back.
pub open spec fn class_matches(s: Seq<u8>, pos: int, c: Class, end: int) -> bool {
    let pool = pool_view(c.constant_pool@);
    match pool_layout(s, pos + 8) {
        Err(_) => false,
        Ok((p, e1)) => {
            let ifs = e1 + 6;
            let fs = interfaces_end(s, ifs);
            let ms = table_end(s, fs);
            let ats = table_end(s, ms);
            &&& can_read(s, pos, 8)
            &&& be_value(s, pos, 4) == CLASS_MAGIC
            &&& c.minor_version == u2_at(s, pos + 4)
            &&& c.major_version == u2_at(s, pos + 6)
            &&& p == pool && refs_valid(p)
            &&& can_read(s, e1, 6)
            &&& c.access_flags == u2_at(s, e1)
            &&& resolve_utf8_spec(pool, u2_at(s, e1 + 2) as int) == Ok::<Seq<u8>, ClassError>(c.name@)
            &&& if u2_at(s, e1 + 4) == 0 {
                c.super_name is None
            } else {
                c.super_name matches Some(n) && resolve_utf8_spec(pool, u2_at(s, e1 + 4) as int) == Ok::<
                    Seq<u8>,
                    ClassError,
                >(n@)
            }
            &&& interfaces_match(s, ifs, pool, c.interfaces@)
            &&& can_read(s, fs, 2) && fields_match(s, fs + 2, be_value(s, fs, 2), pool, c.fields@)
            &&& can_read(s, ms, 2) && methods_match(s, ms + 2, be_value(s, ms, 2), pool, c.methods@)
            &&& can_read(s, ats, 2) && attrs_match(s, ats + 2, be_value(s, ats, 2), pool, c.attributes@)
            &&& end == attrs_end(s, ats + 2, be_value(s, ats, 2))
        },
    }
}

/// Reads the interfaces list whose count stands at `*pos`.
fn parse_interfaces(bytes: &[u8], pos: &mut usize, constant_pool: &Vec<Constant>) -> (r: Result<Vec<Vec<u8>>, ClassError>)
    ensures
        r matches Ok(v) ==> interfaces_match(bytes@, *old(pos) as int, pool_view(constant_pool@), v@)
            && *final(pos) == interfaces_end(bytes@, *old(pos) as int),
        r is Err ==> forall|v: Seq<Vec<u8>>| !interfaces_match(bytes@, *old(pos) as int, pool_view(constant_pool@), v),
{
    let ghost start = *pos as int;
    let count = read_u2(bytes, pos)?;
    let mut interfaces: Vec<Vec<u8>> = Vec::new();
    let mut i: u16 = 0;
    while i < count
        invariant
            i <= count,
            count as nat == be_value(bytes@, start, 2),
            can_read(bytes@, start, 2),
            *pos == start + 2 + 2 * i,
            *pos <= bytes@.len(),
            start == *old(pos),
            interfaces@.len() == i,
            forall|k: int|
                0 <= k < i ==> resolve_utf8_spec(pool_view(constant_pool@), u2_at(bytes@, start + 2 + 2 * k) as int)
                    == Ok::<Seq<u8>, ClassError>(#[trigger] interfaces@[k]@),
        decreases count - i,
    {
        let index = read_u2(bytes, pos)?;
        let name = match resolve_utf8(index as usize, constant_pool) {
            Ok(n) => n,
            Err(e) => {
                proof {
                    assert forall|v: Seq<Vec<u8>>| !interfaces_match(bytes@, start, pool_view(constant_pool@), v) by {
                        if interfaces_match(bytes@, start, pool_view(constant_pool@), v) {
                            assert(resolve_utf8_spec(pool_view(constant_pool@), u2_at(bytes@, start + 2 + 2 * i) as int)
                                == Ok::<Seq<u8>, ClassError>(v[i as int]@));
                        }
                    }
                }
                return Err(e);
            },
        };
        interfaces.push(name);
        i = i + 1;
    }
    Ok(interfaces)
}

/// Loads a class file that starts at `*pos`, and advances past it.
///
/// The file must open with `0xCAFEBABE`, else `BadMagic` and nothing past the magic
/// is read. Versions are recorded but not checked.
pub fn parse_class(bytes: &[u8], pos: &mut usize) -> (r: Result<Class, ClassError>)
    ensures
        !can_read(bytes@, *old(pos) as int, 4) ==> r == Err::<Class, ClassError>(ClassError::UnexpectedEof),
        can_read(bytes@, *old(pos) as int, 4) && be_value(bytes@, *old(pos) as int, 4) != CLASS_MAGIC
            ==> r == Err::<Class, ClassError>(ClassError::BadMagic) && *final(pos) == *old(pos) + 4,
        r matches Ok(c) ==> class_matches(bytes@, *old(pos) as int, c, *final(pos) as int),
        r is Err ==> forall|c: Class, end: int| !class_matches(bytes@, *old(pos) as int, c, end),
{
    let magic = read_u4(bytes, pos)?;
    if magic != CLASS_MAGIC {
        return Err(ClassError::BadMagic);
    }
    let minor_version = read_u2(bytes, pos)?;
    let major_version = read_u2(bytes, pos)?;
    let constant_pool = parse_constant_pool(bytes, pos)?;
    let access_flags = read_u2(bytes, pos)?;
    let this_index = read_u2(bytes, pos)?;
    let name = resolve_utf8(this_index as usize, &constant_pool)?;
    let super_index = read_u2(bytes, pos)?;
    let super_name = if super_index == 0 {
        None
    } else {
        Some(resolve_utf8(super_index as usize, &constant_pool)?)
    };
    let interfaces = parse_interfaces(bytes, pos, &constant_pool)?;
    let fields = parse_fields(bytes, pos, &constant_pool)?;
    let methods = parse_methods(bytes, pos, &constant_pool)?;
    let attributes = parse_attributes(bytes, pos, &constant_pool)?;
    let c = Class {
        minor_version,
        major_version,
        constant_pool,
        access_flags,
        name,
        super_name,
        interfaces,
        fields,
        methods,
        attributes,
    };
    Ok(c)
}

/// The index of the last method named `name`.
pub open spec fn last_method(methods: Seq<Method>, name: Seq<u8>) -> Option<int>
    decreases methods.len(),
{
    if methods.len() == 0 {
        None
    } else if methods.last().name@ == name {
        Some(methods.len() - 1)
    } else {
        last_method(methods.drop_last(), name)
    }
}

/// A method found by `last_method` is one of the methods.
pub proof fn lemma_last_method_in_range(methods: Seq<Method>, name: Seq<u8>)
    ensures
        last_method(methods, name) matches Some(k) ==> 0 <= k < methods.len() && methods[k].name@ == name,
    decreases methods.len(),
{
    if methods.len() > 0 && methods.last().name@ != name {
        lemma_last_method_in_range(methods.drop_last(), name);
    }
}

/// The code of the first method named `name` that has a `Code` attribute.
pub open spec fn code_lookup(methods: Seq<Method>, name: Seq<u8>) -> Option<Seq<Instruction>>
    decreases methods.len(),
{
    if methods.len() == 0 {
        None
    } else if methods[0].name@ == name && first_code(methods[0].attributes@) is Some {
        first_code(methods[0].attributes@)
    } else {
        code_lookup(methods.drop_first(), name)
    }
}

/// What a field, method or interface-method reference at `i` names: its class
/// name, resolved to text, and the name-and-type slot it points to.
pub open spec fn method_ref_spec(pool: Seq<ConstantView>, i: int) -> Result<(Seq<u8>, ConstantView), ClassError> {
    match slot(pool, i) {
        None => Err(ClassError::BadIndex(i as usize)),
        Some(ConstantView::FieldInfo { class_index, name_and_type_index, .. }) => match resolve_utf8_spec(
            pool,
            class_index as int,
        ) {
            Err(e) => Err(e),
            Ok(name) => match slot(pool, name_and_type_index as int) {
                None => Err(ClassError::BadIndex(name_and_type_index as usize)),
                Some(c) => Ok((name, c)),
            },
        },
        Some(c) => Err(
            ClassError::BadConstantKind { expected: ConstantKind::MethodRef, found: kind_of(c) },
        ),
    }
}

/// The method that a name-and-type slot names: the last one with that name.
pub open spec fn method_for(c: Class, name_and_type: ConstantView) -> Option<int> {
    match name_and_type {
        ConstantView::NameAndTypeInfo { name_index, .. } => match resolve_utf8_spec(
            pool_view(c.constant_pool@),
            name_index as int,
        ) {
            Ok(name) => last_method(c.methods@, name),
            Err(_) => None,
        },
        _ => None,
    }
}

impl Class {
    /// The pool slot at 1-based index `i`.
    pub fn get_constant(&self, i: usize) -> (r: Option<&Constant>)
        ensures
            match slot(pool_view(self.constant_pool@), i as int) {
                Some(c) => r matches Some(x) && x@ == c,
                None => r is None,
            },
    {
        if i == 0 || i > self.constant_pool.len() {
            None
        } else {
            Some(&self.constant_pool[i - 1])
        }
    }

    /// The value that loading the constant at `index` pushes, if it is loadable.
    pub fn get_constant_value(&self, index: usize) -> (r: Option<DataType>)
        ensures
            r == match slot(pool_view(self.constant_pool@), index as int) {
                Some(c) => constant_value(c),
                None => None,
            },
    {
        match self.get_constant(index) {
            Some(c) => c.get_constant_value(&self.constant_pool),
            None => None,
        }
    }

    /// Whether some method is named `name`.
    pub fn has_method(&self, name: &[u8]) -> (r: bool)
        ensures
            r == exists|k: int| 0 <= k < self.methods@.len() && #[trigger] self.methods@[k].name@ == name@,
    {
        let mut k: usize = 0;
        while k < self.methods.len()
            invariant
                k <= self.methods@.len(),
                forall|j: int| 0 <= j < k ==> #[trigger] self.methods@[j].name@ != name@,
            decreases self.methods@.len() - k,
        {
            if same_bytes(self.methods[k].name.as_slice(), name) {
                return true;
            }
            k = k + 1;
        }
        false
    }

    /// The code of the first method named `method_name` that has a `Code` attribute.
    pub fn get_code(&self, method_name: &[u8]) -> (r: Option<&Vec<Instruction>>)
        ensures
            match code_lookup(self.methods@, method_name@) {
                Some(c) => r matches Some(v) && v@ == c,
                None => r is None,
            },
    {
        let mut k: usize = 0;
        proof {
            assert(self.methods@.subrange(0, self.methods@.len() as int) =~= self.methods@);
        }
        while k < self.methods.len()
            invariant
                k <= self.methods@.len(),
                code_lookup(self.methods@, method_name@) == code_lookup(
                    self.methods@.subrange(k as int, self.methods@.len() as int),
                    method_name@,
                ),
            decreases self.methods@.len() - k,
        {
            proof {
                let rest = self.methods@.subrange(k as int, self.methods@.len() as int);
                assert(rest.drop_first() =~= self.methods@.subrange(k + 1, self.methods@.len() as int));
                assert(rest[0] == self.methods@[k as int]);
            }
            let m = &self.methods[k];
            if same_bytes(m.name.as_slice(), method_name) {
                if let Some(code) = m.get_code() {
                    return Some(code);
                }
            }
            k = k + 1;
        }
        None
    }

    /// Resolves a method reference at `index` to its class name and the
    /// name-and-type slot it points to.
    pub fn get_method_ref_from_constant(&self, index: usize) -> (r: Result<(Vec<u8>, &Constant), ClassError>)
        ensures
            match method_ref_spec(pool_view(self.constant_pool@), index as int) {
                Ok((name, c)) => r matches Ok((n, x)) && n@ == name && x@ == c,
                Err(e) => r matches Err(e2) && e2 == e,
            },
    {
        match self.get_constant(index) {
            None => Err(ClassError::BadIndex(index)),
            Some(Constant::FieldInfo { class_index, name_and_type_index, .. }) => {
                let class_name = resolve_utf8(*class_index as usize, &self.constant_pool)?;
                match self.get_constant(*name_and_type_index as usize) {
                    None => Err(ClassError::BadIndex(*name_and_type_index as usize)),
                    Some(c) => Ok((class_name, c)),
                }
            },
            Some(_) => Err(
                ClassError::BadConstantKind {
                    expected: ConstantKind::MethodRef,
                    found: kind_at(&self.constant_pool, index),
                },
            ),
        }
    }

    /// The method that a name-and-type constant names: the last one with that name.
    pub fn get_method(&self, name_and_type: &Constant) -> (r: Option<&Method>)
        ensures
            match method_for(*self, name_and_type@) {
                Some(k) => 0 <= k < self.methods@.len() && (r matches Some(m) && *m == self.methods@[k]),
                None => r is None,
            },
    {
        match name_and_type {
            Constant::NameAndTypeInfo { name_index, .. } => {
                let name = match resolve_utf8(*name_index as usize, &self.constant_pool) {
                    Ok(n) => n,
                    Err(_) => {
                        return None;
                    },
                };
                let mut k = self.methods.len();
                proof {
                    lemma_last_method_in_range(self.methods@, name@);
                    assert(self.methods@.subrange(0, k as int) =~= self.methods@);
                }
                while k > 0
                    invariant
                        k <= self.methods@.len(),
                        last_method(self.methods@, name@) == last_method(self.methods@.subrange(0, k as int), name@),
                        method_for(*self, name_and_type@) == last_method(self.methods@, name@),
                    decreases k,
                {
                    proof {
                        let pre = self.methods@.subrange(0, k as int);
                        assert(pre.drop_last() =~= self.methods@.subrange(0, k - 1));
                    }
                    if same_bytes(self.methods[k - 1].name.as_slice(), name.as_slice()) {
                        proof {
                            let pre = self.methods@.subrange(0, k as int);
                            assert(pre.last() == self.methods@[k - 1]);
                            assert(last_method(pre, name@) == Some(k - 1));
                        }
                        return Some(&self.methods[k - 1]);
                    }
                    k = k - 1;
                }
                None
            },
            _ => None,
        }
    }
}

/// Bytes appended after a readable range leave its value unchanged.
proof fn lemma_be_value_ext(s: Seq<u8>, t: Seq<u8>, pos: int, n: nat)
    requires
        can_read(s, pos, n),
    ensures
        be_value(s + t, pos, n) == be_value(s, pos, n),
    decreases n,
{
    if n > 0 {
        lemma_be_value_ext(s, t, pos, (n - 1) as nat);
        assert((s + t)[pos + n - 1] == s[pos + n - 1]);
    }
}

/// A pool entry reads the same with bytes appended.
proof fn lemma_constant_at_ext(s: Seq<u8>, t: Seq<u8>, pos: int)
    requires
        constant_at(s, pos) is Ok,
    ensures
        constant_at(s + t, pos) == constant_at(s, pos),
{
    let st = s + t;
    let p = pos + 1;
    assert(st[pos] == s[pos]);
    if can_read(s, p, 8) {
        lemma_be_value_ext(s, t, p, 8);
    }
    if can_read(s, p, 4) {
        lemma_be_value_ext(s, t, p, 4);
        lemma_be_value_ext(s, t, p + 2, 2);
        lemma_be_value_ext(s, t, p + 1, 2);
        assert(st[p] == s[p]);
    }
    if can_read(s, p, 3) {
        lemma_be_value_ext(s, t, p + 1, 2);
        assert(st[p] == s[p]);
    }
    if can_read(s, p, 2) {
        lemma_be_value_ext(s, t, p, 2);
        let len = be_value(s, p, 2) as int;
        if p + 2 + len <= s.len() {
            assert(st.subrange(p + 2, p + 2 + len) =~= s.subrange(p + 2, p + 2 + len));
        }
    }
}

/// A laid-out pool reads the same with bytes appended.
proof fn lemma_pool_from_ext(s: Seq<u8>, t: Seq<u8>, pos: int, n: nat)
    requires
        pool_from(s, pos, n) is Ok,
    ensures
        pool_from(s + t, pos, n) == pool_from(s, pos, n),
    decreases n,
{
    if n > 0 {
        lemma_constant_at_ext(s, t, pos);
        let (c, end) = constant_at(s, pos)->Ok_0;
        if is_wide(c) {
            lemma_pool_from_ext(s, t, end, (n - 2) as nat);
        } else {
            lemma_pool_from_ext(s, t, end, (n - 1) as nat);
        }
    }
}

/// An attribute table reads the same with bytes appended, and ends within the bytes.
proof fn lemma_attrs_ext(s: Seq<u8>, t: Seq<u8>, pos: int, n: nat, pool: Seq<ConstantView>, a: Seq<Attribute>)
    requires
        attrs_match(s, pos, n, pool, a),
        0 <= pos <= s.len(),
    ensures
        attrs_match(s + t, pos, n, pool, a),
        attrs_end(s + t, pos, n) == attrs_end(s, pos, n),
        pos <= attrs_end(s, pos, n) <= s.len(),
    decreases n,
{
    if n > 0 {
        let st = s + t;
        assert(attr_matches(s, pos, pool, a[0]));
        lemma_be_value_ext(s, t, pos, 2);
        lemma_be_value_ext(s, t, pos + 2, 4);
        let len = attr_len(s, pos);
        assert(st.subrange(pos + 6, pos + 6 + len) =~= s.subrange(pos + 6, pos + 6 + len));
        assert(attr_matches(st, pos, pool, a[0]));
        lemma_attrs_ext(s, t, pos + 6 + len, (n - 1) as nat, pool, a.drop_first());
    }
}

/// A field or method entry ends where it did, with bytes appended.
proof fn lemma_member_end_ext(s: Seq<u8>, t: Seq<u8>, pos: int, pool: Seq<ConstantView>, attrs: Seq<Attribute>)
    requires
        can_read(s, pos, 8),
        attrs_match(s, pos + 8, be_value(s, pos + 6, 2), pool, attrs),
    ensures
        attrs_match(s + t, pos + 8, be_value(s + t, pos + 6, 2), pool, attrs),
        member_end(s + t, pos) == member_end(s, pos),
        pos + 8 <= member_end(s, pos) <= s.len(),
{
    lemma_be_value_ext(s, t, pos + 6, 2);
    lemma_attrs_ext(s, t, pos + 8, be_value(s, pos + 6, 2), pool, attrs);
}

/// A fields table reads the same with bytes appended, and ends within the bytes.
proof fn lemma_fields_ext(s: Seq<u8>, t: Seq<u8>, pos: int, n: nat, pool: Seq<ConstantView>, f: Seq<Field>)
    requires
        fields_match(s, pos, n, pool, f),
        0 <= pos <= s.len(),
    ensures
        fields_match(s + t, pos, n, pool, f),
        members_end(s + t, pos, n) == members_end(s, pos, n),
        pos <= members_end(s, pos, n) <= s.len(),
    decreases n,
{
    if n > 0 {
        let st = s + t;
        lemma_be_value_ext(s, t, pos, 2);
        lemma_be_value_ext(s, t, pos + 2, 2);
        lemma_be_value_ext(s, t, pos + 4, 2);
        lemma_member_end_ext(s, t, pos, pool, f[0].attributes@);
        assert(field_matches_at(st, pos, pool, f[0]));
        lemma_fields_ext(s, t, member_end(s, pos), (n - 1) as nat, pool, f.drop_first());
    }
}

/// A methods table reads the same with bytes appended, and ends within the bytes.
proof fn lemma_methods_ext(s: Seq<u8>, t: Seq<u8>, pos: int, n: nat, pool: Seq<ConstantView>, m: Seq<Method>)
    requires
        methods_match(s, pos, n, pool, m),
        0 <= pos <= s.len(),
    ensures
        methods_match(s + t, pos, n, pool, m),
        members_end(s + t, pos, n) == members_end(s, pos, n),
        pos <= members_end(s, pos, n) <= s.len(),
    decreases n,
{
    if n > 0 {
        let st = s + t;
        lemma_be_value_ext(s, t, pos, 2);
        lemma_be_value_ext(s, t, pos + 2, 2);
        lemma_be_value_ext(s, t, pos + 4, 2);
        lemma_member_end_ext(s, t, pos, pool, m[0].attributes@);
        assert(method_matches_at(st, pos, pool, m[0]));
        lemma_methods_ext(s, t, member_end(s, pos), (n - 1) as nat, pool, m.drop_first());
    }
}

/// The loader reads a class file front to back and never past its end: a file
/// that loads as `c`, ending at `end`, loads as the same `c` ending at the same
/// `end` whatever bytes follow it, and `end` lies within the file. So for a valid
/// class file, one that ends where the loader stops, the bytes consumed are
/// exactly the file.
pub proof fn lemma_loader_consumes_file(s: Seq<u8>, t: Seq<u8>, pos: int, c: Class, end: int)
    requires
        0 <= pos,
        class_matches(s, pos, c, end),
    ensures
        class_matches(s + t, pos, c, end),
        end <= s.len(),
{
    let st = s + t;
    let pool = pool_view(c.constant_pool@);
    lemma_be_value_ext(s, t, pos, 4);
    lemma_be_value_ext(s, t, pos + 4, 2);
    lemma_be_value_ext(s, t, pos + 6, 2);
    lemma_be_value_ext(s, t, pos + 8, 2);
    let count = be_value(s, pos + 8, 2);
    lemma_pool_from_ext(s, t, pos + 10, if count == 0 { 0 } else { (count - 1) as nat });
    let (p, e1) = pool_layout(s, pos + 8)->Ok_0;
    lemma_be_value_ext(s, t, e1, 2);
    lemma_be_value_ext(s, t, e1 + 2, 2);
    lemma_be_value_ext(s, t, e1 + 4, 2);
    let ifs = e1 + 6;
    lemma_be_value_ext(s, t, ifs, 2);
    let ni = c.interfaces@.len();
    assert forall|i: int| 0 <= i < ni implies resolve_utf8_spec(pool, u2_at(st, ifs + 2 + 2 * i) as int) == Ok::<
        Seq<u8>,
        ClassError,
    >(#[trigger] c.interfaces@[i]@) by {
        lemma_be_value_ext(s, t, ifs + 2 + 2 * i, 2);
    }
    assert(interfaces_match(st, ifs, pool, c.interfaces@));
    let fs = interfaces_end(s, ifs);
    lemma_be_value_ext(s, t, fs, 2);
    lemma_fields_ext(s, t, fs + 2, be_value(s, fs, 2), pool, c.fields@);
    let ms = table_end(s, fs);
    lemma_be_value_ext(s, t, ms, 2);
    lemma_methods_ext(s, t, ms + 2, be_value(s, ms, 2), pool, c.methods@);
    let ats = table_end(s, ms);
    lemma_be_value_ext(s, t, ats, 2);
    lemma_attrs_ext(s, t, ats + 2, be_value(s, ats, 2), pool, c.attributes@);
    assert(interfaces_end(st, ifs) == fs);
    assert(table_end(st, fs) == ms);
    assert(table_end(st, ms) == ats);
}

} // verus!
