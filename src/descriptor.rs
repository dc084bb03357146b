use vstd::prelude::*;

verus! {

/// The type of a field or method argument, as written in a descriptor.
///
/// An array keeps only its tag; its element type is read and dropped.
#[derive(Debug, Clone)]
pub enum FieldDescriptor {
    Byte,
    Char,
    Double,
    Float,
    Int,
    Long,
    Ref(Vec<u8>),
    Short,
    Bool,
    Array,
    Placeholder,
}

/// The result type of a method descriptor.
#[derive(Debug, Clone)]
pub enum ReturnDescriptor {
    Return(FieldDescriptor),
    Void,
}

/// A parsed method descriptor: argument types in order, then the result type.
#[derive(Debug, Clone)]
pub struct MethodDescriptor {
    pub arg_types: Vec<FieldDescriptor>,
    pub return_type: ReturnDescriptor,
}

/// The base type that a descriptor byte names, if any.
pub open spec fn base_of(b: u8) -> Option<FieldDescriptor> {
    if b == 66 { Some(FieldDescriptor::Byte) }
    else if b == 67 { Some(FieldDescriptor::Char) }
    else if b == 68 { Some(FieldDescriptor::Double) }
    else if b == 70 { Some(FieldDescriptor::Float) }
    else if b == 73 { Some(FieldDescriptor::Int) }
    else if b == 74 { Some(FieldDescriptor::Long) }
    else if b == 83 { Some(FieldDescriptor::Short) }
    else if b == 90 { Some(FieldDescriptor::Bool) }
    else { None }
}

/// The position of the first byte `b` in `s` at or after `from`.
pub open spec fn find_byte(s: Seq<u8>, from: int, b: u8) -> Option<int>
    decreases s.len() - from,
{
    if from < 0 || from >= s.len() {
        None
    } else if s[from] == b {
        Some(from)
    } else {
        find_byte(s, from + 1, b)
    }
}

/// The end of the field descriptor that starts at `pos`, if one does:
/// a base letter, `L` name `;`, or `[` and a field descriptor.
pub open spec fn field_end(s: Seq<u8>, pos: int) -> Option<int>
    decreases s.len() - pos,
{
    if pos < 0 || pos >= s.len() {
        None
    } else if base_of(s[pos]) is Some {
        Some(pos + 1)
    } else if s[pos] == 76 {
        match find_byte(s, pos + 1, 59) {
            Some(k) => Some(k + 1),
            None => None,
        }
    } else if s[pos] == 91 {
        field_end(s, pos + 1)
    } else {
        None
    }
}

/// A byte found by `find_byte` is the one sought, within bounds.
pub proof fn lemma_find_byte(s: Seq<u8>, from: int, b: u8)
    ensures
        find_byte(s, from, b) matches Some(k) ==> from <= k < s.len() && s[k] == b,
    decreases s.len() - from,
{
    if 0 <= from < s.len() && s[from] != b {
        lemma_find_byte(s, from + 1, b);
    }
}

/// A field descriptor ends after its start and within the text.
pub proof fn lemma_field_end(s: Seq<u8>, pos: int)
    ensures
        field_end(s, pos) matches Some(e) ==> pos < e <= s.len(),
    decreases s.len() - pos,
{
    if 0 <= pos < s.len() {
        lemma_find_byte(s, pos + 1, 59);
        lemma_field_end(s, pos + 1);
    }
}

/// Whether `f` is the field descriptor written in `s` from `pos` to `end`.
pub open spec fn field_matches(s: Seq<u8>, pos: int, end: int, f: FieldDescriptor) -> bool {
    if s[pos] == 91 {
        f is Array
    } else if s[pos] == 76 {
        f matches FieldDescriptor::Ref(name) && name@ == s.subrange(pos + 1, end - 1)
    } else {
        base_of(s[pos]) == Some(f)
    }
}

/// The start of each argument descriptor from `pos` up to the closing `)`, and the
/// position of that `)`.
pub open spec fn arg_starts(s: Seq<u8>, pos: int) -> Option<(Seq<int>, int)>
    decreases s.len() - pos,
{
    if pos < 0 || pos >= s.len() {
        None
    } else if s[pos] == 41 {
        Some((Seq::empty(), pos))
    } else {
        match field_end(s, pos) {
            None => None,
            Some(e) => if e <= pos || e > s.len() {
                None
            } else {
                match arg_starts(s, e) {
                    None => None,
                    Some((rest, close)) => Some((seq![pos] + rest, close)),
                }
            },
        }
    }
}

/// Whether `s` is a whole method descriptor: `(`, argument descriptors, `)`, then
/// `V` or one field descriptor, and nothing after.
pub open spec fn descriptor_ok(s: Seq<u8>) -> bool {
    &&& s.len() >= 1
    &&& s[0] == 40
    &&& match arg_starts(s, 1) {
        None => false,
        Some((_, close)) => close + 1 < s.len() && if s[close + 1] == 86 {
            close + 2 == s.len()
        } else {
            field_end(s, close + 1) == Some(s.len() as int)
        },
    }
}

/// Whether `d` is what the method descriptor `s` says.
pub open spec fn descriptor_matches(s: Seq<u8>, d: MethodDescriptor) -> bool {
    match arg_starts(s, 1) {
        None => false,
        Some((starts, close)) => {
            &&& d.arg_types@.len() == starts.len()
            &&& forall|i: int|
                0 <= i < starts.len() ==> field_matches(
                    s,
                    #[trigger] starts[i],
                    field_end(s, starts[i])->0,
                    d.arg_types@[i],
                )
            &&& if s[close + 1] == 86 {
                d.return_type is Void
            } else {
                d.return_type matches ReturnDescriptor::Return(f) && field_matches(
                    s,
                    close + 1,
                    s.len() as int,
                    f,
                )
            }
        },
    }
}

/// The base type for a descriptor byte.
fn base_type(b: u8) -> (r: Option<FieldDescriptor>)
    ensures
        r == base_of(b),
{
    match b {
        66 => Some(FieldDescriptor::Byte),
        67 => Some(FieldDescriptor::Char),
        68 => Some(FieldDescriptor::Double),
        70 => Some(FieldDescriptor::Float),
        73 => Some(FieldDescriptor::Int),
        74 => Some(FieldDescriptor::Long),
        83 => Some(FieldDescriptor::Short),
        90 => Some(FieldDescriptor::Bool),
        _ => None,
    }
}

/// Parses the field descriptor that starts at `pos`, returning it and its end.
pub fn parse_field(s: &[u8], pos: usize) -> (r: Option<(FieldDescriptor, usize)>)
    ensures
        match field_end(s@, pos as int) {
            None => r is None,
            Some(e) => r matches Some((f, end)) && end == e && field_matches(s@, pos as int, e, f),
        },
        r matches Some((_, end)) ==> pos < end <= s@.len(),
{
    proof {
        lemma_field_end(s@, pos as int);
    }
    let mut i = pos;
    while i < s.len() && s[i] == 91
        invariant
            pos <= i,
            field_end(s@, pos as int) == field_end(s@, i as int),
            i > pos ==> s@[pos as int] == 91,
        decreases s@.len() - i,
    {
        i = i + 1;
    }
    if i >= s.len() {
        return None;
    }
    let b = s[i];
    let (elem, end) = if let Some(f) = base_type(b) {
        (f, i + 1)
    } else if b == 76 {
        let mut k = i + 1;
        while k < s.len() && s[k] != 59
            invariant
                i + 1 <= k <= s@.len(),
                find_byte(s@, i + 1, 59) == find_byte(s@, k as int, 59),
            decreases s@.len() - k,
        {
            k = k + 1;
        }
        if k >= s.len() {
            return None;
        }
        let mut name: Vec<u8> = Vec::new();
        let mut j = i + 1;
        while j < k
            invariant
                i + 1 <= j <= k,
                k < s@.len(),
                name@ == s@.subrange(i + 1, j as int),
            decreases k - j,
        {
            name.push(s[j]);
            j = j + 1;
        }
        (FieldDescriptor::Ref(name), k + 1)
    } else {
        return None;
    };
    if i > pos {
        Some((FieldDescriptor::Array, end))
    } else {
        Some((elem, end))
    }
}

/// Parses the result type at `pos`: `V`, or a field descriptor. Returns it and its end.
pub fn parse_return(s: &[u8], pos: usize) -> (r: Option<(ReturnDescriptor, usize)>)
    ensures
        pos < s@.len() && s@[pos as int] == 86 ==> (r matches Some((d, end)) && d is Void && end == pos + 1),
        !(pos < s@.len() && s@[pos as int] == 86) ==> match field_end(s@, pos as int) {
            None => r is None,
            Some(e) => r matches Some((d, end)) && end == e && (d matches ReturnDescriptor::Return(f)
                && field_matches(s@, pos as int, e, f)),
        },
{
    if pos < s.len() && s[pos] == 86 {
        return Some((ReturnDescriptor::Void, pos + 1));
    }
    match parse_field(s, pos) {
        Some((f, end)) => Some((ReturnDescriptor::Return(f), end)),
        None => None,
    }
}

/// Parses a whole method descriptor such as `(IJ)V`; `None` if it does not follow
/// the grammar or has bytes after the result type.
pub fn parse_descriptor(descriptor: &[u8]) -> (r: Option<MethodDescriptor>)
    ensures
        r is Some <==> descriptor_ok(descriptor@),
        r matches Some(d) ==> descriptor_matches(descriptor@, d),
{
    let s = descriptor;
    if s.len() == 0 || s[0] != 40 {
        return None;
    }
    let mut arg_types: Vec<FieldDescriptor> = Vec::new();
    let ghost mut starts: Seq<int> = Seq::empty();
    let mut pos: usize = 1;
    while pos < s.len() && s[pos] != 41
        invariant
            1 <= pos <= s@.len(),
            s@ == descriptor@,
            s@.len() >= 1 && s@[0] == 40,
            arg_types@.len() == starts.len(),
            forall|i: int|
                0 <= i < starts.len() ==> field_matches(
                    s@,
                    #[trigger] starts[i],
                    field_end(s@, starts[i])->0,
                    arg_types@[i],
                ) && field_end(s@, starts[i]) is Some,
            arg_starts(s@, 1) == match arg_starts(s@, pos as int) {
                Some((rest, close)) => Some((starts + rest, close)),
                None => None,
            },
        decreases s@.len() - pos,
    {
        match parse_field(s, pos) {
            None => {
                proof {
                    assert(arg_starts(s@, pos as int) is None);
                }
                return None;
            },
            Some((f, end)) => {
                proof {
                    let old_starts = starts;
                    starts = starts.push(pos as int);
                    if let Some((rest, close)) = arg_starts(s@, end as int) {
                        assert(old_starts + (seq![pos as int] + rest) =~= starts + rest);
                    }
                }
                arg_types.push(f);
                pos = end;
            },
        }
    }
    if pos >= s.len() || pos + 1 >= s.len() {
        proof {
            assert(starts + Seq::<int>::empty() =~= starts);
        }
        return None;
    }
    proof {
        assert(starts + Seq::<int>::empty() =~= starts);
    }
    let close = pos;
    let return_type = match parse_return(s, close + 1) {
        None => {
            return None;
        },
        Some((d, end)) => {
            if end != s.len() {
                return None;
            }
            d
        },
    };
    Some(MethodDescriptor { arg_types, return_type })
}

} // verus!
