use vstd::prelude::*;

verus! {

/// Errors raised while loading a class file.
#[derive(Debug, Clone, Copy, PartialEq, Eq, Structural)]
pub enum ClassError {
    /// The input ended before a read could be completed.
    UnexpectedEof,
    /// The file does not start with `0xCAFEBABE`.
    BadMagic,
    /// A `Long` or `Double` stands in the last slot, leaving no room for its second slot.
    TruncatedPool,
    /// A constant-pool entry carries a tag that is not defined.
    UnknownTag(u8),
    /// A constant-pool entry was not of the expected kind.
    BadConstantKind { expected: ConstantKind, found: ConstantKind },
    /// A constant-pool index is zero, out of range, or names the second slot of a wide constant.
    BadIndex(usize),
    /// A `Utf8` constant does not hold valid UTF-8.
    BadUtf8,
    /// A code block holds a byte that is not a supported opcode, or is cut short.
    UnknownOpcode(u8),
    /// A method descriptor does not follow the descriptor grammar.
    BadDescriptor,
}

/// The kind of a constant-pool slot, as reported in `BadConstantKind`.
#[derive(Debug, Clone, Copy, PartialEq, Eq, Structural)]
pub enum ConstantKind {
    Class,
    FieldRef,
    MethodRef,
    InterfaceMethodRef,
    String,
    Integer,
    Float,
    Long,
    Double,
    NameAndType,
    Utf8,
    MethodHandle,
    MethodType,
    Dynamic,
    InvokeDynamic,
    Module,
    Package,
    Placeholder,
    Missing,
}

} // verus!
