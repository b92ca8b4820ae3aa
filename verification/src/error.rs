use vstd::prelude::*;

verus! {

/// Why a class file was refused.
#[derive(Debug, Clone, Copy, PartialEq, Eq, Structural)]
pub enum ClassError {
    /// The input ended in the middle of an item.
    UnexpectedEof,
    /// The file does not start with `0xCAFEBABE`.
    BadMagic,
    /// A constant-pool count of zero announces a pool of minus one entries.
    BadConstantPoolCount,
    /// A constant-pool entry with a tag that is not implemented.
    UnknownConstantTag(u8),
    /// The bytes of a `Utf8` constant are not valid UTF-8.
    InvalidUtf8,
    /// An index into the constant pool that names no entry.
    BadConstantIndex(u16),
    /// An attribute whose name entry is not a `Utf8` constant.
    AttributeNameNotUtf8(u16),
    /// An attribute whose name is not implemented; holds the index of the name.
    UnknownAttribute(u16),
    /// A `Code` attribute with a non-empty exception table.
    ExceptionTableUnsupported,
    /// A class that implements interfaces.
    InterfacesUnsupported,
    /// A class that declares fields.
    FieldsUnsupported,
    /// Bytes are left after the last class attribute.
    TrailingBytes,
}

} // verus!

verus! {

/// Why running bytecode stopped short.
#[derive(Debug, Clone, Copy, PartialEq, Eq, Structural)]
pub enum ExecError {
    /// The bytecode ended in the middle of an instruction.
    UnexpectedEnd,
    /// An index into the constant pool that names no entry.
    BadConstantIndex(u16),
    /// `ldc` of a constant that is not a `String`.
    UnsupportedConstant,
    /// An invoke instruction whose constant is not a `Methodref`.
    ExpectedMethodRef,
    /// An invoke instruction, which the class runtime does not carry out.
    InternalFunctionUnimplemented,
    /// A value was taken from an empty operand stack.
    EmptyStack,
    /// A local variable slot that the frame does not have.
    BadLocalIndex,
    /// `iadd` of two ints whose sum does not fit in an int.
    IntOverflow,
    /// An opcode that is not implemented.
    UnknownOpcode(u8),
    /// A method whose name entry is not a `Utf8` constant; holds the name index.
    MethodNameNotUtf8(u16),
    /// A call of a method of a known class that is not implemented.
    UnsupportedMethod,
    /// A call of a method of a class that is not implemented.
    UnsupportedClass,
    /// `println` of a value that is neither a string nor an int.
    CantPrint,
    /// A run of a method that has an attribute other than `Code`.
    UnsupportedAttribute,
}

} // verus!
