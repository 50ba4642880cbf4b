use vstd::prelude::*;

verus! {

/// Every way a decode can fail.
#[derive(Clone, Copy, Debug, PartialEq, Eq, Structural)]
pub enum DecodeError {
    InputTooLarge,
    InvalidMagic,
    UnsupportedVersion,
    UnexpectedEof,
    TruncatedSection,
    MalformedVarint,
    Overflow,
    InvalidForm,
    UnsupportedFeature,
    InvalidNameIndex,
    InvalidIndex,
    SectionOutOfOrder,
    FunctionCountMismatch,
    UnknownOpcodeImmediateShape,
}

} // verus!
