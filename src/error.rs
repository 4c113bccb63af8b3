use vstd::prelude::*;

verus! {

/// Why decoding a BTF section, or a query on the decoded graph, failed.
#[derive(Debug, Clone, Copy, PartialEq, Eq, Structural)]
pub enum BtfError {
    /// The container is not the expected object format or has no BTF section.
    InvalidContainerFormat,
    /// The header's magic number is not 0xEB9F.
    InvalidMagic,
    /// The header's version is not the supported one.
    UnsupportedVersion,
    /// A computed byte range runs past the end of the available bytes.
    OutOfBounds,
    /// A type record declares an unknown kind, or the reserved void kind.
    InvalidKind,
    /// An integer encoding or a variable linkage code is not a known one.
    InvalidEncoding,
    /// A string offset is out of range, unterminated, or not UTF-8 text.
    InvalidString,
    /// No descriptor exists for the queried type id.
    NotFound,
}

} // verus!
