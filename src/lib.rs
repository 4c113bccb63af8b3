//! Decoder and query engine for BPF Type Format (BTF) sections.
//!
//! A BTF section holds a header, a string table and a type table. Decoding
//! turns the type table into a sequence of type descriptors addressed by
//! 1-based type id; the query engine computes sizes and alignments and
//! unwraps modifier and typedef chains over that sequence.

pub mod types;
pub mod error;
pub mod bytes;
pub mod decode;
pub mod btf;
pub mod laws;

pub use types::{
    BtfArray, BtfComposite, BtfConst, BtfDatasec, BtfDatasecVar, BtfEnum, BtfEnumValue, BtfFunc,
    BtfFuncParam, BtfFuncProto, BtfFwd, BtfFwdKind, BtfInt, BtfIntEncoding, BtfKind, BtfMember,
    BtfPtr, BtfRestrict, BtfType, BtfTypedef, BtfVar, BtfVarLinkage, BtfVolatile,
};
pub use error::BtfError;
pub use bytes::Endian;
pub use btf::Btf;
