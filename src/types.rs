use vstd::prelude::*;

verus! {

/// The kind of a BTF type record, as encoded in bits 24..30 of its info word.
#[derive(Debug, Clone, Copy, PartialEq, Eq, Structural)]
pub enum BtfKind {
    Void,
    Int,
    Ptr,
    Array,
    Struct,
    Union,
    Enum,
    Fwd,
    Typedef,
    Volatile,
    Const,
    Restrict,
    Func,
    FuncProto,
    Var,
    Datasec,
}

/// The on-disk code of a kind.
pub open spec fn kind_code(k: BtfKind) -> u32 {
    match k {
        BtfKind::Void => 0,
        BtfKind::Int => 1,
        BtfKind::Ptr => 2,
        BtfKind::Array => 3,
        BtfKind::Struct => 4,
        BtfKind::Union => 5,
        BtfKind::Enum => 6,
        BtfKind::Fwd => 7,
        BtfKind::Typedef => 8,
        BtfKind::Volatile => 9,
        BtfKind::Const => 10,
        BtfKind::Restrict => 11,
        BtfKind::Func => 12,
        BtfKind::FuncProto => 13,
        BtfKind::Var => 14,
        BtfKind::Datasec => 15,
    }
}

impl BtfKind {
    /// The kind whose on-disk code is `code`, if there is one.
    pub fn from_code(code: u32) -> (r: Option<BtfKind>)
        ensures
            r matches Some(k) ==> kind_code(k) == code,
            r is None <==> code > 15,
    {
        match code {
            0 => Some(BtfKind::Void),
            1 => Some(BtfKind::Int),
            2 => Some(BtfKind::Ptr),
            3 => Some(BtfKind::Array),
            4 => Some(BtfKind::Struct),
            5 => Some(BtfKind::Union),
            6 => Some(BtfKind::Enum),
            7 => Some(BtfKind::Fwd),
            8 => Some(BtfKind::Typedef),
            9 => Some(BtfKind::Volatile),
            10 => Some(BtfKind::Const),
            11 => Some(BtfKind::Restrict),
            12 => Some(BtfKind::Func),
            13 => Some(BtfKind::FuncProto),
            14 => Some(BtfKind::Var),
            15 => Some(BtfKind::Datasec),
            _ => None,
        }
    }
}

/// How the bits of an integer type are to be read.
#[derive(Debug, Clone, Copy, PartialEq, Eq, Structural)]
pub enum BtfIntEncoding {
    NoEncoding,
    Signed,
    Char,
    Bool,
}

/// The on-disk code of an integer encoding.
pub open spec fn encoding_code(e: BtfIntEncoding) -> u32 {
    match e {
        BtfIntEncoding::NoEncoding => 0,
        BtfIntEncoding::Signed => 1,
        BtfIntEncoding::Char => 2,
        BtfIntEncoding::Bool => 4,
    }
}

/// Whether `code` is the on-disk code of an integer encoding.
pub open spec fn is_encoding_code(code: u32) -> bool {
    code == 0 || code == 1 || code == 2 || code == 4
}

impl BtfIntEncoding {
    /// The encoding whose on-disk code is `code`, if there is one.
    pub fn from_code(code: u32) -> (r: Option<BtfIntEncoding>)
        ensures
            r matches Some(e) ==> encoding_code(e) == code,
            r is Some <==> is_encoding_code(code),
    {
        match code {
            0 => Some(BtfIntEncoding::NoEncoding),
            1 => Some(BtfIntEncoding::Signed),
            2 => Some(BtfIntEncoding::Char),
            4 => Some(BtfIntEncoding::Bool),
            _ => None,
        }
    }
}

/// An integer type.
#[derive(Debug, Clone)]
pub struct BtfInt {
    pub name: String,
    pub bits: u8,
    pub offset: u8,
    pub encoding: BtfIntEncoding,
}

/// A pointer type.
#[derive(Debug, Clone)]
pub struct BtfPtr {
    pub pointee_type: u32,
}

/// An array type.
#[derive(Debug, Clone)]
pub struct BtfArray {
    pub nelems: u32,
    pub index_type_id: u32,
    pub val_type_id: u32,
}

/// A member of a struct or union. `bit_size` is zero unless the record
/// declares bit-field layout.
#[derive(Debug, Clone)]
pub struct BtfMember {
    pub name: String,
    pub type_id: u32,
    pub bit_offset: u32,
    pub bit_size: u8,
}

/// A struct or a union.
#[derive(Debug, Clone)]
pub struct BtfComposite {
    pub name: String,
    pub is_struct: bool,
    pub size: u32,
    pub members: Vec<BtfMember>,
}

/// One named value of an enum.
#[derive(Debug, Clone)]
pub struct BtfEnumValue {
    pub name: String,
    pub value: i32,
}

/// An enum type.
#[derive(Debug, Clone)]
pub struct BtfEnum {
    pub name: String,
    pub size: u32,
    pub values: Vec<BtfEnumValue>,
}

/// Whether a forward declaration announces a struct or a union.
#[derive(Debug, Clone, Copy, PartialEq, Eq, Structural)]
pub enum BtfFwdKind {
    Struct,
    Union,
}

/// A forward declaration.
#[derive(Debug, Clone)]
pub struct BtfFwd {
    pub name: String,
    pub kind: BtfFwdKind,
}

/// A named alias of another type.
#[derive(Debug, Clone)]
pub struct BtfTypedef {
    pub name: String,
    pub type_id: u32,
}

/// A `volatile` qualifier on another type.
#[derive(Debug, Clone)]
pub struct BtfVolatile {
    pub type_id: u32,
}

/// A `const` qualifier on another type.
#[derive(Debug, Clone)]
pub struct BtfConst {
    pub type_id: u32,
}

/// A `restrict` qualifier on another type.
#[derive(Debug, Clone)]
pub struct BtfRestrict {
    pub type_id: u32,
}

/// A function; `type_id` is its prototype.
#[derive(Debug, Clone)]
pub struct BtfFunc {
    pub name: String,
    pub type_id: u32,
}

/// One parameter of a function prototype.
#[derive(Debug, Clone)]
pub struct BtfFuncParam {
    pub name: String,
    pub type_id: u32,
}

/// A function prototype.
#[derive(Debug, Clone)]
pub struct BtfFuncProto {
    pub ret_type_id: u32,
    pub params: Vec<BtfFuncParam>,
}

/// The linkage of a variable.
#[derive(Debug, Clone, Copy, PartialEq, Eq, Structural)]
pub enum BtfVarLinkage {
    Static,
    GlobalAlloc,
    GlobalExtern,
}

/// The on-disk code of a linkage.
pub open spec fn linkage_code(l: BtfVarLinkage) -> u32 {
    match l {
        BtfVarLinkage::Static => 0,
        BtfVarLinkage::GlobalAlloc => 1,
        BtfVarLinkage::GlobalExtern => 2,
    }
}

impl BtfVarLinkage {
    /// The linkage whose on-disk code is `code`, if there is one.
    pub fn from_code(code: u32) -> (r: Option<BtfVarLinkage>)
        ensures
            r matches Some(l) ==> linkage_code(l) == code,
            r is Some <==> code <= 2,
    {
        match code {
            0 => Some(BtfVarLinkage::Static),
            1 => Some(BtfVarLinkage::GlobalAlloc),
            2 => Some(BtfVarLinkage::GlobalExtern),
            _ => None,
        }
    }
}

/// A variable.
#[derive(Debug, Clone)]
pub struct BtfVar {
    pub name: String,
    pub type_id: u32,
    pub linkage: BtfVarLinkage,
}

/// One variable placed in a data section.
#[derive(Debug, Clone)]
pub struct BtfDatasecVar {
    pub type_id: u32,
    pub offset: u32,
    pub size: u32,
}

/// A data section.
#[derive(Debug, Clone)]
pub struct BtfDatasec {
    pub name: String,
    pub size: u32,
    pub vars: Vec<BtfDatasecVar>,
}

/// A decoded type descriptor. Names are copied out of the string table, so a
/// descriptor does not borrow the section it was decoded from.
#[derive(Debug, Clone)]
pub enum BtfType {
    Void,
    Int(BtfInt),
    Ptr(BtfPtr),
    Array(BtfArray),
    Struct(BtfComposite),
    Union(BtfComposite),
    Enum(BtfEnum),
    Fwd(BtfFwd),
    Typedef(BtfTypedef),
    Volatile(BtfVolatile),
    Const(BtfConst),
    Restrict(BtfRestrict),
    Func(BtfFunc),
    FuncProto(BtfFuncProto),
    Var(BtfVar),
    Datasec(BtfDatasec),
}

/// The kind of a descriptor.
pub open spec fn kind_of(t: BtfType) -> BtfKind {
    match t {
        BtfType::Void => BtfKind::Void,
        BtfType::Int(_) => BtfKind::Int,
        BtfType::Ptr(_) => BtfKind::Ptr,
        BtfType::Array(_) => BtfKind::Array,
        BtfType::Struct(_) => BtfKind::Struct,
        BtfType::Union(_) => BtfKind::Union,
        BtfType::Enum(_) => BtfKind::Enum,
        BtfType::Fwd(_) => BtfKind::Fwd,
        BtfType::Typedef(_) => BtfKind::Typedef,
        BtfType::Volatile(_) => BtfKind::Volatile,
        BtfType::Const(_) => BtfKind::Const,
        BtfType::Restrict(_) => BtfKind::Restrict,
        BtfType::Func(_) => BtfKind::Func,
        BtfType::FuncProto(_) => BtfKind::FuncProto,
        BtfType::Var(_) => BtfKind::Var,
        BtfType::Datasec(_) => BtfKind::Datasec,
    }
}

impl BtfType {
    /// The kind of this descriptor.
    pub fn kind(&self) -> (r: BtfKind)
        ensures
            r == kind_of(*self),
    {
        match self {
            BtfType::Void => BtfKind::Void,
            BtfType::Ptr(_) => BtfKind::Ptr,
            BtfType::Fwd(_) => BtfKind::Fwd,
            BtfType::Typedef(_) => BtfKind::Typedef,
            BtfType::Volatile(_) => BtfKind::Volatile,
            BtfType::Const(_) => BtfKind::Const,
            BtfType::Restrict(_) => BtfKind::Restrict,
            BtfType::Func(_) => BtfKind::Func,
            BtfType::Int(_) => BtfKind::Int,
            BtfType::Var(_) => BtfKind::Var,
            BtfType::Array(_) => BtfKind::Array,
            BtfType::Struct(_) => BtfKind::Struct,
            BtfType::Union(_) => BtfKind::Union,
            BtfType::Enum(_) => BtfKind::Enum,
            BtfType::FuncProto(_) => BtfKind::FuncProto,
            BtfType::Datasec(_) => BtfKind::Datasec,
        }
    }
}

} // verus!
