use vstd::prelude::*;

use crate::bytes::{read_u32, str_at, str_ok, string_at, u32_at, Endian};
use crate::error::BtfError;
use crate::types::{
    BtfArray, BtfComposite, BtfConst, BtfDatasec, BtfEnum, BtfFunc, BtfFuncProto, BtfFwd, BtfInt,
    BtfIntEncoding, BtfKind, BtfPtr, BtfRestrict, BtfTypedef, BtfVar, BtfVarLinkage, BtfVolatile,
    encoding_code, is_encoding_code, kind_code, kind_of, linkage_code, BtfDatasecVar, BtfEnumValue,
    BtfFuncParam, BtfFwdKind, BtfMember, BtfType,
};

verus! {

/// Size of the common header of every type record.
pub const RECORD_HEADER_LEN: usize = 12;

/// The kind code held in bits 24..30 of an info word.
pub open spec fn info_kind(info: u32) -> u32 {
    (info / 0x1000000) % 0x80
}

/// The element count held in the low 16 bits of an info word.
pub open spec fn info_vlen(info: u32) -> nat {
    (info % 0x10000) as nat
}

/// The flag held in the top bit of an info word.
pub open spec fn info_flag(info: u32) -> bool {
    info / 0x80000000 == 1
}

/// Bytes that follow the common header of a record of kind code `k` with
/// `vlen` elements.
pub open spec fn payload_len(k: u32, vlen: nat) -> nat {
    if k == 1 || k == 14 {
        4
    } else if k == 3 {
        12
    } else if k == 4 || k == 5 || k == 15 {
        12 * vlen
    } else if k == 6 || k == 13 {
        8 * vlen
    } else {
        0
    }
}

/// The info word of the record at `off`.
pub open spec fn info_at(d: Seq<u8>, off: int, e: Endian) -> u32 {
    u32_at(d, off + 4, e)
}

/// The structural length of the record at `off`: common header plus payload.
pub open spec fn rec_len(d: Seq<u8>, off: int, e: Endian) -> nat {
    12 + payload_len(info_kind(info_at(d, off, e)), info_vlen(info_at(d, off, e)))
}

/// Whether records of kind code `k` carry a name of their own.
pub open spec fn has_own_name(k: u32) -> bool {
    k == 1 || k == 4 || k == 5 || k == 6 || k == 7 || k == 8 || k == 12 || k == 14 || k == 15
}

/// Whether each of `n` elements of `stride` bytes from `x` starts with the
/// offset of a valid string.
pub open spec fn elem_names_ok(d: Seq<u8>, x: int, n: nat, stride: int, s: Seq<u8>, e: Endian) -> bool {
    forall|i: int| 0 <= i < n ==> #[trigger] str_ok(s, u32_at(d, x + stride * i, e) as int)
}

/// Whether every string that the record at `off` names is valid.
pub open spec fn names_ok(d: Seq<u8>, off: int, s: Seq<u8>, e: Endian) -> bool {
    let k = info_kind(info_at(d, off, e));
    let n = info_vlen(info_at(d, off, e));
    &&& has_own_name(k) ==> str_ok(s, u32_at(d, off, e) as int)
    &&& (k == 4 || k == 5) ==> elem_names_ok(d, off + 12, n, 12, s, e)
    &&& (k == 6 || k == 13) ==> elem_names_ok(d, off + 12, n, 8, s, e)
}

/// Whether the integer encoding or variable linkage of the record at `off`
/// is a known code.
pub open spec fn codes_ok(d: Seq<u8>, off: int, e: Endian) -> bool {
    let k = info_kind(info_at(d, off, e));
    let w = u32_at(d, off + 12, e);
    &&& k == 1 ==> is_encoding_code(w / 0x1000000)
    &&& k == 14 ==> w <= 2
}

/// The outcome of decoding the record at `off` of the type table `d`, with
/// string table `s`: which error comes first, if any.
#[verifier::opaque]
pub open spec fn record_outcome(d: Seq<u8>, off: int, s: Seq<u8>, e: Endian) -> Result<(), BtfError> {
    if off + 12 > d.len() {
        Err(BtfError::OutOfBounds)
    } else if info_kind(info_at(d, off, e)) == 0 || info_kind(info_at(d, off, e)) > 15 {
        Err(BtfError::InvalidKind)
    } else if off + rec_len(d, off, e) > d.len() {
        Err(BtfError::OutOfBounds)
    } else if !names_ok(d, off, s, e) {
        Err(BtfError::InvalidString)
    } else if !codes_ok(d, off, e) {
        Err(BtfError::InvalidEncoding)
    } else {
        Ok(())
    }
}

/// A member decoded from the 12 bytes at `at`; `bitfield` is the record's flag.
pub open spec fn member_matches(m: BtfMember, d: Seq<u8>, at: int, bitfield: bool, s: Seq<u8>, e: Endian) -> bool {
    let w = u32_at(d, at + 8, e);
    &&& m.name@ == str_at(s, u32_at(d, at, e) as int)
    &&& m.type_id == u32_at(d, at + 4, e)
    &&& if bitfield {
        m.bit_size as int == w / 0x1000000 && m.bit_offset as int == w % 0x1000000
    } else {
        m.bit_size == 0 && m.bit_offset == w
    }
}

/// An enum value decoded from the 8 bytes at `at`.
pub open spec fn enum_value_matches(v: BtfEnumValue, d: Seq<u8>, at: int, s: Seq<u8>, e: Endian) -> bool {
    &&& v.name@ == str_at(s, u32_at(d, at, e) as int)
    &&& v.value == u32_at(d, at + 4, e) as i32
}

/// A parameter decoded from the 8 bytes at `at`.
pub open spec fn param_matches(p: BtfFuncParam, d: Seq<u8>, at: int, s: Seq<u8>, e: Endian) -> bool {
    &&& p.name@ == str_at(s, u32_at(d, at, e) as int)
    &&& p.type_id == u32_at(d, at + 4, e)
}

/// A data section variable decoded from the 12 bytes at `at`.
pub open spec fn datasec_var_matches(v: BtfDatasecVar, d: Seq<u8>, at: int, e: Endian) -> bool {
    &&& v.type_id == u32_at(d, at, e)
    &&& v.offset == u32_at(d, at + 4, e)
    &&& v.size == u32_at(d, at + 8, e)
}

/// Whether `ms` holds the `n` members that follow `x`.
pub open spec fn members_match(ms: Seq<BtfMember>, d: Seq<u8>, x: int, n: nat, bitfield: bool, s: Seq<u8>, e: Endian) -> bool {
    &&& ms.len() == n
    &&& forall|i: int| 0 <= i < n ==> #[trigger] member_matches(ms[i], d, x + 12 * i, bitfield, s, e)
}

/// Whether `t` is the descriptor that the record at `off` encodes.
#[verifier::opaque]
pub open spec fn record_matches(t: BtfType, d: Seq<u8>, off: int, s: Seq<u8>, e: Endian) -> bool {
    let name = str_at(s, u32_at(d, off, e) as int);
    let info = info_at(d, off, e);
    let sot = u32_at(d, off + 8, e);
    let n = info_vlen(info);
    let x = off + 12;
    let w = u32_at(d, x, e);
    &&& kind_code(kind_of(t)) == info_kind(info)
    &&& match t {
        BtfType::Void => false,
        BtfType::Int(i) => i.name@ == name && i.bits as int == w % 0x100 && i.offset as int == (w / 0x10000) % 0x100
            && encoding_code(i.encoding) == w / 0x1000000,
        BtfType::Ptr(p) => p.pointee_type == sot,
        BtfType::Array(a) => a.nelems == w && a.index_type_id == u32_at(d, x + 4, e) && a.val_type_id == u32_at(d, x + 8, e),
        BtfType::Struct(c) => c.name@ == name && c.is_struct && c.size == sot
            && members_match(c.members@, d, x, n, info_flag(info), s, e),
        BtfType::Union(c) => c.name@ == name && !c.is_struct && c.size == sot
            && members_match(c.members@, d, x, n, info_flag(info), s, e),
        BtfType::Enum(en) => en.name@ == name && en.size == sot && en.values@.len() == n
            && forall|i: int| 0 <= i < n ==> #[trigger] enum_value_matches(en.values@[i], d, x + 8 * i, s, e),
        BtfType::Fwd(f) => f.name@ == name && f.kind == (if info_flag(info) { BtfFwdKind::Union } else { BtfFwdKind::Struct }),
        BtfType::Typedef(m) => m.name@ == name && m.type_id == sot,
        BtfType::Volatile(m) => m.type_id == sot,
        BtfType::Const(m) => m.type_id == sot,
        BtfType::Restrict(m) => m.type_id == sot,
        BtfType::Func(f) => f.name@ == name && f.type_id == sot,
        BtfType::FuncProto(p) => p.ret_type_id == sot && p.params@.len() == n
            && forall|i: int| 0 <= i < n ==> #[trigger] param_matches(p.params@[i], d, x + 8 * i, s, e),
        BtfType::Var(v) => v.name@ == name && v.type_id == sot && linkage_code(v.linkage) == w,
        BtfType::Datasec(ds) => ds.name@ == name && ds.size == sot && ds.vars@.len() == n
            && forall|i: int| 0 <= i < n ==> #[trigger] datasec_var_matches(ds.vars@[i], d, x + 12 * i, e),
    }
}

/// The number of bytes that a descriptor occupies in the type table.
pub open spec fn type_size_spec(t: BtfType) -> nat {
    match t {
        BtfType::Void => 0,
        BtfType::Int(_) | BtfType::Var(_) => 16,
        BtfType::Array(_) => 24,
        BtfType::Struct(c) | BtfType::Union(c) => 12 + 12 * c.members@.len(),
        BtfType::Enum(en) => 12 + 8 * en.values@.len(),
        BtfType::FuncProto(p) => 12 + 8 * p.params@.len(),
        BtfType::Datasec(ds) => 12 + 12 * ds.vars@.len(),
        _ => 12,
    }
}

/// A decoded descriptor occupies exactly the bytes of its record.
pub proof fn lemma_matching_size(t: BtfType, d: Seq<u8>, off: int, s: Seq<u8>, e: Endian)
    requires
        record_matches(t, d, off, s, e),
    ensures
        type_size_spec(t) == rec_len(d, off, e),
{
    reveal(record_matches);
}

/// Bytes that follow the common header of a record of kind code `k`.
fn payload_len_exec(k: u32, vlen: usize) -> (r: usize)
    requires
        vlen < 0x10000,
    ensures
        r == payload_len(k, vlen as nat),
{
    if k == 1 || k == 14 {
        4
    } else if k == 3 {
        12
    } else if k == 4 || k == 5 || k == 15 {
        12 * vlen
    } else if k == 6 || k == 13 {
        8 * vlen
    } else {
        0
    }
}

/// The string whose offset is stored at `at`.
fn name_at(d: &[u8], at: usize, s: &[u8], e: Endian) -> (r: Result<String, BtfError>)
    requires
        at + 4 <= d@.len(),
    ensures
        r is Ok <==> str_ok(s@, u32_at(d@, at as int, e) as int),
        r matches Ok(n) ==> n@ == str_at(s@, u32_at(d@, at as int, e) as int),
        r matches Err(err) ==> err == BtfError::InvalidString,
{
    let off = read_u32(d, at, e);
    match string_at(s, off as usize) {
        Some(n) => Ok(n),
        None => Err(BtfError::InvalidString),
    }
}

/// Decodes the `n` member records that start at `x`.
fn load_members(d: &[u8], x: usize, n: usize, bitfield: bool, s: &[u8], e: Endian) -> (r: Result<Vec<BtfMember>, BtfError>)
    requires
        x + 12 * n <= d@.len(),
    ensures
        r is Ok <==> elem_names_ok(d@, x as int, n as nat, 12, s@, e),
        r matches Ok(ms) ==> members_match(ms@, d@, x as int, n as nat, bitfield, s@, e),
        r matches Err(err) ==> err == BtfError::InvalidString,
{
    let mut res: Vec<BtfMember> = Vec::new();
    let len = d.len();
    let mut i: usize = 0;
    while i < n
        invariant
            len == d@.len(),
            x + 12 * n <= len,
            i <= n,
            res@.len() == i,
            elem_names_ok(d@, x as int, i as nat, 12, s@, e),
            forall|j: int| 0 <= j < i ==> #[trigger] member_matches(res@[j], d@, x + 12 * j, bitfield, s@, e),
        decreases n - i,
    {
        let at = x + 12 * i;
        let name = match name_at(d, at, s, e) {
            Ok(name) => name,
            Err(err) => {
                return Err(err);
            },
        };
        let type_id = read_u32(d, at + 4, e);
        let w = read_u32(d, at + 8, e);
        let m = if bitfield {
            BtfMember { name, type_id, bit_offset: w % 0x1000000, bit_size: (w / 0x1000000) as u8 }
        } else {
            BtfMember { name, type_id, bit_offset: w, bit_size: 0 }
        };
        res.push(m);
        i = i + 1;
    }
    Ok(res)
}

/// Decodes the `n` enum value records that start at `x`.
fn load_enum_values(d: &[u8], x: usize, n: usize, s: &[u8], e: Endian) -> (r: Result<Vec<BtfEnumValue>, BtfError>)
    requires
        x + 8 * n <= d@.len(),
    ensures
        r is Ok <==> elem_names_ok(d@, x as int, n as nat, 8, s@, e),
        r matches Ok(vs) ==> vs@.len() == n && forall|i: int| 0 <= i < n ==> #[trigger] enum_value_matches(vs@[i], d@, x + 8 * i, s@, e),
        r matches Err(err) ==> err == BtfError::InvalidString,
{
    let mut res: Vec<BtfEnumValue> = Vec::new();
    let len = d.len();
    let mut i: usize = 0;
    while i < n
        invariant
            len == d@.len(),
            x + 8 * n <= len,
            i <= n,
            res@.len() == i,
            elem_names_ok(d@, x as int, i as nat, 8, s@, e),
            forall|j: int| 0 <= j < i ==> #[trigger] enum_value_matches(res@[j], d@, x + 8 * j, s@, e),
        decreases n - i,
    {
        let at = x + 8 * i;
        let name = match name_at(d, at, s, e) {
            Ok(name) => name,
            Err(err) => {
                return Err(err);
            },
        };
        let value = #[verifier::truncate] (read_u32(d, at + 4, e) as i32);
        res.push(BtfEnumValue { name, value });
        i = i + 1;
    }
    Ok(res)
}

/// Decodes the `n` parameter records that start at `x`.
fn load_params(d: &[u8], x: usize, n: usize, s: &[u8], e: Endian) -> (r: Result<Vec<BtfFuncParam>, BtfError>)
    requires
        x + 8 * n <= d@.len(),
    ensures
        r is Ok <==> elem_names_ok(d@, x as int, n as nat, 8, s@, e),
        r matches Ok(ps) ==> ps@.len() == n && forall|i: int| 0 <= i < n ==> #[trigger] param_matches(ps@[i], d@, x + 8 * i, s@, e),
        r matches Err(err) ==> err == BtfError::InvalidString,
{
    let mut res: Vec<BtfFuncParam> = Vec::new();
    let len = d.len();
    let mut i: usize = 0;
    while i < n
        invariant
            len == d@.len(),
            x + 8 * n <= len,
            i <= n,
            res@.len() == i,
            elem_names_ok(d@, x as int, i as nat, 8, s@, e),
            forall|j: int| 0 <= j < i ==> #[trigger] param_matches(res@[j], d@, x + 8 * j, s@, e),
        decreases n - i,
    {
        let at = x + 8 * i;
        let name = match name_at(d, at, s, e) {
            Ok(name) => name,
            Err(err) => {
                return Err(err);
            },
        };
        let type_id = read_u32(d, at + 4, e);
        res.push(BtfFuncParam { name, type_id });
        i = i + 1;
    }
    Ok(res)
}

/// Decodes the `n` data section variable records that start at `x`.
fn load_datasec_vars(d: &[u8], x: usize, n: usize, e: Endian) -> (r: Vec<BtfDatasecVar>)
    requires
        x + 12 * n <= d@.len(),
    ensures
        r@.len() == n,
        forall|i: int| 0 <= i < n ==> #[trigger] datasec_var_matches(r@[i], d@, x + 12 * i, e),
{
    let mut res: Vec<BtfDatasecVar> = Vec::new();
    let len = d.len();
    let mut i: usize = 0;
    while i < n
        invariant
            len == d@.len(),
            x + 12 * n <= len,
            i <= n,
            res@.len() == i,
            forall|j: int| 0 <= j < i ==> #[trigger] datasec_var_matches(res@[j], d@, x + 12 * j, e),
        decreases n - i,
    {
        let at = x + 12 * i;
        let type_id = read_u32(d, at, e);
        let offset = read_u32(d, at + 4, e);
        let size = read_u32(d, at + 8, e);
        res.push(BtfDatasecVar { type_id, offset, size });
        i = i + 1;
    }
    res
}

/// Decodes the type record at `off` of the type table `d`, resolving names in
/// the string table `s`.
pub fn load_type(d: &[u8], off: usize, s: &[u8], e: Endian) -> (r: Result<BtfType, BtfError>)
    requires
        off <= d@.len(),
    ensures
        r matches Ok(t) ==> record_outcome(d@, off as int, s@, e) is Ok && record_matches(t, d@, off as int, s@, e)
            && off + rec_len(d@, off as int, e) <= d@.len(),
        r matches Err(err) ==> record_outcome(d@, off as int, s@, e) == Err::<(), BtfError>(err),
{
    reveal(record_matches);
    reveal(record_outcome);
    if d.len() - off < RECORD_HEADER_LEN {
        return Err(BtfError::OutOfBounds);
    }
    let info = read_u32(d, off + 4, e);
    let sot = read_u32(d, off + 8, e);
    let code = (info / 0x1000000) % 0x80;
    let kind = match BtfKind::from_code(code) {
        Some(k) => k,
        None => {
            return Err(BtfError::InvalidKind);
        },
    };
    let n = (info % 0x10000) as usize;
    let flag = info / 0x80000000 == 1;
    let plen = payload_len_exec(code, n);
    if d.len() - off - RECORD_HEADER_LEN < plen {
        return Err(BtfError::OutOfBounds);
    }
    let x = off + RECORD_HEADER_LEN;
    match kind {
        BtfKind::Void => Err(BtfError::InvalidKind),
        BtfKind::Int => {
            let name = name_at(d, off, s, e)?;
            let w = read_u32(d, x, e);
            match BtfIntEncoding::from_code(w / 0x1000000) {
                Some(encoding) => Ok(BtfType::Int(BtfInt {
                    name,
                    bits: (w % 0x100) as u8,
                    offset: ((w / 0x10000) % 0x100) as u8,
                    encoding,
                })),
                None => Err(BtfError::InvalidEncoding),
            }
        },
        BtfKind::Ptr => Ok(BtfType::Ptr(BtfPtr { pointee_type: sot })),
        BtfKind::Array => Ok(BtfType::Array(BtfArray {
            nelems: read_u32(d, x, e),
            index_type_id: read_u32(d, x + 4, e),
            val_type_id: read_u32(d, x + 8, e),
        })),
        BtfKind::Struct | BtfKind::Union => {
            let name = name_at(d, off, s, e)?;
            let members = load_members(d, x, n, flag, s, e)?;
            let c = BtfComposite { name, is_struct: code == 4, size: sot, members };
            if code == 4 {
                Ok(BtfType::Struct(c))
            } else {
                Ok(BtfType::Union(c))
            }
        },
        BtfKind::Enum => {
            let name = name_at(d, off, s, e)?;
            let values = load_enum_values(d, x, n, s, e)?;
            Ok(BtfType::Enum(BtfEnum { name, size: sot, values }))
        },
        BtfKind::Fwd => {
            let name = name_at(d, off, s, e)?;
            let kind = if flag {
                BtfFwdKind::Union
            } else {
                BtfFwdKind::Struct
            };
            Ok(BtfType::Fwd(BtfFwd { name, kind }))
        },
        BtfKind::Typedef => {
            let name = name_at(d, off, s, e)?;
            Ok(BtfType::Typedef(BtfTypedef { name, type_id: sot }))
        },
        BtfKind::Volatile => Ok(BtfType::Volatile(BtfVolatile { type_id: sot })),
        BtfKind::Const => Ok(BtfType::Const(BtfConst { type_id: sot })),
        BtfKind::Restrict => Ok(BtfType::Restrict(BtfRestrict { type_id: sot })),
        BtfKind::Func => {
            let name = name_at(d, off, s, e)?;
            Ok(BtfType::Func(BtfFunc { name, type_id: sot }))
        },
        BtfKind::FuncProto => {
            let params = load_params(d, x, n, s, e)?;
            Ok(BtfType::FuncProto(BtfFuncProto { ret_type_id: sot, params }))
        },
        BtfKind::Var => {
            let name = name_at(d, off, s, e)?;
            match BtfVarLinkage::from_code(read_u32(d, x, e)) {
                Some(linkage) => Ok(BtfType::Var(BtfVar { name, type_id: sot, linkage })),
                None => Err(BtfError::InvalidEncoding),
            }
        },
        BtfKind::Datasec => {
            let name = name_at(d, off, s, e)?;
            let vars = load_datasec_vars(d, x, n, e);
            Ok(BtfType::Datasec(BtfDatasec { name, size: sot, vars }))
        },
    }
}

/// The number of bytes that `t` occupies in the type table.
pub fn type_size(t: &BtfType) -> (r: usize)
    requires
        type_size_spec(*t) <= usize::MAX,
    ensures
        r == type_size_spec(*t),
{
    match t {
        BtfType::Void => 0,
        BtfType::Ptr(_) | BtfType::Fwd(_) | BtfType::Typedef(_) | BtfType::Volatile(_)
        | BtfType::Const(_) | BtfType::Restrict(_) | BtfType::Func(_) => RECORD_HEADER_LEN,
        BtfType::Int(_) | BtfType::Var(_) => RECORD_HEADER_LEN + 4,
        BtfType::Array(_) => RECORD_HEADER_LEN + 12,
        BtfType::Struct(c) | BtfType::Union(c) => RECORD_HEADER_LEN + 12 * c.members.len(),
        BtfType::Enum(en) => RECORD_HEADER_LEN + 8 * en.values.len(),
        BtfType::FuncProto(p) => RECORD_HEADER_LEN + 8 * p.params.len(),
        BtfType::Datasec(ds) => RECORD_HEADER_LEN + 12 * ds.vars.len(),
    }
}

} // verus!
