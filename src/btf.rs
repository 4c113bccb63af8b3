use vstd::prelude::*;

use crate::bytes::{read_u16, read_u32, u16_at, u32_at, Endian};
use crate::decode::{load_type, lemma_matching_size, rec_len, record_matches, record_outcome, type_size, type_size_spec};
use crate::error::BtfError;
use crate::types::BtfType;

verus! {

/// The magic number that opens a BTF section.
pub const BTF_MAGIC: u16 = 0xEB9F;

/// The one supported format version.
pub const BTF_VERSION: u8 = 1;

/// Size of the fixed part of the section header.
pub const HEADER_LEN: usize = 24;

/// Header length declared by the section.
pub open spec fn hdr_len(data: Seq<u8>, e: Endian) -> int {
    u32_at(data, 4, e) as int
}

/// Start of the type table within the section.
pub open spec fn type_start(data: Seq<u8>, e: Endian) -> int {
    hdr_len(data, e) + u32_at(data, 8, e) as int
}

/// Declared length of the type table.
pub open spec fn type_len(data: Seq<u8>, e: Endian) -> int {
    u32_at(data, 12, e) as int
}

/// Start of the string table within the section.
pub open spec fn str_start(data: Seq<u8>, e: Endian) -> int {
    hdr_len(data, e) + u32_at(data, 16, e) as int
}

/// Declared length of the string table.
pub open spec fn str_len(data: Seq<u8>, e: Endian) -> int {
    u32_at(data, 20, e) as int
}

/// The bytes of the type table.
pub open spec fn type_table(data: Seq<u8>, e: Endian) -> Seq<u8> {
    data.subrange(type_start(data, e), type_start(data, e) + type_len(data, e))
}

/// The bytes of the string table.
pub open spec fn string_table(data: Seq<u8>, e: Endian) -> Seq<u8> {
    data.subrange(str_start(data, e), str_start(data, e) + str_len(data, e))
}

/// The outcome of validating the section header.
pub open spec fn header_outcome(data: Seq<u8>, e: Endian) -> Result<(), BtfError> {
    if data.len() < 24 {
        Err(BtfError::OutOfBounds)
    } else if u16_at(data, 0, e) != 0xEB9F {
        Err(BtfError::InvalidMagic)
    } else if data[2] != 1 {
        Err(BtfError::UnsupportedVersion)
    } else if str_start(data, e) + str_len(data, e) > data.len() {
        Err(BtfError::OutOfBounds)
    } else if type_start(data, e) + type_len(data, e) > data.len() {
        Err(BtfError::OutOfBounds)
    } else {
        Ok(())
    }
}

/// The offsets of the records of the type table `d` from `off` on, each
/// record starting where the previous one ends, or the first error met.
pub open spec fn table_outcome(d: Seq<u8>, off: nat, s: Seq<u8>, e: Endian) -> Result<Seq<int>, BtfError>
    decreases d.len() - off,
{
    if off >= d.len() {
        Ok(Seq::empty())
    } else {
        match record_outcome(d, off as int, s, e) {
            Err(x) => Err(x),
            Ok(_) => if off + rec_len(d, off as int, e) > d.len() {
                Err(BtfError::OutOfBounds)
            } else {
                match table_outcome(d, off + rec_len(d, off as int, e), s, e) {
                    Ok(rest) => Ok(seq![off as int] + rest),
                    Err(x) => Err(x),
                }
            },
        }
    }
}

/// The outcome of decoding a whole section: the record offsets, or the first
/// error met.
pub open spec fn decode_outcome(data: Seq<u8>, e: Endian) -> Result<Seq<int>, BtfError> {
    match header_outcome(data, e) {
        Err(x) => Err(x),
        Ok(_) => table_outcome(type_table(data, e), 0, string_table(data, e), e),
    }
}

/// `r` with `p` put in front of its offsets.
pub open spec fn prepend(p: Seq<int>, r: Result<Seq<int>, BtfError>) -> Result<Seq<int>, BtfError> {
    match r {
        Ok(rest) => Ok(p + rest),
        Err(x) => Err(x),
    }
}

/// Total on-disk size of a sequence of descriptors.
pub open spec fn sum_sizes(ts: Seq<BtfType>) -> int
    decreases ts.len(),
{
    if ts.len() == 0 {
        0
    } else {
        sum_sizes(ts.drop_last()) + type_size_spec(ts.last())
    }
}

/// The descriptor of type id `id` (1-based), if there is one.
pub open spec fn lookup(ts: Seq<BtfType>, id: u32) -> Option<BtfType> {
    if 1 <= id <= ts.len() {
        Some(ts[id - 1])
    } else {
        None
    }
}

/// The size in bytes of type `id`, following at most `fuel` references.
pub open spec fn size_spec(ts: Seq<BtfType>, ps: u32, id: u32, fuel: nat) -> Option<u32>
    decreases fuel,
{
    if fuel == 0 {
        None
    } else {
        match lookup(ts, id) {
            None => None,
            Some(t) => match t {
                BtfType::Void => None,
                BtfType::Int(i) => Some(((i.bits + 7) / 8) as u32),
                BtfType::Volatile(m) => size_spec(ts, ps, m.type_id, (fuel - 1) as nat),
                BtfType::Const(m) => size_spec(ts, ps, m.type_id, (fuel - 1) as nat),
                BtfType::Restrict(m) => size_spec(ts, ps, m.type_id, (fuel - 1) as nat),
                BtfType::Typedef(m) => size_spec(ts, ps, m.type_id, (fuel - 1) as nat),
                BtfType::Ptr(_) => Some(ps),
                BtfType::Array(a) => match size_spec(ts, ps, a.val_type_id, (fuel - 1) as nat) {
                    Some(s) => if a.nelems * s <= u32::MAX {
                        Some((a.nelems * s) as u32)
                    } else {
                        None
                    },
                    None => None,
                },
                BtfType::Struct(c) => Some(c.size),
                BtfType::Union(c) => Some(c.size),
                BtfType::Enum(en) => Some(en.size),
                BtfType::Datasec(ds) => Some(ds.size),
                BtfType::FuncProto(_) | BtfType::Fwd(_) | BtfType::Func(_) | BtfType::Var(_) => Some(0),
            },
        }
    }
}

/// The smaller of `a` and `b`.
pub open spec fn min_u32(a: u32, b: u32) -> u32 {
    if a < b {
        a
    } else {
        b
    }
}

/// The larger of `a` and `b`.
pub open spec fn max_u32(a: u32, b: u32) -> u32 {
    if a > b {
        a
    } else {
        b
    }
}

/// The alignment in bytes of type `id`, following at most `fuel` references.
pub open spec fn align_spec(ts: Seq<BtfType>, ps: u32, id: u32, fuel: nat) -> Option<u32>
    decreases fuel, 0nat, 0nat,
{
    if fuel == 0 {
        None
    } else {
        match lookup(ts, id) {
            None => None,
            Some(t) => match t {
                BtfType::Void => None,
                BtfType::Int(i) => Some(min_u32(ps, ((i.bits + 7) / 8) as u32)),
                BtfType::Volatile(m) => align_spec(ts, ps, m.type_id, (fuel - 1) as nat),
                BtfType::Const(m) => align_spec(ts, ps, m.type_id, (fuel - 1) as nat),
                BtfType::Restrict(m) => align_spec(ts, ps, m.type_id, (fuel - 1) as nat),
                BtfType::Typedef(m) => align_spec(ts, ps, m.type_id, (fuel - 1) as nat),
                BtfType::Ptr(_) => Some(ps),
                BtfType::Array(a) => align_spec(ts, ps, a.val_type_id, (fuel - 1) as nat),
                BtfType::Struct(c) => composite_align(ts, ps, c.members@, (fuel - 1) as nat),
                BtfType::Union(c) => composite_align(ts, ps, c.members@, (fuel - 1) as nat),
                BtfType::Enum(en) => Some(min_u32(ps, en.size)),
                _ => Some(0),
            },
        }
    }
}

/// The alignment of a struct or union with members `ms`: the largest of the
/// members' alignments, and 1 when there are no members.
pub open spec fn composite_align(ts: Seq<BtfType>, ps: u32, ms: Seq<crate::types::BtfMember>, fuel: nat) -> Option<u32>
    decreases fuel, 2nat, 0nat,
{
    if ms.len() == 0 {
        Some(1)
    } else {
        members_align(ts, ps, ms, ms.len(), fuel)
    }
}

/// The largest alignment among the first `k` members, and 0 when `k` is 0.
pub open spec fn members_align(ts: Seq<BtfType>, ps: u32, ms: Seq<crate::types::BtfMember>, k: nat, fuel: nat) -> Option<u32>
    decreases fuel, 1nat, k,
{
    if k == 0 {
        Some(0)
    } else {
        match members_align(ts, ps, ms, (k - 1) as nat, fuel) {
            None => None,
            Some(a) => match align_spec(ts, ps, ms[k - 1].type_id, fuel) {
                None => None,
                Some(x) => Some(max_u32(a, x)),
            },
        }
    }
}

/// The id reached from `id` by following volatile, const and restrict
/// qualifiers (and typedefs, when `typedefs` holds), taking at most `fuel`
/// steps.
pub open spec fn skip_spec(ts: Seq<BtfType>, id: u32, fuel: nat, typedefs: bool) -> Option<u32>
    decreases fuel,
{
    if fuel == 0 {
        None
    } else {
        match lookup(ts, id) {
            None => None,
            Some(t) => match t {
                BtfType::Volatile(m) => skip_spec(ts, m.type_id, (fuel - 1) as nat, typedefs),
                BtfType::Const(m) => skip_spec(ts, m.type_id, (fuel - 1) as nat, typedefs),
                BtfType::Restrict(m) => skip_spec(ts, m.type_id, (fuel - 1) as nat, typedefs),
                BtfType::Typedef(m) => if typedefs {
                    skip_spec(ts, m.type_id, (fuel - 1) as nat, typedefs)
                } else {
                    Some(id)
                },
                _ => Some(id),
            },
        }
    }
}

/// Decoding one more record moves its offset from the outcome of the rest of
/// the table into the prefix.
proof fn lemma_table_step(d: Seq<u8>, s: Seq<u8>, e: Endian, offs: Seq<int>, off: nat)
    requires
        off < d.len(),
        record_outcome(d, off as int, s, e) is Ok,
        off + rec_len(d, off as int, e) <= d.len(),
    ensures
        prepend(offs, table_outcome(d, off, s, e)) == prepend(
            offs.push(off as int),
            table_outcome(d, off + rec_len(d, off as int, e), s, e),
        ),
{
    let next = off + rec_len(d, off as int, e);
    let r = table_outcome(d, next, s, e);
    assert(table_outcome(d, off, s, e) == match r {
        Ok(rest) => Ok(seq![off as int] + rest),
        Err(x) => Err::<Seq<int>, BtfError>(x),
    });
    if let Ok(rest) = r {
        assert(offs + (seq![off as int] + rest) =~= offs.push(off as int) + rest);
    }
}

/// Once the member fold has no value, longer prefixes have none either.
proof fn lemma_members_none_stays(ts: Seq<BtfType>, ps: u32, ms: Seq<crate::types::BtfMember>, i: nat, k: nat, fuel: nat)
    requires
        i <= k,
        members_align(ts, ps, ms, i, fuel) is None,
    ensures
        members_align(ts, ps, ms, k, fuel) is None,
    decreases k - i,
{
    if i < k {
        lemma_members_none_stays(ts, ps, ms, i, (k - 1) as nat, fuel);
    }
}

/// A decoded BTF section: the type descriptors in id order (the descriptor of
/// type id `i` at position `i - 1`), the byte order the section was read in,
/// and the pointer width of the target.
pub struct Btf {
    endian: Endian,
    types: Vec<BtfType>,
    ptr_size: u32,
}

/// Decodes the records of the type table `type_data` one after the other, until the
/// table is used up exactly, resolving names in the string table `str_data`.
fn load_types(type_data: &[u8], str_data: &[u8], endian: Endian) -> (r: Result<Vec<BtfType>, BtfError>)
    ensures
        r matches Ok(types) ==> {
            &&& table_outcome(type_data@, 0, str_data@, endian) matches Ok(offs)
            &&& types@.len() == offs.len()
            &&& forall|i: int| 0 <= i < offs.len() ==> #[trigger] record_matches(types@[i], type_data@, offs[i], str_data@, endian)
            &&& sum_sizes(types@) == type_data@.len()
        },
        r matches Err(x) ==> table_outcome(type_data@, 0, str_data@, endian) == Err::<Seq<int>, BtfError>(x),
{
        let ghost d = type_data@;
        let ghost s = str_data@;
        let mut types: Vec<BtfType> = Vec::new();
        let ghost mut offs: Seq<int> = Seq::empty();
        let mut off: usize = 0;
        assert(offs + table_outcome(d, 0, s, endian)->Ok_0 =~= table_outcome(d, 0, s, endian)->Ok_0);
        while off < type_data.len()
            invariant
                d == type_data@,
                s == str_data@,
                off <= d.len(),
                table_outcome(d, 0, s, endian) == prepend(offs, table_outcome(d, off as nat, s, endian)),
                types@.len() == offs.len(),
                forall|i: int| 0 <= i < offs.len() ==> #[trigger] record_matches(types@[i], d, offs[i], s, endian),
                sum_sizes(types@) == off,
            decreases d.len() - off,
        {
            let t = load_type(type_data, off, str_data, endian)?;
            proof {
                lemma_matching_size(t, d, off as int, s, endian);
                lemma_table_step(d, s, endian, offs, off as nat);
            }
            let sz = type_size(&t);
            let ghost prev = types@;
            types.push(t);
            proof {
                assert(types@.drop_last() =~= prev);
                offs = offs.push(off as int);
            }
            off = off + sz;
        }
        assert(offs + Seq::<int>::empty() =~= offs);
        Ok(types)
}

impl Btf {
    /// The descriptors, in id order.
    pub closed spec fn types_view(&self) -> Seq<BtfType> {
        self.types@
    }

    /// The pointer width in bytes.
    pub closed spec fn ptr_size_view(&self) -> u32 {
        self.ptr_size
    }

    /// The byte order the section was read in.
    pub closed spec fn endian_view(&self) -> Endian {
        self.endian
    }

    /// The pointer width is 4 or 8 bytes.
    pub open spec fn wf(&self) -> bool {
        self.ptr_size_view() == 4 || self.ptr_size_view() == 8
    }

    /// What `size_of(id)` returns.
    pub open spec fn size_of_spec(&self, id: u32) -> Option<u32> {
        size_spec(self.types_view(), self.ptr_size_view(), id, self.types_view().len())
    }

    /// What `align_of(id)` returns.
    pub open spec fn align_of_spec(&self, id: u32) -> Option<u32> {
        align_spec(self.types_view(), self.ptr_size_view(), id, self.types_view().len())
    }

    /// What `skip_mods(id)` returns.
    pub open spec fn skip_mods_spec(&self, id: u32) -> Option<u32> {
        skip_spec(self.types_view(), id, self.types_view().len(), false)
    }

    /// What `skip_mods_and_typedefs(id)` returns.
    pub open spec fn skip_mods_and_typedefs_spec(&self, id: u32) -> Option<u32> {
        skip_spec(self.types_view(), id, self.types_view().len(), true)
    }

    /// Decodes a BTF section, `data`, whose multi-byte fields are in byte order
    /// `endian`, for a target with 8-byte pointers when `is_64` holds and
    /// 4-byte pointers otherwise.
    ///
    /// The header is checked first, then the records of the type table are
    /// decoded one after the other until the table is used up exactly. The
    /// first error met is returned and no graph is built.
    pub fn new(data: &[u8], endian: Endian, is_64: bool) -> (r: Result<Btf, BtfError>)
        ensures
            r matches Ok(b) ==> {
                &&& decode_outcome(data@, endian) matches Ok(offs)
                &&& b.types_view().len() == offs.len()
                &&& forall|i: int| 0 <= i < offs.len() ==> #[trigger] record_matches(b.types_view()[i],
                    type_table(data@, endian), offs[i], string_table(data@, endian), endian)
                &&& sum_sizes(b.types_view()) == type_len(data@, endian)
                &&& b.ptr_size_view() == (if is_64 { 8u32 } else { 4u32 })
                &&& b.endian_view() == endian
                &&& b.wf()
            },
            r matches Err(x) ==> decode_outcome(data@, endian) == Err::<Seq<int>, BtfError>(x),
    {
        if data.len() < HEADER_LEN {
            return Err(BtfError::OutOfBounds);
        }
        if read_u16(data, 0, endian) != BTF_MAGIC {
            return Err(BtfError::InvalidMagic);
        }
        if data[2] != BTF_VERSION {
            return Err(BtfError::UnsupportedVersion);
        }
        let hdr_len = read_u32(data, 4, endian) as u64;
        let type_off = read_u32(data, 8, endian) as u64;
        let type_len = read_u32(data, 12, endian) as u64;
        let str_off = read_u32(data, 16, endian) as u64;
        let str_len = read_u32(data, 20, endian) as u64;
        let len = data.len() as u64;
        if hdr_len + str_off + str_len > len {
            return Err(BtfError::OutOfBounds);
        }
        if hdr_len + type_off + type_len > len {
            return Err(BtfError::OutOfBounds);
        }
        let str_data = &data[(hdr_len + str_off) as usize..(hdr_len + str_off + str_len) as usize];
        let type_data = &data[(hdr_len + type_off) as usize..(hdr_len + type_off + type_len) as usize];
        assert(str_data@ == string_table(data@, endian));
        assert(type_data@ == type_table(data@, endian));
        let types = load_types(type_data, str_data, endian)?;
        Ok(Btf { endian, types, ptr_size: if is_64 { 8 } else { 4 } })
    }
    /// All descriptors, in id order.
    pub fn types(&self) -> (r: &[BtfType])
        ensures
            r@ == self.types_view(),
    {
        self.types.as_slice()
    }

    /// The descriptor of type id `id`. Ids are 1-based: id 0 (void) and ids
    /// past the last descriptor have none.
    pub fn type_by_id(&self, id: u32) -> (r: Option<&BtfType>)
        ensures
            r is None <==> lookup(self.types_view(), id) is None,
            r matches Some(t) ==> lookup(self.types_view(), id) == Some(*t),
            r is None <==> (id == 0 || id > self.types_view().len()),
    {
        if id == 0 || id as usize > self.types.len() {
            None
        } else {
            Some(&self.types[(id - 1) as usize])
        }
    }

    /// The size of type `id`, following at most `fuel` references.
    fn size_at(&self, id: u32, fuel: usize) -> (r: Option<u32>)
        ensures
            r == size_spec(self.types_view(), self.ptr_size_view(), id, fuel as nat),
        decreases fuel,
    {
        if fuel == 0 {
            return None;
        }
        let t = match self.type_by_id(id) {
            Some(t) => t,
            None => {
                return None;
            },
        };
        match t {
            BtfType::Void => None,
            BtfType::Int(i) => Some((i.bits as u32 + 7) / 8),
            BtfType::Volatile(m) => self.size_at(m.type_id, fuel - 1),
            BtfType::Const(m) => self.size_at(m.type_id, fuel - 1),
            BtfType::Restrict(m) => self.size_at(m.type_id, fuel - 1),
            BtfType::Typedef(m) => self.size_at(m.type_id, fuel - 1),
            BtfType::Ptr(_) => Some(self.ptr_size),
            BtfType::Array(a) => match self.size_at(a.val_type_id, fuel - 1) {
                Some(s) => a.nelems.checked_mul(s),
                None => None,
            },
            BtfType::Struct(c) => Some(c.size),
            BtfType::Union(c) => Some(c.size),
            BtfType::Enum(en) => Some(en.size),
            BtfType::Datasec(ds) => Some(ds.size),
            BtfType::FuncProto(_) | BtfType::Fwd(_) | BtfType::Func(_) | BtfType::Var(_) => Some(0),
        }
    }

    /// The size in bytes of type `id`: an integer's bits rounded up to bytes,
    /// the pointer width for a pointer, the element count times the element
    /// size for an array (`None` when that product does not fit in 32 bits),
    /// the declared size for a struct, union, enum or data section, the size
    /// of the referenced type for a qualifier or typedef, and 0 for functions,
    /// prototypes, variables and forward declarations.
    ///
    /// `None` for an id without a descriptor, and when the chain of
    /// references runs for more steps than there are descriptors, as it does
    /// on a cycle.
    pub fn size_of(&self, id: u32) -> (r: Option<u32>)
        ensures
            r == self.size_of_spec(id),
    {
        self.size_at(id, self.types.len())
    }

    /// The alignment of type `id`, following at most `fuel` references.
    fn align_at(&self, id: u32, fuel: usize) -> (r: Option<u32>)
        ensures
            r == align_spec(self.types_view(), self.ptr_size_view(), id, fuel as nat),
        decreases fuel,
    {
        if fuel == 0 {
            return None;
        }
        let t = match self.type_by_id(id) {
            Some(t) => t,
            None => {
                return None;
            },
        };
        match t {
            BtfType::Void => None,
            BtfType::Int(i) => {
                let bytes = (i.bits as u32 + 7) / 8;
                Some(if self.ptr_size < bytes { self.ptr_size } else { bytes })
            },
            BtfType::Volatile(m) => self.align_at(m.type_id, fuel - 1),
            BtfType::Const(m) => self.align_at(m.type_id, fuel - 1),
            BtfType::Restrict(m) => self.align_at(m.type_id, fuel - 1),
            BtfType::Typedef(m) => self.align_at(m.type_id, fuel - 1),
            BtfType::Ptr(_) => Some(self.ptr_size),
            BtfType::Array(a) => self.align_at(a.val_type_id, fuel - 1),
            BtfType::Struct(c) | BtfType::Union(c) => {
                let ghost ms = c.members@;
                assert(align_spec(self.types_view(), self.ptr_size_view(), id, fuel as nat)
                    == composite_align(self.types_view(), self.ptr_size_view(), ms, (fuel - 1) as nat));
                if c.members.len() == 0 {
                    return Some(1);
                }
                let mut align: u32 = 0;
                let mut i: usize = 0;
                assert(align_spec(self.types_view(), self.ptr_size_view(), id, fuel as nat)
                    == members_align(self.types_view(), self.ptr_size_view(), ms, ms.len(), (fuel - 1) as nat));
                while i < c.members.len()
                    invariant
                        fuel > 0,
                        align_spec(self.types_view(), self.ptr_size_view(), id, fuel as nat)
                            == members_align(self.types_view(), self.ptr_size_view(), ms, ms.len(), (fuel - 1) as nat),
                        ms == c.members@,
                        i <= ms.len(),
                        members_align(self.types_view(), self.ptr_size_view(), ms, i as nat, (fuel - 1) as nat) == Some(align),
                    decreases ms.len() - i,
                {
                    match self.align_at(c.members[i].type_id, fuel - 1) {
                        Some(a) => {
                            if a > align {
                                align = a;
                            }
                        },
                        None => {
                            proof {
                                assert(ms[i as int].type_id == c.members@[i as int].type_id);
                                assert(members_align(self.types_view(), self.ptr_size_view(), ms, (i + 1) as nat,
                                    (fuel - 1) as nat) is None);
                                lemma_members_none_stays(self.types_view(), self.ptr_size_view(), ms,
                                    (i + 1) as nat, ms.len(), (fuel - 1) as nat);
                            }
                            return None;
                        },
                    }
                    i = i + 1;
                }
                Some(align)
            },
            BtfType::Enum(en) => Some(if self.ptr_size < en.size { self.ptr_size } else { en.size }),
            _ => Some(0),
        }
    }

    /// The alignment in bytes of type `id`: the smaller of the pointer width
    /// and the byte size for an integer or an enum, the pointer width for a
    /// pointer, the element alignment for an array, the largest member
    /// alignment for a struct or union (1 when it has no members), the alignment of the
    /// referenced type for a qualifier or typedef, and 0 for the other kinds.
    ///
    /// `None` for an id without a descriptor, when a member's alignment is
    /// unknown, and when the references run for more steps than there are
    /// descriptors.
    pub fn align_of(&self, id: u32) -> (r: Option<u32>)
        ensures
            r == self.align_of_spec(id),
    {
        self.align_at(id, self.types.len())
    }

    /// Follows qualifiers (and typedefs, when `typedefs` holds) from `id`.
    fn skip(&self, id: u32, typedefs: bool) -> (r: Option<u32>)
        ensures
            r == skip_spec(self.types_view(), id, self.types_view().len(), typedefs),
    {
        let mut cur = id;
        let mut fuel: usize = self.types.len();
        loop
            invariant
                skip_spec(self.types_view(), cur, fuel as nat, typedefs)
                    == skip_spec(self.types_view(), id, self.types_view().len(), typedefs),
            decreases fuel,
        {
            if fuel == 0 {
                return None;
            }
            let t = match self.type_by_id(cur) {
                Some(t) => t,
                None => {
                    return None;
                },
            };
            let next = match t {
                BtfType::Volatile(m) => m.type_id,
                BtfType::Const(m) => m.type_id,
                BtfType::Restrict(m) => m.type_id,
                BtfType::Typedef(m) => {
                    if typedefs {
                        m.type_id
                    } else {
                        return Some(cur);
                    }
                },
                _ => {
                    return Some(cur);
                },
            };
            cur = next;
            fuel = fuel - 1;
        }
    }

    /// The first id reached from `id` by following volatile, const and
    /// restrict qualifiers that is none of those; `None` when a step reaches
    /// an id without a descriptor, or the chain is longer than the number of
    /// descriptors, as on a cycle.
    pub fn skip_mods(&self, id: u32) -> (r: Option<u32>)
        ensures
            r == self.skip_mods_spec(id),
    {
        self.skip(id, false)
    }

    /// As `skip_mods`, following typedefs too.
    pub fn skip_mods_and_typedefs(&self, id: u32) -> (r: Option<u32>)
        ensures
            r == self.skip_mods_and_typedefs_spec(id),
    {
        self.skip(id, true)
    }
}

} // verus!
