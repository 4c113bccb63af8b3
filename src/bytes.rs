use vstd::prelude::*;
use vstd::utf8::{decode_utf8, valid_utf8};

verus! {

/// Byte order of the multi-byte fields of a section.
#[derive(Debug, Clone, Copy, PartialEq, Eq, Structural)]
pub enum Endian {
    Little,
    Big,
}

/// The 16-bit value stored at `off` in `b`.
pub open spec fn u16_at(b: Seq<u8>, off: int, e: Endian) -> u16 {
    match e {
        Endian::Little => (b[off] as int + b[off + 1] as int * 0x100) as u16,
        Endian::Big => (b[off + 1] as int + b[off] as int * 0x100) as u16,
    }
}

/// The 32-bit value stored at `off` in `b`.
pub open spec fn u32_at(b: Seq<u8>, off: int, e: Endian) -> u32 {
    match e {
        Endian::Little => (b[off] as int + b[off + 1] as int * 0x100 + b[off + 2] as int * 0x10000
            + b[off + 3] as int * 0x1000000) as u32,
        Endian::Big => (b[off + 3] as int + b[off + 2] as int * 0x100 + b[off + 1] as int * 0x10000
            + b[off] as int * 0x1000000) as u32,
    }
}

/// Reads the 16-bit value at `off` of `b`.
pub fn read_u16(b: &[u8], off: usize, e: Endian) -> (r: u16)
    requires
        off + 2 <= b@.len(),
    ensures
        r == u16_at(b@, off as int, e),
{
    let b0 = b[off] as u16;
    let b1 = b[off + 1] as u16;
    match e {
        Endian::Little => b0 + b1 * 0x100,
        Endian::Big => b1 + b0 * 0x100,
    }
}

/// Reads the 32-bit value at `off` of `b`.
pub fn read_u32(b: &[u8], off: usize, e: Endian) -> (r: u32)
    requires
        off + 4 <= b@.len(),
    ensures
        r == u32_at(b@, off as int, e),
{
    let b0 = b[off] as u32;
    let b1 = b[off + 1] as u32;
    let b2 = b[off + 2] as u32;
    let b3 = b[off + 3] as u32;
    match e {
        Endian::Little => b0 + b1 * 0x100 + b2 * 0x10000 + b3 * 0x1000000,
        Endian::Big => b3 + b2 * 0x100 + b1 * 0x10000 + b0 * 0x1000000,
    }
}

/// The position of the first zero byte at or after `off`, or `s.len()` if
/// there is none.
pub open spec fn cstr_end(s: Seq<u8>, off: int) -> int
    decreases s.len() - off,
{
    if off < 0 || off >= s.len() {
        s.len() as int
    } else if s[off] == 0 {
        off
    } else {
        cstr_end(s, off + 1)
    }
}

/// The bytes of the zero-terminated string at `off`.
pub open spec fn cstr_bytes(s: Seq<u8>, off: int) -> Seq<u8> {
    s.subrange(off, cstr_end(s, off))
}

/// Whether a valid string starts at `off` of the string table `s`: the offset
/// is in range, a zero byte ends the string inside the table, and the bytes
/// before it are UTF-8 text.
pub open spec fn str_ok(s: Seq<u8>, off: int) -> bool {
    &&& 0 <= off < s.len()
    &&& cstr_end(s, off) < s.len()
    &&& valid_utf8(cstr_bytes(s, off))
}

/// The text of the string at `off` of the string table `s`.
pub open spec fn str_at(s: Seq<u8>, off: int) -> Seq<char> {
    decode_utf8(cstr_bytes(s, off))
}

/// Relies on `String::from_utf8`: it succeeds exactly on valid UTF-8 bytes,
/// and then holds the characters they encode.
#[verifier::external_body]
fn utf8_string(b: Vec<u8>) -> (r: Option<String>)
    ensures
        r is Some <==> valid_utf8(b@),
        r matches Some(t) ==> t@ == decode_utf8(b@),
{
    String::from_utf8(b).ok()
}

/// The zero-terminated UTF-8 string that starts at `off` of the string table
/// `s`, or `None` when there is none there.
pub fn string_at(s: &[u8], off: usize) -> (r: Option<String>)
    ensures
        r is Some <==> str_ok(s@, off as int),
        r matches Some(t) ==> t@ == str_at(s@, off as int),
        off < s@.len() && s@[off as int] == 0 ==> (r matches Some(t) && t@.len() == 0),
{
    if off >= s.len() {
        return None;
    }
    let mut bytes: Vec<u8> = Vec::new();
    let mut j: usize = off;
    while j < s.len() && s[j] != 0
        invariant
            off <= j <= s@.len(),
            off < s@.len(),
            cstr_end(s@, off as int) == cstr_end(s@, j as int),
            bytes@ == s@.subrange(off as int, j as int),
        decreases s@.len() - j,
    {
        bytes.push(s[j]);
        j = j + 1;
        assert(bytes@ == s@.subrange(off as int, j as int));
    }
    if j == s.len() {
        return None;
    }
    assert(bytes@ == cstr_bytes(s@, off as int));
    utf8_string(bytes)
}

} // verus!
