use btf_decode::{Btf, BtfError, BtfFwdKind, BtfIntEncoding, BtfKind, BtfType, BtfVarLinkage, Endian};

fn put32(v: &mut Vec<u8>, x: u32, big: bool) {
    if big {
        v.extend_from_slice(&x.to_be_bytes());
    } else {
        v.extend_from_slice(&x.to_le_bytes());
    }
}

/// A section with the given type table and string table, in that order after
/// a 24-byte header.
fn section_with(types: &[u32], strings: &[u8], big: bool) -> Vec<u8> {
    let mut v = Vec::new();
    if big {
        v.extend_from_slice(&0xEB9Fu16.to_be_bytes());
    } else {
        v.extend_from_slice(&0xEB9Fu16.to_le_bytes());
    }
    v.push(1);
    v.push(0);
    let type_len = (types.len() * 4) as u32;
    put32(&mut v, 24, big);
    put32(&mut v, 0, big);
    put32(&mut v, type_len, big);
    put32(&mut v, type_len, big);
    put32(&mut v, strings.len() as u32, big);
    for w in types {
        put32(&mut v, *w, big);
    }
    v.extend_from_slice(strings);
    v
}

fn section(types: &[u32], strings: &[u8]) -> Vec<u8> {
    section_with(types, strings, false)
}

fn info(kind: u32, vlen: u32) -> u32 {
    (kind << 24) | vlen
}

const STRS: &[u8] = b"\0x\0y\0";

fn int_record() -> Vec<u32> {
    vec![1, info(1, 0), 4, 32]
}

fn struct_graph() -> Vec<u32> {
    let mut t = int_record();
    // id 2: pointer to id 1
    t.extend_from_slice(&[0, info(2, 0), 1]);
    // id 3: struct of size 16 with members of types 1 and 2
    t.extend_from_slice(&[0, info(4, 2), 16, 1, 1, 0, 3, 2, 64]);
    t
}

#[test]
fn scenario_single_int() {
    let data = section(&int_record(), STRS);
    let btf = Btf::new(&data, Endian::Little, true).unwrap();
    assert_eq!(btf.types().len(), 1);
    match btf.type_by_id(1) {
        Some(BtfType::Int(i)) => {
            assert_eq!(i.bits, 32);
            assert_eq!(i.offset, 0);
            assert_eq!(i.name, "x");
            assert!(matches!(i.encoding, BtfIntEncoding::NoEncoding));
        }
        _ => panic!("expected an int"),
    }
    assert_eq!(btf.size_of(1), Some(4));
    assert_eq!(btf.align_of(1), Some(4));
}

#[test]
fn scenario_struct_with_int_and_pointer() {
    let data = section(&struct_graph(), STRS);
    let btf = Btf::new(&data, Endian::Little, true).unwrap();
    assert_eq!(btf.types().len(), 3);
    assert_eq!(btf.size_of(3), Some(16));
    assert_eq!(btf.align_of(3), Some(8));
    match btf.type_by_id(3) {
        Some(BtfType::Struct(c)) => {
            assert!(c.is_struct);
            assert_eq!(c.name, "");
            assert_eq!(c.members.len(), 2);
            assert_eq!(c.members[0].name, "x");
            assert_eq!(c.members[1].name, "y");
            assert_eq!(c.members[1].type_id, 2);
            assert_eq!(c.members[1].bit_offset, 64);
            assert_eq!(c.members[1].bit_size, 0);
        }
        _ => panic!("expected a struct"),
    }
    let btf32 = Btf::new(&data, Endian::Little, false).unwrap();
    assert_eq!(btf32.align_of(3), Some(4));
    assert_eq!(btf32.size_of(2), Some(4));
}

#[test]
fn scenario_bad_magic() {
    let mut data = section(&int_record(), STRS);
    data[0] = 0;
    data[1] = 0;
    assert!(matches!(Btf::new(&data, Endian::Little, true), Err(BtfError::InvalidMagic)));
}

#[test]
fn scenario_unknown_kind() {
    let mut t = int_record();
    t.extend_from_slice(&[0, info(16, 0), 0]);
    let data = section(&t, STRS);
    assert!(matches!(Btf::new(&data, Endian::Little, true), Err(BtfError::InvalidKind)));
}

#[test]
fn void_kind_rejected() {
    let data = section(&[0, info(0, 0), 0], STRS);
    assert!(matches!(Btf::new(&data, Endian::Little, true), Err(BtfError::InvalidKind)));
}

#[test]
fn unsupported_version() {
    let mut data = section(&int_record(), STRS);
    data[2] = 2;
    assert!(matches!(Btf::new(&data, Endian::Little, true), Err(BtfError::UnsupportedVersion)));
}

#[test]
fn short_header_out_of_bounds() {
    let data = section(&int_record(), STRS);
    assert!(matches!(Btf::new(&data[..10], Endian::Little, true), Err(BtfError::OutOfBounds)));
}

#[test]
fn string_table_out_of_bounds() {
    let data = section(&int_record(), STRS);
    let cut = &data[..data.len() - 1];
    assert!(matches!(Btf::new(cut, Endian::Little, true), Err(BtfError::OutOfBounds)));
}

#[test]
fn truncated_record_out_of_bounds() {
    // the type table declares 8 bytes: too short for the 16-byte int record
    let mut data = section(&int_record(), STRS);
    data[12..16].copy_from_slice(&8u32.to_le_bytes());
    assert!(matches!(Btf::new(&data, Endian::Little, true), Err(BtfError::OutOfBounds)));
}

#[test]
fn bad_string_offset() {
    let data = section(&[40, info(1, 0), 4, 32], STRS);
    assert!(matches!(Btf::new(&data, Endian::Little, true), Err(BtfError::InvalidString)));
}

#[test]
fn non_utf8_name() {
    let data = section(&[1, info(8, 0), 0], b"\0\xff\xfe\0");
    assert!(matches!(Btf::new(&data, Endian::Little, true), Err(BtfError::InvalidString)));
}

#[test]
fn unterminated_name() {
    let data = section(&[1, info(8, 0), 0], b"\0ab");
    assert!(matches!(Btf::new(&data, Endian::Little, true), Err(BtfError::InvalidString)));
}

#[test]
fn bad_int_encoding() {
    let data = section(&[1, info(1, 0), 4, (3 << 24) | 32], STRS);
    assert!(matches!(Btf::new(&data, Endian::Little, true), Err(BtfError::InvalidEncoding)));
}

#[test]
fn bad_var_linkage() {
    let mut t = int_record();
    t.extend_from_slice(&[3, info(14, 0), 1, 3]);
    let data = section(&t, STRS);
    assert!(matches!(Btf::new(&data, Endian::Little, true), Err(BtfError::InvalidEncoding)));
}

#[test]
fn lookup_by_id_bounds() {
    let data = section(&struct_graph(), STRS);
    let btf = Btf::new(&data, Endian::Little, true).unwrap();
    assert!(btf.type_by_id(0).is_none());
    assert!(btf.type_by_id(4).is_none());
    assert!(btf.type_by_id(3).is_some());
    assert_eq!(btf.size_of(0), None);
    assert_eq!(btf.align_of(4), None);
    assert_eq!(btf.skip_mods(0), None);
    assert_eq!(btf.types()[1].kind(), BtfKind::Ptr);
}

#[test]
fn modifier_chain_is_transparent() {
    let mut t = int_record();
    // id 2: typedef "y" -> 1, id 3: restrict -> 2, id 4: const -> 3, id 5: volatile -> 4
    t.extend_from_slice(&[3, info(8, 0), 1]);
    t.extend_from_slice(&[0, info(11, 0), 2]);
    t.extend_from_slice(&[0, info(10, 0), 3]);
    t.extend_from_slice(&[0, info(9, 0), 4]);
    let data = section(&t, STRS);
    let btf = Btf::new(&data, Endian::Little, true).unwrap();
    assert_eq!(btf.skip_mods(5), Some(2));
    assert_eq!(btf.skip_mods_and_typedefs(5), Some(1));
    assert_eq!(btf.skip_mods_and_typedefs(1), Some(1));
    assert_eq!(btf.size_of(5), Some(4));
    assert_eq!(btf.align_of(5), Some(4));
    assert_eq!(btf.size_of(5), btf.size_of(1));
}

#[test]
fn queries_repeat() {
    let data = section(&struct_graph(), STRS);
    let btf = Btf::new(&data, Endian::Little, true).unwrap();
    for id in 0..5 {
        assert_eq!(btf.size_of(id), btf.size_of(id));
        assert_eq!(btf.align_of(id), btf.align_of(id));
    }
}

#[test]
fn array_size_is_count_times_element() {
    let mut t = int_record();
    // id 2: array of 10 elements of id 1, indexed by id 1
    t.extend_from_slice(&[0, info(3, 0), 0, 10, 1, 1]);
    // id 3: array of 0x4000_0000 elements of id 1: the size does not fit
    t.extend_from_slice(&[0, info(3, 0), 0, 0x4000_0000, 1, 1]);
    let data = section(&t, STRS);
    let btf = Btf::new(&data, Endian::Little, true).unwrap();
    assert_eq!(btf.size_of(2), Some(40));
    assert_eq!(btf.align_of(2), Some(4));
    assert_eq!(btf.size_of(3), None);
}

#[test]
fn composite_alignment_is_max_of_members() {
    let mut t = int_record();
    // id 2: 1-byte char int, id 3: union of two members of id 1 and 2
    t.extend_from_slice(&[0, info(1, 0), 1, (2 << 24) | 8]);
    t.extend_from_slice(&[0, info(5, 2), 4, 1, 2, 0, 3, 1, 0]);
    // id 4: empty struct
    t.extend_from_slice(&[0, info(4, 0), 0]);
    let data = section(&t, STRS);
    let btf = Btf::new(&data, Endian::Little, true).unwrap();
    assert_eq!(btf.align_of(3), Some(4));
    assert_eq!(btf.align_of(2), Some(1));
    assert_eq!(btf.align_of(4), Some(1));
    assert!(matches!(btf.type_by_id(3), Some(BtfType::Union(c)) if !c.is_struct));
}

#[test]
fn cycle_gives_none() {
    // id 1: typedef -> 2, id 2: const -> 1
    let data = section(&[1, info(8, 0), 2, 0, info(10, 0), 1], STRS);
    let btf = Btf::new(&data, Endian::Little, true).unwrap();
    assert_eq!(btf.size_of(1), None);
    assert_eq!(btf.align_of(1), None);
    assert_eq!(btf.skip_mods_and_typedefs(1), None);
    assert_eq!(btf.skip_mods(2), Some(1));
}

#[test]
fn member_reference_to_missing_type() {
    let data = section(&[0, info(4, 1), 8, 1, 9, 0], STRS);
    let btf = Btf::new(&data, Endian::Little, true).unwrap();
    assert_eq!(btf.size_of(1), Some(8));
    assert_eq!(btf.align_of(1), None);
}

#[test]
fn bitfield_members() {
    let data = section(&[0, info(4, 1) | (1 << 31), 4, 1, 0, (3 << 24) | 5], STRS);
    let btf = Btf::new(&data, Endian::Little, true).unwrap();
    match btf.type_by_id(1) {
        Some(BtfType::Struct(c)) => {
            assert_eq!(c.members[0].bit_size, 3);
            assert_eq!(c.members[0].bit_offset, 5);
        }
        _ => panic!("expected a struct"),
    }
}

#[test]
fn enum_fwd_func_proto_var_datasec() {
    let t = vec![
        // id 1: enum "x" of size 4 with values y = -1, x = 7
        1, info(6, 2), 4, 3, 0xffff_ffff, 1, 7,
        // id 2: forward declared union "y"
        3, info(7, 0) | (1 << 31), 0,
        // id 3: prototype returning id 1, one parameter "x" of id 1
        0, info(13, 1), 1, 1, 1,
        // id 4: function "y" of prototype 3
        3, info(12, 0), 3,
        // id 5: global extern variable "x" of id 1
        1, info(14, 0), 1, 2,
        // id 6: data section "y" of size 16 holding id 5 at offset 8, size 4
        3, info(15, 1), 16, 5, 8, 4,
    ];
    let data = section(&t, STRS);
    let btf = Btf::new(&data, Endian::Little, true).unwrap();
    assert_eq!(btf.types().len(), 6);
    match btf.type_by_id(1) {
        Some(BtfType::Enum(e)) => {
            assert_eq!(e.values.len(), 2);
            assert_eq!(e.values[0].name, "y");
            assert_eq!(e.values[0].value, -1);
            assert_eq!(e.values[1].value, 7);
        }
        _ => panic!("expected an enum"),
    }
    assert!(matches!(btf.type_by_id(2), Some(BtfType::Fwd(f)) if f.kind == BtfFwdKind::Union && f.name == "y"));
    match btf.type_by_id(3) {
        Some(BtfType::FuncProto(p)) => {
            assert_eq!(p.ret_type_id, 1);
            assert_eq!(p.params.len(), 1);
            assert_eq!(p.params[0].name, "x");
        }
        _ => panic!("expected a prototype"),
    }
    assert!(matches!(btf.type_by_id(4), Some(BtfType::Func(f)) if f.type_id == 3));
    assert!(matches!(btf.type_by_id(5), Some(BtfType::Var(v)) if v.linkage == BtfVarLinkage::GlobalExtern));
    match btf.type_by_id(6) {
        Some(BtfType::Datasec(d)) => {
            assert_eq!(d.vars.len(), 1);
            assert_eq!(d.vars[0].offset, 8);
        }
        _ => panic!("expected a data section"),
    }
    assert_eq!(btf.size_of(1), Some(4));
    assert_eq!(btf.align_of(1), Some(4));
    assert_eq!(btf.size_of(2), Some(0));
    assert_eq!(btf.size_of(4), Some(0));
    assert_eq!(btf.size_of(5), Some(0));
    assert_eq!(btf.size_of(6), Some(16));
    assert_eq!(btf.align_of(6), Some(0));
}

#[test]
fn big_endian_section() {
    let data = section_with(&struct_graph(), STRS, true);
    let btf = Btf::new(&data, Endian::Big, true).unwrap();
    assert_eq!(btf.types().len(), 3);
    assert_eq!(btf.size_of(3), Some(16));
    assert!(matches!(Btf::new(&data, Endian::Little, true), Err(BtfError::InvalidMagic)));
}

#[test]
fn empty_type_table() {
    let data = section(&[], STRS);
    let btf = Btf::new(&data, Endian::Little, true).unwrap();
    assert!(btf.types().is_empty());
    assert!(btf.type_by_id(1).is_none());
}

#[test]
fn kind_codes() {
    assert_eq!(BtfKind::from_code(13), Some(BtfKind::FuncProto));
    assert_eq!(BtfKind::from_code(16), None);
    assert!(BtfIntEncoding::from_code(4).is_some());
    assert!(BtfIntEncoding::from_code(3).is_none());
    assert!(BtfVarLinkage::from_code(3).is_none());
}

#[test]
fn record_sizes_fill_type_table() {
    let t = struct_graph();
    let data = section(&t, STRS);
    let btf = Btf::new(&data, Endian::Little, true).unwrap();
    let total: usize = btf.types().iter().map(btf_decode::decode::type_size).sum();
    assert_eq!(total, t.len() * 4);
    assert_eq!(btf.types().len(), 3);
}

#[test]
fn encoding_is_whole_top_byte() {
    let data = section(&[1, info(1, 0), 4, (0x11 << 24) | 32], STRS);
    assert!(matches!(Btf::new(&data, Endian::Little, true), Err(BtfError::InvalidEncoding)));
}

#[test]
fn kind_field_spans_seven_bits() {
    let data = section(&[0, info(34, 0), 1], STRS);
    assert!(matches!(Btf::new(&data, Endian::Little, true), Err(BtfError::InvalidKind)));
}

#[test]
fn struct_alignment_can_be_zero() {
    // id 1: forward declared struct "x", id 2: struct with one member of id 1
    let data = section(&[1, info(7, 0), 0, 0, info(4, 1), 0, 3, 1, 0], STRS);
    let btf = Btf::new(&data, Endian::Little, true).unwrap();
    assert_eq!(btf.align_of(1), Some(0));
    assert_eq!(btf.align_of(2), Some(0));
}

#[test]
fn empty_string_at_zero_byte() {
    let data = section(&[0, info(8, 0), 0], STRS);
    let btf = Btf::new(&data, Endian::Little, true).unwrap();
    assert!(matches!(btf.type_by_id(1), Some(BtfType::Typedef(t)) if t.name.is_empty()));
}
