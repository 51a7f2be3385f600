use class_reader::constants::{dense_index, CPMethodHandleReferenceKind, ConstItem, ConstItemIdx};
use class_reader::error::ClassReaderError;
use class_reader::field::FieldAccessFlags;
use class_reader::method::MethodAccessFlags;
use class_reader::version::ClassFileVersion;
use class_reader::{ClassAccessFlags, ClassFile};

fn u16be(v: u16) -> [u8; 2] {
    v.to_be_bytes()
}

fn utf8(s: &str) -> Vec<u8> {
    let mut out = vec![1u8];
    out.extend_from_slice(&u16be(s.len() as u16));
    out.extend_from_slice(s.as_bytes());
    out
}

fn long(v: i64) -> Vec<u8> {
    let mut out = vec![5u8];
    out.extend_from_slice(&v.to_be_bytes());
    out
}

fn class_ref(raw: u16) -> Vec<u8> {
    let mut out = vec![7u8];
    out.extend_from_slice(&u16be(raw));
    out
}

/// A class file with the given pool (declared count `count`), own class
/// `this`, parent `sup`, and `tail` after them (interfaces, fields, methods,
/// attributes).
fn class_file(count: u16, pool: &[Vec<u8>], this: u16, sup: u16, tail: &[u8]) -> Vec<u8> {
    let mut out = vec![0xCA, 0xFE, 0xBA, 0xBE, 0, 0, 0, 52];
    out.extend_from_slice(&u16be(count));
    for entry in pool {
        out.extend_from_slice(entry);
    }
    out.extend_from_slice(&u16be(0x0021));
    out.extend_from_slice(&u16be(this));
    out.extend_from_slice(&u16be(sup));
    out.extend_from_slice(tail);
    out
}

const EMPTY_TAIL: [u8; 8] = [0, 0, 0, 0, 0, 0, 0, 0];

fn scenario_pool() -> Vec<Vec<u8>> {
    vec![utf8("A"), long(5), utf8("B")]
}

#[test]
fn wide_entry_round_trip() {
    let bytes = class_file(5, &scenario_pool(), 4, 0, &EMPTY_TAIL);
    let class = ClassFile::read(&bytes).unwrap();
    assert_eq!(class.constants.len(), 3);
    assert_eq!(class.empty_const_slots, vec![2]);
    assert_eq!(class.this_class.idx, 2);
    match &class.constants[class.this_class.idx as usize] {
        ConstItem::Utf8(c) => assert_eq!(c.string, "B"),
        other => panic!("unexpected entry {:?}", other),
    }
    match &class.constants[1] {
        ConstItem::Long(c) => assert_eq!(c.long, 5),
        other => panic!("unexpected entry {:?}", other),
    }
    assert!(class.super_class.is_none());
}

#[test]
fn reference_to_ghost_slot_fails() {
    let bytes = class_file(5, &scenario_pool(), 3, 0, &EMPTY_TAIL);
    assert_eq!(ClassFile::read(&bytes).unwrap_err(), ClassReaderError::InvalidConstantPoolIdx(3));
}

#[test]
fn narrow_pool_maps_reference_n_to_n_minus_one() {
    let pool = vec![utf8("a"), utf8("b"), class_ref(2), utf8("c")];
    for raw in 1..=4u16 {
        let bytes = class_file(5, &pool, raw, 0, &EMPTY_TAIL);
        let class = ClassFile::read(&bytes).unwrap();
        assert!(class.empty_const_slots.is_empty());
        assert_eq!(class.this_class.idx, raw - 1);
    }
    let class = ClassFile::read(&class_file(5, &pool, 1, 0, &EMPTY_TAIL)).unwrap();
    match &class.constants[2] {
        ConstItem::Class(c) => assert_eq!(c.name_index.idx, 1),
        other => panic!("unexpected entry {:?}", other),
    }
}

#[test]
fn one_wide_entry_shifts_later_references() {
    // wide entry at on-disk slot k = 1, followed by two more entries
    let pool = vec![utf8("a"), long(-7), utf8("b"), utf8("c")];
    let count = 6;
    let class = ClassFile::read(&class_file(count, &pool, 1, 0, &EMPTY_TAIL)).unwrap();
    assert_eq!(class.empty_const_slots, vec![2]);
    assert_eq!(class.constants.len(), 4);
    assert_eq!(
        ClassFile::read(&class_file(count, &pool, 3, 0, &EMPTY_TAIL)).unwrap_err(),
        ClassReaderError::InvalidConstantPoolIdx(3)
    );
    for j in 1..=2u16 {
        let raw = 1 + 1 + j + 1;
        let class = ClassFile::read(&class_file(count, &pool, raw, 0, &EMPTY_TAIL)).unwrap();
        assert_eq!(class.this_class.idx, 1 + j);
    }
}

#[test]
fn wide_entry_last_reserves_trailing_slot() {
    let pool = vec![utf8("a"), long(1)];
    let class = ClassFile::read(&class_file(4, &pool, 2, 0, &EMPTY_TAIL)).unwrap();
    assert_eq!(class.empty_const_slots, vec![2]);
    assert_eq!(class.this_class.idx, 1);
    assert_eq!(
        ClassFile::read(&class_file(4, &pool, 3, 0, &EMPTY_TAIL)).unwrap_err(),
        ClassReaderError::InvalidConstantPoolIdx(3)
    );
}

#[test]
fn zero_reference_required_and_optional() {
    let bytes = class_file(5, &scenario_pool(), 0, 0, &EMPTY_TAIL);
    assert_eq!(ClassFile::read(&bytes).unwrap_err(), ClassReaderError::InvalidConstantPoolIdx(0));
    let bytes = class_file(5, &scenario_pool(), 1, 0, &EMPTY_TAIL);
    assert_eq!(ClassFile::read(&bytes).unwrap().super_class, None);
    let bytes = class_file(5, &scenario_pool(), 1, 4, &EMPTY_TAIL);
    assert_eq!(ClassFile::read(&bytes).unwrap().super_class, Some(ConstItemIdx { idx: 2 }));
}

#[test]
fn reference_beyond_declared_count_fails() {
    for raw in [5u16, 6, 7, 100, 0xFFFF] {
        let bytes = class_file(5, &scenario_pool(), raw, 0, &EMPTY_TAIL);
        assert_eq!(ClassFile::read(&bytes).unwrap_err(), ClassReaderError::InvalidConstantPoolIdx(raw));
    }
    let bytes = class_file(5, &scenario_pool(), 1, 5, &EMPTY_TAIL);
    assert_eq!(ClassFile::read(&bytes).unwrap_err(), ClassReaderError::InvalidConstantPoolIdx(5));
}

#[test]
fn decoding_twice_gives_the_same_result() {
    let bytes = class_file(5, &scenario_pool(), 4, 1, &EMPTY_TAIL);
    let a = ClassFile::read(&bytes).unwrap();
    let b = ClassFile::read(&bytes).unwrap();
    assert_eq!(format!("{:?}", a), format!("{:?}", b));
    let bad = class_file(5, &scenario_pool(), 3, 0, &EMPTY_TAIL);
    assert_eq!(ClassFile::read(&bad).unwrap_err(), ClassFile::read(&bad).unwrap_err());
}

fn full_class() -> Vec<u8> {
    // interfaces: one (raw 1); fields: one with one attribute; methods: one; attributes: one
    let mut tail = Vec::new();
    tail.extend_from_slice(&u16be(1));
    tail.extend_from_slice(&u16be(1));
    // field
    tail.extend_from_slice(&u16be(1));
    tail.extend_from_slice(&u16be(0x0002));
    tail.extend_from_slice(&u16be(1));
    tail.extend_from_slice(&u16be(4));
    tail.extend_from_slice(&u16be(1));
    tail.extend_from_slice(&u16be(1));
    tail.extend_from_slice(&3u32.to_be_bytes());
    tail.extend_from_slice(&[9, 8, 7]);
    // method
    tail.extend_from_slice(&u16be(1));
    tail.extend_from_slice(&u16be(0x0009));
    tail.extend_from_slice(&u16be(4));
    tail.extend_from_slice(&u16be(1));
    tail.extend_from_slice(&u16be(0));
    // class attribute
    tail.extend_from_slice(&u16be(1));
    tail.extend_from_slice(&u16be(4));
    tail.extend_from_slice(&0u32.to_be_bytes());
    class_file(5, &scenario_pool(), 4, 1, &tail)
}

#[test]
fn full_class_decodes() {
    let class = ClassFile::read(&full_class()).unwrap();
    assert_eq!(class.version, ClassFileVersion { major: 52, minor: 0 });
    assert_eq!(class.access_flag.bits(), 0x0021);
    assert!(class.access_flag.contains(ClassAccessFlags::SUPER));
    assert_eq!(class.interfaces, vec![ConstItemIdx { idx: 0 }]);
    assert_eq!(class.fields.len(), 1);
    let field = &class.fields[0];
    assert!(field.access_flag.contains(FieldAccessFlags::PRIVATE));
    assert_eq!(field.name_index.idx, 0);
    assert_eq!(field.descriptor_index.idx, 2);
    assert_eq!(field.attributes.len(), 1);
    assert_eq!(field.attributes[0].info, vec![9, 8, 7]);
    let method = &class.methods[0];
    assert_eq!(method.access_flags.bits(), MethodAccessFlags::PUBLIC | MethodAccessFlags::STATIC);
    assert_eq!(method.name_index.idx, 2);
    assert!(method.attributes.is_empty());
    assert_eq!(class.attributes.len(), 1);
    assert_eq!(class.attributes[0].attribute_name_index.idx, 2);
    assert!(class.attributes[0].info.is_empty());
}

#[test]
fn every_truncation_reports_end_of_data() {
    let bytes = full_class();
    for cut in 0..bytes.len() {
        assert_eq!(
            ClassFile::read(&bytes[..cut]).unwrap_err(),
            ClassReaderError::UnexpectedEndOfData,
            "cut at {}",
            cut
        );
    }
}

#[test]
fn oversized_attribute_payload_fails() {
    let mut tail = Vec::new();
    tail.extend_from_slice(&u16be(0));
    tail.extend_from_slice(&u16be(0));
    tail.extend_from_slice(&u16be(0));
    tail.extend_from_slice(&u16be(1));
    tail.extend_from_slice(&u16be(1));
    tail.extend_from_slice(&10u32.to_be_bytes());
    tail.extend_from_slice(&[1, 2, 3]);
    let bytes = class_file(5, &scenario_pool(), 4, 0, &tail);
    assert_eq!(ClassFile::read(&bytes).unwrap_err(), ClassReaderError::UnexpectedEndOfData);
}

#[test]
fn unknown_constant_tag_is_named() {
    for tag in [2u8, 255, 0, 13] {
        let pool = vec![vec![tag, 0, 0]];
        let bytes = class_file(2, &pool, 1, 0, &EMPTY_TAIL);
        assert_eq!(ClassFile::read(&bytes).unwrap_err(), ClassReaderError::InvalidConstItemTag(tag));
    }
}

#[test]
fn bad_magic_and_version() {
    let mut bytes = class_file(5, &scenario_pool(), 4, 0, &EMPTY_TAIL);
    bytes[0] = 0xCB;
    assert_eq!(ClassFile::read(&bytes).unwrap_err(), ClassReaderError::InvalidMagicBytes(0xCBFEBABE));
    let mut bytes = class_file(5, &scenario_pool(), 4, 0, &EMPTY_TAIL);
    bytes[7] = 44;
    assert_eq!(ClassFile::read(&bytes).unwrap_err(), ClassReaderError::UnsupportedVersion(44, 0));
    let mut bytes = class_file(5, &scenario_pool(), 4, 0, &EMPTY_TAIL);
    bytes[7] = 61;
    bytes[5] = 3;
    assert_eq!(ClassFile::read(&bytes).unwrap_err(), ClassReaderError::UnsupportedVersion(61, 3));
}

#[test]
fn version_policy() {
    assert!(ClassFileVersion::from(45, 3).is_ok());
    assert!(ClassFileVersion::from(55, 7).is_ok());
    assert!(ClassFileVersion::from(65, 0).is_ok());
    assert!(ClassFileVersion::from(65, 0xFFFF).is_ok());
    assert_eq!(ClassFileVersion::from(61, 1), Err(ClassReaderError::UnsupportedVersion(61, 1)));
    assert_eq!(ClassFileVersion::from(70, 0), Err(ClassReaderError::UnsupportedVersion(70, 0)));
}

#[test]
fn empty_pool_count_is_rejected() {
    let bytes = class_file(0, &[], 1, 0, &EMPTY_TAIL);
    assert_eq!(ClassFile::read(&bytes).unwrap_err(), ClassReaderError::InvalidConstantPoolIdx(0));
}

#[test]
fn invalid_access_flags() {
    let mut bytes = class_file(5, &scenario_pool(), 4, 0, &EMPTY_TAIL);
    let flags_at = bytes.len() - 14;
    bytes[flags_at] = 0x80;
    assert_eq!(ClassFile::read(&bytes).unwrap_err(), ClassReaderError::InvalidClassAccessFlags(0x8021));
    assert!(FieldAccessFlags::from_bits(0x0100).is_none());
    assert!(FieldAccessFlags::from_bits(0x4000).is_some());
    assert!(MethodAccessFlags::from_bits(0x0200).is_none());
    assert_eq!(MethodAccessFlags::default().bits(), 0);
    let mut bytes = full_class();
    let field_flags_at = bytes.len() - 35;
    bytes[field_flags_at] = 0x01;
    assert_eq!(ClassFile::read(&bytes).unwrap_err(), ClassReaderError::InvalidFieldAccessFlags(0x0102));
    let mut bytes = full_class();
    let method_flags_at = bytes.len() - 16;
    bytes[method_flags_at] = 0x02;
    assert_eq!(ClassFile::read(&bytes).unwrap_err(), ClassReaderError::InvalidMethodAccessFlags(0x0209));
}

#[test]
fn method_handle_kinds() {
    for code in 1..=9u8 {
        let kind = CPMethodHandleReferenceKind::from_code(code).unwrap();
        assert_eq!(u8::from(kind), code);
    }
    assert!(CPMethodHandleReferenceKind::from_code(0).is_none());
    assert!(CPMethodHandleReferenceKind::from_code(10).is_none());
    let pool = vec![utf8("m"), vec![15, 6, 0, 1]];
    let class = ClassFile::read(&class_file(3, &pool, 1, 0, &EMPTY_TAIL)).unwrap();
    match &class.constants[1] {
        ConstItem::MethodHandle(h) => {
            assert_eq!(h.reference_kind, CPMethodHandleReferenceKind::InvokeStatic);
            assert_eq!(h.reference_index.idx, 0);
        }
        other => panic!("unexpected entry {:?}", other),
    }
    let pool = vec![utf8("m"), vec![15, 10, 0, 1]];
    assert_eq!(
        ClassFile::read(&class_file(3, &pool, 1, 0, &EMPTY_TAIL)).unwrap_err(),
        ClassReaderError::InvalidMethodHandleReferenceKind(10)
    );
}

#[test]
fn numeric_constants() {
    let pool = vec![
        vec![3, 0xFF, 0xFF, 0xFF, 0xFF],
        vec![4, 0x3F, 0xC0, 0, 0],
        vec![6, 0x40, 0x09, 0x21, 0xFB, 0x54, 0x44, 0x2D, 0x18],
        vec![18, 0, 7, 0, 1],
    ];
    let class = ClassFile::read(&class_file(6, &pool, 1, 0, &EMPTY_TAIL)).unwrap();
    assert_eq!(class.empty_const_slots, vec![3]);
    match &class.constants[0] {
        ConstItem::Integer(c) => assert_eq!(c.integer, -1),
        other => panic!("unexpected entry {:?}", other),
    }
    match &class.constants[1] {
        ConstItem::Float(c) => assert_eq!(f32::from_bits(c.bits), 1.5),
        other => panic!("unexpected entry {:?}", other),
    }
    match &class.constants[2] {
        ConstItem::Double(c) => assert_eq!(f64::from_bits(c.bits), std::f64::consts::PI),
        other => panic!("unexpected entry {:?}", other),
    }
    assert!(class.constants[3].is_invoke_dynamic());
    assert!(class.constants[2].is_8bit());
    assert!(!class.constants[3].is_8bit());
    let dynamic = class.constants[3].as_invoke_dynamic().unwrap();
    assert_eq!(dynamic.bootstrap_method_attr_index, 7);
    assert_eq!(dynamic.name_and_type_index.idx, 0);
    assert!(class.constants[0].as_invoke_dynamic().is_none());
}

#[test]
fn modified_utf8_text() {
    // U+1F600 as a surrogate pair, each half in three bytes; NUL as C0 80
    let mut entry = vec![1u8, 0, 8];
    entry.extend_from_slice(&[0xED, 0xA0, 0xBD, 0xED, 0xB8, 0x80, 0xC0, 0x80]);
    let class = ClassFile::read(&class_file(2, &[entry], 1, 0, &EMPTY_TAIL)).unwrap();
    match &class.constants[0] {
        ConstItem::Utf8(c) => assert_eq!(c.string, "\u{1F600}\u{0}"),
        other => panic!("unexpected entry {:?}", other),
    }
    // e-acute in two bytes
    let entry = vec![1u8, 0, 2, 0xC3, 0xA9];
    let class = ClassFile::read(&class_file(2, &[entry], 1, 0, &EMPTY_TAIL)).unwrap();
    match &class.constants[0] {
        ConstItem::Utf8(c) => assert_eq!(c.string, "\u{e9}"),
        other => panic!("unexpected entry {:?}", other),
    }
}

#[test]
fn malformed_text_is_rejected() {
    for payload in [vec![0u8], vec![0xFF], vec![0xC3], vec![0xC3, 0x41], vec![0xED, 0xA0, 0xBD]] {
        let mut entry = vec![1u8, 0, payload.len() as u8];
        entry.extend_from_slice(&payload);
        let bytes = class_file(2, &[entry], 1, 0, &EMPTY_TAIL);
        assert_eq!(ClassFile::read(&bytes).unwrap_err(), ClassReaderError::InvalidCesu8String);
    }
}

#[test]
fn dense_index_skips_ghost_slots() {
    let ghosts = [2u16, 5];
    assert_eq!(dense_index(1, 5, &ghosts), Ok(ConstItemIdx { idx: 0 }));
    assert_eq!(dense_index(2, 5, &ghosts), Ok(ConstItemIdx { idx: 1 }));
    assert_eq!(dense_index(3, 5, &ghosts), Err(ClassReaderError::InvalidConstantPoolIdx(3)));
    assert_eq!(dense_index(4, 5, &ghosts), Ok(ConstItemIdx { idx: 2 }));
    assert_eq!(dense_index(6, 5, &ghosts), Err(ClassReaderError::InvalidConstantPoolIdx(6)));
    assert_eq!(dense_index(7, 5, &ghosts), Ok(ConstItemIdx { idx: 4 }));
    assert_eq!(dense_index(8, 5, &ghosts), Err(ClassReaderError::InvalidConstantPoolIdx(8)));
    assert_eq!(dense_index(0, 5, &ghosts), Err(ClassReaderError::InvalidConstantPoolIdx(0)));
}

#[test]
fn error_messages() {
    assert_eq!(
        ClassReaderError::InvalidMagicBytes(0x0000BEEF).message(),
        "Invalid magic bytes `0x0000BEEF` (expected 0xCAFEBABE)"
    );
    assert_eq!(ClassReaderError::InvalidConstantPoolIdx(0).message(), "Invalid ConstantPool index `0`");
    assert_eq!(ClassReaderError::InvalidConstantPoolIdx(65535).message(), "Invalid ConstantPool index `65535`");
    assert_eq!(
        ClassReaderError::InvalidMethodHandleReferenceKind(10).message(),
        "Invalid value `10` for MethodHandle reference_kind (not in range 1..=9)"
    );
    assert_eq!(
        ClassReaderError::InvalidConstItemTag(2).message(),
        "Invalid ConstItem tag `2` (expected one of 1, 3, 4, 5, 6, 7, 8, 9, 10, 11, 12, 15, 16, 18)"
    );
    assert_eq!(ClassReaderError::InvalidClassAccessFlags(128).message(), "Invalid class access flags: 128");
    assert_eq!(ClassReaderError::InvalidFieldAccessFlags(256).message(), "Invalid field access flags: 256");
    assert_eq!(ClassReaderError::InvalidMethodAccessFlags(512).message(), "Invalid method access flags: 512");
    assert_eq!(ClassReaderError::UnexpectedEndOfData.message(), "Unexpected end of data");
    assert_eq!(ClassReaderError::InvalidCesu8String.message(), "Invalid cesu8 string");
    assert_eq!(ClassReaderError::UnsupportedVersion(70, 3).message(), "Unsupported class file version 70.3");
}
