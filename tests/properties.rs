use zon::{
    inspect, serialize, serialize_to_zon, FieldValue, RootValue, ZonError, ZonHeader, ZonReader,
    ZonWriter, ZON_MAGIC,
};

fn le(bytes: &[u8], off: usize) -> u32 {
    u32::from_le_bytes(bytes[off..off + 4].try_into().unwrap())
}

#[test]
fn root_is_zero_until_set_and_last_set_wins() {
    let mut w = ZonWriter::new();
    {
        let r = ZonReader::new(w.as_bytes()).unwrap();
        assert_eq!(r.read_u32(8), Ok(0));
        assert_eq!(r.root_offset(), Ok(0));
    }
    let a = w.write_u32(5);
    w.set_root(a);
    let b = w.write_string("x").unwrap();
    w.set_root(b);
    w.write_u32(9);
    let r = ZonReader::new(w.as_bytes()).unwrap();
    assert_eq!(r.read_u32(8), Ok(b));
    assert_eq!(r.root_offset(), Ok(68));
}

#[test]
fn u32_round_trip() {
    let mut w = ZonWriter::new();
    let values = [0u32, 1, 0x12345678, u32::MAX];
    let mut offs = Vec::new();
    for v in values {
        offs.push(w.write_u32(v));
    }
    assert_eq!(offs, vec![64, 68, 72, 76]);
    let r = ZonReader::new(w.as_bytes()).unwrap();
    for (v, off) in values.iter().zip(offs) {
        assert_eq!(r.read_u32(off), Ok(*v));
    }
}

#[test]
fn string_round_trip_including_empty_and_multibyte() {
    let mut w = ZonWriter::new();
    let texts = ["", "a", "héllo", "日本語", "abcd"];
    let mut offs = Vec::new();
    for t in texts {
        offs.push(w.write_string(t).unwrap());
        assert_eq!(w.len() % 4, 0);
    }
    assert_eq!(offs[0], 64);
    assert_eq!(offs[1], 68);
    let r = ZonReader::new(w.as_bytes()).unwrap();
    for (t, off) in texts.iter().zip(offs) {
        assert_eq!(r.read_string(off), Ok(*t));
    }
}

#[test]
fn length_stays_multiple_of_four() {
    let mut w = ZonWriter::new();
    for n in 0..9usize {
        let s: String = "z".repeat(n);
        w.write_string(&s).unwrap();
        assert_eq!(w.len() % 4, 0);
        w.write_u32(n as u32);
        assert_eq!(w.len() % 4, 0);
    }
}

#[test]
fn fresh_builder_header() {
    let w = ZonWriter::new();
    let b = w.as_bytes();
    assert_eq!(b.len(), 64);
    assert!(!w.is_empty());
    assert_eq!(&b[0..4], &ZON_MAGIC.to_le_bytes());
    assert_eq!(&b[0..4], &[0x21, 0x4E, 0x4F, 0x5A]);
    assert_eq!(le(b, 4), 1);
    assert_eq!(&b[8..12], &[0, 0, 0, 0]);
    assert!(b[12..64].iter().all(|x| *x == 0));
    assert_eq!(w.to_bytes(), ZonHeader::default().to_bytes());
}

#[test]
fn header_set_root_changes_only_root() {
    let mut h = ZonHeader::default();
    h.set_root(200);
    assert_eq!(h.root, 200);
    assert_eq!(h.magic, ZON_MAGIC);
    assert_eq!(h.version, 1);
    let b = h.to_bytes();
    assert_eq!(le(&b, 8), 200);
}

#[test]
fn construct_rejects_small_and_bad_magic() {
    let small = [0u8; 10];
    assert_eq!(ZonReader::new(&small).err(), Some(ZonError::TooSmall));
    let sixty_three = vec![0u8; 63];
    assert_eq!(ZonReader::new(&sixty_three).err(), Some(ZonError::TooSmall));
    let zeros = [0u8; 64];
    assert_eq!(ZonReader::new(&zeros).err(), Some(ZonError::BadMagic));
    let mut other_version = ZonWriter::new().to_bytes();
    other_version[4] = 7;
    assert!(ZonReader::new(&other_version).is_ok());
}

#[test]
fn read_u32_out_of_bounds() {
    let w = ZonWriter::new();
    let r = ZonReader::new(w.as_bytes()).unwrap();
    assert_eq!(r.len(), 64);
    assert_eq!(r.read_u32(60), Ok(0));
    assert_eq!(r.read_u32(61), Err(ZonError::OutOfBounds));
    assert_eq!(r.read_u32(64), Err(ZonError::OutOfBounds));
    assert_eq!(r.read_u32(u32::MAX), Err(ZonError::OutOfBounds));
    assert_eq!(r.read_u32(1), Ok(0x015A_4F4E));
}

#[test]
fn read_string_errors() {
    let mut w = ZonWriter::new();
    let off = w.write_u32(100);
    let r = ZonReader::new(w.as_bytes()).unwrap();
    assert_eq!(r.read_string(off), Err(ZonError::StringOutOfBounds));
    assert_eq!(r.read_string(66), Err(ZonError::OutOfBounds));
    assert_eq!(r.read_string(u32::MAX), Err(ZonError::OutOfBounds));

    let mut w = ZonWriter::new();
    let off = w.write_u32(1);
    w.write_u32(0x80);
    let r = ZonReader::new(w.as_bytes()).unwrap();
    assert_eq!(r.read_string(off), Err(ZonError::InvalidUtf8));

    let mut w = ZonWriter::new();
    let off = w.write_u32(u32::MAX);
    let r = ZonReader::new(w.as_bytes()).unwrap();
    assert_eq!(r.read_string(off), Err(ZonError::StringOutOfBounds));
}

#[test]
fn scenario_number_then_name() {
    let mut w = ZonWriter::new();
    assert_eq!(w.write_u32(123456), 64);
    let off = w.write_string("Zaim").unwrap();
    assert_eq!(off, 68);
    assert_eq!(w.len(), 76);
    {
        let b = w.as_bytes();
        assert_eq!(le(b, 68), 4);
        assert_eq!(&b[72..76], b"Zaim");
    }
    w.set_root(68);
    let r = ZonReader::new(w.as_bytes()).unwrap();
    assert_eq!(r.read_u32(8), Ok(68));
    assert_eq!(r.read_string(68), Ok("Zaim"));
    assert_eq!(r.read_u32(64), Ok(123456));
}

#[test]
fn scenario_struct_region() {
    let mut w = ZonWriter::new();
    let name = w.write_string("Alice").unwrap();
    assert_eq!(w.len(), 76);
    w.pad_to(64);
    assert_eq!(w.len(), 128);
    assert!(w.as_bytes()[76..128].iter().all(|x| *x == 0));
    let root = w.write_u32(42);
    w.write_u32(99);
    w.write_u32(name);
    w.set_root(root);
    let r = ZonReader::new(w.as_bytes()).unwrap();
    let root = r.root_offset().unwrap();
    assert_eq!(root, 128);
    assert_eq!(r.read_u32(root), Ok(42));
    assert_eq!(r.read_u32(root + 4), Ok(99));
    assert_eq!(r.read_u32(root + 8), Ok(64));
    assert_eq!(r.read_string(r.read_u32(root + 8).unwrap()), Ok("Alice"));
}

#[test]
fn pad_to_on_aligned_buffer_adds_nothing() {
    let mut w = ZonWriter::new();
    w.pad_to(64);
    assert_eq!(w.len(), 64);
    w.write_u32(1);
    w.pad_to(8);
    assert_eq!(w.len(), 72);
    w.pad_to(4);
    assert_eq!(w.len(), 72);
}

#[test]
fn error_messages() {
    assert_eq!(ZonError::TooSmall.message(), "Buffer too small for ZonHeader");
    assert_eq!(ZonError::BadMagic.message(), "Invalid Magic Number");
    assert_eq!(ZonError::OutOfBounds.message(), "Read out of bounds");
    assert_eq!(ZonError::StringOutOfBounds.message(), "String read out of bounds");
    assert_eq!(ZonError::InvalidUtf8.message(), "Invalid UTF-8");
    assert_eq!(ZonError::ValueTooLarge.message(), "Value does not fit in 32 bits");
}

#[test]
fn inspect_text_number_unknown_and_unset() {
    let mut w = ZonWriter::new();
    let s = w.write_string("hi").unwrap();
    let n = w.write_u32(500);
    {
        let r = ZonReader::new(w.as_bytes()).unwrap();
        let i = inspect(&r);
        assert_eq!(i.magic, ZON_MAGIC);
        assert_eq!(i.version, 1);
        assert_eq!(i.root_offset, 0);
        assert_eq!(i.root, RootValue::Unset);
        assert_eq!(i.buffer_size, 76);
    }
    w.set_root(s);
    {
        let r = ZonReader::new(w.as_bytes()).unwrap();
        assert_eq!(inspect(&r).root, RootValue::Text("hi".to_string()));
    }
    w.set_root(n);
    {
        let r = ZonReader::new(w.as_bytes()).unwrap();
        assert_eq!(inspect(&r).root, RootValue::Number(500));
    }
    w.set_root(74);
    {
        let r = ZonReader::new(w.as_bytes()).unwrap();
        assert_eq!(inspect(&r).root, RootValue::Unknown(74));
    }
    w.set_root(1000);
    {
        let r = ZonReader::new(w.as_bytes()).unwrap();
        let i = inspect(&r);
        assert_eq!(i.root_offset, 1000);
        assert_eq!(i.root, RootValue::Unset);
    }
}

#[test]
fn serialize_first_field() {
    let fields = vec![
        ("name".to_string(), FieldValue::Text("Zaim".to_string())),
        ("age".to_string(), FieldValue::Unsigned(3)),
    ];
    let bytes = serialize(&fields).unwrap();
    let r = ZonReader::new(&bytes).unwrap();
    assert_eq!(bytes.len(), 72);
    assert_eq!(r.root_offset(), Ok(64));
    assert_eq!(r.read_string(64), Ok("Zaim"));

    let fields = vec![("age".to_string(), FieldValue::Unsigned(77))];
    let bytes = serialize(&fields).unwrap();
    let r = ZonReader::new(&bytes).unwrap();
    assert_eq!(bytes.len(), 68);
    assert_eq!(r.read_u32(64), Ok(77));
    assert_eq!(r.root_offset(), Ok(64));

    assert_eq!(serialize(&Vec::new()).unwrap(), ZonWriter::new().to_bytes());
    let other = vec![("x".to_string(), FieldValue::Negative(-1))];
    assert_eq!(serialize(&other).unwrap(), ZonWriter::new().to_bytes());
    let big = vec![("x".to_string(), FieldValue::Unsigned(1u64 << 32))];
    assert_eq!(serialize(&big), Err(ZonError::ValueTooLarge));
}

#[test]
fn serialize_to_zon_layout() {
    let fields = vec![
        ("a".to_string(), FieldValue::Unsigned(7)),
        ("skip".to_string(), FieldValue::Other),
        ("b".to_string(), FieldValue::Text("hi".to_string())),
    ];
    let bytes = serialize_to_zon(&fields).unwrap();
    assert_eq!(bytes.len(), 164);
    assert!(bytes[76..128].iter().all(|x| *x == 0));
    let r = ZonReader::new(&bytes).unwrap();
    assert_eq!(r.root_offset(), Ok(128));
    assert_eq!(r.read_u32(64), Ok(7));
    assert_eq!(r.read_string(68), Ok("hi"));
    assert_eq!(r.read_string(128), Ok("a"));
    assert_eq!(r.read_u32(136), Ok(128));
    assert_eq!(r.read_u32(140), Ok(64));
    assert_eq!(r.read_string(144), Ok("b"));
    assert_eq!(r.read_u32(152), Ok(144));
    assert_eq!(r.read_u32(156), Ok(68));
    assert_eq!(r.read_u32(160), Ok(2));
}

#[test]
fn serialize_to_zon_empty_and_refusals() {
    let bytes = serialize_to_zon(&Vec::new()).unwrap();
    assert_eq!(bytes.len(), 68);
    let r = ZonReader::new(&bytes).unwrap();
    assert_eq!(r.root_offset(), Ok(64));
    assert_eq!(r.read_u32(64), Ok(0));

    let neg = vec![("n".to_string(), FieldValue::Negative(-5))];
    assert_eq!(serialize_to_zon(&neg), Err(ZonError::ValueTooLarge));
    let big = vec![("n".to_string(), FieldValue::Unsigned(u64::MAX))];
    assert_eq!(serialize_to_zon(&big), Err(ZonError::ValueTooLarge));
}
