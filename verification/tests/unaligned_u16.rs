use am_osx_status::unaligned_u16::endian::Endianness;
use am_osx_status::unaligned_u16::utf16::{encode_literal, predict_equivalent_byte_size, Utf16Str};
use am_osx_status::unaligned_u16::UnalignedU16Slice;

const SAMPLES: [&str; 6] = ["", "hello", "こんにちは", "👨‍👩‍👧‍👦", "a𐍈b𐍈c", "🧑🏾‍❤️‍💋‍🧑🏻"];

#[test]
fn iter() {
    let slice = [0x01, 0x02, 0x03, 0x04];
    let unaligned = UnalignedU16Slice::new(&slice).unwrap();
    let mut iter = unaligned.iter(Endianness::Big);
    assert_eq!(iter.len(), 2);
    assert_eq!(iter.next(), Some(0x0201));
    assert_eq!(iter.next(), Some(0x0403));
    assert_eq!(iter.len(), 0);
    assert_eq!(iter.next(), None);

    let mut iter = unaligned.iter(Endianness::Big);
    assert_eq!(iter.next_back(), Some(0x0403));
    assert_eq!(iter.next_back(), Some(0x0201));
    assert_eq!(iter.next_back(), None);
    assert_eq!(iter.next(), None);
}

#[test]
fn get() {
    let slice = [0x01, 0x02, 0x03, 0x04];
    let unaligned = UnalignedU16Slice::new(&slice).unwrap();
    assert_eq!(unaligned.get(0, Endianness::Little), Some(0x0201));
    assert_eq!(unaligned.get(1, Endianness::Little), Some(0x0403));
    assert_eq!(unaligned.get(2, Endianness::Little), None);
}

#[test]
fn ranged_indexing() {
    let slice = [0x01, 0x02, 0x03, 0x04, 0x05, 0x06, 0x07, 0x08];
    let unaligned = UnalignedU16Slice::new(&slice).unwrap();
    assert_eq!(unaligned.range(0, 0), UnalignedU16Slice::new(&slice[0..0]).unwrap());
    assert_eq!(unaligned.range(0, 1), UnalignedU16Slice::new(&slice[0..=1]).unwrap());
    assert_eq!(unaligned.range_inclusive(1, 2), UnalignedU16Slice::new(&slice[2..=5]).unwrap());
    assert_eq!(unaligned.range_from(1), UnalignedU16Slice::new(&slice[2..]).unwrap());
    assert_eq!(unaligned.range_to(2), UnalignedU16Slice::new(&slice[..=3]).unwrap());
    assert_eq!(unaligned.range_to_inclusive(2), UnalignedU16Slice::new(&slice[..=5]).unwrap());
}

#[test]
fn odd_length_is_refused() {
    assert!(UnalignedU16Slice::new(&[1, 2, 3]).is_err());
    assert!(Utf16Str::new(&[1, 2, 3], Endianness::Little).is_err());
}

#[test]
fn unpaired_surrogate_is_reported() {
    // a lone low surrogate 0xDC00 in little-endian order
    let err = Utf16Str::new(&[0x00, 0xDC], Endianness::Little).err().unwrap();
    match err {
        am_osx_status::unaligned_u16::utf16::InvalidUtf16Error::IncorrectEncoding(e) => {
            assert_eq!(e.unpaired_surrogate(), 0xDC00)
        }
        _ => panic!("wrong error"),
    }
}

#[test]
fn predict_byte_size() {
    for str in SAMPLES {
        let predicted = predict_equivalent_byte_size(str);
        let actual: usize = str.encode_utf16().map(|_| 2).sum();
        assert_eq!(predicted, actual, "Failed on string: {str}");
    }
}

#[test]
fn macro_basic_endianness() {
    assert_eq!(encode_literal("hello", Endianness::Little), b"h\0e\0l\0l\0o\0".to_vec());
    assert_eq!(encode_literal("hello", Endianness::Big), b"\0h\0e\0l\0l\0o".to_vec());
}

#[test]
fn display() {
    for str in SAMPLES {
        let le = str.encode_utf16().flat_map(u16::to_le_bytes).collect::<Vec<u8>>();
        let be = str.encode_utf16().flat_map(u16::to_be_bytes).collect::<Vec<u8>>();
        let le = Utf16Str::new(&le[..], Endianness::Little).unwrap().to_string();
        let be = Utf16Str::new(&be[..], Endianness::Big).unwrap().to_string();
        assert_eq!(str, le);
        assert_eq!(str, be);
    }
}

#[test]
fn with_str() {
    let sys = Endianness::system();
    for s in ["jor", "👨‍👩‍👧‍👦", "🙃", "🧑🏾‍❤️‍💋‍🧑🏻"] {
        let bytes = encode_literal(s, sys);
        assert!(Utf16Str::new(&bytes, sys).unwrap().eq_str(s));
    }
}

#[test]
fn cross_endian() {
    for s in ["jor", "👨‍👩‍👧‍👦", "🙃", "🧑🏾‍❤️‍💋‍🧑🏻"] {
        let le = encode_literal(s, Endianness::Little);
        let be = encode_literal(s, Endianness::Big);
        let le = Utf16Str::new(&le, Endianness::Little).unwrap();
        let be = Utf16Str::new(&be, Endianness::Big).unwrap();
        assert!(le.eq_utf16(&be));
    }
}

#[test]
fn cmp() {
    let sys = Endianness::system();
    for (lhs, rhs) in [("string", "rope"), ("👨‍👩‍👧‍👦", "🙃"), ("📻", "3")] {
        let l = encode_literal(lhs, sys);
        let r = encode_literal(rhs, sys);
        let l = Utf16Str::new(&l, sys).unwrap();
        let r = Utf16Str::new(&r, sys).unwrap();
        assert_eq!(l.partial_cmp_utf16(&r), lhs.partial_cmp(rhs));
        assert_eq!(l.partial_cmp_str(rhs), lhs.partial_cmp(rhs));
    }
}

#[test]
fn roundtrip_and_prefix() {
    let bytes = encode_literal("hello world", Endianness::Big);
    let s = Utf16Str::new(&bytes, Endianness::Big).unwrap();
    assert!(s.eq_str("hello world"));
    assert!(s.starts_with(&"hello"));
    assert!(!s.starts_with(&"world"));
    assert_eq!(s.utf8_byte_len(), 11);
    let emoji = encode_literal("🙃a", Endianness::Little);
    let e = Utf16Str::new(&emoji, Endianness::Little).unwrap();
    assert_eq!(e.utf8_byte_len(), 5);
    let mut chars = e.chars();
    assert_eq!(chars.next(), Some('🙃'));
    assert_eq!(chars.next(), Some('a'));
    assert_eq!(chars.next(), None);
}

#[test]
fn endianness_helpers() {
    assert_eq!(Endianness::Little.opposite(), Endianness::Big);
    assert_eq!(Endianness::Big.split_u16(0x0102), [1, 2]);
    assert_eq!(Endianness::Little.split_u16(0x0102), [2, 1]);
    assert_eq!(Endianness::Little.merge_bytes([2, 1]), 0x0102);
    assert!(Endianness::system().is_system());
}

#[test]
fn byte_order_marks() {
    assert_eq!(Endianness::from_bom(&[0xFF, 0xFE, 0x41]), Some(Endianness::Little));
    assert_eq!(Endianness::from_bom(&[0xFE, 0xFF]), Some(Endianness::Big));
    assert_eq!(Endianness::from_bom(&[0xFE]), None);
    assert_eq!(Endianness::from_bom(&[0x00, 0x41]), None);
}
