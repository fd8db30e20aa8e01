use zbus::basic::Basic;
use zbus::container::{
    encode_struct, encode_variant, extract_variant, struct_members_start, type_alignment,
    variant_contents_start,
};
use zbus::endian::Endian;
use zbus::error::VariantError;
use zbus::signature::{complete_type_end, is_complete_type, validate};
use zbus::string::{decode, encode, extract_slice, Signature};

#[test]
fn alignment_of_every_type() {
    let expected = [
        (b'y', 1),
        (b'b', 4),
        (b'n', 2),
        (b'q', 2),
        (b'i', 4),
        (b'u', 4),
        (b'x', 8),
        (b't', 8),
        (b'd', 8),
        (b'h', 4),
        (b's', 4),
        (b'o', 4),
        (b'g', 1),
        (b'v', 1),
        (b'a', 4),
        (b'(', 8),
        (b'{', 8),
    ];
    for (code, align) in expected {
        assert_eq!(type_alignment(code), Some(align));
    }
    for code in [b')', b'}', b'z', 0u8, b' '] {
        assert_eq!(type_alignment(code), None);
    }
}

#[test]
fn structures_start_on_a_multiple_of_eight() {
    for offset in 0..32usize {
        let start = struct_members_start(offset);
        assert_eq!(start % 8, 0);
        assert!(start >= offset && start < offset + 8);
        let bytes = encode_struct(&[7, 8, 9], offset);
        assert_eq!(bytes.len(), start - offset + 3);
        assert!(bytes[..start - offset].iter().all(|b| *b == 0));
        assert_eq!(&bytes[start - offset..], &[7, 8, 9]);
    }
    assert_eq!(encode_struct(&[1], 5), vec![0, 0, 0, 1]);
    assert_eq!(encode_struct(&[], 8), Vec::<u8>::new());
}

#[test]
fn variant_of_a_string() {
    let signature = Signature::new("s").unwrap();
    let start = variant_contents_start(&signature, 0).unwrap();
    assert_eq!(start, 4);
    let value = encode("hi", start, Endian::Little);
    let bytes = encode_variant(&signature, &value, 0).unwrap();
    assert_eq!(bytes, vec![1, b's', 0, 0, 2, 0, 0, 0, b'h', b'i', 0]);
    let (found, at) = extract_variant(&bytes, 0).unwrap();
    assert_eq!(found.as_str(), "s");
    assert_eq!(at, 4);
    let frame = extract_slice(&bytes[at..], found.as_str(), Endian::Little).unwrap();
    assert_eq!(decode(frame, "s"), Ok("hi"));
}

#[test]
fn variants_round_trip_at_every_offset() {
    let cases: [(&str, Vec<u8>); 5] = [
        ("y", vec![9]),
        ("t", vec![1, 2, 3, 4, 5, 6, 7, 8]),
        ("g", vec![0, 0]),
        ("a{sv}", vec![0, 0, 0, 0]),
        ("(ii)", vec![1, 0, 0, 0, 2, 0, 0, 0]),
    ];
    for offset in 0..16usize {
        for (text, value) in &cases {
            let signature = Signature::new(text).unwrap();
            let start = variant_contents_start(&signature, offset).unwrap();
            let align = type_alignment(text.as_bytes()[0]).unwrap();
            assert_eq!(start % align, 0);
            assert!(start >= offset + text.len() + 2);
            assert!(start < offset + text.len() + 2 + align);
            let bytes = encode_variant(&signature, value, offset).unwrap();
            assert_eq!(bytes.len(), start - offset + value.len());
            let (found, at) = extract_variant(&bytes, offset).unwrap();
            assert_eq!(found.as_str(), *text);
            assert_eq!(offset + at, start);
            assert_eq!(&bytes[at..], &value[..]);
        }
    }
}

#[test]
fn variant_of_a_number() {
    let signature = Signature::new("u").unwrap();
    let start = variant_contents_start(&signature, 1).unwrap();
    assert_eq!(start, 4);
    let value = Basic::Uint32(7).encode(start, Endian::Big);
    let bytes = encode_variant(&signature, &value, 1).unwrap();
    assert_eq!(bytes, vec![1, b'u', 0, 0, 0, 0, 7]);
    let (found, at) = extract_variant(&bytes, 1).unwrap();
    assert_eq!(found.as_str(), "u");
    assert_eq!(Basic::decode(b'u', &bytes[at..], Endian::Big), Ok(Basic::Uint32(7)));
}

#[test]
fn a_variant_holds_one_complete_type() {
    let invalid = Err(VariantError::InvalidSignature);
    for text in ["", "ii", "su", "a{sv}i", "(i)(i)"] {
        let signature = Signature::new(text).unwrap();
        assert_eq!(variant_contents_start(&signature, 0), invalid);
        assert_eq!(encode_variant(&signature, &[], 0), Err(VariantError::InvalidSignature));
    }
    let long = "a".repeat(255) + "y";
    assert!(Signature::new(&long).unwrap().is_complete_type());
    assert_eq!(variant_contents_start(&Signature::new(&long).unwrap(), 0), invalid);
    let longest = "a".repeat(254) + "y";
    assert!(encode_variant(&Signature::new(&longest).unwrap(), &[], 0).is_ok());

    assert_eq!(extract_variant(&[], 0).map(|r| r.1), Err(VariantError::InsufficientData));
    assert_eq!(
        extract_variant(&[2, b'i', 0], 0).map(|r| r.1),
        Err(VariantError::InsufficientData)
    );
    assert_eq!(
        extract_variant(&[2, b'i', b'i', 0], 0).map(|r| r.1),
        Err(VariantError::InvalidSignature)
    );
    assert_eq!(
        extract_variant(&[0, 0], 0).map(|r| r.1),
        Err(VariantError::InvalidSignature)
    );
    assert_eq!(
        extract_variant(&[1, 0xFF, 0], 0).map(|r| r.1),
        Err(VariantError::InvalidSignature)
    );
}

#[test]
fn one_complete_type() {
    for text in ["y", "ai", "a{sv}", "(ii)", "(i(ii))", "aa{s(iv)}", "v"] {
        assert!(is_complete_type(text.as_bytes()), "{}", text);
        assert!(Signature::new(text).unwrap().is_complete_type());
        assert_eq!(complete_type_end(text.as_bytes(), 0), Some(text.len()));
    }
    for text in ["", "ii", "a", "(", "()", "{sv}", "a{s}", "i)", "a{sv}i"] {
        assert!(!is_complete_type(text.as_bytes()), "{}", text);
        assert!(!Signature::new(text).map(|s| s.is_complete_type()).unwrap_or(false));
    }
    assert_eq!(complete_type_end(b"ii", 0), Some(1));
    assert_eq!(complete_type_end(b"ii", 1), Some(2));
    assert_eq!(complete_type_end(b"ii", 2), None);
    assert_eq!(complete_type_end(b"ii", 7), None);
    assert_eq!(complete_type_end(b"a{sv}i", 0), Some(5));
    assert_eq!(complete_type_end(b"a{sv}i", 1), None);
    assert_eq!(complete_type_end(b"a{sv}i", 2), Some(3));
    assert_eq!(complete_type_end(b"(i(ii))u", 0), Some(7));
    assert_eq!(complete_type_end(b"(i(ii))u", 2), Some(6));
    assert_eq!(complete_type_end(b"(i(ii", 0), None);
    assert!(validate(b"a{sv}i"));
    assert!(!validate(b"a{sv}i)"));
}
