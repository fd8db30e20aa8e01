use zbus::align::padding_for_n_bytes;
use zbus::endian::{read_u32, write_u32, Endian};
use zbus::error::VariantError;
use zbus::string::{
    decode, encode, ensure_correct_signature, ensure_sufficient_bytes, extract_slice, ObjectPath,
    Signature,
};

#[test]
fn string_round_trip_at_offset_0() {
    let bytes = encode("hello", 0, Endian::Little);
    assert_eq!(
        bytes,
        vec![0x05, 0x00, 0x00, 0x00, 0x68, 0x65, 0x6C, 0x6C, 0x6F, 0x00]
    );
    let frame = extract_slice(&bytes, "s", Endian::Little).unwrap();
    assert_eq!(frame.len(), 10);
    assert_eq!(decode(frame, "s"), Ok("hello"));
}

#[test]
fn string_round_trip_at_offset_3() {
    let bytes = encode("hello", 3, Endian::Little);
    assert_eq!(bytes.len(), 11);
    assert_eq!(bytes[0], 0);
    let frame = extract_slice(&bytes[1..], "s", Endian::Little).unwrap();
    assert_eq!(decode(frame, "s"), Ok("hello"));
}

#[test]
fn signature_encode() {
    let bytes = Signature::new("a{sv}").unwrap().encode(0);
    assert_eq!(bytes, vec![0x05, 0x61, 0x7B, 0x73, 0x76, 0x7D, 0x00]);
    assert_eq!(bytes[0] as usize, "a{sv}".len());
    assert_eq!(Signature::new("a{sv}").unwrap().encode(5), bytes);
}

#[test]
fn string_round_trip_at_every_offset_in_both_orders() {
    for order in [Endian::Little, Endian::Big] {
        for offset in 0..16usize {
            for text in ["", "a", "hello", "grüße", "/org/freedesktop/DBus"] {
                let bytes = encode(text, offset, order);
                let pad = padding_for_n_bytes(offset, 4);
                assert_eq!(bytes.len(), pad + 4 + text.len() + 1);
                assert_eq!((offset + pad) % 4, 0);
                assert!(bytes[..pad].iter().all(|b| *b == 0));
                let frame = extract_slice(&bytes[pad..], "s", order).unwrap();
                assert_eq!(frame.len(), bytes.len() - pad);
                assert_eq!(decode(frame, "s"), Ok(text));
            }
        }
    }
}

#[test]
fn big_endian_length_prefix() {
    let bytes = encode("hello", 0, Endian::Big);
    assert_eq!(
        bytes,
        vec![0x00, 0x00, 0x00, 0x05, 0x68, 0x65, 0x6C, 0x6C, 0x6F, 0x00]
    );
}

#[test]
fn u32_in_both_orders() {
    let mut out = vec![0xAAu8];
    write_u32(&mut out, 0x0102_0304, Endian::Little);
    write_u32(&mut out, 0x0102_0304, Endian::Big);
    assert_eq!(out, vec![0xAA, 4, 3, 2, 1, 1, 2, 3, 4]);
    assert_eq!(read_u32(&out[1..], Endian::Little), 0x0102_0304);
    assert_eq!(read_u32(&out[5..], Endian::Big), 0x0102_0304);
    assert_eq!(read_u32(&[1, 0, 0, 0, 9], Endian::Little), 1);
    assert_eq!(read_u32(&[1, 0, 0, 0, 9], Endian::Big), 0x0100_0000);
    assert_eq!(read_u32(&[0xFF, 0xFF, 0xFF, 0xFF], Endian::Big), u32::MAX);
}

#[test]
fn padding_values() {
    assert_eq!(padding_for_n_bytes(0, 4), 0);
    assert_eq!(padding_for_n_bytes(1, 4), 3);
    assert_eq!(padding_for_n_bytes(3, 4), 1);
    assert_eq!(padding_for_n_bytes(4, 4), 0);
    assert_eq!(padding_for_n_bytes(9, 8), 7);
    assert_eq!(padding_for_n_bytes(7, 1), 0);
    assert_eq!(padding_for_n_bytes(5, 2), 1);
}

#[test]
fn string_extract_takes_the_frame_only() {
    let mut bytes = encode("hi", 0, Endian::Little);
    bytes.extend_from_slice(&[1, 2, 3]);
    let frame = extract_slice(&bytes, "s", Endian::Little).unwrap();
    assert_eq!(frame, &[2, 0, 0, 0, 0x68, 0x69, 0][..]);
}

#[test]
fn string_errors() {
    assert_eq!(
        extract_slice(&[5, 0, 0], "s", Endian::Little),
        Err(VariantError::InsufficientData)
    );
    assert_eq!(
        extract_slice(&[5, 0, 0, 0, 0x68], "s", Endian::Little),
        Err(VariantError::InsufficientData)
    );
    assert_eq!(
        extract_slice(&[0, 0, 0, 0, 0], "o", Endian::Little),
        Err(VariantError::SignatureMismatch)
    );
    assert_eq!(
        extract_slice(&[0, 0, 0, 0, 0], "ss", Endian::Little),
        Err(VariantError::SignatureMismatch)
    );
    assert_eq!(decode(&[0, 0, 0, 0], "s"), Err(VariantError::InsufficientData));
    assert_eq!(decode(&[0, 0, 0, 0, 0], "s"), Ok(""));
    assert_eq!(
        decode(&[1, 0, 0, 0, 0xFF, 0], "s"),
        Err(VariantError::InvalidUtf8)
    );
    assert_eq!(
        decode(&[1, 0, 0, 0, 0x61, 0], "g"),
        Err(VariantError::SignatureMismatch)
    );
}

#[test]
fn object_path_is_framed_as_a_string() {
    let path = ObjectPath::new("/org/zbus");
    assert_eq!(path.as_str(), "/org/zbus");
    for offset in 0..16usize {
        let bytes = path.encode(offset, Endian::Little);
        assert_eq!(bytes, encode("/org/zbus", offset, Endian::Little));
        let pad = padding_for_n_bytes(offset, 4);
        let frame = ObjectPath::extract_slice(&bytes[pad..], "o", Endian::Little).unwrap();
        assert_eq!(ObjectPath::decode(frame, "o").unwrap().as_str(), "/org/zbus");
    }
    assert_eq!(
        ObjectPath::extract_slice(&[0, 0, 0, 0, 0], "s", Endian::Little),
        Err(VariantError::SignatureMismatch)
    );
    assert_eq!(
        ObjectPath::decode(&[0, 0, 0, 0, 0], "s"),
        Err(VariantError::SignatureMismatch)
    );
    assert_eq!(
        ObjectPath::decode(&[0, 0, 0], "o"),
        Err(VariantError::InsufficientData)
    );
    assert_eq!(
        ObjectPath::decode(&[2, 0, 0, 0, 0xC3, 0x28, 0], "o"),
        Err(VariantError::InvalidUtf8)
    );
}

#[test]
fn signature_round_trip() {
    for text in ["", "s", "a{sv}", "(iiav)", "yyyyuua(yv)"] {
        let sig = Signature::new(text).unwrap();
        assert_eq!(sig.as_str(), text);
        let bytes = sig.encode(7);
        assert_eq!(bytes.len(), text.len() + 2);
        let frame = Signature::extract_slice(&bytes, "g").unwrap();
        assert_eq!(frame.len(), bytes.len());
        assert_eq!(Signature::decode(frame, "g").unwrap().as_str(), text);
    }
}

#[test]
fn signature_errors() {
    assert_eq!(
        Signature::extract_slice(&[], "g"),
        Err(VariantError::InsufficientData)
    );
    assert_eq!(
        Signature::extract_slice(&[3, 0x61, 0x62], "g"),
        Err(VariantError::InsufficientData)
    );
    assert_eq!(
        Signature::extract_slice(&[0, 0], "s"),
        Err(VariantError::SignatureMismatch)
    );
    assert_eq!(Signature::decode(&[0], "g"), Err(VariantError::InsufficientData));
    assert_eq!(Signature::decode(&[], "g"), Err(VariantError::InsufficientData));
    assert_eq!(
        Signature::decode(&[1, 0x80, 0], "g"),
        Err(VariantError::InvalidSignature)
    );
    assert_eq!(
        Signature::decode(&[0, 0], "o"),
        Err(VariantError::SignatureMismatch)
    );
}

#[test]
fn a_text_outside_the_grammar_is_no_signature() {
    let invalid = Err(VariantError::InvalidSignature);
    for text in ["a", "(i", "{sv}", "z", "()", "a{s}", "i)", "é"] {
        assert_eq!(Signature::new(text), invalid, "{}", text);
    }
    assert_eq!(Signature::decode(&[0x01, 0x7A, 0x00], "g"), invalid);
    assert_eq!(Signature::decode(&[0x01, 0x61, 0x00], "g"), invalid);
    assert_eq!(Signature::decode(&[0x02, 0x28, 0x69, 0x00], "g"), invalid);
    assert_eq!(
        Signature::decode(&[0x01, 0x7A, 0x00], "s"),
        Err(VariantError::SignatureMismatch)
    );
    assert_eq!(Signature::decode(&[0x01, 0x79, 0x00], "g"), Signature::new("y"));
    assert_eq!(Signature::decode(&[0x00, 0x00], "g").unwrap().as_str(), "");
    assert_eq!(Signature::new("").unwrap().as_str(), "");
}

#[test]
fn signature_and_length_checks() {
    assert_eq!(ensure_correct_signature("s", 0x73), Ok(()));
    assert_eq!(
        ensure_correct_signature("o", 0x73),
        Err(VariantError::SignatureMismatch)
    );
    assert_eq!(
        ensure_correct_signature("", 0x73),
        Err(VariantError::SignatureMismatch)
    );
    assert_eq!(ensure_sufficient_bytes(&[1, 2, 3, 4], 4), Ok(()));
    assert_eq!(
        ensure_sufficient_bytes(&[1, 2, 3], 4),
        Err(VariantError::InsufficientData)
    );
}
