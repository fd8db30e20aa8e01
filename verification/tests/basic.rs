use zbus::array::{decode_basic_array, encode_basic_array};
use zbus::basic::{alignment, Basic};
use zbus::endian::Endian;
use zbus::error::VariantError;

fn samples() -> Vec<Basic> {
    vec![
        Basic::Byte(0),
        Basic::Byte(0xAB),
        Basic::Boolean(false),
        Basic::Boolean(true),
        Basic::Int16(0),
        Basic::Int16(-1),
        Basic::Int16(i16::MIN),
        Basic::Int16(i16::MAX),
        Basic::Uint16(0xBEEF),
        Basic::Int32(-2),
        Basic::Int32(i32::MIN),
        Basic::Int32(i32::MAX),
        Basic::Uint32(0xDEAD_BEEF),
        Basic::Int64(-3),
        Basic::Int64(i64::MIN),
        Basic::Int64(i64::MAX),
        Basic::Uint64(0x0102_0304_0506_0708),
        Basic::Uint64(u64::MAX),
        Basic::Double(0x4009_21FB_5444_2D18),
        Basic::UnixFd(7),
    ]
}

#[test]
fn fixed_size_values_round_trip_at_every_offset() {
    for order in [Endian::Little, Endian::Big] {
        for offset in 0..16usize {
            for v in samples() {
                let code = v.signature_code();
                let width = alignment(code).unwrap();
                let bytes = v.encode(offset, order);
                let pad = (width - offset % width) % width;
                assert_eq!(bytes.len(), pad + width);
                assert_eq!((offset + pad) % width, 0);
                assert!(bytes[..pad].iter().all(|b| *b == 0));
                assert_eq!(Basic::decode(code, &bytes[pad..], order), Ok(v));
                // What follows the value is of no concern.
                let mut longer = bytes[pad..].to_vec();
                longer.push(0xFF);
                assert_eq!(Basic::decode(code, &longer, order), Ok(v));
            }
        }
    }
}

#[test]
fn fixed_size_values_on_the_wire() {
    let le = Endian::Little;
    let be = Endian::Big;
    assert_eq!(Basic::Byte(0xAB).encode(3, le), vec![0xAB]);
    assert_eq!(Basic::Boolean(true).encode(0, le), vec![1, 0, 0, 0]);
    assert_eq!(Basic::Boolean(true).encode(0, be), vec![0, 0, 0, 1]);
    assert_eq!(Basic::Boolean(false).encode(2, be), vec![0, 0, 0, 0, 0, 0]);
    assert_eq!(Basic::Int16(-2).encode(0, le), vec![0xFE, 0xFF]);
    assert_eq!(Basic::Int16(-2).encode(1, be), vec![0, 0xFF, 0xFE]);
    assert_eq!(Basic::Uint16(0x1234).encode(0, le), vec![0x34, 0x12]);
    assert_eq!(Basic::Uint16(0x1234).encode(0, be), vec![0x12, 0x34]);
    assert_eq!(Basic::Int32(-1).encode(0, le), vec![0xFF; 4]);
    assert_eq!(Basic::Int32(i32::MIN).encode(0, be), vec![0x80, 0, 0, 0]);
    assert_eq!(Basic::Uint32(0x0102_0304).encode(5, le), vec![0, 0, 0, 4, 3, 2, 1]);
    assert_eq!(Basic::UnixFd(2).encode(0, be), vec![0, 0, 0, 2]);
    assert_eq!(
        Basic::Uint64(0x0102_0304_0506_0708).encode(0, le),
        vec![8, 7, 6, 5, 4, 3, 2, 1]
    );
    assert_eq!(
        Basic::Uint64(0x0102_0304_0506_0708).encode(4, be),
        vec![0, 0, 0, 0, 1, 2, 3, 4, 5, 6, 7, 8]
    );
    assert_eq!(Basic::Int64(-1).encode(0, be), vec![0xFF; 8]);
    assert_eq!(
        Basic::Double(0x3FF0_0000_0000_0000).encode(0, le),
        vec![0, 0, 0, 0, 0, 0, 0xF0, 0x3F]
    );
    assert_eq!(
        Basic::Double(0x3FF0_0000_0000_0000).encode(0, le),
        1.0f64.to_le_bytes().to_vec()
    );
}

#[test]
fn fixed_size_errors() {
    let le = Endian::Little;
    assert_eq!(Basic::decode(b'u', &[1, 2, 3], le), Err(VariantError::InsufficientData));
    assert_eq!(Basic::decode(b'y', &[], le), Err(VariantError::InsufficientData));
    assert_eq!(Basic::decode(b't', &[0; 7], le), Err(VariantError::InsufficientData));
    assert_eq!(Basic::decode(b'b', &[2, 0, 0, 0], le), Err(VariantError::InvalidData));
    assert_eq!(
        Basic::decode(b'b', &[1, 0, 0, 0], Endian::Big),
        Err(VariantError::InvalidData)
    );
    assert_eq!(Basic::decode(b'b', &[0, 1, 0, 0], le), Err(VariantError::InvalidData));
    for code in [b's', b'o', b'g', b'v', b'a', b'(', b'{', b'z', 0u8] {
        assert_eq!(Basic::decode(code, &[0; 8], le), Err(VariantError::SignatureMismatch));
        assert_eq!(alignment(code), None);
    }
}

#[test]
fn alignments() {
    let expected = [
        (b'y', 1),
        (b'b', 4),
        (b'n', 2),
        (b'q', 2),
        (b'i', 4),
        (b'u', 4),
        (b'x', 8),
        (b't', 8),
        (b'd', 8),
        (b'h', 4),
    ];
    for (code, width) in expected {
        assert_eq!(alignment(code), Some(width));
    }
    for v in samples() {
        assert!(alignment(v.signature_code()).is_some());
    }
}

#[test]
fn arrays_of_fixed_size_values() {
    let le = Endian::Little;
    let bytes = encode_basic_array(b'y', &[Basic::Byte(1), Basic::Byte(2), Basic::Byte(3)], 0, le);
    assert_eq!(bytes, Ok(vec![3, 0, 0, 0, 1, 2, 3]));
    let bytes = encode_basic_array(
        b'q',
        &[Basic::Uint16(0x0102), Basic::Uint16(0x0304)],
        0,
        Endian::Big,
    );
    assert_eq!(bytes, Ok(vec![0, 0, 0, 4, 1, 2, 3, 4]));
    let bytes = encode_basic_array(b't', &[Basic::Uint64(1)], 2, le);
    assert_eq!(
        bytes,
        Ok(vec![0, 0, 8, 0, 0, 0, 1, 0, 0, 0, 0, 0, 0, 0])
    );
    assert_eq!(encode_basic_array(b'x', &[], 0, le), Ok(vec![0, 0, 0, 0, 0, 0, 0, 0]));
    assert_eq!(encode_basic_array(b'i', &[], 0, le), Ok(vec![0, 0, 0, 0]));

    for order in [Endian::Little, Endian::Big] {
        for offset in 0..16usize {
            for code in [b'y', b'b', b'n', b'q', b'i', b'u', b'x', b't', b'd', b'h'] {
                let items: Vec<Basic> =
                    samples().into_iter().filter(|v| v.signature_code() == code).collect();
                assert!(!items.is_empty());
                let bytes = encode_basic_array(code, &items, offset, order).unwrap();
                let pad = (4 - offset % 4) % 4;
                assert_eq!(
                    decode_basic_array(code, &bytes[pad..], offset + pad, order),
                    Ok(items)
                );
                let empty = encode_basic_array(code, &[], offset, order).unwrap();
                assert_eq!(
                    decode_basic_array(code, &empty[pad..], offset + pad, order),
                    Ok(vec![])
                );
            }
        }
    }
}

#[test]
fn arrays_of_fixed_size_values_errors() {
    let le = Endian::Little;
    let mismatch = Err(VariantError::SignatureMismatch);
    assert_eq!(encode_basic_array(b's', &[], 0, le), mismatch);
    assert_eq!(
        encode_basic_array(b'u', &[Basic::Uint32(1), Basic::Int32(1)], 0, le),
        mismatch
    );
    assert_eq!(encode_basic_array(b'y', &[Basic::Boolean(true)], 0, le), mismatch);
    let many = vec![Basic::Uint64(0); 0x80_0000];
    assert_eq!(encode_basic_array(b't', &many, 0, le), Err(VariantError::InvalidData));
    assert!(encode_basic_array(b't', &many[1..], 0, le).is_ok());

    assert_eq!(decode_basic_array(b's', &[0, 0, 0, 0], 0, le), Err(VariantError::SignatureMismatch));
    assert_eq!(decode_basic_array(b'u', &[0, 0, 0], 0, le), Err(VariantError::InsufficientData));
    assert_eq!(
        decode_basic_array(b'u', &[8, 0, 0, 0, 1, 0, 0, 0], 0, le),
        Err(VariantError::InsufficientData)
    );
    // The contents end inside an element.
    assert_eq!(
        decode_basic_array(b'u', &[6, 0, 0, 0, 1, 0, 0, 0, 2, 0], 0, le),
        Err(VariantError::InvalidData)
    );
    assert_eq!(
        decode_basic_array(b'b', &[8, 0, 0, 0, 1, 0, 0, 0, 2, 0, 0, 0], 0, le),
        Err(VariantError::InvalidData)
    );
    assert_eq!(
        decode_basic_array(b'b', &[8, 0, 0, 0, 1, 0, 0, 0, 0, 0, 0, 0], 0, le),
        Ok(vec![Basic::Boolean(true), Basic::Boolean(false)])
    );
    assert_eq!(
        decode_basic_array(b'u', &[0, 0, 0, 4], 0, le),
        Err(VariantError::InvalidData)
    );
}
