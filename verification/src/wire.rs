//! Wire form of a message: the fixed header, the array of header fields,
//! padding to a multiple of eight, and the body.

use vstd::prelude::*;
use vstd::string::*;
use vstd::utf8::encode_utf8;
use vstd::slice::slice_subrange;
use crate::align::{padding, padding_for_n_bytes, push_zeros, zeros};
use crate::array::MAX_ARRAY_LEN;
use crate::endian::{read_u32, u32_bytes, u32_value, write_u32, Endian};
use crate::error::VariantError;
use crate::message::{
    checked_parts, parts_fit, text_of, FieldsView, MessageFields, MessageType, MessageView, PrimaryHeader,
    PROTOCOL_VERSION,
};
use crate::signature::{is_signature, OBJECT_PATH, SIGNATURE, STRING, UINT32};
use crate::string::{
    push_signature_frame, push_str_frame, read_signature_frame, read_str_frame,
    signature_decoding, signature_encoding, signature_extent, str_body, str_decoding, str_extent,
    take_signature_frame, take_str_frame,
};
use crate::text::push_bytes;

verus! {

/// First byte of a little-endian message, `l`.
pub const LITTLE_ENDIAN_CODE: u8 = 0x6c;

/// First byte of a big-endian message, `B`.
pub const BIG_ENDIAN_CODE: u8 = 0x42;

/// Code of the header field that holds the path.
pub const FIELD_PATH: u8 = 1;

/// Code of the header field that holds the interface.
pub const FIELD_INTERFACE: u8 = 2;

/// Code of the header field that holds the member.
pub const FIELD_MEMBER: u8 = 3;

/// Code of the header field that holds the name of the error.
pub const FIELD_ERROR_NAME: u8 = 4;

/// Code of the header field that holds the serial number answered.
pub const FIELD_REPLY_SERIAL: u8 = 5;

/// Code of the header field that holds the destination.
pub const FIELD_DESTINATION: u8 = 6;

/// Code of the header field that holds the sender.
pub const FIELD_SENDER: u8 = 7;

/// Code of the header field that holds the signature of the body.
pub const FIELD_SIGNATURE: u8 = 8;

/// Code of the header field that counts the file descriptors.
pub const FIELD_UNIX_FDS: u8 = 9;

/// Length of the fixed header with the length of the array of fields.
pub const HEAD_LEN: usize = 16;

/// The byte that declares the byte order.
pub open spec fn endian_code(e: Endian) -> u8 {
    match e {
        Endian::Little => LITTLE_ENDIAN_CODE,
        Endian::Big => BIG_ENDIAN_CODE,
    }
}

/// The byte that declares the kind of message.
pub open spec fn type_code(t: MessageType) -> u8 {
    match t {
        MessageType::MethodCall => 1,
        MessageType::MethodReturn => 2,
        MessageType::Error => 3,
        MessageType::Signal => 4,
    }
}

/// The type of the value of the header field with the given code: a path
/// is an object path, the serial number answered and the count of file
/// descriptors are 32-bit numbers, the signature is a signature, and the
/// others are strings.
pub open spec fn field_type(code: u8) -> u8 {
    if code == FIELD_PATH {
        OBJECT_PATH
    } else if code == FIELD_REPLY_SERIAL || code == FIELD_UNIX_FDS {
        UINT32
    } else if code == FIELD_SIGNATURE {
        SIGNATURE
    } else {
        STRING
    }
}

/// What stands before the value of a header field: its code and the
/// signature of the value, framed as a signature.
pub open spec fn field_head(code: u8) -> Seq<u8> {
    seq![code, 1u8, field_type(code), 0u8]
}

/// Wire form of a header field that holds text.
pub open spec fn text_field(code: u8, text: Seq<char>, e: Endian) -> Seq<u8> {
    field_head(code) + (if code == FIELD_SIGNATURE {
        signature_encoding(text)
    } else {
        str_body(text, e)
    })
}

/// Wire form of a header field that holds a number.
pub open spec fn number_field(code: u8, n: u32, e: Endian) -> Seq<u8> {
    field_head(code) + u32_bytes(n as int, e)
}

/// Wire form of a header field that may hold text.
pub open spec fn opt_text_field(code: u8, text: Option<Seq<char>>, e: Endian) -> Option<Seq<u8>> {
    match text {
        Some(t) => Some(text_field(code, t, e)),
        None => None,
    }
}

/// Wire form of a header field that may hold a number.
pub open spec fn opt_number_field(code: u8, n: Option<u32>, e: Endian) -> Option<Seq<u8>> {
    match n {
        Some(n) => Some(number_field(code, n, e)),
        None => None,
    }
}

/// The fields `acc` with one more field behind them, on a multiple of
/// eight.
pub open spec fn with_field(acc: Seq<u8>, field: Option<Seq<u8>>) -> Seq<u8> {
    match field {
        Some(f) => acc + zeros(padding(acc.len() as int, 8)) + f,
        None => acc,
    }
}

/// Wire form of the header fields: those that are there, in the order of
/// their codes, each on a multiple of eight.
#[verifier::opaque]
pub open spec fn fields_bytes(f: FieldsView, e: Endian) -> Seq<u8> {
    let a1 = with_field(Seq::<u8>::empty(), opt_text_field(FIELD_PATH, f.path, e));
    let a2 = with_field(a1, opt_text_field(FIELD_INTERFACE, f.interface, e));
    let a3 = with_field(a2, opt_text_field(FIELD_MEMBER, f.member, e));
    let a4 = with_field(a3, opt_text_field(FIELD_ERROR_NAME, f.error_name, e));
    let a5 = with_field(a4, opt_number_field(FIELD_REPLY_SERIAL, f.reply_serial, e));
    let a6 = with_field(a5, opt_text_field(FIELD_DESTINATION, f.destination, e));
    let a7 = with_field(a6, opt_text_field(FIELD_SENDER, f.sender, e));
    let a8 = with_field(a7, opt_text_field(FIELD_SIGNATURE, f.signature, e));
    with_field(a8, opt_number_field(FIELD_UNIX_FDS, f.unix_fds, e))
}

/// The first sixteen bytes of a message: byte order, kind, flags, version,
/// length of the body, serial number, length of the array of fields.
pub open spec fn head_bytes(p: PrimaryHeader, fields_len: int) -> Seq<u8> {
    seq![endian_code(p.endian), type_code(p.msg_type), p.flags, p.protocol_version] + u32_bytes(
        p.body_len as int,
        p.endian,
    ) + u32_bytes(p.serial_num as int, p.endian) + u32_bytes(fields_len, p.endian)
}

/// Wire form of a message.
pub open spec fn message_bytes(m: MessageView) -> Seq<u8> {
    let fields = fields_bytes(m.fields, m.primary.endian);
    head_bytes(m.primary, fields.len() as int) + fields + zeros(
        padding(HEAD_LEN + fields.len(), 8),
    ) + m.body
}

/// Whether a message has a wire form: its header fields take fewer than
/// 2^26 bytes and the signature of its body fits a length of one byte.
pub open spec fn encodable(m: MessageView) -> bool {
    &&& fields_bytes(m.fields, m.primary.endian).len() < MAX_ARRAY_LEN
    &&& m.fields.signature matches Some(s) ==> encode_utf8(s).len() <= 0xFF
}

/// The byte that declares the byte order.
pub fn endian_byte(e: Endian) -> (c: u8)
    ensures
        c == endian_code(e),
{
    match e {
        Endian::Little => LITTLE_ENDIAN_CODE,
        Endian::Big => BIG_ENDIAN_CODE,
    }
}

/// The byte that declares the kind of message.
pub fn type_byte(t: MessageType) -> (c: u8)
    ensures
        c == type_code(t),
{
    match t {
        MessageType::MethodCall => 1,
        MessageType::MethodReturn => 2,
        MessageType::Error => 3,
        MessageType::Signal => 4,
    }
}

/// The type of the value of the header field with the given code.
fn field_type_of(code: u8) -> (t: u8)
    ensures
        t == field_type(code),
{
    if code == FIELD_PATH {
        OBJECT_PATH
    } else if code == FIELD_REPLY_SERIAL || code == FIELD_UNIX_FDS {
        UINT32
    } else if code == FIELD_SIGNATURE {
        SIGNATURE
    } else {
        STRING
    }
}

/// Appends padding to a multiple of eight, the code of a field and the
/// signature of its value.
fn push_field_head(out: &mut Vec<u8>, code: u8)
    ensures
        final(out)@ == old(out)@ + zeros(padding(old(out)@.len() as int, 8)) + field_head(code),
{
    let pad: usize = padding_for_n_bytes(out.len(), 8);
    push_zeros(out, pad);
    out.push(code);
    out.push(1u8);
    out.push(field_type_of(code));
    out.push(0u8);
    assert(out@ =~= old(out)@ + zeros(padding(old(out)@.len() as int, 8)) + field_head(code));
}

/// Appends a header field that may hold text.
fn push_text_field(out: &mut Vec<u8>, code: u8, text: &Option<String>, e: Endian)
    ensures
        final(out)@ == with_field(old(out)@, opt_text_field(code, text_of(*text), e)),
{
    match text {
        Some(t) => {
            push_field_head(out, code);
            if code == FIELD_SIGNATURE {
                push_signature_frame(out, t.as_str());
            } else {
                push_str_frame(out, t.as_str(), e);
            }
            assert(out@ =~= with_field(old(out)@, opt_text_field(code, text_of(*text), e)));
        },
        None => {},
    }
}

/// Appends a header field that may hold a number.
fn push_number_field(out: &mut Vec<u8>, code: u8, n: Option<u32>, e: Endian)
    ensures
        final(out)@ == with_field(old(out)@, opt_number_field(code, n, e)),
{
    match n {
        Some(n) => {
            push_field_head(out, code);
            write_u32(out, n, e);
            assert(out@ =~= with_field(old(out)@, opt_number_field(code, Some(n), e)));
        },
        None => {},
    }
}

/// Encodes the header fields.
pub fn encode_fields(fields: &MessageFields, e: Endian) -> (out: Vec<u8>)
    ensures
        out@ == fields_bytes(fields@, e),
{
    proof {
        reveal(fields_bytes);
    }
    let mut out: Vec<u8> = Vec::new();
    push_text_field(&mut out, FIELD_PATH, &fields.path, e);
    push_text_field(&mut out, FIELD_INTERFACE, &fields.interface, e);
    push_text_field(&mut out, FIELD_MEMBER, &fields.member, e);
    push_text_field(&mut out, FIELD_ERROR_NAME, &fields.error_name, e);
    push_number_field(&mut out, FIELD_REPLY_SERIAL, fields.reply_serial, e);
    push_text_field(&mut out, FIELD_DESTINATION, &fields.destination, e);
    push_text_field(&mut out, FIELD_SENDER, &fields.sender, e);
    push_text_field(&mut out, FIELD_SIGNATURE, &fields.signature, e);
    push_number_field(&mut out, FIELD_UNIX_FDS, fields.unix_fds, e);
    out
}

/// Encodes a message, or refuses it where it has no wire form.
#[verifier::rlimit(30)]
pub fn encode_message(primary: &PrimaryHeader, fields: &MessageFields, body: &[u8]) -> (r: Result<
    Vec<u8>,
    VariantError,
>)
    ensures
        ({
            let m = MessageView {
                primary: *primary,
                fields: fields@,
                body: body@,
                fds: Seq::empty(),
            };
            if encodable(m) {
                r matches Ok(bytes) && bytes@ == message_bytes(m)
            } else {
                r matches Err(err) && err == VariantError::InvalidData
            }
        }),
{
    let e: Endian = primary.endian;
    let encoded: Vec<u8> = encode_fields(fields, e);
    if encoded.len() >= MAX_ARRAY_LEN {
        return Err(VariantError::InvalidData);
    }
    match &fields.signature {
        Some(s) => {
            if s.as_str().as_bytes().len() > 0xFF {
                return Err(VariantError::InvalidData);
            }
        },
        None => {},
    }
    let mut out: Vec<u8> = Vec::new();
    out.push(endian_byte(e));
    out.push(type_byte(primary.msg_type));
    out.push(primary.flags);
    out.push(primary.protocol_version);
    write_u32(&mut out, primary.body_len, e);
    write_u32(&mut out, primary.serial_num, e);
    write_u32(&mut out, encoded.len() as u32, e);
    assert(out@ =~= head_bytes(*primary, encoded@.len() as int));
    push_bytes(&mut out, encoded.as_slice());
    push_zeros(&mut out, padding_for_n_bytes(HEAD_LEN + encoded.len(), 8));
    push_bytes(&mut out, body);
    Ok(out)
}

/// The byte order that the first byte of a message declares, if it
/// declares one.
pub open spec fn endian_of(code: u8) -> Option<Endian> {
    if code == LITTLE_ENDIAN_CODE {
        Some(Endian::Little)
    } else if code == BIG_ENDIAN_CODE {
        Some(Endian::Big)
    } else {
        None
    }
}

/// The kind of message that the second byte of a message declares, if it
/// declares one.
pub open spec fn type_of(code: u8) -> Option<MessageType> {
    if code == 1 {
        Some(MessageType::MethodCall)
    } else if code == 2 {
        Some(MessageType::MethodReturn)
    } else if code == 3 {
        Some(MessageType::Error)
    } else if code == 4 {
        Some(MessageType::Signal)
    } else {
        None
    }
}

/// The fixed header at the front of `bytes` and the length of the array of
/// fields behind it. Byte order and kind must be known, the version must
/// be the one spoken here, and the fields must take fewer than 2^26 bytes.
pub open spec fn parse_head(bytes: Seq<u8>) -> Result<(PrimaryHeader, int), VariantError> {
    if bytes.len() < HEAD_LEN {
        Err(VariantError::InsufficientData)
    } else if endian_of(bytes[0]) is None || type_of(bytes[1]) is None || bytes[3]
        != PROTOCOL_VERSION {
        Err(VariantError::InvalidData)
    } else {
        let e = endian_of(bytes[0]).unwrap();
        if u32_value(bytes.subrange(12, 16), e) >= MAX_ARRAY_LEN {
            Err(VariantError::InvalidData)
        } else {
            Ok(
                (
                    PrimaryHeader {
                        endian: e,
                        msg_type: type_of(bytes[1]).unwrap(),
                        flags: bytes[2],
                        protocol_version: bytes[3],
                        body_len: u32_value(bytes.subrange(4, 8), e) as u32,
                        serial_num: u32_value(bytes.subrange(8, 12), e) as u32,
                    },
                    u32_value(bytes.subrange(12, 16), e),
                ),
            )
        }
    }
}

/// Length of a whole message: the first sixteen bytes, the fields, the
/// padding to a multiple of eight, the body.
pub open spec fn total_len(body_len: int, fields_len: int) -> int {
    HEAD_LEN + fields_len + padding(HEAD_LEN + fields_len, 8) + body_len
}

/// No field at all.
pub open spec fn no_fields() -> FieldsView {
    FieldsView {
        path: None,
        interface: None,
        member: None,
        error_name: None,
        reply_serial: None,
        destination: None,
        sender: None,
        signature: None,
        unix_fds: None,
    }
}

/// `f` with the text of the field `code` set, where the field holds text
/// and is not set yet.
pub open spec fn set_text(f: FieldsView, code: u8, text: Seq<char>) -> Option<FieldsView> {
    if code == FIELD_PATH && f.path is None {
        Some(FieldsView { path: Some(text), ..f })
    } else if code == FIELD_INTERFACE && f.interface is None {
        Some(FieldsView { interface: Some(text), ..f })
    } else if code == FIELD_MEMBER && f.member is None {
        Some(FieldsView { member: Some(text), ..f })
    } else if code == FIELD_ERROR_NAME && f.error_name is None {
        Some(FieldsView { error_name: Some(text), ..f })
    } else if code == FIELD_DESTINATION && f.destination is None {
        Some(FieldsView { destination: Some(text), ..f })
    } else if code == FIELD_SENDER && f.sender is None {
        Some(FieldsView { sender: Some(text), ..f })
    } else if code == FIELD_SIGNATURE && f.signature is None {
        Some(FieldsView { signature: Some(text), ..f })
    } else {
        None
    }
}

/// `f` with the number of the field `code` set, where the field holds a
/// number and is not set yet.
pub open spec fn set_number(f: FieldsView, code: u8, n: u32) -> Option<FieldsView> {
    if code == FIELD_REPLY_SERIAL && f.reply_serial is None {
        Some(FieldsView { reply_serial: Some(n), ..f })
    } else if code == FIELD_UNIX_FDS && f.unix_fds is None {
        Some(FieldsView { unix_fds: Some(n), ..f })
    } else {
        None
    }
}

/// The text of a field: what the frame at the head of `rest` holds, and
/// the length of that frame.
pub open spec fn field_text(code: u8, rest: Seq<u8>, e: Endian) -> Result<
    (Seq<char>, int),
    VariantError,
> {
    if code == FIELD_SIGNATURE {
        match signature_extent(rest) {
            Err(err) => Err(err),
            Ok(n) => match signature_decoding(rest.subrange(0, n)) {
                Err(err) => Err(err),
                Ok(text) => Ok((text, n)),
            },
        }
    } else {
        match str_extent(rest, e) {
            Err(err) => Err(err),
            Ok(n) => match str_decoding(rest.subrange(0, n)) {
                Err(err) => Err(err),
                Ok(text) => Ok((text, n)),
            },
        }
    }
}

/// The header field that starts at `start` and ends before `end`: the
/// fields with this one set, and where it ends. Its code must be known,
/// its value of the type that belongs to the code, and no field may come
/// twice.
pub open spec fn parse_field(bytes: Seq<u8>, start: int, end: int, acc: FieldsView, e: Endian)
    -> Result<(FieldsView, int), VariantError> {
    if start + 4 > end {
        Err(VariantError::InsufficientData)
    } else {
        let code = bytes[start];
        if code < FIELD_PATH || code > FIELD_UNIX_FDS || bytes[start + 1] != 1 || bytes[start + 2]
            != field_type(code) || bytes[start + 3] != 0 {
            Err(VariantError::InvalidData)
        } else {
            let rest = bytes.subrange(start + 4, end);
            if field_type(code) == UINT32 {
                if rest.len() < 4 {
                    Err(VariantError::InsufficientData)
                } else {
                    match set_number(acc, code, u32_value(rest, e) as u32) {
                        Some(f) => Ok((f, start + 8)),
                        None => Err(VariantError::InvalidData),
                    }
                }
            } else {
                match field_text(code, rest, e) {
                    Err(err) => Err(err),
                    Ok((text, n)) => match set_text(acc, code, text) {
                        Some(f) => Ok((f, start + 4 + n)),
                        None => Err(VariantError::InvalidData),
                    },
                }
            }
        }
    }
}

/// The header fields between `p` and `end`, added to `acc`: one field
/// after another, each on a multiple of eight.
pub open spec fn parse_fields(bytes: Seq<u8>, p: int, end: int, acc: FieldsView, e: Endian)
    -> Result<FieldsView, VariantError>
    decreases end - p,
{
    if p >= end {
        Ok(acc)
    } else {
        match parse_field(bytes, p + padding(p, 8), end, acc, e) {
            Err(err) => Err(err),
            Ok((f, next)) => if next <= p || next > end {
                Err(VariantError::InvalidData)
            } else {
                parse_fields(bytes, next, end, f, e)
            },
        }
    }
}

/// The message that `bytes` are, with the file descriptors `fds` that
/// came with them. The bytes must be exactly one message, and its parts
/// must fit together.
pub open spec fn parse_message(bytes: Seq<u8>, fds: Seq<i32>) -> Result<MessageView, VariantError> {
    match parse_head(bytes) {
        Err(err) => Err(err),
        Ok((primary, fields_len)) => {
            let total = total_len(primary.body_len as int, fields_len);
            if bytes.len() < total {
                Err(VariantError::InsufficientData)
            } else if bytes.len() > total {
                Err(VariantError::InvalidData)
            } else {
                match parse_fields(bytes, HEAD_LEN as int, HEAD_LEN + fields_len, no_fields(), primary.endian) {
                    Err(err) => Err(err),
                    Ok(fields) => checked_parts(
                        MessageView {
                            primary: primary,
                            fields: fields,
                            body: bytes.subrange(total - primary.body_len, total),
                            fds: fds,
                        },
                    ),
                }
            }
        },
    }
}

/// Reads the fixed header and the length of the array of fields.
pub fn decode_head(bytes: &[u8]) -> (r: Result<(PrimaryHeader, usize), VariantError>)
    ensures
        match parse_head(bytes@) {
            Ok((primary, fields_len)) => r matches Ok((p, n)) && p == primary && n
                == fields_len,
            Err(err) => r matches Err(got) && got == err,
        },
{
    if bytes.len() < HEAD_LEN {
        return Err(VariantError::InsufficientData);
    }
    let e: Endian = if bytes[0] == LITTLE_ENDIAN_CODE {
        Endian::Little
    } else if bytes[0] == BIG_ENDIAN_CODE {
        Endian::Big
    } else {
        return Err(VariantError::InvalidData);
    };
    let t: MessageType = if bytes[1] == 1 {
        MessageType::MethodCall
    } else if bytes[1] == 2 {
        MessageType::MethodReturn
    } else if bytes[1] == 3 {
        MessageType::Error
    } else if bytes[1] == 4 {
        MessageType::Signal
    } else {
        return Err(VariantError::InvalidData);
    };
    if bytes[3] != PROTOCOL_VERSION {
        return Err(VariantError::InvalidData);
    }
    let fields_len: u32 = read_u32(slice_subrange(bytes, 12, 16), e);
    if fields_len as u64 >= MAX_ARRAY_LEN as u64 {
        return Err(VariantError::InvalidData);
    }
    Ok(
        (
            PrimaryHeader {
                endian: e,
                msg_type: t,
                flags: bytes[2],
                protocol_version: bytes[3],
                body_len: read_u32(slice_subrange(bytes, 4, 8), e),
                serial_num: read_u32(slice_subrange(bytes, 8, 12), e),
            },
            fields_len as usize,
        ),
    )
}

/// Length of the whole message whose first bytes `bytes` are, once at
/// least sixteen of them are there.
pub fn message_length(bytes: &[u8]) -> (r: Result<u64, VariantError>)
    ensures
        match parse_head(bytes@) {
            Ok((primary, fields_len)) => r matches Ok(n) && n == total_len(
                primary.body_len as int,
                fields_len,
            ),
            Err(err) => r matches Err(got) && got == err,
        },
{
    match decode_head(bytes) {
        Ok((primary, fields_len)) => {
            let fields_end: usize = HEAD_LEN + fields_len;
            let pad: usize = padding_for_n_bytes(fields_end, 8);
            Ok(fields_end as u64 + pad as u64 + primary.body_len as u64)
        },
        Err(err) => Err(err),
    }
}

/// Sets the text of a header field that is not set yet.
fn store_text(fields: &mut MessageFields, code: u8, text: &str) -> (ok: bool)
    ensures
        match set_text(old(fields)@, code, text@) {
            Some(f) => ok && final(fields)@ == f,
            None => !ok && final(fields)@ == old(fields)@,
        },
{
    if code == FIELD_PATH && fields.path.is_none() {
        fields.path = Some(String::from_str(text));
        true
    } else if code == FIELD_INTERFACE && fields.interface.is_none() {
        fields.interface = Some(String::from_str(text));
        true
    } else if code == FIELD_MEMBER && fields.member.is_none() {
        fields.member = Some(String::from_str(text));
        true
    } else if code == FIELD_ERROR_NAME && fields.error_name.is_none() {
        fields.error_name = Some(String::from_str(text));
        true
    } else if code == FIELD_DESTINATION && fields.destination.is_none() {
        fields.destination = Some(String::from_str(text));
        true
    } else if code == FIELD_SENDER && fields.sender.is_none() {
        fields.sender = Some(String::from_str(text));
        true
    } else if code == FIELD_SIGNATURE && fields.signature.is_none() {
        fields.signature = Some(String::from_str(text));
        true
    } else {
        false
    }
}

/// Sets the number of a header field that is not set yet.
fn store_number(fields: &mut MessageFields, code: u8, n: u32) -> (ok: bool)
    ensures
        match set_number(old(fields)@, code, n) {
            Some(f) => ok && final(fields)@ == f,
            None => !ok && final(fields)@ == old(fields)@,
        },
{
    if code == FIELD_REPLY_SERIAL && fields.reply_serial.is_none() {
        fields.reply_serial = Some(n);
        true
    } else if code == FIELD_UNIX_FDS && fields.unix_fds.is_none() {
        fields.unix_fds = Some(n);
        true
    } else {
        false
    }
}

/// Reads the header field that starts at `start` into `fields` and hands
/// back where it ends.
#[verifier::rlimit(30)]
fn decode_field(bytes: &[u8], start: usize, end: usize, fields: &mut MessageFields, e: Endian)
    -> (r: Result<usize, VariantError>)
    requires
        start <= end <= bytes@.len(),
    ensures
        match parse_field(bytes@, start as int, end as int, old(fields)@, e) {
            Ok((f, next)) => r matches Ok(n) && n == next && final(fields)@ == f && start < n
                <= end,
            Err(err) => r matches Err(got) && got == err,
        },
{
    if end - start < 4 {
        return Err(VariantError::InsufficientData);
    }
    let code: u8 = bytes[start];
    if code < FIELD_PATH || code > FIELD_UNIX_FDS || bytes[start + 1] != 1 || bytes[start + 2]
        != field_type_of(code) || bytes[start + 3] != 0 {
        return Err(VariantError::InvalidData);
    }
    let rest = slice_subrange(bytes, start + 4, end);
    if field_type_of(code) == UINT32 {
        if rest.len() < 4 {
            return Err(VariantError::InsufficientData);
        }
        if store_number(fields, code, read_u32(rest, e)) {
            Ok(start + 8)
        } else {
            Err(VariantError::InvalidData)
        }
    } else {
        let frame = if code == FIELD_SIGNATURE {
            match take_signature_frame(rest) {
                Ok(frame) => frame,
                Err(err) => {
                    return Err(err);
                },
            }
        } else {
            match take_str_frame(rest, e) {
                Ok(frame) => frame,
                Err(err) => {
                    return Err(err);
                },
            }
        };
        let text = if code == FIELD_SIGNATURE {
            match read_signature_frame(frame) {
                Ok(text) => text,
                Err(err) => {
                    return Err(err);
                },
            }
        } else {
            match read_str_frame(frame) {
                Ok(text) => text,
                Err(err) => {
                    return Err(err);
                },
            }
        };
        if store_text(fields, code, text) {
            Ok(start + 4 + frame.len())
        } else {
            Err(VariantError::InvalidData)
        }
    }
}

/// Reads the header fields between `from` and `end`.
#[verifier::rlimit(30)]
fn decode_fields(bytes: &[u8], from: usize, end: usize, e: Endian) -> (r: Result<
    MessageFields,
    VariantError,
>)
    requires
        from <= end <= bytes@.len(),
        end + 8 <= usize::MAX,
    ensures
        match parse_fields(bytes@, from as int, end as int, no_fields(), e) {
            Ok(f) => r matches Ok(fields) && fields@ == f,
            Err(err) => r matches Err(got) && got == err,
        },
{
    let mut fields: MessageFields = MessageFields::empty();
    let mut p: usize = from;
    while p < end
        invariant
            from <= p <= end <= bytes@.len(),
            end + 8 <= usize::MAX,
            parse_fields(bytes@, from as int, end as int, no_fields(), e) == parse_fields(
                bytes@,
                p as int,
                end as int,
                fields@,
                e,
            ),
        decreases end - p,
    {
        let start: usize = p + padding_for_n_bytes(p, 8);
        if start > end {
            return Err(VariantError::InsufficientData);
        }
        match decode_field(bytes, start, end, &mut fields, e) {
            Ok(next) => {
                p = next;
            },
            Err(err) => {
                return Err(err);
            },
        }
    }
    Ok(fields)
}

/// Takes a message apart: its fixed header, its header fields and its
/// body. The bytes must be exactly one message.
#[verifier::rlimit(30)]
pub fn decode_message(bytes: &[u8]) -> (r: Result<(PrimaryHeader, MessageFields, Vec<u8>), VariantError>)
    ensures
        match parse_head(bytes@) {
            Err(err) => r matches Err(got) && got == err,
            Ok((primary, fields_len)) => {
                let total = total_len(primary.body_len as int, fields_len);
                if bytes@.len() < total {
                    r matches Err(got) && got == VariantError::InsufficientData
                } else if bytes@.len() > total {
                    r matches Err(got) && got == VariantError::InvalidData
                } else {
                    match parse_fields(
                        bytes@,
                        HEAD_LEN as int,
                        HEAD_LEN + fields_len,
                        no_fields(),
                        primary.endian,
                    ) {
                        Err(err) => r matches Err(got) && got == err,
                        Ok(f) => r matches Ok((p, fields, body)) && p == primary && fields@
                            == f && body@ == bytes@.subrange(total - primary.body_len, total),
                    }
                }
            },
        },
{
    let (primary, fields_len) = match decode_head(bytes) {
        Ok(head) => head,
        Err(err) => {
            return Err(err);
        },
    };
    let fields_end: usize = HEAD_LEN + fields_len;
    let pad: usize = padding_for_n_bytes(fields_end, 8);
    let total: u64 = fields_end as u64 + pad as u64 + primary.body_len as u64;
    if (bytes.len() as u64) < total {
        return Err(VariantError::InsufficientData);
    }
    if bytes.len() as u64 > total {
        return Err(VariantError::InvalidData);
    }
    let fields = match decode_fields(bytes, HEAD_LEN, fields_end, primary.endian) {
        Ok(fields) => fields,
        Err(err) => {
            return Err(err);
        },
    };
    let mut body: Vec<u8> = Vec::new();
    push_bytes(&mut body, slice_subrange(bytes, fields_end + pad, bytes.len()));
    assert(body@ =~= bytes@.subrange(total - primary.body_len, total as int));
    Ok((primary, fields, body))
}

/// Whether `a` is the front of `b`.
pub open spec fn is_front(a: Seq<u8>, b: Seq<u8>) -> bool {
    a.len() <= b.len() && b.subrange(0, a.len() as int) == a
}

/// A string frame is found again at the head of any bytes that start
/// with it, and holds its text.
proof fn lemma_str_frame_at_head(text: Seq<char>, tail: Seq<u8>, e: Endian)
    requires
        encode_utf8(text).len() <= 0xFFFF_FFFF,
    ensures
        str_extent(str_body(text, e) + tail, e) == Ok::<int, VariantError>(
            str_body(text, e).len() as int,
        ),
        str_decoding(str_body(text, e)) == Ok::<Seq<char>, VariantError>(text),
        str_body(text, e).len() == encode_utf8(text).len() + 5,
{
    crate::string::lemma_str_roundtrip(text, 0, e);
    let frame = str_body(text, e);
    let rest = frame + tail;
    crate::align::lemma_padding_aligns(0, 4);
    assert(crate::string::str_encoding(text, 0, e).skip(0) =~= frame);
    assert(frame.len() >= 4);
    assert(rest[0] == frame[0] && rest[1] == frame[1] && rest[2] == frame[2] && rest[3]
        == frame[3]);
    assert(u32_value(rest, e) == u32_value(frame, e));
}

/// A signature frame is found again at the head of any bytes that start
/// with it, and holds its text.
proof fn lemma_signature_frame_at_head(text: Seq<char>, tail: Seq<u8>)
    requires
        is_signature(encode_utf8(text)),
        encode_utf8(text).len() <= 0xFF,
    ensures
        signature_extent(signature_encoding(text) + tail) == Ok::<int, VariantError>(
            signature_encoding(text).len() as int,
        ),
        signature_decoding(signature_encoding(text)) == Ok::<Seq<char>, VariantError>(text),
        signature_encoding(text).len() == encode_utf8(text).len() + 2,
{
    crate::string::lemma_signature_roundtrip(text);
    let frame = signature_encoding(text);
    assert((frame + tail)[0] == frame[0]);
}

/// Where a field stands that was written behind the fields `a`.
pub open spec fn field_start(a: Seq<u8>) -> int {
    HEAD_LEN + a.len() + padding(HEAD_LEN + a.len(), 8)
}

/// A field that was written behind the fields `a` stands in the message
/// where reading looks for it; what was there before is still the front
/// of all fields.
#[verifier::rlimit(30)]
proof fn lemma_field_located(bytes: Seq<u8>, end: int, a: Seq<u8>, field: Seq<u8>)
    requires
        HEAD_LEN <= end <= bytes.len(),
        field.len() >= 4,
        is_front(with_field(a, Some(field)), bytes.subrange(HEAD_LEN as int, end)),
    ensures
        is_front(a, bytes.subrange(HEAD_LEN as int, end)),
        field_start(a) + field.len() == HEAD_LEN + with_field(a, Some(field)).len(),
        field_start(a) + field.len() <= end,
        bytes[field_start(a)] == field[0],
        bytes[field_start(a) + 1] == field[1],
        bytes[field_start(a) + 2] == field[2],
        bytes[field_start(a) + 3] == field[3],
        bytes.subrange(field_start(a) + 4, end) == field.skip(4) + bytes.subrange(
            field_start(a) + field.len(),
            end,
        ),
{
    let region = bytes.subrange(HEAD_LEN as int, end);
    let pad = padding(a.len() as int, 8);
    crate::align::lemma_padding_aligns(a.len() as int, 8);
    crate::align::lemma_padding_aligns(HEAD_LEN + a.len(), 8);
    assert(padding(HEAD_LEN + a.len(), 8) == pad) by {
        assert((16 + a.len()) % 8 == a.len() % 8) by (nonlinear_arith);
    }
    let after = a + zeros(pad) + field;
    assert(after == with_field(a, Some(field)));
    let start = field_start(a);
    assert(after.subrange(0, a.len() as int) =~= a);
    assert(region.subrange(0, a.len() as int) =~= region.subrange(0, after.len() as int).subrange(
        0,
        a.len() as int,
    ));
    assert forall|i: int| 0 <= i < field.len() implies bytes[start + i] == field[i] by {
        assert(region.subrange(0, after.len() as int)[a.len() + pad + i] == after[a.len() + pad
            + i]);
    }
    assert(bytes[start + 0] == field[0]);
    let rest = bytes.subrange(start + 4, end);
    let tail = bytes.subrange(start + field.len(), end);
    assert(rest =~= field.skip(4) + tail) by {
        assert forall|i: int| 0 <= i < field.len() - 4 implies rest[i] == field.skip(4)[i] by {
            assert(bytes[start + (4 + i)] == field[4 + i]);
        }
    }
}

/// A field that holds a string or an object path is read back.
#[verifier::rlimit(30)]
proof fn lemma_str_field_read_back(
    bytes: Seq<u8>,
    end: int,
    a: Seq<u8>,
    code: u8,
    text: Seq<char>,
    acc: FieldsView,
    e: Endian,
)
    requires
        FIELD_PATH <= code <= FIELD_UNIX_FDS,
        field_type(code) == STRING || field_type(code) == OBJECT_PATH,
        HEAD_LEN <= end <= bytes.len(),
        end - HEAD_LEN < MAX_ARRAY_LEN,
        is_front(
            with_field(a, Some(text_field(code, text, e))),
            bytes.subrange(HEAD_LEN as int, end),
        ),
    ensures
        is_front(a, bytes.subrange(HEAD_LEN as int, end)),
        parse_field(bytes, field_start(a), end, acc, e) == (match set_text(acc, code, text) {
            Some(f) => Ok::<(FieldsView, int), VariantError>(
                (f, HEAD_LEN + with_field(a, Some(text_field(code, text, e))).len()),
            ),
            None => Err::<(FieldsView, int), VariantError>(VariantError::InvalidData),
        }),
        HEAD_LEN + a.len() < HEAD_LEN + with_field(a, Some(text_field(code, text, e))).len()
            <= end,
{
    let field = text_field(code, text, e);
    let frame = str_body(text, e);
    assert(field.skip(4) =~= frame);
    assert(u32_bytes((encode_utf8(text).len() % 0x1_0000_0000) as int, e).len() == 4);
    assert(frame.len() == encode_utf8(text).len() + 5);
    lemma_field_located(bytes, end, a, field);
    let rest = bytes.subrange(field_start(a) + 4, end);
    let tail = bytes.subrange(field_start(a) + field.len(), end);
    lemma_str_frame_at_head(text, tail, e);
    assert(rest.subrange(0, frame.len() as int) =~= frame);
    crate::align::lemma_padding_aligns(HEAD_LEN + a.len(), 8);
}

/// The field that holds the signature of the body is read back.
#[verifier::rlimit(30)]
proof fn lemma_signature_field_read_back(
    bytes: Seq<u8>,
    end: int,
    a: Seq<u8>,
    text: Seq<char>,
    acc: FieldsView,
    e: Endian,
)
    requires
        HEAD_LEN <= end <= bytes.len(),
        is_signature(encode_utf8(text)),
        encode_utf8(text).len() <= 0xFF,
        is_front(
            with_field(a, Some(text_field(FIELD_SIGNATURE, text, e))),
            bytes.subrange(HEAD_LEN as int, end),
        ),
    ensures
        is_front(a, bytes.subrange(HEAD_LEN as int, end)),
        parse_field(bytes, field_start(a), end, acc, e) == (match set_text(
            acc,
            FIELD_SIGNATURE,
            text,
        ) {
            Some(f) => Ok::<(FieldsView, int), VariantError>(
                (f, HEAD_LEN + with_field(a, Some(text_field(FIELD_SIGNATURE, text, e))).len()),
            ),
            None => Err::<(FieldsView, int), VariantError>(VariantError::InvalidData),
        }),
        HEAD_LEN + a.len() < HEAD_LEN + with_field(
            a,
            Some(text_field(FIELD_SIGNATURE, text, e)),
        ).len() <= end,
{
    let field = text_field(FIELD_SIGNATURE, text, e);
    let frame = signature_encoding(text);
    assert(field.skip(4) =~= frame);
    lemma_field_located(bytes, end, a, field);
    let rest = bytes.subrange(field_start(a) + 4, end);
    let tail = bytes.subrange(field_start(a) + field.len(), end);
    lemma_signature_frame_at_head(text, tail);
    assert(rest.subrange(0, frame.len() as int) =~= frame);
    crate::align::lemma_padding_aligns(HEAD_LEN + a.len(), 8);
}

/// A field that holds a number is read back.
#[verifier::rlimit(30)]
proof fn lemma_number_field_read_back(
    bytes: Seq<u8>,
    end: int,
    a: Seq<u8>,
    code: u8,
    n: u32,
    acc: FieldsView,
    e: Endian,
)
    requires
        code == FIELD_REPLY_SERIAL || code == FIELD_UNIX_FDS,
        HEAD_LEN <= end <= bytes.len(),
        is_front(
            with_field(a, Some(number_field(code, n, e))),
            bytes.subrange(HEAD_LEN as int, end),
        ),
    ensures
        is_front(a, bytes.subrange(HEAD_LEN as int, end)),
        parse_field(bytes, field_start(a), end, acc, e) == (match set_number(acc, code, n) {
            Some(f) => Ok::<(FieldsView, int), VariantError>(
                (f, HEAD_LEN + with_field(a, Some(number_field(code, n, e))).len()),
            ),
            None => Err::<(FieldsView, int), VariantError>(VariantError::InvalidData),
        }),
        HEAD_LEN + a.len() < HEAD_LEN + with_field(a, Some(number_field(code, n, e))).len()
            <= end,
{
    let field = number_field(code, n, e);
    let value = u32_bytes(n as int, e);
    crate::endian::lemma_u32_roundtrip(n as int, e);
    assert(field.skip(4) =~= value);
    lemma_field_located(bytes, end, a, field);
    let rest = bytes.subrange(field_start(a) + 4, end);
    assert(rest[0] == value[0] && rest[1] == value[1] && rest[2] == value[2] && rest[3]
        == value[3]);
    assert(u32_value(rest, e) == u32_value(value, e));
    crate::align::lemma_padding_aligns(HEAD_LEN + a.len(), 8);
}

/// Reading the fields from behind `a` on is reading them from behind the
/// next field on, with that field set; and `a` is still the front of all
/// fields.
proof fn lemma_text_step(
    bytes: Seq<u8>,
    end: int,
    a: Seq<u8>,
    code: u8,
    text: Option<Seq<char>>,
    acc: FieldsView,
    e: Endian,
)
    requires
        FIELD_PATH <= code <= FIELD_UNIX_FDS,
        field_type(code) != UINT32,
        HEAD_LEN <= end <= bytes.len(),
        end - HEAD_LEN < MAX_ARRAY_LEN,
        text matches Some(t) ==> set_text(acc, code, t) is Some,
        code == FIELD_SIGNATURE && text is Some ==> encode_utf8(text.unwrap()).len() <= 0xFF
            && is_signature(encode_utf8(text.unwrap())),
        is_front(with_field(a, opt_text_field(code, text, e)), bytes.subrange(HEAD_LEN as int, end)),
    ensures
        is_front(a, bytes.subrange(HEAD_LEN as int, end)),
        parse_fields(bytes, HEAD_LEN + a.len(), end, acc, e) == parse_fields(
            bytes,
            HEAD_LEN + with_field(a, opt_text_field(code, text, e)).len(),
            end,
            match text {
                Some(t) => set_text(acc, code, t).unwrap(),
                None => acc,
            },
            e,
        ),
{
    match text {
        Some(t) => {
            if code == FIELD_SIGNATURE {
                lemma_signature_field_read_back(bytes, end, a, t, acc, e);
            } else {
                lemma_str_field_read_back(bytes, end, a, code, t, acc, e);
            }
        },
        None => {},
    }
}

/// Reading the fields from behind `a` on is reading them from behind the
/// next field on, with that field set; and `a` is still the front of all
/// fields.
proof fn lemma_number_step(
    bytes: Seq<u8>,
    end: int,
    a: Seq<u8>,
    code: u8,
    number: Option<u32>,
    acc: FieldsView,
    e: Endian,
)
    requires
        code == FIELD_REPLY_SERIAL || code == FIELD_UNIX_FDS,
        HEAD_LEN <= end <= bytes.len(),
        number matches Some(n) ==> set_number(acc, code, n) is Some,
        is_front(
            with_field(a, opt_number_field(code, number, e)),
            bytes.subrange(HEAD_LEN as int, end),
        ),
    ensures
        is_front(a, bytes.subrange(HEAD_LEN as int, end)),
        parse_fields(bytes, HEAD_LEN + a.len(), end, acc, e) == parse_fields(
            bytes,
            HEAD_LEN + with_field(a, opt_number_field(code, number, e)).len(),
            end,
            match number {
                Some(n) => set_number(acc, code, n).unwrap(),
                None => acc,
            },
            e,
        ),
{
    match number {
        Some(n) => {
            lemma_number_field_read_back(bytes, end, a, code, n, acc, e);
        },
        None => {},
    }
}

/// The header fields are read back from their wire form.
#[verifier::rlimit(50)]
proof fn lemma_fields_read_back(bytes: Seq<u8>, end: int, f: FieldsView, e: Endian)
    requires
        HEAD_LEN <= end <= bytes.len(),
        end - HEAD_LEN < MAX_ARRAY_LEN,
        bytes.subrange(HEAD_LEN as int, end) == fields_bytes(f, e),
        f.signature matches Some(s) ==> encode_utf8(s).len() <= 0xFF,
        f.signature matches Some(s) ==> is_signature(encode_utf8(s)),
    ensures
        parse_fields(bytes, HEAD_LEN as int, end, no_fields(), e) == Ok::<
            FieldsView,
            VariantError,
        >(f),
{
    reveal(fields_bytes);
    let region = bytes.subrange(HEAD_LEN as int, end);
    let a0 = Seq::<u8>::empty();
    let a1 = with_field(a0, opt_text_field(FIELD_PATH, f.path, e));
    let a2 = with_field(a1, opt_text_field(FIELD_INTERFACE, f.interface, e));
    let a3 = with_field(a2, opt_text_field(FIELD_MEMBER, f.member, e));
    let a4 = with_field(a3, opt_text_field(FIELD_ERROR_NAME, f.error_name, e));
    let a5 = with_field(a4, opt_number_field(FIELD_REPLY_SERIAL, f.reply_serial, e));
    let a6 = with_field(a5, opt_text_field(FIELD_DESTINATION, f.destination, e));
    let a7 = with_field(a6, opt_text_field(FIELD_SENDER, f.sender, e));
    let a8 = with_field(a7, opt_text_field(FIELD_SIGNATURE, f.signature, e));
    let a9 = with_field(a8, opt_number_field(FIELD_UNIX_FDS, f.unix_fds, e));
    let c0 = no_fields();
    let c1 = FieldsView { path: f.path, ..c0 };
    let c2 = FieldsView { interface: f.interface, ..c1 };
    let c3 = FieldsView { member: f.member, ..c2 };
    let c4 = FieldsView { error_name: f.error_name, ..c3 };
    let c5 = FieldsView { reply_serial: f.reply_serial, ..c4 };
    let c6 = FieldsView { destination: f.destination, ..c5 };
    let c7 = FieldsView { sender: f.sender, ..c6 };
    let c8 = FieldsView { signature: f.signature, ..c7 };
    let c9 = FieldsView { unix_fds: f.unix_fds, ..c8 };
    let r0 = parse_fields(bytes, HEAD_LEN + a0.len(), end, c0, e);
    let r1 = parse_fields(bytes, HEAD_LEN + a1.len(), end, c1, e);
    let r2 = parse_fields(bytes, HEAD_LEN + a2.len(), end, c2, e);
    let r3 = parse_fields(bytes, HEAD_LEN + a3.len(), end, c3, e);
    let r4 = parse_fields(bytes, HEAD_LEN + a4.len(), end, c4, e);
    let r5 = parse_fields(bytes, HEAD_LEN + a5.len(), end, c5, e);
    let r6 = parse_fields(bytes, HEAD_LEN + a6.len(), end, c6, e);
    let r7 = parse_fields(bytes, HEAD_LEN + a7.len(), end, c7, e);
    let r8 = parse_fields(bytes, HEAD_LEN + a8.len(), end, c8, e);
    let r9 = parse_fields(bytes, HEAD_LEN + a9.len(), end, c9, e);
    assert(a9 == region);
    assert(is_front(a9, region)) by {
        assert(region.subrange(0, region.len() as int) =~= region);
    }
    assert(r9 == Ok::<FieldsView, VariantError>(f)) by {
        assert(c9 == f);
        assert(HEAD_LEN + a9.len() == end);
    }
    assert(r8 == r9 && is_front(a8, region)) by {
        lemma_number_step(bytes, end, a8, FIELD_UNIX_FDS, f.unix_fds, c8, e);
    }
    assert(r7 == r8 && is_front(a7, region)) by {
        lemma_text_step(bytes, end, a7, FIELD_SIGNATURE, f.signature, c7, e);
    }
    assert(r6 == r7 && is_front(a6, region)) by {
        lemma_text_step(bytes, end, a6, FIELD_SENDER, f.sender, c6, e);
    }
    assert(r5 == r6 && is_front(a5, region)) by {
        lemma_text_step(bytes, end, a5, FIELD_DESTINATION, f.destination, c5, e);
    }
    assert(r4 == r5 && is_front(a4, region)) by {
        lemma_number_step(bytes, end, a4, FIELD_REPLY_SERIAL, f.reply_serial, c4, e);
    }
    assert(r3 == r4 && is_front(a3, region)) by {
        lemma_text_step(bytes, end, a3, FIELD_ERROR_NAME, f.error_name, c3, e);
    }
    assert(r2 == r3 && is_front(a2, region)) by {
        lemma_text_step(bytes, end, a2, FIELD_MEMBER, f.member, c2, e);
    }
    assert(r1 == r2 && is_front(a1, region)) by {
        lemma_text_step(bytes, end, a1, FIELD_INTERFACE, f.interface, c1, e);
    }
    assert(r0 == r1) by {
        lemma_text_step(bytes, end, a0, FIELD_PATH, f.path, c0, e);
    }
    assert(a0.len() == 0);
}

/// The first sixteen bytes of a message are read back from its wire form.
#[verifier::rlimit(30)]
proof fn lemma_head_read_back(m: MessageView)
    requires
        parts_fit(m),
        encodable(m),
    ensures
        parse_head(message_bytes(m)) == Ok::<(PrimaryHeader, int), VariantError>(
            (m.primary, fields_bytes(m.fields, m.primary.endian).len() as int),
        ),
        head_bytes(m.primary, fields_bytes(m.fields, m.primary.endian).len() as int).len() == 16,
{
    let e = m.primary.endian;
    let fields = fields_bytes(m.fields, e);
    let bytes = message_bytes(m);
    let head = head_bytes(m.primary, fields.len() as int);
    crate::endian::lemma_u32_roundtrip(m.primary.body_len as int, e);
    crate::endian::lemma_u32_roundtrip(m.primary.serial_num as int, e);
    crate::endian::lemma_u32_roundtrip(fields.len() as int, e);
    assert(head.len() == 16);
    assert(bytes.subrange(0, 16) =~= head);
    assert(bytes.subrange(4, 8) =~= u32_bytes(m.primary.body_len as int, e));
    assert(bytes.subrange(8, 12) =~= u32_bytes(m.primary.serial_num as int, e));
    assert(bytes.subrange(12, 16) =~= u32_bytes(fields.len() as int, e));
    assert(bytes[0] == endian_code(e) && bytes[1] == type_code(m.primary.msg_type) && bytes[2]
        == m.primary.flags && bytes[3] == m.primary.protocol_version);
}

/// Reading a message from its wire form gives the message back: its
/// header, its fields, its body. This holds of every message whose parts
/// fit together and that has a wire form.
#[verifier::rlimit(30)]
pub proof fn lemma_message_roundtrip(m: MessageView)
    requires
        parts_fit(m),
        encodable(m),
    ensures
        parse_message(message_bytes(m), m.fds) == Ok::<MessageView, VariantError>(m),
        message_bytes(m).len() == total_len(
            m.body.len() as int,
            fields_bytes(m.fields, m.primary.endian).len() as int,
        ),
{
    let e = m.primary.endian;
    let fields = fields_bytes(m.fields, e);
    let bytes = message_bytes(m);
    let end = HEAD_LEN + fields.len();
    lemma_head_read_back(m);
    crate::align::lemma_padding_aligns(end, 8);
    let total = total_len(m.primary.body_len as int, fields.len() as int);
    assert(bytes.len() == total);
    assert(bytes.subrange(total - m.primary.body_len, total) =~= m.body);
    assert(bytes.subrange(HEAD_LEN as int, end) =~= fields);
    lemma_fields_read_back(bytes, end, m.fields, e);
}

} // verus!
