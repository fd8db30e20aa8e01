//! Wire form of strings, object paths and signatures.
//!
//! A string is framed as a 32-bit length, the UTF-8 payload and a NUL, and is
//! aligned to four bytes. An object path is framed in the same way. A
//! signature is framed as a one-byte length, the payload and a NUL, and
//! needs no alignment.

use vstd::prelude::*;
use vstd::utf8::*;
use vstd::slice::slice_subrange;
use crate::align::{is_aligned, lemma_padding_aligns, padding, padding_for_n_bytes, push_zeros, zeros};
use crate::endian::{lemma_u32_roundtrip, read_u32, u32_bytes, u32_value, write_u32, Endian};
use crate::error::VariantError;
use crate::signature::{
    is_complete_type, is_signature, is_single_complete_type, lemma_signature_ascii, validate,
    OBJECT_PATH, SIGNATURE, STRING,
};
use crate::text::{
    ascii_text, is_single_ascii, lemma_ascii_bytes, lemma_utf8_injective, push_bytes, utf8_to_str,
};

verus! {

/// Alignment of a string and of an object path.
pub const STR_ALIGNMENT: usize = 4;

/// Alignment of a signature.
pub const SIGNATURE_ALIGNMENT: usize = 1;

/// The one-character signature with the given code.
pub open spec fn signature_of(code: u8) -> Seq<char> {
    seq![code as char]
}

/// `outcome` where the signature asked for is the one expected, and a
/// mismatch otherwise.
pub open spec fn checked<T>(signature: Seq<char>, code: u8, outcome: Result<T, VariantError>)
    -> Result<T, VariantError> {
    if signature == signature_of(code) {
        outcome
    } else {
        Err(VariantError::SignatureMismatch)
    }
}

/// Frame of a string without its padding: length, payload, NUL. The length
/// field holds the payload's length modulo 2^32.
pub open spec fn str_body(s: Seq<char>, e: Endian) -> Seq<u8> {
    let payload = encode_utf8(s);
    u32_bytes((payload.len() % 0x1_0000_0000) as int, e) + payload + seq![0u8]
}

/// Wire form of a string written after `n_bytes_before` bytes of message.
pub open spec fn str_encoding(s: Seq<char>, n_bytes_before: int, e: Endian) -> Seq<u8> {
    zeros(padding(n_bytes_before, STR_ALIGNMENT as int)) + str_body(s, e)
}

/// Number of bytes that the string frame at the head of `bytes` occupies.
pub open spec fn str_extent(bytes: Seq<u8>, e: Endian) -> Result<int, VariantError> {
    if bytes.len() < 4 {
        Err(VariantError::InsufficientData)
    } else if bytes.len() < u32_value(bytes, e) + 5 {
        Err(VariantError::InsufficientData)
    } else {
        Ok(u32_value(bytes, e) + 5)
    }
}

/// Text held by the string frame that `bytes` is.
pub open spec fn str_decoding(bytes: Seq<u8>) -> Result<Seq<char>, VariantError> {
    if bytes.len() < 5 {
        Err(VariantError::InsufficientData)
    } else if !valid_utf8(bytes.subrange(4, bytes.len() - 1)) {
        Err(VariantError::InvalidUtf8)
    } else {
        Ok(decode_utf8(bytes.subrange(4, bytes.len() - 1)))
    }
}

/// Frame of a signature: one length byte, payload, NUL. The length byte
/// holds the payload's length modulo 256.
pub open spec fn signature_encoding(s: Seq<char>) -> Seq<u8> {
    let payload = encode_utf8(s);
    seq![(payload.len() % 0x100) as u8] + payload + seq![0u8]
}

/// Number of bytes that the signature frame at the head of `bytes` occupies.
pub open spec fn signature_extent(bytes: Seq<u8>) -> Result<int, VariantError> {
    if bytes.len() < 1 {
        Err(VariantError::InsufficientData)
    } else if bytes.len() < bytes[0] as int + 2 {
        Err(VariantError::InsufficientData)
    } else {
        Ok(bytes[0] as int + 2)
    }
}

/// Signature held by the signature frame that `bytes` is: what lies
/// between the length byte and the final byte, where that follows the
/// grammar of signatures.
pub open spec fn signature_decoding(bytes: Seq<u8>) -> Result<Seq<char>, VariantError> {
    if bytes.len() < 2 {
        Err(VariantError::InsufficientData)
    } else if !is_signature(bytes.subrange(1, bytes.len() - 1)) {
        Err(VariantError::InvalidSignature)
    } else {
        Ok(ascii_text(bytes.subrange(1, bytes.len() - 1)))
    }
}

/// The outcome of taking `text` as a signature: the text where it follows
/// the grammar of signatures, a refusal otherwise.
pub open spec fn signature_checked(text: Seq<char>) -> Result<Seq<char>, VariantError> {
    if is_signature(encode_utf8(text)) {
        Ok(text)
    } else {
        Err(VariantError::InvalidSignature)
    }
}

/// Checks that `signature` is the one-character signature `code`.
pub fn ensure_correct_signature(signature: &str, code: u8) -> (r: Result<(), VariantError>)
    requires
        code < 0x80,
    ensures
        r == checked(signature@, code, Ok(())),
{
    if is_single_ascii(signature, code) {
        Ok(())
    } else {
        Err(VariantError::SignatureMismatch)
    }
}

/// Checks that at least `required` bytes are at hand.
pub fn ensure_sufficient_bytes(bytes: &[u8], required: usize) -> (r: Result<(), VariantError>)
    ensures
        r is Ok <==> bytes@.len() >= required,
        r is Err ==> r == Err::<(), VariantError>(VariantError::InsufficientData),
{
    if bytes.len() < required {
        Err(VariantError::InsufficientData)
    } else {
        Ok(())
    }
}

/// Encodes `s` as a string that starts `n_bytes_before` bytes into the
/// message: padding to a multiple of four, length, payload, NUL.
pub fn encode(s: &str, n_bytes_before: usize, e: Endian) -> (bytes: Vec<u8>)
    ensures
        bytes@ == str_encoding(s@, n_bytes_before as int, e),
{
    let padding: usize = padding_for_n_bytes(n_bytes_before, STR_ALIGNMENT);
    let mut bytes: Vec<u8> = Vec::new();
    push_zeros(&mut bytes, padding);
    push_str_frame(&mut bytes, s, e);
    assert(bytes@ =~= str_encoding(s@, n_bytes_before as int, e));
    bytes
}

/// Cuts the string frame off the head of `bytes`.
pub fn extract_slice<'b>(bytes: &'b [u8], signature: &str, e: Endian) -> (r: Result<
    &'b [u8],
    VariantError,
>)
    ensures
        match checked(signature@, STRING, str_extent(bytes@, e)) {
            Ok(n) => r matches Ok(frame) && frame@ == bytes@.subrange(0, n),
            Err(err) => r matches Err(got) && got == err,
        },
{
    extract_str_frame(bytes, signature, STRING, e)
}

/// Cuts a frame with a 32-bit length off the head of `bytes`.
pub fn take_str_frame<'b>(bytes: &'b [u8], e: Endian) -> (r: Result<&'b [u8], VariantError>)
    ensures
        match str_extent(bytes@, e) {
            Ok(n) => r matches Ok(frame) && frame@ == bytes@.subrange(0, n),
            Err(err) => r matches Err(got) && got == err,
        },
{
    if bytes.len() < 4 {
        return Err(VariantError::InsufficientData);
    }
    let len: u32 = read_u32(bytes, e);
    let last_index: u64 = len as u64 + 5;
    if (bytes.len() as u64) < last_index {
        return Err(VariantError::InsufficientData);
    }
    Ok(slice_subrange(bytes, 0, last_index as usize))
}

/// Cuts a frame with a 32-bit length off the head of `bytes`, for the type
/// whose signature code is `code`.
fn extract_str_frame<'b>(bytes: &'b [u8], signature: &str, code: u8, e: Endian) -> (r: Result<
    &'b [u8],
    VariantError,
>)
    requires
        code < 0x80,
    ensures
        match checked(signature@, code, str_extent(bytes@, e)) {
            Ok(n) => r matches Ok(frame) && frame@ == bytes@.subrange(0, n),
            Err(err) => r matches Err(got) && got == err,
        },
{
    if !is_single_ascii(signature, code) {
        return Err(VariantError::SignatureMismatch);
    }
    take_str_frame(bytes, e)
}

/// Reads the text of the string frame `bytes`: what lies between the length
/// and the final byte.
pub fn decode<'a>(bytes: &'a [u8], signature: &str) -> (r: Result<&'a str, VariantError>)
    ensures
        match checked(signature@, STRING, str_decoding(bytes@)) {
            Ok(text) => r matches Ok(s) && s@ == text,
            Err(err) => r matches Err(got) && got == err,
        },
{
    decode_str_frame(bytes, signature, STRING)
}

/// Reads the text of a frame with a 32-bit length.
pub fn read_str_frame<'a>(bytes: &'a [u8]) -> (r: Result<&'a str, VariantError>)
    ensures
        match str_decoding(bytes@) {
            Ok(text) => r matches Ok(s) && s@ == text,
            Err(err) => r matches Err(got) && got == err,
        },
{
    if bytes.len() < 5 {
        return Err(VariantError::InsufficientData);
    }
    let last_index: usize = bytes.len() - 1;
    match utf8_to_str(slice_subrange(bytes, 4, last_index)) {
        Some(s) => {
            proof {
                encode_utf8_decode_utf8(s@);
            }
            Ok(s)
        },
        None => Err(VariantError::InvalidUtf8),
    }
}

/// Reads the text of a frame with a 32-bit length, for the type whose
/// signature code is `code`.
fn decode_str_frame<'a>(bytes: &'a [u8], signature: &str, code: u8) -> (r: Result<
    &'a str,
    VariantError,
>)
    requires
        code < 0x80,
    ensures
        match checked(signature@, code, str_decoding(bytes@)) {
            Ok(text) => r matches Ok(s) && s@ == text,
            Err(err) => r matches Err(got) && got == err,
        },
{
    if !is_single_ascii(signature, code) {
        return Err(VariantError::SignatureMismatch);
    }
    read_str_frame(bytes)
}

/// Cuts a signature frame off the head of `bytes`.
pub fn take_signature_frame<'b>(bytes: &'b [u8]) -> (r: Result<&'b [u8], VariantError>)
    ensures
        match signature_extent(bytes@) {
            Ok(n) => r matches Ok(frame) && frame@ == bytes@.subrange(0, n),
            Err(err) => r matches Err(got) && got == err,
        },
{
    if bytes.len() < 1 {
        return Err(VariantError::InsufficientData);
    }
    let last_index: usize = bytes[0] as usize + 2;
    if bytes.len() < last_index {
        return Err(VariantError::InsufficientData);
    }
    Ok(slice_subrange(bytes, 0, last_index))
}

/// Reads the signature that a signature frame holds.
pub fn read_signature_frame<'a>(bytes: &'a [u8]) -> (r: Result<&'a str, VariantError>)
    ensures
        match signature_decoding(bytes@) {
            Ok(text) => r matches Ok(s) && s@ == text && is_signature(encode_utf8(s@)),
            Err(err) => r matches Err(got) && got == err,
        },
{
    if bytes.len() < 2 {
        return Err(VariantError::InsufficientData);
    }
    let last_index: usize = bytes.len() - 1;
    let payload = slice_subrange(bytes, 1, last_index);
    if !validate(payload) {
        return Err(VariantError::InvalidSignature);
    }
    proof {
        lemma_signature_ascii(payload@);
        let chars = ascii_text(payload@);
        assert(is_ascii_chars(chars));
        lemma_ascii_bytes(chars);
        assert(encode_utf8(chars) =~= payload@);
        encode_utf8_valid_utf8(chars);
    }
    match utf8_to_str(payload) {
        Some(s) => {
            proof {
                lemma_utf8_injective(s@, ascii_text(payload@));
            }
            Ok(s)
        },
        None => Err(VariantError::InvalidSignature),
    }
}

/// Appends the frame of a signature.
pub fn push_signature_frame(out: &mut Vec<u8>, signature: &str)
    ensures
        final(out)@ == old(out)@ + signature_encoding(signature@),
{
    let payload = signature.as_bytes();
    out.push((payload.len() % 0x100) as u8);
    push_bytes(out, payload);
    out.push(0u8);
    assert(out@ =~= old(out)@ + signature_encoding(signature@));
}

/// Appends the frame of a string, without padding.
pub fn push_str_frame(out: &mut Vec<u8>, s: &str, e: Endian)
    ensures
        final(out)@ == old(out)@ + str_body(s@, e),
{
    let payload = s.as_bytes();
    let prefix: u32 = (payload.len() as u64 % 0x1_0000_0000) as u32;
    write_u32(out, prefix, e);
    push_bytes(out, payload);
    out.push(0u8);
    assert(out@ =~= old(out)@ + str_body(s@, e));
}

/// A string that names an object within a peer.
#[derive(Debug, Clone, Copy, PartialEq, Eq)]
pub struct ObjectPath<'a>(&'a str);

impl<'a> View for ObjectPath<'a> {
    type V = Seq<char>;

    closed spec fn view(&self) -> Seq<char> {
        self.0@
    }
}

impl<'a> ObjectPath<'a> {
    /// Takes `path` as an object path.
    pub fn new(path: &'a str) -> (p: Self)
        ensures
            p@ == path@,
    {
        Self(path)
    }

    /// The path as text.
    pub fn as_str(&self) -> (s: &str)
        ensures
            s@ == self@,
    {
        self.0
    }

    /// Encodes the path as a string is encoded.
    pub fn encode(&self, n_bytes_before: usize, e: Endian) -> (bytes: Vec<u8>)
        ensures
            bytes@ == str_encoding(self@, n_bytes_before as int, e),
    {
        encode(self.0, n_bytes_before, e)
    }

    /// Cuts the object path frame off the head of `bytes`.
    pub fn extract_slice<'b>(bytes: &'b [u8], signature: &str, e: Endian) -> (r: Result<
        &'b [u8],
        VariantError,
    >)
        ensures
            match checked(signature@, OBJECT_PATH, str_extent(bytes@, e)) {
                Ok(n) => r matches Ok(frame) && frame@ == bytes@.subrange(0, n),
                Err(err) => r matches Err(got) && got == err,
            },
    {
        extract_str_frame(bytes, signature, OBJECT_PATH, e)
    }

    /// Reads the path that the frame `bytes` holds.
    pub fn decode(bytes: &'a [u8], signature: &str) -> (r: Result<Self, VariantError>)
        ensures
            match checked(signature@, OBJECT_PATH, str_decoding(bytes@)) {
                Ok(text) => r matches Ok(p) && p@ == text,
                Err(err) => r matches Err(got) && got == err,
            },
    {
        match decode_str_frame(bytes, signature, OBJECT_PATH) {
            Ok(s) => Ok(Self(s)),
            Err(err) => Err(err),
        }
    }
}

/// A string that describes the types of a sequence of values. It follows
/// the grammar of signatures: a text that does not is no signature.
#[derive(Debug, Clone, Copy, PartialEq, Eq)]
pub struct Signature<'a>(&'a str);

impl<'a> View for Signature<'a> {
    type V = Seq<char>;

    closed spec fn view(&self) -> Seq<char> {
        self.0@
    }
}

impl<'a> Signature<'a> {
    #[verifier::type_invariant]
    spec fn follows_grammar(self) -> bool {
        is_signature(encode_utf8(self.0@))
    }

    /// Whether the text follows the grammar of signatures. That of every
    /// signature does.
    pub open spec fn valid(&self) -> bool {
        is_signature(encode_utf8(self@))
    }

    /// Every signature follows the grammar.
    pub fn is_well_formed(&self)
        ensures
            self.valid(),
    {
        proof {
            use_type_invariant(self);
        }
    }

    /// Takes `signature` as a signature where it follows the grammar, and
    /// refuses it otherwise.
    pub fn new(signature: &'a str) -> (r: Result<Self, VariantError>)
        ensures
            match signature_checked(signature@) {
                Ok(text) => r matches Ok(s) && s@ == text && s.valid(),
                Err(e) => r matches Err(got) && got == e,
            },
    {
        if validate(signature.as_bytes()) {
            Ok(Self(signature))
        } else {
            Err(VariantError::InvalidSignature)
        }
    }

    /// The signature as text.
    pub fn as_str(&self) -> (s: &str)
        ensures
            s@ == self@,
    {
        self.0
    }

    /// Whether the signature is one single complete type.
    pub fn is_complete_type(&self) -> (v: bool)
        ensures
            v == is_single_complete_type(encode_utf8(self@)),
    {
        is_complete_type(self.0.as_bytes())
    }

    /// Encodes the signature: one length byte, payload, NUL. Its alignment
    /// is one, so the offset plays no part.
    pub fn encode(&self, _n_bytes_before: usize) -> (bytes: Vec<u8>)
        ensures
            bytes@ == signature_encoding(self@),
    {
        let mut bytes: Vec<u8> = Vec::new();
        push_signature_frame(&mut bytes, self.0);
        assert(bytes@ =~= signature_encoding(self@));
        bytes
    }

    /// Cuts the signature frame off the head of `bytes`.
    pub fn extract_slice<'b>(bytes: &'b [u8], signature: &str) -> (r: Result<
        &'b [u8],
        VariantError,
    >)
        ensures
            match checked(signature@, SIGNATURE, signature_extent(bytes@)) {
                Ok(n) => r matches Ok(frame) && frame@ == bytes@.subrange(0, n),
                Err(err) => r matches Err(got) && got == err,
            },
    {
        if !is_single_ascii(signature, SIGNATURE) {
            return Err(VariantError::SignatureMismatch);
        }
        take_signature_frame(bytes)
    }

    /// Reads the signature that the frame `bytes` holds: what lies between
    /// the length byte and the final byte. A text that does not follow the
    /// grammar of signatures is refused.
    pub fn decode(bytes: &'a [u8], signature: &str) -> (r: Result<Self, VariantError>)
        ensures
            match checked(signature@, SIGNATURE, signature_decoding(bytes@)) {
                Ok(text) => r matches Ok(s) && s@ == text && s.valid(),
                Err(err) => r matches Err(got) && got == err,
            },
    {
        if !is_single_ascii(signature, SIGNATURE) {
            return Err(VariantError::SignatureMismatch);
        }
        match read_signature_frame(bytes) {
            Ok(s) => Ok(Self(s)),
            Err(err) => Err(err),
        }
    }
}

/// A string or object path written at any offset takes the padding to the
/// next multiple of four, then four bytes of length, the payload and one
/// NUL; the padding is zeros and the length field starts aligned.
pub proof fn lemma_str_encoded_len(s: Seq<char>, n_bytes_before: int, e: Endian)
    requires
        0 <= n_bytes_before,
    ensures
        str_encoding(s, n_bytes_before, e).len() == padding(n_bytes_before, 4) + 4 + encode_utf8(
            s,
        ).len() + 1,
        str_encoding(s, n_bytes_before, e).subrange(0, padding(n_bytes_before, 4)) == zeros(
            padding(n_bytes_before, 4),
        ),
        is_aligned(n_bytes_before + padding(n_bytes_before, 4), 4),
{
    lemma_padding_aligns(n_bytes_before, 4);
    let pad = padding(n_bytes_before, 4);
    let enc = str_encoding(s, n_bytes_before, e);
    assert(u32_bytes((encode_utf8(s).len() % 0x1_0000_0000) as int, e).len() == 4);
    assert(enc.subrange(0, pad) =~= zeros(pad));
}

/// Decoding what was encoded gives the text back, at every offset and in
/// either byte order: past the padding, the frame is the whole of what
/// remains and holds the text. This holds of every text whose UTF-8 form
/// fits the 32-bit length field.
pub proof fn lemma_str_roundtrip(s: Seq<char>, n_bytes_before: int, e: Endian)
    requires
        0 <= n_bytes_before,
        encode_utf8(s).len() <= 0xFFFF_FFFF,
    ensures
        ({
            let frame = str_encoding(s, n_bytes_before, e).skip(padding(n_bytes_before, 4));
            &&& frame == str_body(s, e)
            &&& str_extent(frame, e) == Ok::<int, VariantError>(frame.len() as int)
            &&& str_decoding(frame) == Ok::<Seq<char>, VariantError>(s)
        }),
{
    lemma_padding_aligns(n_bytes_before, 4);
    let pad = padding(n_bytes_before, 4);
    let frame = str_encoding(s, n_bytes_before, e).skip(pad);
    assert(frame =~= str_body(s, e));
    lemma_str_body_read_back(s, e);
}

/// The frame of a string is as long as its length field says, and holds
/// the text.
#[verifier::rlimit(50)]
proof fn lemma_str_body_read_back(s: Seq<char>, e: Endian)
    requires
        encode_utf8(s).len() <= 0xFFFF_FFFF,
    ensures
        str_body(s, e).len() == encode_utf8(s).len() + 5,
        str_extent(str_body(s, e), e) == Ok::<int, VariantError>(str_body(s, e).len() as int),
        str_decoding(str_body(s, e)) == Ok::<Seq<char>, VariantError>(s),
{
    let payload = encode_utf8(s);
    let n = payload.len() as int;
    assert(n % 0x1_0000_0000 == n);
    let head = u32_bytes(n, e);
    lemma_u32_roundtrip(n, e);
    let frame = head + payload + seq![0u8];
    assert(frame == str_body(s, e));
    assert(frame.len() == n + 5);
    assert(frame.subrange(0, 4) =~= head);
    lemma_u32_value_prefix(frame, head, e);
    assert(u32_value(frame, e) == n);
    assert(frame.subrange(4, frame.len() - 1) =~= payload);
    assert(valid_utf8(payload)) by {
        encode_utf8_valid_utf8(s);
    }
    assert(decode_utf8(payload) == s) by {
        encode_utf8_decode_utf8(s);
    }
}

/// The number at the head of a byte string depends on its first four bytes
/// alone.
proof fn lemma_u32_value_prefix(bytes: Seq<u8>, head: Seq<u8>, e: Endian)
    requires
        head.len() == 4,
        bytes.len() >= 4,
        bytes.subrange(0, 4) =~= head,
    ensures
        u32_value(bytes, e) == u32_value(head, e),
{
    assert(bytes[0] == bytes.subrange(0, 4)[0]);
    assert(bytes[1] == bytes.subrange(0, 4)[1]);
    assert(bytes[2] == bytes.subrange(0, 4)[2]);
    assert(bytes[3] == bytes.subrange(0, 4)[3]);
}

/// A signature takes one length byte, its payload and one NUL, wherever it
/// is written.
pub proof fn lemma_signature_encoded_len(s: Seq<char>)
    ensures
        signature_encoding(s).len() == encode_utf8(s).len() + 2,
{
}

/// Decoding an encoded signature gives the signature back. This holds of
/// every signature that fits the one-byte length field.
pub proof fn lemma_signature_roundtrip(s: Seq<char>)
    requires
        is_signature(encode_utf8(s)),
        encode_utf8(s).len() <= 0xFF,
    ensures
        signature_extent(signature_encoding(s)) == Ok::<int, VariantError>(
            signature_encoding(s).len() as int,
        ),
        signature_decoding(signature_encoding(s)) == Ok::<Seq<char>, VariantError>(s),
{
    let payload = encode_utf8(s);
    let frame = signature_encoding(s);
    assert(frame.len() == payload.len() + 2);
    assert(frame[0] == payload.len() as u8);
    assert(frame.subrange(1, frame.len() - 1) =~= payload);
    lemma_signature_text(payload);
    lemma_utf8_injective(s, ascii_text(payload));
}

/// The bytes of a signature are the UTF-8 form of the text that they
/// spell, and of no other text.
pub proof fn lemma_signature_text(payload: Seq<u8>)
    requires
        is_signature(payload),
    ensures
        encode_utf8(ascii_text(payload)) == payload,
{
    lemma_signature_ascii(payload);
    let chars = ascii_text(payload);
    assert(is_ascii_chars(chars));
    lemma_ascii_bytes(chars);
    assert(encode_utf8(chars) =~= payload);
}

/// A frame holds a signature exactly where what lies between its length
/// byte and its final byte follows the grammar; nothing else is read as a
/// signature.
pub proof fn lemma_signature_decoding_iff(bytes: Seq<u8>)
    requires
        bytes.len() >= 2,
    ensures
        signature_decoding(bytes) is Ok <==> is_signature(bytes.subrange(1, bytes.len() - 1)),
        signature_decoding(bytes) matches Ok(text) ==> is_signature(encode_utf8(text)),
        signature_decoding(bytes) matches Err(e) ==> e == VariantError::InvalidSignature,
{
    let payload = bytes.subrange(1, bytes.len() - 1);
    if is_signature(payload) {
        lemma_signature_text(payload);
    }
}

} // verus!
