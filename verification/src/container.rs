//! Wire form of structures, dictionary entries and variants.
//!
//! A structure or dictionary entry starts on a multiple of eight and is
//! its members, one after another. A variant is the signature of its
//! value, framed as a signature, and the value on the alignment of its
//! type.

use vstd::prelude::*;
use vstd::utf8::encode_utf8;
use crate::align::{
    is_aligned, lemma_padding_aligns, padding, padding_for_n_bytes, push_zeros, zeros,
};
use crate::basic::{alignment, width_of};
use crate::error::VariantError;
use crate::signature::{
    is_complete_type, is_single_complete_type, ARRAY, DICT_OPEN, OBJECT_PATH, SIGNATURE, STRING,
    STRUCT_OPEN, VARIANT,
};
use crate::string::{
    lemma_signature_roundtrip, push_signature_frame, read_signature_frame, signature_decoding,
    signature_encoding, signature_extent, take_signature_frame, Signature,
};
use crate::text::push_bytes;

verus! {

/// Alignment of a structure and of a dictionary entry.
pub const STRUCT_ALIGNMENT: usize = 8;

/// Alignment of the type whose signature starts with `code`: its size for
/// a type of fixed size, four for a string, an object path and an array,
/// one for a signature and a variant, eight for a structure and a
/// dictionary entry; zero where no type starts with `code`.
pub open spec fn alignment_of(code: u8) -> int {
    if width_of(code) > 0 {
        width_of(code)
    } else if code == STRING || code == OBJECT_PATH || code == ARRAY {
        4
    } else if code == SIGNATURE || code == VARIANT {
        1
    } else if code == STRUCT_OPEN || code == DICT_OPEN {
        8
    } else {
        0
    }
}

/// Alignment of the type whose signature starts with `code`.
pub fn type_alignment(code: u8) -> (r: Option<usize>)
    ensures
        match r {
            Some(a) => a == alignment_of(code) && a > 0,
            None => alignment_of(code) == 0,
        },
{
    match alignment(code) {
        Some(w) => Some(w),
        None => {
            if code == STRING || code == OBJECT_PATH || code == ARRAY {
                Some(4)
            } else if code == SIGNATURE || code == VARIANT {
                Some(1)
            } else if code == STRUCT_OPEN || code == DICT_OPEN {
                Some(8)
            } else {
                None
            }
        },
    }
}

/// Wire form of a structure or dictionary entry with the encoded members
/// `members`, written after `n_bytes_before` bytes of message.
pub open spec fn struct_encoding(members: Seq<u8>, n_bytes_before: int) -> Seq<u8> {
    zeros(padding(n_bytes_before, STRUCT_ALIGNMENT as int)) + members
}

/// Offset in the message at which the first member of a structure stands
/// that is written after `n_bytes_before` bytes. The members are encoded
/// for that offset before the structure is framed.
pub fn struct_members_start(n_bytes_before: usize) -> (start: usize)
    requires
        n_bytes_before + 8 <= usize::MAX,
    ensures
        start == n_bytes_before + padding(n_bytes_before as int, STRUCT_ALIGNMENT as int),
        is_aligned(start as int, STRUCT_ALIGNMENT as int),
{
    n_bytes_before + padding_for_n_bytes(n_bytes_before, STRUCT_ALIGNMENT)
}

/// Frames the encoded members as a structure or dictionary entry.
pub fn encode_struct(members: &[u8], n_bytes_before: usize) -> (bytes: Vec<u8>)
    ensures
        bytes@ == struct_encoding(members@, n_bytes_before as int),
{
    let mut bytes: Vec<u8> = Vec::new();
    push_zeros(&mut bytes, padding_for_n_bytes(n_bytes_before, STRUCT_ALIGNMENT));
    push_bytes(&mut bytes, members);
    bytes
}

/// Whether `signature` can be the signature of the value of a variant: it
/// is one single complete type and fits a length of one byte.
pub open spec fn is_variant_signature(signature: Seq<char>) -> bool {
    is_single_complete_type(encode_utf8(signature)) && encode_utf8(signature).len() <= 0xFF
}

/// Offset in the message at which the value of a variant stands whose
/// signature frame starts `n_bytes_before` bytes into the message.
pub open spec fn variant_value_start(signature: Seq<char>, n_bytes_before: int) -> int {
    let after = n_bytes_before + signature_encoding(signature).len();
    after + padding(after, alignment_of(encode_utf8(signature)[0]))
}

/// Wire form of a variant with the encoded value `value`: the signature
/// of the value, padding to the alignment of its type, the value.
pub open spec fn variant_encoding(signature: Seq<char>, value: Seq<u8>, n_bytes_before: int)
    -> Seq<u8> {
    signature_encoding(signature) + zeros(
        padding(
            n_bytes_before + signature_encoding(signature).len(),
            alignment_of(encode_utf8(signature)[0]),
        ),
    ) + value
}

/// The signature of the variant at the head of `bytes`, and where in
/// `bytes` its value starts, when the variant starts `n_bytes_before`
/// bytes into the message.
pub open spec fn variant_head(bytes: Seq<u8>, n_bytes_before: int) -> Result<
    (Seq<char>, int),
    VariantError,
> {
    match signature_extent(bytes) {
        Err(e) => Err(e),
        Ok(n) => match signature_decoding(bytes.subrange(0, n)) {
            Err(e) => Err(e),
            Ok(signature) => if !is_single_complete_type(encode_utf8(signature)) {
                Err(VariantError::InvalidSignature)
            } else {
                Ok(
                    (
                        signature,
                        n + padding(n_bytes_before + n, alignment_of(encode_utf8(signature)[0])),
                    ),
                )
            },
        },
    }
}

/// Offset in the message at which the value of a variant stands. The
/// value is encoded for that offset before the variant is framed. A
/// signature that is not one single complete type, or does not fit a
/// length of one byte, is refused.
pub fn variant_contents_start(signature: &Signature, n_bytes_before: usize) -> (r: Result<
    usize,
    VariantError,
>)
    requires
        n_bytes_before + 0x200 <= usize::MAX,
    ensures
        match r {
            Ok(start) => is_variant_signature(signature@) && start == variant_value_start(
                signature@,
                n_bytes_before as int,
            ),
            Err(e) => !is_variant_signature(signature@) && e == VariantError::InvalidSignature,
        },
{
    let text = signature.as_str().as_bytes();
    if !is_complete_type(text) || text.len() > 0xFF {
        return Err(VariantError::InvalidSignature);
    }
    proof {
        crate::signature::lemma_type_end_bounds(text@, 0);
    }
    let align: usize = match type_alignment(text[0]) {
        Some(a) => a,
        None => 1,
    };
    let after: usize = n_bytes_before + text.len() + 2;
    Ok(after + padding_for_n_bytes(after, align))
}

/// Frames the encoded value as a variant. A signature that is not one
/// single complete type, or does not fit a length of one byte, is
/// refused.
pub fn encode_variant(signature: &Signature, value: &[u8], n_bytes_before: usize) -> (r: Result<
    Vec<u8>,
    VariantError,
>)
    requires
        n_bytes_before + 0x200 <= usize::MAX,
    ensures
        match r {
            Ok(bytes) => is_variant_signature(signature@) && bytes@ == variant_encoding(
                signature@,
                value@,
                n_bytes_before as int,
            ),
            Err(e) => !is_variant_signature(signature@) && e == VariantError::InvalidSignature,
        },
{
    let text = signature.as_str().as_bytes();
    if !is_complete_type(text) || text.len() > 0xFF {
        return Err(VariantError::InvalidSignature);
    }
    proof {
        crate::signature::lemma_type_end_bounds(text@, 0);
    }
    let align: usize = match type_alignment(text[0]) {
        Some(a) => a,
        None => 1,
    };
    let mut bytes: Vec<u8> = Vec::new();
    push_signature_frame(&mut bytes, signature.as_str());
    push_zeros(&mut bytes, padding_for_n_bytes(n_bytes_before + text.len() + 2, align));
    push_bytes(&mut bytes, value);
    Ok(bytes)
}

/// Reads the signature of the variant at the head of `bytes`, and where in
/// `bytes` its value starts, when the variant starts `n_bytes_before`
/// bytes into the message.
pub fn extract_variant<'b>(bytes: &'b [u8], n_bytes_before: usize) -> (r: Result<
    (Signature<'b>, usize),
    VariantError,
>)
    requires
        n_bytes_before + 0x200 <= usize::MAX,
    ensures
        match variant_head(bytes@, n_bytes_before as int) {
            Ok((signature, start)) => r matches Ok((s, at)) && s@ == signature && at == start,
            Err(e) => r matches Err(got) && got == e,
        },
{
    let frame = match take_signature_frame(bytes) {
        Ok(frame) => frame,
        Err(e) => {
            return Err(e);
        },
    };
    let text: &str = match read_signature_frame(frame) {
        Ok(text) => text,
        Err(e) => {
            return Err(e);
        },
    };
    let codes = text.as_bytes();
    if !is_complete_type(codes) {
        return Err(VariantError::InvalidSignature);
    }
    proof {
        crate::signature::lemma_type_end_bounds(codes@, 0);
    }
    let align: usize = match type_alignment(codes[0]) {
        Some(a) => a,
        None => 1,
    };
    let n: usize = frame.len();
    match Signature::new(text) {
        Ok(signature) => Ok((signature, n + padding_for_n_bytes(n_bytes_before + n, align))),
        Err(e) => Err(e),
    }
}

/// A structure written at any offset takes the padding to a multiple of
/// eight and then its members; its first member stands aligned to eight.
pub proof fn lemma_struct_encoded_len(members: Seq<u8>, n_bytes_before: int)
    requires
        0 <= n_bytes_before,
    ensures
        struct_encoding(members, n_bytes_before).len() == padding(n_bytes_before, 8)
            + members.len(),
        struct_encoding(members, n_bytes_before).skip(padding(n_bytes_before, 8)) == members,
        is_aligned(n_bytes_before + padding(n_bytes_before, 8), 8),
{
    lemma_padding_aligns(n_bytes_before, 8);
    assert(struct_encoding(members, n_bytes_before).skip(padding(n_bytes_before, 8))
        =~= members);
}

/// Taking a variant apart gives back the signature and the value that
/// were framed, at every offset: the value stands where reading says it
/// starts, aligned as its type asks. This holds of every signature that is
/// one single complete type and fits a length of one byte.
pub proof fn lemma_variant_roundtrip(signature: Seq<char>, value: Seq<u8>, n_bytes_before: int)
    requires
        0 <= n_bytes_before,
        is_variant_signature(signature),
    ensures
        ({
            let bytes = variant_encoding(signature, value, n_bytes_before);
            &&& variant_head(bytes, n_bytes_before) matches Ok((s, start))
            &&& s == signature
            &&& bytes.skip(start) == value
            &&& n_bytes_before + start == variant_value_start(signature, n_bytes_before)
            &&& is_aligned(n_bytes_before + start, alignment_of(encode_utf8(signature)[0]))
            &&& bytes.len() == start + value.len()
        }),
{
    let codes = encode_utf8(signature);
    crate::signature::lemma_type_end_bounds(codes, 0);
    let frame = signature_encoding(signature);
    let align = alignment_of(codes[0]);
    assert(align > 0) by {
        lemma_type_starts(codes);
    }
    let gap = padding(n_bytes_before + frame.len(), align);
    lemma_padding_aligns(n_bytes_before + frame.len(), align);
    let bytes = variant_encoding(signature, value, n_bytes_before);
    crate::signature::lemma_single_type_is_signature(codes);
    lemma_signature_roundtrip(signature);
    assert(bytes[0] == frame[0]);
    assert(bytes.subrange(0, frame.len() as int) =~= frame);
    assert(bytes.skip(frame.len() + gap) =~= value);
}

/// A type starts with a code that has an alignment.
proof fn lemma_type_starts(codes: Seq<u8>)
    requires
        crate::signature::type_end(codes, 0) is Some,
    ensures
        alignment_of(codes[0]) > 0,
{
}

} // verus!
