//! Wire form of arrays: a 32-bit length of the contents, padding to the
//! alignment of the elements, and the elements.

use vstd::prelude::*;
use vstd::slice::slice_subrange;
use crate::align::{is_aligned, lemma_padding_aligns, padding, padding_for_n_bytes, push_zeros, zeros};
use crate::endian::{lemma_u32_roundtrip, read_u32, u32_bytes, u32_value, write_u32, Endian};
use crate::basic::{alignment, basic_decoding, uint_bytes, width_of, Basic};
use crate::error::VariantError;
use crate::text::push_bytes;

verus! {

/// Alignment of the length of an array.
pub const ARRAY_ALIGNMENT: usize = 4;

/// The contents of an array must be shorter than this, 2^26 bytes.
pub const MAX_ARRAY_LEN: usize = 0x400_0000;

/// Offset in the message at which the first element of an array stands
/// whose frame starts `n_bytes_before` bytes into the message and whose
/// elements are aligned to `align`.
pub open spec fn contents_start(n_bytes_before: int, align: int) -> int {
    let length_end = n_bytes_before + padding(n_bytes_before, 4) + 4;
    length_end + padding(length_end, align)
}

/// Wire form of an array with the encoded elements `contents`: padding to
/// a multiple of four, the length of the contents, padding to the
/// alignment of the elements, the contents.
pub open spec fn array_encoding(contents: Seq<u8>, align: int, n_bytes_before: int, e: Endian)
    -> Seq<u8> {
    let pad = padding(n_bytes_before, 4);
    zeros(pad) + u32_bytes(contents.len() as int, e) + zeros(
        padding(n_bytes_before + pad + 4, align),
    ) + contents
}

/// Where the contents of the array frame at the head of `bytes` start and
/// end, counted from the head. The frame starts `n_bytes_before` bytes
/// into the message, on a multiple of four.
pub open spec fn array_extent(bytes: Seq<u8>, align: int, n_bytes_before: int, e: Endian)
    -> Result<(int, int), VariantError> {
    if bytes.len() < 4 {
        Err(VariantError::InsufficientData)
    } else if u32_value(bytes, e) >= MAX_ARRAY_LEN {
        Err(VariantError::InvalidData)
    } else {
        let first = 4 + padding(n_bytes_before + 4, align);
        if bytes.len() < first + u32_value(bytes, e) {
            Err(VariantError::InsufficientData)
        } else {
            Ok((first, first + u32_value(bytes, e)))
        }
    }
}

/// Offset in the message at which the first element of an array stands.
/// The elements are encoded for that offset before the array is framed.
pub fn array_contents_start(n_bytes_before: usize, align: usize) -> (start: usize)
    requires
        align > 0,
        n_bytes_before + 8 + align <= usize::MAX,
    ensures
        start == contents_start(n_bytes_before as int, align as int),
        is_aligned(start as int, align as int),
{
    let length_end: usize = n_bytes_before + padding_for_n_bytes(n_bytes_before, ARRAY_ALIGNMENT)
        + 4;
    length_end + padding_for_n_bytes(length_end, align)
}

/// Frames the encoded elements `contents` as an array. Contents of 2^26
/// bytes or more are refused.
pub fn encode_array(contents: &[u8], align: usize, n_bytes_before: usize, e: Endian) -> (r: Result<
    Vec<u8>,
    VariantError,
>)
    requires
        align > 0,
        n_bytes_before + 8 <= usize::MAX,
    ensures
        contents@.len() < MAX_ARRAY_LEN ==> (r matches Ok(bytes) && bytes@ == array_encoding(
            contents@,
            align as int,
            n_bytes_before as int,
            e,
        )),
        contents@.len() >= MAX_ARRAY_LEN ==> (r matches Err(err) && err
            == VariantError::InvalidData),
{
    if contents.len() >= MAX_ARRAY_LEN {
        return Err(VariantError::InvalidData);
    }
    let pad: usize = padding_for_n_bytes(n_bytes_before, ARRAY_ALIGNMENT);
    let mut bytes: Vec<u8> = Vec::new();
    push_zeros(&mut bytes, pad);
    write_u32(&mut bytes, contents.len() as u32, e);
    push_zeros(&mut bytes, padding_for_n_bytes(n_bytes_before + pad + 4, align));
    push_bytes(&mut bytes, contents);
    assert(bytes@ =~= array_encoding(contents@, align as int, n_bytes_before as int, e));
    Ok(bytes)
}

/// Cuts the contents out of the array frame at the head of `bytes`, which
/// starts `n_bytes_before` bytes into the message, on a multiple of four.
/// Hands back the contents and the length of the whole frame.
pub fn extract_array<'b>(bytes: &'b [u8], align: usize, n_bytes_before: usize, e: Endian) -> (r:
    Result<(&'b [u8], usize), VariantError>)
    requires
        align > 0,
        n_bytes_before + 4 <= usize::MAX,
    ensures
        match array_extent(bytes@, align as int, n_bytes_before as int, e) {
            Ok((first, end)) => r matches Ok((contents, used)) && contents@ == bytes@.subrange(
                first,
                end,
            ) && used == end,
            Err(err) => r matches Err(got) && got == err,
        },
{
    if bytes.len() < 4 {
        return Err(VariantError::InsufficientData);
    }
    let len: u32 = read_u32(bytes, e);
    if len as u64 >= MAX_ARRAY_LEN as u64 {
        return Err(VariantError::InvalidData);
    }
    let pad: usize = padding_for_n_bytes(n_bytes_before + 4, align);
    if pad > bytes.len() - 4 || len as usize > bytes.len() - 4 - pad {
        return Err(VariantError::InsufficientData);
    }
    let first: usize = 4 + pad;
    let end: usize = first + len as usize;
    Ok((slice_subrange(bytes, first, end), end))
}

/// An array without elements takes its length, which is zero, and the
/// padding before and behind the length, whatever its elements would be:
/// four bytes and padding, all of them zero.
pub proof fn lemma_empty_array(align: int, n_bytes_before: int, e: Endian)
    requires
        0 <= n_bytes_before,
        0 < align,
    ensures
        ({
            let bytes = array_encoding(Seq::empty(), align, n_bytes_before, e);
            let pad = padding(n_bytes_before, 4);
            &&& bytes.len() == pad + 4 + padding(n_bytes_before + pad + 4, align)
            &&& bytes == zeros(bytes.len() as int)
            &&& n_bytes_before + bytes.len() == contents_start(n_bytes_before, align)
            &&& is_aligned(n_bytes_before + bytes.len(), align)
        }),
{
    let pad = padding(n_bytes_before, 4);
    lemma_padding_aligns(n_bytes_before, 4);
    lemma_padding_aligns(n_bytes_before + pad + 4, align);
    let bytes = array_encoding(Seq::empty(), align, n_bytes_before, e);
    let length = u32_bytes(0, e);
    assert(length.len() == 4);
    assert(length =~= zeros(4)) by {
        assert(length[0] == 0 && length[1] == 0 && length[2] == 0 && length[3] == 0);
    }
    assert(bytes =~= zeros(bytes.len() as int));
}

/// An array written at any offset takes the padding to a multiple of
/// four, four bytes of length, the padding to the alignment of its
/// elements, and its contents; the first element stands aligned.
pub proof fn lemma_array_encoded_len(
    contents: Seq<u8>,
    align: int,
    n_bytes_before: int,
    e: Endian,
)
    requires
        0 <= n_bytes_before,
        0 < align,
    ensures
        array_encoding(contents, align, n_bytes_before, e).len() == padding(n_bytes_before, 4) + 4
            + padding(n_bytes_before + padding(n_bytes_before, 4) + 4, align) + contents.len(),
        is_aligned(contents_start(n_bytes_before, align), align),
        is_aligned(n_bytes_before + padding(n_bytes_before, 4), 4),
{
    lemma_padding_aligns(n_bytes_before, 4);
    lemma_padding_aligns(n_bytes_before + padding(n_bytes_before, 4) + 4, align);
    assert(u32_bytes(contents.len() as int, e).len() == 4);
}

/// Taking an array frame apart gives back the contents that were framed,
/// at every offset and in either byte order: past the padding, the frame
/// is the whole of what remains. This holds of contents shorter than
/// 2^26 bytes.
pub proof fn lemma_array_roundtrip(contents: Seq<u8>, align: int, n_bytes_before: int, e: Endian)
    requires
        0 <= n_bytes_before,
        0 < align,
        contents.len() < MAX_ARRAY_LEN,
    ensures
        ({
            let pad = padding(n_bytes_before, 4);
            let frame = array_encoding(contents, align, n_bytes_before, e).skip(pad);
            &&& array_extent(frame, align, n_bytes_before + pad, e) matches Ok((first, end))
            &&& end == frame.len()
            &&& frame.subrange(first, end) == contents
        }),
{
    let pad = padding(n_bytes_before, 4);
    lemma_padding_aligns(n_bytes_before, 4);
    lemma_padding_aligns(n_bytes_before + pad + 4, align);
    let n = contents.len() as int;
    let head = u32_bytes(n, e);
    lemma_u32_roundtrip(n, e);
    let gap = padding(n_bytes_before + pad + 4, align);
    let frame = array_encoding(contents, align, n_bytes_before, e).skip(pad);
    assert(frame =~= head + zeros(gap) + contents);
    assert(frame[0] == head[0] && frame[1] == head[1] && frame[2] == head[2] && frame[3]
        == head[3]);
    assert(u32_value(frame, e) == n);
    assert(frame.subrange(4 + gap, 4 + gap + n) =~= contents);
}

/// The encoded elements of an array of values of fixed size, one after
/// another: each is as long as its alignment, so none needs padding.
pub open spec fn items_bytes(items: Seq<Basic>, e: Endian) -> Seq<u8>
    decreases items.len(),
{
    if items.len() == 0 {
        Seq::<u8>::empty()
    } else {
        items_bytes(items.drop_last(), e) + uint_bytes(
            items.last().raw(),
            width_of(items.last().code()),
            e,
        )
    }
}

/// Whether every value is of the type with the given code.
pub open spec fn all_of(code: u8, items: Seq<Basic>) -> bool {
    forall|i: int| 0 <= i < items.len() ==> (#[trigger] items[i]).code() == code
}

/// Wire form of an array of values of the type of fixed size `code`, or
/// the reason why there is none: the code is not that of such a type, a
/// value is of another type, or the elements take 2^26 bytes or more.
pub open spec fn basic_array_encoding(code: u8, items: Seq<Basic>, n_bytes_before: int, e: Endian)
    -> Result<Seq<u8>, VariantError> {
    if width_of(code) == 0 || !all_of(code, items) {
        Err(VariantError::SignatureMismatch)
    } else if items.len() * width_of(code) >= MAX_ARRAY_LEN {
        Err(VariantError::InvalidData)
    } else {
        Ok(array_encoding(items_bytes(items, e), width_of(code), n_bytes_before, e))
    }
}

/// The values of the type `code` that the contents of an array hold, or
/// the reason why they hold none: an element is no value of the type, or
/// the contents end inside an element.
pub open spec fn items_of(code: u8, contents: Seq<u8>, e: Endian) -> Result<
    Seq<Basic>,
    VariantError,
>
    decreases contents.len(),
{
    let w = width_of(code);
    if w <= 0 {
        Err(VariantError::SignatureMismatch)
    } else if contents.len() == 0 {
        Ok(Seq::<Basic>::empty())
    } else if contents.len() < w {
        Err(VariantError::InvalidData)
    } else {
        match basic_decoding(code, contents.take(w), e) {
            Err(err) => Err(err),
            Ok(first) => match items_of(code, contents.skip(w), e) {
                Err(err) => Err(err),
                Ok(rest) => Ok(seq![first] + rest),
            },
        }
    }
}

/// `items` before what `rest` holds, where it holds values.
pub open spec fn items_before(items: Seq<Basic>, rest: Result<Seq<Basic>, VariantError>) -> Result<
    Seq<Basic>,
    VariantError,
> {
    match rest {
        Ok(more) => Ok(items + more),
        Err(err) => Err(err),
    }
}

/// The values of the type `code` in the array frame at the head of
/// `bytes`.
pub open spec fn basic_array_decoding(code: u8, bytes: Seq<u8>, n_bytes_before: int, e: Endian)
    -> Result<Seq<Basic>, VariantError> {
    if width_of(code) == 0 {
        Err(VariantError::SignatureMismatch)
    } else {
        match array_extent(bytes, width_of(code), n_bytes_before, e) {
            Err(err) => Err(err),
            Ok((first, end)) => items_of(code, bytes.subrange(first, end), e),
        }
    }
}

/// Encodes an array of values of the type of fixed size `code`.
#[verifier::rlimit(30)]
pub fn encode_basic_array(code: u8, items: &[Basic], n_bytes_before: usize, e: Endian) -> (r:
    Result<Vec<u8>, VariantError>)
    requires
        n_bytes_before + 8 <= usize::MAX,
    ensures
        match basic_array_encoding(code, items@, n_bytes_before as int, e) {
            Ok(bytes) => r matches Ok(got) && got@ == bytes,
            Err(err) => r matches Err(got) && got == err,
        },
{
    let width: usize = match alignment(code) {
        Some(w) => w,
        None => {
            return Err(VariantError::SignatureMismatch);
        },
    };
    let mut i: usize = 0;
    while i < items.len()
        invariant
            i <= items.len(),
            forall|j: int| 0 <= j < i ==> (#[trigger] items@[j]).code() == code,
        decreases items.len() - i,
    {
        if items[i].signature_code() != code {
            assert(!all_of(code, items@));
            return Err(VariantError::SignatureMismatch);
        }
        i = i + 1;
    }
    if items.len() >= MAX_ARRAY_LEN / width {
        assert(items@.len() * width_of(code) >= MAX_ARRAY_LEN) by (nonlinear_arith)
            requires
                items@.len() >= MAX_ARRAY_LEN as int / width as int,
                width_of(code) == width,
                width == 1 || width == 2 || width == 4 || width == 8,
        ;
        return Err(VariantError::InvalidData);
    }
    assert(items@.len() * width_of(code) < MAX_ARRAY_LEN) by (nonlinear_arith)
        requires
            items@.len() < MAX_ARRAY_LEN as int / width as int,
            width_of(code) == width,
            width == 1 || width == 2 || width == 4 || width == 8,
    ;
    let mut contents: Vec<u8> = Vec::new();
    let mut k: usize = 0;
    assert(items@.take(0) =~= Seq::<Basic>::empty());
    while k < items.len()
        invariant
            k <= items.len(),
            width == width_of(code),
            width > 0,
            all_of(code, items@),
            contents@ == items_bytes(items@.take(k as int), e),
            contents@.len() == k * width,
            items@.len() * width < MAX_ARRAY_LEN,
        decreases items.len() - k,
    {
        let ghost next = items@.take(k + 1);
        assert(next.drop_last() =~= items@.take(k as int));
        assert(next.last() == items@[k as int]);
        // An element stands aligned wherever it stands in the contents.
        let piece: Vec<u8> = items[k].encode(0, e);
        proof {
            lemma_padding_aligns(0, width as int);
            assert(piece@ =~= uint_bytes(items@[k as int].raw(), width as int, e));
            assert(piece@.len() == width) by {
                assert(crate::basic::le_bytes8(items@[k as int].raw()).take(width as int).len()
                    == width);
            }
            assert((k + 1) * width == k * width + width) by (nonlinear_arith);
        }
        push_bytes(&mut contents, piece.as_slice());
        k = k + 1;
    }
    assert(items@.take(k as int) =~= items@);
    encode_array(contents.as_slice(), width, n_bytes_before, e)
}

/// Reads the values of the type of fixed size `code` from the array frame
/// at the head of `bytes`, which starts `n_bytes_before` bytes into the
/// message, on a multiple of four.
#[verifier::rlimit(30)]
pub fn decode_basic_array(code: u8, bytes: &[u8], n_bytes_before: usize, e: Endian) -> (r: Result<
    Vec<Basic>,
    VariantError,
>)
    requires
        n_bytes_before + 4 <= usize::MAX,
    ensures
        match basic_array_decoding(code, bytes@, n_bytes_before as int, e) {
            Ok(items) => r matches Ok(got) && got@ == items,
            Err(err) => r matches Err(got) && got == err,
        },
{
    let width: usize = match alignment(code) {
        Some(w) => w,
        None => {
            return Err(VariantError::SignatureMismatch);
        },
    };
    let contents: &[u8] = match extract_array(bytes, width, n_bytes_before, e) {
        Ok((contents, _)) => contents,
        Err(err) => {
            return Err(err);
        },
    };
    let mut items: Vec<Basic> = Vec::new();
    let mut at: usize = 0;
    assert(contents@.skip(0) =~= contents@);
    proof {
        let all = items_of(code, contents@, e);
        if all is Ok {
            assert(Seq::<Basic>::empty() + all.unwrap() =~= all.unwrap());
        }
    }
    while at < contents.len()
        invariant
            at <= contents.len(),
            width == width_of(code),
            width > 0,
            basic_array_decoding(code, bytes@, n_bytes_before as int, e) == items_of(
                code,
                contents@,
                e,
            ),
            items_of(code, contents@, e) == items_before(
                items@,
                items_of(code, contents@.skip(at as int), e),
            ),
        decreases contents.len() - at,
    {
        let ghost rest = contents@.skip(at as int);
        if contents.len() - at < width {
            return Err(VariantError::InvalidData);
        }
        let element = slice_subrange(contents, at, at + width);
        assert(rest.take(width as int) =~= element@);
        assert(rest.skip(width as int) =~= contents@.skip(at + width));
        match Basic::decode(code, element, e) {
            Ok(v) => {
                proof {
                    let tail = items_of(code, contents@.skip(at + width), e);
                    if tail is Ok {
                        assert(items@ + (seq![v] + tail.unwrap()) =~= items@.push(v)
                            + tail.unwrap());
                    }
                }
                items.push(v);
            },
            Err(err) => {
                return Err(err);
            },
        }
        at = at + width;
    }
    assert(contents@.skip(at as int) =~= Seq::<u8>::empty());
    assert(items@ + Seq::<Basic>::empty() =~= items@);
    Ok(items)
}

/// The encoded elements of values are the first value's bytes and then
/// the others'.
proof fn lemma_items_bytes_front(items: Seq<Basic>, e: Endian)
    requires
        items.len() > 0,
    ensures
        items_bytes(items, e) == uint_bytes(items[0].raw(), width_of(items[0].code()), e)
            + items_bytes(items.drop_first(), e),
    decreases items.len(),
{
    if items.len() == 1 {
        assert(items.drop_last() =~= Seq::<Basic>::empty());
        assert(items.drop_first() =~= Seq::<Basic>::empty());
        assert(items.drop_last().len() == 0);
        assert(items_bytes(items.drop_last(), e) =~= Seq::<u8>::empty());
        assert(items_bytes(items.drop_first(), e) =~= Seq::<u8>::empty());
        assert(items.last() == items[0]);
        assert(items_bytes(items, e) =~= uint_bytes(
            items[0].raw(),
            width_of(items[0].code()),
            e,
        ));
    } else {
        lemma_items_bytes_front(items.drop_last(), e);
        assert(items.drop_last().drop_first() =~= items.drop_first().drop_last());
        assert(items.drop_first().last() == items.last());
        assert(items_bytes(items, e) =~= uint_bytes(
            items[0].raw(),
            width_of(items[0].code()),
            e,
        ) + items_bytes(items.drop_first(), e));
    }
}

/// The encoded elements of values of one type hold those values.
proof fn lemma_items_read_back(code: u8, items: Seq<Basic>, e: Endian)
    requires
        width_of(code) > 0,
        all_of(code, items),
    ensures
        items_of(code, items_bytes(items, e), e) == Ok::<Seq<Basic>, VariantError>(items),
        items_bytes(items, e).len() == items.len() * width_of(code),
    decreases items.len(),
{
    let w = width_of(code);
    if items.len() == 0 {
        assert(items =~= Seq::<Basic>::empty());
    } else {
        let first = items[0];
        let rest = items.drop_first();
        lemma_items_bytes_front(items, e);
        assert(all_of(code, rest)) by {
            assert forall|i: int| 0 <= i < rest.len() implies (#[trigger] rest[i]).code()
                == code by {
                assert(rest[i] == items[i + 1]);
            }
        }
        lemma_items_read_back(code, rest, e);
        let head = uint_bytes(first.raw(), w, e);
        let contents = items_bytes(items, e);
        crate::basic::lemma_basic_roundtrip(first, 0, e);
        lemma_padding_aligns(0, w);
        assert(crate::basic::basic_encoding(first, 0, e).skip(0) =~= head);
        assert(head.len() == w) by {
            assert(crate::basic::le_bytes8(first.raw()).take(w).len() == w);
        }
        assert(contents.take(w) =~= head);
        assert(contents.skip(w) =~= items_bytes(rest, e));
        assert(seq![first] + rest =~= items);
        assert((rest.len() + 1) * w == rest.len() * w + w) by (nonlinear_arith);
    }
}

/// Decoding an encoded array of values of fixed size gives the values
/// back, at every offset and in either byte order.
pub proof fn lemma_basic_array_roundtrip(
    code: u8,
    items: Seq<Basic>,
    n_bytes_before: int,
    e: Endian,
)
    requires
        0 <= n_bytes_before,
        basic_array_encoding(code, items, n_bytes_before, e) is Ok,
    ensures
        basic_array_decoding(
            code,
            basic_array_encoding(code, items, n_bytes_before, e).unwrap().skip(
                padding(n_bytes_before, 4),
            ),
            n_bytes_before + padding(n_bytes_before, 4),
            e,
        ) == Ok::<Seq<Basic>, VariantError>(items),
{
    let w = width_of(code);
    lemma_items_read_back(code, items, e);
    lemma_array_roundtrip(items_bytes(items, e), w, n_bytes_before, e);
}

} // verus!
