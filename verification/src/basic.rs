//! Wire form of the types of fixed size: each is aligned to its size and
//! written as a number of that size in the byte order of the message.

use vstd::prelude::*;
use crate::align::{is_aligned, lemma_padding_aligns, padding, padding_for_n_bytes, push_zeros, zeros};
use crate::endian::Endian;
use crate::error::VariantError;
use crate::signature::{
    BOOLEAN, BYTE, DOUBLE, INT16, INT32, INT64, UINT16, UINT32, UINT64, UNIX_FD,
};

verus! {

/// A value of a type of fixed size.
#[derive(Debug, Clone, Copy, PartialEq, Eq, Structural)]
pub enum Basic {
    /// `y`
    Byte(u8),
    /// `b`
    Boolean(bool),
    /// `n`
    Int16(i16),
    /// `q`
    Uint16(u16),
    /// `i`
    Int32(i32),
    /// `u`
    Uint32(u32),
    /// `x`
    Int64(i64),
    /// `t`
    Uint64(u64),
    /// `d`, held as the 64 bits of the number.
    Double(u64),
    /// `h`, an index into the file descriptors of the message.
    UnixFd(u32),
}

/// Size and alignment of the type with the given code; zero where the
/// code is not that of a type of fixed size.
pub open spec fn width_of(code: u8) -> int {
    if code == BYTE {
        1
    } else if code == INT16 || code == UINT16 {
        2
    } else if code == BOOLEAN || code == INT32 || code == UINT32 || code == UNIX_FD {
        4
    } else if code == INT64 || code == UINT64 || code == DOUBLE {
        8
    } else {
        0
    }
}

/// The number of values that `width` bytes can hold.
pub open spec fn limit(width: int) -> int {
    if width == 1 {
        0x100
    } else if width == 2 {
        0x1_0000
    } else if width == 4 {
        0x1_0000_0000
    } else {
        0x1_0000_0000_0000_0000
    }
}

impl Basic {
    /// The code of the type of the value.
    pub open spec fn code(self) -> u8 {
        match self {
            Basic::Byte(_) => BYTE,
            Basic::Boolean(_) => BOOLEAN,
            Basic::Int16(_) => INT16,
            Basic::Uint16(_) => UINT16,
            Basic::Int32(_) => INT32,
            Basic::Uint32(_) => UINT32,
            Basic::Int64(_) => INT64,
            Basic::Uint64(_) => UINT64,
            Basic::Double(_) => DOUBLE,
            Basic::UnixFd(_) => UNIX_FD,
        }
    }

    /// The number that is written for the value: the value itself, one
    /// for true and zero for false, and for a negative number the value
    /// plus the number of values that its size can hold.
    pub open spec fn raw(self) -> int {
        match self {
            Basic::Byte(v) => v as int,
            Basic::Boolean(v) => if v {
                1
            } else {
                0
            },
            Basic::Int16(v) => if v < 0 {
                v + limit(2)
            } else {
                v as int
            },
            Basic::Uint16(v) => v as int,
            Basic::Int32(v) => if v < 0 {
                v + limit(4)
            } else {
                v as int
            },
            Basic::Uint32(v) => v as int,
            Basic::Int64(v) => if v < 0 {
                v + limit(8)
            } else {
                v as int
            },
            Basic::Uint64(v) => v as int,
            Basic::Double(v) => v as int,
            Basic::UnixFd(v) => v as int,
        }
    }

    /// The value of the type `code` that is written as the number `raw`,
    /// if there is one: a boolean is written as zero or one only.
    pub open spec fn from_raw(code: u8, raw: int) -> Option<Basic> {
        if code == BYTE {
            Some(Basic::Byte(raw as u8))
        } else if code == BOOLEAN {
            if raw == 0 {
                Some(Basic::Boolean(false))
            } else if raw == 1 {
                Some(Basic::Boolean(true))
            } else {
                None
            }
        } else if code == INT16 {
            Some(
                Basic::Int16(
                    if raw >= 0x8000 {
                        (raw - limit(2)) as i16
                    } else {
                        raw as i16
                    },
                ),
            )
        } else if code == UINT16 {
            Some(Basic::Uint16(raw as u16))
        } else if code == INT32 {
            Some(
                Basic::Int32(
                    if raw >= 0x8000_0000 {
                        (raw - limit(4)) as i32
                    } else {
                        raw as i32
                    },
                ),
            )
        } else if code == UINT32 {
            Some(Basic::Uint32(raw as u32))
        } else if code == INT64 {
            Some(
                Basic::Int64(
                    if raw >= 0x8000_0000_0000_0000 {
                        (raw - limit(8)) as i64
                    } else {
                        raw as i64
                    },
                ),
            )
        } else if code == UINT64 {
            Some(Basic::Uint64(raw as u64))
        } else if code == DOUBLE {
            Some(Basic::Double(raw as u64))
        } else if code == UNIX_FD {
            Some(Basic::UnixFd(raw as u32))
        } else {
            None
        }
    }
}

/// The eight bytes of `n`, least significant first.
pub open spec fn le_bytes8(n: int) -> Seq<u8> {
    seq![
        (n % 0x100) as u8,
        (n / 0x100 % 0x100) as u8,
        (n / 0x1_0000 % 0x100) as u8,
        (n / 0x100_0000 % 0x100) as u8,
        (n / 0x1_0000_0000 % 0x100) as u8,
        (n / 0x100_0000_0000 % 0x100) as u8,
        (n / 0x1_0000_0000_0000 % 0x100) as u8,
        (n / 0x100_0000_0000_0000 % 0x100) as u8,
    ]
}

/// The `width` bytes of `n` in byte order `e`.
pub open spec fn uint_bytes(n: int, width: int, e: Endian) -> Seq<u8> {
    match e {
        Endian::Little => le_bytes8(n).take(width),
        Endian::Big => le_bytes8(n).take(width).reverse(),
    }
}

/// The number that bytes spell, least significant byte first.
pub open spec fn le_value(b: Seq<u8>) -> int
    decreases b.len(),
{
    if b.len() == 0 {
        0
    } else {
        b[0] as int + 0x100 * le_value(b.drop_first())
    }
}

/// The number that the first `width` bytes of `b` spell in byte order `e`.
pub open spec fn uint_value(b: Seq<u8>, width: int, e: Endian) -> int {
    match e {
        Endian::Little => le_value(b.take(width)),
        Endian::Big => le_value(b.take(width).reverse()),
    }
}

/// Wire form of a value written after `n_bytes_before` bytes of message.
pub open spec fn basic_encoding(v: Basic, n_bytes_before: int, e: Endian) -> Seq<u8> {
    zeros(padding(n_bytes_before, width_of(v.code()))) + uint_bytes(
        v.raw(),
        width_of(v.code()),
        e,
    )
}

/// The value of the type `code` at the head of `bytes`.
pub open spec fn basic_decoding(code: u8, bytes: Seq<u8>, e: Endian) -> Result<Basic, VariantError> {
    if width_of(code) == 0 {
        Err(VariantError::SignatureMismatch)
    } else if bytes.len() < width_of(code) {
        Err(VariantError::InsufficientData)
    } else {
        match Basic::from_raw(code, uint_value(bytes, width_of(code), e)) {
            Some(v) => Ok(v),
            None => Err(VariantError::InvalidData),
        }
    }
}

/// Size and alignment of the type with the given code, where it is a type
/// of fixed size.
pub fn alignment(code: u8) -> (r: Option<usize>)
    ensures
        match r {
            Some(w) => w == width_of(code) && w > 0,
            None => width_of(code) == 0,
        },
{
    if code == BYTE {
        Some(1)
    } else if code == INT16 || code == UINT16 {
        Some(2)
    } else if code == BOOLEAN || code == INT32 || code == UINT32 || code == UNIX_FD {
        Some(4)
    } else if code == INT64 || code == UINT64 || code == DOUBLE {
        Some(8)
    } else {
        None
    }
}

/// Appends the `width` low bytes of `n` in byte order `e`.
#[verifier::rlimit(30)]
fn push_uint(out: &mut Vec<u8>, n: u64, width: usize, e: Endian)
    requires
        width == 1 || width == 2 || width == 4 || width == 8,
    ensures
        final(out)@ == old(out)@ + uint_bytes(n as int, width as int, e),
{
    let mut bytes: Vec<u8> = Vec::new();
    bytes.push((n % 0x100) as u8);
    bytes.push((n / 0x100 % 0x100) as u8);
    bytes.push((n / 0x1_0000 % 0x100) as u8);
    bytes.push((n / 0x100_0000 % 0x100) as u8);
    bytes.push((n / 0x1_0000_0000 % 0x100) as u8);
    bytes.push((n / 0x100_0000_0000 % 0x100) as u8);
    bytes.push((n / 0x1_0000_0000_0000 % 0x100) as u8);
    bytes.push((n / 0x100_0000_0000_0000 % 0x100) as u8);
    assert(bytes@ =~= le_bytes8(n as int));
    let ghost low = le_bytes8(n as int).take(width as int);
    let mut i: usize = 0;
    while i < width
        invariant
            i <= width <= 8,
            bytes@ == le_bytes8(n as int),
            low == le_bytes8(n as int).take(width as int),
            out@ == old(out)@ + (match e {
                Endian::Little => low.take(i as int),
                Endian::Big => low.reverse().take(i as int),
            }),
        decreases width - i,
    {
        match e {
            Endian::Little => {
                out.push(bytes[i]);
                assert(low.take(i + 1) =~= low.take(i as int).push(bytes@[i as int]));
            },
            Endian::Big => {
                out.push(bytes[width - 1 - i]);
                assert(low.reverse().take(i + 1) =~= low.reverse().take(i as int).push(
                    bytes@[width - 1 - i],
                ));
            },
        }
        i = i + 1;
    }
    assert(low.take(width as int) =~= low);
    assert(low.reverse().take(width as int) =~= low.reverse());
}

/// Reads the number that the first `width` bytes of `bytes` spell.
#[verifier::rlimit(30)]
fn read_uint(bytes: &[u8], width: usize, e: Endian) -> (n: u64)
    requires
        width == 1 || width == 2 || width == 4 || width == 8,
        bytes@.len() >= width,
    ensures
        n as int == uint_value(bytes@, width as int, e),
        n < limit(width as int),
{
    let ghost field = match e {
        Endian::Little => bytes@.take(width as int),
        Endian::Big => bytes@.take(width as int).reverse(),
    };
    let mut n: u64 = 0;
    let mut i: usize = width;
    assert(field.skip(width as int) =~= Seq::<u8>::empty());
    while i > 0
        invariant
            i <= width <= 8,
            width == 1 || width == 2 || width == 4 || width == 8,
            bytes@.len() >= width,
            field == (match e {
                Endian::Little => bytes@.take(width as int),
                Endian::Big => bytes@.take(width as int).reverse(),
            }),
            n as int == le_value(field.skip(i as int)),
            width - i == 0 ==> n == 0,
            width - i == 1 ==> n < 0x100,
            width - i == 2 ==> n < 0x1_0000,
            width - i == 3 ==> n < 0x100_0000,
            width - i == 4 ==> n < 0x1_0000_0000,
            width - i == 5 ==> n < 0x100_0000_0000,
            width - i == 6 ==> n < 0x1_0000_0000_0000,
            width - i == 7 ==> n < 0x100_0000_0000_0000,
        decreases i,
    {
        i = i - 1;
        let b: u8 = match e {
            Endian::Little => bytes[i],
            Endian::Big => bytes[width - 1 - i],
        };
        assert(field[i as int] == b);
        assert(field.skip(i as int).drop_first() =~= field.skip(i + 1));
        assert(field.skip(i as int)[0] == b);
        n = b as u64 + 0x100 * n;
    }
    assert(field.skip(0) =~= field);
    n
}

impl Basic {
    /// The code of the type of the value.
    pub fn signature_code(&self) -> (c: u8)
        ensures
            c == self.code(),
            width_of(c) > 0,
    {
        match self {
            Basic::Byte(_) => BYTE,
            Basic::Boolean(_) => BOOLEAN,
            Basic::Int16(_) => INT16,
            Basic::Uint16(_) => UINT16,
            Basic::Int32(_) => INT32,
            Basic::Uint32(_) => UINT32,
            Basic::Int64(_) => INT64,
            Basic::Uint64(_) => UINT64,
            Basic::Double(_) => DOUBLE,
            Basic::UnixFd(_) => UNIX_FD,
        }
    }

    /// The number that is written for the value.
    fn to_raw(&self) -> (n: u64)
        ensures
            n as int == self.raw(),
            n < limit(width_of(self.code())),
    {
        match *self {
            Basic::Byte(v) => v as u64,
            Basic::Boolean(v) => if v {
                1
            } else {
                0
            },
            Basic::Int16(v) => if v < 0 {
                (v as i64 + 0x1_0000) as u64
            } else {
                v as u64
            },
            Basic::Uint16(v) => v as u64,
            Basic::Int32(v) => if v < 0 {
                (v as i64 + 0x1_0000_0000) as u64
            } else {
                v as u64
            },
            Basic::Uint32(v) => v as u64,
            Basic::Int64(v) => if v < 0 {
                (v as i128 + 0x1_0000_0000_0000_0000) as u64
            } else {
                v as u64
            },
            Basic::Uint64(v) => v,
            Basic::Double(v) => v,
            Basic::UnixFd(v) => v as u64,
        }
    }

    /// Encodes the value for a place `n_bytes_before` bytes into the
    /// message: padding to a multiple of its size, then the value.
    pub fn encode(&self, n_bytes_before: usize, e: Endian) -> (bytes: Vec<u8>)
        ensures
            bytes@ == basic_encoding(*self, n_bytes_before as int, e),
    {
        let width: usize = match alignment(self.signature_code()) {
            Some(w) => w,
            None => 1,
        };
        let mut bytes: Vec<u8> = Vec::new();
        push_zeros(&mut bytes, padding_for_n_bytes(n_bytes_before, width));
        push_uint(&mut bytes, self.to_raw(), width, e);
        bytes
    }

    /// Reads the value of the type `code` at the head of `bytes`. A code
    /// that is not that of a type of fixed size is a mismatch, and a
    /// boolean other than zero or one is invalid.
    #[verifier::rlimit(30)]
    pub fn decode(code: u8, bytes: &[u8], e: Endian) -> (r: Result<Basic, VariantError>)
        ensures
            r == basic_decoding(code, bytes@, e),
    {
        let width: usize = match alignment(code) {
            Some(w) => w,
            None => {
                return Err(VariantError::SignatureMismatch);
            },
        };
        if bytes.len() < width {
            return Err(VariantError::InsufficientData);
        }
        let raw: u64 = read_uint(bytes, width, e);
        if code == BYTE {
            Ok(Basic::Byte(raw as u8))
        } else if code == BOOLEAN {
            if raw == 0 {
                Ok(Basic::Boolean(false))
            } else if raw == 1 {
                Ok(Basic::Boolean(true))
            } else {
                Err(VariantError::InvalidData)
            }
        } else if code == INT16 {
            if raw >= 0x8000 {
                Ok(Basic::Int16((raw as i64 - 0x1_0000) as i16))
            } else {
                Ok(Basic::Int16(raw as i16))
            }
        } else if code == UINT16 {
            Ok(Basic::Uint16(raw as u16))
        } else if code == INT32 {
            if raw >= 0x8000_0000 {
                Ok(Basic::Int32((raw as i64 - 0x1_0000_0000) as i32))
            } else {
                Ok(Basic::Int32(raw as i32))
            }
        } else if code == UINT32 {
            Ok(Basic::Uint32(raw as u32))
        } else if code == INT64 {
            if raw >= 0x8000_0000_0000_0000 {
                Ok(Basic::Int64((raw as i128 - 0x1_0000_0000_0000_0000) as i64))
            } else {
                Ok(Basic::Int64(raw as i64))
            }
        } else if code == UINT64 {
            Ok(Basic::Uint64(raw))
        } else if code == DOUBLE {
            Ok(Basic::Double(raw))
        } else {
            Ok(Basic::UnixFd(raw as u32))
        }
    }
}

/// A number is the sum of its bytes, each times the weight of its place.
#[verifier::rlimit(30)]
proof fn lemma_digits(n: int)
    requires
        0 <= n,
    ensures
        n == n % 0x100 + 0x100 * (n / 0x100),
        n == n % 0x100 + 0x100 * (n / 0x100 % 0x100) + 0x1_0000 * (n / 0x1_0000),
        n == n % 0x100 + 0x100 * (n / 0x100 % 0x100) + 0x1_0000 * (n / 0x1_0000 % 0x100)
            + 0x100_0000 * (n / 0x100_0000 % 0x100) + 0x1_0000_0000 * (n / 0x1_0000_0000),
        n == n % 0x100 + 0x100 * (n / 0x100 % 0x100) + 0x1_0000 * (n / 0x1_0000 % 0x100)
            + 0x100_0000 * (n / 0x100_0000 % 0x100) + 0x1_0000_0000 * (n / 0x1_0000_0000 % 0x100)
            + 0x100_0000_0000 * (n / 0x100_0000_0000 % 0x100) + 0x1_0000_0000_0000 * (n
            / 0x1_0000_0000_0000 % 0x100) + 0x100_0000_0000_0000 * (n / 0x100_0000_0000_0000
            % 0x100) + 0x1_0000_0000_0000_0000 * (n / 0x1_0000_0000_0000_0000),
{
    let q1 = n / 0x100;
    let q2 = n / 0x1_0000;
    let q3 = n / 0x100_0000;
    let q4 = n / 0x1_0000_0000;
    let q5 = n / 0x100_0000_0000;
    let q6 = n / 0x1_0000_0000_0000;
    let q7 = n / 0x100_0000_0000_0000;
    let q8 = n / 0x1_0000_0000_0000_0000;
    vstd::arithmetic::div_mod::lemma_div_denominator(n, 0x100, 0x100);
    vstd::arithmetic::div_mod::lemma_div_denominator(n, 0x1_0000, 0x100);
    vstd::arithmetic::div_mod::lemma_div_denominator(n, 0x100_0000, 0x100);
    vstd::arithmetic::div_mod::lemma_div_denominator(n, 0x1_0000_0000, 0x100);
    vstd::arithmetic::div_mod::lemma_div_denominator(n, 0x100_0000_0000, 0x100);
    vstd::arithmetic::div_mod::lemma_div_denominator(n, 0x1_0000_0000_0000, 0x100);
    vstd::arithmetic::div_mod::lemma_div_denominator(n, 0x100_0000_0000_0000, 0x100);
    assert(q2 == q1 / 0x100);
    assert(q3 == q2 / 0x100);
    assert(q4 == q3 / 0x100);
    assert(q5 == q4 / 0x100);
    assert(q6 == q5 / 0x100);
    assert(q7 == q6 / 0x100);
    assert(q8 == q7 / 0x100);
    assert(n == n % 0x100 + 0x100 * q1);
    assert(q1 == q1 % 0x100 + 0x100 * q2);
    assert(q2 == q2 % 0x100 + 0x100 * q3);
    assert(q3 == q3 % 0x100 + 0x100 * q4);
    assert(q4 == q4 % 0x100 + 0x100 * q5);
    assert(q5 == q5 % 0x100 + 0x100 * q6);
    assert(q6 == q6 % 0x100 + 0x100 * q7);
    assert(q7 == q7 % 0x100 + 0x100 * q8);
}

/// The bytes of a number spell that number.
#[verifier::rlimit(30)]
pub proof fn lemma_uint_roundtrip(n: int, width: int, e: Endian)
    requires
        width == 1 || width == 2 || width == 4 || width == 8,
        0 <= n < limit(width),
    ensures
        uint_bytes(n, width, e).len() == width,
        uint_value(uint_bytes(n, width, e), width, e) == n,
{
    let all = le_bytes8(n);
    let low = all.take(width);
    assert(low.len() == width);
    assert(low.reverse().reverse() =~= low);
    assert(uint_bytes(n, width, e).take(width) =~= uint_bytes(n, width, e));
    lemma_le_value(low);
    lemma_digits(n);
    assert(low[0] == all[0]);
    if width >= 2 {
        assert(low[1] == all[1]);
    }
    if width >= 4 {
        assert(low[2] == all[2] && low[3] == all[3]);
    }
    if width >= 8 {
        assert(low[4] == all[4] && low[5] == all[5] && low[6] == all[6] && low[7] == all[7]);
    }
    assert(le_value(low) == n);
}

/// The number that up to eight bytes spell, written out.
#[verifier::rlimit(30)]
proof fn lemma_le_value(b: Seq<u8>)
    requires
        b.len() == 1 || b.len() == 2 || b.len() == 4 || b.len() == 8,
    ensures
        b.len() == 1 ==> le_value(b) == b[0],
        b.len() == 2 ==> le_value(b) == b[0] + 0x100 * b[1],
        b.len() == 4 ==> le_value(b) == b[0] + 0x100 * b[1] + 0x1_0000 * b[2] + 0x100_0000
            * b[3],
        b.len() == 8 ==> le_value(b) == b[0] + 0x100 * b[1] + 0x1_0000 * b[2] + 0x100_0000 * b[3]
            + 0x1_0000_0000 * b[4] + 0x100_0000_0000 * b[5] + 0x1_0000_0000_0000 * b[6]
            + 0x100_0000_0000_0000 * b[7],
{
    reveal_with_fuel(le_value, 9);
    let b1 = b.drop_first();
    if b.len() >= 2 {
        assert(b1[0] == b[1]);
        let b2 = b1.drop_first();
        if b.len() >= 4 {
            assert(b2[0] == b[2]);
            let b3 = b2.drop_first();
            assert(b3[0] == b[3]);
            let b4 = b3.drop_first();
            if b.len() >= 8 {
                assert(b4[0] == b[4]);
                let b5 = b4.drop_first();
                assert(b5[0] == b[5]);
                let b6 = b5.drop_first();
                assert(b6[0] == b[6]);
                let b7 = b6.drop_first();
                assert(b7[0] == b[7]);
            }
        }
    }
}

/// A value written at any offset takes the padding to a multiple of its
/// size and then its size; it stands aligned.
pub proof fn lemma_basic_encoded_len(v: Basic, n_bytes_before: int, e: Endian)
    requires
        0 <= n_bytes_before,
    ensures
        basic_encoding(v, n_bytes_before, e).len() == padding(
            n_bytes_before,
            width_of(v.code()),
        ) + width_of(v.code()),
        is_aligned(
            n_bytes_before + padding(n_bytes_before, width_of(v.code())),
            width_of(v.code()),
        ),
{
    lemma_padding_aligns(n_bytes_before, width_of(v.code()));
    assert(le_bytes8(v.raw()).take(width_of(v.code())).len() == width_of(v.code()));
}

/// Decoding what was encoded gives the value back, at every offset and in
/// either byte order.
pub proof fn lemma_basic_roundtrip(v: Basic, n_bytes_before: int, e: Endian)
    requires
        0 <= n_bytes_before,
    ensures
        basic_decoding(
            v.code(),
            basic_encoding(v, n_bytes_before, e).skip(padding(n_bytes_before, width_of(v.code()))),
            e,
        ) == Ok::<Basic, VariantError>(v),
{
    let w = width_of(v.code());
    lemma_padding_aligns(n_bytes_before, w);
    let frame = basic_encoding(v, n_bytes_before, e).skip(padding(n_bytes_before, w));
    assert(frame =~= uint_bytes(v.raw(), w, e));
    lemma_uint_roundtrip(v.raw(), w, e);
}

} // verus!
