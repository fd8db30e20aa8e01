//! The grammar of type signatures.

use vstd::prelude::*;
use crate::text::all_ascii;

verus! {

/// `y`: an unsigned byte.
pub const BYTE: u8 = 0x79;

/// `b`: a boolean.
pub const BOOLEAN: u8 = 0x62;

/// `n`: a signed 16-bit integer.
pub const INT16: u8 = 0x6e;

/// `q`: an unsigned 16-bit integer.
pub const UINT16: u8 = 0x71;

/// `i`: a signed 32-bit integer.
pub const INT32: u8 = 0x69;

/// `u`: an unsigned 32-bit integer.
pub const UINT32: u8 = 0x75;

/// `x`: a signed 64-bit integer.
pub const INT64: u8 = 0x78;

/// `t`: an unsigned 64-bit integer.
pub const UINT64: u8 = 0x74;

/// `d`: a double-precision number.
pub const DOUBLE: u8 = 0x64;

/// `h`: an index into the file descriptors that travel with a message.
pub const UNIX_FD: u8 = 0x68;

/// `s`: a string.
pub const STRING: u8 = 0x73;

/// `o`: an object path.
pub const OBJECT_PATH: u8 = 0x6f;

/// `g`: a signature.
pub const SIGNATURE: u8 = 0x67;

/// `v`: a variant, a value that carries its own signature.
pub const VARIANT: u8 = 0x76;

/// `a`: an array of the type that follows.
pub const ARRAY: u8 = 0x61;

/// `(`: opens a structure.
pub const STRUCT_OPEN: u8 = 0x28;

/// `)`: closes a structure.
pub const STRUCT_CLOSE: u8 = 0x29;

/// `{`: opens a dictionary entry.
pub const DICT_OPEN: u8 = 0x7b;

/// `}`: closes a dictionary entry.
pub const DICT_CLOSE: u8 = 0x7d;

/// Whether `c` is the code of a type that is written with one character:
/// a basic type or a variant.
pub open spec fn is_code(c: u8) -> bool {
    c == BYTE || c == BOOLEAN || c == INT16 || c == UINT16 || c == INT32 || c == UINT32 || c
        == INT64 || c == UINT64 || c == DOUBLE || c == UNIX_FD || c == STRING || c == OBJECT_PATH
        || c == SIGNATURE || c == VARIANT
}

/// Where the single complete type that starts at `i` ends, if one starts
/// there: a one-character type; `a` and the type of the elements; `a{`, the
/// types of key and value, and `}`; or `(`, one or more types, and `)`.
pub open spec fn type_end(s: Seq<u8>, i: int) -> Option<int>
    decreases s.len() - i, 0int,
{
    if i < 0 || i >= s.len() {
        None
    } else if is_code(s[i]) {
        Some(i + 1)
    } else if s[i] == ARRAY {
        if i + 1 < s.len() && s[i + 1] == DICT_OPEN {
            let key = type_end(s, i + 2);
            if key is None || key.unwrap() <= i || key.unwrap() > s.len() {
                None
            } else {
                let value = type_end(s, key.unwrap());
                if value is Some && value.unwrap() < s.len() && s[value.unwrap()] == DICT_CLOSE {
                    Some(value.unwrap() + 1)
                } else {
                    None
                }
            }
        } else {
            type_end(s, i + 1)
        }
    } else if s[i] == STRUCT_OPEN {
        members_end(s, i + 1)
    } else {
        None
    }
}

/// Where the structure ends whose members start at `i`: behind the `)`
/// that follows one or more types.
pub open spec fn members_end(s: Seq<u8>, i: int) -> Option<int>
    decreases s.len() - i, 1int,
{
    let first = type_end(s, i);
    if first is None || first.unwrap() <= i || first.unwrap() > s.len() {
        None
    } else if first.unwrap() < s.len() && s[first.unwrap()] == STRUCT_CLOSE {
        Some(first.unwrap() + 1)
    } else {
        members_end(s, first.unwrap())
    }
}

/// Whether single complete types, one after another, fill `s` from `i` to
/// its end.
pub open spec fn types_from(s: Seq<u8>, i: int) -> bool
    decreases s.len() - i,
{
    if i >= s.len() {
        i == s.len()
    } else {
        let first = type_end(s, i);
        first is Some && i < first.unwrap() <= s.len() && types_from(s, first.unwrap())
    }
}

/// Whether `s` is a signature: no, one or several single complete types.
pub open spec fn is_signature(s: Seq<u8>) -> bool {
    types_from(s, 0)
}

/// Whether `s` is one single complete type.
pub open spec fn is_single_complete_type(s: Seq<u8>) -> bool {
    type_end(s, 0) == Some(s.len() as int)
}

/// A type takes at least one character and ends inside the text.
pub proof fn lemma_type_end_bounds(s: Seq<u8>, i: int)
    ensures
        type_end(s, i) matches Some(j) ==> 0 <= i < j <= s.len(),
    decreases s.len() - i, 0int,
{
    if 0 <= i < s.len() {
        if is_code(s[i]) {
        } else if s[i] == ARRAY {
            if i + 1 < s.len() && s[i + 1] == DICT_OPEN {
                let key = type_end(s, i + 2);
                if key is Some && i < key.unwrap() <= s.len() {
                    lemma_type_end_bounds(s, key.unwrap());
                }
            } else {
                lemma_type_end_bounds(s, i + 1);
            }
        } else if s[i] == STRUCT_OPEN {
            lemma_members_end_bounds(s, i + 1);
        }
    }
}

/// A structure's members take at least two characters with the bracket
/// that closes them, and end inside the text.
pub proof fn lemma_members_end_bounds(s: Seq<u8>, i: int)
    ensures
        members_end(s, i) matches Some(j) ==> i + 1 < j <= s.len(),
    decreases s.len() - i, 1int,
{
    let first = type_end(s, i);
    if first is Some && i < first.unwrap() <= s.len() {
        if first.unwrap() < s.len() && s[first.unwrap()] == STRUCT_CLOSE {
        } else {
            lemma_members_end_bounds(s, first.unwrap());
        }
    }
}

/// Whether every byte of `s` from `i` up to `k` is an ASCII code.
pub open spec fn ascii_between(s: Seq<u8>, i: int, k: int) -> bool {
    forall|j: int| i <= j < k ==> #[trigger] s[j] < 0x80
}

/// A type is written in ASCII.
pub proof fn lemma_type_ascii(s: Seq<u8>, i: int)
    requires
        type_end(s, i) is Some,
    ensures
        ascii_between(s, i, type_end(s, i).unwrap()),
    decreases s.len() - i, 0int,
{
    lemma_type_end_bounds(s, i);
    if is_code(s[i]) {
    } else if s[i] == ARRAY {
        if i + 1 < s.len() && s[i + 1] == DICT_OPEN {
            let key = type_end(s, i + 2).unwrap();
            lemma_type_end_bounds(s, i + 2);
            lemma_type_end_bounds(s, key);
            lemma_type_ascii(s, i + 2);
            lemma_type_ascii(s, key);
        } else {
            lemma_type_ascii(s, i + 1);
        }
    } else {
        lemma_members_ascii(s, i + 1);
    }
}

/// The members of a structure, with the bracket that closes them, are
/// written in ASCII.
pub proof fn lemma_members_ascii(s: Seq<u8>, i: int)
    requires
        members_end(s, i) is Some,
    ensures
        ascii_between(s, i, members_end(s, i).unwrap()),
    decreases s.len() - i, 1int,
{
    lemma_type_end_bounds(s, i);
    lemma_members_end_bounds(s, i);
    let first = type_end(s, i).unwrap();
    lemma_type_ascii(s, i);
    if first < s.len() && s[first] == STRUCT_CLOSE {
    } else {
        lemma_members_ascii(s, first);
    }
}

/// Types that fill a text to its end are written in ASCII.
pub proof fn lemma_types_ascii(s: Seq<u8>, i: int)
    requires
        0 <= i,
        types_from(s, i),
    ensures
        ascii_between(s, i, s.len() as int),
    decreases s.len() - i,
{
    if i < s.len() {
        lemma_type_ascii(s, i);
        lemma_types_ascii(s, type_end(s, i).unwrap());
    }
}

/// A signature is written in ASCII.
pub proof fn lemma_signature_ascii(s: Seq<u8>)
    requires
        is_signature(s),
    ensures
        all_ascii(s),
{
    lemma_types_ascii(s, 0);
}

/// One single complete type is a signature.
pub proof fn lemma_single_type_is_signature(s: Seq<u8>)
    requires
        is_single_complete_type(s),
    ensures
        is_signature(s),
{
    lemma_type_end_bounds(s, 0);
    assert(types_from(s, s.len() as int));
}

/// A container that has been opened and waits for what is inside it.
#[derive(Debug, Clone, Copy, PartialEq, Eq, Structural)]
pub enum Frame {
    /// An array that waits for the type of its elements.
    Array,
    /// A structure that has at least one member when the type at hand is
    /// complete.
    Struct,
    /// A dictionary entry that waits for its key.
    DictKey,
    /// A dictionary entry that waits for its value.
    DictValue,
}

/// Where the outermost open container ends, when a type has just ended
/// at `j` and the containers `open` are open, innermost last; `j` itself
/// where none is open.
pub open spec fn closes_at(s: Seq<u8>, j: int, open: Seq<Frame>) -> Option<int>
    decreases s.len() - j, open.len(), 1int,
{
    if open.len() == 0 {
        Some(j)
    } else {
        match open.last() {
            Frame::Array => closes_at(s, j, open.drop_last()),
            Frame::Struct => if 0 <= j < s.len() && s[j] == STRUCT_CLOSE {
                closes_at(s, j + 1, open.drop_last())
            } else {
                continues_at(s, j, open)
            },
            Frame::DictKey => continues_at(s, j, open.drop_last().push(Frame::DictValue)),
            Frame::DictValue => if 0 <= j < s.len() && s[j] == DICT_CLOSE {
                closes_at(s, j + 1, open.drop_last())
            } else {
                None
            },
        }
    }
}

/// Where the outermost open container ends, when a type is due at `i` and
/// the containers `open` are open.
pub open spec fn continues_at(s: Seq<u8>, i: int, open: Seq<Frame>) -> Option<int>
    decreases s.len() - i, open.len(), 0int,
{
    let first = type_end(s, i);
    if first is Some && i < first.unwrap() <= s.len() {
        closes_at(s, first.unwrap(), open)
    } else {
        None
    }
}

/// A structure ends where its members do, one after another.
#[verifier::rlimit(30)]
proof fn lemma_struct_members(s: Seq<u8>, i: int, open: Seq<Frame>)
    requires
        0 <= i,
    ensures
        continues_at(s, i, open.push(Frame::Struct)) == (match members_end(s, i) {
            Some(j) => closes_at(s, j, open),
            None => None,
        }),
    decreases s.len() - i,
{
    let inner = open.push(Frame::Struct);
    assert(inner.drop_last() =~= open);
    assert(inner.last() == Frame::Struct);
    let first = type_end(s, i);
    lemma_type_end_bounds(s, i);
    lemma_members_end_bounds(s, i);
    if first is Some {
        let m = first.unwrap();
        if m < s.len() && s[m] == STRUCT_CLOSE {
        } else {
            lemma_struct_members(s, m, open);
        }
    }
}

/// What a single character at `i` means where a type is due.
#[verifier::rlimit(30)]
proof fn lemma_step(s: Seq<u8>, i: int, open: Seq<Frame>)
    requires
        0 <= i < s.len(),
    ensures
        is_code(s[i]) ==> continues_at(s, i, open) == closes_at(s, i + 1, open),
        s[i] == ARRAY && !(i + 1 < s.len() && s[i + 1] == DICT_OPEN) ==> continues_at(s, i, open)
            == continues_at(s, i + 1, open.push(Frame::Array)),
        s[i] == ARRAY && i + 1 < s.len() && s[i + 1] == DICT_OPEN ==> continues_at(s, i, open)
            == continues_at(s, i + 2, open.push(Frame::DictKey)),
        s[i] == STRUCT_OPEN ==> continues_at(s, i, open) == continues_at(
            s,
            i + 1,
            open.push(Frame::Struct),
        ),
        !is_code(s[i]) && s[i] != ARRAY && s[i] != STRUCT_OPEN ==> continues_at(s, i, open)
            is None,
{
    lemma_type_end_bounds(s, i);
    if is_code(s[i]) {
    } else if s[i] == ARRAY {
        if i + 1 < s.len() && s[i + 1] == DICT_OPEN {
            let inner = open.push(Frame::DictKey);
            assert(inner.drop_last() =~= open);
            let waiting = open.push(Frame::DictValue);
            assert(inner.drop_last().push(Frame::DictValue) =~= waiting);
            assert(waiting.drop_last() =~= open);
            lemma_type_end_bounds(s, i + 2);
            let key = type_end(s, i + 2);
            assert(inner.len() > 0 && inner.last() == Frame::DictKey);
            assert(waiting.len() > 0 && waiting.last() == Frame::DictValue);
            if key is Some {
                let k = key.unwrap();
                lemma_type_end_bounds(s, k);
                assert(closes_at(s, k, inner) == continues_at(s, k, waiting));
                let value = type_end(s, k);
                if value is Some {
                    let v = value.unwrap();
                    assert(closes_at(s, v, waiting) == (if v < s.len() && s[v] == DICT_CLOSE {
                        closes_at(s, v + 1, open)
                    } else {
                        None
                    }));
                }
            }
        } else {
            let inner = open.push(Frame::Array);
            assert(inner.drop_last() =~= open);
            assert(inner.last() == Frame::Array);
            lemma_type_end_bounds(s, i + 1);
            let element = type_end(s, i + 1);
            if element is Some {
                assert(closes_at(s, element.unwrap(), inner) == closes_at(
                    s,
                    element.unwrap(),
                    open,
                ));
            }
        }
    } else if s[i] == STRUCT_OPEN {
        lemma_struct_members(s, i + 1, open);
        lemma_members_end_bounds(s, i + 1);
    }
}

/// Where the single complete type that starts at `start` ends, if one
/// starts there. The text is read once from left to right; the containers
/// that are open are kept on a stack.
#[verifier::rlimit(30)]
pub fn complete_type_end(s: &[u8], start: usize) -> (r: Option<usize>)
    ensures
        match type_end(s@, start as int) {
            Some(j) => r == Some(j as usize) && start < j <= s@.len(),
            None => r is None,
        },
{
    let mut open: Vec<Frame> = Vec::new();
    let mut i: usize = start;
    proof {
        lemma_type_end_bounds(s@, start as int);
    }
    loop
        invariant
            start <= i,
            type_end(s@, start as int) == continues_at(s@, i as int, open@),
            type_end(s@, start as int) matches Some(j) ==> start < j <= s@.len(),
        decreases s.len() - i,
    {
        if i >= s.len() {
            return None;
        }
        let c: u8 = s[i];
        proof {
            lemma_step(s@, i as int, open@);
        }
        if c == ARRAY {
            if i + 1 < s.len() && s[i + 1] == DICT_OPEN {
                open.push(Frame::DictKey);
                i = i + 2;
            } else {
                open.push(Frame::Array);
                i = i + 1;
            }
        } else if c == STRUCT_OPEN {
            open.push(Frame::Struct);
            i = i + 1;
        } else if c == BYTE || c == BOOLEAN || c == INT16 || c == UINT16 || c == INT32 || c
            == UINT32 || c == INT64 || c == UINT64 || c == DOUBLE || c == UNIX_FD || c == STRING
            || c == OBJECT_PATH || c == SIGNATURE || c == VARIANT {
            let ghost before_type = i;
            i = i + 1;
            loop
                invariant_except_break
                    type_end(s@, start as int) == closes_at(s@, i as int, open@),
                invariant
                    start <= before_type < i <= s.len(),
                    type_end(s@, start as int) matches Some(j) ==> start < j <= s@.len(),
                ensures
                    before_type < i <= s.len(),
                    type_end(s@, start as int) == continues_at(s@, i as int, open@),
                decreases open@.len() + (s.len() - i),
            {
                if open.len() == 0 {
                    return Some(i);
                }
                let top: Frame = open[open.len() - 1];
                let ghost before = open@;
                assert(before.last() == top);
                match top {
                    Frame::Array => {
                        open.pop();
                        assert(open@ =~= before.drop_last());
                    },
                    Frame::Struct => {
                        if i < s.len() && s[i] == STRUCT_CLOSE {
                            open.pop();
                            assert(open@ =~= before.drop_last());
                            i = i + 1;
                        } else {
                            break;
                        }
                    },
                    Frame::DictKey => {
                        open.pop();
                        open.push(Frame::DictValue);
                        assert(open@ =~= before.drop_last().push(Frame::DictValue));
                        break;
                    },
                    Frame::DictValue => {
                        if i < s.len() && s[i] == DICT_CLOSE {
                            open.pop();
                            assert(open@ =~= before.drop_last());
                            i = i + 1;
                        } else {
                            return None;
                        }
                    },
                }
            }
        } else {
            return None;
        }
    }
}

/// Whether `s` is a signature.
pub fn validate(s: &[u8]) -> (valid: bool)
    ensures
        valid == is_signature(s@),
{
    let mut i: usize = 0;
    while i < s.len()
        invariant
            i <= s.len(),
            is_signature(s@) == types_from(s@, i as int),
        decreases s.len() - i,
    {
        match complete_type_end(s, i) {
            Some(next) => {
                i = next;
            },
            None => {
                return false;
            },
        }
    }
    true
}

/// Whether `s` is one single complete type.
pub fn is_complete_type(s: &[u8]) -> (single: bool)
    ensures
        single == is_single_complete_type(s@),
{
    match complete_type_end(s, 0) {
        Some(end) => end == s.len(),
        None => false,
    }
}

} // verus!
