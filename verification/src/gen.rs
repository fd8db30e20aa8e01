//! Generator of typed proxy traits from the description of an interface.

use vstd::prelude::*;
use vstd::string::*;
use vstd::utf8::encode_utf8;
use crate::text::{
    after_last_dot, ascii_text, bytes_le, decimal, decimal_digits, last_dot, str_eq, str_le,
    suffix_after_last_dot,
};
use crate::signature::{
    is_code, is_single_complete_type, lemma_members_end_bounds, lemma_type_end_bounds, members_end,
    type_end, ARRAY, BOOLEAN, BYTE, DICT_CLOSE, DICT_OPEN, DOUBLE, INT16, INT32, INT64,
    OBJECT_PATH, SIGNATURE, STRING, STRUCT_CLOSE, STRUCT_OPEN, UINT16, UINT32, UINT64, UNIX_FD,
    VARIANT,
};

verus! {

/// Text of a sequence type: a slice where it is handed in, a vector where
/// it is handed out; borrowed where `as_ref` says so.
pub open spec fn sequence_text(element: Seq<char>, input: bool, as_ref: bool) -> Seq<char> {
    let amp = if as_ref {
        "&"@
    } else {
        ""@
    };
    if input {
        amp + "["@ + element + "]"@
    } else {
        amp + "Vec<"@ + element + ">"@
    }
}

/// Text of a bracketed group with `count` members whose texts, joined by
/// `", "`, are `joined`. The members of a dictionary entry stand bare, as
/// does a single member; several members of a structure form a tuple. A
/// structure without members has no text.
pub open spec fn group_text(dict: bool, count: int, joined: Seq<char>, as_ref: bool) -> Option<
    Seq<char>,
> {
    if dict {
        Some(joined)
    } else if count > 1 {
        Some(
            (if as_ref {
                "&"@
            } else {
                ""@
            }) + "("@ + joined + ")"@,
        )
    } else if count == 1 {
        Some(joined)
    } else {
        None
    }
}

/// Text of the type whose code is the single byte `c`, if `c` is such a
/// code.
pub open spec fn basic_text(c: u8, input: bool, as_ref: bool) -> Option<Seq<char>> {
    if c == BYTE {
        Some("u8"@)
    } else if c == BOOLEAN {
        Some("bool"@)
    } else if c == INT16 {
        Some("i16"@)
    } else if c == UINT16 {
        Some("u16"@)
    } else if c == INT32 {
        Some("i32"@)
    } else if c == UINT32 {
        Some("u32"@)
    } else if c == INT64 {
        Some("i64"@)
    } else if c == UINT64 {
        Some("u64"@)
    } else if c == DOUBLE {
        Some("f64"@)
    } else if c == UNIX_FD {
        Some("std::os::unix::io::RawFd"@)
    } else if c == STRING || c == OBJECT_PATH || c == SIGNATURE {
        Some(
            if input || as_ref {
                "&str"@
            } else {
                "String"@
            },
        )
    } else if c == VARIANT {
        Some(
            if input {
                if as_ref {
                    "&zvariant::Value"@
                } else {
                    "zvariant::Value"@
                }
            } else {
                "zvariant::OwnedValue"@
            },
        )
    } else {
        None
    }
}

/// Rust type for the type code that starts at `i` in `s`, and the position
/// at which reading stopped. A bracketed group is read up to its closing
/// bracket, which is left unread, so it also closes every group around it.
pub open spec fn type_walk(s: Seq<u8>, i: int, input: bool, as_ref: bool) -> Option<
    (Seq<char>, int),
>
    decreases s.len() - i, 0int,
{
    if i < 0 || i >= s.len() {
        None
    } else if basic_text(s[i], input, as_ref) is Some {
        Some((basic_text(s[i], input, as_ref).unwrap(), i + 1))
    } else if s[i] == ARRAY {
        if i + 1 >= s.len() {
            None
        } else {
            match type_walk(s, i + 1, input, false) {
                Some((element, j)) => if s[i + 1] == DICT_OPEN {
                    Some(("std::collections::HashMap<"@ + element + ">"@, j))
                } else {
                    Some((sequence_text(element, input, as_ref), j))
                },
                None => None,
            }
        }
    } else if s[i] == STRUCT_OPEN || s[i] == DICT_OPEN {
        match members_walk(s, i + 1, input) {
            Some((count, joined, j)) => match group_text(s[i] == DICT_OPEN, count, joined, as_ref) {
                Some(text) => Some((text, j)),
                None => None,
            },
            None => None,
        }
    } else {
        None
    }
}

/// Members of a bracketed group from position `i` up to the first closing
/// bracket: how many there are, their texts joined by `", "`, and the
/// position of that bracket.
pub open spec fn members_walk(s: Seq<u8>, i: int, input: bool) -> Option<(int, Seq<char>, int)>
    decreases s.len() - i, 1int,
{
    if i < 0 || i >= s.len() {
        None
    } else if s[i] == STRUCT_CLOSE || s[i] == DICT_CLOSE {
        Some((0, Seq::<char>::empty(), i))
    } else {
        let head = type_walk(s, i, input, false);
        if head is None {
            None
        } else if head.unwrap().1 <= i || head.unwrap().1 > s.len() {
            None
        } else {
            let first = head.unwrap().0;
            match members_walk(s, head.unwrap().1, input) {
                Some((count, rest, k)) => if count == 0 {
                    Some((1, first, k))
                } else {
                    Some((count + 1, first + ", "@ + rest, k))
                },
                None => None,
            }
        }
    }
}

/// Reading a type takes at least one byte and stays inside the text; the
/// members of a group end on a byte of the text, and there are no more of
/// them than bytes were read.
pub proof fn lemma_walk_bounds(s: Seq<u8>, i: int, input: bool, as_ref: bool)
    ensures
        type_walk(s, i, input, as_ref) matches Some((_, j)) ==> i < j <= s.len(),
        members_walk(s, i, input) matches Some((count, _, k)) ==> i <= k < s.len() && 0 <= count
            <= k - i,
    decreases s.len() - i, 2int,
{
    if 0 <= i < s.len() {
        if basic_text(s[i], input, as_ref) is Some {
        } else if s[i] == ARRAY {
            lemma_walk_bounds(s, i + 1, input, false);
        } else if s[i] == STRUCT_OPEN || s[i] == DICT_OPEN {
            lemma_walk_bounds(s, i + 1, input, false);
        }
        if s[i] == STRUCT_CLOSE || s[i] == DICT_CLOSE {
        } else {
            let head = type_walk(s, i, input, false);
            if head is Some && i < head.unwrap().1 <= s.len() {
                lemma_walk_bounds(s, head.unwrap().1, input, false);
            }
        }
    }
}

/// Text of the type whose code is the single byte `c`.
fn basic_type(c: u8, input: bool, as_ref: bool) -> (text: Option<&'static str>)
    ensures
        match basic_text(c, input, as_ref) {
            Some(t) => text matches Some(got) && got@ == t,
            None => text is None,
        },
{
    if c == BYTE {
        Some("u8")
    } else if c == BOOLEAN {
        Some("bool")
    } else if c == INT16 {
        Some("i16")
    } else if c == UINT16 {
        Some("u16")
    } else if c == INT32 {
        Some("i32")
    } else if c == UINT32 {
        Some("u32")
    } else if c == INT64 {
        Some("i64")
    } else if c == UINT64 {
        Some("u64")
    } else if c == DOUBLE {
        Some("f64")
    } else if c == UNIX_FD {
        Some("std::os::unix::io::RawFd")
    } else if c == STRING || c == OBJECT_PATH || c == SIGNATURE {
        if input || as_ref {
            Some("&str")
        } else {
            Some("String")
        }
    } else if c == VARIANT {
        if input {
            if as_ref {
                Some("&zvariant::Value")
            } else {
                Some("zvariant::Value")
            }
        } else {
            Some("zvariant::OwnedValue")
        }
    } else {
        None
    }
}

/// Reads the type that starts at `i`.
#[verifier::rlimit(30)]
fn walk_type(bytes: &[u8], i: usize, input: bool, as_ref: bool) -> (r: Option<(String, usize)>)
    ensures
        match type_walk(bytes@, i as int, input, as_ref) {
            Some((t, j)) => r matches Some((text, end)) && text@ == t && end == j,
            None => r is None,
        },
    decreases bytes@.len() - i, 0int,
{
    if i >= bytes.len() {
        return None;
    }
    proof {
        lemma_walk_bounds(bytes@, i as int, input, as_ref);
        lemma_walk_bounds(bytes@, i + 1, input, false);
    }
    let c: u8 = bytes[i];
    match basic_type(c, input, as_ref) {
        Some(text) => {
            return Some((String::from_str(text), i + 1));
        },
        None => {},
    }
    if c == ARRAY {
        if i + 1 >= bytes.len() {
            return None;
        }
        let dict: bool = bytes[i + 1] == DICT_OPEN;
        match walk_type(bytes, i + 1, input, false) {
            Some((element, end)) => {
                let mut text: String = String::new();
                if dict {
                    text.append("std::collections::HashMap<");
                    text.append(element.as_str());
                    text.append(">");
                } else {
                    if as_ref {
                        text.append("&");
                    } else {
                        text.append("");
                    }
                    if input {
                        text.append("[");
                        text.append(element.as_str());
                        text.append("]");
                    } else {
                        text.append("Vec<");
                        text.append(element.as_str());
                        text.append(">");
                    }
                }
                assert(text@ =~= type_walk(bytes@, i as int, input, as_ref).unwrap().0);
                Some((text, end))
            },
            None => None,
        }
    } else if c == STRUCT_OPEN || c == DICT_OPEN {
        match walk_members(bytes, i + 1, input) {
            Some((count, joined, end)) => {
                if c == DICT_OPEN || count == 1 {
                    Some((joined, end))
                } else if count > 1 {
                    let mut text: String = String::new();
                    if as_ref {
                        text.append("&");
                    } else {
                        text.append("");
                    }
                    text.append("(");
                    text.append(joined.as_str());
                    text.append(")");
                    assert(text@ =~= type_walk(bytes@, i as int, input, as_ref).unwrap().0);
                    Some((text, end))
                } else {
                    None
                }
            },
            None => None,
        }
    } else {
        None
    }
}

/// Reads the members of a group from `i` up to the first closing bracket.
fn walk_members(bytes: &[u8], i: usize, input: bool) -> (r: Option<(usize, String, usize)>)
    ensures
        match members_walk(bytes@, i as int, input) {
            Some((count, joined, k)) => r matches Some((n, text, end)) && n == count && text@
                == joined && end == k,
            None => r is None,
        },
    decreases bytes@.len() - i, 1int,
{
    if i >= bytes.len() {
        return None;
    }
    if bytes[i] == STRUCT_CLOSE || bytes[i] == DICT_CLOSE {
        return Some((0, String::new(), i));
    }
    proof {
        lemma_walk_bounds(bytes@, i as int, input, false);
    }
    match walk_type(bytes, i, input, false) {
        Some((first, next)) => {
            proof {
                lemma_walk_bounds(bytes@, next as int, input, false);
            }
            match walk_members(bytes, next, input) {
                Some((count, rest, end)) => {
                    if count == 0 {
                        Some((1, first, end))
                    } else {
                        let mut text: String = first;
                        text.append(", ");
                        text.append(rest.as_str());
                        assert(text@ =~= members_walk(bytes@, i as int, input).unwrap().1);
                        Some((count + 1, text, end))
                    }
                },
                None => None,
            }
        },
        None => None,
    }
}

/// Whether the type code at the head of `ty` can be turned into a Rust
/// type.
pub open spec fn has_rust_type(ty: Seq<char>) -> bool {
    type_walk(encode_utf8(ty), 0, false, false) is Some
}

/// Rust type for the type code at the head of `ty`: as a parameter where
/// `input` holds, as a result otherwise.
pub open spec fn rust_type(ty: Seq<char>, input: bool) -> Seq<char> {
    type_walk(encode_utf8(ty), 0, input, input).unwrap().0
}

/// Whether a type can be read does not depend on the direction in which it
/// is handed over, and neither does where reading stops.
pub proof fn lemma_walk_direction(s: Seq<u8>, i: int, input: bool, as_ref: bool)
    ensures
        type_walk(s, i, input, as_ref) is Some <==> type_walk(s, i, false, false) is Some,
        type_walk(s, i, input, as_ref) is Some ==> type_walk(s, i, input, as_ref).unwrap().1
            == type_walk(s, i, false, false).unwrap().1,
    decreases s.len() - i, 0int,
{
    if 0 <= i < s.len() {
        if basic_text(s[i], input, as_ref) is Some {
        } else if s[i] == ARRAY {
            lemma_walk_direction(s, i + 1, input, false);
        } else if s[i] == STRUCT_OPEN || s[i] == DICT_OPEN {
            lemma_members_direction(s, i + 1, input);
        }
    }
}

/// Whether the members of a group can be read, how many they are and where
/// they end does not depend on the direction in which they are handed over.
pub proof fn lemma_members_direction(s: Seq<u8>, i: int, input: bool)
    ensures
        members_walk(s, i, input) is Some <==> members_walk(s, i, false) is Some,
        members_walk(s, i, input) is Some ==> members_walk(s, i, input).unwrap().0 == members_walk(
            s,
            i,
            false,
        ).unwrap().0 && members_walk(s, i, input).unwrap().2 == members_walk(
            s,
            i,
            false,
        ).unwrap().2,
    decreases s.len() - i, 1int,
{
    if 0 <= i < s.len() {
        if s[i] == STRUCT_CLOSE || s[i] == DICT_CLOSE {
        } else {
            lemma_walk_direction(s, i, input, false);
            let head = type_walk(s, i, false, false);
            if head is Some && i < head.unwrap().1 <= s.len() {
                lemma_members_direction(s, head.unwrap().1, input);
            }
        }
    }
}

/// Whether `c` closes a group.
pub open spec fn is_closer(c: u8) -> bool {
    c == STRUCT_CLOSE || c == DICT_CLOSE
}

/// A single complete type can be read: reading stops where the type ends,
/// or before that on a closing bracket.
#[verifier::rlimit(30)]
pub proof fn lemma_complete_type_walks(s: Seq<u8>, i: int, input: bool, as_ref: bool)
    requires
        type_end(s, i) is Some,
    ensures
        type_walk(s, i, input, as_ref) matches Some((_, j)) && i < j <= type_end(s, i).unwrap()
            && (j == type_end(s, i).unwrap() || is_closer(s[j])),
    decreases s.len() - i, 0int,
{
    lemma_type_end_bounds(s, i);
    if is_code(s[i]) {
        assert(basic_text(s[i], input, as_ref) is Some);
    } else if s[i] == ARRAY {
        assert(basic_text(s[i], input, as_ref) is None);
        if i + 1 < s.len() && s[i + 1] == DICT_OPEN {
            let key = type_end(s, i + 2).unwrap();
            let value = type_end(s, key).unwrap();
            lemma_type_end_bounds(s, i + 2);
            lemma_type_end_bounds(s, key);
            lemma_complete_type_walks(s, i + 2, input, false);
            let first = type_walk(s, i + 2, input, false).unwrap().1;
            assert(!is_closer(s[i + 2])) by {
                assert(type_end(s, i + 2) is Some);
            }
            assert(first < s.len());
            if is_closer(s[first]) {
                assert(members_walk(s, first, input) is Some);
            } else {
                assert(first == key);
                lemma_complete_type_walks(s, key, input, false);
                let second = type_walk(s, key, input, false).unwrap().1;
                assert(second < s.len());
                assert(is_closer(s[second]));
                assert(members_walk(s, second, input) is Some);
                assert(members_walk(s, key, input) is Some);
            }
            assert(members_walk(s, i + 2, input) is Some);
            lemma_walk_bounds(s, i + 2, input, false);
            lemma_members_stop(s, i + 2, input);
            assert(basic_text(s[i + 1], input, false) is None);
            assert(type_walk(s, i + 1, input, false) is Some);
        } else {
            lemma_complete_type_walks(s, i + 1, input, false);
        }
    } else {
        assert(s[i] == STRUCT_OPEN);
        assert(basic_text(s[i], input, as_ref) is None);
        lemma_complete_members_walk(s, i + 1, input);
    }
}

/// Where the members of a group can be read, reading stops on a closing
/// bracket, and behind every member that was read in full.
pub proof fn lemma_members_stop(s: Seq<u8>, p: int, input: bool)
    requires
        members_walk(s, p, input) is Some,
    ensures
        is_closer(s[members_walk(s, p, input).unwrap().2]),
        p <= members_walk(s, p, input).unwrap().2 < s.len(),
    decreases s.len() - p,
{
    if is_closer(s[p]) {
    } else {
        let head = type_walk(s, p, input, false);
        lemma_members_stop(s, head.unwrap().1, input);
    }
}

/// The members of a structure can be read: there is at least one, and
/// reading stops on a closing bracket inside the structure.
#[verifier::rlimit(30)]
pub proof fn lemma_complete_members_walk(s: Seq<u8>, p: int, input: bool)
    requires
        members_end(s, p) is Some,
    ensures
        members_walk(s, p, input) matches Some((count, _, q)) && count >= 1 && p < q
            < members_end(s, p).unwrap() && is_closer(s[q]),
    decreases s.len() - p, 1int,
{
    lemma_type_end_bounds(s, p);
    lemma_members_end_bounds(s, p);
    let m = type_end(s, p).unwrap();
    lemma_complete_type_walks(s, p, input, false);
    let j = type_walk(s, p, input, false).unwrap().1;
    assert(!is_closer(s[p]));
    assert(m < s.len()) by {
        if !(m < s.len() && s[m] == STRUCT_CLOSE) {
            assert(members_end(s, p) == members_end(s, m));
            assert(members_end(s, m) is Some);
            assert(type_end(s, m) is Some);
        }
    }
    assert(j < s.len());
    assert(m < members_end(s, p).unwrap()) by {
        if !(s[m] == STRUCT_CLOSE) {
            assert(members_end(s, p) == members_end(s, m));
            lemma_members_end_bounds(s, m);
        }
    }
    lemma_walk_bounds(s, p, input, false);
    if is_closer(s[j]) {
        assert(members_walk(s, j, input) == Some((0int, Seq::<char>::empty(), j)));
        assert(members_walk(s, p, input) matches Some((count, _, q)) && count == 1 && q == j);
    } else {
        assert(j == m);
        assert(members_end(s, p) == members_end(s, m));
        lemma_complete_members_walk(s, m, input);
        let rest = members_walk(s, m, input).unwrap();
        assert(members_walk(s, p, input) matches Some((count, _, q)) && count == rest.0 + 1
            && q == rest.2);
    }
}

/// Every signature that is one single complete type has a Rust type.
pub proof fn lemma_single_type_has_rust_type(ty: Seq<char>, input: bool)
    requires
        is_single_complete_type(encode_utf8(ty)),
    ensures
        has_rust_type(ty),
{
    lemma_complete_type_walks(encode_utf8(ty), 0, false, false);
}

/// Rust type for the type code at the head of `ty`, or nothing where the
/// code cannot be read.
pub fn try_to_rust_type(ty: &str, input: bool) -> (r: Option<String>)
    ensures
        r is Some <==> has_rust_type(ty@),
        r matches Some(text) ==> text@ == rust_type(ty@, input),
{
    proof {
        lemma_walk_direction(ty.spec_bytes(), 0, input, input);
    }
    match walk_type(ty.as_bytes(), 0, input, input) {
        Some((text, _)) => Some(text),
        None => None,
    }
}

/// Rust type for the type code at the head of `ty`.
pub fn to_rust_type(ty: &str, input: bool) -> (text: String)
    requires
        has_rust_type(ty@),
    ensures
        text@ == rust_type(ty@, input),
{
    match try_to_rust_type(ty, input) {
        Some(text) => text,
        None => String::new(),
    }
}

/// An argument of a method.
#[derive(Debug, Clone, PartialEq, Eq)]
pub struct Arg {
    /// Its name, where it has one.
    pub name: Option<String>,
    /// The signature of its type.
    pub ty: String,
    /// `in` for what the caller hands over, `out` for what it gets back.
    pub direction: Option<String>,
}

/// A method of an interface.
#[derive(Debug, Clone, PartialEq, Eq)]
pub struct Method {
    /// Its name.
    pub name: String,
    /// Its arguments, in order.
    pub args: Vec<Arg>,
}

/// A property of an interface.
#[derive(Debug, Clone, PartialEq, Eq)]
pub struct Property {
    /// Its name.
    pub name: String,
    /// The signature of its type.
    pub ty: String,
    /// `read`, `write` or `readwrite`.
    pub access: String,
}

/// What an interface offers, as far as a proxy trait shows it.
#[derive(Debug, Clone, PartialEq, Eq)]
pub struct Interface {
    /// Its name, with dots between the parts.
    pub name: String,
    /// Its methods.
    pub methods: Vec<Method>,
    /// Its properties.
    pub properties: Vec<Property>,
}

/// The proxy trait of an interface.
pub struct GenTrait<'i>(pub &'i Interface);

/// The snake-case form that `snakecase::ascii::to_snakecase` gives a text.
pub uninterp spec fn snakecase_of(s: Seq<char>) -> Seq<char>;

/// Calls `snakecase::ascii::to_snakecase`, whose result depends on the text
/// alone; it keeps ASCII letters and digits, lowers capitals and sets
/// underscores between words.
#[verifier::external_body]
fn to_snakecase(s: &str) -> (snake: String)
    ensures
        snake@ == snakecase_of(s@),
{
    snakecase::ascii::to_snakecase(s).into_owned()
}

/// Whether a property can be read and whether it can be written, for each
/// of the three kinds of access.
pub open spec fn access_flags(access: Seq<char>) -> Option<(bool, bool)> {
    if access == "read"@ {
        Some((true, false))
    } else if access == "write"@ {
        Some((false, true))
    } else if access == "readwrite"@ {
        Some((true, true))
    } else {
        None
    }
}

/// Whether a property can be read and whether it can be written, or
/// nothing where `access` names no kind of access.
pub fn try_read_write_from_access(access: &str) -> (r: Option<(bool, bool)>)
    ensures
        r == access_flags(access@),
{
    if str_eq(access, "read") {
        Some((true, false))
    } else if str_eq(access, "write") {
        Some((false, true))
    } else if str_eq(access, "readwrite") {
        Some((true, true))
    } else {
        None
    }
}

/// Whether a property can be read and whether it can be written.
pub fn read_write_from_access(access: &str) -> (r: (bool, bool))
    requires
        access_flags(access@) is Some,
    ensures
        r == access_flags(access@).unwrap(),
{
    match try_read_write_from_access(access) {
        Some(flags) => flags,
        None => (false, false),
    }
}

/// Whether the caller hands the argument over.
pub open spec fn is_input(a: Arg) -> bool {
    a.direction matches Some(d) && d@ == "in"@
}

/// Whether the caller gets the argument back.
pub open spec fn is_output(a: Arg) -> bool {
    !is_input(a) && (a.direction matches Some(d) && d@ == "out"@)
}

/// Whether an argument has a direction and a type that can be read.
pub open spec fn arg_ok(a: Arg) -> bool {
    (is_input(a) || is_output(a)) && has_rust_type(a.ty@)
}

/// Whether every argument has a direction and a type that can be read.
pub open spec fn args_ok(args: Seq<Arg>) -> bool {
    forall|i: int| 0 <= i < args.len() ==> arg_ok(#[trigger] args[i])
}

/// Number of inputs without a name among `args`.
pub open spec fn unnamed_inputs(args: Seq<Arg>) -> nat
    decreases args.len(),
{
    if args.len() == 0 {
        0
    } else if is_input(args.last()) && args.last().name is None {
        unnamed_inputs(args.drop_last()) + 1
    } else {
        unnamed_inputs(args.drop_last())
    }
}

/// Name of an input: its own, or `arg_` and a number that counts the
/// inputs without a name from one.
pub open spec fn input_name(a: Arg, unnamed_before: nat) -> Seq<char> {
    match a.name {
        Some(name) => name@,
        None => "arg_"@ + ascii_text(decimal_digits(unnamed_before + 1)),
    }
}

/// The parameter list: `&self`, then each input as its name, a colon and
/// its type.
pub open spec fn inputs_text(args: Seq<Arg>) -> Seq<char>
    decreases args.len(),
{
    if args.len() == 0 {
        "&self"@
    } else if is_input(args.last()) {
        inputs_text(args.drop_last()) + ", "@ + input_name(
            args.last(),
            unnamed_inputs(args.drop_last()),
        ) + ": "@ + rust_type(args.last().ty@, true)
    } else {
        inputs_text(args.drop_last())
    }
}

/// Number of outputs among `args`.
pub open spec fn output_count(args: Seq<Arg>) -> nat
    decreases args.len(),
{
    if args.len() == 0 {
        0
    } else if is_output(args.last()) {
        output_count(args.drop_last()) + 1
    } else {
        output_count(args.drop_last())
    }
}

/// The types of the outputs, joined by `", "`.
pub open spec fn outputs_joined(args: Seq<Arg>) -> Seq<char>
    decreases args.len(),
{
    if args.len() == 0 {
        Seq::<char>::empty()
    } else if is_output(args.last()) {
        if output_count(args.drop_last()) == 0 {
            rust_type(args.last().ty@, false)
        } else {
            outputs_joined(args.drop_last()) + ", "@ + rust_type(args.last().ty@, false)
        }
    } else {
        outputs_joined(args.drop_last())
    }
}

/// The result type: the unit type for no output, the type of a single
/// output, a tuple of several.
pub open spec fn output_type(args: Seq<Arg>) -> Seq<char> {
    if output_count(args) == 0 {
        "()"@
    } else if output_count(args) == 1 {
        outputs_joined(args)
    } else {
        "("@ + outputs_joined(args) + ")"@
    }
}

/// The result clause of a method.
pub open spec fn output_text(args: Seq<Arg>) -> Seq<char> {
    " -> zbus::Result<"@ + output_type(args) + ">"@
}

/// Parameter list and result clause of a method with the arguments `args`,
/// or nothing where an argument has no direction or a type that cannot be
/// read.
#[verifier::rlimit(30)]
pub fn try_inputs_output_from_args(args: &[Arg]) -> (r: Option<(String, String)>)
    ensures
        r is Some <==> args_ok(args@),
        r matches Some((inputs, output)) ==> inputs@ == inputs_text(args@) && output@
            == output_text(args@),
{
    let mut inputs: String = String::from_str("&self");
    let mut outputs: String = String::new();
    let mut n: usize = 0;
    let mut outs: usize = 0;
    let mut i: usize = 0;
    assert(args@.take(0).len() == 0);
    while i < args.len()
        invariant
            i <= args.len(),
            n <= i,
            outs <= i,
            n == unnamed_inputs(args@.take(i as int)),
            outs == output_count(args@.take(i as int)),
            inputs@ == inputs_text(args@.take(i as int)),
            outputs@ == outputs_joined(args@.take(i as int)),
            outs == 0 ==> outputs@.len() == 0,
            args_ok(args@.take(i as int)),
        decreases args.len() - i,
    {
        let a: &Arg = &args[i];
        let ghost before = args@.take(i as int);
        let ghost after = args@.take(i + 1);
        assert(after.drop_last() =~= before);
        assert(after.last() == args@[i as int]);
        let is_in: bool = match &a.direction {
            Some(d) => str_eq(d.as_str(), "in"),
            None => false,
        };
        let is_out: bool = !is_in && match &a.direction {
            Some(d) => str_eq(d.as_str(), "out"),
            None => false,
        };
        assert(is_in == is_input(*a));
        assert(is_out == is_output(*a));
        if !is_in && !is_out {
            assert(!arg_ok(args@[i as int]));
            return None;
        }
        match try_to_rust_type(a.ty.as_str(), is_in) {
            None => {
                assert(!arg_ok(args@[i as int]));
                return None;
            },
            Some(ty) => {
                if is_in {
                    inputs.append(", ");
                    match &a.name {
                        Some(name) => {
                            inputs.append(name.as_str());
                        },
                        None => {
                            n = n + 1;
                            inputs.append("arg_");
                            inputs.append(decimal(n).as_str());
                        },
                    }
                    inputs.append(": ");
                    inputs.append(ty.as_str());
                    assert(inputs@ =~= inputs_text(after));
                } else {
                    if outs > 0 {
                        outputs.append(", ");
                    }
                    outputs.append(ty.as_str());
                    outs = outs + 1;
                    assert(outputs@ =~= outputs_joined(after));
                }
            },
        }
        assert(arg_ok(args@[i as int]));
        assert forall|j: int| 0 <= j < after.len() implies arg_ok(#[trigger] after[j]) by {
            if j < i {
                assert(after[j] == before[j]);
            }
        }
        i = i + 1;
    }
    assert(args@.take(i as int) =~= args@);
    let mut output: String = String::from_str(" -> zbus::Result<");
    if outs == 0 {
        output.append("()");
    } else if outs == 1 {
        output.append(outputs.as_str());
    } else {
        output.append("(");
        output.append(outputs.as_str());
        output.append(")");
    }
    output.append(">");
    assert(output@ =~= output_text(args@));
    Some((inputs, output))
}

/// Parameter list and result clause of a method with the arguments `args`.
pub fn inputs_output_from_args(args: &[Arg]) -> (r: (String, String))
    requires
        args_ok(args@),
    ensures
        r.0@ == inputs_text(args@),
        r.1@ == output_text(args@),
{
    match try_inputs_output_from_args(args) {
        Some(r) => r,
        None => (String::new(), String::new()),
    }
}

/// `order` with the index `x` set behind the last index whose key comes
/// before the key of `x` or is that key.
pub open spec fn insert_sorted(keys: Seq<Seq<u8>>, order: Seq<usize>, x: usize) -> Seq<usize>
    decreases order.len(),
{
    if order.len() == 0 {
        seq![x]
    } else if bytes_le(keys[order.last() as int], keys[x as int]) {
        order.push(x)
    } else {
        insert_sorted(keys, order.drop_last(), x).push(order.last())
    }
}

/// The first `n` indices, ordered by their keys; indices with the same key
/// keep their order.
pub open spec fn sorted_prefix(keys: Seq<Seq<u8>>, n: nat) -> Seq<usize>
    decreases n,
{
    if n == 0 {
        Seq::<usize>::empty()
    } else {
        insert_sorted(keys, sorted_prefix(keys, (n - 1) as nat), (n - 1) as usize)
    }
}

/// The indices of `keys`, ordered by their keys; indices with the same key
/// keep their order.
pub open spec fn sorted_order(keys: Seq<Seq<u8>>) -> Seq<usize> {
    sorted_prefix(keys, keys.len())
}

/// Whether index `a` stands before index `b` in the order: its key comes
/// first, or the keys are the same and `a` is the smaller index.
pub open spec fn stands_before(keys: Seq<Seq<u8>>, a: usize, b: usize) -> bool {
    if keys[a as int] == keys[b as int] {
        a < b
    } else {
        bytes_le(keys[a as int], keys[b as int])
    }
}

/// Whether `order` holds indices below `n`, each before all that follow it.
pub open spec fn is_ordered(keys: Seq<Seq<u8>>, order: Seq<usize>, n: nat) -> bool {
    &&& forall|i: int| 0 <= i < order.len() ==> #[trigger] order[i] < n
    &&& forall|i: int, j: int|
        0 <= i < j < order.len() ==> stands_before(keys, #[trigger] order[i], #[trigger] order[j])
}

/// Setting a new, larger index into an ordered run keeps it ordered, adds
/// that index and nothing else, and makes it one longer.
#[verifier::rlimit(30)]
pub proof fn lemma_insert_sorted(keys: Seq<Seq<u8>>, order: Seq<usize>, x: usize)
    requires
        x < keys.len(),
        is_ordered(keys, order, x as nat),
    ensures
        is_ordered(keys, insert_sorted(keys, order, x), (x + 1) as nat),
        insert_sorted(keys, order, x).len() == order.len() + 1,
        insert_sorted(keys, order, x).to_multiset() == order.to_multiset().insert(x),
    decreases order.len(),
{
    broadcast use vstd::seq_lib::group_to_multiset_ensures;

    let out = insert_sorted(keys, order, x);
    if order.len() == 0 {
        assert(order =~= Seq::<usize>::empty());
        assert(out =~= Seq::<usize>::empty().push(x));
    } else if bytes_le(keys[order.last() as int], keys[x as int]) {
        assert forall|i: int, j: int| 0 <= i < j < out.len() implies stands_before(
            keys,
            #[trigger] out[i],
            #[trigger] out[j],
        ) by {
            if j == order.len() {
                let a = order[i];
                let last = order.last();
                assert(out[i] == a);
                if i < order.len() - 1 {
                    assert(stands_before(keys, order[i], order[order.len() - 1]));
                    crate::text::lemma_bytes_le_total(keys[a as int], keys[last as int]);
                    if keys[a as int] == keys[last as int] {
                    } else {
                        crate::text::lemma_bytes_le_transitive(
                            keys[a as int],
                            keys[last as int],
                            keys[x as int],
                        );
                    }
                }
                if keys[a as int] == keys[x as int] {
                } else {
                }
            } else {
                assert(out[i] == order[i] && out[j] == order[j]);
            }
        }
    } else {
        let rest = order.drop_last();
        let last = order.last();
        assert(is_ordered(keys, rest, x as nat)) by {
            assert forall|i: int, j: int| 0 <= i < j < rest.len() implies stands_before(
                keys,
                #[trigger] rest[i],
                #[trigger] rest[j],
            ) by {
                assert(rest[i] == order[i] && rest[j] == order[j]);
            }
            assert forall|i: int| 0 <= i < rest.len() implies #[trigger] rest[i] < x by {
                assert(rest[i] == order[i]);
            }
        }
        lemma_insert_sorted(keys, rest, x);
        let inner = insert_sorted(keys, rest, x);
        assert(order =~= rest.push(last));
        crate::text::lemma_bytes_le_total(keys[last as int], keys[x as int]);
        // every index of `inner` is `x` or an index of `rest`
        assert forall|i: int| 0 <= i < inner.len() implies stands_before(
            keys,
            #[trigger] inner[i],
            last,
        ) by {
            assert(inner.to_multiset().count(inner[i]) > 0);
            if inner[i] == x {
                if keys[x as int] == keys[last as int] {
                }
            } else {
                assert(rest.to_multiset().count(inner[i]) > 0);
                assert(rest.contains(inner[i]));
                let k = choose|k: int| 0 <= k < rest.len() && rest[k] == inner[i];
                assert(order[k] == rest[k]);
                assert(stands_before(keys, order[k], order[order.len() - 1]));
            }
        }
        assert forall|i: int, j: int| 0 <= i < j < out.len() implies stands_before(
            keys,
            #[trigger] out[i],
            #[trigger] out[j],
        ) by {
            if j == inner.len() {
                assert(out[i] == inner[i]);
            } else {
                assert(out[i] == inner[i] && out[j] == inner[j]);
            }
        }
        assert forall|i: int| 0 <= i < out.len() implies #[trigger] out[i] < x + 1 by {
            if i < inner.len() {
                assert(out[i] == inner[i]);
            } else {
                assert(order[order.len() - 1] < x);
            }
        }
    }
}

/// The order of the first `n` indices holds each of them once, and each
/// stands before all that follow it.
pub proof fn lemma_sorted_prefix(keys: Seq<Seq<u8>>, n: nat)
    requires
        n <= keys.len(),
        keys.len() <= usize::MAX,
    ensures
        is_ordered(keys, sorted_prefix(keys, n), n),
        sorted_prefix(keys, n).len() == n,
        forall|x: usize| sorted_prefix(keys, n).to_multiset().count(x) == (if x < n { 1nat } else { 0nat }),
    decreases n,
{
    broadcast use vstd::seq_lib::group_to_multiset_ensures;

    if n > 0 {
        lemma_sorted_prefix(keys, (n - 1) as nat);
        lemma_insert_sorted(keys, sorted_prefix(keys, (n - 1) as nat), (n - 1) as usize);
    } else {
        assert(sorted_prefix(keys, n) =~= Seq::<usize>::empty());
    }
}

/// The keys by which texts are ordered: their UTF-8 bytes.
pub open spec fn keys_of(names: Seq<&str>) -> Seq<Seq<u8>> {
    Seq::new(names.len(), |i: int| names[i].spec_bytes())
}

/// Orders the indices of `names` by name; equal names keep their order.
#[verifier::rlimit(30)]
pub fn sort_order(names: &Vec<&str>) -> (order: Vec<usize>)
    ensures
        order@ == sorted_order(keys_of(names@)),
        order@.len() == names@.len(),
        forall|j: int| 0 <= j < order@.len() ==> #[trigger] order@[j] < names@.len(),
{
    let ghost keys = keys_of(names@);
    let mut order: Vec<usize> = Vec::new();
    let mut k: usize = 0;
    while k < names.len()
        invariant
            k <= names.len(),
            keys == keys_of(names@),
            order@ == sorted_prefix(keys, k as nat),
            order@.len() == k,
            forall|j: int| 0 <= j < order@.len() ==> #[trigger] order@[j] < k,
        decreases names.len() - k,
    {
        let mut p: usize = order.len();
        assert(order@.take(p as int) =~= order@ && order@.skip(p as int) =~= Seq::<usize>::empty());
        loop
            invariant
                p <= order@.len(),
                k < names.len(),
                keys == keys_of(names@),
                forall|j: int| 0 <= j < order@.len() ==> #[trigger] order@[j] < k,
                insert_sorted(keys, order@, k) == insert_sorted(keys, order@.take(p as int), k)
                    + order@.skip(p as int),
            ensures
                p <= order@.len(),
                insert_sorted(keys, order@, k) == order@.insert(p as int, k),
            decreases p,
        {
            if p == 0 {
                assert(order@.take(0) =~= Seq::<usize>::empty());
                assert(seq![k] + order@.skip(0) =~= order@.insert(0, k));
                break;
            }
            let prev: usize = order[p - 1];
            let ghost head = order@.take(p as int);
            assert(head.last() == prev);
            assert(head.drop_last() =~= order@.take(p - 1));
            if str_le(names[prev], names[k]) {
                assert(head.push(k) + order@.skip(p as int) =~= order@.insert(p as int, k));
                break;
            }
            assert(insert_sorted(keys, order@.take(p - 1), k).push(prev) + order@.skip(p as int)
                =~= insert_sorted(keys, order@.take(p - 1), k) + order@.skip(p - 1));
            p = p - 1;
        }
        order.insert(p, k);
        k = k + 1;
        assert forall|j: int| 0 <= j < order@.len() implies #[trigger] order@[j] < k by {
        }
    }
    order
}

/// The texts `texts`, taken in the order `order` and set one after another.
pub open spec fn concat_in_order(texts: Seq<Seq<char>>, order: Seq<usize>) -> Seq<char>
    decreases order.len(),
{
    if order.len() == 0 {
        Seq::<char>::empty()
    } else {
        concat_in_order(texts, order.drop_last()) + texts[order.last() as int]
    }
}

/// What each text of `texts` holds.
pub open spec fn views_of(texts: Seq<String>) -> Seq<Seq<char>> {
    Seq::new(texts.len(), |i: int| texts[i]@)
}

/// Appends the texts in the given order.
fn append_in_order(out: &mut String, texts: &Vec<String>, order: &Vec<usize>)
    requires
        forall|j: int| 0 <= j < order@.len() ==> #[trigger] order@[j] < texts@.len(),
    ensures
        final(out)@ == old(out)@ + concat_in_order(views_of(texts@), order@),
{
    let mut j: usize = 0;
    assert(order@.take(0) =~= Seq::<usize>::empty());
    assert(out@ =~= old(out)@ + concat_in_order(views_of(texts@), order@.take(0)));
    while j < order.len()
        invariant
            j <= order.len(),
            forall|j: int| 0 <= j < order@.len() ==> #[trigger] order@[j] < texts@.len(),
            out@ == old(out)@ + concat_in_order(views_of(texts@), order@.take(j as int)),
        decreases order.len() - j,
    {
        let ghost next = order@.take(j + 1);
        assert(next.drop_last() =~= order@.take(j as int));
        assert(next.last() == order@[j as int]);
        out.append(texts[order[j]].as_str());
        j = j + 1;
        assert(out@ =~= old(out)@ + concat_in_order(views_of(texts@), next));
    }
    assert(order@.take(j as int) =~= order@);
}

/// Whether a method can be shown: each argument has a direction and a
/// type that can be read.
pub open spec fn method_ok(m: Method) -> bool {
    args_ok(m.args@)
}

/// The lines that show a method with the given name, snake-case name,
/// parameter list and result clause.
pub open spec fn method_lines(
    name: Seq<char>,
    snake: Seq<char>,
    inputs: Seq<char>,
    output: Seq<char>,
) -> Seq<char> {
    "\n"@ + "    /// "@ + name + " method\n"@ + "    fn "@ + snake + "("@ + inputs + ")"@ + output
        + ";\n"@
}

/// The lines that show a method.
pub open spec fn method_text(m: Method) -> Seq<char> {
    method_lines(m.name@, snakecase_of(m.name@), inputs_text(m.args@), output_text(m.args@))
}

/// Whether a property can be shown: its access is known and its type can
/// be read.
pub open spec fn property_ok(p: Property) -> bool {
    access_flags(p.access@) is Some && has_rust_type(p.ty@)
}

/// The lines that read a property.
pub open spec fn getter_lines(snake: Seq<char>, output: Seq<char>) -> Seq<char> {
    "    #[dbus_proxy(property)]\n"@ + "    fn "@ + snake + "(&self) -> zbus::Result<"@ + output
        + ">;\n"@
}

/// The lines that write a property.
pub open spec fn setter_lines(snake: Seq<char>, input: Seq<char>) -> Seq<char> {
    "    #[DBusProxy(property)]\n"@ + "    fn set_"@ + snake + "(&self, value: "@ + input
        + ") -> zbus::Result<()>;\n"@
}

/// The lines that show a property with the given name and snake-case
/// name: a reader where it can be read, then a writer where it can be
/// written. `output` is its type where it is handed out, `input` where it
/// is handed in.
pub open spec fn property_lines(
    name: Seq<char>,
    snake: Seq<char>,
    flags: (bool, bool),
    output: Seq<char>,
    input: Seq<char>,
) -> Seq<char> {
    "\n"@ + "    /// "@ + name + " property\n"@ + (if flags.0 {
        getter_lines(snake, output)
    } else {
        Seq::<char>::empty()
    }) + (if flags.1 {
        setter_lines(snake, input)
    } else {
        Seq::<char>::empty()
    })
}

/// The lines that show a property.
pub open spec fn property_text(p: Property) -> Seq<char> {
    property_lines(
        p.name@,
        snakecase_of(p.name@),
        access_flags(p.access@).unwrap(),
        rust_type(p.ty@, false),
        rust_type(p.ty@, true),
    )
}

/// The lines of each method.
pub open spec fn method_texts(methods: Seq<Method>) -> Seq<Seq<char>> {
    Seq::new(methods.len(), |i: int| method_text(methods[i]))
}

/// The keys by which methods are ordered: the bytes of their names.
pub open spec fn method_keys(methods: Seq<Method>) -> Seq<Seq<u8>> {
    Seq::new(methods.len(), |i: int| encode_utf8(methods[i].name@))
}

/// The lines of each property.
pub open spec fn property_texts(properties: Seq<Property>) -> Seq<Seq<char>> {
    Seq::new(properties.len(), |i: int| property_text(properties[i]))
}

/// The keys by which properties are ordered: the bytes of their names.
pub open spec fn property_keys(properties: Seq<Property>) -> Seq<Seq<u8>> {
    Seq::new(properties.len(), |i: int| encode_utf8(properties[i].name@))
}

/// The two lines that open the trait of the interface `name`.
pub open spec fn header_text(name: Seq<char>) -> Seq<char> {
    "#[dbus_proxy(interface = \""@ + name + "\")]\n"@ + "trait "@ + after_last_dot(name)
        + " {\n"@
}

/// Writes the lines that show a method.
pub fn write_method(name: &str, snake: &str, inputs: &str, output: &str) -> (text: String)
    ensures
        text@ == method_lines(name@, snake@, inputs@, output@),
{
    let mut text: String = String::from_str("\n");
    text.append("    /// ");
    text.append(name);
    text.append(" method\n");
    text.append("    fn ");
    text.append(snake);
    text.append("(");
    text.append(inputs);
    text.append(")");
    text.append(output);
    text.append(";\n");
    assert(text@ =~= method_lines(name@, snake@, inputs@, output@));
    text
}

/// Writes the lines that show a property.
pub fn write_property(name: &str, snake: &str, flags: (bool, bool), output: &str, input: &str)
    -> (text: String)
    ensures
        text@ == property_lines(name@, snake@, flags, output@, input@),
{
    let mut text: String = String::from_str("\n");
    text.append("    /// ");
    text.append(name);
    text.append(" property\n");
    let ghost base = text@;
    if flags.0 {
        text.append("    #[dbus_proxy(property)]\n");
        text.append("    fn ");
        text.append(snake);
        text.append("(&self) -> zbus::Result<");
        text.append(output);
        text.append(">;\n");
        assert(text@ =~= base + getter_lines(snake@, output@));
    } else {
        assert(text@ =~= base + Seq::<char>::empty());
    }
    let ghost middle = text@;
    if flags.1 {
        text.append("    #[DBusProxy(property)]\n");
        text.append("    fn set_");
        text.append(snake);
        text.append("(&self, value: ");
        text.append(input);
        text.append(") -> zbus::Result<()>;\n");
        assert(text@ =~= middle + setter_lines(snake@, input@));
    } else {
        assert(text@ =~= middle + Seq::<char>::empty());
    }
    text
}

/// Shows a method, or nothing where it cannot be shown.
fn render_method(m: &Method) -> (r: Option<String>)
    ensures
        r is Some <==> method_ok(*m),
        r matches Some(text) ==> text@ == method_text(*m),
{
    match try_inputs_output_from_args(m.args.as_slice()) {
        None => None,
        Some((inputs, output)) => {
            let snake: String = to_snakecase(m.name.as_str());
            Some(write_method(m.name.as_str(), snake.as_str(), inputs.as_str(), output.as_str()))
        },
    }
}

/// Shows a property, or nothing where it cannot be shown.
fn render_property(p: &Property) -> (r: Option<String>)
    ensures
        r is Some <==> property_ok(*p),
        r matches Some(text) ==> text@ == property_text(*p),
{
    let flags = match try_read_write_from_access(p.access.as_str()) {
        Some(flags) => flags,
        None => {
            return None;
        },
    };
    let output: String = match try_to_rust_type(p.ty.as_str(), false) {
        Some(output) => output,
        None => {
            return None;
        },
    };
    let input: String = match try_to_rust_type(p.ty.as_str(), true) {
        Some(input) => input,
        None => {
            return None;
        },
    };
    let snake: String = to_snakecase(p.name.as_str());
    Some(write_property(p.name.as_str(), snake.as_str(), flags, output.as_str(), input.as_str()))
}

impl<'i> GenTrait<'i> {
    /// Whether the trait can be written: the interface's name has a dot,
    /// and each method and property can be shown.
    pub open spec fn renderable(&self) -> bool {
        &&& last_dot(self.0.name@) >= 0
        &&& forall|i: int| 0 <= i < self.0.methods@.len() ==> method_ok(#[trigger] self.0.methods@[i])
        &&& forall|i: int|
            0 <= i < self.0.properties@.len() ==> property_ok(#[trigger] self.0.properties@[i])
    }

    /// The trait as text: the opening lines, the methods by name, the
    /// properties by name, and the closing line.
    pub open spec fn text(&self) -> Seq<char> {
        header_text(self.0.name@) + concat_in_order(
            method_texts(self.0.methods@),
            sorted_order(method_keys(self.0.methods@)),
        ) + concat_in_order(
            property_texts(self.0.properties@),
            sorted_order(property_keys(self.0.properties@)),
        ) + "}\n"@
    }

    /// Writes the trait, or nothing where it cannot be written.
    #[verifier::rlimit(30)]
    pub fn render(&self) -> (r: Option<String>)
        ensures
            r is Some <==> self.renderable(),
            r matches Some(text) ==> text@ == self.text(),
    {
        let iface: &Interface = self.0;
        let short: &str = match suffix_after_last_dot(iface.name.as_str()) {
            Some(short) => short,
            None => {
                return None;
            },
        };
        let mut out: String = String::from_str("#[dbus_proxy(interface = \"");
        out.append(iface.name.as_str());
        out.append("\")]\n");
        out.append("trait ");
        out.append(short);
        out.append(" {\n");
        assert(out@ =~= header_text(iface.name@));

        let mut names: Vec<&str> = Vec::new();
        let mut texts: Vec<String> = Vec::new();
        let mut i: usize = 0;
        while i < iface.methods.len()
            invariant
                *iface == *self.0,
                i <= iface.methods@.len(),
                names@.len() == i,
                texts@.len() == i,
                forall|j: int| 0 <= j < i ==> (#[trigger] names@[j])@ == iface.methods@[j].name@,
                forall|j: int| 0 <= j < i ==> method_ok(#[trigger] iface.methods@[j]),
                forall|j: int|
                    0 <= j < i ==> (#[trigger] texts@[j])@ == method_text(iface.methods@[j]),
            decreases iface.methods@.len() - i,
        {
            let m: &Method = &iface.methods[i];
            match render_method(m) {
                None => {
                    assert(!method_ok(self.0.methods@[i as int]));
                    return None;
                },
                Some(text) => {
                    names.push(m.name.as_str());
                    texts.push(text);
                },
            }
            i = i + 1;
        }
        let order: Vec<usize> = sort_order(&names);
        assert(keys_of(names@) =~= method_keys(iface.methods@));
        assert(views_of(texts@) =~= method_texts(iface.methods@));
        append_in_order(&mut out, &texts, &order);

        let mut names: Vec<&str> = Vec::new();
        let mut texts: Vec<String> = Vec::new();
        let mut i: usize = 0;
        while i < iface.properties.len()
            invariant
                *iface == *self.0,
                i <= iface.properties@.len(),
                names@.len() == i,
                texts@.len() == i,
                forall|j: int|
                    0 <= j < i ==> (#[trigger] names@[j])@ == iface.properties@[j].name@,
                forall|j: int| 0 <= j < i ==> property_ok(#[trigger] iface.properties@[j]),
                forall|j: int|
                    0 <= j < i ==> (#[trigger] texts@[j])@ == property_text(iface.properties@[j]),
            decreases iface.properties@.len() - i,
        {
            let p: &Property = &iface.properties[i];
            match render_property(p) {
                None => {
                    assert(!property_ok(self.0.properties@[i as int]));
                    return None;
                },
                Some(text) => {
                    names.push(p.name.as_str());
                    texts.push(text);
                },
            }
            i = i + 1;
        }
        let order: Vec<usize> = sort_order(&names);
        assert(keys_of(names@) =~= property_keys(iface.properties@));
        assert(views_of(texts@) =~= property_texts(iface.properties@));
        append_in_order(&mut out, &texts, &order);
        out.append("}\n");
        Some(out)
    }

    /// Writes the trait.
    pub fn to_string(&self) -> (text: String)
        requires
            self.renderable(),
        ensures
            text@ == self.text(),
    {
        match self.render() {
            Some(text) => text,
            None => String::new(),
        }
    }
}

} // verus!
