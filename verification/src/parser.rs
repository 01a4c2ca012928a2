//! The JSON parser.
//!
//! The grammar accepted here is pinned down by the spec functions below:
//! `null`, `true`, `false`, signed decimal integers that fit in an `i64`,
//! double-quoted strings with the single-character escapes
//! `\" \\ \/ \n \t \r` and `\uXXXX` escapes (surrogate pairs included),
//! arrays and objects, with whitespace allowed between tokens.  Anything
//! else — in particular fractional or exponent number forms — is rejected.
//!
//! [`parse`] is the executable parser; it returns exactly what the spec
//! parser [`spec_parse`] describes.  `json_laws` proves that `spec_parse`
//! inverts the serializer.

use vstd::prelude::*;
use vstd::string::*;

use crate::json::Json;
use crate::json::SpecJson;
use crate::json::lemma_skip_skip;

verus! {

broadcast use vstd::std_specs::vec::group_vec_axioms;

/// Failure to parse or to convert a JSON text; carries a short description.
#[derive(Debug)]
pub struct JsonError {
    pub message: String,
}

impl JsonError {
    /// An error with the given description.
    pub fn new(message: String) -> (r: JsonError)
        ensures
            r.message == message,
    {
        JsonError { message }
    }
}

/// JSON whitespace.
pub open spec fn is_ws(c: char) -> bool {
    c == ' ' || c == '\n' || c == '\t' || c == '\r'
}

/// A decimal digit.
pub open spec fn is_digit(c: char) -> bool {
    c == '0' || c == '1' || c == '2' || c == '3' || c == '4' || c == '5' || c == '6' || c == '7'
        || c == '8' || c == '9'
}

/// The value of a decimal digit.
pub open spec fn digit_val(c: char) -> int {
    if c == '0' {
        0
    } else if c == '1' {
        1
    } else if c == '2' {
        2
    } else if c == '3' {
        3
    } else if c == '4' {
        4
    } else if c == '5' {
        5
    } else if c == '6' {
        6
    } else if c == '7' {
        7
    } else if c == '8' {
        8
    } else {
        9
    }
}

/// A character that may follow a backslash in a string literal, besides `u`.
pub open spec fn is_escapable(c: char) -> bool {
    c == '"' || c == '\\' || c == '/' || c == 'n' || c == 't' || c == 'r'
}

/// A hexadecimal digit.
pub open spec fn is_hex(c: char) -> bool {
    is_digit(c) || c == 'a' || c == 'b' || c == 'c' || c == 'd' || c == 'e' || c == 'f' || c == 'A'
        || c == 'B' || c == 'C' || c == 'D' || c == 'E' || c == 'F'
}

/// The value of a hexadecimal digit.
pub open spec fn hex_val(c: char) -> int {
    if is_digit(c) {
        digit_val(c)
    } else if c == 'a' || c == 'A' {
        10
    } else if c == 'b' || c == 'B' {
        11
    } else if c == 'c' || c == 'C' {
        12
    } else if c == 'd' || c == 'D' {
        13
    } else if c == 'e' || c == 'E' {
        14
    } else {
        15
    }
}

/// The value of four hexadecimal digits, most significant first.
pub open spec fn hex4(c0: char, c1: char, c2: char, c3: char) -> int {
    ((hex_val(c0) * 16 + hex_val(c1)) * 16 + hex_val(c2)) * 16 + hex_val(c3)
}

/// The character with code point `u`.
pub open spec fn code_char(u: int) -> char {
    (u as u32) as char
}

/// The character an escape sequence stands for.
pub open spec fn unescape_char(c: char) -> char {
    if c == 'n' {
        '\n'
    } else if c == 't' {
        '\t'
    } else if c == 'r' {
        '\r'
    } else {
        c
    }
}

/// Parse the remainder of a string literal, after the opening quote.
/// Returns the decoded characters and the text after the closing quote.
/// `\uXXXX` escapes denote UTF-16 code units: a value outside the surrogate
/// range stands for itself, a high surrogate must be followed by a low
/// surrogate escape and the pair denotes one supplementary character, and a
/// lone surrogate is rejected.
pub open spec fn parse_string_rest(s: Seq<char>) -> Option<(Seq<char>, Seq<char>)>
    decreases s.len(),
{
    if s.len() == 0 {
        None
    } else if s[0] == '"' {
        Some((Seq::empty(), s.skip(1)))
    } else if s[0] == '\\' {
        if s.len() >= 2 && s[1] == 'u' {
            if s.len() >= 6 && is_hex(s[2]) && is_hex(s[3]) && is_hex(s[4]) && is_hex(s[5]) {
                let u = hex4(s[2], s[3], s[4], s[5]);
                if u < 0xD800 || u > 0xDFFF {
                    match parse_string_rest(s.skip(6)) {
                        Some((cs, r)) => Some((seq![code_char(u)] + cs, r)),
                        None => None,
                    }
                } else if u <= 0xDBFF && s.len() >= 12 && s[6] == '\\' && s[7] == 'u' && is_hex(
                    s[8],
                ) && is_hex(s[9]) && is_hex(s[10]) && is_hex(s[11]) {
                    let lo = hex4(s[8], s[9], s[10], s[11]);
                    if 0xDC00 <= lo <= 0xDFFF {
                        let cp = 0x10000 + (u - 0xD800) * 0x400 + (lo - 0xDC00);
                        match parse_string_rest(s.skip(12)) {
                            Some((cs, r)) => Some((seq![code_char(cp)] + cs, r)),
                            None => None,
                        }
                    } else {
                        None
                    }
                } else {
                    None
                }
            } else {
                None
            }
        } else if s.len() >= 2 && is_escapable(s[1]) {
            match parse_string_rest(s.skip(2)) {
                Some((cs, r)) => Some((seq![unescape_char(s[1])] + cs, r)),
                None => None,
            }
        } else {
            None
        }
    } else {
        match parse_string_rest(s.skip(1)) {
            Some((cs, r)) => Some((seq![s[0]] + cs, r)),
            None => None,
        }
    }
}

/// Accumulate decimal digits onto `acc`, stopping at the first non-digit.
/// Fails if the magnitude would pass 2^63.
pub open spec fn parse_digits(s: Seq<char>, acc: int) -> Option<(int, Seq<char>)>
    decreases s.len(), 0int,
{
    if s.len() > 0 && is_digit(s[0]) {
        let acc2 = acc * 10 + digit_val(s[0]);
        if acc2 > 9223372036854775808 {
            None
        } else {
            parse_digits(s.skip(1), acc2)
        }
    } else {
        Some((acc, s))
    }
}

/// Parse a signed decimal integer in the `i64` range.
pub open spec fn parse_number(s: Seq<char>) -> Option<(SpecJson, Seq<char>)>
    decreases s.len(), 1int,
{
    if s.len() == 0 {
        None
    } else if s[0] == '-' {
        if s.len() >= 2 && is_digit(s[1]) {
            match parse_digits(s.skip(1), 0) {
                Some((m, r)) => Some((SpecJson::Int(-m), r)),
                None => None,
            }
        } else {
            None
        }
    } else if is_digit(s[0]) {
        match parse_digits(s, 0) {
            Some((m, r)) => if m <= 9223372036854775807 {
                Some((SpecJson::Int(m), r))
            } else {
                None
            },
            None => None,
        }
    } else {
        None
    }
}

/// Parse one JSON value, allowing leading whitespace.  Returns the value and
/// the unconsumed remainder.
///
/// In the array and object helpers below, a recursive call is made on the
/// remainder another function returned; the `if r.len() < s.len()`
/// guards keep that recursion visibly well-founded.  A successful parse
/// always consumes at least one character, so the fallback arm of each guard
/// is never the one taken.
pub open spec fn parse_value(s: Seq<char>) -> Option<(SpecJson, Seq<char>)>
    decreases s.len(), 2int,
{
    if s.len() == 0 {
        None
    } else if is_ws(s[0]) {
        parse_value(s.skip(1))
    } else if s[0] == 'n' {
        if s.len() >= 4 && s[1] == 'u' && s[2] == 'l' && s[3] == 'l' {
            Some((SpecJson::Null, s.skip(4)))
        } else {
            None
        }
    } else if s[0] == 't' {
        if s.len() >= 4 && s[1] == 'r' && s[2] == 'u' && s[3] == 'e' {
            Some((SpecJson::Bool(true), s.skip(4)))
        } else {
            None
        }
    } else if s[0] == 'f' {
        if s.len() >= 5 && s[1] == 'a' && s[2] == 'l' && s[3] == 's' && s[4] == 'e' {
            Some((SpecJson::Bool(false), s.skip(5)))
        } else {
            None
        }
    } else if s[0] == '"' {
        match parse_string_rest(s.skip(1)) {
            Some((cs, r)) => Some((SpecJson::Str(cs), r)),
            None => None,
        }
    } else if s[0] == '-' || is_digit(s[0]) {
        parse_number(s)
    } else if s[0] == '[' {
        match parse_items(s.skip(1)) {
            Some((vs, r)) => Some((SpecJson::Arr(vs), r)),
            None => None,
        }
    } else if s[0] == '{' {
        match parse_members(s.skip(1)) {
            Some((ms, r)) => Some((SpecJson::Obj(ms), r)),
            None => None,
        }
    } else {
        None
    }
}

/// Parse the items of an array, right after the opening bracket.
pub open spec fn parse_items(s: Seq<char>) -> Option<(Seq<SpecJson>, Seq<char>)>
    decreases s.len(), 4int,
{
    if s.len() == 0 {
        None
    } else if is_ws(s[0]) {
        parse_items(s.skip(1))
    } else if s[0] == ']' {
        Some((Seq::empty(), s.skip(1)))
    } else {
        parse_items_tail(s)
    }
}

/// Parse one array item and whatever items follow it.
pub open spec fn parse_items_tail(s: Seq<char>) -> Option<(Seq<SpecJson>, Seq<char>)>
    decreases s.len(), 3int,
{
    if s.len() == 0 {
        None
    } else {
        match parse_value(s) {
            None => None,
            Some((v, r)) => {
                let r2 = if r.len() < s.len() {
                    r
                } else {
                    s.skip(1)
                };
                match parse_items_sep(r2) {
                    None => None,
                    Some((vs, rr)) => Some((seq![v] + vs, rr)),
                }
            },
        }
    }
}

/// After an array item: either the closing bracket or a comma and more items.
pub open spec fn parse_items_sep(s: Seq<char>) -> Option<(Seq<SpecJson>, Seq<char>)>
    decreases s.len(), 5int,
{
    if s.len() == 0 {
        None
    } else if is_ws(s[0]) {
        parse_items_sep(s.skip(1))
    } else if s[0] == ']' {
        Some((Seq::empty(), s.skip(1)))
    } else if s[0] == ',' {
        parse_items_tail(s.skip(1))
    } else {
        None
    }
}

/// Parse the members of an object, right after the opening brace.
pub open spec fn parse_members(s: Seq<char>) -> Option<(Seq<(Seq<char>, SpecJson)>, Seq<char>)>
    decreases s.len(), 4int,
{
    if s.len() == 0 {
        None
    } else if is_ws(s[0]) {
        parse_members(s.skip(1))
    } else if s[0] == '}' {
        Some((Seq::empty(), s.skip(1)))
    } else {
        parse_members_tail(s)
    }
}

/// Parse one object member and whatever members follow it.
pub open spec fn parse_members_tail(s: Seq<char>) -> Option<(Seq<(Seq<char>, SpecJson)>, Seq<char>)>
    decreases s.len(), 3int,
{
    if s.len() == 0 {
        None
    } else if is_ws(s[0]) {
        parse_members_tail(s.skip(1))
    } else if s[0] == '"' {
        match parse_string_rest(s.skip(1)) {
            None => None,
            Some((k, r)) => {
                let r2 = if r.len() < s.len() {
                    r
                } else {
                    s.skip(1)
                };
                parse_member_colon(r2, k)
            },
        }
    } else {
        None
    }
}

/// After a member key: the colon, the value, and whatever members follow.
pub open spec fn parse_member_colon(s: Seq<char>, k: Seq<char>) -> Option<
    (Seq<(Seq<char>, SpecJson)>, Seq<char>),
>
    decreases s.len(), 6int,
{
    if s.len() == 0 {
        None
    } else if is_ws(s[0]) {
        parse_member_colon(s.skip(1), k)
    } else if s[0] == ':' {
        match parse_value(s.skip(1)) {
            None => None,
            Some((v, r)) => {
                let r2 = if r.len() < s.len() {
                    r
                } else {
                    s.skip(1)
                };
                match parse_members_sep(r2) {
                    None => None,
                    Some((ms, rr)) => Some((seq![(k, v)] + ms, rr)),
                }
            },
        }
    } else {
        None
    }
}

/// After an object member: either the closing brace or a comma and more.
pub open spec fn parse_members_sep(s: Seq<char>) -> Option<(Seq<(Seq<char>, SpecJson)>, Seq<char>)>
    decreases s.len(), 5int,
{
    if s.len() == 0 {
        None
    } else if is_ws(s[0]) {
        parse_members_sep(s.skip(1))
    } else if s[0] == '}' {
        Some((Seq::empty(), s.skip(1)))
    } else if s[0] == ',' {
        parse_members_tail(s.skip(1))
    } else {
        None
    }
}

/// Only whitespace characters.
pub open spec fn all_ws(s: Seq<char>) -> bool {
    forall|i: int| 0 <= i < s.len() ==> is_ws(#[trigger] s[i])
}

/// What parsing a whole text yields: one value, with whitespace allowed
/// around it and nothing else before or after.
pub open spec fn spec_parse(s: Seq<char>) -> Option<SpecJson> {
    match parse_value(s) {
        None => None,
        Some((v, r)) => if all_ws(r) {
            Some(v)
        } else {
            None
        },
    }
}

/// Relies on `char::from_u32`: returns the character with the given code
/// point, and `None` exactly on surrogate code points and values above the
/// Unicode maximum.
pub assume_specification[ char::from_u32 ](v: u32) -> (r: Option<char>)
    ensures
        r == (if v < 0xD800 || (0xDFFF < v && v <= 0x10FFFF) {
            Some(v as char)
        } else {
            None::<char>
        }),
;

/// Whether `c` is a hexadecimal digit.
fn hex_test(c: char) -> (r: bool)
    ensures
        r == is_hex(c),
{
    digit_test(c) || c == 'a' || c == 'b' || c == 'c' || c == 'd' || c == 'e' || c == 'f' || c
        == 'A' || c == 'B' || c == 'C' || c == 'D' || c == 'E' || c == 'F'
}

/// The value of a hexadecimal digit.
fn hex_value(c: char) -> (r: u32)
    requires
        is_hex(c),
    ensures
        r == hex_val(c),
        r < 16,
{
    if digit_test(c) {
        digit_value(c) as u32
    } else if c == 'a' || c == 'A' {
        10
    } else if c == 'b' || c == 'B' {
        11
    } else if c == 'c' || c == 'C' {
        12
    } else if c == 'd' || c == 'D' {
        13
    } else if c == 'e' || c == 'E' {
        14
    } else {
        15
    }
}

/// Whether `c` is a decimal digit.
fn digit_test(c: char) -> (r: bool)
    ensures
        r == is_digit(c),
{
    c == '0' || c == '1' || c == '2' || c == '3' || c == '4' || c == '5' || c == '6' || c == '7'
        || c == '8' || c == '9'
}

/// Whether `c` is JSON whitespace.
fn ws_test(c: char) -> (r: bool)
    ensures
        r == is_ws(c),
{
    c == ' ' || c == '\n' || c == '\t' || c == '\r'
}

/// The value of a decimal digit.
fn digit_value(c: char) -> (r: u64)
    ensures
        r == digit_val(c),
        r < 10,
{
    if c == '0' {
        0
    } else if c == '1' {
        1
    } else if c == '2' {
        2
    } else if c == '3' {
        3
    } else if c == '4' {
        4
    } else if c == '5' {
        5
    } else if c == '6' {
        6
    } else if c == '7' {
        7
    } else if c == '8' {
        8
    } else {
        9
    }
}

/// Executable counterpart of [`parse_string_rest`], working on an index.
fn p_string_rest(s: &Vec<char>, i0: usize) -> (r: Option<(String, usize)>)
    requires
        i0 <= s@.len(),
    ensures
        match r {
            Some((cs, j)) => i0 < j <= s@.len() && parse_string_rest(s@.skip(i0 as int)) == Some(
                (cs@, s@.skip(j as int)),
            ),
            None => parse_string_rest(s@.skip(i0 as int)) is None,
        },
{
    let mut out = String::new();
    let mut i: usize = i0;
    loop
        invariant
            i0 <= i <= s@.len(),
            parse_string_rest(s@.skip(i0 as int)) == (match parse_string_rest(s@.skip(i as int)) {
                Some((cs, r)) => Some((out@ + cs, r)),
                None => None::<(Seq<char>, Seq<char>)>,
            }),
        decreases s@.len() - i,
    {
        if i == s.len() {
            return None;
        }
        let c = s[i];
        proof {
            assert(s@.skip(i as int)[0] == s@[i as int]);
        }
        if c == '"' {
            proof {
                lemma_skip_skip(s@, i as int, 1);
                assert(out@ + Seq::<char>::empty() =~= out@);
            }
            return Some((out, i + 1));
        } else if c == '\\' {
            if s.len() - i > 1 {
                let e = s[i + 1];
                proof {
                    assert(s@.skip(i as int)[1] == s@[i as int + 1]);
                }
                if e == 'u' {
                    if s.len() - i < 6 {
                        return None;
                    }
                    let h0 = s[i + 2];
                    let h1 = s[i + 3];
                    let h2 = s[i + 4];
                    let h3 = s[i + 5];
                    proof {
                        assert(s@.skip(i as int)[2] == s@[i as int + 2]);
                        assert(s@.skip(i as int)[3] == s@[i as int + 3]);
                        assert(s@.skip(i as int)[4] == s@[i as int + 4]);
                        assert(s@.skip(i as int)[5] == s@[i as int + 5]);
                    }
                    if !(hex_test(h0) && hex_test(h1) && hex_test(h2) && hex_test(h3)) {
                        return None;
                    }
                    let u: u32 = ((hex_value(h0) * 16 + hex_value(h1)) * 16 + hex_value(h2)) * 16
                        + hex_value(h3);
                    if u < 0xD800 || u > 0xDFFF {
                        match char::from_u32(u) {
                            Some(dc) => {
                                crate::json::push_char(&mut out, dc);
                                proof {
                                    assert(dc == code_char(hex4(h0, h1, h2, h3)));
                                    lemma_skip_skip(s@, i as int, 6);
                                    assert forall|cs: Seq<char>| out@.drop_last() + (seq![dc] + cs)
                                        =~= out@ + cs by {}
                                }
                                i = i + 6;
                            },
                            None => {
                                proof {
                                    assert(false);
                                }
                                return None;
                            },
                        }
                    } else if u <= 0xDBFF {
                        if s.len() - i < 12 {
                            return None;
                        }
                        let b6 = s[i + 6];
                        let b7 = s[i + 7];
                        let g0 = s[i + 8];
                        let g1 = s[i + 9];
                        let g2 = s[i + 10];
                        let g3 = s[i + 11];
                        proof {
                            assert(s@.skip(i as int)[6] == s@[i as int + 6]);
                            assert(s@.skip(i as int)[7] == s@[i as int + 7]);
                            assert(s@.skip(i as int)[8] == s@[i as int + 8]);
                            assert(s@.skip(i as int)[9] == s@[i as int + 9]);
                            assert(s@.skip(i as int)[10] == s@[i as int + 10]);
                            assert(s@.skip(i as int)[11] == s@[i as int + 11]);
                        }
                        if !(b6 == '\\' && b7 == 'u' && hex_test(g0) && hex_test(g1) && hex_test(
                            g2,
                        ) && hex_test(g3)) {
                            return None;
                        }
                        let lo: u32 = ((hex_value(g0) * 16 + hex_value(g1)) * 16 + hex_value(g2))
                            * 16 + hex_value(g3);
                        if 0xDC00 <= lo && lo <= 0xDFFF {
                            let cp: u32 = 0x10000 + (u - 0xD800) * 0x400 + (lo - 0xDC00);
                            match char::from_u32(cp) {
                                Some(dc) => {
                                    crate::json::push_char(&mut out, dc);
                                    proof {
                                        assert(dc == code_char(
                                            0x10000 + (hex4(h0, h1, h2, h3) - 0xD800) * 0x400 + (
                                            hex4(g0, g1, g2, g3) - 0xDC00),
                                        ));
                                        lemma_skip_skip(s@, i as int, 12);
                                        assert forall|cs: Seq<char>|
                                            out@.drop_last() + (seq![dc] + cs) =~= out@ + cs by {}
                                    }
                                    i = i + 12;
                                },
                                None => {
                                    proof {
                                        assert(false);
                                    }
                                    return None;
                                },
                            }
                        } else {
                            return None;
                        }
                    } else {
                        return None;
                    }
                } else if e == '"' || e == '\\' || e == '/' || e == 'n' || e == 't' || e == 'r' {
                    let u: char = if e == 'n' {
                        '\n'
                    } else if e == 't' {
                        '\t'
                    } else if e == 'r' {
                        '\r'
                    } else {
                        e
                    };
                    crate::json::push_char(&mut out, u);
                    proof {
                        lemma_skip_skip(s@, i as int, 2);
                        assert forall|cs: Seq<char>| out@.drop_last() + (seq![u] + cs) =~= out@
                            + cs by {}
                    }
                    i = i + 2;
                } else {
                    return None;
                }
            } else {
                return None;
            }
        } else {
            crate::json::push_char(&mut out, c);
            proof {
                lemma_skip_skip(s@, i as int, 1);
                assert forall|cs: Seq<char>| out@.drop_last() + (seq![c] + cs) =~= out@ + cs by {}
            }
            i = i + 1;
        }
    }
}

/// Executable counterpart of [`parse_digits`].
fn p_digits(s: &Vec<char>, i0: usize, acc0: u64) -> (r: Option<(u64, usize)>)
    requires
        i0 <= s@.len(),
        acc0 <= 9223372036854775808,
    ensures
        match r {
            Some((m, j)) => i0 <= j <= s@.len() && m <= 9223372036854775808 && parse_digits(
                s@.skip(i0 as int),
                acc0 as int,
            ) == Some((m as int, s@.skip(j as int))) && (i0 < s@.len() && is_digit(
                s@[i0 as int],
            ) ==> j > i0),
            None => parse_digits(s@.skip(i0 as int), acc0 as int) is None,
        },
    decreases s@.len() - i0,
{
    if i0 < s.len() {
        let c = s[i0];
        proof {
            assert(s@.skip(i0 as int)[0] == s@[i0 as int]);
        }
        if digit_test(c) {
            let d = digit_value(c);
            let acc2: u128 = (acc0 as u128) * 10 + (d as u128);
            if acc2 > 9223372036854775808u128 {
                return None;
            }
            proof {
                lemma_skip_skip(s@, i0 as int, 1);
            }
            return p_digits(s, i0 + 1, acc2 as u64);
        }
    }
    Some((acc0, i0))
}

/// Executable counterpart of [`parse_number`].
fn p_number(s: &Vec<char>, i: usize) -> (r: Option<(Json, usize)>)
    requires
        i < s@.len(),
        s@[i as int] == '-' || is_digit(s@[i as int]),
    ensures
        match r {
            Some((v, j)) => i < j <= s@.len() && parse_number(s@.skip(i as int)) == Some(
                (v@, s@.skip(j as int)),
            ),
            None => parse_number(s@.skip(i as int)) is None,
        },
{
    let c = s[i];
    proof {
        assert(s@.skip(i as int)[0] == s@[i as int]);
    }
    if c == '-' {
        if s.len() - i > 1 {
            let c1 = s[i + 1];
            proof {
                assert(s@.skip(i as int)[1] == s@[i as int + 1]);
            }
            if digit_test(c1) {
                proof {
                    lemma_skip_skip(s@, i as int, 1);
                }
                match p_digits(s, i + 1, 0) {
                    None => None,
                    Some((m, j)) => {
                        let v: i64 = if m == 9223372036854775808u64 {
                            i64::MIN
                        } else {
                            -(m as i64)
                        };
                        Some((Json::Int(v), j))
                    },
                }
            } else {
                None
            }
        } else {
            None
        }
    } else {
        match p_digits(s, i, 0) {
            None => None,
            Some((m, j)) => {
                if m <= 9223372036854775807u64 {
                    Some((Json::Int(m as i64), j))
                } else {
                    None
                }
            },
        }
    }
}

/// Executable counterpart of [`parse_value`].
fn p_value(s: &Vec<char>, i: usize) -> (r: Option<(Json, usize)>)
    requires
        i <= s@.len(),
    ensures
        match r {
            Some((v, j)) => i < j <= s@.len() && parse_value(s@.skip(i as int)) == Some(
                (v@, s@.skip(j as int)),
            ),
            None => parse_value(s@.skip(i as int)) is None,
        },
    decreases s@.len() - i, 2int,
{
    if i == s.len() {
        return None;
    }
    let c = s[i];
    proof {
        assert(s@.skip(i as int)[0] == s@[i as int]);
    }
    if ws_test(c) {
        proof {
            lemma_skip_skip(s@, i as int, 1);
        }
        return p_value(s, i + 1);
    }
    if c == 'n' {
        if s.len() - i >= 4 && s[i + 1] == 'u' && s[i + 2] == 'l' && s[i + 3] == 'l' {
            proof {
                assert(s@.skip(i as int)[1] == s@[i as int + 1]);
                assert(s@.skip(i as int)[2] == s@[i as int + 2]);
                assert(s@.skip(i as int)[3] == s@[i as int + 3]);
                lemma_skip_skip(s@, i as int, 4);
            }
            return Some((Json::Null, i + 4));
        }
        proof {
            if s@.skip(i as int).len() >= 4 {
                assert(s@.skip(i as int)[1] == s@[i as int + 1]);
                assert(s@.skip(i as int)[2] == s@[i as int + 2]);
                assert(s@.skip(i as int)[3] == s@[i as int + 3]);
            }
        }
        return None;
    }
    if c == 't' {
        if s.len() - i >= 4 && s[i + 1] == 'r' && s[i + 2] == 'u' && s[i + 3] == 'e' {
            proof {
                assert(s@.skip(i as int)[1] == s@[i as int + 1]);
                assert(s@.skip(i as int)[2] == s@[i as int + 2]);
                assert(s@.skip(i as int)[3] == s@[i as int + 3]);
                lemma_skip_skip(s@, i as int, 4);
            }
            return Some((Json::Bool(true), i + 4));
        }
        proof {
            if s@.skip(i as int).len() >= 4 {
                assert(s@.skip(i as int)[1] == s@[i as int + 1]);
                assert(s@.skip(i as int)[2] == s@[i as int + 2]);
                assert(s@.skip(i as int)[3] == s@[i as int + 3]);
            }
        }
        return None;
    }
    if c == 'f' {
        if s.len() - i >= 5 && s[i + 1] == 'a' && s[i + 2] == 'l' && s[i + 3] == 's' && s[i + 4]
            == 'e' {
            proof {
                assert(s@.skip(i as int)[1] == s@[i as int + 1]);
                assert(s@.skip(i as int)[2] == s@[i as int + 2]);
                assert(s@.skip(i as int)[3] == s@[i as int + 3]);
                assert(s@.skip(i as int)[4] == s@[i as int + 4]);
                lemma_skip_skip(s@, i as int, 5);
            }
            return Some((Json::Bool(false), i + 5));
        }
        proof {
            if s@.skip(i as int).len() >= 5 {
                assert(s@.skip(i as int)[1] == s@[i as int + 1]);
                assert(s@.skip(i as int)[2] == s@[i as int + 2]);
                assert(s@.skip(i as int)[3] == s@[i as int + 3]);
                assert(s@.skip(i as int)[4] == s@[i as int + 4]);
            }
        }
        return None;
    }
    if c == '"' {
        proof {
            lemma_skip_skip(s@, i as int, 1);
        }
        return match p_string_rest(s, i + 1) {
            Some((cs, j)) => Some((Json::Str(cs), j)),
            None => None,
        };
    }
    if c == '-' || digit_test(c) {
        return p_number(s, i);
    }
    if c == '[' {
        proof {
            lemma_skip_skip(s@, i as int, 1);
        }
        return match p_items(s, i + 1) {
            Some((vs, j)) => Some((Json::Arr(vs), j)),
            None => None,
        };
    }
    if c == '{' {
        proof {
            lemma_skip_skip(s@, i as int, 1);
        }
        return match p_members(s, i + 1) {
            Some((ms, j)) => Some((Json::Obj(ms), j)),
            None => None,
        };
    }
    None
}

/// Executable counterpart of [`parse_items`].
fn p_items(s: &Vec<char>, i: usize) -> (r: Option<(Vec<Json>, usize)>)
    requires
        i <= s@.len(),
    ensures
        match r {
            Some((vs, j)) => i < j <= s@.len() && parse_items(s@.skip(i as int)) == Some(
                (crate::json::seq_view(vs@), s@.skip(j as int)),
            ),
            None => parse_items(s@.skip(i as int)) is None,
        },
    decreases s@.len() - i, 4int,
{
    if i == s.len() {
        return None;
    }
    let c = s[i];
    proof {
        assert(s@.skip(i as int)[0] == s@[i as int]);
    }
    if ws_test(c) {
        proof {
            lemma_skip_skip(s@, i as int, 1);
        }
        return p_items(s, i + 1);
    }
    if c == ']' {
        proof {
            lemma_skip_skip(s@, i as int, 1);
            assert(crate::json::seq_view(Seq::<Json>::empty()) =~= Seq::<SpecJson>::empty());
        }
        return Some((Vec::new(), i + 1));
    }
    p_items_tail(s, i)
}

/// Executable counterpart of [`parse_items_tail`].
fn p_items_tail(s: &Vec<char>, i: usize) -> (r: Option<(Vec<Json>, usize)>)
    requires
        i <= s@.len(),
    ensures
        match r {
            Some((vs, j)) => i < j <= s@.len() && parse_items_tail(s@.skip(i as int)) == Some(
                (crate::json::seq_view(vs@), s@.skip(j as int)),
            ),
            None => parse_items_tail(s@.skip(i as int)) is None,
        },
    decreases s@.len() - i, 3int,
{
    match p_value(s, i) {
        None => None,
        Some((v, j)) => {
            match p_items_sep(s, j) {
                None => None,
                Some((mut vs, jj)) => {
                    let ghost pre = vs@;
                    vs.insert(0, v);
                    proof {
                        assert(crate::json::seq_view(vs@) =~= seq![v@] + crate::json::seq_view(
                            pre,
                        ));
                    }
                    Some((vs, jj))
                },
            }
        },
    }
}

/// Executable counterpart of [`parse_items_sep`].
fn p_items_sep(s: &Vec<char>, i: usize) -> (r: Option<(Vec<Json>, usize)>)
    requires
        i <= s@.len(),
    ensures
        match r {
            Some((vs, j)) => i < j <= s@.len() && parse_items_sep(s@.skip(i as int)) == Some(
                (crate::json::seq_view(vs@), s@.skip(j as int)),
            ),
            None => parse_items_sep(s@.skip(i as int)) is None,
        },
    decreases s@.len() - i, 5int,
{
    if i == s.len() {
        return None;
    }
    let c = s[i];
    proof {
        assert(s@.skip(i as int)[0] == s@[i as int]);
    }
    if ws_test(c) {
        proof {
            lemma_skip_skip(s@, i as int, 1);
        }
        return p_items_sep(s, i + 1);
    }
    if c == ']' {
        proof {
            lemma_skip_skip(s@, i as int, 1);
            assert(crate::json::seq_view(Seq::<Json>::empty()) =~= Seq::<SpecJson>::empty());
        }
        return Some((Vec::new(), i + 1));
    }
    if c == ',' {
        proof {
            lemma_skip_skip(s@, i as int, 1);
        }
        return p_items_tail(s, i + 1);
    }
    None
}

/// Executable counterpart of [`parse_members`].
fn p_members(s: &Vec<char>, i: usize) -> (r: Option<(Vec<(String, Json)>, usize)>)
    requires
        i <= s@.len(),
    ensures
        match r {
            Some((ms, j)) => i < j <= s@.len() && parse_members(s@.skip(i as int)) == Some(
                (crate::json::members_view(ms@), s@.skip(j as int)),
            ),
            None => parse_members(s@.skip(i as int)) is None,
        },
    decreases s@.len() - i, 4int,
{
    if i == s.len() {
        return None;
    }
    let c = s[i];
    proof {
        assert(s@.skip(i as int)[0] == s@[i as int]);
    }
    if ws_test(c) {
        proof {
            lemma_skip_skip(s@, i as int, 1);
        }
        return p_members(s, i + 1);
    }
    if c == '}' {
        proof {
            lemma_skip_skip(s@, i as int, 1);
            assert(crate::json::members_view(Seq::<(String, Json)>::empty()) =~= Seq::<
                (Seq<char>, SpecJson),
            >::empty());
        }
        return Some((Vec::new(), i + 1));
    }
    p_members_tail(s, i)
}

/// Executable counterpart of [`parse_members_tail`].
fn p_members_tail(s: &Vec<char>, i: usize) -> (r: Option<(Vec<(String, Json)>, usize)>)
    requires
        i <= s@.len(),
    ensures
        match r {
            Some((ms, j)) => i < j <= s@.len() && parse_members_tail(s@.skip(i as int)) == Some(
                (crate::json::members_view(ms@), s@.skip(j as int)),
            ),
            None => parse_members_tail(s@.skip(i as int)) is None,
        },
    decreases s@.len() - i, 3int,
{
    if i == s.len() {
        return None;
    }
    let c = s[i];
    proof {
        assert(s@.skip(i as int)[0] == s@[i as int]);
    }
    if ws_test(c) {
        proof {
            lemma_skip_skip(s@, i as int, 1);
        }
        return p_members_tail(s, i + 1);
    }
    if c == '"' {
        proof {
            lemma_skip_skip(s@, i as int, 1);
        }
        return match p_string_rest(s, i + 1) {
            None => None,
            Some((k, j)) => p_member_colon(s, j, k),
        };
    }
    None
}

/// Executable counterpart of [`parse_member_colon`].
fn p_member_colon(s: &Vec<char>, i: usize, k: String) -> (r: Option<(Vec<(String, Json)>, usize)>)
    requires
        i <= s@.len(),
    ensures
        match r {
            Some((ms, j)) => i < j <= s@.len() && parse_member_colon(s@.skip(i as int), k@) == Some(
                (crate::json::members_view(ms@), s@.skip(j as int)),
            ),
            None => parse_member_colon(s@.skip(i as int), k@) is None,
        },
    decreases s@.len() - i, 6int,
{
    if i == s.len() {
        return None;
    }
    let c = s[i];
    proof {
        assert(s@.skip(i as int)[0] == s@[i as int]);
    }
    if ws_test(c) {
        proof {
            lemma_skip_skip(s@, i as int, 1);
        }
        return p_member_colon(s, i + 1, k);
    }
    if c == ':' {
        proof {
            lemma_skip_skip(s@, i as int, 1);
        }
        return match p_value(s, i + 1) {
            None => None,
            Some((v, j)) => {
                match p_members_sep(s, j) {
                    None => None,
                    Some((mut ms, jj)) => {
                        let ghost pre = ms@;
                        let ghost gk = k@;
                        ms.insert(0, (k, v));
                        proof {
                            assert(crate::json::members_view(ms@) =~= seq![(gk, v@)]
                                + crate::json::members_view(pre));
                        }
                        Some((ms, jj))
                    },
                }
            },
        };
    }
    None
}

/// Executable counterpart of [`parse_members_sep`].
fn p_members_sep(s: &Vec<char>, i: usize) -> (r: Option<(Vec<(String, Json)>, usize)>)
    requires
        i <= s@.len(),
    ensures
        match r {
            Some((ms, j)) => i < j <= s@.len() && parse_members_sep(s@.skip(i as int)) == Some(
                (crate::json::members_view(ms@), s@.skip(j as int)),
            ),
            None => parse_members_sep(s@.skip(i as int)) is None,
        },
    decreases s@.len() - i, 5int,
{
    if i == s.len() {
        return None;
    }
    let c = s[i];
    proof {
        assert(s@.skip(i as int)[0] == s@[i as int]);
    }
    if ws_test(c) {
        proof {
            lemma_skip_skip(s@, i as int, 1);
        }
        return p_members_sep(s, i + 1);
    }
    if c == '}' {
        proof {
            lemma_skip_skip(s@, i as int, 1);
            assert(crate::json::members_view(Seq::<(String, Json)>::empty()) =~= Seq::<
                (Seq<char>, SpecJson),
            >::empty());
        }
        return Some((Vec::new(), i + 1));
    }
    if c == ',' {
        proof {
            lemma_skip_skip(s@, i as int, 1);
        }
        return p_members_tail(s, i + 1);
    }
    None
}

/// Parse a whole JSON text.
///
/// Returns the parsed value exactly when [`spec_parse`] accepts the text, and
/// an error otherwise.
pub fn parse(s: &str) -> (r: Result<Json, JsonError>)
    ensures
        match r {
            Ok(v) => spec_parse(s@) == Some(v@),
            Err(_) => spec_parse(s@) is None,
        },
{
    let len = s.unicode_len();
    let mut cs: Vec<char> = Vec::new();
    let mut i: usize = 0;
    while i < len
        invariant
            len == s@.len(),
            i <= len,
            cs@ == s@.take(i as int),
        decreases len - i,
    {
        let c = s.get_char(i);
        cs.push(c);
        proof {
            assert(s@.take(i as int + 1) =~= s@.take(i as int).push(s@[i as int]));
        }
        i = i + 1;
    }
    proof {
        assert(s@.take(len as int) =~= s@);
        assert(cs@.skip(0) =~= cs@);
    }
    match p_value(&cs, 0) {
        None => Err(JsonError::new(String::from_str("invalid JSON value"))),
        Some((v, j)) => {
            let mut t: usize = j;
            while t < cs.len()
                invariant
                    j <= t <= cs@.len(),
                    cs@ == s@,
                    parse_value(s@) == Some((v@, s@.skip(j as int))),
                    forall|q: int| j <= q < t ==> is_ws(#[trigger] s@[q]),
                decreases cs@.len() - t,
            {
                let c = cs[t];
                if !ws_test(c) {
                    proof {
                        assert(s@.skip(j as int)[t - j] == s@[t as int]);
                    }
                    return Err(JsonError::new(String::from_str("trailing characters")));
                }
                t = t + 1;
            }
            proof {
                assert forall|q: int| 0 <= q < s@.skip(j as int).len() implies is_ws(
                    #[trigger] s@.skip(j as int)[q],
                ) by {
                    assert(s@.skip(j as int)[q] == s@[j + q]);
                }
            }
            Ok(v)
        },
    }
}

} // verus!
