//! Losslessness of the JSON text form.
//!
//! The law proved here: parsing the serialized text of any well-formed value
//! gives back exactly that value ([`lemma_text_round_trip`]).  The proof
//! walks the grammar; each helper states the same round trip for one
//! syntactic class, generalized over the text that follows, which is how the
//! induction goes through for arrays and objects.

use vstd::prelude::*;

use crate::json::SpecJson;
use crate::json::digit_char;
use crate::json::escape_char;
use crate::json::escape_str;
use crate::json::int_text;
use crate::json::items_text;
use crate::json::json_text;
use crate::json::json_wf;
use crate::json::member_text;
use crate::json::members_text;
use crate::json::nat_text;
use crate::parser::all_ws;
use crate::parser::digit_val;
use crate::parser::is_digit;
use crate::parser::is_escapable;
use crate::parser::is_ws;
use crate::parser::parse_digits;
use crate::parser::parse_items;
use crate::parser::parse_items_sep;
use crate::parser::parse_items_tail;
use crate::parser::parse_member_colon;
use crate::parser::parse_members;
use crate::parser::parse_members_sep;
use crate::parser::parse_members_tail;
use crate::parser::parse_number;
use crate::parser::parse_string_rest;
use crate::parser::parse_value;
use crate::parser::spec_parse;
use crate::parser::unescape_char;

verus! {

/// Powers of ten.
pub open spec fn pow10(k: nat) -> int
    decreases k,
{
    if k == 0 {
        1
    } else {
        10 * pow10((k - 1) as nat)
    }
}

proof fn lemma_pow10_pos(k: nat)
    ensures
        pow10(k) >= 1,
    decreases k,
{
    if k > 0 {
        lemma_pow10_pos((k - 1) as nat)
    }
}

/// The digit text of a nonnegative integer is nonempty and starts with a
/// digit.
proof fn lemma_nat_text_shape(n: int)
    requires
        0 <= n,
    ensures
        nat_text(n).len() >= 1,
        is_digit(nat_text(n)[0]),
    decreases n,
{
    if n >= 10 {
        lemma_nat_text_shape(n / 10);
        assert(nat_text(n)[0] == nat_text(n / 10)[0]);
    }
}

/// Reading the digits of `n` onto an accumulator multiplies the accumulator
/// past them and adds `n`.
proof fn lemma_digits_cont(n: int, rest: Seq<char>, acc: int)
    requires
        0 <= n,
        0 <= acc,
        acc * pow10(nat_text(n).len() as nat) + n <= 9223372036854775808,
    ensures
        parse_digits(nat_text(n) + rest, acc) == parse_digits(
            rest,
            acc * pow10(nat_text(n).len() as nat) + n,
        ),
    decreases n,
{
    lemma_nat_text_shape(n);
    if n < 10 {
        let s = nat_text(n) + rest;
        assert(s[0] == digit_char(n));
        assert(digit_val(digit_char(n)) == n);
        let acc2 = acc * 10 + n;
        assert(pow10(0) == 1);
        assert(pow10(1) == 10);
        assert(acc2 <= 9223372036854775808);
        assert(s.skip(1) =~= rest);
        assert(parse_digits(s, acc) == parse_digits(rest, acc2));
    } else {
        let hi = n / 10;
        let d = n % 10;
        let base = nat_text(hi);
        let lentail = seq![digit_char(d)] + rest;
        assert(nat_text(n) + rest =~= base + lentail);
        let lh = base.len() as nat;
        assert(nat_text(n).len() == lh + 1);
        assert(pow10(lh + 1) == 10 * pow10(lh));
        lemma_pow10_pos(lh);
        let mid = acc * pow10(lh) + hi;
        assert(mid >= 0) by (nonlinear_arith)
            requires
                mid == acc * pow10(lh) + hi,
                acc >= 0,
                pow10(lh) >= 1,
                hi >= 0,
        ;
        assert(mid * 10 + d == acc * pow10(lh + 1) + n) by (nonlinear_arith)
            requires
                mid == acc * pow10(lh) + hi,
                pow10(lh + 1) == 10 * pow10(lh),
                hi == n / 10,
                d == n % 10,
                n >= 10,
        ;
        assert(mid <= mid * 10 + d) by (nonlinear_arith)
            requires
                mid >= 0,
                d >= 0,
        ;
        lemma_digits_cont(hi, lentail, acc);
        assert(parse_digits(nat_text(n) + rest, acc) == parse_digits(lentail, mid));
        lemma_nat_text_shape(hi);
        assert(lentail[0] == digit_char(d));
        assert(is_digit(lentail[0]));
        assert(digit_val(digit_char(d)) == d);
        assert(mid * 10 + d <= 9223372036854775808);
        assert(lentail.skip(1) =~= rest);
        assert(parse_digits(lentail, mid) == parse_digits(rest, mid * 10 + d));
    }
}

/// Round trip for integers: parsing the printed text of `i` followed by
/// anything that does not begin with a digit yields `i` back.
proof fn lemma_number_round(i: int, rest: Seq<char>)
    requires
        i64::MIN <= i <= i64::MAX,
        rest.len() == 0 || !is_digit(rest[0]),
    ensures
        parse_number(int_text(i) + rest) == Some((SpecJson::Int(i), rest)),
{
    if i >= 0 {
        lemma_nat_text_shape(i);
        let s = nat_text(i) + rest;
        assert(int_text(i) + rest == s);
        assert(s[0] == nat_text(i)[0]);
        lemma_pow10_pos(nat_text(i).len() as nat);
        assert(0 * pow10(nat_text(i).len() as nat) == 0) by (nonlinear_arith);
        lemma_digits_cont(i, rest, 0);
        assert(parse_digits(s, 0) == parse_digits(rest, i));
        assert(parse_digits(rest, i) == Some((i, rest)));
        assert(!(s[0] == '-'));
    } else {
        let m = -i;
        lemma_nat_text_shape(m);
        let s = int_text(i) + rest;
        assert(int_text(i) == seq!['-'] + nat_text(m));
        assert(s =~= seq!['-'] + (nat_text(m) + rest));
        assert(s[0] == '-');
        assert(s.len() >= 2);
        assert(s[1] == nat_text(m)[0]);
        assert(s.skip(1) =~= nat_text(m) + rest);
        lemma_pow10_pos(nat_text(m).len() as nat);
        assert(0 * pow10(nat_text(m).len() as nat) == 0) by (nonlinear_arith);
        lemma_digits_cont(m, rest, 0);
        assert(parse_digits(s.skip(1), 0) == Some((m, rest)));
    }
}

/// Round trip for string bodies: parsing the escaped text of `cs` followed
/// by the closing quote yields `cs` back.
proof fn lemma_string_round(cs: Seq<char>, rest: Seq<char>)
    ensures
        parse_string_rest(escape_str(cs) + seq!['"'] + rest) == Some((cs, rest)),
    decreases cs.len(),
{
    if cs.len() == 0 {
        let s = escape_str(cs) + seq!['"'] + rest;
        assert(s =~= seq!['"'] + rest);
        assert(s[0] == '"');
        assert(s.skip(1) =~= rest);
    } else {
        let c = cs[0];
        let s = escape_str(cs) + seq!['"'] + rest;
        let tail = escape_str(cs.skip(1)) + seq!['"'] + rest;
        assert(escape_str(cs) == escape_char(c) + escape_str(cs.skip(1)));
        lemma_string_round(cs.skip(1), rest);
        if c == '"' || c == '\\' {
            assert(s =~= seq!['\\', c] + tail);
            assert(s[0] == '\\');
            assert(s[1] == c);
            assert(is_escapable(c));
            assert(unescape_char(c) == c);
            assert(s.skip(2) =~= tail);
            assert(parse_string_rest(s) == Some((seq![c] + cs.skip(1), rest)));
        } else {
            assert(s =~= seq![c] + tail);
            assert(s[0] == c);
            assert(!(c == '"') && !(c == '\\'));
            assert(s.skip(1) =~= tail);
            assert(parse_string_rest(s) == Some((seq![c] + cs.skip(1), rest)));
        }
        assert(seq![c] + cs.skip(1) =~= cs);
    }
}

/// The first character a serialized value can start with.
pub open spec fn is_json_start(c: char) -> bool {
    c == 'n' || c == 't' || c == 'f' || c == '"' || c == '-' || is_digit(c) || c == '[' || c == '{'
}

/// Serialized values are nonempty and start with a value-opening character.
proof fn lemma_json_text_shape(v: SpecJson)
    ensures
        json_text(v).len() >= 1,
        is_json_start(json_text(v)[0]),
{
    reveal_strlit("null");
    reveal_strlit("true");
    reveal_strlit("false");
    match v {
        SpecJson::Null => {}
        SpecJson::Bool(b) => {}
        SpecJson::Int(i) => {
            if i >= 0 {
                lemma_nat_text_shape(i);
            } else {
                lemma_nat_text_shape(-i);
                assert(json_text(v)[0] == '-');
            }
        }
        SpecJson::Str(s) => {
            assert(json_text(v)[0] == '"');
        }
        SpecJson::Arr(items) => {
            assert(json_text(v)[0] == '[');
        }
        SpecJson::Obj(members) => {
            assert(json_text(v)[0] == '{');
        }
    }
}

/// Round trip for whole values, generalized over what follows the value.
#[verifier::rlimit(100)]
proof fn lemma_value_round(v: SpecJson, rest: Seq<char>)
    requires
        json_wf(v),
        rest.len() == 0 || !is_digit(rest[0]),
    ensures
        parse_value(json_text(v) + rest) == Some((v, rest)),
    decreases v, 0int,
{
    lemma_json_text_shape(v);
    let s = json_text(v) + rest;
    assert(s[0] == json_text(v)[0]);
    assert(!is_ws(s[0]));
    match v {
        SpecJson::Null => {
            reveal_strlit("null");
            assert(s[1] == 'u' && s[2] == 'l' && s[3] == 'l');
            assert(s.skip(4) =~= rest);
        }
        SpecJson::Bool(b) => {
            if b {
                reveal_strlit("true");
                assert(s[1] == 'r' && s[2] == 'u' && s[3] == 'e');
                assert(s.skip(4) =~= rest);
            } else {
                reveal_strlit("false");
                assert(s[1] == 'a' && s[2] == 'l' && s[3] == 's' && s[4] == 'e');
                assert(s.skip(5) =~= rest);
            }
        }
        SpecJson::Int(i) => {
            lemma_number_round(i, rest);
            assert(parse_value(s) == parse_number(s));
        }
        SpecJson::Str(cs) => {
            assert(s.skip(1) =~= escape_str(cs) + seq!['"'] + rest);
            lemma_string_round(cs, rest);
        }
        SpecJson::Arr(items) => {
            let t = items_text(items) + seq![']'] + rest;
            assert(s.skip(1) =~= t);
            if items.len() == 0 {
                assert(t =~= seq![']'] + rest);
                assert(t[0] == ']');
                assert(t.skip(1) =~= rest);
                assert(parse_items(t) == Some((Seq::<SpecJson>::empty(), rest)));
                assert(items =~= Seq::<SpecJson>::empty());
            } else {
                lemma_json_text_shape(items[0]);
                assert(t[0] == json_text(items[0])[0]);
                assert(!is_ws(t[0]) && !(t[0] == ']'));
                lemma_items_round(items, rest);
                assert(parse_items(t) == parse_items_tail(t));
            }
        }
        SpecJson::Obj(members) => {
            let t = members_text(members) + seq!['}'] + rest;
            assert(s.skip(1) =~= t);
            if members.len() == 0 {
                assert(t =~= seq!['}'] + rest);
                assert(t[0] == '}');
                assert(t.skip(1) =~= rest);
                assert(parse_members(t) == Some((Seq::<(Seq<char>, SpecJson)>::empty(), rest)));
                assert(members =~= Seq::<(Seq<char>, SpecJson)>::empty());
            } else {
                assert(t[0] == member_text(members[0])[0]);
                assert(t[0] == '"');
                lemma_members_round(members, rest);
                assert(parse_members(t) == parse_members_tail(t));
            }
        }
    }
}

/// Round trip for one or more array items followed by the closing bracket.
#[verifier::rlimit(100)]
proof fn lemma_items_round(items: Seq<SpecJson>, rest: Seq<char>)
    requires
        items.len() >= 1,
        forall|i: int| 0 <= i < items.len() ==> json_wf(#[trigger] items[i]),
        rest.len() == 0 || !is_digit(rest[0]),
    ensures
        parse_items_tail(items_text(items) + seq![']'] + rest) == Some((items, rest)),
    decreases items, 1int,
{
    let s = items_text(items) + seq![']'] + rest;
    lemma_json_text_shape(items[0]);
    if items.len() == 1 {
        let after = seq![']'] + rest;
        assert(s =~= json_text(items[0]) + after);
        assert(after[0] == ']');
        lemma_value_round(items[0], after);
        assert(parse_value(s) == Some((items[0], after)));
        assert(after.len() < s.len());
        assert(after.skip(1) =~= rest);
        assert(parse_items_sep(after) == Some((Seq::<SpecJson>::empty(), rest)));
        assert(seq![items[0]] + Seq::<SpecJson>::empty() =~= items);
    } else {
        let tailtext = items_text(items.skip(1)) + seq![']'] + rest;
        let after = seq![','] + tailtext;
        assert(items_text(items) == json_text(items[0]) + seq![','] + items_text(items.skip(1)));
        assert(s =~= json_text(items[0]) + after);
        assert(after[0] == ',');
        lemma_value_round(items[0], after);
        assert(parse_value(s) == Some((items[0], after)));
        assert(after.len() < s.len());
        assert(after.skip(1) =~= tailtext);
        assert(forall|i: int|
            0 <= i < items.skip(1).len() ==> json_wf(#[trigger] items.skip(1)[i]));
        lemma_items_round(items.skip(1), rest);
        assert(parse_items_tail(tailtext) == Some((items.skip(1), rest)));
        assert(parse_items_sep(after) == Some((items.skip(1), rest)));
        assert(seq![items[0]] + items.skip(1) =~= items);
    }
}

/// Round trip for one or more object members followed by the closing brace.
#[verifier::rlimit(100)]
proof fn lemma_members_round(members: Seq<(Seq<char>, SpecJson)>, rest: Seq<char>)
    requires
        members.len() >= 1,
        forall|i: int| 0 <= i < members.len() ==> json_wf(#[trigger] members[i].1),
        rest.len() == 0 || !is_digit(rest[0]),
    ensures
        parse_members_tail(members_text(members) + seq!['}'] + rest) == Some((members, rest)),
    decreases members, 1int,
{
    let s = members_text(members) + seq!['}'] + rest;
    let k = members[0].0;
    let v = members[0].1;
    let after: Seq<char> = if members.len() == 1 {
        seq!['}'] + rest
    } else {
        seq![','] + (members_text(members.skip(1)) + seq!['}'] + rest)
    };
    let colontail = seq![':'] + json_text(v) + after;
    if members.len() == 1 {
        assert(s =~= member_text(members[0]) + after);
    } else {
        assert(members_text(members) == member_text(members[0]) + seq![','] + members_text(
            members.skip(1),
        ));
        assert(s =~= member_text(members[0]) + after);
    }
    assert(member_text(members[0]) =~= seq!['"'] + (escape_str(k) + seq!['"']) + (seq![':']
        + json_text(v)));
    assert(s[0] == '"');
    assert(!is_ws(s[0]));
    assert(s.skip(1) =~= escape_str(k) + seq!['"'] + colontail);
    lemma_string_round(k, colontail);
    assert(parse_string_rest(s.skip(1)) == Some((k, colontail)));
    assert(colontail.len() < s.len());
    assert(colontail[0] == ':');
    assert(!is_ws(colontail[0]));
    assert(colontail.skip(1) =~= json_text(v) + after);
    assert(after[0] == ',' || after[0] == '}');
    assert(!is_digit(after[0]));
    lemma_value_round(v, after);
    assert(parse_value(colontail.skip(1)) == Some((v, after)));
    lemma_json_text_shape(v);
    assert(after.len() < colontail.len());
    if members.len() == 1 {
        assert(after[0] == '}');
        assert(after.skip(1) =~= rest);
        assert(parse_members_sep(after) == Some((Seq::<(Seq<char>, SpecJson)>::empty(), rest)));
        assert(parse_member_colon(colontail, k) == Some(
            (seq![(k, v)] + Seq::<(Seq<char>, SpecJson)>::empty(), rest),
        ));
        assert(seq![(k, v)] + Seq::<(Seq<char>, SpecJson)>::empty() =~= members);
    } else {
        let tailtext = members_text(members.skip(1)) + seq!['}'] + rest;
        assert(after[0] == ',');
        assert(after.skip(1) =~= tailtext);
        assert(forall|i: int|
            0 <= i < members.skip(1).len() ==> json_wf(#[trigger] members.skip(1)[i].1));
        lemma_members_round(members.skip(1), rest);
        assert(parse_members_tail(tailtext) == Some((members.skip(1), rest)));
        assert(parse_members_sep(after) == Some((members.skip(1), rest)));
        assert(parse_member_colon(colontail, k) == Some((seq![(k, v)] + members.skip(1), rest)));
        assert(seq![(k, v)] + members.skip(1) =~= members);
    }
}

/// Serialization is lossless: parsing the text of any well-formed value
/// yields that value.
pub proof fn lemma_text_round_trip(v: SpecJson)
    requires
        json_wf(v),
    ensures
        spec_parse(json_text(v)) == Some(v),
{
    assert(json_text(v) + Seq::<char>::empty() =~= json_text(v));
    lemma_value_round(v, Seq::empty());
    assert(all_ws(Seq::<char>::empty()));
}

/// The same, for any value held at run time: what `to_text` produces,
/// `parse` reads back.
pub proof fn lemma_runtime_round_trip(j: crate::json::Json)
    ensures
        spec_parse(json_text(j@)) == Some(j@),
{
    crate::json::lemma_json_view_wf(j);
    lemma_text_round_trip(j@);
}

} // verus!
