//! The JSON value model and its text form.
//!
//! Tools exchange arguments and results as JSON text, so the registry needs a
//! JSON value type of its own, a serializer and a parser.  The model covers
//! objects, arrays, strings, integers, booleans and null; numbers are signed
//! 64-bit integers (no floating point).  Strings are serialized with `"` and
//! `\` escaped; the parser also accepts the common single-character escapes
//! and `\uXXXX` escapes.
//!
//! [`SpecJson`] is the mathematical model; [`Json`] is the executable value
//! whose view is a `SpecJson`.  The text form of a value is pinned down by the
//! spec function [`json_text`], and the serializer is proved to produce it.

use vstd::prelude::*;
use vstd::string::*;

verus! {

broadcast use vstd::std_specs::vec::group_vec_axioms;

/// Mathematical model of a JSON value.  Integers are unbounded here; the
/// well-formedness predicate [`json_wf`] restricts them to the `i64` range
/// that the executable representation can hold.
pub enum SpecJson {
    Null,
    Bool(bool),
    Int(int),
    Str(Seq<char>),
    Arr(Seq<SpecJson>),
    Obj(Seq<(Seq<char>, SpecJson)>),
}

/// A JSON value as held at run time.  Object members keep their order and may
/// repeat keys; the registry itself never relies on either.
#[derive(Debug, PartialEq, Eq)]
pub enum Json {
    Null,
    Bool(bool),
    Int(i64),
    Str(String),
    Arr(Vec<Json>),
    Obj(Vec<(String, Json)>),
}

/// The views of a sequence of values.
pub open spec fn seq_view(s: Seq<Json>) -> Seq<SpecJson>
    decreases s,
{
    Seq::new(
        s.len(),
        |i: int|
            if 0 <= i < s.len() {
                s[i]@
            } else {
                SpecJson::Null
            },
    )
}

/// The views of a sequence of object members.
pub open spec fn members_view(s: Seq<(String, Json)>) -> Seq<(Seq<char>, SpecJson)>
    decreases s,
{
    Seq::new(
        s.len(),
        |i: int|
            if 0 <= i < s.len() {
                (s[i].0@, s[i].1@)
            } else {
                (Seq::empty(), SpecJson::Null)
            },
    )
}

impl View for Json {
    type V = SpecJson;

    open spec fn view(&self) -> SpecJson
        decreases self,
    {
        match self {
            Json::Null => SpecJson::Null,
            Json::Bool(b) => SpecJson::Bool(*b),
            Json::Int(i) => SpecJson::Int(*i as int),
            Json::Str(s) => SpecJson::Str(s@),
            Json::Arr(items) => SpecJson::Arr(seq_view(items@)),
            Json::Obj(members) => SpecJson::Obj(members_view(members@)),
        }
    }
}

/// Every integer in the value fits in an `i64`.  Values built from a [`Json`]
/// satisfy this by construction.
pub open spec fn json_wf(v: SpecJson) -> bool
    decreases v,
{
    match v {
        SpecJson::Null => true,
        SpecJson::Bool(_) => true,
        SpecJson::Int(i) => i64::MIN <= i <= i64::MAX,
        SpecJson::Str(_) => true,
        SpecJson::Arr(items) => forall|i: int| 0 <= i < items.len() ==> json_wf(#[trigger] items[i]),
        SpecJson::Obj(members) => forall|i: int|
            0 <= i < members.len() ==> json_wf(#[trigger] members[i].1),
    }
}

/// Every value a [`Json`] can hold is well formed: its integers are `i64`s.
pub proof fn lemma_json_view_wf(j: Json)
    ensures
        json_wf(j@),
    decreases j,
{
    match j {
        Json::Arr(items) => {
            assert(j@ == SpecJson::Arr(seq_view(items@)));
            assert forall|i: int| 0 <= i < seq_view(items@).len() implies json_wf(
                #[trigger] seq_view(items@)[i],
            ) by {
                lemma_json_view_wf(items@[i]);
            }
        },
        Json::Obj(members) => {
            assert(j@ == SpecJson::Obj(members_view(members@)));
            assert forall|i: int| 0 <= i < members_view(members@).len() implies json_wf(
                #[trigger] members_view(members@)[i].1,
            ) by {
                lemma_json_view_wf(members@[i].1);
            }
        },
        _ => {},
    }
}

/// The serializer's escape for one string character: `"` and `\` get a
/// backslash, every other character stands for itself.
pub open spec fn escape_char(c: char) -> Seq<char> {
    if c == '"' {
        seq!['\\', '"']
    } else if c == '\\' {
        seq!['\\', '\\']
    } else {
        seq![c]
    }
}

/// The escaped body of a string literal.
pub open spec fn escape_str(s: Seq<char>) -> Seq<char>
    decreases s.len(),
{
    if s.len() == 0 {
        Seq::empty()
    } else {
        escape_char(s[0]) + escape_str(s.skip(1))
    }
}

/// The decimal digit for `d` in `0 .. 10`.
pub open spec fn digit_char(d: int) -> char {
    if d == 0 {
        '0'
    } else if d == 1 {
        '1'
    } else if d == 2 {
        '2'
    } else if d == 3 {
        '3'
    } else if d == 4 {
        '4'
    } else if d == 5 {
        '5'
    } else if d == 6 {
        '6'
    } else if d == 7 {
        '7'
    } else if d == 8 {
        '8'
    } else {
        '9'
    }
}

/// Decimal digits of a nonnegative integer, most significant first.
pub open spec fn nat_text(n: int) -> Seq<char>
    decreases n,
{
    if n < 10 {
        seq![digit_char(n)]
    } else {
        nat_text(n / 10).push(digit_char(n % 10))
    }
}

/// Decimal text of an integer.
pub open spec fn int_text(i: int) -> Seq<char> {
    if i < 0 {
        seq!['-'] + nat_text(-i)
    } else {
        nat_text(i)
    }
}

/// The compact text form of a value: no whitespace, members in order.
pub open spec fn json_text(v: SpecJson) -> Seq<char>
    decreases v, 0int,
{
    match v {
        SpecJson::Null => "null"@,
        SpecJson::Bool(b) => if b {
            "true"@
        } else {
            "false"@
        },
        SpecJson::Int(i) => int_text(i),
        SpecJson::Str(s) => seq!['"'] + escape_str(s) + seq!['"'],
        SpecJson::Arr(items) => seq!['['] + items_text(items) + seq![']'],
        SpecJson::Obj(members) => seq!['{'] + members_text(members) + seq!['}'],
    }
}

/// Comma-separated texts of array items.
pub open spec fn items_text(items: Seq<SpecJson>) -> Seq<char>
    decreases items, 1int,
{
    if items.len() == 0 {
        Seq::empty()
    } else if items.len() == 1 {
        json_text(items[0])
    } else {
        json_text(items[0]) + seq![','] + items_text(items.skip(1))
    }
}

/// The text of one object member: quoted key, colon, value.
pub open spec fn member_text(m: (Seq<char>, SpecJson)) -> Seq<char>
    decreases m, 1int,
{
    seq!['"'] + escape_str(m.0) + seq!['"', ':'] + json_text(m.1)
}

/// Comma-separated texts of object members.
pub open spec fn members_text(members: Seq<(Seq<char>, SpecJson)>) -> Seq<char>
    decreases members, 1int,
{
    if members.len() == 0 {
        Seq::empty()
    } else if members.len() == 1 {
        member_text(members[0])
    } else {
        member_text(members[0]) + seq![','] + members_text(members.skip(1))
    }
}

/// The pretty text form of a value: arrays and objects spread over lines,
/// indented by two spaces per depth, `": "` after member keys; scalars as in
/// the compact form.  `ind` is the indentation of the enclosing line.
pub open spec fn pretty_text(v: SpecJson, ind: Seq<char>) -> Seq<char>
    decreases v, 0int,
{
    match v {
        SpecJson::Arr(items) => if items.len() == 0 {
            "[]"@
        } else {
            "[\n"@ + pretty_items(items, ind + "  "@) + "\n"@ + ind + "]"@
        },
        SpecJson::Obj(members) => if members.len() == 0 {
            "{}"@
        } else {
            "{\n"@ + pretty_members(members, ind + "  "@) + "\n"@ + ind + "}"@
        },
        _ => json_text(v),
    }
}

/// The pretty lines of array items, separated by commas.
pub open spec fn pretty_items(items: Seq<SpecJson>, ind: Seq<char>) -> Seq<char>
    decreases items, 1int,
{
    if items.len() == 0 {
        Seq::empty()
    } else if items.len() == 1 {
        ind + pretty_text(items[0], ind)
    } else {
        ind + pretty_text(items[0], ind) + ",\n"@ + pretty_items(items.skip(1), ind)
    }
}

/// The pretty line of one object member.
pub open spec fn pretty_member(m: (Seq<char>, SpecJson), ind: Seq<char>) -> Seq<char>
    decreases m, 1int,
{
    ind + (seq!['"'] + escape_str(m.0) + seq!['"']) + ": "@ + pretty_text(m.1, ind)
}

/// The pretty lines of object members, separated by commas.
pub open spec fn pretty_members(members: Seq<(Seq<char>, SpecJson)>, ind: Seq<char>) -> Seq<char>
    decreases members, 2int,
{
    if members.len() == 0 {
        Seq::empty()
    } else if members.len() == 1 {
        pretty_member(members[0], ind)
    } else {
        pretty_member(members[0], ind) + ",\n"@ + pretty_members(members.skip(1), ind)
    }
}

/// Relies on `String::push`: appends the given character to the end of the
/// string.
#[verifier::external_body]
pub(crate) fn push_char(s: &mut String, c: char)
    ensures
        final(s)@ == old(s)@.push(c),
{
    s.push(c);
}

/// Skipping `a` then `b` elements is skipping `a + b` at once.
pub proof fn lemma_skip_skip<A>(s: Seq<A>, a: int, b: int)
    requires
        0 <= a,
        0 <= b,
        a + b <= s.len(),
    ensures
        s.skip(a).skip(b) == s.skip(a + b),
{
    assert(s.skip(a).skip(b) =~= s.skip(a + b));
}

/// Escaping a string one character longer appends that character's escape.
pub proof fn lemma_escape_push(s: Seq<char>, c: char)
    ensures
        escape_str(s.push(c)) == escape_str(s) + escape_char(c),
    decreases s.len(),
{
    let p = s.push(c);
    assert(p[s.len() as int] == c);
    if s.len() == 0 {
        assert(p.skip(1) =~= Seq::<char>::empty());
        assert(escape_str(p) == escape_char(c) + escape_str(Seq::<char>::empty()));
        assert(escape_str(p) =~= escape_str(s) + escape_char(c));
    } else {
        assert(p[0] == s[0]);
        assert(p.skip(1) =~= s.skip(1).push(c));
        lemma_escape_push(s.skip(1), c);
        assert(escape_str(p) == escape_char(s[0]) + (escape_str(s.skip(1)) + escape_char(c)));
        assert(escape_str(p) =~= escape_str(s) + escape_char(c));
    }
}

impl Json {
    /// Serialize the value to its compact text form.
    pub fn to_text(&self) -> (r: String)
        ensures
            r@ == json_text(self@),
        decreases self, 0int,
    {
        match self {
            Json::Null => String::from_str("null"),
            Json::Bool(b) => if *b {
                String::from_str("true")
            } else {
                String::from_str("false")
            },
            Json::Int(i) => int_to_string(*i),
            Json::Str(s) => quote_string(s.as_str()),
            Json::Arr(items) => {
                let mut out = String::from_str("[");
                if items.len() > 0 {
                    let body = items_to_text(items, 0);
                    out.append(body.as_str());
                    proof {
                        assert(seq_view(items@).skip(0) =~= seq_view(items@));
                    }
                } else {
                    proof {
                        assert(seq_view(items@) =~= Seq::<SpecJson>::empty());
                    }
                }
                out.append("]");
                proof {
                    reveal_strlit("[");
                    reveal_strlit("]");
                    assert(out@ =~= json_text(self@));
                }
                out
            },
            Json::Obj(members) => {
                let mut out = String::from_str("{");
                if members.len() > 0 {
                    let body = members_to_text(members, 0);
                    out.append(body.as_str());
                    proof {
                        assert(members_view(members@).skip(0) =~= members_view(members@));
                    }
                } else {
                    proof {
                        assert(members_view(members@) =~= Seq::<(Seq<char>, SpecJson)>::empty());
                    }
                }
                out.append("}");
                proof {
                    reveal_strlit("{");
                    reveal_strlit("}");
                    assert(out@ =~= json_text(self@));
                }
                out
            },
        }
    }
}

impl Json {
    /// Serialize the value with line breaks and indentation, as shown in
    /// tool documents.
    pub fn to_text_pretty(&self) -> (r: String)
        ensures
            r@ == pretty_text(self@, Seq::empty()),
    {
        let ind = String::new();
        pretty_with(self, &ind)
    }
}

/// Pretty text of one value at the given indentation.
fn pretty_with(v: &Json, ind: &String) -> (r: String)
    ensures
        r@ == pretty_text(v@, ind@),
    decreases v, 0int,
{
    match v {
        Json::Arr(items) => {
            if items.len() == 0 {
                let r = String::from_str("[]");
                proof {
                    assert(seq_view(items@) =~= Seq::<SpecJson>::empty());
                }
                r
            } else {
                let mut ind2 = ind.clone();
                ind2.append("  ");
                let mut out = String::from_str("[\n");
                let body = pretty_items_with(items, 0, &ind2);
                out.append(body.as_str());
                out.append("\n");
                out.append(ind.as_str());
                out.append("]");
                proof {
                    assert(seq_view(items@).skip(0) =~= seq_view(items@));
                    assert(out@ =~= pretty_text(v@, ind@));
                }
                out
            }
        },
        Json::Obj(members) => {
            if members.len() == 0 {
                let r = String::from_str("{}");
                proof {
                    assert(members_view(members@) =~= Seq::<(Seq<char>, SpecJson)>::empty());
                }
                r
            } else {
                let mut ind2 = ind.clone();
                ind2.append("  ");
                let mut out = String::from_str("{\n");
                let body = pretty_members_with(members, 0, &ind2);
                out.append(body.as_str());
                out.append("\n");
                out.append(ind.as_str());
                out.append("}");
                proof {
                    assert(members_view(members@).skip(0) =~= members_view(members@));
                    assert(out@ =~= pretty_text(v@, ind@));
                }
                out
            }
        },
        _ => {
            let t = v.to_text();
            proof {
                assert(pretty_text(v@, ind@) == json_text(v@));
            }
            t
        },
    }
}

/// Pretty lines of the items from `from` on.
fn pretty_items_with(items: &Vec<Json>, from: usize, ind: &String) -> (r: String)
    requires
        from < items.len(),
    ensures
        r@ == pretty_items(seq_view(items@).skip(from as int), ind@),
    decreases items, items.len() - from,
{
    let mut out = String::new();
    out.append(ind.as_str());
    let head = pretty_with(&items[from], ind);
    out.append(head.as_str());
    proof {
        assert(seq_view(items@).skip(from as int)[0] == items@[from as int]@);
    }
    if from + 1 < items.len() {
        out.append(",\n");
        let tail = pretty_items_with(items, from + 1, ind);
        out.append(tail.as_str());
        proof {
            lemma_skip_skip(seq_view(items@), from as int, 1);
            assert(out@ =~= pretty_items(seq_view(items@).skip(from as int), ind@));
        }
    } else {
        proof {
            assert(seq_view(items@).skip(from as int).len() == 1);
        }
    }
    out
}

/// Pretty lines of the members from `from` on.
fn pretty_members_with(members: &Vec<(String, Json)>, from: usize, ind: &String) -> (r: String)
    requires
        from < members.len(),
    ensures
        r@ == pretty_members(members_view(members@).skip(from as int), ind@),
    decreases members, members.len() - from,
{
    let m = &members[from];
    let mut out = String::new();
    out.append(ind.as_str());
    let key = quote_string(m.0.as_str());
    out.append(key.as_str());
    out.append(": ");
    let val = pretty_with(&m.1, ind);
    out.append(val.as_str());
    proof {
        let ghost mi = members@[from as int];
        assert(members_view(members@).skip(from as int)[0] == (mi.0@, mi.1@));
        assert(out@ =~= pretty_member(members_view(members@).skip(from as int)[0], ind@));
    }
    if from + 1 < members.len() {
        out.append(",\n");
        let tail = pretty_members_with(members, from + 1, ind);
        out.append(tail.as_str());
        proof {
            lemma_skip_skip(members_view(members@), from as int, 1);
            assert(out@ =~= pretty_members(members_view(members@).skip(from as int), ind@));
        }
    } else {
        proof {
            assert(members_view(members@).skip(from as int).len() == 1);
        }
    }
    out
}

/// Text of the items from `from` on, comma separated.
fn items_to_text(items: &Vec<Json>, from: usize) -> (r: String)
    requires
        from < items.len(),
    ensures
        r@ == items_text(seq_view(items@).skip(from as int)),
    decreases items, items.len() - from,
{
    let mut out = items[from].to_text();
    proof {
        assert(seq_view(items@).skip(from as int)[0] == items@[from as int]@);
    }
    if from + 1 < items.len() {
        out.append(",");
        let tail = items_to_text(items, from + 1);
        out.append(tail.as_str());
        proof {
            reveal_strlit(",");
            assert(","@ =~= seq![',']);
            lemma_skip_skip(seq_view(items@), from as int, 1);
            assert(out@ =~= items_text(seq_view(items@).skip(from as int)));
        }
    } else {
        proof {
            assert(seq_view(items@).skip(from as int).len() == 1);
        }
    }
    out
}

/// Text of the members from `from` on, comma separated.
fn members_to_text(members: &Vec<(String, Json)>, from: usize) -> (r: String)
    requires
        from < members.len(),
    ensures
        r@ == members_text(members_view(members@).skip(from as int)),
    decreases members, members.len() - from,
{
    let m = &members[from];
    let mut out = quote_string(m.0.as_str());
    out.append(":");
    let val = m.1.to_text();
    out.append(val.as_str());
    proof {
        reveal_strlit(":");
        assert(":"@ =~= seq![':']);
        let ghost mi = members@[from as int];
        assert(members_view(members@).skip(from as int)[0] == (mi.0@, mi.1@));
        assert(out@ =~= member_text(members_view(members@).skip(from as int)[0]));
    }
    if from + 1 < members.len() {
        out.append(",");
        let tail = members_to_text(members, from + 1);
        out.append(tail.as_str());
        proof {
            reveal_strlit(",");
            assert(","@ =~= seq![',']);
            lemma_skip_skip(members_view(members@), from as int, 1);
            assert(out@ =~= members_text(members_view(members@).skip(from as int)));
        }
    } else {
        proof {
            assert(members_view(members@).skip(from as int).len() == 1);
        }
    }
    out
}

/// Quote and escape a string for JSON text.
fn quote_string(s: &str) -> (r: String)
    ensures
        r@ == seq!['"'] + escape_str(s@) + seq!['"'],
{
    let mut out = String::new();
    push_char(&mut out, '"');
    let len = s.unicode_len();
    let mut i: usize = 0;
    while i < len
        invariant
            len == s@.len(),
            i <= len,
            out@ == seq!['"'] + escape_str(s@.take(i as int)),
        decreases len - i,
    {
        let c = s.get_char(i);
        if c == '"' || c == '\\' {
            push_char(&mut out, '\\');
        }
        push_char(&mut out, c);
        proof {
            lemma_escape_push(s@.take(i as int), c);
            assert(s@.take(i as int + 1) =~= s@.take(i as int).push(s@[i as int]));
            assert(out@ =~= seq!['"'] + escape_str(s@.take(i as int + 1)));
        }
        i = i + 1;
    }
    push_char(&mut out, '"');
    proof {
        assert(s@.take(len as int) =~= s@);
        assert(out@ =~= seq!['"'] + escape_str(s@) + seq!['"']);
    }
    out
}

/// The decimal digit character for `d`.
fn digit_to_char(d: u64) -> (c: char)
    requires
        d < 10,
    ensures
        c == digit_char(d as int),
{
    if d == 0 {
        '0'
    } else if d == 1 {
        '1'
    } else if d == 2 {
        '2'
    } else if d == 3 {
        '3'
    } else if d == 4 {
        '4'
    } else if d == 5 {
        '5'
    } else if d == 6 {
        '6'
    } else if d == 7 {
        '7'
    } else if d == 8 {
        '8'
    } else {
        '9'
    }
}

/// Decimal text of a nonnegative integer.
fn nat_to_string(n: u64) -> (r: String)
    ensures
        r@ == nat_text(n as int),
    decreases n,
{
    if n < 10 {
        let mut s = String::new();
        push_char(&mut s, digit_to_char(n));
        proof {
            assert(s@ =~= nat_text(n as int));
        }
        s
    } else {
        let mut s = nat_to_string(n / 10);
        push_char(&mut s, digit_to_char(n % 10));
        s
    }
}

/// Decimal text of a signed integer.
fn int_to_string(i: i64) -> (r: String)
    ensures
        r@ == int_text(i as int),
{
    if i >= 0 {
        nat_to_string(i as u64)
    } else {
        let m: u64 = if i == i64::MIN {
            9223372036854775808u64
        } else {
            (-i) as u64
        };
        let mut s = String::from_str("-");
        let digits = nat_to_string(m);
        s.append(digits.as_str());
        proof {
            reveal_strlit("-");
            assert("-"@ =~= seq!['-']);
            assert(m as int == -(i as int));
            assert(s@ =~= int_text(i as int));
        }
        s
    }
}

} // verus!
