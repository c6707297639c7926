//! The JSON value model and codec used by the wire protocol: a value
//! type whose numbers keep their textual form, an exact serializer,
//! and a parser, each specified against mathematical models.

use vstd::prelude::*;
use vstd::string::*;
use crate::common::{push_char, hex_digit_char, str_to_chars, hex_val, hex_val_exec,
    chars_range_to_string};

verus! {

/// A JSON value. Numbers are kept as their lexeme (the exact text
/// from the wire), so no precision is lost and no floating point is
/// involved.
#[derive(Debug, PartialEq)]
pub enum Json {
    Null,
    Bool(bool),
    /// A number lexeme, e.g. `0.206` or `-12`.
    Num(String),
    Str(String),
    Arr(Vec<Json>),
    Obj(Vec<(String, Json)>),
}

/// The mathematical model of a JSON value, with sequences in place of
/// vectors and strings.
pub enum JsonSpec {
    Null,
    Bool(bool),
    Num(Seq<char>),
    Str(Seq<char>),
    Arr(Seq<JsonSpec>),
    Obj(Seq<(Seq<char>, JsonSpec)>),
}

/// The models of a sequence of values, elementwise.
pub open spec fn view_elems(s: Seq<Json>) -> Seq<JsonSpec>
    decreases s,
{
    if s.len() == 0 {
        Seq::empty()
    } else {
        seq![s[0]@] + view_elems(s.drop_first())
    }
}

/// The models of a sequence of object members, elementwise.
pub open spec fn view_members(s: Seq<(String, Json)>) -> Seq<(Seq<char>, JsonSpec)>
    decreases s,
{
    if s.len() == 0 {
        Seq::empty()
    } else {
        seq![(s[0].0@, s[0].1@)] + view_members(s.drop_first())
    }
}

/// `view_elems` maps a sequence elementwise.
pub proof fn lemma_view_elems(s: Seq<Json>)
    ensures
        view_elems(s).len() == s.len(),
        forall|i: int| 0 <= i < s.len() ==> #[trigger] view_elems(s)[i] == s[i]@,
    decreases s,
{
    if s.len() > 0 {
        lemma_view_elems(s.drop_first());
        assert(view_elems(s) == seq![s[0]@] + view_elems(s.drop_first()));
        assert forall|i: int| 0 <= i < s.len() implies #[trigger] view_elems(s)[i] == s[i]@ by {
            if i > 0 {
                assert(view_elems(s)[i] == view_elems(s.drop_first())[i - 1]);
                assert(s.drop_first()[i - 1] == s[i]);
            }
        }
    } else {
        assert(view_elems(s) =~= Seq::<JsonSpec>::empty());
    }
}

/// `view_members` maps a sequence of members elementwise.
pub proof fn lemma_view_members(s: Seq<(String, Json)>)
    ensures
        view_members(s).len() == s.len(),
        forall|i: int|
            0 <= i < s.len() ==> #[trigger] view_members(s)[i] == (s[i].0@, s[i].1@),
    decreases s,
{
    if s.len() > 0 {
        lemma_view_members(s.drop_first());
        assert(view_members(s) == seq![(s[0].0@, s[0].1@)] + view_members(s.drop_first()));
        assert forall|i: int|
            0 <= i < s.len() implies #[trigger] view_members(s)[i] == (s[i].0@, s[i].1@) by {
            if i > 0 {
                assert(view_members(s)[i] == view_members(s.drop_first())[i - 1]);
                assert(s.drop_first()[i - 1] == s[i]);
            }
        }
    } else {
        assert(view_members(s) =~= Seq::<(Seq<char>, JsonSpec)>::empty());
    }
}

impl View for Json {
    type V = JsonSpec;

    open spec fn view(&self) -> JsonSpec
        decreases self,
    {
        match self {
            Json::Null => JsonSpec::Null,
            Json::Bool(b) => JsonSpec::Bool(*b),
            Json::Num(s) => JsonSpec::Num(s@),
            Json::Str(s) => JsonSpec::Str(s@),
            Json::Arr(elems) => JsonSpec::Arr(view_elems(elems@)),
            Json::Obj(members) => JsonSpec::Obj(view_members(members@)),
        }
    }
}

/// The serialization of one character inside a JSON string: the quote
/// and the backslash are escaped, common control characters use their
/// short escapes, other control characters the `\u00..` form.
pub open spec fn esc_char(c: char) -> Seq<char> {
    if c == '"' {
        seq!['\\', '"']
    } else if c == '\\' {
        seq!['\\', '\\']
    } else if c == '\n' {
        seq!['\\', 'n']
    } else if c == '\r' {
        seq!['\\', 'r']
    } else if c == '\t' {
        seq!['\\', 't']
    } else if (c as u32) < 32 {
        seq!['\\', 'u', '0', '0', hex_digit_char((c as u32 / 16) as u8), hex_digit_char(
            (c as u32 % 16) as u8,
        )]
    } else {
        seq![c]
    }
}

/// The serialization of the body of a JSON string, without the
/// surrounding quotes.
pub open spec fn ser_str_body(s: Seq<char>) -> Seq<char>
    decreases s.len(),
{
    if s.len() == 0 {
        Seq::empty()
    } else {
        esc_char(s[0]) + ser_str_body(s.drop_first())
    }
}

/// The serialization of a JSON string, quotes included.
pub open spec fn ser_string(s: Seq<char>) -> Seq<char> {
    seq!['"'] + ser_str_body(s) + seq!['"']
}

/// The canonical serialization of a JSON value: no whitespace,
/// members and elements in order.
pub open spec fn ser(v: JsonSpec) -> Seq<char>
    decreases v,
{
    match v {
        JsonSpec::Null => "null"@,
        JsonSpec::Bool(b) => if b {
            "true"@
        } else {
            "false"@
        },
        JsonSpec::Num(s) => s,
        JsonSpec::Str(s) => ser_string(s),
        JsonSpec::Arr(es) => seq!['['] + ser_elems(es) + seq![']'],
        JsonSpec::Obj(ms) => seq!['{'] + ser_members(ms) + seq!['}'],
    }
}

/// The comma-separated serialization of array elements.
pub open spec fn ser_elems(es: Seq<JsonSpec>) -> Seq<char>
    decreases es,
{
    if es.len() == 0 {
        Seq::empty()
    } else if es.len() == 1 {
        ser(es[0])
    } else {
        ser(es[0]) + seq![','] + ser_elems(es.drop_first())
    }
}

/// The comma-separated serialization of object members.
pub open spec fn ser_members(ms: Seq<(Seq<char>, JsonSpec)>) -> Seq<char>
    decreases ms,
{
    if ms.len() == 0 {
        Seq::empty()
    } else if ms.len() == 1 {
        ser_string(ms[0].0) + seq![':'] + ser(ms[0].1)
    } else {
        ser_string(ms[0].0) + seq![':'] + ser(ms[0].1) + seq![','] + ser_members(ms.drop_first())
    }
}

fn write_escaped_char(out: &mut String, c: char)
    ensures
        final(out)@ == old(out)@ + esc_char(c),
{
    let ghost orig = out@;
    if c == '"' {
        push_char(out, '\\');
        push_char(out, '"');
    } else if c == '\\' {
        push_char(out, '\\');
        push_char(out, '\\');
    } else if c == '\n' {
        push_char(out, '\\');
        push_char(out, 'n');
    } else if c == '\r' {
        push_char(out, '\\');
        push_char(out, 'r');
    } else if c == '\t' {
        push_char(out, '\\');
        push_char(out, 't');
    } else if (c as u32) < 32 {
        let x = c as u32;
        push_char(out, '\\');
        push_char(out, 'u');
        push_char(out, '0');
        push_char(out, '0');
        push_char(out, crate::common::hex_digit_exec((x / 16) as u8));
        push_char(out, crate::common::hex_digit_exec((x % 16) as u8));
    } else {
        push_char(out, c);
    }
    proof {
        assert(out@ =~= orig + esc_char(c));
    }
}

fn write_json_string(out: &mut String, s: &String)
    ensures
        final(out)@ == old(out)@ + ser_string(s@),
{
    let ghost orig = out@;
    push_char(out, '"');
    let slice = s.as_str();
    let n: usize = slice.unicode_len();
    let mut i: usize = 0;
    while i < n
        invariant
            i <= n,
            n == s@.len(),
            slice@ == s@,
            out@ == orig + seq!['"'] + ser_str_body(s@.take(i as int)),
        decreases n - i,
    {
        let c = slice.get_char(i);
        write_escaped_char(out, c);
        proof {
            lemma_ser_str_body_snoc(s@, i as int);
            assert(out@ =~= orig + seq!['"'] + ser_str_body(s@.take(i + 1)));
        }
        i = i + 1;
    }
    push_char(out, '"');
    proof {
        assert(s@.take(n as int) =~= s@);
        assert(out@ =~= orig + ser_string(s@));
    }
}

/// Extending the serialized body by one character appends that
/// character's escape.
proof fn lemma_ser_str_body_snoc(s: Seq<char>, i: int)
    requires
        0 <= i < s.len(),
    ensures
        ser_str_body(s.take(i + 1)) == ser_str_body(s.take(i)) + esc_char(s[i]),
    decreases i,
{
    if i == 0 {
        assert(s.take(1)[0] == s[0]);
        assert(s.take(1).drop_first() =~= Seq::<char>::empty());
        assert(s.take(0).len() == 0);
        assert(ser_str_body(s.take(1)) == esc_char(s.take(1)[0]) + ser_str_body(
            s.take(1).drop_first(),
        ));
        assert(ser_str_body(s.take(1).drop_first()) == Seq::<char>::empty());
        assert(ser_str_body(s.take(0)) == Seq::<char>::empty());
        assert(ser_str_body(s.take(1)) =~= ser_str_body(s.take(0)) + esc_char(s[0]));
    } else {
        lemma_ser_str_body_snoc(s.drop_first(), i - 1);
        assert(s.take(i + 1)[0] == s[0]);
        assert(s.take(i)[0] == s[0]);
        assert(s.take(i + 1).drop_first() =~= s.drop_first().take(i));
        assert(s.take(i).drop_first() =~= s.drop_first().take(i - 1));
        assert(s.drop_first()[i - 1] == s[i]);
        assert(ser_str_body(s.take(i + 1)) == esc_char(s.take(i + 1)[0]) + ser_str_body(
            s.take(i + 1).drop_first(),
        ));
        assert(ser_str_body(s.take(i)) == esc_char(s.take(i)[0]) + ser_str_body(
            s.take(i).drop_first(),
        ));
        assert(ser_str_body(s.take(i + 1)) =~= ser_str_body(s.take(i)) + esc_char(s[i]));
    }
}

/// Writes the serialization of a value at the end of `out`.
fn write_json(out: &mut String, v: &Json)
    ensures
        final(out)@ == old(out)@ + ser(v@),
    decreases v,
{
    let ghost orig = out@;
    match v {
        Json::Null => {
            out.append("null");
        },
        Json::Bool(b) => {
            if *b {
                out.append("true");
            } else {
                out.append("false");
            }
        },
        Json::Num(s) => {
            out.append(s.as_str());
        },
        Json::Str(s) => {
            write_json_string(out, s);
        },
        Json::Arr(es) => {
            push_char(out, '[');
            let ghost base = out@;
            proof {
                assert(view_elems(es@).skip(0) =~= view_elems(es@));
            }
            let n = es.len();
            let mut k: usize = 0;
            while k < n
                invariant
                    k <= n,
                    n == es@.len(),
                    v is Arr,
                    (*v)->Arr_0 == *es,
                    out@ + ser_elems(view_elems(es@).skip(k as int)) == base + ser_elems(
                        view_elems(es@),
                    ),
                decreases n - k,
            {
                proof {
                    lemma_view_elems(es@);
                    assert(decreases_to!(*v => (*v)->Arr_0));
                    assert(decreases_to!((*v)->Arr_0 => (*v)->Arr_0@));
                    assert(decreases_to!((*v)->Arr_0@ => (*v)->Arr_0@[k as int]));
                    assert(decreases_to!(*v => es@[k as int]));
                }
                write_json(out, &es[k]);
                if k + 1 < n {
                    push_char(out, ',');
                }
                proof {
                    let vs = view_elems(es@);
                    lemma_view_elems(es@);
                    assert(vs.skip(k as int)[0] == vs[k as int]);
                    assert(vs.skip(k as int).drop_first() =~= vs.skip(k + 1));
                    if k + 1 < n {
                        assert(ser_elems(vs.skip(k as int)) == ser(vs[k as int]) + seq![',']
                            + ser_elems(vs.skip(k + 1)));
                    } else {
                        assert(ser_elems(vs.skip(k as int)) == ser(vs[k as int]));
                        assert(vs.skip(k + 1).len() == 0);
                        assert(ser_elems(vs.skip(k + 1)) == Seq::<char>::empty());
                    }
                    assert(out@ + ser_elems(vs.skip(k + 1)) =~= base + ser_elems(vs));
                }
                k = k + 1;
            }
            push_char(out, ']');
            proof {
                lemma_view_elems(es@);
                assert(view_elems(es@).skip(n as int) =~= Seq::<JsonSpec>::empty());
                assert(ser_elems(Seq::<JsonSpec>::empty()) == Seq::<char>::empty());
                assert(out@ =~= orig + ser(v@));
            }
        },
        Json::Obj(ms) => {
            push_char(out, '{');
            let ghost base = out@;
            proof {
                assert(view_members(ms@).skip(0) =~= view_members(ms@));
            }
            let n = ms.len();
            let mut k: usize = 0;
            while k < n
                invariant
                    k <= n,
                    n == ms@.len(),
                    v is Obj,
                    (*v)->Obj_0 == *ms,
                    out@ + ser_members(view_members(ms@).skip(k as int)) == base + ser_members(
                        view_members(ms@),
                    ),
                decreases n - k,
            {
                write_json_string(out, &ms[k].0);
                push_char(out, ':');
                proof {
                    lemma_view_members(ms@);
                    assert(decreases_to!(*v => (*v)->Obj_0));
                    assert(decreases_to!((*v)->Obj_0 => (*v)->Obj_0@));
                    assert(decreases_to!((*v)->Obj_0@ => (*v)->Obj_0@[k as int]));
                    assert(decreases_to!((*v)->Obj_0@[k as int] => (*v)->Obj_0@[k as int].1));
                    assert(decreases_to!(*v => ms@[k as int].1));
                }
                write_json(out, &ms[k].1);
                if k + 1 < n {
                    push_char(out, ',');
                }
                proof {
                    let vs = view_members(ms@);
                    lemma_view_members(ms@);
                    assert(vs.skip(k as int)[0] == vs[k as int]);
                    assert(vs.skip(k as int).drop_first() =~= vs.skip(k + 1));
                    if k + 1 < n {
                        assert(ser_members(vs.skip(k as int)) == ser_string(vs[k as int].0)
                            + seq![':'] + ser(vs[k as int].1) + seq![',']
                            + ser_members(vs.skip(k + 1)));
                    } else {
                        assert(ser_members(vs.skip(k as int)) == ser_string(vs[k as int].0)
                            + seq![':'] + ser(vs[k as int].1));
                        assert(vs.skip(k + 1).len() == 0);
                        assert(ser_members(vs.skip(k + 1)) == Seq::<char>::empty());
                    }
                    assert(out@ + ser_members(vs.skip(k + 1)) =~= base + ser_members(vs));
                }
                k = k + 1;
            }
            push_char(out, '}');
            proof {
                lemma_view_members(ms@);
                assert(view_members(ms@).skip(n as int) =~= Seq::<(Seq<char>, JsonSpec)>::empty());
                assert(ser_members(Seq::<(Seq<char>, JsonSpec)>::empty()) == Seq::<char>::empty());
                assert(out@ =~= orig + ser(v@));
            }
        },
    }
}

/// Serializes a value to its canonical JSON text.
pub fn to_json_string(v: &Json) -> (r: String)
    ensures
        r@ == ser(v@),
{
    let mut out = String::new();
    write_json(&mut out, v);
    out
}

/// A structural copy of a value; the copy has the same model.
pub fn clone_json(v: &Json) -> (r: Json)
    ensures
        r@ == v@,
    decreases v,
{
    match v {
        Json::Null => Json::Null,
        Json::Bool(b) => Json::Bool(*b),
        Json::Num(s) => Json::Num(s.clone()),
        Json::Str(s) => Json::Str(s.clone()),
        Json::Arr(es) => {
            let n = es.len();
            let mut out: Vec<Json> = Vec::new();
            let mut k: usize = 0;
            while k < n
                invariant
                    k <= n,
                    n == es@.len(),
                    v is Arr,
                    (*v)->Arr_0 == *es,
                    out@.len() == k,
                    forall|i: int| 0 <= i < k ==> out@[i]@ == es@[i]@,
                decreases n - k,
            {
                proof {
                    assert(decreases_to!(*v => (*v)->Arr_0));
                    assert(decreases_to!((*v)->Arr_0 => (*v)->Arr_0@));
                    assert(decreases_to!((*v)->Arr_0@ => (*v)->Arr_0@[k as int]));
                    assert(decreases_to!(*v => es@[k as int]));
                }
                out.push(clone_json(&es[k]));
                k = k + 1;
            }
            proof {
                lemma_view_elems(out@);
                lemma_view_elems(es@);
                assert(view_elems(out@) =~= view_elems(es@));
            }
            Json::Arr(out)
        },
        Json::Obj(ms) => {
            let n = ms.len();
            let mut out: Vec<(String, Json)> = Vec::new();
            let mut k: usize = 0;
            while k < n
                invariant
                    k <= n,
                    n == ms@.len(),
                    v is Obj,
                    (*v)->Obj_0 == *ms,
                    out@.len() == k,
                    forall|i: int|
                        0 <= i < k ==> out@[i].0@ == ms@[i].0@ && out@[i].1@ == ms@[i].1@,
                decreases n - k,
            {
                proof {
                    assert(decreases_to!(*v => (*v)->Obj_0));
                    assert(decreases_to!((*v)->Obj_0 => (*v)->Obj_0@));
                    assert(decreases_to!((*v)->Obj_0@ => (*v)->Obj_0@[k as int]));
                    assert(decreases_to!((*v)->Obj_0@[k as int] => (*v)->Obj_0@[k as int].1));
                    assert(decreases_to!(*v => ms@[k as int].1));
                }
                let key = ms[k].0.clone();
                let val = clone_json(&ms[k].1);
                out.push((key, val));
                k = k + 1;
            }
            proof {
                lemma_view_members(out@);
                lemma_view_members(ms@);
                assert(view_members(out@) =~= view_members(ms@));
            }
            Json::Obj(out)
        },
    }
}


/// JSON whitespace.
pub open spec fn is_ws(c: char) -> bool {
    c == ' ' || c == '\t' || c == '\n' || c == '\r'
}

/// A decimal digit.
pub open spec fn is_digit(c: char) -> bool {
    '0' <= c && c <= '9'
}

/// The first position at or after `i` holding a non-whitespace
/// character, or the end of the input.
pub open spec fn sp_ws(s: Seq<char>, i: int) -> int
    decreases s.len() - i,
{
    if i < 0 || i >= s.len() {
        i
    } else if is_ws(s[i]) {
        sp_ws(s, i + 1)
    } else {
        i
    }
}

/// The end of the run of decimal digits starting at `i`.
pub open spec fn sp_digits_end(s: Seq<char>, i: int) -> int
    decreases s.len() - i,
{
    if i < 0 || i >= s.len() {
        i
    } else if is_digit(s[i]) {
        sp_digits_end(s, i + 1)
    } else {
        i
    }
}

/// The character denoted by a single-character escape.
pub open spec fn unescape_char(e: char) -> char {
    if e == 'b' {
        8 as char
    } else if e == 'f' {
        12 as char
    } else if e == 'n' {
        '\n'
    } else if e == 'r' {
        '\r'
    } else if e == 't' {
        '\t'
    } else {
        e
    }
}

/// The value of four hexadecimal digits, high first.
pub open spec fn hex16(a: u8, b: u8, c: u8, d: u8) -> int {
    a * 4096 + b * 256 + c * 16 + d
}

/// Parses the body of a JSON string from position `i` (just after the
/// opening quote) up to and over the closing quote: the decoded
/// characters and the position after the closing quote. Escapes are
/// decoded, surrogate pairs combined; unescaped control characters
/// and lone surrogates are rejected.
pub open spec fn sp_str_body(s: Seq<char>, i: int) -> Option<(Seq<char>, int)>
    decreases s.len() - i,
{
    if i < 0 || i >= s.len() {
        None
    } else if s[i] == '"' {
        Some((Seq::empty(), i + 1))
    } else if s[i] == '\\' {
        if i + 1 >= s.len() {
            None
        } else {
            let e = s[i + 1];
            if e == '"' || e == '\\' || e == '/' || e == 'b' || e == 'f' || e == 'n' || e == 'r'
                || e == 't' {
                match sp_str_body(s, i + 2) {
                    Some((rest, j)) => Some((seq![unescape_char(e)] + rest, j)),
                    None => None,
                }
            } else if e == 'u' {
                if i + 5 >= s.len() {
                    None
                } else {
                    match (hex_val(s[i + 2]), hex_val(s[i + 3]), hex_val(s[i + 4]), hex_val(
                        s[i + 5],
                    )) {
                        (Some(a), Some(b), Some(c), Some(d)) => {
                            let x = hex16(a, b, c, d);
                            if 0xD800 <= x < 0xDC00 {
                                if i + 11 >= s.len() {
                                    None
                                } else if s[i + 6] == '\\' && s[i + 7] == 'u' {
                                    match (hex_val(s[i + 8]), hex_val(s[i + 9]), hex_val(
                                        s[i + 10],
                                    ), hex_val(s[i + 11])) {
                                        (Some(a2), Some(b2), Some(c2), Some(d2)) => {
                                            let y = hex16(a2, b2, c2, d2);
                                            if 0xDC00 <= y < 0xE000 {
                                                let cp = 0x10000 + (x - 0xD800) * 0x400 + (y
                                                    - 0xDC00);
                                                match sp_str_body(s, i + 12) {
                                                    Some((rest, j)) => Some(
                                                        (seq![cp as char] + rest, j),
                                                    ),
                                                    None => None,
                                                }
                                            } else {
                                                None
                                            }
                                        },
                                        _ => None,
                                    }
                                } else {
                                    None
                                }
                            } else if 0xDC00 <= x < 0xE000 {
                                None
                            } else {
                                match sp_str_body(s, i + 6) {
                                    Some((rest, j)) => Some((seq![x as char] + rest, j)),
                                    None => None,
                                }
                            }
                        },
                        _ => None,
                    }
                }
            } else {
                None
            }
        }
    } else if (s[i] as u32) < 32 {
        None
    } else {
        match sp_str_body(s, i + 1) {
            Some((rest, j)) => Some((seq![s[i]] + rest, j)),
            None => None,
        }
    }
}

/// Parses a number lexeme at `i` following the JSON number grammar:
/// the lexeme and the position after it.
pub open spec fn sp_number(s: Seq<char>, i: int) -> Option<(Seq<char>, int)> {
    let i1 = if i < s.len() && s[i] == '-' {
        i + 1
    } else {
        i
    };
    if i1 >= s.len() || !is_digit(s[i1]) {
        None
    } else {
        let i2 = if s[i1] == '0' {
            i1 + 1
        } else {
            sp_digits_end(s, i1)
        };
        let i3 = if i2 < s.len() && s[i2] == '.' {
            if i2 + 1 < s.len() && is_digit(s[i2 + 1]) {
                sp_digits_end(s, i2 + 1)
            } else {
                -1
            }
        } else {
            i2
        };
        if i3 < 0 {
            None
        } else {
            let i4 = if i3 < s.len() && (s[i3] == 'e' || s[i3] == 'E') {
                let i3a = if i3 + 1 < s.len() && (s[i3 + 1] == '+' || s[i3 + 1] == '-') {
                    i3 + 2
                } else {
                    i3 + 1
                };
                if i3a < s.len() && is_digit(s[i3a]) {
                    sp_digits_end(s, i3a)
                } else {
                    -1
                }
            } else {
                i3
            };
            if i4 < 0 {
                None
            } else {
                Some((s.subrange(i, i4), i4))
            }
        }
    }
}

/// Parses one JSON value whose first character stands at `i`: the
/// value and the position after it. The fuel only bounds recursion
/// depth; it never runs out on any position reachable from
/// `sp_parse_json`.
pub open spec fn sp_value(s: Seq<char>, i: int, fuel: nat) -> Option<(JsonSpec, int)>
    decreases fuel,
{
    if fuel == 0 {
        None
    } else if i < 0 || i >= s.len() {
        None
    } else if s[i] == '"' {
        match sp_str_body(s, i + 1) {
            Some((cs, j)) => Some((JsonSpec::Str(cs), j)),
            None => None,
        }
    } else if s[i] == '-' || is_digit(s[i]) {
        match sp_number(s, i) {
            Some((lex, j)) => Some((JsonSpec::Num(lex), j)),
            None => None,
        }
    } else if s[i] == 't' {
        if i + 4 <= s.len() && s[i + 1] == 'r' && s[i + 2] == 'u' && s[i + 3] == 'e' {
            Some((JsonSpec::Bool(true), i + 4))
        } else {
            None
        }
    } else if s[i] == 'f' {
        if i + 5 <= s.len() && s[i + 1] == 'a' && s[i + 2] == 'l' && s[i + 3] == 's' && s[i + 4]
            == 'e' {
            Some((JsonSpec::Bool(false), i + 5))
        } else {
            None
        }
    } else if s[i] == 'n' {
        if i + 4 <= s.len() && s[i + 1] == 'u' && s[i + 2] == 'l' && s[i + 3] == 'l' {
            Some((JsonSpec::Null, i + 4))
        } else {
            None
        }
    } else if s[i] == '[' {
        let j = sp_ws(s, i + 1);
        if j < s.len() && s[j] == ']' {
            Some((JsonSpec::Arr(Seq::empty()), j + 1))
        } else {
            match sp_elems(s, j, (fuel - 1) as nat) {
                Some((es, k)) => Some((JsonSpec::Arr(es), k)),
                None => None,
            }
        }
    } else if s[i] == '{' {
        let j = sp_ws(s, i + 1);
        if j < s.len() && s[j] == '}' {
            Some((JsonSpec::Obj(Seq::empty()), j + 1))
        } else {
            match sp_members(s, j, (fuel - 1) as nat) {
                Some((ms, k)) => Some((JsonSpec::Obj(ms), k)),
                None => None,
            }
        }
    } else {
        None
    }
}

/// Parses the elements of a non-empty array, the first one standing
/// at `i`, up to and over the closing bracket.
pub open spec fn sp_elems(s: Seq<char>, i: int, fuel: nat) -> Option<(Seq<JsonSpec>, int)>
    decreases fuel,
{
    if fuel == 0 {
        None
    } else {
        match sp_value(s, i, (fuel - 1) as nat) {
            Some((v, j)) => {
                let k = sp_ws(s, j);
                if k < s.len() && s[k] == ',' {
                    let m = sp_ws(s, k + 1);
                    match sp_elems(s, m, (fuel - 1) as nat) {
                        Some((rest, e)) => Some((seq![v] + rest, e)),
                        None => None,
                    }
                } else if k < s.len() && s[k] == ']' {
                    Some((seq![v], k + 1))
                } else {
                    None
                }
            },
            None => None,
        }
    }
}

/// Parses the members of a non-empty object, the first key standing
/// at `i`, up to and over the closing brace.
pub open spec fn sp_members(s: Seq<char>, i: int, fuel: nat) -> Option<
    (Seq<(Seq<char>, JsonSpec)>, int),
>
    decreases fuel,
{
    if fuel == 0 {
        None
    } else if 0 <= i < s.len() && s[i] == '"' {
        match sp_str_body(s, i + 1) {
            Some((key, j)) => {
                let k = sp_ws(s, j);
                if k < s.len() && s[k] == ':' {
                    let m = sp_ws(s, k + 1);
                    match sp_value(s, m, (fuel - 1) as nat) {
                        Some((v, p)) => {
                            let q = sp_ws(s, p);
                            if q < s.len() && s[q] == ',' {
                                let r2 = sp_ws(s, q + 1);
                                match sp_members(s, r2, (fuel - 1) as nat) {
                                    Some((rest, e)) => Some((seq![(key, v)] + rest, e)),
                                    None => None,
                                }
                            } else if q < s.len() && s[q] == '}' {
                                Some((seq![(key, v)], q + 1))
                            } else {
                                None
                            }
                        },
                        None => None,
                    }
                } else {
                    None
                }
            },
            None => None,
        }
    } else {
        None
    }
}

/// Enough fuel for any value that starts at or after the first
/// non-whitespace position of `s`.
pub open spec fn json_fuel(s: Seq<char>) -> nat {
    (2 * s.len() + 2) as nat
}

/// What a whole input parses to: one JSON value, surrounded by
/// optional whitespace; `None` when the text is not valid JSON.
pub open spec fn sp_parse_json(s: Seq<char>) -> Option<JsonSpec> {
    let i = sp_ws(s, 0);
    match sp_value(s, i, json_fuel(s)) {
        Some((v, j)) => if sp_ws(s, j) == s.len() {
            Some(v)
        } else {
            None
        },
        None => None,
    }
}


fn is_ws_exec(c: char) -> (r: bool)
    ensures
        r == is_ws(c),
{
    c == ' ' || c == '\t' || c == '\n' || c == '\r'
}

fn is_digit_exec(c: char) -> (r: bool)
    ensures
        r == is_digit(c),
{
    '0' <= c && c <= '9'
}

fn unescape_exec(e: char) -> (r: char)
    ensures
        r == unescape_char(e),
{
    if e == 'b' {
        8u8 as char
    } else if e == 'f' {
        12u8 as char
    } else if e == 'n' {
        '\n'
    } else if e == 'r' {
        '\r'
    } else if e == 't' {
        '\t'
    } else {
        e
    }
}

/// Relies on std's `char::from_u32`: it returns `Some` exactly for
/// Unicode scalar values (code points outside the surrogate range and
/// at most 0x10FFFF), and the character has the given code.
#[verifier::external_body]
fn char_from_u32(x: u32) -> (r: Option<char>)
    ensures
        (r matches Some(c) ==> c as u32 == x),
        (r is Some <==> (x < 0xD800 || (0xE000 <= x && x <= 0x10FFFF))),
{
    char::from_u32(x)
}

fn skip_ws(s: &Vec<char>, i: usize) -> (j: usize)
    requires
        i <= s@.len(),
    ensures
        j as int == sp_ws(s@, i as int),
        i <= j <= s@.len(),
        j < s@.len() ==> !is_ws(s@[j as int]),
{
    let n = s.len();
    let mut j = i;
    while j < n && is_ws_exec(s[j])
        invariant
            i <= j <= n,
            n == s@.len(),
            sp_ws(s@, i as int) == sp_ws(s@, j as int),
        decreases n - j,
    {
        proof {
            assert(sp_ws(s@, j as int) == sp_ws(s@, j + 1));
        }
        j = j + 1;
    }
    proof {
        assert(sp_ws(s@, j as int) == j as int);
    }
    j
}

fn digits_end(s: &Vec<char>, i: usize) -> (j: usize)
    requires
        i <= s@.len(),
    ensures
        j as int == sp_digits_end(s@, i as int),
        i <= j <= s@.len(),
        (i < s@.len() && is_digit(s@[i as int])) ==> j > i,
{
    let n = s.len();
    let mut j = i;
    while j < n && is_digit_exec(s[j])
        invariant
            i <= j <= n,
            n == s@.len(),
            sp_digits_end(s@, i as int) == sp_digits_end(s@, j as int),
            (i < s@.len() && is_digit(s@[i as int])) ==> j > i || (j == i && is_digit(s@[j as int])),
        decreases n - j,
    {
        proof {
            assert(sp_digits_end(s@, j as int) == sp_digits_end(s@, j + 1));
        }
        j = j + 1;
    }
    proof {
        assert(sp_digits_end(s@, j as int) == j as int);
    }
    j
}

fn prepend_char(c: char, rest: String) -> (r: String)
    ensures
        r@ == seq![c] + rest@,
{
    let mut out = String::new();
    push_char(&mut out, c);
    out.append(rest.as_str());
    proof {
        assert(out@ =~= seq![c] + rest@);
    }
    out
}

fn parse_str_body(s: &Vec<char>, i: usize) -> (r: Option<(String, usize)>)
    requires
        i <= s@.len(),
    ensures
        match r {
            Some(p) => sp_str_body(s@, i as int) == Some((p.0@, p.1 as int)) && i < p.1
                <= s@.len(),
            None => sp_str_body(s@, i as int) is None,
        },
    decreases s@.len() - i,
{
    let n = s.len();
    if i >= n {
        return None;
    }
    let c = s[i];
    if c == '"' {
        return Some((String::new(), i + 1));
    }
    if c == '\\' {
        if n - i < 2 {
            return None;
        }
        let e = s[i + 1];
        if e == '"' || e == '\\' || e == '/' || e == 'b' || e == 'f' || e == 'n' || e == 'r' || e
            == 't' {
            match parse_str_body(s, i + 2) {
                Some((rest, j)) => Some((prepend_char(unescape_exec(e), rest), j)),
                None => None,
            }
        } else if e == 'u' {
            if n - i < 6 {
                return None;
            }
            let a = match hex_val_exec(s[i + 2]) {
                Some(v) => v,
                None => { return None; },
            };
            let b = match hex_val_exec(s[i + 3]) {
                Some(v) => v,
                None => { return None; },
            };
            let c2 = match hex_val_exec(s[i + 4]) {
                Some(v) => v,
                None => { return None; },
            };
            let d = match hex_val_exec(s[i + 5]) {
                Some(v) => v,
                None => { return None; },
            };
            let x: u32 = (a as u32) * 4096 + (b as u32) * 256 + (c2 as u32) * 16 + (d as u32);
            if 0xD800 <= x && x < 0xDC00 {
                if n - i < 12 {
                    return None;
                }
                if !(s[i + 6] == '\\' && s[i + 7] == 'u') {
                    return None;
                }
                let a2 = match hex_val_exec(s[i + 8]) {
                    Some(v) => v,
                    None => { return None; },
                };
                let b2 = match hex_val_exec(s[i + 9]) {
                    Some(v) => v,
                    None => { return None; },
                };
                let c22 = match hex_val_exec(s[i + 10]) {
                    Some(v) => v,
                    None => { return None; },
                };
                let d2 = match hex_val_exec(s[i + 11]) {
                    Some(v) => v,
                    None => { return None; },
                };
                let y: u32 = (a2 as u32) * 4096 + (b2 as u32) * 256 + (c22 as u32) * 16 + (d2
                    as u32);
                if !(0xDC00 <= y && y < 0xE000) {
                    return None;
                }
                let cp: u32 = 0x10000 + (x - 0xD800) * 0x400 + (y - 0xDC00);
                let ch = match char_from_u32(cp) {
                    Some(ch) => ch,
                    None => {
                        proof {
                            assert(false);
                        }
                        return None;
                    },
                };
                proof {
                    vstd::utf8::char_u32_cast(ch, cp);
                }
                match parse_str_body(s, i + 12) {
                    Some((rest, j)) => Some((prepend_char(ch, rest), j)),
                    None => None,
                }
            } else if 0xDC00 <= x && x < 0xE000 {
                None
            } else {
                let ch = match char_from_u32(x) {
                    Some(ch) => ch,
                    None => {
                        proof {
                            assert(false);
                        }
                        return None;
                    },
                };
                proof {
                    vstd::utf8::char_u32_cast(ch, x);
                }
                match parse_str_body(s, i + 6) {
                    Some((rest, j)) => Some((prepend_char(ch, rest), j)),
                    None => None,
                }
            }
        } else {
            None
        }
    } else if (c as u32) < 32 {
        None
    } else {
        match parse_str_body(s, i + 1) {
            Some((rest, j)) => Some((prepend_char(c, rest), j)),
            None => None,
        }
    }
}

fn parse_number(s: &Vec<char>, i: usize) -> (r: Option<(String, usize)>)
    requires
        i <= s@.len(),
    ensures
        match r {
            Some(p) => sp_number(s@, i as int) == Some((p.0@, p.1 as int)) && i < p.1 <= s@.len(),
            None => sp_number(s@, i as int) is None,
        },
{
    let n = s.len();
    let i1 = if i < n && s[i] == '-' {
        i + 1
    } else {
        i
    };
    if i1 >= n {
        return None;
    }
    if !is_digit_exec(s[i1]) {
        return None;
    }
    let i2 = if s[i1] == '0' {
        i1 + 1
    } else {
        digits_end(s, i1)
    };
    let i3 = if i2 < n && s[i2] == '.' {
        if i2 + 1 < n && is_digit_exec(s[i2 + 1]) {
            digits_end(s, i2 + 1)
        } else {
            return None;
        }
    } else {
        i2
    };
    let i4 = if i3 < n && (s[i3] == 'e' || s[i3] == 'E') {
        let i3a = if i3 + 1 < n && (s[i3 + 1] == '+' || s[i3 + 1] == '-') {
            i3 + 2
        } else {
            i3 + 1
        };
        if i3a < n && is_digit_exec(s[i3a]) {
            digits_end(s, i3a)
        } else {
            return None;
        }
    } else {
        i3
    };
    let lex = chars_range_to_string(s, i, i4);
    Some((lex, i4))
}

fn parse_value(s: &Vec<char>, i: usize, Ghost(fuel): Ghost<nat>) -> (r: Option<(Json, usize)>)
    requires
        i <= s@.len(),
        fuel >= 2 * (s@.len() - i) + 2,
    ensures
        match r {
            Some(p) => sp_value(s@, i as int, fuel) == Some((p.0@, p.1 as int)) && i < p.1
                <= s@.len(),
            None => sp_value(s@, i as int, fuel) is None,
        },
    decreases fuel,
{
    let n = s.len();
    if i >= n {
        return None;
    }
    let c = s[i];
    if c == '"' {
        match parse_str_body(s, i + 1) {
            Some((cs, j)) => Some((Json::Str(cs), j)),
            None => None,
        }
    } else if c == '-' || is_digit_exec(c) {
        match parse_number(s, i) {
            Some((lex, j)) => Some((Json::Num(lex), j)),
            None => None,
        }
    } else if c == 't' {
        if n - i >= 4 && s[i + 1] == 'r' && s[i + 2] == 'u' && s[i + 3] == 'e' {
            Some((Json::Bool(true), i + 4))
        } else {
            None
        }
    } else if c == 'f' {
        if n - i >= 5 && s[i + 1] == 'a' && s[i + 2] == 'l' && s[i + 3] == 's' && s[i + 4] == 'e' {
            Some((Json::Bool(false), i + 5))
        } else {
            None
        }
    } else if c == 'n' {
        if n - i >= 4 && s[i + 1] == 'u' && s[i + 2] == 'l' && s[i + 3] == 'l' {
            Some((Json::Null, i + 4))
        } else {
            None
        }
    } else if c == '[' {
        let j = skip_ws(s, i + 1);
        if j < n && s[j] == ']' {
            let es: Vec<Json> = Vec::new();
            proof {
                assert(view_elems(es@) =~= Seq::<JsonSpec>::empty());
            }
            Some((Json::Arr(es), j + 1))
        } else {
            match parse_elems(s, j, Ghost((fuel - 1) as nat)) {
                Some((es, k)) => Some((Json::Arr(es), k)),
                None => None,
            }
        }
    } else if c == '{' {
        let j = skip_ws(s, i + 1);
        if j < n && s[j] == '}' {
            let ms: Vec<(String, Json)> = Vec::new();
            proof {
                assert(view_members(ms@) =~= Seq::<(Seq<char>, JsonSpec)>::empty());
            }
            Some((Json::Obj(ms), j + 1))
        } else {
            match parse_members(s, j, Ghost((fuel - 1) as nat)) {
                Some((ms, k)) => Some((Json::Obj(ms), k)),
                None => None,
            }
        }
    } else {
        None
    }
}

fn parse_elems(s: &Vec<char>, i: usize, Ghost(fuel): Ghost<nat>) -> (r: Option<(Vec<Json>, usize)>)
    requires
        i <= s@.len(),
        fuel >= 2 * (s@.len() - i) + 3,
    ensures
        match r {
            Some(p) => sp_elems(s@, i as int, fuel) == Some((view_elems(p.0@), p.1 as int)) && i
                < p.1 <= s@.len(),
            None => sp_elems(s@, i as int, fuel) is None,
        },
    decreases fuel,
{
    let n = s.len();
    match parse_value(s, i, Ghost((fuel - 1) as nat)) {
        Some((v, j)) => {
            let k = skip_ws(s, j);
            if k < n && s[k] == ',' {
                let m = skip_ws(s, k + 1);
                match parse_elems(s, m, Ghost((fuel - 1) as nat)) {
                    Some((mut rest, e)) => {
                        let ghost rest0 = rest@;
                        let mut es: Vec<Json> = Vec::new();
                        es.push(v);
                        es.append(&mut rest);
                        proof {
                            assert(es@ =~= seq![v] + rest0);
                            lemma_view_elems(es@);
                            lemma_view_elems(rest0);
                            assert(view_elems(es@) =~= seq![v@] + view_elems(rest0));
                        }
                        Some((es, e))
                    },
                    None => None,
                }
            } else if k < n && s[k] == ']' {
                let mut es: Vec<Json> = Vec::new();
                es.push(v);
                proof {
                    lemma_view_elems(es@);
                    assert(view_elems(es@) =~= seq![v@]);
                }
                Some((es, k + 1))
            } else {
                None
            }
        },
        None => None,
    }
}

fn parse_members(s: &Vec<char>, i: usize, Ghost(fuel): Ghost<nat>) -> (r: Option<
    (Vec<(String, Json)>, usize),
>)
    requires
        i <= s@.len(),
        fuel >= 2 * (s@.len() - i) + 3,
    ensures
        match r {
            Some(p) => sp_members(s@, i as int, fuel) == Some((view_members(p.0@), p.1 as int))
                && i < p.1 <= s@.len(),
            None => sp_members(s@, i as int, fuel) is None,
        },
    decreases fuel,
{
    let n = s.len();
    if !(i < n && s[i] == '"') {
        return None;
    }
    match parse_str_body(s, i + 1) {
        Some((key, j)) => {
            let k = skip_ws(s, j);
            if k < n && s[k] == ':' {
                let m = skip_ws(s, k + 1);
                match parse_value(s, m, Ghost((fuel - 1) as nat)) {
                    Some((v, p)) => {
                        let q = skip_ws(s, p);
                        if q < n && s[q] == ',' {
                            let r2 = skip_ws(s, q + 1);
                            match parse_members(s, r2, Ghost((fuel - 1) as nat)) {
                                Some((mut rest, e)) => {
                                    let ghost rest0 = rest@;
                                    let mut ms: Vec<(String, Json)> = Vec::new();
                                    ms.push((key, v));
                                    ms.append(&mut rest);
                                    proof {
                                        assert(ms@ =~= seq![(key, v)] + rest0);
                                        lemma_view_members(ms@);
                                        lemma_view_members(rest0);
                                        assert(view_members(ms@) =~= seq![(key@, v@)]
                                            + view_members(rest0));
                                    }
                                    Some((ms, e))
                                },
                                None => None,
                            }
                        } else if q < n && s[q] == '}' {
                            let mut ms: Vec<(String, Json)> = Vec::new();
                            ms.push((key, v));
                            proof {
                                lemma_view_members(ms@);
                                assert(view_members(ms@) =~= seq![(key@, v@)]);
                            }
                            Some((ms, q + 1))
                        } else {
                            None
                        }
                    },
                    None => None,
                }
            } else {
                None
            }
        },
        None => None,
    }
}

/// Parses a text as one JSON value surrounded by optional whitespace.
/// `None` exactly when the text is not valid JSON.
pub fn parse_json(s: &str) -> (r: Option<Json>)
    ensures
        match r {
            Some(v) => sp_parse_json(s@) == Some(v@),
            None => sp_parse_json(s@) is None,
        },
{
    let cs = str_to_chars(s);
    let i = skip_ws(&cs, 0);
    match parse_value(&cs, i, Ghost(json_fuel(s@))) {
        Some((v, j)) => {
            let k = skip_ws(&cs, j);
            if k == cs.len() {
                Some(v)
            } else {
                None
            }
        },
        None => None,
    }
}


/// The value of the member with the given key, the last occurrence
/// winning, as in a map built by inserting the members in order.
pub open spec fn obj_lookup(ms: Seq<(Seq<char>, JsonSpec)>, key: Seq<char>) -> Option<JsonSpec>
    decreases ms,
{
    if ms.len() == 0 {
        None
    } else if ms.last().0 == key {
        Some(ms.last().1)
    } else {
        obj_lookup(ms.drop_last(), key)
    }
}

/// The member of an object value under the given key; `None` when the
/// value is not an object or has no such member.
pub open spec fn jget(v: JsonSpec, key: Seq<char>) -> Option<JsonSpec> {
    match v {
        JsonSpec::Obj(ms) => obj_lookup(ms, key),
        _ => None,
    }
}

/// Looks a member up in an object value.
pub fn json_obj_get<'a>(v: &'a Json, key: &str) -> (r: Option<&'a Json>)
    ensures
        match r {
            Some(m) => jget(v@, key@) == Some(m@),
            None => jget(v@, key@) is None,
        },
{
    match v {
        Json::Obj(ms) => {
            proof {
                lemma_view_members(ms@);
                assert(view_members(ms@).take(ms@.len() as int) =~= view_members(ms@));
            }
            let mut k = ms.len();
            while k > 0
                invariant
                    k <= ms@.len(),
                    v@ == JsonSpec::Obj(view_members(ms@)),
                    view_members(ms@).len() == ms@.len(),
                    forall|i: int|
                        0 <= i < ms@.len() ==> #[trigger] view_members(ms@)[i] == (
                        ms@[i].0@,
                        ms@[i].1@,
                        ),
                    obj_lookup(view_members(ms@), key@) == obj_lookup(
                        view_members(ms@).take(k as int),
                        key@,
                    ),
                decreases k,
            {
                k = k - 1;
                if crate::common::str_eq(ms[k].0.as_str(), key) {
                    proof {
                        let vs = view_members(ms@);
                        assert(vs.take(k + 1).last() == vs[k as int]);
                        assert(obj_lookup(vs.take(k + 1), key@) == Some(vs[k as int].1));
                    }
                    return Some(&ms[k].1);
                }
                proof {
                    let vs = view_members(ms@);
                    assert(vs.take(k + 1).last() == vs[k as int]);
                    assert(vs.take(k + 1).drop_last() =~= vs.take(k as int));
                }
            }
            proof {
                assert(view_members(ms@).take(0).len() == 0);
            }
            None
        },
        _ => None,
    }
}

/// Whether every character of `s` is a decimal digit.
pub open spec fn all_digits(s: Seq<char>) -> bool {
    forall|i: int| 0 <= i < s.len() ==> is_digit(#[trigger] s[i])
}

/// The numeric value of a digit string.
pub open spec fn digits_value(s: Seq<char>) -> int
    decreases s.len(),
{
    if s.len() == 0 {
        0
    } else {
        digits_value(s.drop_last()) * 10 + (s.last() as int - '0' as int)
    }
}

/// The integer denoted by a lexeme of the form `-?[0-9]+`; `None` for
/// any other shape, a fraction or an exponent included.
pub open spec fn int_lex_val(s: Seq<char>) -> Option<int> {
    if s.len() >= 2 && s[0] == '-' && all_digits(s.skip(1)) {
        Some(-digits_value(s.skip(1)))
    } else if s.len() >= 1 && all_digits(s) {
        Some(digits_value(s))
    } else {
        None
    }
}

/// Appending a digit multiplies the value by ten and adds the digit.
proof fn lemma_digits_value_snoc(s: Seq<char>, i: int)
    requires
        0 <= i < s.len(),
    ensures
        digits_value(s.take(i + 1)) == digits_value(s.take(i)) * 10 + (s[i] as int - '0' as int),
{
    assert(s.take(i + 1).drop_last() =~= s.take(i));
    assert(s.take(i + 1).last() == s[i]);
}

/// A digit string's value never shrinks as digits are appended.
proof fn lemma_digits_value_mono(s: Seq<char>, i: int)
    requires
        0 <= i <= s.len(),
        all_digits(s),
    ensures
        digits_value(s.take(i)) <= digits_value(s),
        digits_value(s) >= 0,
    decreases s.len() - i,
{
    if i == s.len() {
        assert(s.take(i) =~= s);
        lemma_digits_value_nonneg(s);
    } else {
        lemma_digits_value_mono(s, i + 1);
        lemma_digits_value_snoc(s, i);
        lemma_digits_value_nonneg(s.take(i));
    }
}

/// The value of a digit string is never negative.
proof fn lemma_digits_value_nonneg(s: Seq<char>)
    requires
        all_digits(s),
    ensures
        digits_value(s) >= 0,
    decreases s.len(),
{
    if s.len() > 0 {
        assert(all_digits(s.drop_last()));
        lemma_digits_value_nonneg(s.drop_last());
    }
}

/// The magnitude of a digit run, or `None` when it exceeds `bound`
/// or a character is not a digit.
fn digits_magnitude(cs: &Vec<char>, start: usize, bound: u64) -> (r: Option<u64>)
    requires
        start <= cs@.len(),
        bound >= 9,
    ensures
        match r {
            Some(m) => all_digits(cs@.skip(start as int)) && m as int == digits_value(
                cs@.skip(start as int),
            ) && m <= bound,
            None => !(all_digits(cs@.skip(start as int)) && digits_value(
                cs@.skip(start as int),
            ) <= bound),
        },
{
    let n = cs.len();
    let ghost tail = cs@.skip(start as int);
    let mut acc: u64 = 0;
    let mut i = start;
    proof {
        assert(tail.take(0).len() == 0);
    }
    while i < n
        invariant
            start <= i <= n,
            n == cs@.len(),
            bound >= 9,
            tail == cs@.skip(start as int),
            acc <= bound,
            all_digits(tail.take(i - start)),
            acc as int == digits_value(tail.take(i - start)),
        decreases n - i,
    {
        let c = cs[i];
        if !is_digit_exec(c) {
            proof {
                assert(tail[i - start] == cs@[i as int]);
            }
            return None;
        }
        proof {
            assert('0' <= c && c <= '9');
            assert((c as u8) >= 48 && (c as u8) <= 57);
        }
        let d = (c as u8) - ('0' as u8);
        proof {
            assert(d <= 9);
            lemma_digits_value_snoc(tail, i - start);
        }
        if acc > (bound - (d as u64)) / 10 {
            proof {
                assert(all_digits(tail.take(i - start + 1)));
                assert(digits_value(tail.take(i - start + 1)) == acc * 10 + d);
                assert(acc * 10 + d > bound) by (nonlinear_arith)
                    requires
                        acc > (bound - (d as u64)) / 10,
                        d <= 9,
                        bound >= d,
                        acc >= 0,
                {}
                if all_digits(tail) {
                    lemma_digits_value_mono(tail, i - start + 1);
                }
            }
            return None;
        }
        proof {
            assert(acc * 10 + d <= bound) by (nonlinear_arith)
                requires
                    acc <= (bound - (d as u64)) / 10,
                    d <= 9,
                    bound >= d,
                    acc >= 0,
            {}
            assert(all_digits(tail.take(i - start + 1)));
        }
        acc = acc * 10 + (d as u64);
        i = i + 1;
    }
    proof {
        assert(tail.take(n - start) =~= tail);
    }
    Some(acc)
}

/// Reads a number lexeme as a signed 64-bit integer. `None` when the
/// lexeme holds anything but an optional minus sign and digits, or
/// when the value does not fit.
pub fn parse_i64_lexeme(lex: &str) -> (r: Option<i64>)
    ensures
        match r {
            Some(v) => int_lex_val(lex@) == Some(v as int),
            None => match int_lex_val(lex@) {
                Some(v) => v < i64::MIN || v > i64::MAX,
                None => true,
            },
        },
{
    let cs = str_to_chars(lex);
    let n = cs.len();
    if n == 0 {
        return None;
    }
    if cs[0] == '-' {
        if n == 1 {
            return None;
        }
        match digits_magnitude(&cs, 1, 9223372036854775808u64) {
            Some(m) => {
                if m == 9223372036854775808u64 {
                    Some(i64::MIN)
                } else {
                    Some(-(m as i64))
                }
            },
            None => None,
        }
    } else {
        match digits_magnitude(&cs, 0, 9223372036854775807u64) {
            Some(m) => {
                proof {
                    assert(cs@.skip(0) =~= cs@);
                }
                Some(m as i64)
            },
            None => {
                proof {
                    assert(cs@.skip(0) =~= cs@);
                }
                None
            },
        }
    }
}

/// Reads a number lexeme as an unsigned 64-bit integer. `None` when
/// the lexeme is not a plain run of digits or the value does not fit.
pub fn parse_u64_lexeme(lex: &str) -> (r: Option<u64>)
    ensures
        match r {
            Some(v) => int_lex_val(lex@) == Some(v as int),
            None => match int_lex_val(lex@) {
                Some(v) => v < 0 || v > u64::MAX,
                None => true,
            },
        },
{
    let cs = str_to_chars(lex);
    let n = cs.len();
    if n == 0 {
        return None;
    }
    if cs[0] == '-' {
        if n >= 2 {
            // a negative lexeme denotes a value below zero, except -0
            match digits_magnitude(&cs, 1, u64::MAX) {
                Some(m) => {
                    if m == 0 {
                        Some(0)
                    } else {
                        None
                    }
                },
                None => None,
            }
        } else {
            None
        }
    } else {
        match digits_magnitude(&cs, 0, u64::MAX) {
            Some(m) => {
                proof {
                    assert(cs@.skip(0) =~= cs@);
                }
                Some(m)
            },
            None => {
                proof {
                    assert(cs@.skip(0) =~= cs@);
                }
                None
            },
        }
    }
}


/// A value and its model are the same variant.
pub proof fn lemma_view_variant(v: &Json)
    ensures
        (v is Null) <==> (v@ is Null),
        (v is Bool) <==> (v@ is Bool),
        (v is Num) <==> (v@ is Num),
        (v is Str) <==> (v@ is Str),
        (v is Arr) <==> (v@ is Arr),
        (v is Obj) <==> (v@ is Obj),
{
    match v {
        Json::Null => {},
        Json::Bool(_) => {},
        Json::Num(_) => {},
        Json::Str(_) => {},
        Json::Arr(_) => {},
        Json::Obj(_) => {},
    }
}

} // verus!



