//! A JSON document model: the shape of module parameters and schemas as the
//! engine receives them. Numbers keep their JSON text.

use vstd::prelude::*;
use crate::text::{push_char, str_eq};

verus! {

/// A JSON value. Object members keep their order.
pub enum JsonValue {
    Null,
    Bool(bool),
    /// A number, held as its JSON text.
    Number(String),
    Str(String),
    Array(Vec<JsonValue>),
    Object(Vec<(String, JsonValue)>),
}

/// A JSON value as mathematics: texts in place of strings.
pub enum Json {
    Null,
    Bool(bool),
    Number(Seq<char>),
    Str(Seq<char>),
    Array(Seq<Json>),
    Object(Seq<(Seq<char>, Json)>),
}

/// What a JSON value holds.
pub open spec fn json_view(v: JsonValue) -> Json
    decreases v,
{
    match v {
        JsonValue::Null => Json::Null,
        JsonValue::Bool(b) => Json::Bool(b),
        JsonValue::Number(t) => Json::Number(t@),
        JsonValue::Str(s) => Json::Str(s@),
        JsonValue::Array(a) => Json::Array(list_view(a@)),
        JsonValue::Object(m) => Json::Object(members_view(m@)),
    }
}

/// What the values of a list hold.
pub open spec fn list_view(s: Seq<JsonValue>) -> Seq<Json>
    decreases s,
{
    if s.len() == 0 {
        Seq::empty()
    } else {
        list_view(s.drop_last()).push(json_view(s.last()))
    }
}

/// What the members of an object hold.
pub open spec fn members_view(s: Seq<(String, JsonValue)>) -> Seq<(Seq<char>, Json)>
    decreases s,
{
    if s.len() == 0 {
        Seq::empty()
    } else {
        members_view(s.drop_last()).push((s.last().0@, json_view(s.last().1)))
    }
}

/// The value of the first member named `key`, if any.
pub open spec fn member(entries: Seq<(String, JsonValue)>, key: Seq<char>) -> Option<JsonValue>
    decreases entries.len(),
{
    if entries.len() == 0 {
        None
    } else if entries[0].0@ == key {
        Some(entries[0].1)
    } else {
        member(entries.drop_first(), key)
    }
}

/// The text of the member `key` when it is a JSON string.
pub open spec fn member_str(entries: Seq<(String, JsonValue)>, key: Seq<char>) -> Option<Seq<char>> {
    match member(entries, key) {
        Some(JsonValue::Str(s)) => Some(s@),
        _ => None,
    }
}

/// Looks up the first member named `key`.
pub fn get_member<'a>(entries: &'a Vec<(String, JsonValue)>, key: &str) -> (r: Option<&'a JsonValue>)
    ensures
        match member(entries@, key@) {
            Some(v) => r == Some(&v),
            None => r is None,
        },
{
    let mut i: usize = 0;
    assert(entries@.skip(0) =~= entries@);
    while i < entries.len()
        invariant
            i <= entries@.len(),
            member(entries@, key@) == member(entries@.skip(i as int), key@),
        decreases entries@.len() - i,
    {
        proof {
            assert(entries@.skip(i as int).drop_first() =~= entries@.skip(i + 1));
            assert(entries@.skip(i as int)[0] == entries@[i as int]);
        }
        if str_eq(entries[i].0.as_str(), key) {
            return Some(&entries[i].1);
        }
        i = i + 1;
    }
    None
}

/// Looks up the member `key` as a JSON string.
pub fn get_member_str<'a>(entries: &'a Vec<(String, JsonValue)>, key: &str) -> (r: Option<&'a String>)
    ensures
        match member_str(entries@, key@) {
            Some(s) => r matches Some(t) && t@ == s,
            None => r is None,
        },
{
    match get_member(entries, key) {
        Some(JsonValue::Str(s)) => Some(s),
        _ => None,
    }
}

/// Whether an object is a cable reference: its `type` member is the string `cable`.
pub open spec fn is_cable_object(entries: Seq<(String, JsonValue)>) -> bool {
    member_str(entries, seq!['t', 'y', 'p', 'e']) == Some(seq!['c', 'a', 'b', 'l', 'e'])
}

/// The producer module ids of every cable reference in `v`, in document
/// order. A cable object contributes its `module` string (if it has one)
/// and is not searched further.
pub open spec fn cable_producers(v: JsonValue) -> Seq<Seq<char>>
    decreases v,
{
    match v {
        JsonValue::Object(m) => {
            if is_cable_object(m@) {
                match member_str(m@, seq!['m', 'o', 'd', 'u', 'l', 'e']) {
                    Some(p) => seq![p],
                    None => Seq::empty(),
                }
            } else {
                member_producers(m@)
            }
        },
        JsonValue::Array(a) => list_producers(a@),
        _ => Seq::empty(),
    }
}

/// Cable producers of a list of values, in order.
pub open spec fn list_producers(s: Seq<JsonValue>) -> Seq<Seq<char>>
    decreases s,
{
    if s.len() == 0 {
        Seq::empty()
    } else {
        list_producers(s.drop_last()) + cable_producers(s.last())
    }
}

/// Cable producers of the member values of an object, in order.
pub open spec fn member_producers(s: Seq<(String, JsonValue)>) -> Seq<Seq<char>>
    decreases s,
{
    if s.len() == 0 {
        Seq::empty()
    } else {
        member_producers(s.drop_last()) + cable_producers(s.last().1)
    }
}

/// The contents of a list of strings.
pub open spec fn string_views(s: Seq<String>) -> Seq<Seq<char>> {
    s.map_values(|x: String| x@)
}

/// Appends to `out` the producer module id of every cable reference in `v`,
/// in document order.
pub fn collect_cable_producers(v: &JsonValue, out: &mut Vec<String>)
    ensures
        string_views(final(out)@) == string_views(old(out)@) + cable_producers(*v),
    decreases v,
{
    match v {
        JsonValue::Object(m) => {
            let is_cable = match get_member_str(m, "type") {
                Some(t) => str_eq(t.as_str(), "cable"),
                None => false,
            };
            proof {
                reveal_strlit("type");
                reveal_strlit("cable");
                reveal_strlit("module");
                assert("type"@ =~= seq!['t', 'y', 'p', 'e']);
                assert("cable"@ =~= seq!['c', 'a', 'b', 'l', 'e']);
                assert("module"@ =~= seq!['m', 'o', 'd', 'u', 'l', 'e']);
            }
            if is_cable {
                match get_member_str(m, "module") {
                    Some(p) => {
                        out.push(p.clone());
                        proof {
                            assert(string_views(out@) =~= string_views(old(out)@) + seq![p@]);
                        }
                    },
                    None => {
                        assert(string_views(out@) =~= string_views(old(out)@) + Seq::<Seq<char>>::empty());
                    },
                }
            } else {
                let mut i: usize = 0;
                assert(m@.take(0) =~= Seq::<(String, JsonValue)>::empty());
                assert(string_views(out@) =~= string_views(old(out)@) + member_producers(m@.take(0)));
                while i < m.len()
                    invariant
                        i <= m@.len(),
                        *v == JsonValue::Object(*m),
                        string_views(out@) == string_views(old(out)@) + member_producers(m@.take(i as int)),
                    decreases m@.len() - i,
                {
                    proof {
                        assert(m@.take(i + 1).drop_last() =~= m@.take(i as int));
                        assert(m@.take(i + 1).last() == m@[i as int]);
                        assert(decreases_to!(*v => (*v)->Object_0));
                        assert((*v)->Object_0 == *m);
                        vstd::std_specs::vec::axiom_vec_index_decreases(*m, i as int);
                        assert(decreases_to!(*m => m[i as int]));
                        assert(decreases_to!(m[i as int] => m[i as int].1));
                        assert(decreases_to!(*v => m@[i as int].1));
                    }
                    let ghost before = out@;
                    collect_cable_producers(&m[i].1, out);
                    proof {
                        assert(string_views(out@) =~= string_views(old(out)@) + member_producers(m@.take(i + 1)));
                    }
                    i = i + 1;
                }
                assert(m@.take(m@.len() as int) =~= m@);
            }
        },
        JsonValue::Array(a) => {
            let mut i: usize = 0;
            assert(a@.take(0) =~= Seq::<JsonValue>::empty());
            assert(string_views(out@) =~= string_views(old(out)@) + list_producers(a@.take(0)));
            while i < a.len()
                invariant
                    i <= a@.len(),
                    *v == JsonValue::Array(*a),
                    string_views(out@) == string_views(old(out)@) + list_producers(a@.take(i as int)),
                decreases a@.len() - i,
            {
                proof {
                    assert(a@.take(i + 1).drop_last() =~= a@.take(i as int));
                    assert(a@.take(i + 1).last() == a@[i as int]);
                    assert(decreases_to!(*v => (*v)->Array_0));
                    assert((*v)->Array_0 == *a);
                    vstd::std_specs::vec::axiom_vec_index_decreases(*a, i as int);
                    assert(decreases_to!(*a => a[i as int]));
                    assert(decreases_to!(*v => a@[i as int]));
                }
                collect_cable_producers(&a[i], out);
                proof {
                    assert(string_views(out@) =~= string_views(old(out)@) + list_producers(a@.take(i + 1)));
                }
                i = i + 1;
            }
            assert(a@.take(a@.len() as int) =~= a@);
        },
        _ => {
            assert(string_views(out@) =~= string_views(old(out)@) + Seq::<Seq<char>>::empty());
        },
    }
}


// ---------------------------------------------------------------------------
// Compact JSON text
// ---------------------------------------------------------------------------

/// Lowercase hexadecimal digit of `d` (0..16).
pub open spec fn hex_digit(d: u32) -> char {
    if d < 10 {
        (('0' as u32) + d) as char
    } else {
        (('a' as u32) + d - 10) as char
    }
}

/// How a character is written inside a JSON string: quote and backslash
/// are escaped, control characters use their short escape or `\u00XX`,
/// every other character is written as itself.
pub open spec fn escape_char(c: char) -> Seq<char> {
    if c == '"' {
        seq!['\\', '"']
    } else if c == '\\' {
        seq!['\\', '\\']
    } else if c == '\n' {
        seq!['\\', 'n']
    } else if c == '\r' {
        seq!['\\', 'r']
    } else if c == '\t' {
        seq!['\\', 't']
    } else if (c as u32) == 8 {
        seq!['\\', 'b']
    } else if (c as u32) == 12 {
        seq!['\\', 'f']
    } else if (c as u32) < 0x20 {
        seq!['\\', 'u', '0', '0', hex_digit((c as u32) / 16), hex_digit((c as u32) % 16)]
    } else {
        seq![c]
    }
}

/// The escaped body of a JSON string.
pub open spec fn escape_text(s: Seq<char>) -> Seq<char>
    decreases s.len(),
{
    if s.len() == 0 {
        Seq::empty()
    } else {
        escape_text(s.drop_last()) + escape_char(s.last())
    }
}

/// A JSON string literal.
pub open spec fn quoted(s: Seq<char>) -> Seq<char> {
    seq!['"'] + escape_text(s) + seq!['"']
}

/// Compact JSON text of a value: no whitespace, members in order,
/// numbers as held.
pub open spec fn json_text(v: JsonValue) -> Seq<char>
    decreases v,
{
    match v {
        JsonValue::Null => seq!['n', 'u', 'l', 'l'],
        JsonValue::Bool(b) => if b { seq!['t', 'r', 'u', 'e'] } else { seq!['f', 'a', 'l', 's', 'e'] },
        JsonValue::Number(t) => t@,
        JsonValue::Str(s) => quoted(s@),
        JsonValue::Array(a) => seq!['['] + list_text(a@) + seq![']'],
        JsonValue::Object(m) => seq!['{'] + members_text(m@) + seq!['}'],
    }
}

/// Comma-separated texts of a list of values.
pub open spec fn list_text(s: Seq<JsonValue>) -> Seq<char>
    decreases s,
{
    if s.len() == 0 {
        Seq::empty()
    } else if s.len() == 1 {
        json_text(s[0])
    } else {
        list_text(s.drop_last()) + seq![','] + json_text(s.last())
    }
}

/// Comma-separated `"key":value` texts of object members.
pub open spec fn members_text(s: Seq<(String, JsonValue)>) -> Seq<char>
    decreases s,
{
    if s.len() == 0 {
        Seq::empty()
    } else if s.len() == 1 {
        quoted(s[0].0@) + seq![':'] + json_text(s[0].1)
    } else {
        members_text(s.drop_last()) + seq![','] + quoted(s.last().0@) + seq![':'] + json_text(s.last().1)
    }
}

/// Appends the escaped form of one character.
fn push_escaped(out: &mut String, c: char)
    ensures
        final(out)@ == old(out)@ + escape_char(c),
{
    let code = c as u32;
    if c == '"' {
        push_char(out, '\\');
        push_char(out, '"');
    } else if c == '\\' {
        push_char(out, '\\');
        push_char(out, '\\');
    } else if c == '\n' {
        push_char(out, '\\');
        push_char(out, 'n');
    } else if c == '\r' {
        push_char(out, '\\');
        push_char(out, 'r');
    } else if c == '\t' {
        push_char(out, '\\');
        push_char(out, 't');
    } else if code == 8 {
        push_char(out, '\\');
        push_char(out, 'b');
    } else if code == 12 {
        push_char(out, '\\');
        push_char(out, 'f');
    } else if code < 0x20 {
        push_char(out, '\\');
        push_char(out, 'u');
        push_char(out, '0');
        push_char(out, '0');
        push_char(out, hex_char(code / 16));
        push_char(out, hex_char(code % 16));
    } else {
        push_char(out, c);
    }
    proof {
        assert(out@ =~= old(out)@ + escape_char(c));
    }
}

/// Lowercase hexadecimal digit.
fn hex_char(d: u32) -> (c: char)
    requires
        d < 16,
    ensures
        c == hex_digit(d),
{
    if d < 10 {
        ((48 + d) as u8) as char
    } else {
        ((97 + d - 10) as u8) as char
    }
}

/// Appends a JSON string literal for `s`.
pub fn push_quoted(out: &mut String, s: &str)
    ensures
        final(out)@ == old(out)@ + quoted(s@),
{
    push_char(out, '"');
    let n = s.unicode_len();
    let mut i: usize = 0;
    while i < n
        invariant
            n == s@.len(),
            i <= n,
            out@ == old(out)@ + seq!['"'] + escape_text(s@.take(i as int)),
        decreases n - i,
    {
        let c = s.get_char(i);
        proof {
            assert(s@.take(i + 1).drop_last() =~= s@.take(i as int));
            assert(s@.take(i + 1).last() == c);
        }
        push_escaped(out, c);
        i = i + 1;
        proof {
            assert(out@ =~= old(out)@ + seq!['"'] + escape_text(s@.take(i as int)));
        }
    }
    push_char(out, '"');
    proof {
        assert(s@.take(n as int) =~= s@);
        assert(out@ =~= old(out)@ + quoted(s@));
    }
}

/// Appends the compact JSON text of `v`.
pub fn write_json(out: &mut String, v: &JsonValue)
    ensures
        final(out)@ == old(out)@ + json_text(*v),
    decreases v,
{
    match v {
        JsonValue::Null => {
            out.append("null");
            proof {
                reveal_strlit("null");
                assert("null"@ =~= seq!['n', 'u', 'l', 'l']);
            }
        },
        JsonValue::Bool(b) => {
            if *b {
                out.append("true");
                proof {
                    reveal_strlit("true");
                    assert("true"@ =~= seq!['t', 'r', 'u', 'e']);
                }
            } else {
                out.append("false");
                proof {
                    reveal_strlit("false");
                    assert("false"@ =~= seq!['f', 'a', 'l', 's', 'e']);
                }
            }
        },
        JsonValue::Number(t) => {
            out.append(t.as_str());
        },
        JsonValue::Str(s) => {
            push_quoted(out, s.as_str());
        },
        JsonValue::Array(a) => {
            push_char(out, '[');
            let mut i: usize = 0;
            while i < a.len()
                invariant
                    i <= a@.len(),
                    *v == JsonValue::Array(*a),
                    out@ == old(out)@ + seq!['['] + list_text(a@.take(i as int)),
                decreases a@.len() - i,
            {
                proof {
                    assert(a@.take(i + 1).drop_last() =~= a@.take(i as int));
                    assert(a@.take(i + 1).last() == a@[i as int]);
                    assert(decreases_to!(*v => (*v)->Array_0));
                    assert((*v)->Array_0 == *a);
                    vstd::std_specs::vec::axiom_vec_index_decreases(*a, i as int);
                    assert(decreases_to!(*a => a[i as int]));
                }
                if i > 0 {
                    push_char(out, ',');
                }
                write_json(out, &a[i]);
                i = i + 1;
                proof {
                    assert(out@ =~= old(out)@ + seq!['['] + list_text(a@.take(i as int)));
                }
            }
            push_char(out, ']');
            proof {
                assert(a@.take(a@.len() as int) =~= a@);
                assert(out@ =~= old(out)@ + json_text(*v));
            }
        },
        JsonValue::Object(m) => {
            push_char(out, '{');
            let mut i: usize = 0;
            while i < m.len()
                invariant
                    i <= m@.len(),
                    *v == JsonValue::Object(*m),
                    out@ == old(out)@ + seq!['{'] + members_text(m@.take(i as int)),
                decreases m@.len() - i,
            {
                proof {
                    assert(m@.take(i + 1).drop_last() =~= m@.take(i as int));
                    assert(m@.take(i + 1).last() == m@[i as int]);
                    assert(decreases_to!(*v => (*v)->Object_0));
                    assert((*v)->Object_0 == *m);
                    vstd::std_specs::vec::axiom_vec_index_decreases(*m, i as int);
                    assert(decreases_to!(*m => m[i as int]));
                    assert(decreases_to!(m[i as int] => m[i as int].1));
                }
                if i > 0 {
                    push_char(out, ',');
                }
                push_quoted(out, m[i].0.as_str());
                push_char(out, ':');
                write_json(out, &m[i].1);
                i = i + 1;
                proof {
                    assert(out@ =~= old(out)@ + seq!['{'] + members_text(m@.take(i as int)));
                }
            }
            push_char(out, '}');
            proof {
                assert(m@.take(m@.len() as int) =~= m@);
                assert(out@ =~= old(out)@ + json_text(*v));
            }
        },
    }
}

/// The compact JSON text of `v`.
pub fn to_json_string(v: &JsonValue) -> (r: String)
    ensures
        r@ == json_text(*v),
{
    let mut out = String::new();
    write_json(&mut out, v);
    proof {
        assert(out@ =~= json_text(*v));
    }
    out
}

proof fn lemma_member_producers_concat(s: Seq<(String, JsonValue)>, t: Seq<(String, JsonValue)>)
    ensures
        member_producers(s + t) == member_producers(s) + member_producers(t),
    decreases t.len(),
{
    if t.len() == 0 {
        assert(s + t =~= s);
    } else {
        lemma_member_producers_concat(s, t.drop_last());
        assert((s + t).drop_last() =~= s + t.drop_last());
        assert((s + t).last() == t.last());
    }
}

proof fn lemma_list_producers_concat(s: Seq<JsonValue>, t: Seq<JsonValue>)
    ensures
        list_producers(s + t) == list_producers(s) + list_producers(t),
    decreases t.len(),
{
    if t.len() == 0 {
        assert(s + t =~= s);
    } else {
        lemma_list_producers_concat(s, t.drop_last());
        assert((s + t).drop_last() =~= s + t.drop_last());
        assert((s + t).last() == t.last());
    }
}

/// Every member of an object that is not a cable is searched for cables:
/// the producers found in member `i`'s value appear, in order and one
/// after another, among the producers of the object, after those of the
/// members before it.
pub proof fn lemma_member_producers_found(m: Vec<(String, JsonValue)>, i: int)
    requires
        0 <= i < m@.len(),
        !is_cable_object(m@),
    ensures
        ({
            let all = cable_producers(JsonValue::Object(m));
            let found = cable_producers(m@[i].1);
            exists|k: int| 0 <= k && k + found.len() <= all.len() && #[trigger] all.subrange(k, k + found.len()) == found
        }),
{
    let one = seq![m@[i]];
    assert(m@ =~= m@.take(i) + one + m@.skip(i + 1));
    lemma_member_producers_concat(m@.take(i) + one, m@.skip(i + 1));
    lemma_member_producers_concat(m@.take(i), one);
    assert(one.drop_last() =~= Seq::<(String, JsonValue)>::empty());
    assert(member_producers(one.drop_last()) == Seq::<Seq<char>>::empty());
    assert(one.last() == m@[i]);
    assert(member_producers(one) =~= cable_producers(m@[i].1));
    let all = cable_producers(JsonValue::Object(m));
    let found = cable_producers(m@[i].1);
    let k = member_producers(m@.take(i)).len() as int;
    assert(all.subrange(k, k + found.len()) =~= found);
}

/// Every element of an array is searched for cables: the producers found in
/// element `i` appear, in order and one after another, among the producers
/// of the array, after those of the elements before it.
pub proof fn lemma_list_producers_found(a: Vec<JsonValue>, i: int)
    requires
        0 <= i < a@.len(),
    ensures
        ({
            let all = cable_producers(JsonValue::Array(a));
            let found = cable_producers(a@[i]);
            exists|k: int| 0 <= k && k + found.len() <= all.len() && #[trigger] all.subrange(k, k + found.len()) == found
        }),
{
    let one = seq![a@[i]];
    assert(a@ =~= a@.take(i) + one + a@.skip(i + 1));
    lemma_list_producers_concat(a@.take(i) + one, a@.skip(i + 1));
    lemma_list_producers_concat(a@.take(i), one);
    assert(one.drop_last() =~= Seq::<JsonValue>::empty());
    assert(list_producers(one.drop_last()) == Seq::<Seq<char>>::empty());
    assert(one.last() == a@[i]);
    assert(list_producers(one) =~= cable_producers(a@[i]));
    let all = cable_producers(JsonValue::Array(a));
    let found = cable_producers(a@[i]);
    let k = list_producers(a@.take(i)).len() as int;
    assert(all.subrange(k, k + found.len()) =~= found);
}

} // verus!
