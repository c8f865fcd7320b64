//! The per-module metadata document the editor's tooling reads: for each
//! module its name, the identifier of its factory function, its namespace,
//! its positional argument names and its outputs, sorted by module name.

use vstd::prelude::*;
use crate::codegen::{char_to_uppercase, namespace_of, namespace_path, upper_char};
use crate::id_sample::{lemma_lex_irreflexive, lemma_lex_total, lemma_lex_transitive, lex_lt, str_lt};
use crate::json::{json_view, list_view, members_view, Json, JsonValue};
use crate::validation::{ModuleSchema, OutputSchema};

verus! {

/// Each character in its uppercase form.
pub open spec fn upper_all(s: Seq<char>) -> Seq<char>
    decreases s.len(),
{
    if s.len() == 0 {
        Seq::empty()
    } else {
        upper_all(s.drop_last()) + upper_char(s.last())
    }
}

/// The uppercase form of a text, character by character.
pub fn upper_str(s: &str) -> (r: String)
    ensures
        r@ == upper_all(s@),
{
    let n = s.unicode_len();
    let mut out = String::new();
    let mut i: usize = 0;
    while i < n
        invariant
            n == s@.len(),
            i <= n,
            out@ == upper_all(s@.take(i as int)),
        decreases n - i,
    {
        let u = char_to_uppercase(s.get_char(i));
        out.append(u.as_str());
        assert(s@.take(i + 1).drop_last() =~= s@.take(i as int));
        i = i + 1;
    }
    assert(s@.take(n as int) =~= s@);
    out
}

/// The text `regex::Regex::new(pattern)` and then `replace_all` give on
/// `text` when each match is replaced by the uppercase form (`upper_str`)
/// of its first capture group, or by nothing where the group did not
/// take part; `None` when the regex crate refuses the pattern.
pub uninterp spec fn regex_upper_replace(pattern: Seq<char>, text: Seq<char>) -> Option<Seq<char>>;

pub open spec fn opt_text(o: Option<String>) -> Option<Seq<char>> {
    match o {
        Some(s) => Some(s@),
        None => None,
    }
}

/// A character that can stand in an identifier: an ASCII letter or digit,
/// `_` or `$`.
pub open spec fn ident_char(c: char) -> bool {
    ('a' <= c <= 'z') || ('A' <= c <= 'Z') || ('0' <= c <= '9') || c == '_' || c == '$'
}

/// How many characters `s` starts with that cannot stand in an identifier.
pub open spec fn separator_run(s: Seq<char>) -> nat
    decreases s.len(),
{
    if s.len() > 0 && !ident_char(s[0]) {
        1 + separator_run(s.drop_first())
    } else {
        0
    }
}

/// A separator run lies inside the text, is not empty when the text starts
/// with a separator, and stops at a character that can stand in an identifier.
pub proof fn lemma_separator_run(s: Seq<char>)
    ensures
        separator_run(s) <= s.len(),
        s.len() > 0 && !ident_char(s[0]) ==> separator_run(s) >= 1,
        separator_run(s) < s.len() ==> ident_char(s[separator_run(s) as int]),
    decreases s.len(),
{
    if s.len() > 0 && !ident_char(s[0]) {
        lemma_separator_run(s.drop_first());
        if separator_run(s) < s.len() {
            assert(s.drop_first()[separator_run(s.drop_first()) as int] == s[separator_run(s) as int]);
        }
    }
}

/// `s` with each run of characters that cannot stand in an identifier
/// dropped, and the character after the run, if any, in uppercase: what
/// replacing every match of `[^a-zA-Z0-9_$]+(.)?` by the uppercase form of
/// its group gives.
pub open spec fn separators_replaced(s: Seq<char>) -> Seq<char>
    decreases s.len(),
{
    if s.len() == 0 {
        Seq::empty()
    } else if ident_char(s[0]) {
        seq![s[0]] + separators_replaced(s.drop_first())
    } else {
        let k = separator_run(s);
        proof {
            lemma_separator_run(s);
        }
        if k < s.len() {
            upper_char(s[k as int]) + separators_replaced(s.skip(k + 1 as int))
        } else {
            Seq::empty()
        }
    }
}

/// Replaces every match of `pattern` in `text` by the uppercase form of
/// its first capture group (`regex::Regex::new`, then
/// `Regex::replace_all`); `None` when the regex crate refuses the pattern.
/// The result is named for any pattern; for `separator_pattern()`, which
/// the regex crate compiles, it is stated: leftmost-first matching takes
/// each whole run of characters outside `[a-zA-Z0-9_$]` and the character
/// after it.
#[verifier::external_body]
fn replace_with_upper_group(pattern: &str, text: &str) -> (r: Option<String>)
    ensures
        opt_text(r) == regex_upper_replace(pattern@, text@),
        pattern@ == separator_pattern() ==> opt_text(r) == Some(separators_replaced(text@)),
{
    match regex::Regex::new(pattern) {
        Ok(re) => Some(re.replace_all(text, |caps: &regex::Captures| match caps.get(1) {
            Some(m) => upper_str(m.as_str()),
            None => String::new(),
        }).into_owned()),
        Err(_) => None,
    }
}

/// A character an identifier may start with.
pub open spec fn identifier_start(c: char) -> bool {
    ('a' <= c <= 'z') || ('A' <= c <= 'Z') || c == '_' || c == '$'
}

/// An identifier from a camel-cased text: `_` for nothing, and `_` in
/// front of a text that cannot start an identifier.
pub open spec fn finished_identifier(t: Seq<char>) -> Seq<char> {
    if t.len() == 0 {
        seq!['_']
    } else if identifier_start(t[0]) {
        t
    } else {
        seq!['_'] + t
    }
}

/// Makes an identifier of the camel-cased text.
pub fn finish_identifier(replaced: &str) -> (r: String)
    ensures
        r@ == finished_identifier(replaced@),
{
    if replaced.unicode_len() == 0 {
        let r = String::from_str("_");
        proof {
            reveal_strlit("_");
        }
        return r;
    }
    let first = replaced.get_char(0);
    if ('a' <= first && first <= 'z') || ('A' <= first && first <= 'Z') || first == '_' || first == '$' {
        return replaced.to_string();
    }
    let mut r = String::from_str("_");
    r.append(replaced);
    proof {
        reveal_strlit("_");
        assert(r@ =~= seq!['_'] + replaced@);
    }
    r
}

/// The runs of characters that cannot stand in an identifier, each with
/// the character after it.
pub open spec fn separator_pattern() -> Seq<char> {
    "[^a-zA-Z0-9_$]+(.)?"@
}

/// The identifier of a module's factory function: each run of characters
/// that cannot stand in an identifier is dropped and the character after
/// it is made uppercase; then `finish_identifier`.
pub fn sanitize_identifier(name: &str) -> (r: String)
    ensures
        r@ == finished_identifier(separators_replaced(name@)),
{
    match replace_with_upper_group("[^a-zA-Z0-9_$]+(.)?", name) {
        Some(t) => finish_identifier(t.as_str()),
        None => {
            assert(false);
            String::new()
        },
    }
}

/// The metadata of one output.
pub open spec fn output_json(o: OutputSchema) -> Json {
    Json::Object(seq![
        ("default"@, Json::Bool(o.default)),
        ("name"@, Json::Str(o.name@)),
        ("polyphonic"@, Json::Bool(o.polyphonic)),
    ])
}

pub open spec fn outputs_json(s: Seq<OutputSchema>) -> Seq<Json>
    decreases s.len(),
{
    if s.len() == 0 {
        Seq::empty()
    } else {
        outputs_json(s.drop_last()).push(output_json(s.last()))
    }
}

pub open spec fn texts_json(s: Seq<Seq<char>>) -> Seq<Json>
    decreases s.len(),
{
    if s.len() == 0 {
        Seq::empty()
    } else {
        texts_json(s.drop_last()).push(Json::Str(s.last()))
    }
}

pub open spec fn arg_names(s: ModuleSchema) -> Seq<Seq<char>> {
    s.positional_args@.map_values(|p: crate::validation::PositionalArg| p.name@)
}

/// The metadata of one module, with the identifier of its factory.
pub open spec fn module_json(s: ModuleSchema, factory: Seq<char>) -> Json {
    Json::Object(seq![
        ("factoryName"@, Json::Str(factory)),
        ("moduleName"@, Json::Str(s.name@)),
        ("namespacePath"@, Json::Array(texts_json(namespace_of(s.name@)))),
        ("outputs"@, Json::Array(outputs_json(s.outputs@))),
        ("positionalArgNames"@, Json::Array(texts_json(arg_names(s)))),
    ])
}

/// The summary the factory files embed for a module.
pub open spec fn summary_json(s: ModuleSchema) -> Json {
    Json::Object(seq![
        ("name"@, Json::Str(s.name@)),
        ("outputs"@, Json::Array(outputs_json(s.outputs@))),
        ("positionalArgs"@, Json::Array(texts_json(arg_names(s)))),
    ])
}

fn push_member(members: &mut Vec<(String, JsonValue)>, key: &str, v: JsonValue)
    ensures
        members_view(final(members)@) == members_view(old(members)@).push((key@, json_view(v))),
{
    let ghost v_view = json_view(v);
    members.push((key.to_string(), v));
    assert(members@.drop_last() =~= old(members)@);
}

fn push_item(items: &mut Vec<JsonValue>, v: JsonValue)
    ensures
        list_view(final(items)@) == list_view(old(items)@).push(json_view(v)),
{
    items.push(v);
    assert(items@.drop_last() =~= old(items)@);
}

fn str_value(s: &str) -> (r: JsonValue)
    ensures
        json_view(r) == Json::Str(s@),
{
    JsonValue::Str(s.to_string())
}

fn outputs_value(outputs: &Vec<OutputSchema>) -> (r: JsonValue)
    ensures
        json_view(r) == Json::Array(outputs_json(outputs@)),
{
    let mut items: Vec<JsonValue> = Vec::new();
    let mut i: usize = 0;
    while i < outputs.len()
        invariant
            i <= outputs@.len(),
            list_view(items@) == outputs_json(outputs@.take(i as int)),
        decreases outputs@.len() - i,
    {
        let o = &outputs[i];
        let mut members: Vec<(String, JsonValue)> = Vec::new();
        push_member(&mut members, "default", JsonValue::Bool(o.default));
        push_member(&mut members, "name", str_value(o.name.as_str()));
        push_member(&mut members, "polyphonic", JsonValue::Bool(o.polyphonic));
        assert(members_view(members@) =~= seq![
            ("default"@, Json::Bool(o.default)),
            ("name"@, Json::Str(o.name@)),
            ("polyphonic"@, Json::Bool(o.polyphonic)),
        ]);
        push_item(&mut items, JsonValue::Object(members));
        assert(outputs@.take(i + 1).drop_last() =~= outputs@.take(i as int));
        i = i + 1;
    }
    assert(outputs@.take(i as int) =~= outputs@);
    JsonValue::Array(items)
}

fn texts_value(texts: &Vec<String>) -> (r: JsonValue)
    ensures
        json_view(r) == Json::Array(texts_json(crate::json::string_views(texts@))),
{
    let ghost views = crate::json::string_views(texts@);
    let mut items: Vec<JsonValue> = Vec::new();
    let mut i: usize = 0;
    while i < texts.len()
        invariant
            views == crate::json::string_views(texts@),
            i <= texts@.len(),
            list_view(items@) == texts_json(views.take(i as int)),
        decreases texts@.len() - i,
    {
        push_item(&mut items, str_value(texts[i].as_str()));
        assert(views.take(i + 1).drop_last() =~= views.take(i as int));
        i = i + 1;
    }
    assert(views.take(i as int) =~= views);
    JsonValue::Array(items)
}

fn arg_names_of(s: &ModuleSchema) -> (r: Vec<String>)
    ensures
        crate::json::string_views(r@) == arg_names(*s),
{
    let mut names: Vec<String> = Vec::new();
    let mut i: usize = 0;
    while i < s.positional_args.len()
        invariant
            i <= s.positional_args@.len(),
            names@.len() == i,
            crate::json::string_views(names@) == arg_names(*s).take(i as int),
        decreases s.positional_args@.len() - i,
    {
        let ghost before = names@;
        let n = s.positional_args[i].name.clone();
        assert(n@ == s.positional_args@[i as int].name@);
        names.push(n);
        assert forall|k: int| 0 <= k < i + 1 implies #[trigger] crate::json::string_views(names@)[k] == arg_names(*s).take(i + 1)[k] by {
            if k < i {
                assert(names@[k] == before[k]);
                assert(crate::json::string_views(before)[k] == arg_names(*s).take(i as int)[k]);
            }
        }
        assert(crate::json::string_views(names@) =~= arg_names(*s).take(i + 1));
        i = i + 1;
    }
    assert(arg_names(*s).take(i as int) =~= arg_names(*s));
    names
}

/// The summary of a module embedded in the factory files.
pub fn schema_metadata_summary(schema: &ModuleSchema) -> (r: JsonValue)
    ensures
        json_view(r) == summary_json(*schema),
{
    let mut members: Vec<(String, JsonValue)> = Vec::new();
    push_member(&mut members, "name", str_value(schema.name.as_str()));
    push_member(&mut members, "outputs", outputs_value(&schema.outputs));
    let args = arg_names_of(schema);
    push_member(&mut members, "positionalArgs", texts_value(&args));
    assert(members_view(members@) =~= seq![
        ("name"@, Json::Str(schema.name@)),
        ("outputs"@, Json::Array(outputs_json(schema.outputs@))),
        ("positionalArgs"@, Json::Array(texts_json(arg_names(*schema)))),
    ]);
    JsonValue::Object(members)
}

fn module_value(schema: &ModuleSchema, factory: &str) -> (r: JsonValue)
    ensures
        json_view(r) == module_json(*schema, factory@),
{
    let mut members: Vec<(String, JsonValue)> = Vec::new();
    push_member(&mut members, "factoryName", str_value(factory));
    push_member(&mut members, "moduleName", str_value(schema.name.as_str()));
    let ns = namespace_path(schema.name.as_str());
    push_member(&mut members, "namespacePath", texts_value(&ns));
    push_member(&mut members, "outputs", outputs_value(&schema.outputs));
    let args = arg_names_of(schema);
    push_member(&mut members, "positionalArgNames", texts_value(&args));
    assert(members_view(members@) =~= seq![
        ("factoryName"@, Json::Str(factory@)),
        ("moduleName"@, Json::Str(schema.name@)),
        ("namespacePath"@, Json::Array(texts_json(namespace_of(schema.name@)))),
        ("outputs"@, Json::Array(outputs_json(schema.outputs@))),
        ("positionalArgNames"@, Json::Array(texts_json(arg_names(*schema)))),
    ]);
    JsonValue::Object(members)
}

/// The metadata of one module, with the identifier of its factory.
pub fn module_metadata(schema: &ModuleSchema) -> (r: JsonValue)
    ensures
        json_view(r) == module_json(*schema, factory_of(*schema)),
{
    let f = sanitize_identifier(schema.name.as_str());
    module_value(schema, f.as_str())
}

/// `order` lists the places `0..names.len()` each once, in string order
/// of the names, places with equal names in their own order.
pub open spec fn ordered_by_name(names: Seq<Seq<char>>, order: Seq<usize>) -> bool {
    &&& order.len() == names.len()
    &&& forall|i: int| 0 <= i < order.len() ==> (#[trigger] order[i]) < names.len()
    &&& forall|i: int, j: int| 0 <= i < j < order.len() ==> #[trigger] order[i] != #[trigger] order[j]
    &&& forall|i: int, j: int| 0 <= i < j < order.len() ==> name_before(names, #[trigger] order[i] as int, #[trigger] order[j] as int)
}

/// Name `a` comes before name `b`: a smaller name, or the same name earlier.
pub open spec fn name_before(names: Seq<Seq<char>>, a: int, b: int) -> bool {
    lex_lt(names[a], names[b]) || (names[a] == names[b] && a < b)
}

proof fn lemma_lex_le_lt(a: Seq<char>, b: Seq<char>, c: Seq<char>)
    requires
        lex_lt(a, b) || a == b,
        lex_lt(b, c) || b == c,
        lex_lt(a, b) || lex_lt(b, c),
    ensures
        lex_lt(a, c),
{
    if lex_lt(a, b) && lex_lt(b, c) {
        lemma_lex_transitive(a, b, c);
    }
}

/// The places of `names` in string order; equal names keep their order.
pub fn order_by_name(names: &Vec<String>) -> (r: Vec<usize>)
    ensures
        ordered_by_name(crate::json::string_views(names@), r@),
{
    let ghost ns = crate::json::string_views(names@);
    let n = names.len();
    let mut order: Vec<usize> = Vec::new();
    let mut k: usize = 0;
    while k < n
        invariant
            n == names@.len(),
            ns == crate::json::string_views(names@),
            ns.len() == n,
            k <= n,
            order@.len() == k,
            forall|i: int| 0 <= i < order@.len() ==> (#[trigger] order@[i]) < k,
            forall|i: int, j: int| 0 <= i < j < order@.len() ==> #[trigger] order@[i] != #[trigger] order@[j],
            forall|i: int, j: int| 0 <= i < j < order@.len() ==> name_before(ns, #[trigger] order@[i] as int, #[trigger] order@[j] as int),
        decreases n - k,
    {
        let key = names[k].as_str();
        assert(key@ == ns[k as int]);
        let mut p: usize = 0;
        while p < order.len() && !str_lt(key, names[order[p]].as_str())
            invariant
                n == names@.len(),
                ns == crate::json::string_views(names@),
                k < n,
                key@ == ns[k as int],
                p <= order@.len(),
                forall|i: int| 0 <= i < order@.len() ==> (#[trigger] order@[i]) < k,
                forall|i: int| 0 <= i < p ==> !lex_lt(key@, ns[#[trigger] order@[i] as int]),
            decreases order@.len() - p,
        {
            assert(names@[order@[p as int] as int]@ == ns[order@[p as int] as int]);
            p = p + 1;
        }
        proof {
            if p < order@.len() {
                assert(names@[order@[p as int] as int]@ == ns[order@[p as int] as int]);
                assert(lex_lt(ns[k as int], ns[order@[p as int] as int]));
            }
        }
        let ghost before = order@;
        order.insert(p, k);
        proof {
            let after = order@;
            assert(after =~= before.insert(p as int, k));
            // Every earlier place holds a name no greater than the key.
            assert forall|i: int| 0 <= i < p implies lex_lt(ns[before[i] as int], ns[k as int]) || ns[before[i] as int] == ns[k as int] by {
                if ns[before[i] as int] != ns[k as int] {
                    lemma_lex_total(ns[before[i] as int], ns[k as int]);
                }
            }
            assert forall|i: int| 0 <= i < after.len() implies (#[trigger] after[i]) < k + 1 by {
                if i < p {
                    assert(after[i] == before[i]);
                } else if i > p {
                    assert(after[i] == before[i - 1]);
                }
            }
            assert forall|a: int, b: int| 0 <= a < b < after.len() implies #[trigger] after[a] != #[trigger] after[b] by {
                if a < p && b < p {
                    assert(after[a] == before[a] && after[b] == before[b]);
                } else if a < p && b == p {
                    assert(after[a] == before[a]);
                } else if a < p {
                    assert(after[a] == before[a] && after[b] == before[b - 1]);
                } else if a == p {
                    assert(after[b] == before[b - 1]);
                } else {
                    assert(after[a] == before[a - 1] && after[b] == before[b - 1]);
                }
            }
            assert forall|a: int, b: int| 0 <= a < b < after.len() implies name_before(ns, #[trigger] after[a] as int, #[trigger] after[b] as int) by {
                if a < p && b < p {
                    assert(after[a] == before[a] && after[b] == before[b]);
                } else if a < p && b == p {
                    assert(after[a] == before[a]);
                } else if a < p {
                    assert(after[a] == before[a] && after[b] == before[b - 1]);
                    let x = ns[before[a] as int];
                    let y = ns[before[b - 1] as int];
                    let z = ns[before[p as int] as int];
                    if b - 1 > p {
                        assert(name_before(ns, before[p as int] as int, before[b - 1] as int));
                        lemma_lex_le_lt(ns[k as int], z, y);
                    }
                    lemma_lex_le_lt(x, ns[k as int], y);
                } else if a == p {
                    assert(after[b] == before[b - 1]);
                    if b - 1 > p {
                        assert(name_before(ns, before[p as int] as int, before[b - 1] as int));
                        lemma_lex_le_lt(ns[k as int], ns[before[p as int] as int], ns[before[b - 1] as int]);
                    }
                } else {
                    assert(after[a] == before[a - 1] && after[b] == before[b - 1]);
                }
            }
        }
        k = k + 1;
    }
    order
}

/// The factory identifier of a module, where the regex crate takes the pattern.
pub open spec fn factory_of(s: ModuleSchema) -> Seq<char> {
    finished_identifier(separators_replaced(s.name@))
}

pub open spec fn schema_names(s: Seq<ModuleSchema>) -> Seq<Seq<char>> {
    s.map_values(|m: ModuleSchema| m.name@)
}

/// The metadata document: the modules' metadata sorted by module name
/// (equal names in their given order).
pub fn render_metadata(schemas: &Vec<ModuleSchema>) -> (r: JsonValue)
    ensures
        exists|order: Seq<usize>| ordered_by_name(schema_names(schemas@), order)
            && json_view(r) == Json::Array(Seq::new(schemas@.len(), |i: int| module_json(
                schemas@[order[i] as int],
                factory_of(schemas@[order[i] as int]),
            ))),
{
    let mut names: Vec<String> = Vec::new();
    let mut factories: Vec<String> = Vec::new();
    let mut i: usize = 0;
    while i < schemas.len()
        invariant
            i <= schemas@.len(),
            names@.len() == i,
            factories@.len() == i,
            forall|j: int| 0 <= j < i ==> #[trigger] names@[j]@ == schemas@[j].name@,
            forall|j: int| 0 <= j < i ==> factory_of(#[trigger] schemas@[j]) == factories@[j]@,
        decreases schemas@.len() - i,
    {
        factories.push(sanitize_identifier(schemas[i].name.as_str()));
        names.push(schemas[i].name.clone());
        i = i + 1;
    }
    assert(crate::json::string_views(names@) =~= schema_names(schemas@));
    let order = order_by_name(&names);
    let ghost want = Seq::new(schemas@.len(), |i: int| module_json(
        schemas@[order@[i] as int],
        factory_of(schemas@[order@[i] as int]),
    ));
    let mut items: Vec<JsonValue> = Vec::new();
    let mut k: usize = 0;
    while k < order.len()
        invariant
            order@.len() == schemas@.len(),
            factories@.len() == schemas@.len(),
            forall|j: int| 0 <= j < schemas@.len() ==> factory_of(#[trigger] schemas@[j]) == factories@[j]@,
            forall|j: int| 0 <= j < order@.len() ==> (#[trigger] order@[j]) < schemas@.len(),
            k <= order@.len(),
            want == Seq::new(schemas@.len(), |i: int| module_json(
                schemas@[order@[i] as int],
                factory_of(schemas@[order@[i] as int]),
            )),
            list_view(items@) == want.take(k as int),
        decreases order@.len() - k,
    {
        let idx = order[k];
        let v = module_value(&schemas[idx], factories[idx].as_str());
        assert(factory_of(schemas@[idx as int]) == factories@[idx as int]@);
        push_item(&mut items, v);
        assert(list_view(items@) =~= want.take(k + 1));
        k = k + 1;
    }
    assert(want.take(k as int) =~= want);
    proof {
        assert(ordered_by_name(schema_names(schemas@), order@));
    }
    JsonValue::Array(items)
}

} // verus!
