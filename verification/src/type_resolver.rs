//! JSON Schema to TypeScript type expressions, for the generated DSL
//! factories: `Signal`, `PolySignal`, `MonoSignal`, `Buffer` and `Table`
//! definitions become the runtime types of the DSL, enums become literal
//! unions, objects and arrays become their TypeScript forms.

use vstd::prelude::*;
use crate::json::{JsonValue, json_text, member, member_str, get_member, get_member_str, push_quoted, string_views, to_json_string};
use crate::text::{join2, join3, str_eq, starts_with, push_char};

verus! {

/// Why a schema could not be turned into a type.
pub enum ResolveError {
    UnsupportedRef(String),
    MissingRef(String),
    UnsupportedSchema(String),
}

/// The kind of a resolution problem.
#[derive(Clone, Copy, Debug, PartialEq, Eq, Structural)]
pub enum ErrorKind {
    UnsupportedRef,
    MissingRef,
    UnsupportedSchema,
}

/// A resolution problem as text.
pub struct TypeErr {
    pub kind: ErrorKind,
    pub detail: Seq<char>,
}

impl ResolveError {
    pub open spec fn view_err(self) -> TypeErr {
        match self {
            ResolveError::UnsupportedRef(r) => TypeErr { kind: ErrorKind::UnsupportedRef, detail: r@ },
            ResolveError::MissingRef(r) => TypeErr { kind: ErrorKind::MissingRef, detail: r@ },
            ResolveError::UnsupportedSchema(s) => TypeErr { kind: ErrorKind::UnsupportedSchema, detail: s@ },
        }
    }

    pub open spec fn text(self) -> Seq<char> {
        match self {
            ResolveError::UnsupportedRef(r) => "Unsupported $ref: "@ + r@,
            ResolveError::MissingRef(r) => "Unresolved $ref: "@ + r@,
            ResolveError::UnsupportedSchema(s) => "Unsupported schema: "@ + s@,
        }
    }

    /// The problem as a sentence.
    pub fn to_string(&self) -> (r: String)
        ensures
            r@ == self.text(),
    {
        match self {
            ResolveError::UnsupportedRef(r) => join2("Unsupported $ref: ", r.as_str()),
            ResolveError::MissingRef(r) => join2("Unresolved $ref: ", r.as_str()),
            ResolveError::UnsupportedSchema(s) => join2("Unsupported schema: ", s.as_str()),
        }
    }
}

pub open spec fn unsupported(detail: Seq<char>) -> TypeErr {
    TypeErr { kind: ErrorKind::UnsupportedSchema, detail }
}

/// What a `$ref` resolves to: one of the runtime types, or a definition.
pub enum ResolvedRef<'a> {
    Signal,
    PolySignal,
    MonoSignal,
    Buffer,
    Table,
    Schema(&'a JsonValue),
}

/// What a `$ref` resolves to, as a value.
pub enum RefTarget {
    Signal,
    PolySignal,
    MonoSignal,
    Buffer,
    Table,
    Schema(JsonValue),
}

impl<'a> ResolvedRef<'a> {
    pub open spec fn target(self) -> RefTarget {
        match self {
            ResolvedRef::Signal => RefTarget::Signal,
            ResolvedRef::PolySignal => RefTarget::PolySignal,
            ResolvedRef::MonoSignal => RefTarget::MonoSignal,
            ResolvedRef::Buffer => RefTarget::Buffer,
            ResolvedRef::Table => RefTarget::Table,
            ResolvedRef::Schema(v) => RefTarget::Schema(*v),
        }
    }
}

/// The member `key` of an object value.
pub open spec fn field(v: JsonValue, key: Seq<char>) -> Option<JsonValue> {
    match v {
        JsonValue::Object(o) => member(o@, key),
        _ => None,
    }
}

/// The member `key` of an object value, when it is a string.
pub open spec fn field_str(v: JsonValue, key: Seq<char>) -> Option<Seq<char>> {
    match field(v, key) {
        Some(JsonValue::Str(s)) => Some(s@),
        _ => None,
    }
}

/// The runtime type a definition name stands for.
pub open spec fn sentinel(name: Seq<char>) -> Option<RefTarget> {
    if name == "Signal"@ {
        Some(RefTarget::Signal)
    } else if name == "PolySignal"@ {
        Some(RefTarget::PolySignal)
    } else if name == "MonoSignal"@ {
        Some(RefTarget::MonoSignal)
    } else if name == "Buffer"@ {
        Some(RefTarget::Buffer)
    } else if name == "Table"@ {
        Some(RefTarget::Table)
    } else {
        None
    }
}

pub open spec fn defs_prefix() -> Seq<char> {
    "#/$defs/"@
}

/// What `reference` resolves to against the root schema's `$defs`: the
/// bare names `Signal`, `Buffer` and `Table`, a `#/$defs/` name of one of
/// the runtime types, a definition whose `title` names one, or the
/// definition itself.
pub open spec fn resolve(reference: Seq<char>, root: JsonValue) -> Result<RefTarget, TypeErr> {
    if reference == "Signal"@ {
        Ok(RefTarget::Signal)
    } else if reference == "Buffer"@ {
        Ok(RefTarget::Buffer)
    } else if reference == "Table"@ {
        Ok(RefTarget::Table)
    } else if !(defs_prefix().len() <= reference.len() && reference.take(defs_prefix().len() as int) == defs_prefix()) {
        Err(TypeErr { kind: ErrorKind::UnsupportedRef, detail: reference })
    } else {
        let name = reference.skip(defs_prefix().len() as int);
        if sentinel(name) is Some {
            Ok(sentinel(name)->Some_0)
        } else {
            match field(root, "$defs"@) {
                Some(JsonValue::Object(defs)) => match member(defs@, name) {
                    Some(resolved) => match field_str(resolved, "title"@) {
                        Some(title) => if sentinel(title) is Some {
                            Ok(sentinel(title)->Some_0)
                        } else {
                            Ok(RefTarget::Schema(resolved))
                        },
                        None => Ok(RefTarget::Schema(resolved)),
                    },
                    None => Err(TypeErr { kind: ErrorKind::MissingRef, detail: reference }),
                },
                _ => Err(TypeErr { kind: ErrorKind::MissingRef, detail: reference }),
            }
        }
    }
}

/// The member `key` of an object value.
fn get_field<'a>(v: &'a JsonValue, key: &str) -> (r: Option<&'a JsonValue>)
    ensures
        match field(*v, key@) {
            Some(x) => r == Some(&x),
            None => r is None,
        },
{
    match v {
        JsonValue::Object(o) => get_member(o, key),
        _ => None,
    }
}

/// The member `key` of an object value, when it is a string.
fn get_field_str<'a>(v: &'a JsonValue, key: &str) -> (r: Option<&'a String>)
    ensures
        match field_str(*v, key@) {
            Some(s) => r matches Some(t) && t@ == s,
            None => r is None,
        },
{
    match get_field(v, key) {
        Some(JsonValue::Str(s)) => Some(s),
        _ => None,
    }
}

/// The runtime type a definition name stands for.
fn sentinel_of<'a>(name: &str) -> (r: Option<ResolvedRef<'a>>)
    ensures
        match sentinel(name@) {
            Some(t) => r matches Some(x) && x.target() == t,
            None => r is None,
        },
{
    if str_eq(name, "Signal") {
        Some(ResolvedRef::Signal)
    } else if str_eq(name, "PolySignal") {
        Some(ResolvedRef::PolySignal)
    } else if str_eq(name, "MonoSignal") {
        Some(ResolvedRef::MonoSignal)
    } else if str_eq(name, "Buffer") {
        Some(ResolvedRef::Buffer)
    } else if str_eq(name, "Table") {
        Some(ResolvedRef::Table)
    } else {
        None
    }
}

/// Resolves a `$ref` against the root schema's `$defs`.
pub fn resolve_ref<'a>(reference: &str, root_schema: &'a JsonValue) -> (r: Result<ResolvedRef<'a>, ResolveError>)
    ensures
        match resolve(reference@, *root_schema) {
            Ok(t) => r matches Ok(x) && x.target() == t,
            Err(e) => r matches Err(x) && x.view_err() == e,
        },
{
    if str_eq(reference, "Signal") {
        return Ok(ResolvedRef::Signal);
    }
    if str_eq(reference, "Buffer") {
        return Ok(ResolvedRef::Buffer);
    }
    if str_eq(reference, "Table") {
        return Ok(ResolvedRef::Table);
    }
    proof {
        reveal_strlit("#/$defs/");
    }
    if !starts_with(reference, "#/$defs/") {
        return Err(ResolveError::UnsupportedRef(String::from_str(reference)));
    }
    let n = reference.unicode_len();
    let name = reference.substring_char(8, n);
    assert(name@ == reference@.skip(8));
    match sentinel_of(name) {
        Some(t) => {
            return Ok(t);
        },
        None => {},
    }
    let defs = match get_field(root_schema, "$defs") {
        Some(JsonValue::Object(d)) => d,
        _ => {
            return Err(ResolveError::MissingRef(String::from_str(reference)));
        },
    };
    let resolved = match get_member(defs, name) {
        Some(x) => x,
        None => {
            return Err(ResolveError::MissingRef(String::from_str(reference)));
        },
    };
    match get_field_str(resolved, "title") {
        Some(title) => match sentinel_of(title.as_str()) {
            Some(t) => Ok(t),
            None => Ok(ResolvedRef::Schema(resolved)),
        },
        None => Ok(ResolvedRef::Schema(resolved)),
    }
}

// ---------------------------------------------------------------------------
// Type expressions
// ---------------------------------------------------------------------------

/// `parts` joined with `sep` between them.
pub open spec fn join(parts: Seq<Seq<char>>, sep: Seq<char>) -> Seq<char>
    decreases parts.len(),
{
    if parts.len() == 0 {
        Seq::empty()
    } else if parts.len() == 1 {
        parts[0]
    } else {
        join(parts.drop_last(), sep) + sep + parts.last()
    }
}

/// The TypeScript name of a JSON Schema primitive type.
pub open spec fn primitive(t: Seq<char>) -> Seq<char> {
    if t == "integer"@ || t == "number"@ {
        "number"@
    } else if t == "string"@ {
        "string"@
    } else if t == "boolean"@ {
        "boolean"@
    } else {
        "any"@
    }
}

/// The TypeScript type of one of the runtime types.
pub open spec fn runtime_type(t: RefTarget) -> Seq<char> {
    match t {
        RefTarget::Signal => "Signal"@,
        RefTarget::PolySignal => "Poly<Signal>"@,
        RefTarget::MonoSignal => "Mono<Signal>"@,
        RefTarget::Buffer => "BufferOutputRef"@,
        RefTarget::Table => "Table"@,
        RefTarget::Schema(_) => Seq::empty(),
    }
}

/// A `oneOf`/`anyOf` variant is kept unless its `type` is the string `null`.
pub open spec fn keeps_variant(v: JsonValue) -> bool {
    field_str(v, "type"@) != Some("null"@)
}

/// The variants that are not `null`, in order.
pub open spec fn non_null(vs: Seq<JsonValue>) -> Seq<JsonValue>
    decreases vs.len(),
{
    if vs.len() == 0 {
        Seq::empty()
    } else if keeps_variant(vs.last()) {
        non_null(vs.drop_last()).push(vs.last())
    } else {
        non_null(vs.drop_last())
    }
}

/// The strings of a `type` array other than `null`, in order.
pub open spec fn non_null_types(ts: Seq<JsonValue>) -> Seq<Seq<char>>
    decreases ts.len(),
{
    if ts.len() == 0 {
        Seq::empty()
    } else {
        let rest = non_null_types(ts.drop_last());
        match ts.last() {
            JsonValue::Str(t) => if t@ != "null"@ { rest.push(t@) } else { rest },
            _ => rest,
        }
    }
}

/// Every value is an object with a `const` member.
pub open spec fn all_const(vs: Seq<JsonValue>) -> bool {
    forall|i: int| 0 <= i < vs.len() ==> field(#[trigger] vs[i], "const"@) is Some
}

/// The JSON text of each variant's `const`.
pub open spec fn const_texts(vs: Seq<JsonValue>) -> Seq<Seq<char>> {
    vs.map_values(|v: JsonValue| json_text(field(v, "const"@)->Some_0))
}

/// The type of a `type` array: its one non-null primitive, `any` when
/// there is none, else the union of them.
pub open spec fn type_list_expr(ts: Seq<JsonValue>) -> Seq<char> {
    let nn = non_null_types(ts);
    if nn.len() == 1 {
        primitive(nn[0])
    } else if nn.len() == 0 {
        "any"@
    } else {
        join(nn.map_values(|t: Seq<char>| primitive(t)), " | "@)
    }
}

/// The union of alternative types, where a mix of `Signal` with itself or
/// with `Signal[]` is a polyphonic signal.
pub open spec fn union_type(ts: Seq<Seq<char>>) -> Seq<char> {
    if (forall|i: int| 0 <= i < ts.len() ==> ts[i] == "Signal"@)
        || ((exists|i: int| 0 <= i < ts.len() && ts[i] == "Signal"@)
            && (exists|i: int| 0 <= i < ts.len() && ts[i] == "Signal[]"@)) {
        "Poly<Signal>"@
    } else {
        join(ts, " | "@)
    }
}

/// A property name as a TypeScript key: bare when it is an identifier,
/// else quoted as a JSON string.
pub open spec fn property_key(name: Seq<char>) -> Seq<char> {
    if valid_identifier(name) {
        name
    } else {
        crate::json::quoted(name)
    }
}

pub open spec fn ident_start(c: char) -> bool {
    ('a' <= c <= 'z') || ('A' <= c <= 'Z') || c == '$' || c == '_'
}

pub open spec fn ident_char(c: char) -> bool {
    ident_start(c) || ('0' <= c <= '9')
}

/// An ASCII identifier: a letter, `$` or `_`, then letters, digits, `$` or `_`.
pub open spec fn valid_identifier(name: Seq<char>) -> bool {
    name.len() > 0 && ident_start(name[0]) && forall|i: int| 1 <= i < name.len() ==> ident_char(#[trigger] name[i])
}

/// The value is the JSON string `text`.
pub open spec fn is_text(v: JsonValue, text: Seq<char>) -> bool {
    match v {
        JsonValue::Str(s) => s@ == text,
        _ => false,
    }
}

/// Some value of the list is the JSON string `text`.
pub open spec fn list_has_text(s: Seq<JsonValue>, text: Seq<char>) -> bool {
    exists|i: int| 0 <= i < s.len() && #[trigger] is_text(s[i], text)
}

/// The name is listed as a string in the `required` array.
pub open spec fn required_has(required: Option<JsonValue>, name: Seq<char>) -> bool {
    match required {
        Some(JsonValue::Array(a)) => list_has_text(a@, name),
        _ => false,
    }
}

/// The type expression of a schema node, or `None` when `fuel` nested
/// steps do not suffice (a `$ref` cycle needs unbounded steps).
pub open spec fn type_expr(schema: JsonValue, root: JsonValue, fuel: nat) -> Option<Result<Seq<char>, TypeErr>>
    decreases fuel, 1nat, 0nat,
{
    if fuel == 0 {
        None
    } else {
        let g = (fuel - 1) as nat;
        match schema {
            JsonValue::Object(o) => {
                let m = o@;
                let alts = match member(m, "oneOf"@) {
                    Some(x) => Some(x),
                    None => member(m, "anyOf"@),
                };
                if let Some(JsonValue::Array(vs)) = alts {
                    alternatives_type(non_null(vs@), root, g)
                } else if member(m, "allOf"@) is Some {
                    Some(Ok("any"@))
                } else if let Some(JsonValue::Array(ts)) = member(m, "type"@) {
                    Some(Ok(type_list_expr(ts@)))
                } else if member_str(m, "$ref"@) is Some {
                    match resolve(member_str(m, "$ref"@)->Some_0, root) {
                        Err(e) => Some(Err(e)),
                        Ok(RefTarget::Schema(inner)) => type_expr(inner, root, g),
                        Ok(t) => Some(Ok(runtime_type(t))),
                    }
                } else if let Some(JsonValue::Array(vals)) = member(m, "enum"@) {
                    if vals@.len() == 0 {
                        Some(Err(unsupported("empty enum"@)))
                    } else {
                        Some(Ok(join(vals@.map_values(|v: JsonValue| json_text(v)), " | "@)))
                    }
                } else {
                    shaped_type(m, root, g)
                }
            },
            _ => Some(Err(unsupported("non-object node"@))),
        }
    }
}

/// The type of the non-null `oneOf`/`anyOf` variants: `unknown` for none,
/// the only one's type, a union of literals when all are `const`, else the
/// union of their types.
pub open spec fn alternatives_type(nn: Seq<JsonValue>, root: JsonValue, g: nat) -> Option<Result<Seq<char>, TypeErr>>
    decreases g, 3nat, 0nat,
{
    if nn.len() == 0 {
        Some(Ok("unknown"@))
    } else if nn.len() == 1 {
        type_expr(nn[0], root, g)
    } else if all_const(nn) {
        Some(Ok(join(const_texts(nn), " | "@)))
    } else {
        match types_of(nn, root, g) {
            None => None,
            Some(Err(e)) => Some(Err(e)),
            Some(Ok(ts)) => Some(Ok(union_type(ts))),
        }
    }
}

/// The types of `vs` in order, stopping at the first error.
pub open spec fn types_of(vs: Seq<JsonValue>, root: JsonValue, g: nat) -> Option<Result<Seq<Seq<char>>, TypeErr>>
    decreases g, 2nat, vs.len(),
{
    if vs.len() == 0 {
        Some(Ok(Seq::empty()))
    } else {
        match type_expr(vs[0], root, g) {
            None => None,
            Some(Err(e)) => Some(Err(e)),
            Some(Ok(t)) => match types_of(vs.drop_first(), root, g) {
                None => None,
                Some(Err(e)) => Some(Err(e)),
                Some(Ok(ts)) => Some(Ok(seq![t] + ts)),
            },
        }
    }
}

/// The `key?: type` parts of an object's properties in order, stopping at
/// the first error.
pub open spec fn property_parts(props: Seq<(String, JsonValue)>, required: Option<JsonValue>, root: JsonValue, g: nat)
    -> Option<Result<Seq<Seq<char>>, TypeErr>>
    decreases g, 2nat, props.len(),
{
    if props.len() == 0 {
        Some(Ok(Seq::empty()))
    } else {
        let name = props[0].0@;
        match type_expr(props[0].1, root, g) {
            None => None,
            Some(Err(e)) => Some(Err(e)),
            Some(Ok(t)) => match property_parts(props.drop_first(), required, root, g) {
                None => None,
                Some(Err(e)) => Some(Err(e)),
                Some(Ok(ps)) => Some(Ok(seq![property_key(name) + (if required_has(required, name) { ""@ } else { "?"@ })
                    + ": "@ + t] + ps)),
            },
        }
    }
}

/// The type of a schema object by its `type`: primitives, objects (by
/// their properties), arrays and tuples, and bare `const` values.
pub open spec fn shaped_type(m: Seq<(String, JsonValue)>, root: JsonValue, g: nat) -> Option<Result<Seq<char>, TypeErr>>
    decreases g, 3nat, 0nat,
{
    let ty = member_str(m, "type"@);
    if ty == Some("integer"@) || ty == Some("number"@) {
        Some(Ok("number"@))
    } else if ty == Some("string"@) {
        Some(Ok("string"@))
    } else if ty == Some("boolean"@) {
        Some(Ok("boolean"@))
    } else if ty == Some("object"@) || member(m, "properties"@) is Some {
        match member(m, "properties"@) {
            Some(JsonValue::Object(p)) => if p@.len() == 0 {
                Some(Ok("{}"@))
            } else {
                match property_parts(p@, member(m, "required"@), root, g) {
                    None => None,
                    Some(Err(e)) => Some(Err(e)),
                    Some(Ok(ps)) => Some(Ok("{ "@ + join(ps, "; "@) + " }"@)),
                }
            },
            _ => Some(Ok("{}"@)),
        }
    } else if ty == Some("array"@) {
        if let Some(JsonValue::Array(items)) = member(m, "prefixItems"@) {
            match types_of(items@, root, g) {
                None => None,
                Some(Err(e)) => Some(Err(e)),
                Some(Ok(ts)) => Some(Ok("["@ + join(ts, ", "@) + "]"@)),
            }
        } else if member(m, "items"@) is Some {
            match type_expr(member(m, "items"@)->Some_0, root, g) {
                None => None,
                Some(Err(e)) => Some(Err(e)),
                Some(Ok(t)) => Some(Ok(t + "[]"@)),
            }
        } else {
            Some(Err(unsupported("array missing items/prefixItems"@)))
        }
    } else if ty is None {
        match member(m, "const"@) {
            Some(c) => Some(Ok(json_text(c))),
            None => Some(Err(unsupported("missing type"@))),
        }
    } else {
        Some(Err(unsupported("unsupported scalar type: "@ + ty->Some_0)))
    }
}

pub open spec fn outcome(r: Result<String, ResolveError>) -> Result<Seq<char>, TypeErr> {
    match r {
        Ok(s) => Ok(s@),
        Err(e) => Err(e.view_err()),
    }
}

/// Joins `parts` with `sep` between them.
fn join_strings(parts: &Vec<String>, sep: &str) -> (r: String)
    ensures
        r@ == join(string_views(parts@), sep@),
{
    let mut out = String::new();
    let mut i: usize = 0;
    while i < parts.len()
        invariant
            i <= parts@.len(),
            out@ == join(string_views(parts@.take(i as int)), sep@),
        decreases parts@.len() - i,
    {
        proof {
            assert(string_views(parts@.take(i + 1)).drop_last() =~= string_views(parts@.take(i as int)));
            assert(string_views(parts@.take(i + 1)).last() == parts@[i as int]@);
        }
        if i > 0 {
            out.append(sep);
        }
        out.append(parts[i].as_str());
        i = i + 1;
        proof {
            if i == 1 {
                assert(string_views(parts@.take(1)) =~= seq![parts@[0]@]);
            }
        }
    }
    proof {
        assert(parts@.take(i as int) =~= parts@);
    }
    out
}

/// The TypeScript name of a JSON Schema primitive type.
pub fn map_primitive(t: &str) -> (r: &'static str)
    ensures
        r@ == primitive(t@),
{
    if str_eq(t, "integer") || str_eq(t, "number") {
        "number"
    } else if str_eq(t, "string") {
        "string"
    } else if str_eq(t, "boolean") {
        "boolean"
    } else {
        "any"
    }
}

/// Whether `name` is an ASCII identifier: a letter, `$` or `_`, then
/// letters, digits, `$` or `_`.
pub fn is_valid_identifier(name: &str) -> (r: bool)
    ensures
        r == valid_identifier(name@),
{
    let n = name.unicode_len();
    if n == 0 {
        return false;
    }
    let first = name.get_char(0);
    if !((first >= 'a' && first <= 'z') || (first >= 'A' && first <= 'Z') || first == '$' || first == '_') {
        return false;
    }
    let mut i: usize = 1;
    while i < n
        invariant
            n == name@.len(),
            1 <= i <= n,
            forall|k: int| 1 <= k < i ==> ident_char(#[trigger] name@[k]),
        decreases n - i,
    {
        let c = name.get_char(i);
        if !((c >= 'a' && c <= 'z') || (c >= 'A' && c <= 'Z') || c == '$' || c == '_' || (c >= '0' && c <= '9')) {
            return false;
        }
        i = i + 1;
    }
    true
}

/// A property name as a TypeScript object key.
pub fn render_property_key(name: &str) -> (r: String)
    ensures
        r@ == property_key(name@),
{
    if is_valid_identifier(name) {
        String::from_str(name)
    } else {
        let mut out = String::new();
        push_quoted(&mut out, name);
        out
    }
}

/// The TypeScript type of a `type` array.
fn type_list(ts: &Vec<JsonValue>) -> (r: String)
    ensures
        r@ == type_list_expr(ts@),
{
    let mut names: Vec<String> = Vec::new();
    let mut i: usize = 0;
    while i < ts.len()
        invariant
            i <= ts@.len(),
            string_views(names@) == non_null_types(ts@.take(i as int)),
        decreases ts@.len() - i,
    {
        proof {
            assert(ts@.take(i + 1).drop_last() =~= ts@.take(i as int));
            assert(ts@.take(i + 1).last() == ts@[i as int]);
        }
        match &ts[i] {
            JsonValue::Str(t) => {
                if !str_eq(t.as_str(), "null") {
                    let ghost before = names@;
                    names.push(t.clone());
                    proof {
                        assert(string_views(names@) =~= string_views(before).push(t@));
                    }
                }
            },
            _ => {},
        }
        i = i + 1;
    }
    proof {
        assert(ts@.take(i as int) =~= ts@);
    }
    let nn = names.len();
    if nn == 1 {
        return String::from_str(map_primitive(names[0].as_str()));
    }
    if nn == 0 {
        return String::from_str("any");
    }
    let mut mapped: Vec<String> = Vec::new();
    let mut j: usize = 0;
    while j < nn
        invariant
            nn == names@.len(),
            j <= nn,
            string_views(mapped@) == string_views(names@).map_values(|t: Seq<char>| primitive(t)).take(j as int),
        decreases nn - j,
    {
        let ghost before = mapped@;
        mapped.push(String::from_str(map_primitive(names[j].as_str())));
        proof {
            assert(string_views(mapped@) =~= string_views(before).push(primitive(names@[j as int]@)));
            assert(string_views(names@)[j as int] == names@[j as int]@);
            assert(string_views(mapped@) =~= string_views(names@).map_values(|t: Seq<char>| primitive(t)).take(j + 1));
        }
        j = j + 1;
    }
    proof {
        assert(string_views(names@).map_values(|t: Seq<char>| primitive(t)).take(j as int)
            =~= string_views(names@).map_values(|t: Seq<char>| primitive(t)));
    }
    join_strings(&mapped, " | ")
}

/// A partial result prefixed by the parts already computed.
pub open spec fn after(done: Seq<Seq<char>>, rest: Option<Result<Seq<Seq<char>>, TypeErr>>) -> Option<Result<Seq<Seq<char>>, TypeErr>> {
    match rest {
        Some(Ok(ts)) => Some(Ok(done + ts)),
        other => other,
    }
}

pub open spec fn pick(vs: Seq<JsonValue>, idx: Seq<usize>) -> Seq<JsonValue> {
    idx.map_values(|k: usize| vs[k as int])
}

/// Whether a `oneOf`/`anyOf` variant is kept.
fn keeps(v: &JsonValue) -> (r: bool)
    ensures
        r == keeps_variant(*v),
{
    match get_field_str(v, "type") {
        Some(t) => !str_eq(t.as_str(), "null"),
        None => true,
    }
}

/// The places of the variants that are not `null`.
fn kept_variants(vs: &Vec<JsonValue>) -> (r: Vec<usize>)
    ensures
        forall|k: int| 0 <= k < r@.len() ==> r@[k] < vs@.len(),
        pick(vs@, r@) == non_null(vs@),
{
    let mut out: Vec<usize> = Vec::new();
    let mut i: usize = 0;
    while i < vs.len()
        invariant
            i <= vs@.len(),
            forall|k: int| 0 <= k < out@.len() ==> out@[k] < vs@.len(),
            pick(vs@, out@) == non_null(vs@.take(i as int)),
        decreases vs@.len() - i,
    {
        proof {
            assert(vs@.take(i + 1).drop_last() =~= vs@.take(i as int));
            assert(vs@.take(i + 1).last() == vs@[i as int]);
        }
        if keeps(&vs[i]) {
            let ghost before = out@;
            out.push(i);
            proof {
                assert(pick(vs@, out@) =~= pick(vs@, before).push(vs@[i as int]));
            }
        }
        i = i + 1;
    }
    proof {
        assert(vs@.take(i as int) =~= vs@);
    }
    out
}

/// The types of the values at `idx` in order, stopping at the first error.
fn types_at(vs: &Vec<JsonValue>, idx: &Vec<usize>, root: &JsonValue, Ghost(g): Ghost<nat>) -> (r: Result<Vec<String>, ResolveError>)
    requires
        forall|k: int| 0 <= k < idx@.len() ==> idx@[k] < vs@.len(),
        types_of(pick(vs@, idx@), *root, g) is Some,
    ensures
        types_of(pick(vs@, idx@), *root, g) == Some(match r {
            Ok(ts) => Ok(string_views(ts@)),
            Err(e) => Err(e.view_err()),
        }),
    decreases g, 2nat, 0nat,
{
    let ghost all = pick(vs@, idx@);
    let mut out: Vec<String> = Vec::new();
    let mut i: usize = 0;
    proof {
        assert(all.skip(0) =~= all);
        assert(string_views(out@) =~= Seq::<Seq<char>>::empty());
    }
    while i < idx.len()
        invariant
            i <= idx@.len(),
            all == pick(vs@, idx@),
            forall|k: int| 0 <= k < idx@.len() ==> idx@[k] < vs@.len(),
            types_of(all, *root, g) is Some,
            types_of(all, *root, g) == after(string_views(out@), types_of(all.skip(i as int), *root, g)),
        decreases idx@.len() - i,
    {
        let ghost rest = all.skip(i as int);
        proof {
            assert(rest[0] == vs@[idx@[i as int] as int]);
            assert(rest.drop_first() =~= all.skip(i + 1));
        }
        match type_expr_fuel(&vs[idx[i]], root, Ghost(g)) {
            Err(e) => {
                return Err(e);
            },
            Ok(t) => {
                let ghost before = out@;
                out.push(t);
                proof {
                    assert(string_views(out@) =~= string_views(before).push(t@));
                    match types_of(all.skip(i + 1), *root, g) {
                        Some(Ok(ts)) => {
                            assert(string_views(before) + (seq![t@] + ts) =~= string_views(out@) + ts);
                        },
                        _ => {},
                    }
                }
            },
        }
        i = i + 1;
    }
    proof {
        assert(all.skip(i as int) =~= Seq::<JsonValue>::empty());
        assert(string_views(out@) + Seq::<Seq<char>>::empty() =~= string_views(out@));
    }
    Ok(out)
}

/// The type expression of a schema node with fuel for `fuel` nested steps.
fn type_expr_fuel(schema: &JsonValue, root: &JsonValue, Ghost(fuel): Ghost<nat>) -> (r: Result<String, ResolveError>)
    requires
        type_expr(*schema, *root, fuel) is Some,
    ensures
        type_expr(*schema, *root, fuel) == Some(outcome(r)),
    decreases fuel, 1nat, 0nat,
{
    let ghost g = (fuel - 1) as nat;
    match schema {
        JsonValue::Object(o) => {
            let alts = match get_member(o, "oneOf") {
                Some(x) => Some(x),
                None => get_member(o, "anyOf"),
            };
            match alts {
                Some(JsonValue::Array(vs)) => {
                    return alternatives_expr(vs, root, Ghost(g));
                },
                _ => {},
            }
            if get_member(o, "allOf").is_some() {
                return Ok(String::from_str("any"));
            }
            match get_member(o, "type") {
                Some(JsonValue::Array(ts)) => {
                    return Ok(type_list(ts));
                },
                _ => {},
            }
            match get_member_str(o, "$ref") {
                Some(reference) => {
                    return match resolve_ref(reference.as_str(), root) {
                        Err(e) => Err(e),
                        Ok(ResolvedRef::Schema(inner)) => type_expr_fuel(inner, root, Ghost(g)),
                        Ok(ResolvedRef::Signal) => Ok(String::from_str("Signal")),
                        Ok(ResolvedRef::PolySignal) => Ok(String::from_str("Poly<Signal>")),
                        Ok(ResolvedRef::MonoSignal) => Ok(String::from_str("Mono<Signal>")),
                        Ok(ResolvedRef::Buffer) => Ok(String::from_str("BufferOutputRef")),
                        Ok(ResolvedRef::Table) => Ok(String::from_str("Table")),
                    };
                },
                None => {},
            }
            match get_member(o, "enum") {
                Some(JsonValue::Array(vals)) => {
                    if vals.len() == 0 {
                        return Err(ResolveError::UnsupportedSchema(String::from_str("empty enum")));
                    }
                    let mut texts: Vec<String> = Vec::new();
                    let mut i: usize = 0;
                    while i < vals.len()
                        invariant
                            i <= vals@.len(),
                            string_views(texts@) == vals@.map_values(|v: JsonValue| json_text(v)).take(i as int),
                        decreases vals@.len() - i,
                    {
                        let ghost before = texts@;
                        texts.push(to_json_string(&vals[i]));
                        proof {
                            assert(string_views(texts@) =~= string_views(before).push(json_text(vals@[i as int])));
                            assert(string_views(texts@) =~= vals@.map_values(|v: JsonValue| json_text(v)).take(i + 1));
                        }
                        i = i + 1;
                    }
                    proof {
                        assert(vals@.map_values(|v: JsonValue| json_text(v)).take(i as int)
                            =~= vals@.map_values(|v: JsonValue| json_text(v)));
                    }
                    return Ok(join_strings(&texts, " | "));
                },
                _ => {},
            }
            shaped_expr(o, root, Ghost(g))
        },
        _ => Err(ResolveError::UnsupportedSchema(String::from_str("non-object node"))),
    }
}

/// The type of the non-null `oneOf`/`anyOf` variants of `vs`.
fn alternatives_expr(vs: &Vec<JsonValue>, root: &JsonValue, Ghost(g): Ghost<nat>) -> (r: Result<String, ResolveError>)
    requires
        alternatives_type(non_null(vs@), *root, g) is Some,
    ensures
        alternatives_type(non_null(vs@), *root, g) == Some(outcome(r)),
    decreases g, 3nat, 0nat,
{
    let keep = kept_variants(vs);
    let ghost nn = non_null(vs@);
    assert(nn.len() == keep@.len());
    if keep.len() == 0 {
        return Ok(String::from_str("unknown"));
    }
    if keep.len() == 1 {
        assert(nn[0] == vs@[keep@[0] as int]);
        return type_expr_fuel(&vs[keep[0]], root, Ghost(g));
    }
    let mut all = true;
    let mut i: usize = 0;
    while i < keep.len()
        invariant
            i <= keep@.len(),
            nn == pick(vs@, keep@),
            forall|k: int| 0 <= k < keep@.len() ==> keep@[k] < vs@.len(),
            all == (forall|k: int| 0 <= k < i ==> field(#[trigger] nn[k], "const"@) is Some),
        decreases keep@.len() - i,
    {
        if get_field(&vs[keep[i]], "const").is_none() {
            all = false;
        }
        proof {
            assert(nn[i as int] == vs@[keep@[i as int] as int]);
        }
        i = i + 1;
    }
    if all {
        let mut texts: Vec<String> = Vec::new();
        let mut j: usize = 0;
        while j < keep.len()
            invariant
                j <= keep@.len(),
                nn == pick(vs@, keep@),
                all_const(nn),
                forall|k: int| 0 <= k < keep@.len() ==> keep@[k] < vs@.len(),
                string_views(texts@) == const_texts(nn).take(j as int),
            decreases keep@.len() - j,
        {
            proof {
                assert(nn[j as int] == vs@[keep@[j as int] as int]);
                assert(field(nn[j as int], "const"@) is Some);
            }
            let c = get_field(&vs[keep[j]], "const").unwrap();
            let ghost before = texts@;
            texts.push(to_json_string(c));
            proof {
                assert(string_views(texts@) =~= string_views(before).push(json_text(field(nn[j as int], "const"@)->Some_0)));
                assert(string_views(texts@) =~= const_texts(nn).take(j + 1));
            }
            j = j + 1;
        }
        proof {
            assert(const_texts(nn).take(j as int) =~= const_texts(nn));
        }
        return Ok(join_strings(&texts, " | "));
    }
    let types = match types_at(vs, &keep, root, Ghost(g)) {
        Ok(ts) => ts,
        Err(e) => {
            return Err(e);
        },
    };
    let ghost tv = string_views(types@);
    let mut all_signal = true;
    let mut any_signal = false;
    let mut any_signal_list = false;
    let mut k: usize = 0;
    while k < types.len()
        invariant
            k <= types@.len(),
            tv == string_views(types@),
            all_signal == (forall|x: int| 0 <= x < k ==> tv[x] == "Signal"@),
            any_signal == (exists|x: int| 0 <= x < k && tv[x] == "Signal"@),
            any_signal_list == (exists|x: int| 0 <= x < k && tv[x] == "Signal[]"@),
        decreases types@.len() - k,
    {
        let is_signal = str_eq(types[k].as_str(), "Signal");
        let is_list = str_eq(types[k].as_str(), "Signal[]");
        proof {
            assert(tv[k as int] == types@[k as int]@);
        }
        if !is_signal {
            all_signal = false;
        }
        if is_signal {
            any_signal = true;
        }
        if is_list {
            any_signal_list = true;
        }
        k = k + 1;
    }
    if all_signal || (any_signal && any_signal_list) {
        Ok(String::from_str("Poly<Signal>"))
    } else {
        Ok(join_strings(&types, " | "))
    }
}

/// Whether `name` is listed as a string in the `required` array.
fn is_required(required: Option<&JsonValue>, name: &str) -> (r: bool)
    ensures
        r == required_has(match required { Some(x) => Some(*x), None => None }, name@),
{
    match required {
        Some(JsonValue::Array(a)) => {
            let mut i: usize = 0;
            while i < a.len()
                invariant
                    i <= a@.len(),
                    forall|k: int| 0 <= k < i ==> !#[trigger] is_text(a@[k], name@),
                    (match required { Some(x) => Some(*x), None => None }) == Some(JsonValue::Array(*a)),
                decreases a@.len() - i,
            {
                match &a[i] {
                    JsonValue::Str(s) => {
                        if str_eq(s.as_str(), name) {
                            assert(is_text(a@[i as int], name@));
                            assert(list_has_text(a@, name@));
                            return true;
                        }
                    },
                    _ => {},
                }
                i = i + 1;
            }
            false
        },
        _ => false,
    }
}

/// The `key?: type` parts of an object's properties.
fn property_list(props: &Vec<(String, JsonValue)>, required: Option<&JsonValue>, root: &JsonValue, Ghost(g): Ghost<nat>)
    -> (r: Result<Vec<String>, ResolveError>)
    requires
        property_parts(props@, match required { Some(x) => Some(*x), None => None }, *root, g) is Some,
    ensures
        property_parts(props@, match required { Some(x) => Some(*x), None => None }, *root, g) == Some(match r {
            Ok(ts) => Ok(string_views(ts@)),
            Err(e) => Err(e.view_err()),
        }),
    decreases g, 2nat, 0nat,
{
    let ghost req = match required { Some(x) => Some(*x), None => None };
    let mut out: Vec<String> = Vec::new();
    let mut i: usize = 0;
    proof {
        assert(props@.skip(0) =~= props@);
        assert(string_views(out@) =~= Seq::<Seq<char>>::empty());
    }
    while i < props.len()
        invariant
            i <= props@.len(),
            req == (match required { Some(x) => Some(*x), None => None }),
            property_parts(props@, req, *root, g) is Some,
            property_parts(props@, req, *root, g) == after(string_views(out@), property_parts(props@.skip(i as int), req, *root, g)),
        decreases props@.len() - i,
    {
        let ghost rest = props@.skip(i as int);
        proof {
            assert(rest[0] == props@[i as int]);
            assert(rest.drop_first() =~= props@.skip(i + 1));
        }
        match type_expr_fuel(&props[i].1, root, Ghost(g)) {
            Err(e) => {
                return Err(e);
            },
            Ok(t) => {
                let mut part = render_property_key(props[i].0.as_str());
                if !is_required(required, props[i].0.as_str()) {
                    part.append("?");
                }
                part.append(": ");
                part.append(t.as_str());
                proof {
                    reveal_strlit("");
                    let name = props@[i as int].0@;
                    assert(part@ =~= property_key(name) + (if required_has(req, name) { ""@ } else { "?"@ }) + ": "@ + t@);
                }
                let ghost before = out@;
                out.push(part);
                proof {
                    assert(string_views(out@) =~= string_views(before).push(part@));
                    match property_parts(props@.skip(i + 1), req, *root, g) {
                        Some(Ok(ps)) => {
                            assert(string_views(before) + (seq![part@] + ps) =~= string_views(out@) + ps);
                        },
                        _ => {},
                    }
                }
            },
        }
        i = i + 1;
    }
    proof {
        assert(props@.skip(i as int) =~= Seq::<(String, JsonValue)>::empty());
        assert(string_views(out@) + Seq::<Seq<char>>::empty() =~= string_views(out@));
    }
    Ok(out)
}

/// The type of a schema object by its `type` member.
fn shaped_expr(o: &Vec<(String, JsonValue)>, root: &JsonValue, Ghost(g): Ghost<nat>) -> (r: Result<String, ResolveError>)
    requires
        shaped_type(o@, *root, g) is Some,
    ensures
        shaped_type(o@, *root, g) == Some(outcome(r)),
    decreases g, 3nat, 0nat,
{
    let ty = get_member_str(o, "type");
    let (is_number, is_string, is_boolean, is_object, is_array) = match ty {
        Some(t) => (
            str_eq(t.as_str(), "integer") || str_eq(t.as_str(), "number"),
            str_eq(t.as_str(), "string"),
            str_eq(t.as_str(), "boolean"),
            str_eq(t.as_str(), "object"),
            str_eq(t.as_str(), "array"),
        ),
        None => (false, false, false, false, false),
    };
    if is_number {
        return Ok(String::from_str("number"));
    }
    if is_string {
        return Ok(String::from_str("string"));
    }
    if is_boolean {
        return Ok(String::from_str("boolean"));
    }
    let props = get_member(o, "properties");
    if is_object || props.is_some() {
        return match props {
            Some(JsonValue::Object(p)) => {
                if p.len() == 0 {
                    Ok(String::from_str("{}"))
                } else {
                    match property_list(p, get_member(o, "required"), root, Ghost(g)) {
                        Err(e) => Err(e),
                        Ok(parts) => {
                            let inner = join_strings(&parts, "; ");
                            Ok(join3("{ ", inner.as_str(), " }"))
                        },
                    }
                }
            },
            _ => Ok(String::from_str("{}")),
        };
    }
    if is_array {
        match get_member(o, "prefixItems") {
            Some(JsonValue::Array(items)) => {
                let mut idx: Vec<usize> = Vec::new();
                let mut i: usize = 0;
                while i < items.len()
                    invariant
                        i <= items@.len(),
                        idx@.len() == i,
                        forall|k: int| 0 <= k < i ==> idx@[k] == k,
                    decreases items@.len() - i,
                {
                    idx.push(i);
                    i = i + 1;
                }
                assert(pick(items@, idx@) =~= items@);
                return match types_at(items, &idx, root, Ghost(g)) {
                    Err(e) => Err(e),
                    Ok(ts) => {
                        let inner = join_strings(&ts, ", ");
                        Ok(join3("[", inner.as_str(), "]"))
                    },
                };
            },
            _ => {},
        }
        return match get_member(o, "items") {
            Some(items) => match type_expr_fuel(items, root, Ghost(g)) {
                Err(e) => Err(e),
                Ok(t) => Ok(join2(t.as_str(), "[]")),
            },
            None => Err(ResolveError::UnsupportedSchema(String::from_str("array missing items/prefixItems"))),
        };
    }
    match ty {
        None => match get_member(o, "const") {
            Some(c) => Ok(to_json_string(c)),
            None => Err(ResolveError::UnsupportedSchema(String::from_str("missing type"))),
        },
        Some(t) => Err(ResolveError::UnsupportedSchema(join2("unsupported scalar type: ", t.as_str()))),
    }
}

/// The schema's type resolution ends: some nesting depth suffices.
pub open spec fn resolvable(schema: JsonValue, root: JsonValue) -> bool {
    exists|f: nat| #[trigger] type_expr(schema, root, f) is Some
}

/// The least nesting depth that suffices.
pub open spec fn least_fuel(schema: JsonValue, root: JsonValue) -> nat {
    choose|f: nat| #[trigger] type_expr(schema, root, f) is Some
        && forall|g: nat| g < f ==> #[trigger] type_expr(schema, root, g) is None
}

/// The TypeScript type expression of a schema node, or why there is none.
pub open spec fn schema_type(schema: JsonValue, root: JsonValue) -> Result<Seq<char>, TypeErr> {
    type_expr(schema, root, least_fuel(schema, root))->Some_0
}

proof fn lemma_least_fuel(schema: JsonValue, root: JsonValue, f: nat)
    requires
        type_expr(schema, root, f) is Some,
    ensures
        exists|m: nat| #[trigger] type_expr(schema, root, m) is Some
            && forall|g: nat| g < m ==> #[trigger] type_expr(schema, root, g) is None,
    decreases f,
{
    if exists|g: nat| g < f && #[trigger] type_expr(schema, root, g) is Some {
        let g = choose|g: nat| g < f && #[trigger] type_expr(schema, root, g) is Some;
        lemma_least_fuel(schema, root, g);
    } else {
        assert(forall|g: nat| g < f ==> #[trigger] type_expr(schema, root, g) is None);
    }
}

/// Converts a JSON Schema node into a TypeScript type expression, resolving
/// `$ref`s against `root_schema`: `oneOf`/`anyOf` alternatives (null ones
/// left out), `allOf` as `any`, nullable `type` arrays, the runtime types,
/// `enum` unions, primitives, objects with their optional properties
/// marked, arrays and tuples, and bare `const` values.
pub fn schema_to_type_expr(schema: &JsonValue, root_schema: &JsonValue) -> (r: Result<String, ResolveError>)
    requires
        resolvable(*schema, *root_schema),
    ensures
        outcome(r) == schema_type(*schema, *root_schema),
{
    proof {
        let f = choose|f: nat| #[trigger] type_expr(*schema, *root_schema, f) is Some;
        lemma_least_fuel(*schema, *root_schema, f);
    }
    type_expr_fuel(schema, root_schema, Ghost(least_fuel(*schema, *root_schema)))
}

/// A copy of a JSON value.
pub fn copy_json(v: &JsonValue) -> (r: JsonValue)
    ensures
        json_text(r) == json_text(*v),
    decreases v,
{
    match v {
        JsonValue::Null => JsonValue::Null,
        JsonValue::Bool(b) => JsonValue::Bool(*b),
        JsonValue::Number(t) => JsonValue::Number(t.clone()),
        JsonValue::Str(t) => JsonValue::Str(t.clone()),
        JsonValue::Array(a) => {
            let mut out: Vec<JsonValue> = Vec::new();
            let mut i: usize = 0;
            while i < a.len()
                invariant
                    i <= a@.len(),
                    out@.len() == i,
                    *v == JsonValue::Array(*a),
                    crate::json::list_text(out@) == crate::json::list_text(a@.take(i as int)),
                decreases a@.len() - i,
            {
                proof {
                    assert(decreases_to!(*v => (*v)->Array_0));
                    vstd::std_specs::vec::axiom_vec_index_decreases(*a, i as int);
                    assert(decreases_to!(*a => a[i as int]));
                }
                let c = copy_json(&a[i]);
                let ghost before = out@;
                out.push(c);
                proof {
                    assert(out@.drop_last() =~= before);
                    assert(a@.take(i + 1).drop_last() =~= a@.take(i as int));
                    assert(a@.take(i + 1).last() == a@[i as int]);
                    if i == 0 {
                        assert(out@ =~= seq![c]);
                    }
                }
                i = i + 1;
            }
            proof {
                assert(a@.take(i as int) =~= a@);
            }
            JsonValue::Array(out)
        },
        JsonValue::Object(m) => {
            let mut out: Vec<(String, JsonValue)> = Vec::new();
            let mut i: usize = 0;
            while i < m.len()
                invariant
                    i <= m@.len(),
                    out@.len() == i,
                    *v == JsonValue::Object(*m),
                    crate::json::members_text(out@) == crate::json::members_text(m@.take(i as int)),
                decreases m@.len() - i,
            {
                proof {
                    assert(decreases_to!(*v => (*v)->Object_0));
                    vstd::std_specs::vec::axiom_vec_index_decreases(*m, i as int);
                    assert(decreases_to!(*m => m[i as int]));
                    assert(decreases_to!(m[i as int] => m[i as int].1));
                }
                let c = copy_json(&m[i].1);
                let k = m[i].0.clone();
                let ghost before = out@;
                out.push((k, c));
                proof {
                    assert(out@.drop_last() =~= before);
                    assert(m@.take(i + 1).drop_last() =~= m@.take(i as int));
                    assert(m@.take(i + 1).last() == m@[i as int]);
                    if i == 0 {
                        assert(out@ =~= seq![(k, c)]);
                        assert(m@.take(1) =~= seq![m@[0]]);
                    }
                }
                i = i + 1;
            }
            proof {
                assert(m@.take(i as int) =~= m@);
            }
            JsonValue::Object(out)
        },
    }
}

/// One variant of an enum schema.
pub struct EnumVariantInfo {
    /// The variant's value as JSON text (a string keeps its quotes).
    pub value: String,
    /// The variant's value.
    pub raw_value: JsonValue,
    /// The variant's description, if it has one.
    pub description: Option<String>,
}

/// A variant as text: its value, the text of its raw value, its description.
pub struct VariantText {
    pub value: Seq<char>,
    pub raw: Seq<char>,
    pub description: Option<Seq<char>>,
}

pub open spec fn variant_text(info: EnumVariantInfo) -> VariantText {
    VariantText {
        value: info.value@,
        raw: json_text(info.raw_value),
        description: match info.description { Some(d) => Some(d@), None => None },
    }
}

pub open spec fn const_variant(v: JsonValue) -> VariantText {
    let c = json_text(field(v, "const"@)->Some_0);
    VariantText { value: c, raw: c, description: field_str(v, "description"@) }
}

pub open spec fn enum_value(v: JsonValue) -> VariantText {
    VariantText { value: json_text(v), raw: json_text(v), description: None }
}

/// The variants of an enum schema: following `$ref`s (none for the runtime
/// types), the `oneOf` (else `anyOf`) alternatives when all are `const`,
/// or a non-empty `enum` list; none for anything else. `None` when `fuel`
/// nested references do not suffice.
pub open spec fn enum_variants(schema: JsonValue, root: JsonValue, fuel: nat) -> Option<Result<Option<Seq<VariantText>>, TypeErr>>
    decreases fuel,
{
    if fuel == 0 {
        None
    } else {
        match schema {
            JsonValue::Object(o) => {
                let m = o@;
                let alts = match member(m, "oneOf"@) {
                    Some(x) => Some(x),
                    None => member(m, "anyOf"@),
                };
                if member_str(m, "$ref"@) is Some {
                    match resolve(member_str(m, "$ref"@)->Some_0, root) {
                        Err(e) => Some(Err(e)),
                        Ok(RefTarget::Schema(inner)) => enum_variants(inner, root, (fuel - 1) as nat),
                        Ok(_) => Some(Ok(None)),
                    }
                } else if let Some(JsonValue::Array(vs)) = alts {
                    if all_const(vs@) {
                        Some(Ok(Some(vs@.map_values(|v: JsonValue| const_variant(v)))))
                    } else {
                        Some(Ok(None))
                    }
                } else if let Some(JsonValue::Array(vals)) = member(m, "enum"@) {
                    if vals@.len() > 0 {
                        Some(Ok(Some(vals@.map_values(|v: JsonValue| enum_value(v)))))
                    } else {
                        Some(Ok(None))
                    }
                } else {
                    Some(Ok(None))
                }
            },
            _ => Some(Ok(None)),
        }
    }
}

pub open spec fn variants_outcome(r: Result<Option<Vec<EnumVariantInfo>>, ResolveError>) -> Result<Option<Seq<VariantText>>, TypeErr> {
    match r {
        Ok(Some(v)) => Ok(Some(v@.map_values(|i: EnumVariantInfo| variant_text(i)))),
        Ok(None) => Ok(None),
        Err(e) => Err(e.view_err()),
    }
}

fn enum_variants_fuel(schema: &JsonValue, root: &JsonValue, Ghost(fuel): Ghost<nat>) -> (r: Result<Option<Vec<EnumVariantInfo>>, ResolveError>)
    requires
        enum_variants(*schema, *root, fuel) is Some,
    ensures
        enum_variants(*schema, *root, fuel) == Some(variants_outcome(r)),
    decreases fuel,
{
    let o = match schema {
        JsonValue::Object(o) => o,
        _ => {
            return Ok(None);
        },
    };
    match get_member_str(o, "$ref") {
        Some(reference) => {
            return match resolve_ref(reference.as_str(), root) {
                Err(e) => Err(e),
                Ok(ResolvedRef::Schema(inner)) => enum_variants_fuel(inner, root, Ghost((fuel - 1) as nat)),
                Ok(_) => Ok(None),
            };
        },
        None => {},
    }
    let alts = match get_member(o, "oneOf") {
        Some(x) => Some(x),
        None => get_member(o, "anyOf"),
    };
    match alts {
        Some(JsonValue::Array(vs)) => {
            let mut all = true;
            let mut i: usize = 0;
            while i < vs.len()
                invariant
                    i <= vs@.len(),
                    all == (forall|k: int| 0 <= k < i ==> field(#[trigger] vs@[k], "const"@) is Some),
                decreases vs@.len() - i,
            {
                if get_field(&vs[i], "const").is_none() {
                    all = false;
                }
                i = i + 1;
            }
            if !all {
                return Ok(None);
            }
            let mut out: Vec<EnumVariantInfo> = Vec::new();
            let mut j: usize = 0;
            while j < vs.len()
                invariant
                    j <= vs@.len(),
                    all_const(vs@),
                    out@.map_values(|i: EnumVariantInfo| variant_text(i))
                        == vs@.map_values(|v: JsonValue| const_variant(v)).take(j as int),
                decreases vs@.len() - j,
            {
                proof {
                    assert(field(vs@[j as int], "const"@) is Some);
                }
                let c = get_field(&vs[j], "const").unwrap();
                let description = match get_field_str(&vs[j], "description") {
                    Some(d) => Some(d.clone()),
                    None => None,
                };
                let info = EnumVariantInfo { value: to_json_string(c), raw_value: copy_json(c), description };
                let ghost before = out@;
                out.push(info);
                proof {
                    assert(out@.map_values(|i: EnumVariantInfo| variant_text(i))
                        =~= before.map_values(|i: EnumVariantInfo| variant_text(i)).push(const_variant(vs@[j as int])));
                    assert(out@.map_values(|i: EnumVariantInfo| variant_text(i))
                        =~= vs@.map_values(|v: JsonValue| const_variant(v)).take(j + 1));
                }
                j = j + 1;
            }
            proof {
                assert(vs@.map_values(|v: JsonValue| const_variant(v)).take(j as int)
                    =~= vs@.map_values(|v: JsonValue| const_variant(v)));
            }
            return Ok(Some(out));
        },
        _ => {},
    }
    match get_member(o, "enum") {
        Some(JsonValue::Array(vals)) => {
            if vals.len() == 0 {
                return Ok(None);
            }
            let mut out: Vec<EnumVariantInfo> = Vec::new();
            let mut j: usize = 0;
            while j < vals.len()
                invariant
                    j <= vals@.len(),
                    out@.map_values(|i: EnumVariantInfo| variant_text(i))
                        == vals@.map_values(|v: JsonValue| enum_value(v)).take(j as int),
                decreases vals@.len() - j,
            {
                let info = EnumVariantInfo { value: to_json_string(&vals[j]), raw_value: copy_json(&vals[j]), description: None };
                let ghost before = out@;
                out.push(info);
                proof {
                    assert(out@.map_values(|i: EnumVariantInfo| variant_text(i))
                        =~= before.map_values(|i: EnumVariantInfo| variant_text(i)).push(enum_value(vals@[j as int])));
                    assert(out@.map_values(|i: EnumVariantInfo| variant_text(i))
                        =~= vals@.map_values(|v: JsonValue| enum_value(v)).take(j + 1));
                }
                j = j + 1;
            }
            proof {
                assert(vals@.map_values(|v: JsonValue| enum_value(v)).take(j as int)
                    =~= vals@.map_values(|v: JsonValue| enum_value(v)));
            }
            Ok(Some(out))
        },
        _ => Ok(None),
    }
}

/// The reference chain of the schema ends: some depth suffices.
pub open spec fn variants_resolvable(schema: JsonValue, root: JsonValue) -> bool {
    exists|f: nat| #[trigger] enum_variants(schema, root, f) is Some
}

/// The least reference depth that suffices.
pub open spec fn least_variants_fuel(schema: JsonValue, root: JsonValue) -> nat {
    choose|f: nat| #[trigger] enum_variants(schema, root, f) is Some
        && forall|g: nat| g < f ==> #[trigger] enum_variants(schema, root, g) is None
}

/// The variants found with the least depth that suffices.
pub open spec fn schema_variants(schema: JsonValue, root: JsonValue) -> Result<Option<Seq<VariantText>>, TypeErr> {
    enum_variants(schema, root, least_variants_fuel(schema, root))->Some_0
}

proof fn lemma_least_variants_fuel(schema: JsonValue, root: JsonValue, f: nat)
    requires
        enum_variants(schema, root, f) is Some,
    ensures
        exists|m: nat| #[trigger] enum_variants(schema, root, m) is Some
            && forall|g: nat| g < m ==> #[trigger] enum_variants(schema, root, g) is None,
    decreases f,
{
    if exists|g: nat| g < f && #[trigger] enum_variants(schema, root, g) is Some {
        let g = choose|g: nat| g < f && #[trigger] enum_variants(schema, root, g) is Some;
        lemma_least_variants_fuel(schema, root, g);
    } else {
        assert(forall|g: nat| g < f ==> #[trigger] enum_variants(schema, root, g) is None);
    }
}

/// The variants of `schema` when it is an enum, following `$ref`s against
/// `root_schema`; `None` when it is not an enum or is one of the runtime types.
pub fn get_enum_variants(schema: &JsonValue, root_schema: &JsonValue) -> (r: Result<Option<Vec<EnumVariantInfo>>, ResolveError>)
    requires
        variants_resolvable(*schema, *root_schema),
    ensures
        variants_outcome(r) == schema_variants(*schema, *root_schema),
{
    proof {
        let f0 = choose|f: nat| #[trigger] enum_variants(*schema, *root_schema, f) is Some;
        lemma_least_variants_fuel(*schema, *root_schema, f0);
    }
    enum_variants_fuel(schema, root_schema, Ghost(least_variants_fuel(*schema, *root_schema)))
}

/// The string element `j` of a `required` array is `name`.
pub open spec fn listed_at(a: Seq<JsonValue>, j: int, name: Seq<char>) -> bool {
    a[j] matches JsonValue::Str(s) && s@ == name
}

proof fn lemma_required_listed(required: Option<JsonValue>, name: Seq<char>)
    ensures
        required_has(required, name) == (required matches Some(JsonValue::Array(a))
            && exists|j: int| 0 <= j < a@.len() && #[trigger] listed_at(a@, j, name)),
{
    if let Some(JsonValue::Array(a)) = required {
        if list_has_text(a@, name) {
            let j = choose|j: int| 0 <= j < a@.len() && #[trigger] is_text(a@[j], name);
            assert(listed_at(a@, j, name));
        }
        if exists|j: int| 0 <= j < a@.len() && #[trigger] listed_at(a@, j, name) {
            let j = choose|j: int| 0 <= j < a@.len() && #[trigger] listed_at(a@, j, name);
            assert(is_text(a@[j], name));
        }
    }
}

/// In the type of an object's properties, property `i` is written
/// `key: type` when its name is a string of the schema's `required` array,
/// at whatever position, and `key?: type` otherwise; there is one part per
/// property, in order.
pub proof fn lemma_required_marker(
    props: Seq<(String, JsonValue)>,
    required: Option<JsonValue>,
    root: JsonValue,
    g: nat,
    i: int,
)
    requires
        property_parts(props, required, root, g) matches Some(Ok(ps)),
        0 <= i < props.len(),
    ensures
        ({
            let ps = property_parts(props, required, root, g)->Some_0->Ok_0;
            let name = props[i].0@;
            let listed = required matches Some(JsonValue::Array(a))
                && exists|j: int| 0 <= j < a@.len() && #[trigger] listed_at(a@, j, name);
            &&& ps.len() == props.len()
            &&& type_expr(props[i].1, root, g) matches Some(Ok(t))
            &&& ps[i] == property_key(name) + (if listed { ""@ } else { "?"@ }) + ": "@ + type_expr(props[i].1, root, g)->Some_0->Ok_0
        }),
    decreases props.len(),
{
    lemma_parts_len(props, required, root, g);
    lemma_required_listed(required, props[i].0@);
    if i > 0 {
        lemma_required_marker(props.drop_first(), required, root, g, i - 1);
        assert(props.drop_first()[i - 1] == props[i]);
    }
}

proof fn lemma_parts_len(props: Seq<(String, JsonValue)>, required: Option<JsonValue>, root: JsonValue, g: nat)
    ensures
        property_parts(props, required, root, g) matches Some(Ok(ps)) ==> ps.len() == props.len(),
    decreases props.len(),
{
    if props.len() > 0 {
        lemma_parts_len(props.drop_first(), required, root, g);
    }
}

} // verus!
