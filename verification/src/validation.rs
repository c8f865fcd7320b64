//! Graph-level validation of a patch against the module schemas: every
//! module type must exist, every cable must read an existing output port of
//! an existing module, buffer references must name existing modules, and
//! scopes must trace existing output ports. All problems are collected.

use vstd::prelude::*;
use crate::engine::WellKnownModule;
use crate::graph::{ModuleState, PatchGraph, Scope, ScopeChannel};
use crate::json::{JsonValue, get_member, get_member_str, json_text, member, member_str, to_json_string};
use crate::text::{contains_seq, contains_str, join2, join3, join5, push_char, str_eq};
use vstd::string::StringSliceAdditionalSpecFns;

verus! {

/// An output port declared by a module type.
pub struct OutputSchema {
    pub name: String,
    pub description: String,
    pub polyphonic: bool,
    /// Whether this is the module's default output.
    pub default: bool,
}

/// A parameter that can be given positionally in the DSL.
pub struct PositionalArg {
    pub name: String,
}

/// The schema of one module type.
pub struct ModuleSchema {
    pub name: String,
    pub description: String,
    /// JSON Schema of the module's params.
    pub params_schema: JsonValue,
    pub outputs: Vec<OutputSchema>,
    pub positional_args: Vec<PositionalArg>,
}

/// A validation problem found in a patch.
pub struct ValidationError {
    pub field: String,
    pub message: String,
    pub location: Option<String>,
    /// Human-readable description of the expected input.
    pub expected_type: Option<String>,
    /// JSON text of the value that failed, shortened to about 100 bytes.
    pub actual_value: Option<String>,
}

/// A patch that could not be applied, with its validation problems.
pub struct ApplyPatchError {
    pub message: String,
    pub errors: Option<Vec<ValidationError>>,
}

/// The text content of a validation error.
pub struct ErrorText {
    pub field: Seq<char>,
    pub message: Seq<char>,
    pub location: Option<Seq<char>>,
    pub expected_type: Option<Seq<char>>,
    pub actual_value: Option<Seq<char>>,
}

pub open spec fn opt_text(o: Option<String>) -> Option<Seq<char>> {
    match o {
        Some(s) => Some(s@),
        None => None,
    }
}

impl ValidationError {
    pub open spec fn text(self) -> ErrorText {
        ErrorText {
            field: self.field@,
            message: self.message@,
            location: opt_text(self.location),
            expected_type: opt_text(self.expected_type),
            actual_value: opt_text(self.actual_value),
        }
    }

    /// The error as one line: the field and the message, with the location
    /// in brackets where there is one.
    pub open spec fn display(self) -> Seq<char> {
        match self.location {
            Some(l) => self.field@ + ": "@ + self.message@ + " (at "@ + l@ + ")"@,
            None => self.field@ + ": "@ + self.message@,
        }
    }

    /// The error as one line of text.
    pub fn to_string(&self) -> (r: String)
        ensures
            r@ == self.display(),
    {
        match &self.location {
            Some(l) => {
                let mut t = join5(self.field.as_str(), ": ", self.message.as_str(), " (at ", l.as_str());
                push_char(&mut t, ')');
                proof {
                    reveal_strlit(")");
                }
                t
            },
            None => join3(self.field.as_str(), ": ", self.message.as_str()),
        }
    }
}

pub open spec fn error_texts(s: Seq<ValidationError>) -> Seq<ErrorText> {
    s.map_values(|e: ValidationError| e.text())
}

/// An error with a field, a message and a location only.
pub open spec fn located(field: Seq<char>, message: Seq<char>, location: Option<Seq<char>>) -> ErrorText {
    ErrorText { field, message, location, expected_type: None, actual_value: None }
}

/// Id of the hidden module that carries the audio input into the patch.
pub open spec fn hidden_audio_in_id() -> Seq<char> {
    WellKnownModule::HiddenAudioIn.spec_id()
}

/// Params member holding editor argument spans, which validation skips.
pub open spec fn argument_spans_key() -> Seq<char> {
    "__argument_spans"@
}

// ---------------------------------------------------------------------------
// Lookups
// ---------------------------------------------------------------------------

/// Index of the schema named `name`; the last one wins when several share it.
pub open spec fn schema_index(schemas: Seq<ModuleSchema>, name: Seq<char>) -> Option<int>
    decreases schemas.len(),
{
    if schemas.len() == 0 {
        None
    } else if schemas.last().name@ == name {
        Some(schemas.len() - 1)
    } else {
        schema_index(schemas.drop_last(), name)
    }
}

/// Index of the module with id `id`; the last one wins when several share it.
pub open spec fn module_index(modules: Seq<ModuleState>, id: Seq<char>) -> Option<int>
    decreases modules.len(),
{
    if modules.len() == 0 {
        None
    } else if modules.last().id@ == id {
        Some(modules.len() - 1)
    } else {
        module_index(modules.drop_last(), id)
    }
}

/// The schema declares an output port named `port`.
pub open spec fn has_output(schema: ModuleSchema, port: Seq<char>) -> bool {
    exists|o: int| 0 <= o < schema.outputs@.len() && #[trigger] schema.outputs@[o].name@ == port
}

proof fn lemma_schema_index_range(schemas: Seq<ModuleSchema>, name: Seq<char>)
    ensures
        schema_index(schemas, name) matches Some(i) ==> 0 <= i < schemas.len() && schemas[i].name@ == name,
    decreases schemas.len(),
{
    if schemas.len() > 0 {
        lemma_schema_index_range(schemas.drop_last(), name);
    }
}

proof fn lemma_module_index_range(modules: Seq<ModuleState>, id: Seq<char>)
    ensures
        module_index(modules, id) matches Some(i) ==> 0 <= i < modules.len() && modules[i].id@ == id,
    decreases modules.len(),
{
    if modules.len() > 0 {
        lemma_module_index_range(modules.drop_last(), id);
    }
}

fn find_schema<'a>(schemas: &'a [ModuleSchema], name: &str) -> (r: Option<&'a ModuleSchema>)
    ensures
        match schema_index(schemas@, name@) {
            Some(i) => r == Some(&schemas@[i]),
            None => r is None,
        },
{
    let mut i = schemas.len();
    proof {
        assert(schemas@.take(schemas@.len() as int) =~= schemas@);
    }
    while i > 0
        invariant
            i <= schemas@.len(),
            schema_index(schemas@, name@) == schema_index(schemas@.take(i as int), name@),
        decreases i,
    {
        proof {
            assert(schemas@.take(i as int).drop_last() =~= schemas@.take(i - 1));
            lemma_schema_index_range(schemas@.take(i as int), name@);
        }
        if str_eq(schemas[i - 1].name.as_str(), name) {
            proof {
                assert(schemas@.take(i as int)[i - 1] == schemas@[i - 1]);
            }
            return Some(&schemas[i - 1]);
        }
        i = i - 1;
    }
    None
}

fn find_module<'a>(modules: &'a Vec<ModuleState>, id: &str) -> (r: Option<&'a ModuleState>)
    ensures
        match module_index(modules@, id@) {
            Some(i) => r == Some(&modules@[i]),
            None => r is None,
        },
{
    let mut i = modules.len();
    proof {
        assert(modules@.take(modules@.len() as int) =~= modules@);
    }
    while i > 0
        invariant
            i <= modules@.len(),
            module_index(modules@, id@) == module_index(modules@.take(i as int), id@),
        decreases i,
    {
        proof {
            assert(modules@.take(i as int).drop_last() =~= modules@.take(i - 1));
        }
        if str_eq(modules[i - 1].id.as_str(), id) {
            return Some(&modules[i - 1]);
        }
        i = i - 1;
    }
    None
}

fn schema_has_output(schema: &ModuleSchema, port: &str) -> (r: bool)
    ensures
        r == has_output(*schema, port@),
{
    let mut o: usize = 0;
    while o < schema.outputs.len()
        invariant
            o <= schema.outputs@.len(),
            forall|k: int| 0 <= k < o ==> (#[trigger] schema.outputs@[k]).name@ != port@,
        decreases schema.outputs@.len() - o,
    {
        if str_eq(schema.outputs[o].name.as_str(), port) {
            return true;
        }
        o = o + 1;
    }
    false
}

// ---------------------------------------------------------------------------
// Error texts
// ---------------------------------------------------------------------------

/// Where an error about a module is shown: the quoted id when the user
/// named the module, else `type(...)`.
pub open spec fn location_text(m: ModuleState) -> Seq<char> {
    if m.id_is_explicit == Some(true) {
        "'"@ + m.id@ + "'"@
    } else {
        m.module_type@ + "(...)"@
    }
}

/// Formats the location of a module for error messages.
pub fn format_module_location(module: &ModuleState) -> (r: String)
    ensures
        r@ == location_text(*module),
{
    match module.id_is_explicit {
        Some(true) => join3("'", module.id.as_str(), "'"),
        _ => join2(module.module_type.as_str(), "(...)"),
    }
}

/// JSON text cut to 97 bytes followed by `...` when it is longer than 100 bytes.
pub open spec fn truncated(t: Seq<char>) -> Seq<char> {
    let b = vstd::utf8::encode_utf8(t);
    if b.len() > 100 {
        vstd::utf8::decode_utf8(b.subrange(0, 97)) + "..."@
    } else {
        t
    }
}

/// The text can be cut at byte 97 without splitting a character.
pub open spec fn cuttable(t: Seq<char>) -> bool {
    let b = vstd::utf8::encode_utf8(t);
    b.len() > 100 ==> vstd::utf8::is_char_boundary(b, 97)
}

/// Short JSON text of a value for error display.
fn truncate_json(value: &JsonValue) -> (r: String)
    requires
        cuttable(json_text(*value)),
    ensures
        r@ == truncated(json_text(*value)),
{
    let s = to_json_string(value);
    let st = s.as_str();
    let nbytes = st.as_bytes().len();
    if nbytes > 100 {
        let (head, _tail) = st.split_at(97);
        proof {
            vstd::utf8::encode_utf8_decode_utf8(head@);
            assert(head.spec_bytes() == vstd::utf8::encode_utf8(head@));
            assert(st.spec_bytes() == vstd::utf8::encode_utf8(json_text(*value)));
            assert(head@ == vstd::utf8::decode_utf8(vstd::utf8::encode_utf8(json_text(*value)).subrange(0, 97)));
        }
        join2(head, "...")
    } else {
        proof {
            assert(st.spec_bytes() == vstd::utf8::encode_utf8(json_text(*value)));
        }
        s
    }
}

/// Errors about one cable source reference.
pub open spec fn cable_errors(
    module: Seq<char>,
    port: Seq<char>,
    field: Seq<char>,
    loc: Seq<char>,
    modules: Seq<ModuleState>,
    schemas: Seq<ModuleSchema>,
) -> Seq<ErrorText> {
    if module == hidden_audio_in_id() {
        Seq::empty()
    } else {
        match module_index(modules, module) {
            None => seq![located(field, "Module '"@ + module + "' not found for cable source"@, Some(loc))],
            Some(k) => match schema_index(schemas, modules[k].module_type@) {
                None => seq![located(field, "Unknown module type '"@ + modules[k].module_type@
                    + "' for cable source module '"@ + module + "'"@, Some(loc))],
                Some(s) => if has_output(schemas[s], port) {
                    Seq::empty()
                } else {
                    seq![located(field, "Output port '"@ + port + "' not found on module '"@ + module + "'"@, Some(loc))]
                },
            },
        }
    }
}

/// The object is a well-formed cable signal: its `module` and `port`
/// members are strings.
pub open spec fn cable_parts(m: Seq<(String, JsonValue)>) -> Option<(Seq<char>, Seq<char>)> {
    match (member_str(m, "module"@), member_str(m, "port"@)) {
        (Some(a), Some(b)) => Some((a, b)),
        _ => None,
    }
}

/// The object is a well-formed constant-voltage signal: its `value` member is a number.
pub open spec fn volts_parses(m: Seq<(String, JsonValue)>) -> bool {
    member(m, "value"@) matches Some(JsonValue::Number(_))
}

/// Errors found in the signal references inside a params value: cables
/// are checked against the patch and schemas, constant voltages need no
/// check, buffer references must name an existing module, and every other
/// object or array is searched member by member.
pub open spec fn signal_errors(
    v: JsonValue,
    field: Seq<char>,
    loc: Seq<char>,
    modules: Seq<ModuleState>,
    schemas: Seq<ModuleSchema>,
) -> Seq<ErrorText>
    decreases v,
{
    match v {
        JsonValue::Object(m) => {
            let tag = member_str(m@, "type"@);
            if tag == Some("cable"@) && cable_parts(m@) is Some {
                let (module, port) = cable_parts(m@)->Some_0;
                cable_errors(module, port, field, loc, modules, schemas)
            } else if tag == Some("volts"@) && volts_parses(m@) {
                Seq::empty()
            } else if tag == Some("buffer_ref"@) {
                match member_str(m@, "module"@) {
                    Some(id) => if module_index(modules, id) is None {
                        seq![located(field, "buffer_ref references module '"@ + id + "' which does not exist in the patch"@, Some(loc))]
                    } else {
                        Seq::empty()
                    },
                    None => Seq::empty(),
                }
            } else {
                member_signal_errors(m@, field, loc, modules, schemas)
            }
        },
        JsonValue::Array(a) => list_signal_errors(a@, field, loc, modules, schemas),
        _ => Seq::empty(),
    }
}

pub open spec fn list_signal_errors(
    s: Seq<JsonValue>,
    field: Seq<char>,
    loc: Seq<char>,
    modules: Seq<ModuleState>,
    schemas: Seq<ModuleSchema>,
) -> Seq<ErrorText>
    decreases s,
{
    if s.len() == 0 {
        Seq::empty()
    } else {
        list_signal_errors(s.drop_last(), field, loc, modules, schemas) + signal_errors(s.last(), field, loc, modules, schemas)
    }
}

pub open spec fn member_signal_errors(
    s: Seq<(String, JsonValue)>,
    field: Seq<char>,
    loc: Seq<char>,
    modules: Seq<ModuleState>,
    schemas: Seq<ModuleSchema>,
) -> Seq<ErrorText>
    decreases s,
{
    if s.len() == 0 {
        Seq::empty()
    } else {
        member_signal_errors(s.drop_last(), field, loc, modules, schemas)
            + signal_errors(s.last().1, field, loc, modules, schemas)
    }
}


// ---------------------------------------------------------------------------
// Which params can hold signals
// ---------------------------------------------------------------------------

/// How a schema member is searched for signal references.
pub enum Lookup {
    /// A list of alternative schemas.
    Alternatives,
    /// A single sub-schema.
    Single,
    /// An object mapping names to sub-schemas.
    Entries,
    /// An object whose `properties` member maps names to sub-schemas.
    NestedEntries,
}

/// A schema node describes or contains a `Signal`: it is an object whose
/// `$ref` string mentions `Signal`, or (with no such `$ref`) one of its
/// `anyOf`/`oneOf`/`allOf` alternatives, its `items` schema, one of its
/// `properties`/`additionalProperties` entries, or one of the entries under
/// `schema.properties` does.
pub open spec fn refers_to_signal(v: JsonValue) -> bool
    decreases v,
{
    match v {
        JsonValue::Object(m) => match member(m@, "$ref"@) {
            Some(JsonValue::Str(r)) => contains_seq(r@, "Signal"@),
            _ => {
                ||| refers_via(m@, "anyOf"@, Lookup::Alternatives)
                ||| refers_via(m@, "oneOf"@, Lookup::Alternatives)
                ||| refers_via(m@, "allOf"@, Lookup::Alternatives)
                ||| refers_via(m@, "items"@, Lookup::Single)
                ||| refers_via(m@, "properties"@, Lookup::Entries)
                ||| refers_via(m@, "additionalProperties"@, Lookup::Entries)
                ||| refers_via(m@, "schema"@, Lookup::NestedEntries)
            },
        },
        _ => false,
    }
}

/// The first member named `key` leads to a signal reference, searched as `how` says.
pub open spec fn refers_via(entries: Seq<(String, JsonValue)>, key: Seq<char>, how: Lookup) -> bool
    decreases entries,
{
    if entries.len() == 0 {
        false
    } else if entries[0].0@ == key {
        match how {
            Lookup::Alternatives => match entries[0].1 {
                JsonValue::Array(a) => any_refers(a@),
                _ => false,
            },
            Lookup::Single => refers_to_signal(entries[0].1),
            Lookup::Entries => match entries[0].1 {
                JsonValue::Object(p) => any_member_refers(p@),
                _ => false,
            },
            Lookup::NestedEntries => match entries[0].1 {
                JsonValue::Object(so) => refers_via(so@, "properties"@, Lookup::Entries),
                _ => false,
            },
        }
    } else {
        refers_via(entries.drop_first(), key, how)
    }
}

/// Some schema of the list refers to a signal.
pub open spec fn any_refers(s: Seq<JsonValue>) -> bool
    decreases s,
{
    if s.len() == 0 {
        false
    } else {
        refers_to_signal(s[0]) || any_refers(s.drop_first())
    }
}

/// Some member schema refers to a signal.
pub open spec fn any_member_refers(s: Seq<(String, JsonValue)>) -> bool
    decreases s,
{
    if s.len() == 0 {
        false
    } else {
        refers_to_signal(s[0].1) || any_member_refers(s.drop_first())
    }
}

/// What searching the value `x` as `how` finds.
pub open spec fn applies(how: Lookup, x: JsonValue) -> bool {
    match how {
        Lookup::Alternatives => match x {
            JsonValue::Array(a) => any_refers(a@),
            _ => false,
        },
        Lookup::Single => refers_to_signal(x),
        Lookup::Entries => match x {
            JsonValue::Object(p) => any_member_refers(p@),
            _ => false,
        },
        Lookup::NestedEntries => match x {
            JsonValue::Object(so) => refers_via(so@, "properties"@, Lookup::Entries),
            _ => false,
        },
    }
}

proof fn lemma_refers_via(entries: Seq<(String, JsonValue)>, key: Seq<char>, how: Lookup)
    ensures
        refers_via(entries, key, how) == match member(entries, key) {
            Some(x) => applies(how, x),
            None => false,
        },
    decreases entries.len(),
{
    if entries.len() > 0 && entries[0].0@ != key {
        lemma_refers_via(entries.drop_first(), key, how);
    }
}

proof fn lemma_member_in(entries: Seq<(String, JsonValue)>, key: Seq<char>)
    ensures
        member(entries, key) matches Some(x) ==> exists|i: int| 0 <= i < entries.len() && #[trigger] entries[i].1 == x,
    decreases entries.len(),
{
    if entries.len() > 0 && entries[0].0@ != key {
        lemma_member_in(entries.drop_first(), key);
        if member(entries, key) is Some {
            let x = member(entries, key)->Some_0;
            let i = choose|i: int| 0 <= i < entries.drop_first().len() && #[trigger] entries.drop_first()[i].1 == x;
            assert(entries[i + 1].1 == x);
        }
    }
}

proof fn lemma_any_refers(s: Seq<JsonValue>)
    ensures
        any_refers(s) <==> exists|i: int| 0 <= i < s.len() && refers_to_signal(#[trigger] s[i]),
    decreases s.len(),
{
    if s.len() > 0 {
        lemma_any_refers(s.drop_first());
        if any_refers(s.drop_first()) {
            let i = choose|i: int| 0 <= i < s.drop_first().len() && refers_to_signal(#[trigger] s.drop_first()[i]);
            assert(s[i + 1] == s.drop_first()[i]);
        }
        if exists|i: int| 0 <= i < s.len() && refers_to_signal(#[trigger] s[i]) {
            let i = choose|i: int| 0 <= i < s.len() && refers_to_signal(#[trigger] s[i]);
            if i > 0 {
                assert(s.drop_first()[i - 1] == s[i]);
            }
        }
    }
}

proof fn lemma_any_member_refers(s: Seq<(String, JsonValue)>)
    ensures
        any_member_refers(s) <==> exists|i: int| 0 <= i < s.len() && refers_to_signal(#[trigger] s[i].1),
    decreases s.len(),
{
    if s.len() > 0 {
        lemma_any_member_refers(s.drop_first());
        if any_member_refers(s.drop_first()) {
            let i = choose|i: int| 0 <= i < s.drop_first().len() && refers_to_signal(#[trigger] s.drop_first()[i].1);
            assert(s[i + 1] == s.drop_first()[i]);
        }
        if exists|i: int| 0 <= i < s.len() && refers_to_signal(#[trigger] s[i].1) {
            let i = choose|i: int| 0 <= i < s.len() && refers_to_signal(#[trigger] s[i].1);
            if i > 0 {
                assert(s.drop_first()[i - 1] == s[i]);
            }
        }
    }
}

/// Whether a schema node describes or contains a `Signal`.
fn schema_refers_to_signal(v: &JsonValue) -> (r: bool)
    ensures
        r == refers_to_signal(*v),
    decreases v, 1nat,
{
    match v {
        JsonValue::Object(m) => {
            proof {
                reveal_strlit("$ref");
                reveal_strlit("Signal");
            }
            match get_member(m, "$ref") {
                Some(JsonValue::Str(r)) => {
                    return contains_str(r.as_str(), "Signal");
                },
                _ => {},
            }
                    let a = lookup_refers(v, m, "anyOf", Lookup::Alternatives)
                || lookup_refers(v, m, "oneOf", Lookup::Alternatives)
                || lookup_refers(v, m, "allOf", Lookup::Alternatives)
                || lookup_refers(v, m, "items", Lookup::Single)
                || lookup_refers(v, m, "properties", Lookup::Entries)
                || lookup_refers(v, m, "additionalProperties", Lookup::Entries)
                || lookup_refers(v, m, "schema", Lookup::NestedEntries);
            a
        },
        _ => false,
    }
}

/// Whether the member `key` of the object `m` (the contents of `v`) leads
/// to a signal reference, searched as `how` says.
#[verifier::loop_isolation(false)]
fn lookup_refers(v: &JsonValue, m: &Vec<(String, JsonValue)>, key: &str, how: Lookup) -> (r: bool)
    requires
        *v == JsonValue::Object(*m),
    ensures
        r == refers_via(m@, key@, how),
    decreases v, 0nat,
{
    proof {
        lemma_refers_via(m@, key@, how);
        lemma_member_in(m@, key@);
    }
    match get_member(m, key) {
        Some(x) => {
            proof {
                let i = choose|i: int| 0 <= i < m@.len() && #[trigger] m@[i].1 == *x;
                assert(decreases_to!(*v => (*v)->Object_0));
                vstd::std_specs::vec::axiom_vec_index_decreases(*m, i);
                assert(decreases_to!(*m => m[i]));
                assert(decreases_to!(m[i] => m[i].1));
                assert(decreases_to!(*v => *x));
            }
            match how {
                Lookup::Alternatives => match x {
                    JsonValue::Array(items) => {
                        proof {
                            lemma_any_refers(items@);
                        }
                        let mut j: usize = 0;
                        while j < items.len()
                            invariant
                                j <= items@.len(),
                                decreases_to!(*v => *x),
                                *x == JsonValue::Array(*items),
                                forall|k: int| 0 <= k < j ==> !refers_to_signal(#[trigger] items@[k]),
                            decreases items@.len() - j,
                        {
                            proof {
                                assert(decreases_to!(*x => (*x)->Array_0));
                                vstd::std_specs::vec::axiom_vec_index_decreases(*items, j as int);
                                assert(decreases_to!(*items => items[j as int]));
                            }
                            if schema_refers_to_signal(&items[j]) {
                                proof {
                                    assert(refers_to_signal(items@[j as int]));
                                    assert(any_refers(items@));
                                    assert(applies(how, *x));
                                }
                                return true;
                            }
                            j = j + 1;
                        }
                        false
                    },
                    _ => false,
                },
                Lookup::Single => schema_refers_to_signal(x),
                Lookup::Entries => match x {
                    JsonValue::Object(p) => {
                        proof {
                            lemma_any_member_refers(p@);
                        }
                        let mut j: usize = 0;
                        while j < p.len()
                            invariant
                                j <= p@.len(),
                                decreases_to!(*v => *x),
                                *x == JsonValue::Object(*p),
                                forall|k: int| 0 <= k < j ==> !refers_to_signal(#[trigger] p@[k].1),
                            decreases p@.len() - j,
                        {
                            proof {
                                assert(decreases_to!(*x => (*x)->Object_0));
                                vstd::std_specs::vec::axiom_vec_index_decreases(*p, j as int);
                                assert(decreases_to!(*p => p[j as int]));
                                assert(decreases_to!(p[j as int] => p[j as int].1));
                            }
                            if schema_refers_to_signal(&p[j].1) {
                                proof {
                                    assert(refers_to_signal(p@[j as int].1));
                                    assert(any_member_refers(p@));
                                    assert(applies(how, *x));
                                }
                                return true;
                            }
                            j = j + 1;
                        }
                        false
                    },
                    _ => false,
                },
                Lookup::NestedEntries => match x {
                    JsonValue::Object(so) => {
                        proof {
                            reveal_strlit("properties");
                        }
                        lookup_refers(x, so, "properties", Lookup::Entries)
                    },
                    _ => false,
                },
            }
        },
        None => false,
    }
}


// ---------------------------------------------------------------------------
// Collecting errors
// ---------------------------------------------------------------------------

fn new_error(field: &str, message: String, location: &str) -> (e: ValidationError)
    ensures
        e.text() == located(field@, message@, Some(location@)),
{
    ValidationError {
        field: String::from_str(field),
        message,
        location: Some(String::from_str(location)),
        expected_type: None,
        actual_value: None,
    }
}

fn push_error(errors: &mut Vec<ValidationError>, e: ValidationError)
    ensures
        error_texts(final(errors)@) == error_texts(old(errors)@).push(e.text()),
{
    errors.push(e);
    proof {
        assert(error_texts(errors@) =~= error_texts(old(errors)@).push(e.text()));
    }
}

/// Checks one cable source reference.
fn validate_signal_reference(
    module: &str,
    port: &str,
    field: &str,
    loc: &str,
    modules: &Vec<ModuleState>,
    schemas: &[ModuleSchema],
    errors: &mut Vec<ValidationError>,
)
    ensures
        error_texts(final(errors)@) == error_texts(old(errors)@) + cable_errors(module@, port@, field@, loc@, modules@, schemas@),
{
    if str_eq(module, WellKnownModule::HiddenAudioIn.id()) {
        assert(error_texts(errors@) =~= error_texts(old(errors)@) + Seq::<ErrorText>::empty());
        return;
    }
    proof {
        lemma_module_index_range(modules@, module@);
    }
    match find_module(modules, module) {
        None => {
            let e = new_error(field, join3("Module '", module, "' not found for cable source"), loc);
            push_error(errors, e);
            assert(error_texts(errors@) =~= error_texts(old(errors)@) + cable_errors(module@, port@, field@, loc@, modules@, schemas@));
        },
        Some(st) => {
            proof {
                lemma_schema_index_range(schemas@, st.module_type@);
            }
            match find_schema(schemas, st.module_type.as_str()) {
                None => {
                    let e = new_error(field, join5("Unknown module type '", st.module_type.as_str(),
                        "' for cable source module '", module, "'"), loc);
                    push_error(errors, e);
                    assert(error_texts(errors@) =~= error_texts(old(errors)@) + cable_errors(module@, port@, field@, loc@, modules@, schemas@));
                },
                Some(sc) => {
                    if !schema_has_output(sc, port) {
                        let e = new_error(field, join5("Output port '", port, "' not found on module '", module, "'"), loc);
                        push_error(errors, e);
                        assert(error_texts(errors@) =~= error_texts(old(errors)@) + cable_errors(module@, port@, field@, loc@, modules@, schemas@));
                    } else {
                        assert(error_texts(errors@) =~= error_texts(old(errors)@) + cable_errors(module@, port@, field@, loc@, modules@, schemas@));
                    }
                },
            }
        },
    }
}

/// Checks the signal references inside one params value.
fn validate_signals_in_json_value(
    v: &JsonValue,
    field: &str,
    loc: &str,
    modules: &Vec<ModuleState>,
    schemas: &[ModuleSchema],
    errors: &mut Vec<ValidationError>,
)
    ensures
        error_texts(final(errors)@) == error_texts(old(errors)@) + signal_errors(*v, field@, loc@, modules@, schemas@),
    decreases v,
{
    proof {
        reveal_strlit("type");
        reveal_strlit("cable");
        reveal_strlit("volts");
        reveal_strlit("buffer_ref");
        reveal_strlit("module");
        reveal_strlit("port");
        reveal_strlit("value");
    }
    match v {
        JsonValue::Object(m) => {
            let tag = get_member_str(m, "type");
            let (is_cable, is_volts, is_buffer) = match tag {
                Some(t) => (str_eq(t.as_str(), "cable"), str_eq(t.as_str(), "volts"), str_eq(t.as_str(), "buffer_ref")),
                None => (false, false, false),
            };
            let module = get_member_str(m, "module");
            let port = get_member_str(m, "port");
            let volts_ok = match get_member(m, "value") {
                Some(JsonValue::Number(_)) => true,
                _ => false,
            };
            if is_cable && module.is_some() && port.is_some() {
                let module = module.unwrap();
                let port = port.unwrap();
                validate_signal_reference(module.as_str(), port.as_str(), field, loc, modules, schemas, errors);
                return;
            }
            if is_volts && volts_ok {
                assert(error_texts(errors@) =~= error_texts(old(errors)@) + signal_errors(*v, field@, loc@, modules@, schemas@));
                return;
            }
            if is_buffer {
                proof {
                    lemma_module_index_range(modules@, "module"@);
                }
                match module {
                    Some(id) => {
                        if find_module(modules, id.as_str()).is_none() {
                            let e = new_error(field, join3("buffer_ref references module '", id.as_str(),
                                "' which does not exist in the patch"), loc);
                            push_error(errors, e);
                        }
                    },
                    None => {},
                }
                assert(error_texts(errors@) =~= error_texts(old(errors)@) + signal_errors(*v, field@, loc@, modules@, schemas@));
                return;
            }
            let mut i: usize = 0;
            assert(m@.take(0) =~= Seq::<(String, JsonValue)>::empty());
            assert(error_texts(errors@) =~= error_texts(old(errors)@) + member_signal_errors(m@.take(0), field@, loc@, modules@, schemas@));
            while i < m.len()
                invariant
                    i <= m@.len(),
                    *v == JsonValue::Object(*m),
                    error_texts(errors@) == error_texts(old(errors)@) + member_signal_errors(m@.take(i as int), field@, loc@, modules@, schemas@),
                decreases m@.len() - i,
            {
                proof {
                    assert(m@.take(i + 1).drop_last() =~= m@.take(i as int));
                    assert(m@.take(i + 1).last() == m@[i as int]);
                    assert(decreases_to!(*v => (*v)->Object_0));
                    vstd::std_specs::vec::axiom_vec_index_decreases(*m, i as int);
                    assert(decreases_to!(*m => m[i as int]));
                    assert(decreases_to!(m[i as int] => m[i as int].1));
                }
                validate_signals_in_json_value(&m[i].1, field, loc, modules, schemas, errors);
                i = i + 1;
                proof {
                    assert(error_texts(errors@) =~= error_texts(old(errors)@) + member_signal_errors(m@.take(i as int), field@, loc@, modules@, schemas@));
                }
            }
            assert(m@.take(m@.len() as int) =~= m@);
        },
        JsonValue::Array(a) => {
            let mut i: usize = 0;
            assert(a@.take(0) =~= Seq::<JsonValue>::empty());
            assert(error_texts(errors@) =~= error_texts(old(errors)@) + list_signal_errors(a@.take(0), field@, loc@, modules@, schemas@));
            while i < a.len()
                invariant
                    i <= a@.len(),
                    *v == JsonValue::Array(*a),
                    error_texts(errors@) == error_texts(old(errors)@) + list_signal_errors(a@.take(i as int), field@, loc@, modules@, schemas@),
                decreases a@.len() - i,
            {
                proof {
                    assert(a@.take(i + 1).drop_last() =~= a@.take(i as int));
                    assert(a@.take(i + 1).last() == a@[i as int]);
                    assert(decreases_to!(*v => (*v)->Array_0));
                    vstd::std_specs::vec::axiom_vec_index_decreases(*a, i as int);
                    assert(decreases_to!(*a => a[i as int]));
                }
                validate_signals_in_json_value(&a[i], field, loc, modules, schemas, errors);
                i = i + 1;
                proof {
                    assert(error_texts(errors@) =~= error_texts(old(errors)@) + list_signal_errors(a@.take(i as int), field@, loc@, modules@, schemas@));
                }
            }
            assert(a@.take(a@.len() as int) =~= a@);
        },
        _ => {
            assert(error_texts(errors@) =~= error_texts(old(errors)@) + Seq::<ErrorText>::empty());
        },
    }
}


// ---------------------------------------------------------------------------
// Whole patches
// ---------------------------------------------------------------------------

/// The declared params of a module type, each with its schema node: the
/// `properties` object of the params schema, or the one under
/// `schema.properties` when the first is missing or not an object.
pub open spec fn param_schemas(schema: JsonValue) -> Seq<(String, JsonValue)> {
    match schema {
        JsonValue::Object(o) => match member(o@, "properties"@) {
            Some(JsonValue::Object(p)) => p@,
            _ => match member(o@, "schema"@) {
                Some(JsonValue::Object(so)) => match member(so@, "properties"@) {
                    Some(JsonValue::Object(p)) => p@,
                    _ => Seq::empty(),
                },
                _ => Seq::empty(),
            },
        },
        _ => Seq::empty(),
    }
}

/// Errors in one param: only declared params whose schema can hold a
/// signal are searched; the editor's argument spans are skipped.
pub open spec fn param_errors(
    name: Seq<char>,
    value: JsonValue,
    props: Seq<(String, JsonValue)>,
    loc: Seq<char>,
    modules: Seq<ModuleState>,
    schemas: Seq<ModuleSchema>,
) -> Seq<ErrorText> {
    if name == argument_spans_key() {
        Seq::empty()
    } else {
        match member(props, name) {
            Some(node) => if refers_to_signal(node) {
                signal_errors(value, "params."@ + name, loc, modules, schemas)
            } else {
                Seq::empty()
            },
            None => Seq::empty(),
        }
    }
}

/// Errors in the params given, in their order.
pub open spec fn params_errors(
    entries: Seq<(String, JsonValue)>,
    props: Seq<(String, JsonValue)>,
    loc: Seq<char>,
    modules: Seq<ModuleState>,
    schemas: Seq<ModuleSchema>,
) -> Seq<ErrorText>
    decreases entries.len(),
{
    if entries.len() == 0 {
        Seq::empty()
    } else {
        params_errors(entries.drop_last(), props, loc, modules, schemas)
            + param_errors(entries.last().0@, entries.last().1, props, loc, modules, schemas)
    }
}

/// The error for params that are neither an object nor null.
pub open spec fn bad_params_error(m: ModuleState) -> ErrorText {
    ErrorText {
        field: "params"@,
        message: "Module params must be a JSON object"@,
        location: Some(location_text(m)),
        expected_type: Some("an object with parameter values"@),
        actual_value: Some(truncated(json_text(m.params))),
    }
}

/// Errors of one module: an unknown type, params of the wrong shape, or
/// bad signal references in its params. Null params count as none.
pub open spec fn module_errors(m: ModuleState, modules: Seq<ModuleState>, schemas: Seq<ModuleSchema>) -> Seq<ErrorText> {
    match schema_index(schemas, m.module_type@) {
        None => seq![located("moduleType"@, "Unknown module type '"@ + m.module_type@ + "'"@, Some(location_text(m)))],
        Some(s) => match m.params {
            JsonValue::Object(p) => params_errors(p@, param_schemas(schemas[s].params_schema), location_text(m), modules, schemas),
            JsonValue::Null => Seq::empty(),
            _ => seq![bad_params_error(m)],
        },
    }
}

/// Errors of the modules `ms`, in order, checked against the whole patch.
pub open spec fn all_module_errors(ms: Seq<ModuleState>, modules: Seq<ModuleState>, schemas: Seq<ModuleSchema>) -> Seq<ErrorText>
    decreases ms.len(),
{
    if ms.len() == 0 {
        Seq::empty()
    } else {
        all_module_errors(ms.drop_last(), modules, schemas) + module_errors(ms.last(), modules, schemas)
    }
}

/// Errors of one scope channel: its module must exist, have a known type
/// and declare the traced output port.
pub open spec fn channel_errors(c: ScopeChannel, modules: Seq<ModuleState>, schemas: Seq<ModuleSchema>) -> Seq<ErrorText> {
    match module_index(modules, c.module_id@) {
        None => seq![located("scopes"@, "Scope references missing module '"@ + c.module_id@ + "'"@, None)],
        Some(k) => match schema_index(schemas, modules[k].module_type@) {
            None => seq![located("scopes"@, "Scope references module '"@ + c.module_id@ + "' with unknown type '"@
                + modules[k].module_type@ + "'"@, None)],
            Some(s) => if has_output(schemas[s], c.port_name@) {
                Seq::empty()
            } else {
                seq![located("scopes"@, "Scope references missing output port '"@ + c.port_name@ + "' on module '"@
                    + c.module_id@ + "'"@, None)]
            },
        },
    }
}

pub open spec fn channels_errors(cs: Seq<ScopeChannel>, modules: Seq<ModuleState>, schemas: Seq<ModuleSchema>) -> Seq<ErrorText>
    decreases cs.len(),
{
    if cs.len() == 0 {
        Seq::empty()
    } else {
        channels_errors(cs.drop_last(), modules, schemas) + channel_errors(cs.last(), modules, schemas)
    }
}

/// Errors of one scope: it needs at least one channel, and each channel is checked.
pub open spec fn scope_errors(sc: Scope, modules: Seq<ModuleState>, schemas: Seq<ModuleSchema>) -> Seq<ErrorText> {
    if sc.channels@.len() == 0 {
        seq![located("scopes"@, "Scope has no channels"@, None)]
    } else {
        channels_errors(sc.channels@, modules, schemas)
    }
}

pub open spec fn all_scope_errors(scs: Seq<Scope>, modules: Seq<ModuleState>, schemas: Seq<ModuleSchema>) -> Seq<ErrorText>
    decreases scs.len(),
{
    if scs.len() == 0 {
        Seq::empty()
    } else {
        all_scope_errors(scs.drop_last(), modules, schemas) + scope_errors(scs.last(), modules, schemas)
    }
}

/// All problems of a patch: those of its modules in order, then those of its scopes.
pub open spec fn patch_errors(patch: PatchGraph, schemas: Seq<ModuleSchema>) -> Seq<ErrorText> {
    all_module_errors(patch.modules@, patch.modules@, schemas) + all_scope_errors(patch.scopes@, patch.modules@, schemas)
}

/// Params that are reported as a bad shape can be shown: their JSON text
/// can be shortened at byte 97 without splitting a character.
pub open spec fn module_displayable(m: ModuleState, schemas: Seq<ModuleSchema>) -> bool {
    schema_index(schemas, m.module_type@) is Some && !(m.params is Object) && !(m.params is Null)
        ==> cuttable(json_text(m.params))
}

pub open spec fn patch_displayable(patch: PatchGraph, schemas: Seq<ModuleSchema>) -> bool {
    forall|i: int| 0 <= i < patch.modules@.len() ==> module_displayable(#[trigger] patch.modules@[i], schemas)
}

/// The declared params of a module type with their schema nodes; `None`
/// when the schema declares none.
fn param_schema_entries<'a>(schema: &'a JsonValue) -> (r: Option<&'a Vec<(String, JsonValue)>>)
    ensures
        match r {
            Some(p) => p@ == param_schemas(*schema),
            None => param_schemas(*schema) == Seq::<(String, JsonValue)>::empty(),
        },
{
    proof {
        reveal_strlit("properties");
        reveal_strlit("schema");
    }
    match schema {
        JsonValue::Object(o) => match get_member(o, "properties") {
            Some(JsonValue::Object(p)) => Some(p),
            _ => match get_member(o, "schema") {
                Some(JsonValue::Object(so)) => match get_member(so, "properties") {
                    Some(JsonValue::Object(p)) => Some(p),
                    _ => None,
                },
                _ => None,
            },
        },
        _ => None,
    }
}

/// Checks one param of a module.
fn validate_param(
    name: &String,
    value: &JsonValue,
    props: Option<&Vec<(String, JsonValue)>>,
    loc: &str,
    modules: &Vec<ModuleState>,
    schemas: &[ModuleSchema],
    errors: &mut Vec<ValidationError>,
)
    ensures
        error_texts(final(errors)@) == error_texts(old(errors)@)
            + param_errors(name@, *value, param_schemas_or_empty(props), loc@, modules@, schemas@),
{
    proof {
        reveal_strlit("__argument_spans");
        reveal_strlit("params.");
    }
    if str_eq(name.as_str(), "__argument_spans") {
        assert(error_texts(errors@) =~= error_texts(old(errors)@) + Seq::<ErrorText>::empty());
        return;
    }
    let node = match props {
        Some(p) => get_member(p, name.as_str()),
        None => None,
    };
    match node {
        Some(n) => {
            if schema_refers_to_signal(n) {
                let field = join2("params.", name.as_str());
                validate_signals_in_json_value(value, field.as_str(), loc, modules, schemas, errors);
            } else {
                assert(error_texts(errors@) =~= error_texts(old(errors)@) + Seq::<ErrorText>::empty());
            }
        },
        None => {
            assert(error_texts(errors@) =~= error_texts(old(errors)@) + Seq::<ErrorText>::empty());
        },
    }
}

pub open spec fn param_schemas_or_empty(props: Option<&Vec<(String, JsonValue)>>) -> Seq<(String, JsonValue)> {
    match props {
        Some(p) => p@,
        None => Seq::empty(),
    }
}

/// Checks one module of the patch.
fn validate_module(
    module: &ModuleState,
    modules: &Vec<ModuleState>,
    schemas: &[ModuleSchema],
    errors: &mut Vec<ValidationError>,
)
    requires
        module_displayable(*module, schemas@),
    ensures
        error_texts(final(errors)@) == error_texts(old(errors)@) + module_errors(*module, modules@, schemas@),
{
    let loc = format_module_location(module);
    proof {
        lemma_schema_index_range(schemas@, module.module_type@);
        reveal_strlit("moduleType");
        reveal_strlit("Unknown module type '");
        reveal_strlit("'");
    }
    let schema = match find_schema(schemas, module.module_type.as_str()) {
        Some(sc) => sc,
        None => {
            let e = new_error("moduleType", join3("Unknown module type '", module.module_type.as_str(), "'"), loc.as_str());
            push_error(errors, e);
            assert(error_texts(errors@) =~= error_texts(old(errors)@) + module_errors(*module, modules@, schemas@));
            return;
        },
    };
    match &module.params {
        JsonValue::Object(p) => {
            let props = param_schema_entries(&schema.params_schema);
            let mut i: usize = 0;
            assert(p@.take(0) =~= Seq::<(String, JsonValue)>::empty());
            assert(error_texts(errors@) =~= error_texts(old(errors)@)
                + params_errors(p@.take(0), param_schemas_or_empty(props), loc@, modules@, schemas@));
            while i < p.len()
                invariant
                    i <= p@.len(),
                    error_texts(errors@) == error_texts(old(errors)@)
                        + params_errors(p@.take(i as int), param_schemas_or_empty(props), loc@, modules@, schemas@),
                decreases p@.len() - i,
            {
                proof {
                    assert(p@.take(i + 1).drop_last() =~= p@.take(i as int));
                    assert(p@.take(i + 1).last() == p@[i as int]);
                }
                validate_param(&p[i].0, &p[i].1, props, loc.as_str(), modules, schemas, errors);
                i = i + 1;
                proof {
                    assert(error_texts(errors@) =~= error_texts(old(errors)@)
                        + params_errors(p@.take(i as int), param_schemas_or_empty(props), loc@, modules@, schemas@));
                }
            }
            assert(p@.take(p@.len() as int) =~= p@);
            assert(param_schemas_or_empty(props) == param_schemas(schema.params_schema));
        },
        JsonValue::Null => {
            assert(error_texts(errors@) =~= error_texts(old(errors)@) + Seq::<ErrorText>::empty());
        },
        _ => {
            let actual = truncate_json(&module.params);
            let e = ValidationError {
                field: String::from_str("params"),
                message: String::from_str("Module params must be a JSON object"),
                location: Some(loc),
                expected_type: Some(String::from_str("an object with parameter values")),
                actual_value: Some(actual),
            };
            proof {
                reveal_strlit("params");
                reveal_strlit("Module params must be a JSON object");
                reveal_strlit("an object with parameter values");
            }
            assert(e.text() == bad_params_error(*module));
            push_error(errors, e);
            assert(error_texts(errors@) =~= error_texts(old(errors)@) + module_errors(*module, modules@, schemas@));
        },
    }
}

/// An error that is tied to no module.
fn scope_error(message: String) -> (e: ValidationError)
    ensures
        e.text() == located("scopes"@, message@, None),
{
    proof {
        reveal_strlit("scopes");
    }
    ValidationError {
        field: String::from_str("scopes"),
        message,
        location: None,
        expected_type: None,
        actual_value: None,
    }
}

/// Checks one scope channel.
fn validate_channel(
    c: &ScopeChannel,
    modules: &Vec<ModuleState>,
    schemas: &[ModuleSchema],
    errors: &mut Vec<ValidationError>,
)
    ensures
        error_texts(final(errors)@) == error_texts(old(errors)@) + channel_errors(*c, modules@, schemas@),
{
    proof {
        lemma_module_index_range(modules@, c.module_id@);
    }
    match find_module(modules, c.module_id.as_str()) {
        None => {
            let e = scope_error(join3("Scope references missing module '", c.module_id.as_str(), "'"));
            push_error(errors, e);
        },
        Some(m) => {
            proof {
                lemma_schema_index_range(schemas@, m.module_type@);
            }
            match find_schema(schemas, m.module_type.as_str()) {
                None => {
                    let e = scope_error(join5("Scope references module '", c.module_id.as_str(),
                        "' with unknown type '", m.module_type.as_str(), "'"));
                    push_error(errors, e);
                },
                Some(sc) => {
                    if !schema_has_output(sc, c.port_name.as_str()) {
                        let e = scope_error(join5("Scope references missing output port '", c.port_name.as_str(),
                            "' on module '", c.module_id.as_str(), "'"));
                        push_error(errors, e);
                    }
                },
            }
        },
    }
    assert(error_texts(errors@) =~= error_texts(old(errors)@) + channel_errors(*c, modules@, schemas@));
}

/// Checks one scope.
fn validate_scope(
    sc: &Scope,
    modules: &Vec<ModuleState>,
    schemas: &[ModuleSchema],
    errors: &mut Vec<ValidationError>,
)
    ensures
        error_texts(final(errors)@) == error_texts(old(errors)@) + scope_errors(*sc, modules@, schemas@),
{
    if sc.channels.len() == 0 {
        proof {
            reveal_strlit("Scope has no channels");
        }
        let e = scope_error(String::from_str("Scope has no channels"));
        push_error(errors, e);
        assert(error_texts(errors@) =~= error_texts(old(errors)@) + scope_errors(*sc, modules@, schemas@));
        return;
    }
    let mut i: usize = 0;
    assert(sc.channels@.take(0) =~= Seq::<ScopeChannel>::empty());
    assert(error_texts(errors@) =~= error_texts(old(errors)@) + channels_errors(sc.channels@.take(0), modules@, schemas@));
    while i < sc.channels.len()
        invariant
            i <= sc.channels@.len(),
            error_texts(errors@) == error_texts(old(errors)@) + channels_errors(sc.channels@.take(i as int), modules@, schemas@),
        decreases sc.channels@.len() - i,
    {
        proof {
            assert(sc.channels@.take(i + 1).drop_last() =~= sc.channels@.take(i as int));
            assert(sc.channels@.take(i + 1).last() == sc.channels@[i as int]);
        }
        validate_channel(&sc.channels[i], modules, schemas, errors);
        i = i + 1;
        proof {
            assert(error_texts(errors@) =~= error_texts(old(errors)@) + channels_errors(sc.channels@.take(i as int), modules@, schemas@));
        }
    }
    assert(sc.channels@.take(sc.channels@.len() as int) =~= sc.channels@);
}

/// Validates a patch against the module schemas and returns every problem
/// found, not just the first: unknown module types, params that are not an
/// object, cables to missing modules or output ports, buffer references to
/// missing modules, and scopes that trace nothing or a missing output.
pub fn validate_patch(patch: &PatchGraph, schemas: &[ModuleSchema]) -> (r: Result<(), Vec<ValidationError>>)
    requires
        patch_displayable(*patch, schemas@),
    ensures
        match r {
            Ok(()) => patch_errors(*patch, schemas@).len() == 0,
            Err(es) => es@.len() > 0 && error_texts(es@) == patch_errors(*patch, schemas@),
        },
{
    let mut errors: Vec<ValidationError> = Vec::new();
    let mut i: usize = 0;
    assert(patch.modules@.take(0) =~= Seq::<ModuleState>::empty());
    assert(error_texts(errors@) =~= all_module_errors(patch.modules@.take(0), patch.modules@, schemas@));
    while i < patch.modules.len()
        invariant
            i <= patch.modules@.len(),
            patch_displayable(*patch, schemas@),
            error_texts(errors@) == all_module_errors(patch.modules@.take(i as int), patch.modules@, schemas@),
        decreases patch.modules@.len() - i,
    {
        proof {
            assert(patch.modules@.take(i + 1).drop_last() =~= patch.modules@.take(i as int));
            assert(patch.modules@.take(i + 1).last() == patch.modules@[i as int]);
            assert(module_displayable(patch.modules@[i as int], schemas@));
        }
        validate_module(&patch.modules[i], &patch.modules, schemas, &mut errors);
        i = i + 1;
    }
    assert(patch.modules@.take(patch.modules@.len() as int) =~= patch.modules@);
    let ghost module_part = error_texts(errors@);
    let mut j: usize = 0;
    assert(patch.scopes@.take(0) =~= Seq::<Scope>::empty());
    assert(error_texts(errors@) =~= module_part + all_scope_errors(patch.scopes@.take(0), patch.modules@, schemas@));
    while j < patch.scopes.len()
        invariant
            j <= patch.scopes@.len(),
            module_part == all_module_errors(patch.modules@, patch.modules@, schemas@),
            error_texts(errors@) == module_part + all_scope_errors(patch.scopes@.take(j as int), patch.modules@, schemas@),
        decreases patch.scopes@.len() - j,
    {
        proof {
            assert(patch.scopes@.take(j + 1).drop_last() =~= patch.scopes@.take(j as int));
            assert(patch.scopes@.take(j + 1).last() == patch.scopes@[j as int]);
        }
        validate_scope(&patch.scopes[j], &patch.modules, schemas, &mut errors);
        j = j + 1;
        proof {
            assert(error_texts(errors@) =~= module_part + all_scope_errors(patch.scopes@.take(j as int), patch.modules@, schemas@));
        }
    }
    assert(patch.scopes@.take(patch.scopes@.len() as int) =~= patch.scopes@);
    if errors.len() == 0 {
        Ok(())
    } else {
        Err(errors)
    }
}

/// Validates a patch against the given module schemas and lists every
/// problem found; an empty list means the patch is valid.
pub fn validate_patch_graph(patch: &PatchGraph, schemas: &[ModuleSchema]) -> (r: Vec<ValidationError>)
    requires
        patch_displayable(*patch, schemas@),
    ensures
        error_texts(r@) == patch_errors(*patch, schemas@),
{
    match validate_patch(patch, schemas) {
        Ok(()) => {
            let empty: Vec<ValidationError> = Vec::new();
            assert(error_texts(empty@) =~= patch_errors(*patch, schemas@));
            empty
        },
        Err(errors) => errors,
    }
}

// ---------------------------------------------------------------------------
// Laws
// ---------------------------------------------------------------------------

/// A patch without modules and scopes has no problems, whatever the schemas.
pub proof fn lemma_empty_patch_valid(patch: PatchGraph, schemas: Seq<ModuleSchema>)
    requires
        patch.modules@.len() == 0,
        patch.scopes@.len() == 0,
    ensures
        patch_errors(patch, schemas) == Seq::<ErrorText>::empty(),
{
    assert(patch_errors(patch, schemas) =~= Seq::<ErrorText>::empty());
}

proof fn lemma_encode_concat(a: Seq<char>, b: Seq<char>)
    ensures
        vstd::utf8::encode_utf8(a + b) == vstd::utf8::encode_utf8(a) + vstd::utf8::encode_utf8(b),
    decreases a.len(),
{
    if a.len() > 0 {
        lemma_encode_concat(a.drop_first(), b);
        assert((a + b).drop_first() =~= a.drop_first() + b);
        assert((a + b)[0] == a[0]);
    } else {
        assert(a + b =~= b);
    }
}

/// The JSON text shown for a value in an error is at most 100 bytes long.
pub proof fn lemma_shown_text_fits(t: Seq<char>)
    requires
        cuttable(t),
    ensures
        vstd::utf8::encode_utf8(truncated(t)).len() <= 100,
{
    let b = vstd::utf8::encode_utf8(t);
    if b.len() > 100 {
        vstd::utf8::encode_utf8_valid_utf8(t);
        vstd::utf8::valid_utf8_split(b, 97);
        let head = b.subrange(0, 97);
        vstd::utf8::decode_utf8_encode_utf8(head);
        lemma_encode_concat(vstd::utf8::decode_utf8(head), "..."@);
        reveal_strlit("...");
        assert(vstd::utf8::is_ascii_chars("..."@));
        vstd::utf8::is_ascii_chars_encode_utf8("..."@);
    }
}

proof fn lemma_list_errors_concat(
    s: Seq<JsonValue>,
    t: Seq<JsonValue>,
    field: Seq<char>,
    loc: Seq<char>,
    modules: Seq<ModuleState>,
    schemas: Seq<ModuleSchema>,
)
    ensures
        list_signal_errors(s + t, field, loc, modules, schemas)
            == list_signal_errors(s, field, loc, modules, schemas) + list_signal_errors(t, field, loc, modules, schemas),
    decreases t.len(),
{
    if t.len() == 0 {
        assert(s + t =~= s);
    } else {
        lemma_list_errors_concat(s, t.drop_last(), field, loc, modules, schemas);
        assert((s + t).drop_last() =~= s + t.drop_last());
        assert((s + t).last() == t.last());
    }
}

proof fn lemma_member_errors_as_list(
    m: Seq<(String, JsonValue)>,
    field: Seq<char>,
    loc: Seq<char>,
    modules: Seq<ModuleState>,
    schemas: Seq<ModuleSchema>,
)
    ensures
        member_signal_errors(m, field, loc, modules, schemas)
            == list_signal_errors(m.map_values(|p: (String, JsonValue)| p.1), field, loc, modules, schemas),
    decreases m.len(),
{
    if m.len() > 0 {
        lemma_member_errors_as_list(m.drop_last(), field, loc, modules, schemas);
        assert(m.map_values(|p: (String, JsonValue)| p.1).drop_last() =~= m.drop_last().map_values(|p: (String, JsonValue)| p.1));
    }
}

proof fn lemma_list_errors_split(
    s: Seq<JsonValue>,
    i: int,
    field: Seq<char>,
    loc: Seq<char>,
    modules: Seq<ModuleState>,
    schemas: Seq<ModuleSchema>,
)
    requires
        0 <= i < s.len(),
    ensures
        list_signal_errors(s, field, loc, modules, schemas)
            == list_signal_errors(s.take(i), field, loc, modules, schemas)
            + signal_errors(s[i], field, loc, modules, schemas)
            + list_signal_errors(s.skip(i + 1), field, loc, modules, schemas),
{
    let one = seq![s[i]];
    assert(s =~= s.take(i) + one + s.skip(i + 1));
    lemma_list_errors_concat(s.take(i) + one, s.skip(i + 1), field, loc, modules, schemas);
    lemma_list_errors_concat(s.take(i), one, field, loc, modules, schemas);
    assert(one.drop_last() =~= Seq::<JsonValue>::empty());
    assert(list_signal_errors(one.drop_last(), field, loc, modules, schemas) == Seq::<ErrorText>::empty());
    assert(list_signal_errors(one, field, loc, modules, schemas)
        =~= signal_errors(s[i], field, loc, modules, schemas));
}

/// Every element of an array of signal values is checked, in order: the
/// problems of the array are those of the elements before element `i`, then
/// those of element `i`, then those of the elements after it. So a cable
/// at any position that names a missing module is reported.
pub proof fn lemma_array_errors_split(
    a: Vec<JsonValue>,
    before: Vec<JsonValue>,
    after: Vec<JsonValue>,
    i: int,
    field: Seq<char>,
    loc: Seq<char>,
    modules: Seq<ModuleState>,
    schemas: Seq<ModuleSchema>,
)
    requires
        0 <= i < a@.len(),
        before@ == a@.take(i),
        after@ == a@.skip(i + 1),
    ensures
        signal_errors(JsonValue::Array(a), field, loc, modules, schemas)
            == signal_errors(JsonValue::Array(before), field, loc, modules, schemas)
            + signal_errors(a@[i], field, loc, modules, schemas)
            + signal_errors(JsonValue::Array(after), field, loc, modules, schemas),
{
    lemma_list_errors_split(a@, i, field, loc, modules, schemas);
}

/// Every member of an object that is not itself a signal (a cable, a
/// constant voltage or a buffer reference) is checked, in order: the
/// problems of the object are those of the member values before member
/// `i`, then those of member `i`'s value, then those of the values after it.
pub proof fn lemma_object_errors_split(
    m: Vec<(String, JsonValue)>,
    before: Vec<JsonValue>,
    after: Vec<JsonValue>,
    i: int,
    field: Seq<char>,
    loc: Seq<char>,
    modules: Seq<ModuleState>,
    schemas: Seq<ModuleSchema>,
)
    requires
        0 <= i < m@.len(),
        member_str(m@, "type"@) != Some("cable"@),
        member_str(m@, "type"@) != Some("volts"@),
        member_str(m@, "type"@) != Some("buffer_ref"@),
        before@ == m@.take(i).map_values(|p: (String, JsonValue)| p.1),
        after@ == m@.skip(i + 1).map_values(|p: (String, JsonValue)| p.1),
    ensures
        signal_errors(JsonValue::Object(m), field, loc, modules, schemas)
            == signal_errors(JsonValue::Array(before), field, loc, modules, schemas)
            + signal_errors(m@[i].1, field, loc, modules, schemas)
            + signal_errors(JsonValue::Array(after), field, loc, modules, schemas),
{
    let vals = m@.map_values(|p: (String, JsonValue)| p.1);
    lemma_member_errors_as_list(m@, field, loc, modules, schemas);
    lemma_list_errors_split(vals, i, field, loc, modules, schemas);
    assert(vals.take(i) =~= before@);
    assert(vals.skip(i + 1) =~= after@);
}

} // verus!
