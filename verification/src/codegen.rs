//! Text of the TypeScript sources that expose the module factories to the
//! DSL: one installer per category of module schemas, the barrel that
//! registers them all, and the list of reserved output names.

use vstd::prelude::*;
use crate::json::string_views;
use crate::text::push_char;
use crate::validation::ModuleSchema;

verus! {

/// One group of module schemas, emitted as its own factory file.
pub struct Category {
    pub name: String,
    pub schemas: Vec<ModuleSchema>,
}

/// The schemas of each category, in the order the DSP registry lists them.
pub struct CategorySchemas {
    pub core: Vec<ModuleSchema>,
    pub dynamics: Vec<ModuleSchema>,
    pub fx: Vec<ModuleSchema>,
    pub oscillators: Vec<ModuleSchema>,
    pub filters: Vec<ModuleSchema>,
    pub phase: Vec<ModuleSchema>,
    pub utilities: Vec<ModuleSchema>,
    pub seq: Vec<ModuleSchema>,
    pub midi: Vec<ModuleSchema>,
    pub samplers: Vec<ModuleSchema>,
}

/// The category names, in order.
pub open spec fn category_names() -> Seq<Seq<char>> {
    seq!["core"@, "dynamics"@, "fx"@, "oscillators"@, "filters"@, "phase"@, "utilities"@, "seq"@, "midi"@, "samplers"@]
}

pub open spec fn schema_names(s: Seq<ModuleSchema>) -> Seq<Seq<char>> {
    s.map_values(|m: ModuleSchema| m.name@)
}

fn category(name: &str, schemas: Vec<ModuleSchema>) -> (r: Category)
    ensures
        r.name@ == name@,
        r.schemas@ == schemas@,
{
    Category { name: String::from_str(name), schemas }
}

/// All categories in a fixed order, each with its schemas.
pub fn all_categories(groups: CategorySchemas) -> (r: Vec<Category>)
    ensures
        r@.len() == 10,
        forall|i: int| 0 <= i < 10 ==> (#[trigger] r@[i]).name@ == category_names()[i],
        r@[0].schemas@ == groups.core@,
        r@[1].schemas@ == groups.dynamics@,
        r@[2].schemas@ == groups.fx@,
        r@[3].schemas@ == groups.oscillators@,
        r@[4].schemas@ == groups.filters@,
        r@[5].schemas@ == groups.phase@,
        r@[6].schemas@ == groups.utilities@,
        r@[7].schemas@ == groups.seq@,
        r@[8].schemas@ == groups.midi@,
        r@[9].schemas@ == groups.samplers@,
{
    let mut r: Vec<Category> = Vec::new();
    r.push(category("core", groups.core));
    r.push(category("dynamics", groups.dynamics));
    r.push(category("fx", groups.fx));
    r.push(category("oscillators", groups.oscillators));
    r.push(category("filters", groups.filters));
    r.push(category("phase", groups.phase));
    r.push(category("utilities", groups.utilities));
    r.push(category("seq", groups.seq));
    r.push(category("midi", groups.midi));
    r.push(category("samplers", groups.samplers));
    r
}

// ---------------------------------------------------------------------------
// Outside text primitives
// ---------------------------------------------------------------------------

/// What `char::to_uppercase` gives for `c`.
pub uninterp spec fn upper_text(c: char) -> Seq<char>;

/// The uppercase form of a character (`char::to_uppercase`): an ASCII
/// lowercase letter becomes its capital, other ASCII characters stay.
#[verifier::external_body]
pub(crate) fn char_to_uppercase(c: char) -> (r: String)
    ensures
        r@ == upper_text(c),
        'a' <= c <= 'z' ==> r@ == seq![((c as u32) - 32) as char],
        (c as u32) < 128 && !('a' <= c <= 'z') ==> r@ == seq![c],
{
    c.to_uppercase().collect::<String>()
}

/// What `format!("{:?}", s)` gives for a string `s`.
pub uninterp spec fn debug_text(s: Seq<char>) -> Seq<char>;

/// Plain printable ASCII that `Debug` shows as it is.
pub open spec fn plain_ascii(s: Seq<char>) -> bool {
    forall|i: int| 0 <= i < s.len() ==> ' ' <= #[trigger] s[i] <= '~' && s[i] != '"' && s[i] != '\\'
}

/// A string as Rust's `Debug` shows it (`format!("{:?}", s)`): quoted, with
/// quotes, backslashes and special characters escaped.
#[verifier::external_body]
fn debug_quoted(s: &str) -> (r: String)
    ensures
        r@ == debug_text(s@),
        plain_ascii(s@) ==> r@ == seq!['"'] + s@ + seq!['"'],
{
    format!("{:?}", s)
}

/// The uppercase text of a character: an ASCII lowercase letter becomes its
/// capital, any other ASCII character stays, and the rest are as
/// `char::to_uppercase` gives them.
pub open spec fn upper_char(c: char) -> Seq<char> {
    if 'a' <= c <= 'z' {
        seq![((c as u32) - 32) as char]
    } else if (c as u32) < 128 {
        seq![c]
    } else {
        upper_text(c)
    }
}

/// A string as `Debug` shows it: plain printable ASCII in quotes, anything
/// else as `format!("{:?}")` escapes it.
pub open spec fn debug_str(s: Seq<char>) -> Seq<char> {
    if plain_ascii(s) {
        seq!['"'] + s + seq!['"']
    } else {
        debug_text(s)
    }
}

// ---------------------------------------------------------------------------
// Names
// ---------------------------------------------------------------------------

/// The PascalCase text of `s` and whether the next character starts a word:
/// `_` and `-` are dropped and start a new word, whose first character is
/// uppercased.
pub open spec fn pascal_state(s: Seq<char>) -> (Seq<char>, bool)
    decreases s.len(),
{
    if s.len() == 0 {
        (Seq::empty(), true)
    } else {
        let (out, up) = pascal_state(s.drop_last());
        let c = s.last();
        if c == '_' || c == '-' {
            (out, true)
        } else if up {
            (out + upper_char(c), false)
        } else {
            (out.push(c), false)
        }
    }
}

pub open spec fn pascal(s: Seq<char>) -> Seq<char> {
    pascal_state(s).0
}

/// `snake_case` or `kebab-case` to `PascalCase`.
pub fn pascal_case(s: &str) -> (r: String)
    ensures
        r@ == pascal(s@),
{
    let n = s.unicode_len();
    let mut out = String::new();
    let mut up_next = true;
    let mut i: usize = 0;
    proof {
        assert(s@.take(0) =~= Seq::<char>::empty());
    }
    while i < n
        invariant
            n == s@.len(),
            i <= n,
            (out@, up_next) == pascal_state(s@.take(i as int)),
        decreases n - i,
    {
        let c = s.get_char(i);
        proof {
            assert(s@.take(i + 1).drop_last() =~= s@.take(i as int));
            assert(s@.take(i + 1).last() == c);
        }
        if c == '_' || c == '-' {
            up_next = true;
        } else if up_next {
            let u = char_to_uppercase(c);
            out.append(u.as_str());
            up_next = false;
        } else {
            push_char(&mut out, c);
            up_next = false;
        }
        i = i + 1;
    }
    proof {
        assert(s@.take(n as int) =~= s@);
    }
    out
}

/// The namespace of a dotted module name: its non-empty dot-separated
/// parts after trimming, without the last one.
pub open spec fn namespace_of(name: Seq<char>) -> Seq<Seq<char>> {
    let parts = nonempty_parts(trim_text(name));
    if parts.len() <= 1 {
        Seq::empty()
    } else {
        parts.drop_last()
    }
}

/// Unicode whitespace as `char::is_whitespace` sees it.
pub open spec fn is_space(c: char) -> bool {
    ||| c == ' ' || c == '\t' || c == '\n' || c == '\x0B' || c == '\x0C' || c == '\r'
    ||| c == '\u{85}' || c == '\u{A0}' || c == '\u{1680}'
    ||| ('\u{2000}' <= c <= '\u{200A}')
    ||| c == '\u{2028}' || c == '\u{2029}' || c == '\u{202F}' || c == '\u{205F}' || c == '\u{3000}'
}

/// How many characters `s` starts with that are whitespace.
pub open spec fn leading_space(s: Seq<char>) -> nat
    decreases s.len(),
{
    if s.len() > 0 && is_space(s[0]) {
        1 + leading_space(s.drop_first())
    } else {
        0
    }
}

/// How many characters `s` ends with that are whitespace.
pub open spec fn trailing_space(s: Seq<char>) -> nat
    decreases s.len(),
{
    if s.len() > 0 && is_space(s.last()) {
        1 + trailing_space(s.drop_last())
    } else {
        0
    }
}

/// `s` without leading and trailing whitespace.
pub open spec fn trim_text(s: Seq<char>) -> Seq<char> {
    let a = leading_space(s);
    if a == s.len() {
        Seq::empty()
    } else {
        s.subrange(a as int, s.len() - trailing_space(s))
    }
}

/// The non-empty parts of `s` between dots, and the part still open at its end.
pub open spec fn split_state(s: Seq<char>) -> (Seq<Seq<char>>, Seq<char>)
    decreases s.len(),
{
    if s.len() == 0 {
        (Seq::empty(), Seq::empty())
    } else {
        let (parts, cur) = split_state(s.drop_last());
        if s.last() == '.' {
            (if cur.len() > 0 { parts.push(cur) } else { parts }, Seq::empty())
        } else {
            (parts, cur.push(s.last()))
        }
    }
}

/// The non-empty parts of `s` between dots.
pub open spec fn nonempty_parts(s: Seq<char>) -> Seq<Seq<char>> {
    let (parts, cur) = split_state(s);
    if cur.len() > 0 { parts.push(cur) } else { parts }
}

fn space_char(c: char) -> (r: bool)
    ensures
        r == is_space(c),
{
    c == ' ' || c == '\t' || c == '\n' || c == '\x0B' || c == '\x0C' || c == '\r'
        || c == '\u{85}' || c == '\u{A0}' || c == '\u{1680}'
        || (c >= '\u{2000}' && c <= '\u{200A}')
        || c == '\u{2028}' || c == '\u{2029}' || c == '\u{202F}' || c == '\u{205F}' || c == '\u{3000}'
}

proof fn lemma_leading(s: Seq<char>, k: int)
    requires
        0 <= k <= s.len(),
        forall|j: int| 0 <= j < k ==> is_space(#[trigger] s[j]),
        k == s.len() || !is_space(s[k]),
    ensures
        leading_space(s) == k,
    decreases k,
{
    if k > 0 {
        let t = s.drop_first();
        assert forall|j: int| 0 <= j < k - 1 implies is_space(#[trigger] t[j]) by {
            assert(t[j] == s[j + 1]);
        }
        if k < s.len() {
            assert(t[k - 1] == s[k]);
        }
        lemma_leading(t, k - 1);
    }
}

proof fn lemma_trailing(s: Seq<char>, k: int)
    requires
        0 <= k <= s.len(),
        forall|j: int| s.len() - k <= j < s.len() ==> is_space(#[trigger] s[j]),
        k == s.len() || !is_space(s[s.len() - 1 - k]),
    ensures
        trailing_space(s) == k,
    decreases k,
{
    if k > 0 {
        let t = s.drop_last();
        assert forall|j: int| t.len() - (k - 1) <= j < t.len() implies is_space(#[trigger] t[j]) by {
            assert(t[j] == s[j]);
        }
        if k < s.len() {
            assert(t[t.len() - 1 - (k - 1)] == s[s.len() - 1 - k]);
        }
        lemma_trailing(t, k - 1);
    }
}

/// `s` without leading and trailing whitespace (`str::trim`).
pub fn trim(s: &str) -> (r: &str)
    ensures
        r@ == trim_text(s@),
{
    let n = s.unicode_len();
    let mut a: usize = 0;
    while a < n && space_char(s.get_char(a))
        invariant
            n == s@.len(),
            a <= n,
            forall|j: int| 0 <= j < a ==> is_space(#[trigger] s@[j]),
        decreases n - a,
    {
        a = a + 1;
    }
    proof {
        lemma_leading(s@, a as int);
    }
    if a == n {
        return s.substring_char(n, n);
    }
    let mut e: usize = n;
    while e > a + 1 && space_char(s.get_char(e - 1))
        invariant
            n == s@.len(),
            a < e <= n,
            forall|j: int| e <= j < n ==> is_space(#[trigger] s@[j]),
        decreases e,
    {
        e = e - 1;
    }
    proof {
        if e == a + 1 {
            assert(!is_space(s@[a as int]));
        }
        lemma_trailing(s@, n - e);
    }
    s.substring_char(a, e)
}

/// The namespace of a dotted module name: its non-empty dot-separated
/// parts, after trimming, without the last one.
pub fn namespace_path(name: &str) -> (r: Vec<String>)
    ensures
        string_views(r@) == namespace_of(name@),
{
    let t = trim(name);
    let n = t.unicode_len();
    let mut parts: Vec<String> = Vec::new();
    let mut cur = String::new();
    let mut i: usize = 0;
    proof {
        assert(t@.take(0) =~= Seq::<char>::empty());
        assert(string_views(parts@) =~= Seq::<Seq<char>>::empty());
    }
    while i < n
        invariant
            n == t@.len(),
            i <= n,
            (string_views(parts@), cur@) == split_state(t@.take(i as int)),
        decreases n - i,
    {
        let c = t.get_char(i);
        proof {
            assert(t@.take(i + 1).drop_last() =~= t@.take(i as int));
            assert(t@.take(i + 1).last() == c);
        }
        if c == '.' {
            if cur.unicode_len() > 0 {
                let ghost before = parts@;
                parts.push(cur);
                proof {
                    assert(string_views(parts@) =~= string_views(before).push(parts@.last()@));
                }
            }
            cur = String::new();
        } else {
            push_char(&mut cur, c);
        }
        i = i + 1;
    }
    proof {
        assert(t@.take(n as int) =~= t@);
    }
    if cur.unicode_len() > 0 {
        let ghost before = parts@;
        parts.push(cur);
        proof {
            assert(string_views(parts@) =~= string_views(before).push(parts@.last()@));
        }
    }
    if parts.len() <= 1 {
        return Vec::new();
    }
    let ghost all = parts@;
    parts.pop();
    proof {
        assert(string_views(parts@) =~= string_views(all).drop_last());
    }
    parts
}

// ---------------------------------------------------------------------------
// Rendered files
// ---------------------------------------------------------------------------

/// The banner at the top of every emitted file.
pub open spec fn header() -> Seq<char> {
    "// AUTO-GENERATED — DO NOT EDIT.\n// Run `yarn generate-lib` to regenerate.\n"@
}

/// The line registering the factory of module `name`.
pub open spec fn factory_line(name: Seq<char>) -> Seq<char> {
    "    factories.set("@ + debug_str(name) + ", createFactoryFromName(builder, schemas, "@ + debug_str(name) + "));\n"@
}

pub open spec fn factory_lines(names: Seq<Seq<char>>) -> Seq<char>
    decreases names.len(),
{
    if names.len() == 0 {
        Seq::empty()
    } else {
        factory_lines(names.drop_last()) + factory_line(names.last())
    }
}

/// The factory file of category `name` with modules `names`: a
/// `register<Name>` function adding a factory per module.
pub open spec fn category_text(name: Seq<char>, names: Seq<Seq<char>>) -> Seq<char> {
    header() + "\n"@
        + "import type { ModuleSchema } from '@modular/core';\n"@
        + "import type { GraphBuilder } from '../../runtime/graph';\n"@
        + "import type { FactoryFunction } from '../../runtime/factory/namespaceTree';\n"@
        + "import { createFactoryFromName } from '../../runtime/factory/createFactoryFromName';\n"@
        + "\n"@
        + "/** Register all `"@ + name + "` modules into `factories`. */\n"@
        + "export function register"@ + pascal(name)
        + "(builder: GraphBuilder, schemas: ModuleSchema[], factories: Map<string, FactoryFunction>): void {\n"@
        + factory_lines(names)
        + "}\n"@
}

/// Renders the factory file of a category.
pub fn render_category(category: &Category) -> (r: String)
    ensures
        r@ == category_text(category.name@, schema_names(category.schemas@)),
{
    let pascal_name = pascal_case(category.name.as_str());
    let mut out = String::new();
    out.append("// AUTO-GENERATED — DO NOT EDIT.\n// Run `yarn generate-lib` to regenerate.\n");
    out.append("\n");
    out.append("import type { ModuleSchema } from '@modular/core';\n");
    out.append("import type { GraphBuilder } from '../../runtime/graph';\n");
    out.append("import type { FactoryFunction } from '../../runtime/factory/namespaceTree';\n");
    out.append("import { createFactoryFromName } from '../../runtime/factory/createFactoryFromName';\n");
    out.append("\n");
    out.append("/** Register all `");
    out.append(category.name.as_str());
    out.append("` modules into `factories`. */\n");
    out.append("export function register");
    out.append(pascal_name.as_str());
    out.append("(builder: GraphBuilder, schemas: ModuleSchema[], factories: Map<string, FactoryFunction>): void {\n");
    let ghost head = out@;
    let ghost names = schema_names(category.schemas@);
    let mut i: usize = 0;
    proof {
        assert(names.take(0) =~= Seq::<Seq<char>>::empty());
        assert(out@ =~= head + factory_lines(names.take(0)));
    }
    while i < category.schemas.len()
        invariant
            i <= category.schemas@.len(),
            names == schema_names(category.schemas@),
            out@ == head + factory_lines(names.take(i as int)),
        decreases category.schemas@.len() - i,
    {
        let q = debug_quoted(category.schemas[i].name.as_str());
        out.append("    factories.set(");
        out.append(q.as_str());
        out.append(", createFactoryFromName(builder, schemas, ");
        out.append(q.as_str());
        out.append("));\n");
        proof {
            assert(names.take(i + 1).drop_last() =~= names.take(i as int));
            assert(names.take(i + 1).last() == category.schemas@[i as int].name@);
            assert(out@ =~= head + factory_lines(names.take(i + 1)));
        }
        i = i + 1;
    }
    out.append("}\n");
    proof {
        assert(names.take(i as int) =~= names);
        assert(out@ =~= category_text(category.name@, names));
    }
    out
}

pub open spec fn import_lines(names: Seq<Seq<char>>) -> Seq<char>
    decreases names.len(),
{
    if names.len() == 0 {
        Seq::empty()
    } else {
        import_lines(names.drop_last()) + "import { register"@ + pascal(names.last()) + " } from './"@ + names.last() + "';\n"@
    }
}

pub open spec fn register_lines(names: Seq<Seq<char>>) -> Seq<char>
    decreases names.len(),
{
    if names.len() == 0 {
        Seq::empty()
    } else {
        register_lines(names.drop_last()) + "    register"@ + pascal(names.last()) + "(builder, schemas, factories);\n"@
    }
}

pub open spec fn category_list(cats: Seq<Category>) -> Seq<Seq<char>> {
    cats.map_values(|c: Category| c.name@)
}

/// The opening of the barrel file, up to the category imports.
pub open spec fn index_head() -> Seq<char> {
    header() + "\n"@
        + "import type { ModuleSchema } from '@modular/core';\n"@
        + "import type { GraphBuilder } from '../../runtime/graph';\n"@
        + "import { buildNamespaceTree as buildNamespaceTreeFromFactories } from '../../runtime/factory/namespaceTree';\n"@
        + "import type { FactoryFunction, NamespaceTree } from '../../runtime/factory/namespaceTree';\n"@
        + "\n"@
}

/// The part between the imports and the registration calls.
pub open spec fn index_middle() -> Seq<char> {
    "\n"@
        + "/** Register every category's factories into a flat name → factory map. */\n"@
        + "export function buildAllFactories(builder: GraphBuilder, schemas: ModuleSchema[]): Map<string, FactoryFunction> {\n"@
        + "    const factories = new Map<string, FactoryFunction>();\n"@
}

/// The rest of the barrel file after the registration calls.
pub open spec fn index_tail() -> Seq<char> {
    "    return factories;\n"@
        + "}\n"@
        + "\n"@
        + "/** Build the user-facing nested DSL namespace tree from the flat factory map. */\n"@
        + "export function buildNamespaceTree(builder: GraphBuilder, schemas: ModuleSchema[]): { factories: Map<string, FactoryFunction>; namespaceTree: NamespaceTree } {\n"@
        + "    const factories = buildAllFactories(builder, schemas);\n"@
        + "    const flatMap: Record<string, FactoryFunction> = {};\n"@
        + "    for (const [name, fn] of factories) {\n"@
        + "        flatMap[sanitizeIdentifier(name)] = fn;\n"@
        + "    }\n"@
        + "    return { factories, namespaceTree: buildNamespaceTreeFromFactories(schemas, flatMap) };\n"@
        + "}\n"@
        + "\n"@
        + "function sanitizeIdentifier(name: string): string {\n"@
        + "    let id = name.replace(/[^a-zA-Z0-9_$]+(.)?/g, (_match, chr) => (chr ? chr.toUpperCase() : ''));\n"@
        + "    if (!/^[A-Za-z_$]/.test(id)) id = `_${id}`;\n"@
        + "    return id || '_';\n"@
        + "}\n"@
}

/// The barrel file: imports every category's `register<Name>`, and defines
/// `buildAllFactories`, which calls them in order, and
/// `buildNamespaceTree`, which turns the flat factory map into the DSL's
/// nested namespace tree.
pub open spec fn index_text(names: Seq<Seq<char>>) -> Seq<char> {
    index_head() + import_lines(names) + index_middle() + register_lines(names) + index_tail()
}

/// Renders the barrel file that registers every category.
pub fn render_index(categories: &[Category]) -> (r: String)
    ensures
        r@ == index_text(category_list(categories@)),
{
    let ghost names = category_list(categories@);
    let mut out = String::new();
    out.append("// AUTO-GENERATED — DO NOT EDIT.\n// Run `yarn generate-lib` to regenerate.\n");
    out.append("\n");
    out.append("import type { ModuleSchema } from '@modular/core';\n");
    out.append("import type { GraphBuilder } from '../../runtime/graph';\n");
    out.append("import { buildNamespaceTree as buildNamespaceTreeFromFactories } from '../../runtime/factory/namespaceTree';\n");
    out.append("import type { FactoryFunction, NamespaceTree } from '../../runtime/factory/namespaceTree';\n");
    out.append("\n");
    proof {
        assert(out@ =~= index_head());
        assert(names.take(0) =~= Seq::<Seq<char>>::empty());
        assert(out@ =~= index_head() + import_lines(names.take(0)));
    }
    let mut i: usize = 0;
    while i < categories.len()
        invariant
            i <= categories@.len(),
            names == category_list(categories@),
            out@ == index_head() + import_lines(names.take(i as int)),
        decreases categories@.len() - i,
    {
        let p = pascal_case(categories[i].name.as_str());
        out.append("import { register");
        out.append(p.as_str());
        out.append(" } from './");
        out.append(categories[i].name.as_str());
        out.append("';\n");
        proof {
            assert(names.take(i + 1).drop_last() =~= names.take(i as int));
            assert(names.take(i + 1).last() == categories@[i as int].name@);
            assert(out@ =~= index_head() + import_lines(names.take(i + 1)));
        }
        i = i + 1;
    }
    proof {
        assert(names.take(i as int) =~= names);
    }
    out.append("\n");
    out.append("/** Register every category's factories into a flat name → factory map. */\n");
    out.append("export function buildAllFactories(builder: GraphBuilder, schemas: ModuleSchema[]): Map<string, FactoryFunction> {\n");
    out.append("    const factories = new Map<string, FactoryFunction>();\n");
    let ghost head = out@;
    proof {
        assert(head =~= index_head() + import_lines(names) + index_middle());
        assert(out@ =~= head + register_lines(names.take(0)));
    }
    let mut j: usize = 0;
    while j < categories.len()
        invariant
            j <= categories@.len(),
            names == category_list(categories@),
            out@ == head + register_lines(names.take(j as int)),
        decreases categories@.len() - j,
    {
        let p = pascal_case(categories[j].name.as_str());
        out.append("    register");
        out.append(p.as_str());
        out.append("(builder, schemas, factories);\n");
        proof {
            assert(names.take(j + 1).drop_last() =~= names.take(j as int));
            assert(names.take(j + 1).last() == categories@[j as int].name@);
            assert(out@ =~= head + register_lines(names.take(j + 1)));
        }
        j = j + 1;
    }
    proof {
        assert(names.take(j as int) =~= names);
    }
    let ghost body = out@;
    out.append("    return factories;\n");
    out.append("}\n");
    out.append("\n");
    out.append("/** Build the user-facing nested DSL namespace tree from the flat factory map. */\n");
    out.append("export function buildNamespaceTree(builder: GraphBuilder, schemas: ModuleSchema[]): { factories: Map<string, FactoryFunction>; namespaceTree: NamespaceTree } {\n");
    out.append("    const factories = buildAllFactories(builder, schemas);\n");
    out.append("    const flatMap: Record<string, FactoryFunction> = {};\n");
    out.append("    for (const [name, fn] of factories) {\n");
    out.append("        flatMap[sanitizeIdentifier(name)] = fn;\n");
    out.append("    }\n");
    out.append("    return { factories, namespaceTree: buildNamespaceTreeFromFactories(schemas, flatMap) };\n");
    out.append("}\n");
    out.append("\n");
    out.append("function sanitizeIdentifier(name: string): string {\n");
    out.append("    let id = name.replace(/[^a-zA-Z0-9_$]+(.)?/g, (_match, chr) => (chr ? chr.toUpperCase() : ''));\n");
    out.append("    if (!/^[A-Za-z_$]/.test(id)) id = `_${id}`;\n");
    out.append("    return id || '_';\n");
    out.append("}\n");
    proof {
        assert(out@ =~= body + index_tail());
        assert(out@ =~= index_text(names));
    }
    out
}

pub open spec fn reserved_lines(names: Seq<Seq<char>>) -> Seq<char>
    decreases names.len(),
{
    if names.len() == 0 {
        Seq::empty()
    } else {
        reserved_lines(names.drop_last()) + "    "@ + debug_str(names.last()) + ",\n"@
    }
}

/// The reserved output names module: the names as a constant tuple, their
/// type, and a set of them.
pub open spec fn reserved_text(names: Seq<Seq<char>>) -> Seq<char> {
    header() + "\n"@
        + "export const RESERVED_OUTPUT_NAMES = [\n"@
        + reserved_lines(names)
        + "] as const;\n\n"@
        + "export type ReservedOutputName = (typeof RESERVED_OUTPUT_NAMES)[number];\n\n"@
        + "export const RESERVED_OUTPUT_NAMES_SET: ReadonlySet<string> = new Set(RESERVED_OUTPUT_NAMES);\n"@
}

/// Renders the module listing the output names that module ports may not use.
pub fn render(names: &[String]) -> (r: String)
    ensures
        r@ == reserved_text(string_views(names@)),
{
    let ghost views = string_views(names@);
    let mut out = String::new();
    out.append("// AUTO-GENERATED — DO NOT EDIT.\n// Run `yarn generate-lib` to regenerate.\n");
    out.append("\n");
    out.append("export const RESERVED_OUTPUT_NAMES = [\n");
    let ghost head = out@;
    proof {
        assert(views.take(0) =~= Seq::<Seq<char>>::empty());
        assert(out@ =~= head + reserved_lines(views.take(0)));
    }
    let mut i: usize = 0;
    while i < names.len()
        invariant
            i <= names@.len(),
            views == string_views(names@),
            out@ == head + reserved_lines(views.take(i as int)),
        decreases names@.len() - i,
    {
        let q = debug_quoted(names[i].as_str());
        out.append("    ");
        out.append(q.as_str());
        out.append(",\n");
        proof {
            assert(views.take(i + 1).drop_last() =~= views.take(i as int));
            assert(views.take(i + 1).last() == names@[i as int]@);
            assert(out@ =~= head + reserved_lines(views.take(i + 1)));
        }
        i = i + 1;
    }
    proof {
        assert(views.take(i as int) =~= views);
    }
    out.append("] as const;\n\n");
    out.append("export type ReservedOutputName = (typeof RESERVED_OUTPUT_NAMES)[number];\n\n");
    out.append("export const RESERVED_OUTPUT_NAMES_SET: ReadonlySet<string> = new Set(RESERVED_OUTPUT_NAMES);\n");
    proof {
        assert(out@ =~= reserved_text(views));
    }
    out
}

/// A file the generator wrote or left alone because its content was unchanged.
pub struct WrittenFile {
    pub path: String,
    pub changed: bool,
}


/// Whether a generated file must be written: it is missing, or holds other text.
pub fn needs_write(existing: &Option<String>, content: &str) -> (r: bool)
    ensures
        r == !(existing matches Some(e) && e@ == content@),
{
    match existing {
        Some(e) => !crate::text::str_eq(e.as_str(), content),
        None => true,
    }
}

/// The extension of the temporary file a generated file is first written
/// to: its own extension (or `tmp`) followed by `.tmp`.
pub fn temp_extension(extension: &Option<String>) -> (r: String)
    ensures
        r@ == (match extension {
            Some(e) => e@,
            None => "tmp"@,
        }) + ".tmp"@,
{
    match extension {
        Some(e) => crate::text::join2(e.as_str(), ".tmp"),
        None => crate::text::join2("tmp", ".tmp"),
    }
}
} // verus!
