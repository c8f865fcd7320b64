use modular::codegen::{needs_write, temp_extension};
use modular::generate_args::{barrel_index, parse_generate_args, GenerateArgs};
use modular::codegen::{all_categories, namespace_path, pascal_case, render, render_category, render_index, trim, Category, CategorySchemas};
use modular::json::JsonValue;
use modular::validation::ModuleSchema;

const HEADER: &str = "// AUTO-GENERATED — DO NOT EDIT.\n// Run `yarn generate-lib` to regenerate.\n";

fn schema(name: &str) -> ModuleSchema {
    ModuleSchema {
        name: name.to_string(),
        description: String::new(),
        params_schema: JsonValue::Null,
        outputs: vec![],
        positional_args: vec![],
    }
}

#[test]
fn pascal_case_joins_words() {
    assert_eq!(pascal_case("core"), "Core");
    assert_eq!(pascal_case("snake_case-and-kebab"), "SnakeCaseAndKebab");
    assert_eq!(pascal_case("__x"), "X");
    assert_eq!(pascal_case(""), "");
    assert_eq!(pascal_case("a1_b2"), "A1B2");
}

#[test]
fn categories_come_in_registry_order() {
    let groups = CategorySchemas {
        core: vec![schema("$sine")],
        dynamics: vec![],
        fx: vec![schema("$plate"), schema("$fold")],
        oscillators: vec![],
        filters: vec![],
        phase: vec![],
        utilities: vec![],
        seq: vec![],
        midi: vec![],
        samplers: vec![],
    };
    let cats = all_categories(groups);
    let names: Vec<&str> = cats.iter().map(|c| c.name.as_str()).collect();
    assert_eq!(
        names,
        vec!["core", "dynamics", "fx", "oscillators", "filters", "phase", "utilities", "seq", "midi", "samplers"]
    );
    assert_eq!(cats[2].schemas.len(), 2);
    assert_eq!(cats[2].schemas[1].name, "$fold");
}

#[test]
fn category_file_registers_each_module() {
    let cat = Category { name: "fx".to_string(), schemas: vec![schema("$plate"), schema("$fold")] };
    let lines = [
        "",
        "import type { ModuleSchema } from '@modular/core';",
        "import type { GraphBuilder } from '../../runtime/graph';",
        "import type { FactoryFunction } from '../../runtime/factory/namespaceTree';",
        "import { createFactoryFromName } from '../../runtime/factory/createFactoryFromName';",
        "",
        "/** Register all `fx` modules into `factories`. */",
        "export function registerFx(builder: GraphBuilder, schemas: ModuleSchema[], factories: Map<string, FactoryFunction>): void {",
        "    factories.set(\"$plate\", createFactoryFromName(builder, schemas, \"$plate\"));",
        "    factories.set(\"$fold\", createFactoryFromName(builder, schemas, \"$fold\"));",
        "}",
    ];
    let expected = format!("{HEADER}{}\n", lines.join("\n"));
    assert_eq!(render_category(&cat), expected);
}

#[test]
fn index_file_imports_and_registers_every_category() {
    let cats = vec![
        Category { name: "core".to_string(), schemas: vec![] },
        Category { name: "fx".to_string(), schemas: vec![] },
    ];
    let out = render_index(&cats);
    assert!(out.starts_with(HEADER));
    assert!(out.contains("import { registerCore } from './core';\nimport { registerFx } from './fx';\n"));
    assert!(out.contains(
        "    const factories = new Map<string, FactoryFunction>();\n    registerCore(builder, schemas, factories);\n    registerFx(builder, schemas, factories);\n    return factories;\n"
    ));
    assert!(out.ends_with("    return id || '_';\n}\n"));
}

#[test]
fn reserved_names_file_lists_the_names() {
    let out = render(&["output".to_string(), "gain".to_string()]);
    let expected = format!(
        "{HEADER}\nexport const RESERVED_OUTPUT_NAMES = [\n    \"output\",\n    \"gain\",\n] as const;\n\n\
export type ReservedOutputName = (typeof RESERVED_OUTPUT_NAMES)[number];\n\n\
export const RESERVED_OUTPUT_NAMES_SET: ReadonlySet<string> = new Set(RESERVED_OUTPUT_NAMES);\n"
    );
    assert_eq!(out, expected);
}

#[test]
fn names_with_quotes_are_escaped_as_rust_debug_does() {
    let out = render(&["a\"b".to_string()]);
    assert!(out.contains("    \"a\\\"b\",\n"));
}

#[test]
fn namespace_paths() {
    assert_eq!(namespace_path("  fx.reverb.plate "), vec!["fx".to_string(), "reverb".to_string()]);
    assert_eq!(namespace_path("sine"), Vec::<String>::new());
    assert_eq!(namespace_path("a..b."), vec!["a".to_string()]);
    assert_eq!(namespace_path(""), Vec::<String>::new());
}

#[test]
fn trimming_whitespace() {
    assert_eq!(trim("  a b \t\n"), "a b");
    assert_eq!(trim("\u{3000}x\u{a0}"), "x");
    assert_eq!(trim("   "), "");
    assert_eq!(trim("x"), "x");
}

#[test]
fn generated_files_written_only_when_changed() {
    assert!(needs_write(&None, "x"));
    assert!(needs_write(&Some("old".to_string()), "new"));
    assert!(!needs_write(&Some("same".to_string()), "same"));
    assert_eq!(temp_extension(&Some("ts".to_string())), "ts.tmp");
    assert_eq!(temp_extension(&None), "tmp.tmp");
}

#[test]
fn generator_arguments() {
    let a = |v: &[&str]| v.iter().map(|s| s.to_string()).collect::<Vec<String>>();
    match parse_generate_args(&a(&["--no-format", "--out-dir", "x", "--out-dir", "y"])) {
        GenerateArgs::Run { out_dir, print_debug, no_format } => {
            assert_eq!(out_dir.as_deref(), Some("y"));
            assert!(!print_debug);
            assert!(no_format);
        },
        _ => panic!("expected run"),
    }
    assert!(matches!(parse_generate_args(&a(&["--out-dir"])), GenerateArgs::MissingOutDir));
    assert!(matches!(parse_generate_args(&a(&["-h", "--bogus"])), GenerateArgs::Help));
    match parse_generate_args(&a(&["--print-resolver-debug", "--bogus"])) {
        GenerateArgs::Unknown(s) => assert_eq!(s, "--bogus"),
        _ => panic!("expected unknown"),
    }
    assert!(matches!(parse_generate_args(&a(&[])), GenerateArgs::Run { out_dir: None, print_debug: false, no_format: false }));
    assert!(barrel_index().starts_with("// AUTO-GENERATED"));
}
