//! Per-file extraction scenarios for both language families, path
//! normalization, and dependency-manifest parsing.

use modulegraph::analyzer::ProjectAnalyzer;
use modulegraph::models::{DependencyType, ItemType, ModuleType, Visibility};
use modulegraph::parser::RustParser;
use modulegraph::python_analyzer::{first_manifest, PyManifest, PythonAnalyzer};

fn py() -> PythonAnalyzer {
    PythonAnalyzer::new(String::from("proj"))
}

#[test]
fn private_def_yields_private_function_item() {
    let az = py();
    let (module, uses) = az.parse_python_file("def _helper():\n    pass\n", "m", "m.py");
    assert_eq!(module.items.len(), 1);
    assert_eq!(module.items[0].name, "_helper");
    assert!(matches!(module.items[0].item_type, ItemType::Function));
    assert!(matches!(module.items[0].visibility, Visibility::Private));
    assert_eq!(uses.len(), 0);
}

#[test]
fn public_def_yields_public_function_item() {
    let az = py();
    let (module, _) = az.parse_python_file("def helper():\n    pass\n", "m", "m.py");
    assert_eq!(module.items.len(), 1);
    assert_eq!(module.items[0].name, "helper");
    assert!(matches!(module.items[0].visibility, Visibility::Public));
}

#[test]
fn class_line_yields_struct_item() {
    let az = py();
    let (module, _) = az.parse_python_file("class Shape(Base):\n    pass\n", "m", "m.py");
    assert_eq!(module.items.len(), 1);
    assert_eq!(module.items[0].name, "Shape");
    assert!(matches!(module.items[0].item_type, ItemType::Struct));
    assert!(matches!(module.items[0].visibility, Visibility::Public));
}

#[test]
fn python_extraction_is_deterministic() {
    let az = py();
    let src = "import os\nfrom a.b import c\n\ndef f(x):\n    return x\n\nclass _C:\n    pass\n";
    let (m1, u1) = az.parse_python_file(src, "pkg.mod", "pkg/mod.py");
    let (m2, u2) = az.parse_python_file(src, "pkg.mod", "pkg/mod.py");
    assert_eq!(m1.id, m2.id);
    assert_eq!(m1.name, m2.name);
    assert_eq!(m1.items.len(), m2.items.len());
    for (a, b) in m1.items.iter().zip(m2.items.iter()) {
        assert_eq!(a.name, b.name);
    }
    assert_eq!(u1, u2);
    assert_eq!(u1, vec![String::from("os"), String::from("a.b")]);
}

#[test]
fn extract_import_takes_first_token_after_keyword() {
    let az = py();
    assert_eq!(az.extract_import("import os"), Some(String::from("os")));
    assert_eq!(az.extract_import("from a.b import c"), Some(String::from("a.b")));
    assert_eq!(az.extract_import("import   numpy   as np"), Some(String::from("numpy")));
    assert_eq!(az.extract_import("x = 1"), None);
    assert_eq!(az.extract_import("import"), None);
}

#[test]
fn extract_function_and_class_names() {
    let az = py();
    assert_eq!(az.extract_function_name("def foo(x, y):"), Some(String::from("foo")));
    assert_eq!(az.extract_function_name("def nope"), None);
    assert_eq!(az.extract_class_name("class Foo(Base):"), Some(String::from("Foo")));
    assert_eq!(az.extract_class_name("class Bar:"), Some(String::from("Bar")));
    assert_eq!(az.extract_class_name("class Baz"), Some(String::from("Baz")));
    assert_eq!(az.extract_class_name("x = 2"), None);
}

#[test]
fn python_path_normalization() {
    let az = py();
    assert_eq!(az.path_to_module_name("a/b.py"), "a.b");
    assert_eq!(az.path_to_module_name("pkg/__init__.py"), "pkg");
    // only the final package-index component collapses
    assert_eq!(az.path_to_module_name("x/__init__y.py"), "x.__init__y");
    assert_eq!(az.module_id("a.b"), "a-b");
}

#[test]
fn python_id_normalization_is_idempotent_on_canonical_form() {
    let az = py();
    let once = az.module_id("a.b.c");
    assert_eq!(once, "a-b-c");
    assert_eq!(az.module_id(&once), once);
}

#[test]
fn python_ids_do_not_collide_with_underscored_names() {
    let az = py();
    // a_b.py and a/b.py must not share an id
    assert_eq!(az.module_id(&az.path_to_module_name("a_b.py")), "a_b");
    assert_eq!(az.module_id(&az.path_to_module_name("a/b.py")), "a-b");
}

#[test]
fn python_module_kinds() {
    let az = py();
    assert!(matches!(az.determine_module_type("proj/tests/x.py"), ModuleType::Test));
    assert!(matches!(az.determine_module_type("test_x.py"), ModuleType::Test));
    assert!(matches!(az.determine_module_type("proj/examples/e.py"), ModuleType::Example));
    assert!(matches!(az.determine_module_type("proj/__main__.py"), ModuleType::Binary));
    assert!(matches!(az.determine_module_type("proj/a.py"), ModuleType::Module));
}

#[test]
fn requirements_list_with_comment_and_blank_line() {
    let mut az = py();
    az.parse_requirements("flask==2.0.1\n# a comment\n\n");
    assert_eq!(az.dependencies.len(), 1);
    assert_eq!(az.dependencies[0].name, "flask");
    assert_eq!(az.dependencies[0].version, "2.0.1");
    assert!(matches!(az.dependencies[0].dep_type, DependencyType::Normal));
}

#[test]
fn requirements_without_version_get_wildcard() {
    let mut az = py();
    az.parse_requirements("requests\n");
    assert_eq!(az.dependencies.len(), 1);
    assert_eq!(az.dependencies[0].name, "requests");
    assert_eq!(az.dependencies[0].version, "*");
}

#[test]
fn manifest_priority_prefers_requirements_list() {
    assert_eq!(first_manifest(true, true, true), Some(PyManifest::Requirements));
    assert_eq!(first_manifest(false, true, true), Some(PyManifest::Setup));
    assert_eq!(first_manifest(false, false, true), Some(PyManifest::Pyproject));
    assert_eq!(first_manifest(false, false, false), None);
}

#[test]
fn rust_items_with_visibility_classes() {
    let mut parser = RustParser::new();
    let src = "pub fn a() {}\npub(crate) struct S;\npub(super) enum E { X }\nfn hidden() {}\npub(in a::b) const K: u32 = 1;\n";
    let module = parser.parse_file(src, "m", "src/m.rs").unwrap();
    assert_eq!(module.items.len(), 5);
    assert_eq!(module.items[0].name, "a");
    assert!(matches!(module.items[0].item_type, ItemType::Function));
    assert!(matches!(module.items[0].visibility, Visibility::Public));
    assert_eq!(module.items[1].name, "S");
    assert!(matches!(module.items[1].item_type, ItemType::Struct));
    assert!(matches!(module.items[1].visibility, Visibility::Crate));
    assert_eq!(module.items[2].name, "E");
    assert!(matches!(module.items[2].item_type, ItemType::Enum));
    assert!(matches!(module.items[2].visibility, Visibility::Super));
    assert_eq!(module.items[3].name, "hidden");
    assert!(matches!(module.items[3].visibility, Visibility::Private));
    assert_eq!(module.items[4].name, "K");
    assert!(matches!(module.items[4].item_type, ItemType::Const));
    assert!(matches!(module.items[4].visibility, Visibility::Private));
}

#[test]
fn rust_use_tree_expansion_records_every_segment() {
    let mut parser = RustParser::new();
    let src = "use a::b::c;\nuse x::*;\nuse p::{q, r as s};\n";
    parser.parse_file(src, "m", "src/m.rs").unwrap();
    let uses = parser.get_uses();
    // a::b::c: deepest name first, then each prefix outwards
    // x::*: the glob names nothing, only the prefix
    // p::{q, r as s}: the group members (a rename records the original
    // name), then the prefix
    assert_eq!(
        uses,
        vec![
            String::from("c"),
            String::from("b"),
            String::from("a"),
            String::from("x"),
            String::from("q"),
            String::from("r"),
            String::from("p"),
        ]
    );
}

#[test]
fn rust_parse_failure_is_an_error() {
    let mut parser = RustParser::new();
    assert!(parser.parse_file("fn broken(", "m", "src/m.rs").is_err());
}

#[test]
fn rust_extraction_is_deterministic() {
    let src = "use a::b;\npub fn f() {}\n";
    let mut p1 = RustParser::new();
    let mut p2 = RustParser::new();
    let m1 = p1.parse_file(src, "m", "src/m.rs").unwrap();
    let m2 = p2.parse_file(src, "m", "src/m.rs").unwrap();
    assert_eq!(m1.id, m2.id);
    assert_eq!(m1.items.len(), m2.items.len());
    assert_eq!(p1.get_uses(), p2.get_uses());
}

#[test]
fn rust_path_normalization() {
    let az = ProjectAnalyzer::new(String::from("proj"));
    assert_eq!(az.path_to_module_name("src/a/b.rs"), "a::b");
    assert_eq!(az.path_to_module_name("src/a/mod.rs"), "a");
    assert_eq!(az.path_to_module_name("tests/t.rs"), "t");
    // only a final /mod component is the package-index file
    assert_eq!(az.path_to_module_name("src/foo/models.rs"), "foo::models");
    assert_eq!(az.module_id("a::b"), "a-b");
}

#[test]
fn rust_ids_do_not_collide_with_underscored_names() {
    let az = ProjectAnalyzer::new(String::from("proj"));
    // src/a_b.rs and src/a/b.rs must not share an id
    assert_eq!(az.module_id(&az.path_to_module_name("src/a_b.rs")), "a_b");
    assert_eq!(az.module_id(&az.path_to_module_name("src/a/b.rs")), "a-b");
}

#[test]
fn rust_id_normalization_is_idempotent_on_canonical_form() {
    let az = ProjectAnalyzer::new(String::from("proj"));
    let once = az.module_id("a::b::c");
    assert_eq!(once, "a-b-c");
    assert_eq!(az.module_id(&once), once);
}

#[test]
fn rust_module_kinds() {
    assert!(matches!(RustParser::determine_module_type("tests/t.rs"), ModuleType::Test));
    assert!(matches!(RustParser::determine_module_type("examples/e.rs"), ModuleType::Example));
    assert!(matches!(RustParser::determine_module_type("benches/b.rs"), ModuleType::Benchmark));
    assert!(matches!(RustParser::determine_module_type("src/main.rs"), ModuleType::Binary));
    assert!(matches!(RustParser::determine_module_type("src/lib.rs"), ModuleType::Library));
    assert!(matches!(RustParser::determine_module_type("src/a.rs"), ModuleType::Module));
}
