//! Graph analyses over finished module/relationship sets: cycles,
//! unused modules, metrics, problem classification, relationship
//! derivation, and family selection.

use modulegraph::analyzer::{detect_project_family, ProjectAnalyzer, ProjectFamily};
use modulegraph::models::{
    Item, ItemType, Module, ModuleType, ProjectStructure, Relationship, RelationType, Visibility,
};
use modulegraph::parser::RustParser;
use modulegraph::python_analyzer::PythonAnalyzer;

fn plain_module(id: &str, name: &str, kind: ModuleType) -> Module {
    Module {
        id: String::from(id),
        name: String::from(name),
        path: format!("src/{}.rs", id),
        module_type: kind,
        visibility: Visibility::Public,
        items: Vec::new(),
    }
}

fn uses_edge(from: &str, to: &str) -> Relationship {
    Relationship {
        from: String::from(from),
        to: String::from(to),
        rel_type: RelationType::Uses,
    }
}

#[test]
fn mutual_imports_form_a_two_module_cycle() {
    // file `a` imports `b`; file `b` imports `a`
    let mut az = ProjectAnalyzer::new(String::from("proj"));
    let mut parser = RustParser::new();
    let module_a = parser.parse_file("use b;\n", "a", "src/a.rs").unwrap();
    let uses_a = parser.get_uses();
    assert!(az.add_module_with_uses(module_a, &uses_a));
    let module_b = parser.parse_file("use a;\n", "b", "src/b.rs").unwrap();
    let uses_b = parser.get_uses();
    assert!(az.add_module_with_uses(module_b, &uses_b));

    assert_eq!(az.relationships.len(), 2);
    assert_eq!(az.relationships[0].from, "a");
    assert_eq!(az.relationships[0].to, "b");
    assert!(matches!(az.relationships[0].rel_type, RelationType::Uses));
    assert_eq!(az.relationships[1].from, "b");
    assert_eq!(az.relationships[1].to, "a");

    let cycles = az.detect_cycles();
    assert_eq!(cycles.len(), 1);
    assert_eq!(cycles[0].len(), 2);
    assert!(cycles[0].contains(&String::from("a")));
    assert!(cycles[0].contains(&String::from("b")));
}

#[test]
fn acyclic_relationships_yield_no_cycles() {
    let mut az = ProjectAnalyzer::new(String::from("proj"));
    assert!(az.add_module(plain_module("a", "a", ModuleType::Module)));
    assert!(az.add_module(plain_module("b", "b", ModuleType::Module)));
    az.relationships.push(uses_edge("a", "b"));
    assert!(az.detect_cycles().is_empty());
}

#[test]
fn recorded_cycle_ends_connect_by_an_edge() {
    let mut az = ProjectAnalyzer::new(String::from("proj"));
    assert!(az.add_module(plain_module("a", "a", ModuleType::Module)));
    assert!(az.add_module(plain_module("b", "b", ModuleType::Module)));
    assert!(az.add_module(plain_module("c", "c", ModuleType::Module)));
    az.relationships.push(uses_edge("a", "b"));
    az.relationships.push(uses_edge("b", "c"));
    az.relationships.push(uses_edge("c", "a"));
    let cycles = az.detect_cycles();
    assert_eq!(cycles.len(), 1);
    let cycle = &cycles[0];
    assert_eq!(cycle.len(), 3);
    let last = cycle.last().unwrap();
    let first = &cycle[0];
    assert!(az.relationships.iter().any(|r| &r.from == last && &r.to == first));
}

#[test]
fn self_import_always_yields_a_recorded_cycle() {
    let mut az = ProjectAnalyzer::new(String::from("proj"));
    assert!(az.add_module(plain_module("a", "a", ModuleType::Module)));
    assert!(az.add_module(plain_module("b", "b", ModuleType::Module)));
    az.relationships.push(uses_edge("a", "b"));
    az.relationships.push(uses_edge("b", "b"));
    let cycles = az.detect_cycles();
    assert!(cycles
        .iter()
        .any(|c| c.first().map(|s| s.as_str()) == Some("b")
            && c.last().map(|s| s.as_str()) == Some("b")));
}

#[test]
fn a_second_file_with_the_same_id_is_refused() {
    // src/foo.rs and src/foo/mod.rs collapse to the same logical path;
    // the second file may not silently take the same id
    let mut az = ProjectAnalyzer::new(String::from("proj"));
    let mut parser = RustParser::new();
    let name1 = az.path_to_module_name("src/foo.rs");
    let first = parser.parse_file("pub fn a() {}\n", &name1, "src/foo.rs").unwrap();
    assert!(az.add_module_with_uses(first, &parser.get_uses()));
    let name2 = az.path_to_module_name("src/foo/mod.rs");
    assert_eq!(name1, name2);
    let second = parser.parse_file("pub fn b() {}\n", &name2, "src/foo/mod.rs").unwrap();
    assert!(!az.add_module_with_uses(second, &parser.get_uses()));
    assert_eq!(az.modules.len(), 1);
    assert_eq!(az.modules[0].path, "src/foo.rs");
}

#[test]
fn entry_modules_are_never_unused() {
    let mut az = ProjectAnalyzer::new(String::from("proj"));
    // no incoming edges at all, still exempt
    assert!(az.add_module(plain_module("main", "main", ModuleType::Binary)));
    assert!(az.add_module(plain_module("lib", "lib", ModuleType::Library)));
    assert!(az.add_module(plain_module("orphan", "orphan", ModuleType::Module)));
    let unused = az.find_unused_modules();
    assert_eq!(unused, vec![String::from("orphan")]);
}

#[test]
fn declares_edges_do_not_count_as_usage() {
    let mut az = ProjectAnalyzer::new(String::from("proj"));
    assert!(az.add_module(plain_module("a", "a", ModuleType::Module)));
    assert!(az.add_module(plain_module("a-b", "a::b", ModuleType::Module)));
    az.build_relationships();
    // parent a declares a::b, but nothing *uses* either module
    assert_eq!(az.relationships.len(), 1);
    assert_eq!(az.relationships[0].from, "a");
    assert_eq!(az.relationships[0].to, "a-b");
    assert!(matches!(az.relationships[0].rel_type, RelationType::Declares));
    let unused = az.find_unused_modules();
    assert_eq!(unused, vec![String::from("a"), String::from("a::b")]);
}

#[test]
fn python_declares_edges_from_path_hierarchy() {
    let mut az = PythonAnalyzer::new(String::from("proj"));
    let (pkg, u1) = az.parse_python_file("", "pkg", "pkg/__init__.py");
    assert!(az.add_python_module(pkg, &u1));
    let (child, u2) = az.parse_python_file("", "pkg.mod", "pkg/mod.py");
    assert!(az.add_python_module(child, &u2));
    let structure = az.analyze();
    assert_eq!(structure.relationships.len(), 1);
    assert_eq!(structure.relationships[0].from, "pkg");
    assert_eq!(structure.relationships[0].to, "pkg-mod");
    assert!(matches!(structure.relationships[0].rel_type, RelationType::Declares));
}

#[test]
fn metrics_count_edges_and_items() {
    let mut az = ProjectAnalyzer::new(String::from("proj"));
    let mut m = plain_module("a", "a", ModuleType::Module);
    m.items.push(Item {
        name: String::from("f"),
        item_type: ItemType::Function,
        visibility: Visibility::Public,
    });
    assert!(az.add_module(m));
    assert!(az.add_module(plain_module("b", "b", ModuleType::Module)));
    az.relationships.push(uses_edge("a", "b"));
    az.relationships.push(uses_edge("b", "a"));
    az.relationships.push(uses_edge("b", "a"));
    let loc = vec![7usize, 9usize];
    let metrics = az.calculate_metrics(&loc);
    assert_eq!(metrics.len(), 2);
    assert_eq!(metrics[0].0, "a");
    assert_eq!(metrics[0].1.lines_of_code, 7);
    assert_eq!(metrics[0].1.incoming_deps, 2);
    assert_eq!(metrics[0].1.outgoing_deps, 1);
    assert_eq!(metrics[0].1.complexity_score, 1);
    assert_eq!(metrics[1].0, "b");
    assert_eq!(metrics[1].1.incoming_deps, 1);
    assert_eq!(metrics[1].1.outgoing_deps, 2);
    assert_eq!(metrics[1].1.complexity_score, 0);
}

#[test]
fn large_module_threshold_is_strict() {
    let mut az = ProjectAnalyzer::new(String::from("proj"));
    assert!(az.add_module(plain_module("exact", "exact", ModuleType::Binary)));
    assert!(az.add_module(plain_module("over", "over", ModuleType::Binary)));
    let loc = vec![500usize, 501usize];
    let problems = az.analyze_problems(&loc);
    assert_eq!(problems.large_modules, vec![String::from("over (501 lines)")]);
}

#[test]
fn coupling_threshold_is_strict() {
    let mut az = ProjectAnalyzer::new(String::from("proj"));
    assert!(az.add_module(plain_module("ten", "ten", ModuleType::Binary)));
    assert!(az.add_module(plain_module("eleven", "eleven", ModuleType::Binary)));
    for _ in 0..10 {
        az.relationships.push(uses_edge("x", "ten"));
    }
    for _ in 0..11 {
        az.relationships.push(uses_edge("x", "eleven"));
    }
    let loc = vec![1usize, 1usize];
    let problems = az.analyze_problems(&loc);
    assert_eq!(problems.highly_coupled, vec![String::from("eleven (11 deps)")]);
}

#[test]
fn unrecognized_project_selects_no_family() {
    // Scenario: no manifest and no marker files at all
    assert_eq!(detect_project_family(false, false, false, false, false), None);
    assert_eq!(
        detect_project_family(true, false, false, false, false),
        Some(ProjectFamily::Rust)
    );
    // the primary manifest wins over any marker
    assert_eq!(
        detect_project_family(true, true, true, true, true),
        Some(ProjectFamily::Rust)
    );
    assert_eq!(
        detect_project_family(false, false, false, false, true),
        Some(ProjectFamily::Python)
    );
}

#[test]
fn initialize_data_loads_an_aggregate() {
    let structure = ProjectStructure {
        root_path: String::from("proj"),
        modules: vec![plain_module("a", "a", ModuleType::Module)],
        dependencies: Vec::new(),
        relationships: vec![uses_edge("x", "a")],
    };
    let mut az = ProjectAnalyzer::new(String::from("proj"));
    az.initialize_data(structure);
    assert_eq!(az.modules.len(), 1);
    assert_eq!(az.relationships.len(), 1);
    assert!(az.find_unused_modules().is_empty());
}

#[test]
fn finish_assembles_the_aggregate() {
    let mut az = ProjectAnalyzer::new(String::from("proj"));
    assert!(az.add_module(plain_module("a", "a", ModuleType::Library)));
    assert!(az.add_module(plain_module("a-b", "a::b", ModuleType::Module)));
    let structure = az.finish();
    assert_eq!(structure.root_path, "proj");
    assert_eq!(structure.modules.len(), 2);
    assert_eq!(structure.relationships.len(), 1);
    assert!(matches!(structure.relationships[0].rel_type, RelationType::Declares));
}
