//! The heuristic line-scanning extractor for Python sources: no syntax
//! tree is built; declaration and import keywords are matched line by line,
//! visibility is inferred from the leading-underscore convention, and a
//! plain requirements list yields the declared dependencies.

use vstd::prelude::*;

use crate::models::{
    Dependency, DependencyType, DependencyV, Item, ItemType, ItemV, Module, ModuleType, ModuleV,
    ProjectStructure, Relationship, Visibility, duplicate_dependencies, duplicate_modules,
    duplicate_relationships,
};
use crate::relations::{
    declares_edges, has_module_id, lemma_ids_unique_push, spec_declares_edges, spec_has_module_id,
    spec_ids_unique, spec_uses_edges, uses_edges,
};
use crate::text::{
    chars_of, contains_seq, ends_with_seq, find_seq, lemma_find_props, lines_seq, replace_seq,
    spec_contains, spec_ends_with, spec_find, spec_lines, spec_replace, spec_split,
    spec_starts_with, spec_tokens, spec_trim, spec_trim_end_matches, split_seq, starts_with_seq,
    string_from_chars, tail_from, take_to, tokens_seq, trim_end_matches_seq, trim_seq,
};

verus! {

// === specifications ===

/// Logical dotted module path of a relative source path: extension
/// stripped, a final package-index filename collapsed into its directory,
/// path separators turned into dots.
pub open spec fn spec_py_module_name(p: Seq<char>) -> Seq<char> {
    let a = spec_trim_end_matches(p, ".py"@);
    let b = if spec_ends_with(a, "/__init__"@) {
        a.take(a.len() - "/__init__"@.len())
    } else {
        a
    };
    spec_replace(spec_replace(b, "/"@, "."@), "\\"@, "."@)
}

/// Canonical module id of a logical path: dots and any remaining path
/// separators replaced with the canonical delimiter, a character a
/// module-path segment cannot hold.
pub open spec fn spec_py_id(name: Seq<char>) -> Seq<char> {
    spec_replace(spec_replace(name, "."@, "-"@), "/"@, "-"@)
}

/// Module kind from the file path: test naming, an examples path segment,
/// the designated program-entry filename, else a plain module.
pub open spec fn spec_py_module_type(path: Seq<char>) -> ModuleType {
    if spec_contains(path, "test_"@) || spec_contains(path, "/tests/"@) {
        ModuleType::Test
    } else if spec_contains(path, "/examples/"@) {
        ModuleType::Example
    } else if spec_ends_with(path, "__main__.py"@) {
        ModuleType::Binary
    } else {
        ModuleType::Module
    }
}

/// Raw import target of one trimmed line: for an `import` or `from` line,
/// the first whitespace-delimited token after the keyword.
pub open spec fn spec_extract_import(l: Seq<char>) -> Option<Seq<char>> {
    if spec_starts_with(l, "import "@) || spec_starts_with(l, "from "@) {
        let toks = spec_tokens(l);
        if toks.len() >= 2 {
            Some(toks[1])
        } else {
            None
        }
    } else {
        None
    }
}

/// Function name of a declaration line: the text between the
/// function-declaration keyword and the next opening parenthesis.
pub open spec fn spec_extract_function_name(l: Seq<char>) -> Option<Seq<char>> {
    match spec_find(l, "def "@) {
        None => None,
        Some(p) => {
            let rest = l.skip(p + "def "@.len());
            match spec_find(rest, "("@) {
                None => None,
                Some(e) => Some(spec_trim(rest.take(e))),
            }
        },
    }
}

/// Index of the first `(` or `:`, the characters that end a class-name
/// heading.
pub open spec fn spec_class_name_end(s: Seq<char>) -> Option<int>
    decreases s.len(),
{
    if s.len() == 0 {
        None
    } else if s[0] == '(' || s[0] == ':' {
        Some(0int)
    } else {
        match spec_class_name_end(s.skip(1)) {
            None => None,
            Some(i) => Some(i + 1),
        }
    }
}

proof fn lemma_class_name_end_props(s: Seq<char>)
    ensures
        match spec_class_name_end(s) {
            Some(i) => 0 <= i < s.len() && (s[i] == '(' || s[i] == ':') && forall|j: int|
                0 <= j < i ==> !(s[j] == '(' || s[j] == ':'),
            None => forall|j: int| 0 <= j < s.len() ==> !(s[j] == '(' || s[j] == ':'),
        },
    decreases s.len(),
{
    if s.len() == 0 {
    } else if s[0] == '(' || s[0] == ':' {
    } else {
        lemma_class_name_end_props(s.skip(1));
        match spec_class_name_end(s.skip(1)) {
            None => {
                assert forall|j: int| 0 <= j < s.len() implies !(s[j] == '(' || s[j] == ':') by {
                    if j >= 1 {
                        assert(!(s.skip(1)[j - 1] == '(' || s.skip(1)[j - 1] == ':'));
                    }
                }
            },
            Some(i) => {
                assert(s.skip(1)[i] == s[i + 1]);
                assert forall|j: int| 0 <= j < i + 1 implies !(s[j] == '(' || s[j] == ':') by {
                    if j >= 1 {
                        assert(!(s.skip(1)[j - 1] == '(' || s.skip(1)[j - 1] == ':'));
                    }
                }
            },
        }
    }
}

/// Class name of a declaration line: the text between the
/// class-declaration keyword and the next `(` or `:`, or the line's end.
pub open spec fn spec_extract_class_name(l: Seq<char>) -> Option<Seq<char>> {
    match spec_find(l, "class "@) {
        None => None,
        Some(p) => {
            let rest = l.skip(p + "class "@.len());
            let end = match spec_class_name_end(rest) {
                None => rest.len() as int,
                Some(e) => e,
            };
            Some(spec_trim(rest.take(end)))
        },
    }
}

/// Visibility by the leading-underscore convention.
pub open spec fn spec_py_vis(n: Seq<char>) -> Visibility {
    if n.len() > 0 && n[0] == '_' {
        Visibility::Private
    } else {
        Visibility::Public
    }
}

/// The function item a trimmed line contributes.
pub open spec fn spec_py_def_item(t: Seq<char>) -> Seq<ItemV> {
    if spec_starts_with(t, "def "@) {
        match spec_extract_function_name(t) {
            Some(n) => seq![
                ItemV { name: n, item_type: ItemType::Function, visibility: spec_py_vis(n) },
            ],
            None => Seq::empty(),
        }
    } else {
        Seq::empty()
    }
}

/// The class item a trimmed line contributes (recorded as a struct-kind
/// item).
pub open spec fn spec_py_class_item(t: Seq<char>) -> Seq<ItemV> {
    if spec_starts_with(t, "class "@) {
        match spec_extract_class_name(t) {
            Some(n) => seq![
                ItemV { name: n, item_type: ItemType::Struct, visibility: spec_py_vis(n) },
            ],
            None => Seq::empty(),
        }
    } else {
        Seq::empty()
    }
}

/// The items one raw line contributes, after trimming.
pub open spec fn spec_py_line_items(l: Seq<char>) -> Seq<ItemV> {
    spec_py_def_item(spec_trim(l)) + spec_py_class_item(spec_trim(l))
}

/// The raw import target one raw line contributes, after trimming.
pub open spec fn spec_py_line_use(l: Seq<char>) -> Seq<Seq<char>> {
    match spec_extract_import(spec_trim(l)) {
        Some(m) => seq![m],
        None => Seq::empty(),
    }
}

pub open spec fn spec_py_items_fold(ls: Seq<Seq<char>>, i: int) -> Seq<ItemV>
    decreases i,
{
    if i <= 0 {
        Seq::empty()
    } else {
        spec_py_items_fold(ls, i - 1) + spec_py_line_items(ls[i - 1])
    }
}

/// All items a file's contents yield, in line order.
pub open spec fn spec_py_items(content: Seq<char>) -> Seq<ItemV> {
    spec_py_items_fold(spec_lines(content), spec_lines(content).len() as int)
}

pub open spec fn spec_py_uses_fold(ls: Seq<Seq<char>>, i: int) -> Seq<Seq<char>>
    decreases i,
{
    if i <= 0 {
        Seq::empty()
    } else {
        spec_py_uses_fold(ls, i - 1) + spec_py_line_use(ls[i - 1])
    }
}

/// All raw import targets a file's contents yield, in line order.
pub open spec fn spec_py_uses(content: Seq<char>) -> Seq<Seq<char>> {
    spec_py_uses_fold(spec_lines(content), spec_lines(content).len() as int)
}

/// The dependencies one requirements line contributes: empty and comment
/// lines yield nothing; otherwise the line splits on the exact-version
/// separator, a missing version defaulting to a wildcard.
pub open spec fn spec_req_line(l: Seq<char>) -> Seq<DependencyV> {
    let t = spec_trim(l);
    if t.len() == 0 || t[0] == '#' {
        Seq::empty()
    } else {
        let parts = spec_split(t, "=="@);
        let name = spec_trim(parts[0]);
        let version = if parts.len() >= 2 {
            spec_trim(parts[1])
        } else {
            "*"@
        };
        seq![DependencyV { name: name, version: version, dep_type: DependencyType::Normal }]
    }
}

pub open spec fn spec_reqs_fold(ls: Seq<Seq<char>>, i: int) -> Seq<DependencyV>
    decreases i,
{
    if i <= 0 {
        Seq::empty()
    } else {
        spec_reqs_fold(ls, i - 1) + spec_req_line(ls[i - 1])
    }
}

/// All dependencies a requirements list yields, in line order, all of
/// Normal kind.
pub open spec fn spec_requirements(content: Seq<char>) -> Seq<DependencyV> {
    spec_reqs_fold(spec_lines(content), spec_lines(content).len() as int)
}

/// The manifest formats accepted as heuristic-family markers, in
/// priority order. Only the requirements list is parsed for its
/// dependency contents; the others serve language identification alone.
#[derive(Clone, Copy, PartialEq, Eq, Structural, Debug)]
pub enum PyManifest {
    Requirements,
    Setup,
    Pyproject,
}

/// The first manifest present, by the fixed priority list.
pub fn first_manifest(has_requirements: bool, has_setup: bool, has_pyproject: bool) -> (r: Option<
    PyManifest,
>)
    ensures
        r == if has_requirements {
            Some(PyManifest::Requirements)
        } else if has_setup {
            Some(PyManifest::Setup)
        } else if has_pyproject {
            Some(PyManifest::Pyproject)
        } else {
            None::<PyManifest>
        },
{
    if has_requirements {
        Some(PyManifest::Requirements)
    } else if has_setup {
        Some(PyManifest::Setup)
    } else if has_pyproject {
        Some(PyManifest::Pyproject)
    } else {
        None
    }
}

// === executable extractor ===

/// The heuristic line-scanning analyzer for Python projects. It
/// accumulates modules, dependencies and relationships; the caller walks
/// the file tree and hands file contents in.
pub struct PythonAnalyzer {
    pub root_path: String,
    pub modules: Vec<Module>,
    pub dependencies: Vec<Dependency>,
    pub relationships: Vec<Relationship>,
}

/// Raw import target of one trimmed line, over characters.
fn extract_import_chars(l: &Vec<char>) -> (r: Option<Vec<char>>)
    ensures
        match r {
            Some(m) => spec_extract_import(l@) == Some(m@),
            None => spec_extract_import(l@) is None,
        },
{
    let import_pat = chars_of("import ");
    let from_pat = chars_of("from ");
    if starts_with_seq(l, &import_pat) || starts_with_seq(l, &from_pat) {
        let toks = tokens_seq(l);
        if toks.len() >= 2 {
            let t = tail_from(&toks[1], 0);
            proof {
                assert(t@ =~= toks.deep_view()[1]);
            }
            Some(t)
        } else {
            None
        }
    } else {
        None
    }
}

/// Function name of a declaration line, over characters.
fn extract_function_name_chars(l: &Vec<char>) -> (r: Option<Vec<char>>)
    ensures
        match r {
            Some(n) => spec_extract_function_name(l@) == Some(n@),
            None => spec_extract_function_name(l@) is None,
        },
{
    let def_pat = chars_of("def ");
    let paren = chars_of("(");
    match find_seq(l, &def_pat) {
        None => None,
        Some(p) => {
            let total = l.len();
            proof {
                lemma_find_props(l@, def_pat@);
                assert(p + def_pat@.len() <= total);
            }
            let rest = tail_from(l, p + def_pat.len());
            match find_seq(&rest, &paren) {
                None => None,
                Some(e) => {
                    proof {
                        lemma_find_props(rest@, paren@);
                    }
                    let piece = take_to(&rest, e);
                    Some(trim_seq(&piece))
                },
            }
        },
    }
}

/// Class name of a declaration line, over characters.
fn extract_class_name_chars(l: &Vec<char>) -> (r: Option<Vec<char>>)
    ensures
        match r {
            Some(n) => spec_extract_class_name(l@) == Some(n@),
            None => spec_extract_class_name(l@) is None,
        },
{
    let class_pat = chars_of("class ");
    match find_seq(l, &class_pat) {
        None => None,
        Some(p) => {
            let total = l.len();
            proof {
                lemma_find_props(l@, class_pat@);
                assert(p + class_pat@.len() <= total);
            }
            let rest = tail_from(l, p + class_pat.len());
            let mut j: usize = 0;
            while j < rest.len() && !(rest[j] == '(' || rest[j] == ':')
                invariant
                    j <= rest.len(),
                    forall|k: int| 0 <= k < j ==> !(rest@[k] == '(' || rest@[k] == ':'),
                decreases rest.len() - j,
            {
                j = j + 1;
            }
            proof {
                lemma_class_name_end_props(rest@);
                if j < rest.len() {
                    match spec_class_name_end(rest@) {
                        None => {
                            assert(false);
                        },
                        Some(k) => {
                            assert(!(k < j));
                            assert(!(k > j));
                        },
                    }
                } else {
                    match spec_class_name_end(rest@) {
                        None => {},
                        Some(k) => {
                            assert(false);
                        },
                    }
                }
            }
            let piece = take_to(&rest, j);
            Some(trim_seq(&piece))
        },
    }
}

impl PythonAnalyzer {
    /// A fresh analyzer over the given project root.
    pub fn new(root_path: String) -> (r: Self)
        ensures
            r.root_path@ == root_path@,
            r.modules@.len() == 0,
            r.dependencies@.len() == 0,
            r.relationships@.len() == 0,
    {
        PythonAnalyzer {
            root_path,
            modules: Vec::new(),
            dependencies: Vec::new(),
            relationships: Vec::new(),
        }
    }

    /// Raw import target of one line: the first whitespace-delimited token
    /// after an `import` or `from` keyword.
    pub fn extract_import(&self, line: &str) -> (r: Option<String>)
        ensures
            match r {
                Some(m) => spec_extract_import(line@) == Some(m@),
                None => spec_extract_import(line@) is None,
            },
    {
        let l = chars_of(line);
        match extract_import_chars(&l) {
            Some(m) => Some(string_from_chars(&m)),
            None => None,
        }
    }

    /// Function name of a declaration line.
    pub fn extract_function_name(&self, line: &str) -> (r: Option<String>)
        ensures
            match r {
                Some(n) => spec_extract_function_name(line@) == Some(n@),
                None => spec_extract_function_name(line@) is None,
            },
    {
        let l = chars_of(line);
        match extract_function_name_chars(&l) {
            Some(n) => Some(string_from_chars(&n)),
            None => None,
        }
    }

    /// Class name of a declaration line.
    pub fn extract_class_name(&self, line: &str) -> (r: Option<String>)
        ensures
            match r {
                Some(n) => spec_extract_class_name(line@) == Some(n@),
                None => spec_extract_class_name(line@) is None,
            },
    {
        let l = chars_of(line);
        match extract_class_name_chars(&l) {
            Some(n) => Some(string_from_chars(&n)),
            None => None,
        }
    }

    /// Module kind from the file path.
    pub fn determine_module_type(&self, path: &str) -> (r: ModuleType)
        ensures
            r == spec_py_module_type(path@),
    {
        let p = chars_of(path);
        if contains_seq(&p, &chars_of("test_")) || contains_seq(&p, &chars_of("/tests/")) {
            ModuleType::Test
        } else if contains_seq(&p, &chars_of("/examples/")) {
            ModuleType::Example
        } else if ends_with_seq(&p, &chars_of("__main__.py")) {
            ModuleType::Binary
        } else {
            ModuleType::Module
        }
    }

    /// Logical dotted module path of a relative source path.
    pub fn path_to_module_name(&self, path: &str) -> (r: String)
        ensures
            r@ == spec_py_module_name(path@),
    {
        let p = chars_of(path);
        let ext = chars_of(".py");
        let init = chars_of("/__init__");
        let slash = chars_of("/");
        let backslash = chars_of("\\");
        let dot = chars_of(".");
        proof {
            reveal_strlit(".py");
            reveal_strlit("/__init__");
            reveal_strlit("/");
            reveal_strlit("\\");
            reveal_strlit(".");
        }
        let a = trim_end_matches_seq(&p, &ext);
        let b = if ends_with_seq(&a, &init) {
            take_to(&a, a.len() - init.len())
        } else {
            a
        };
        let c = replace_seq(&b, &slash, &dot);
        let d = replace_seq(&c, &backslash, &dot);
        string_from_chars(&d)
    }

    /// Canonical module id of a logical path.
    pub fn module_id(&self, name: &str) -> (r: String)
        ensures
            r@ == spec_py_id(name@),
    {
        let n = chars_of(name);
        let dot = chars_of(".");
        let slash = chars_of("/");
        let dash = chars_of("-");
        proof {
            reveal_strlit(".");
            reveal_strlit("/");
            reveal_strlit("-");
        }
        let a = replace_seq(&n, &dot, &dash);
        let b = replace_seq(&a, &slash, &dash);
        string_from_chars(&b)
    }

    /// Extracts one source file: scans the contents line by line and
    /// returns the module record together with its raw import targets.
    /// Identical contents and paths always yield identical output.
    pub fn parse_python_file(&self, content: &str, logical_path: &str, file_path: &str) -> (r: (
        Module,
        Vec<String>,
    ))
        ensures
            r.0@ == (ModuleV {
                id: spec_py_id(logical_path@),
                name: logical_path@,
                path: file_path@,
                module_type: spec_py_module_type(file_path@),
                visibility: Visibility::Public,
                items: spec_py_items(content@),
            }),
            r.1.deep_view() == spec_py_uses(content@),
    {
        let content_chars = chars_of(content);
        let lines = lines_seq(&content_chars);
        let def_pat = chars_of("def ");
        let class_pat = chars_of("class ");
        let mut items: Vec<Item> = Vec::new();
        let mut uses: Vec<String> = Vec::new();
        let ghost ldv = spec_lines(content@);
        let mut i: usize = 0;
        while i < lines.len()
            invariant
                i <= lines.len(),
                lines.deep_view() == ldv,
                ldv == spec_lines(content@),
                def_pat@ == "def "@,
                class_pat@ == "class "@,
                items.deep_view() == spec_py_items_fold(ldv, i as int),
                uses.deep_view() == spec_py_uses_fold(ldv, i as int),
            decreases lines.len() - i,
        {
            let line_t = trim_seq(&lines[i]);
            proof {
                assert(lines@[i as int]@ =~= ldv[i as int]);
                assert(line_t@ == spec_trim(ldv[i as int]));
            }
            let ghost uprev = uses.deep_view();
            match extract_import_chars(&line_t) {
                Some(m) => {
                    uses.push(string_from_chars(&m));
                    proof {
                        assert(uses.deep_view() =~~= uprev + spec_py_line_use(ldv[i as int]));
                    }
                },
                None => {
                    proof {
                        assert(uses.deep_view() =~~= uprev + spec_py_line_use(ldv[i as int]));
                    }
                },
            }
            let ghost iprev = items.deep_view();
            if starts_with_seq(&line_t, &def_pat) {
                match extract_function_name_chars(&line_t) {
                    Some(n) => {
                        let visibility = if n.len() > 0 && n[0] == '_' {
                            Visibility::Private
                        } else {
                            Visibility::Public
                        };
                        items.push(
                            Item {
                                name: string_from_chars(&n),
                                item_type: ItemType::Function,
                                visibility,
                            },
                        );
                    },
                    None => {},
                }
            }
            proof {
                assert(items.deep_view() =~~= iprev + spec_py_def_item(line_t@));
            }
            let ghost iprev2 = items.deep_view();
            if starts_with_seq(&line_t, &class_pat) {
                match extract_class_name_chars(&line_t) {
                    Some(n) => {
                        let visibility = if n.len() > 0 && n[0] == '_' {
                            Visibility::Private
                        } else {
                            Visibility::Public
                        };
                        items.push(
                            Item {
                                name: string_from_chars(&n),
                                item_type: ItemType::Struct,
                                visibility,
                            },
                        );
                    },
                    None => {},
                }
            }
            proof {
                assert(items.deep_view() =~~= iprev2 + spec_py_class_item(line_t@));
                assert(items.deep_view() =~~= spec_py_items_fold(ldv, i as int)
                    + spec_py_line_items(ldv[i as int]));
                assert(uses.deep_view() =~~= spec_py_uses_fold(ldv, i as int) + spec_py_line_use(
                    ldv[i as int],
                ));
            }
            i = i + 1;
        }
        let name = string_from_chars(&chars_of(logical_path));
        let path = string_from_chars(&chars_of(file_path));
        let id = self.module_id(logical_path);
        let module_type = self.determine_module_type(file_path);
        let module = Module {
            id,
            name,
            path,
            module_type,
            visibility: Visibility::Public,
            items,
        };
        proof {
            assert(module@ =~~= (ModuleV {
                id: spec_py_id(logical_path@),
                name: logical_path@,
                path: file_path@,
                module_type: spec_py_module_type(file_path@),
                visibility: Visibility::Public,
                items: spec_py_items(content@),
            }));
        }
        (module, uses)
    }

    /// Records one extracted module and its `Uses` edges (the raw dotted
    /// targets normalized to canonical ids). A module whose id is already
    /// taken is refused, so that two files can never collapse to one id;
    /// the caller diagnoses the refusal.
    pub fn add_python_module(&mut self, module: Module, uses: &Vec<String>) -> (added: bool)
        ensures
            added == !spec_has_module_id(old(self).modules.deep_view(), module@.id),
            added ==> final (self).modules.deep_view() == old(self).modules.deep_view().push(
                module@,
            ) && final (self).relationships.deep_view() == old(self).relationships.deep_view()
                + spec_uses_edges(module@.id, uses.deep_view(), "."@),
            !added ==> final (self).modules.deep_view() == old(self).modules.deep_view()
                && final (self).relationships.deep_view() == old(self).relationships.deep_view(),
            final (self).dependencies.deep_view() == old(self).dependencies.deep_view(),
            final (self).root_path@ == old(self).root_path@,
            spec_ids_unique(old(self).modules.deep_view()) ==> spec_ids_unique(
                final (self).modules.deep_view(),
            ),
    {
        let id_chars = chars_of(module.id.as_str());
        if has_module_id(&self.modules, &id_chars) {
            return false;
        }
        let dot = chars_of(".");
        proof {
            reveal_strlit(".");
        }
        let from_id = module.id.clone();
        let mut edges = uses_edges(&from_id, uses, &dot);
        let ghost edges_dv = edges.deep_view();
        let ghost mprev = self.modules.deep_view();
        let ghost rprev = self.relationships.deep_view();
        self.modules.push(module);
        self.relationships.append(&mut edges);
        proof {
            assert(self.modules.deep_view() =~~= mprev.push(module@));
            assert(self.relationships.deep_view() =~~= rprev + edges_dv);
            if spec_ids_unique(mprev) {
                lemma_ids_unique_push(mprev, module@);
            }
        }
        true
    }

    /// Parses a plain requirements list and appends every declared
    /// dependency: one per non-empty, non-comment line, all of Normal kind.
    pub fn parse_requirements(&mut self, content: &str)
        ensures
            final (self).dependencies.deep_view() == old(self).dependencies.deep_view()
                + spec_requirements(content@),
            final (self).modules.deep_view() == old(self).modules.deep_view(),
            final (self).relationships.deep_view() == old(self).relationships.deep_view(),
            final (self).root_path@ == old(self).root_path@,
    {
        let content_chars = chars_of(content);
        let lines = lines_seq(&content_chars);
        let eq_pat = chars_of("==");
        let star = chars_of("*");
        proof {
            reveal_strlit("==");
            reveal_strlit("*");
        }
        let ghost ldv = spec_lines(content@);
        let ghost dprev = old(self).dependencies.deep_view();
        let mut i: usize = 0;
        while i < lines.len()
            invariant
                i <= lines.len(),
                lines.deep_view() == ldv,
                ldv == spec_lines(content@),
                eq_pat@ == "=="@,
                star@ == "*"@,
                self.dependencies.deep_view() == dprev + spec_reqs_fold(ldv, i as int),
                self.modules.deep_view() == old(self).modules.deep_view(),
                self.relationships.deep_view() == old(self).relationships.deep_view(),
                self.root_path@ == old(self).root_path@,
            decreases lines.len() - i,
        {
            let ghost before = self.dependencies.deep_view();
            let line_t = trim_seq(&lines[i]);
            proof {
                assert(lines@[i as int]@ =~= ldv[i as int]);
                assert(line_t@ == spec_trim(ldv[i as int]));
            }
            if line_t.len() == 0 || line_t[0] == '#' {
                proof {
                    assert(self.dependencies.deep_view() =~~= before + spec_req_line(
                        ldv[i as int],
                    ));
                }
            } else {
                proof {
                    reveal_strlit("==");
                }
                let parts = split_seq(&line_t, &eq_pat);
                proof {
                    assert(spec_split(line_t@, "=="@).len() >= 1);
                    assert(parts@[0]@ =~= parts.deep_view()[0]);
                }
                let name_c = trim_seq(&parts[0]);
                let version_c = if parts.len() >= 2 {
                    let v = trim_seq(&parts[1]);
                    proof {
                        assert(parts@[1]@ =~= parts.deep_view()[1]);
                    }
                    v
                } else {
                    tail_from(&star, 0)
                };
                proof {
                    assert(star@.skip(0) =~= star@);
                }
                self.dependencies.push(
                    Dependency {
                        name: string_from_chars(&name_c),
                        version: string_from_chars(&version_c),
                        dep_type: DependencyType::Normal,
                    },
                );
                proof {
                    assert(self.dependencies.deep_view() =~~= before + spec_req_line(
                        ldv[i as int],
                    ));
                }
            }
            i = i + 1;
        }
    }

    /// Derives the `Declares` edges implied by the module-path hierarchy
    /// and appends them to the relationship list.
    pub fn build_relationships(&mut self)
        ensures
            final (self).relationships.deep_view() == old(self).relationships.deep_view()
                + spec_declares_edges(old(self).modules.deep_view(), "."@),
            final (self).modules.deep_view() == old(self).modules.deep_view(),
            final (self).dependencies.deep_view() == old(self).dependencies.deep_view(),
            final (self).root_path@ == old(self).root_path@,
    {
        let dot = chars_of(".");
        proof {
            reveal_strlit(".");
        }
        let mut edges = declares_edges(&self.modules, &dot);
        let ghost edges_dv = edges.deep_view();
        let ghost rprev = self.relationships.deep_view();
        self.relationships.append(&mut edges);
        proof {
            assert(self.relationships.deep_view() =~~= rprev + edges_dv);
        }
    }

    /// Finishes one analysis run: derives the `Declares` edges and hands
    /// back the accumulated aggregate.
    pub fn analyze(&mut self) -> (r: ProjectStructure)
        ensures
            final (self).relationships.deep_view() == old(self).relationships.deep_view()
                + spec_declares_edges(old(self).modules.deep_view(), "."@),
            final (self).modules.deep_view() == old(self).modules.deep_view(),
            final (self).dependencies.deep_view() == old(self).dependencies.deep_view(),
            final (self).root_path@ == old(self).root_path@,
            r.root_path@ == final (self).root_path@,
            r.modules.deep_view() == final (self).modules.deep_view(),
            r.dependencies.deep_view() == final (self).dependencies.deep_view(),
            r.relationships.deep_view() == final (self).relationships.deep_view(),
    {
        self.build_relationships();
        ProjectStructure {
            root_path: self.root_path.clone(),
            modules: duplicate_modules(&self.modules),
            dependencies: duplicate_dependencies(&self.dependencies),
            relationships: duplicate_relationships(&self.relationships),
        }
    }
}

} // verus!
