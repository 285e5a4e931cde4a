//! The structured-grammar extractor for Rust sources. The text is parsed
//! into a syntax tree by the `syn` crate behind a small trust boundary
//! that converts the tree into the plain declaration values below; every
//! step after that conversion — item recording, visibility
//! classification, recursive import-tree expansion, module-kind
//! inference — is verified.

use vstd::prelude::*;

use crate::analyzer::spec_rust_id;
use crate::models::{
    Item, ItemType, ItemV, Module, ModuleType, ModuleV, Visibility, duplicate_items,
};
use crate::text::{chars_of, eq_seq, replace_seq, spec_contains, string_from_chars};
use syn::Item as SynItem;
use syn::UseTree as SynUseTree;
use syn::Visibility as SynVisibility;

verus! {

// === plain declaration values, as handed over the trust boundary ===

/// Declared visibility as written in the source: public, restricted to a
/// named path (the path's single identifier, or empty when it is none),
/// or inherited.
#[derive(Debug)]
pub enum RawVis {
    Public,
    Restricted(String),
    Inherited,
}

/// One import tree of a `use` declaration: a path prefix with a nested
/// rest, a plain name, a renamed name, a glob, or a braced group.
#[derive(Debug)]
pub enum UseTree {
    Prefix(String, Box<UseTree>),
    Name(String),
    Rename(String),
    Glob,
    Group(Vec<UseTree>),
}

/// One top-level definition: its item kind, name and declared visibility.
#[derive(Debug)]
pub struct DeclDef {
    pub kind: ItemType,
    pub name: String,
    pub vis: RawVis,
}

/// One top-level declaration: a definition or a `use` import.
#[derive(Debug)]
pub enum RawDecl {
    Def(DeclDef),
    Import(UseTree),
}

// === mathematical values of the declaration types ===

#[verifier::ext_equal]
pub enum RawVisV {
    Public,
    Restricted(Seq<char>),
    Inherited,
}

/// Mathematical value of a [`UseTree`]; a `Prefix` rest is a singleton
/// sequence.
#[verifier::ext_equal]
pub enum UseTreeV {
    Prefix(Seq<char>, Seq<UseTreeV>),
    Name(Seq<char>),
    Rename(Seq<char>),
    Glob,
    Group(Seq<UseTreeV>),
}

#[verifier::ext_equal]
pub struct DeclDefV {
    pub kind: ItemType,
    pub name: Seq<char>,
    pub vis: RawVisV,
}

#[verifier::ext_equal]
pub enum RawDeclV {
    Def(DeclDefV),
    Import(UseTreeV),
}

pub open spec fn view_raw_vis(v: RawVis) -> RawVisV {
    match v {
        RawVis::Public => RawVisV::Public,
        RawVis::Restricted(p) => RawVisV::Restricted(p@),
        RawVis::Inherited => RawVisV::Inherited,
    }
}

pub open spec fn view_use_tree(t: UseTree) -> UseTreeV
    decreases t,
{
    match t {
        UseTree::Prefix(s, rest) => UseTreeV::Prefix(s@, seq![view_use_tree(*rest)]),
        UseTree::Name(s) => UseTreeV::Name(s@),
        UseTree::Rename(s) => UseTreeV::Rename(s@),
        UseTree::Glob => UseTreeV::Glob,
        UseTree::Group(ts) => UseTreeV::Group(view_use_trees(ts@)),
    }
}

pub open spec fn view_use_trees(ts: Seq<UseTree>) -> Seq<UseTreeV>
    decreases ts,
{
    if ts.len() == 0 {
        Seq::empty()
    } else {
        seq![view_use_tree(ts[0])] + view_use_trees(ts.subrange(1, ts.len() as int))
    }
}

/// `view_use_trees` maps `view_use_tree` over the elements.
proof fn lemma_view_use_trees_index(ts: Seq<UseTree>)
    ensures
        view_use_trees(ts).len() == ts.len(),
        forall|i: int| 0 <= i < ts.len() ==> view_use_trees(ts)[i] == view_use_tree(#[trigger] ts[i]),
    decreases ts,
{
    if ts.len() > 0 {
        let rest = ts.subrange(1, ts.len() as int);
        lemma_view_use_trees_index(rest);
        assert forall|i: int| 0 <= i < ts.len() implies view_use_trees(ts)[i] == view_use_tree(
            #[trigger] ts[i],
        ) by {
            if i >= 1 {
                assert(rest[i - 1] == ts[i]);
                assert(view_use_trees(ts)[i] == view_use_trees(rest)[i - 1]);
            }
        }
    }
}

pub open spec fn view_raw_decl(d: RawDecl) -> RawDeclV {
    match d {
        RawDecl::Def(def) => RawDeclV::Def(
            DeclDefV { kind: def.kind, name: def.name@, vis: view_raw_vis(def.vis) },
        ),
        RawDecl::Import(t) => RawDeclV::Import(view_use_tree(t)),
    }
}

pub open spec fn view_raw_decls(ds: Seq<RawDecl>) -> Seq<RawDeclV> {
    Seq::new(ds.len(), |i: int| view_raw_decl(ds[i]))
}

// === the trust boundary around syn ===

#[verifier::external_type_specification]
#[verifier::external_body]
pub struct ExSynItem(SynItem);

#[verifier::external_type_specification]
#[verifier::external_body]
pub struct ExSynVisibility(SynVisibility);

#[verifier::external_type_specification]
#[verifier::external_body]
pub struct ExSynUseTree(SynUseTree);

/// What parsing a source text yields: whether `syn::parse_file` accepts
/// it. The result depends on the text alone.
pub uninterp spec fn rust_parse_ok(s: Seq<char>) -> bool;

/// What parsing a source text yields: its top-level declarations, in
/// source order. The result depends on the text alone.
pub uninterp spec fn rust_decls_of(s: Seq<char>) -> Seq<RawDeclV>;

/// Relies on `syn::Visibility`: tells its three variants apart and moves
/// the restriction path's single identifier out (empty when the path is
/// not a single identifier, as for `pub(in a::b)`).
#[verifier::external_body]
fn lift_vis(v: &SynVisibility) -> RawVis {
    match v {
        SynVisibility::Public(_) => RawVis::Public,
        SynVisibility::Restricted(rr) => RawVis::Restricted(
            rr.path.get_ident().map(|i| i.to_string()).unwrap_or(String::new()),
        ),
        SynVisibility::Inherited => RawVis::Inherited,
    }
}

/// Relies on `syn::UseTree`: tells its five variants apart and moves each
/// field out, one arm per variant.
#[verifier::external_body]
fn lift_use_tree(t: &SynUseTree) -> UseTree {
    match t {
        SynUseTree::Path(p) => UseTree::Prefix(
            p.ident.to_string(),
            Box::new(lift_use_tree(&p.tree)),
        ),
        SynUseTree::Name(n) => UseTree::Name(n.ident.to_string()),
        SynUseTree::Rename(n) => UseTree::Rename(n.ident.to_string()),
        SynUseTree::Glob(_) => UseTree::Glob,
        SynUseTree::Group(g) => UseTree::Group(g.items.iter().map(lift_use_tree).collect()),
    }
}

/// Relies on `syn::Item`: tells the function and type definition kinds
/// apart and moves each one's identifier and visibility out.
#[verifier::external_body]
fn lift_def(it: &SynItem) -> Option<RawDecl> {
    let (kind, ident, vis) = match it {
        SynItem::Fn(f) => (ItemType::Function, &f.sig.ident, &f.vis),
        SynItem::Struct(s) => (ItemType::Struct, &s.ident, &s.vis),
        SynItem::Enum(e) => (ItemType::Enum, &e.ident, &e.vis),
        SynItem::Trait(t) => (ItemType::Trait, &t.ident, &t.vis),
        _ => return lift_value_def(it),
    };
    Some(RawDecl::Def(DeclDef { kind, name: ident.to_string(), vis: lift_vis(vis) }))
}

/// Relies on `syn::Item`: tells the constant, static and type-alias
/// definition kinds apart and moves each one's identifier and visibility
/// out.
#[verifier::external_body]
fn lift_value_def(it: &SynItem) -> Option<RawDecl> {
    let (kind, ident, vis) = match it {
        SynItem::Const(c) => (ItemType::Const, &c.ident, &c.vis),
        SynItem::Static(s) => (ItemType::Static, &s.ident, &s.vis),
        SynItem::Type(t) => (ItemType::Type, &t.ident, &t.vis),
        _ => return None,
    };
    Some(RawDecl::Def(DeclDef { kind, name: ident.to_string(), vis: lift_vis(vis) }))
}

/// Relies on `syn::Item`: a `use` item hands its tree over; a named macro
/// definition is recorded public, as it has no written visibility.
#[verifier::external_body]
fn lift_item(it: &SynItem) -> Option<RawDecl> {
    match it {
        SynItem::Use(u) => Some(RawDecl::Import(lift_use_tree(&u.tree))),
        SynItem::Macro(m) => m.ident.as_ref().map(
            |i| RawDecl::Def(DeclDef { kind: ItemType::Macro, name: i.to_string(), vis: RawVis::Public }),
        ),
        _ => lift_def(it),
    }
}

/// Relies on `syn::parse_file`: whether the text parses as a source file,
/// and the top-level declarations the tree holds, depend on the text
/// alone; on failure the error's message is handed back.
#[verifier::external_body]
fn parse_rust_decls(content: &str) -> (r: Result<Vec<RawDecl>, String>)
    ensures
        match r {
            Ok(ds) => rust_parse_ok(content@) && view_raw_decls(ds@) == rust_decls_of(content@),
            Err(_) => !rust_parse_ok(content@),
        },
{
    let file = syn::parse_file(content).map_err(|e| e.to_string())?;
    Ok(file.items.iter().filter_map(lift_item).collect())
}

// === verified extraction logic ===

/// Module kind from the file path: test, example and benchmark path
/// conventions, the binary and library entry filenames, else a plain
/// module.
pub open spec fn spec_rust_module_type(path: Seq<char>) -> ModuleType {
    if spec_contains(path, "tests/"@) || spec_contains(path, "test.rs"@) {
        ModuleType::Test
    } else if spec_contains(path, "examples/"@) {
        ModuleType::Example
    } else if spec_contains(path, "benches/"@) {
        ModuleType::Benchmark
    } else if spec_contains(path, "main.rs"@) {
        ModuleType::Binary
    } else if spec_contains(path, "lib.rs"@) {
        ModuleType::Library
    } else {
        ModuleType::Module
    }
}

/// The four visibility classes a declared visibility maps to: `crate` and
/// `super` restrictions keep their class, any other restriction and the
/// inherited visibility count as private.
pub open spec fn spec_vis_class(v: RawVisV) -> Visibility {
    match v {
        RawVisV::Public => Visibility::Public,
        RawVisV::Restricted(p) => if p == "crate"@ {
            Visibility::Crate
        } else if p == "super"@ {
            Visibility::Super
        } else {
            Visibility::Private
        },
        RawVisV::Inherited => Visibility::Private,
    }
}

/// The raw import targets one import tree yields: a nested rest first,
/// then the non-empty prefix segment itself; a name or rename yields that
/// name; a glob yields nothing; a group yields every member's targets in
/// order.
pub open spec fn spec_use_targets(t: UseTreeV) -> Seq<Seq<char>>
    decreases t,
{
    match t {
        UseTreeV::Prefix(seg, rest) => (if rest.len() > 0 {
            spec_use_targets(rest[0])
        } else {
            Seq::empty()
        }) + if seg.len() > 0 {
            seq![seg]
        } else {
            Seq::empty()
        },
        UseTreeV::Name(n) => seq![n],
        UseTreeV::Rename(n) => seq![n],
        UseTreeV::Glob => Seq::empty(),
        UseTreeV::Group(ts) => spec_use_targets_list(ts),
    }
}

pub open spec fn spec_use_targets_list(ts: Seq<UseTreeV>) -> Seq<Seq<char>>
    decreases ts,
{
    if ts.len() == 0 {
        Seq::empty()
    } else {
        spec_use_targets(ts[0]) + spec_use_targets_list(ts.subrange(1, ts.len() as int))
    }
}

/// The item a definition is recorded as.
pub open spec fn spec_item_of_def(d: DeclDefV) -> ItemV {
    ItemV { name: d.name, item_type: d.kind, visibility: spec_vis_class(d.vis) }
}

/// The items of the first `i` declarations, in source order.
pub open spec fn spec_decl_items(ds: Seq<RawDeclV>, i: int) -> Seq<ItemV>
    decreases i,
{
    if i <= 0 {
        Seq::empty()
    } else {
        spec_decl_items(ds, i - 1) + match ds[i - 1] {
            RawDeclV::Def(d) => seq![spec_item_of_def(d)],
            RawDeclV::Import(_) => Seq::empty(),
        }
    }
}

/// All items of a declaration list.
pub open spec fn spec_items_of(ds: Seq<RawDeclV>) -> Seq<ItemV> {
    spec_decl_items(ds, ds.len() as int)
}

/// The raw import targets of the first `i` declarations, in source order.
pub open spec fn spec_decl_uses(ds: Seq<RawDeclV>, i: int) -> Seq<Seq<char>>
    decreases i,
{
    if i <= 0 {
        Seq::empty()
    } else {
        spec_decl_uses(ds, i - 1) + match ds[i - 1] {
            RawDeclV::Def(_) => Seq::empty(),
            RawDeclV::Import(t) => spec_use_targets(t),
        }
    }
}

/// All raw import targets of a declaration list.
pub open spec fn spec_uses_of(ds: Seq<RawDeclV>) -> Seq<Seq<char>> {
    spec_decl_uses(ds, ds.len() as int)
}

/// The structured-grammar extractor. It parses one file at a time,
/// keeping the recorded items and raw import targets.
pub struct RustParser {
    pub current_module: String,
    pub items: Vec<Item>,
    pub uses: Vec<String>,
}

impl RustParser {
    /// A fresh parser.
    pub fn new() -> (r: Self)
        ensures
            r.current_module@.len() == 0,
            r.items@.len() == 0,
            r.uses@.len() == 0,
    {
        RustParser { current_module: String::new(), items: Vec::new(), uses: Vec::new() }
    }

    /// Maps a declared visibility to its class.
    pub fn convert_visibility(vis: &RawVis) -> (r: Visibility)
        ensures
            r == spec_vis_class(view_raw_vis(*vis)),
    {
        match vis {
            RawVis::Public => Visibility::Public,
            RawVis::Restricted(p) => {
                let crate_word = chars_of("crate");
                let super_word = chars_of("super");
                let pc = chars_of(p.as_str());
                if eq_seq(&pc, &crate_word) {
                    Visibility::Crate
                } else if eq_seq(&pc, &super_word) {
                    Visibility::Super
                } else {
                    Visibility::Private
                }
            },
            RawVis::Inherited => Visibility::Private,
        }
    }

    /// Module kind from the file path: test, example and benchmark roots
    /// and filename conventions, the binary and library entry filenames,
    /// else a plain module.
    pub fn determine_module_type(path: &str) -> (r: ModuleType)
        ensures
            r == spec_rust_module_type(path@),
    {
        let p = chars_of(path);
        if crate::text::contains_seq(&p, &chars_of("tests/")) || crate::text::contains_seq(
            &p,
            &chars_of("test.rs"),
        ) {
            ModuleType::Test
        } else if crate::text::contains_seq(&p, &chars_of("examples/")) {
            ModuleType::Example
        } else if crate::text::contains_seq(&p, &chars_of("benches/")) {
            ModuleType::Benchmark
        } else if crate::text::contains_seq(&p, &chars_of("main.rs")) {
            ModuleType::Binary
        } else if crate::text::contains_seq(&p, &chars_of("lib.rs")) {
            ModuleType::Library
        } else {
            ModuleType::Module
        }
    }

    /// Recursively expands one import tree, appending every raw target in
    /// traversal order.
    fn extract_use_paths(&mut self, tree: &UseTree)
        ensures
            final (self).uses.deep_view() == old(self).uses.deep_view() + spec_use_targets(
                view_use_tree(*tree),
            ),
            final (self).items == old(self).items,
            final (self).current_module == old(self).current_module,
        decreases tree,
    {
        match tree {
            UseTree::Prefix(seg, rest) => {
                let ghost entry = self.uses.deep_view();
                let ghost rv = view_use_tree(**rest);
                proof {
                    assert(view_use_tree(*tree) == UseTreeV::Prefix(seg@, seq![rv]));
                    assert(seq![rv][0] == rv);
                }
                self.extract_use_paths(rest);
                if !seg.as_str().is_empty() {
                    let ghost prev = self.uses.deep_view();
                    self.uses.push(seg.clone());
                    proof {
                        assert(self.uses.deep_view() =~~= prev + seq![seg@]);
                        assert(self.uses.deep_view() =~~= entry + (spec_use_targets(rv) + seq![
                            seg@,
                        ]));
                    }
                } else {
                    proof {
                        assert(self.uses.deep_view() =~~= entry + (spec_use_targets(rv) + Seq::<
                            Seq<char>,
                        >::empty()));
                    }
                }
                proof {
                    assert(self.uses.deep_view() =~~= entry + spec_use_targets(
                        view_use_tree(*tree),
                    ));
                }
            },
            UseTree::Name(n) => {
                let ghost prev = self.uses.deep_view();
                self.uses.push(n.clone());
                proof {
                    assert(self.uses.deep_view() =~~= prev + seq![n@]);
                }
            },
            UseTree::Rename(n) => {
                let ghost prev = self.uses.deep_view();
                self.uses.push(n.clone());
                proof {
                    assert(self.uses.deep_view() =~~= prev + seq![n@]);
                }
            },
            UseTree::Glob => {
                proof {
                    assert(self.uses.deep_view() =~~= self.uses.deep_view() + Seq::<
                        Seq<char>,
                    >::empty());
                }
            },
            UseTree::Group(ts) => {
                let ghost entry = self.uses.deep_view();
                let ghost tsv = view_use_trees(ts@);
                proof {
                    assert(view_use_tree(*tree) == UseTreeV::Group(tsv));
                    lemma_view_use_trees_index(ts@);
                    assert(tsv.subrange(0, tsv.len() as int) =~~= tsv);
                }
                let mut j: usize = 0;
                while j < ts.len()
                    invariant
                        j <= ts.len(),
                        *tree == UseTree::Group(*ts),
                        tsv == view_use_trees(ts@),
                        view_use_tree(*tree) == UseTreeV::Group(tsv),
                        tsv.len() == ts@.len(),
                        forall|i: int|
                            0 <= i < ts@.len() ==> tsv[i] == view_use_tree(#[trigger] ts@[i]),
                        self.uses.deep_view() + spec_use_targets_list(
                            tsv.subrange(j as int, tsv.len() as int),
                        ) == entry + spec_use_targets_list(tsv),
                        self.items == old(self).items,
                        self.current_module == old(self).current_module,
                    decreases ts.len() - j,
                {
                    let ghost before = self.uses.deep_view();
                    proof {
                        assert(tsv.subrange(j as int, tsv.len() as int)[0] == tsv[j as int]);
                        assert(tsv.subrange(j as int, tsv.len() as int).subrange(
                            1,
                            (tsv.len() - j) as int,
                        ) =~~= tsv.subrange(j + 1, tsv.len() as int));
                        assert(decreases_to!(*tree => ts@[j as int])) by {
                            assert(*tree == UseTree::Group(*ts));
                            assert(decreases_to!(*tree => (*tree)->Group_0));
                            assert((*tree)->Group_0 == *ts);
                            assert(decreases_to!(*ts => ts@));
                            assert(decreases_to!(ts@ => ts@[j as int]));
                        }
                    }
                    self.extract_use_paths(&ts[j]);
                    proof {
                        assert(self.uses.deep_view() == before + spec_use_targets(tsv[j as int]));
                        assert(self.uses.deep_view() + spec_use_targets_list(
                            tsv.subrange(j + 1, tsv.len() as int),
                        ) =~~= before + (spec_use_targets(tsv[j as int]) + spec_use_targets_list(
                            tsv.subrange(j + 1, tsv.len() as int),
                        )));
                    }
                    j = j + 1;
                }
                proof {
                    assert(tsv.subrange(tsv.len() as int, tsv.len() as int).len() == 0);
                    assert(self.uses.deep_view() + Seq::<Seq<char>>::empty() =~~= self
                        .uses
                        .deep_view());
                    assert(self.uses.deep_view() =~~= entry + spec_use_targets(
                        view_use_tree(*tree),
                    ));
                }
            },
        }
    }

    /// A copy of the raw import targets recorded by the last parse.
    pub fn get_uses(&self) -> (r: Vec<String>)
        ensures
            r.deep_view() == self.uses.deep_view(),
    {
        let r = crate::text::tail_strings(&self.uses, 0);
        proof {
            assert(self.uses.deep_view().skip(0) =~~= self.uses.deep_view());
        }
        r
    }

    /// Extracts one source file: parses it into a syntax tree, records
    /// every top-level definition with its visibility class, expands
    /// every import tree, and infers the module kind from the path. Fails
    /// exactly when the grammar rejects the text; identical contents and
    /// paths always yield identical output.
    pub fn parse_file(&mut self, content: &str, logical_path: &str, file_path: &str) -> (r: Result<
        Module,
        String,
    >)
        ensures
            r is Ok <==> rust_parse_ok(content@),
            final (self).current_module@ == logical_path@,
            rust_parse_ok(content@) ==> final (self).items.deep_view() == spec_items_of(
                rust_decls_of(content@),
            ) && final (self).uses.deep_view() == spec_uses_of(rust_decls_of(content@)),
            !rust_parse_ok(content@) ==> final (self).items@.len() == 0
                && final (self).uses@.len() == 0,
            r is Ok ==> r->Ok_0@ == (ModuleV {
                id: spec_rust_id(logical_path@),
                name: logical_path@,
                path: file_path@,
                module_type: spec_rust_module_type(file_path@),
                visibility: Visibility::Public,
                items: spec_items_of(rust_decls_of(content@)),
            }),
    {
        self.current_module = string_from_chars(&chars_of(logical_path));
        self.items = Vec::new();
        self.uses = Vec::new();
        match parse_rust_decls(content) {
            Err(e) => Err(e),
            Ok(decls) => {
                let ghost dv = rust_decls_of(content@);
                proof {
                    assert(view_raw_decls(decls@) == dv);
                    assert(dv.len() == decls@.len());
                }
                let mut i: usize = 0;
                while i < decls.len()
                    invariant
                        i <= decls.len(),
                        view_raw_decls(decls@) == dv,
                        dv.len() == decls@.len(),
                        self.items.deep_view() == spec_decl_items(dv, i as int),
                        self.uses.deep_view() == spec_decl_uses(dv, i as int),
                        self.current_module@ == logical_path@,
                    decreases decls.len() - i,
                {
                    let ghost iprev = self.items.deep_view();
                    let ghost uprev = self.uses.deep_view();
                    proof {
                        assert(dv[i as int] == view_raw_decl(decls@[i as int]));
                    }
                    match &decls[i] {
                        RawDecl::Def(d) => {
                            let visibility = Self::convert_visibility(&d.vis);
                            self.items.push(
                                Item { name: d.name.clone(), item_type: d.kind, visibility },
                            );
                            proof {
                                assert(self.items.deep_view() =~~= iprev + match dv[i as int] {
                                    RawDeclV::Def(def) => seq![spec_item_of_def(def)],
                                    RawDeclV::Import(_) => Seq::empty(),
                                });
                                assert(self.uses.deep_view() =~~= uprev + match dv[i as int] {
                                    RawDeclV::Def(_) => Seq::empty(),
                                    RawDeclV::Import(t) => spec_use_targets(t),
                                });
                            }
                        },
                        RawDecl::Import(t) => {
                            self.extract_use_paths(t);
                            proof {
                                assert(self.items.deep_view() =~~= iprev + match dv[i as int] {
                                    RawDeclV::Def(def) => seq![spec_item_of_def(def)],
                                    RawDeclV::Import(_) => Seq::empty(),
                                });
                                assert(self.uses.deep_view() =~~= uprev + match dv[i as int] {
                                    RawDeclV::Def(_) => Seq::empty(),
                                    RawDeclV::Import(tt) => spec_use_targets(tt),
                                });
                            }
                        },
                    }
                    i = i + 1;
                }
                let sep = chars_of("::");
                let dash = chars_of("-");
                proof {
                    reveal_strlit("::");
                    reveal_strlit("-");
                }
                let id_chars = replace_seq(&chars_of(logical_path), &sep, &dash);
                let module = Module {
                    id: string_from_chars(&id_chars),
                    name: string_from_chars(&chars_of(logical_path)),
                    path: string_from_chars(&chars_of(file_path)),
                    module_type: Self::determine_module_type(file_path),
                    visibility: Visibility::Public,
                    items: duplicate_items(&self.items),
                };
                proof {
                    assert(module@ =~~= (ModuleV {
                        id: spec_rust_id(logical_path@),
                        name: logical_path@,
                        path: file_path@,
                        module_type: spec_rust_module_type(file_path@),
                        visibility: Visibility::Public,
                        items: spec_items_of(rust_decls_of(content@)),
                    }));
                }
                Ok(module)
            },
        }
    }
}

} // verus!
