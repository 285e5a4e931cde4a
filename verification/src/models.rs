//! The data model: modules, declared items, dependencies, relationships and
//! the derived aggregates handed to consumers.

use vstd::prelude::*;

verus! {

/// Kind of a parsed module, inferred from its file's path and name.
#[derive(Clone, Copy, PartialEq, Eq, Structural, Debug)]
pub enum ModuleType {
    Binary,
    Library,
    Module,
    Test,
    Example,
    Benchmark,
}

/// Visibility class of a module or of a declared item.
#[derive(Clone, Copy, PartialEq, Eq, Structural, Debug)]
pub enum Visibility {
    Public,
    Private,
    Crate,
    Super,
}

/// Kind of a top-level declaration recorded for a module.
#[derive(Clone, Copy, PartialEq, Eq, Structural, Debug)]
pub enum ItemType {
    Function,
    Struct,
    Enum,
    Trait,
    Const,
    Static,
    Type,
    Macro,
}

/// Usage kind of a declared third-party dependency.
#[derive(Clone, Copy, PartialEq, Eq, Structural, Debug)]
pub enum DependencyType {
    Normal,
    Dev,
    Build,
}

/// Kind of a directed relationship between two module identifiers.
#[derive(Clone, Copy, PartialEq, Eq, Structural, Debug)]
pub enum RelationType {
    Uses,
    Declares,
}

/// One top-level declaration within a module.
#[derive(Clone, Debug)]
pub struct Item {
    pub name: String,
    pub item_type: ItemType,
    pub visibility: Visibility,
}

/// Mathematical value of an [`Item`].
#[verifier::ext_equal]
pub struct ItemV {
    pub name: Seq<char>,
    pub item_type: ItemType,
    pub visibility: Visibility,
}

impl View for Item {
    type V = ItemV;

    open spec fn view(&self) -> ItemV {
        ItemV { name: self.name@, item_type: self.item_type, visibility: self.visibility }
    }
}

impl DeepView for Item {
    type V = ItemV;

    open spec fn deep_view(&self) -> ItemV {
        self.view()
    }
}

/// One parsed source file's structural summary. Identity is `id`.
#[derive(Clone, Debug)]
pub struct Module {
    pub id: String,
    pub name: String,
    pub path: String,
    pub module_type: ModuleType,
    pub visibility: Visibility,
    pub items: Vec<Item>,
}

/// Mathematical value of a [`Module`].
#[verifier::ext_equal]
pub struct ModuleV {
    pub id: Seq<char>,
    pub name: Seq<char>,
    pub path: Seq<char>,
    pub module_type: ModuleType,
    pub visibility: Visibility,
    pub items: Seq<ItemV>,
}

impl View for Module {
    type V = ModuleV;

    open spec fn view(&self) -> ModuleV {
        ModuleV {
            id: self.id@,
            name: self.name@,
            path: self.path@,
            module_type: self.module_type,
            visibility: self.visibility,
            items: self.items.deep_view(),
        }
    }
}

impl DeepView for Module {
    type V = ModuleV;

    open spec fn deep_view(&self) -> ModuleV {
        self.view()
    }
}

/// One declared third-party dependency.
#[derive(Clone, Debug)]
pub struct Dependency {
    pub name: String,
    pub version: String,
    pub dep_type: DependencyType,
}

/// Mathematical value of a [`Dependency`].
#[verifier::ext_equal]
pub struct DependencyV {
    pub name: Seq<char>,
    pub version: Seq<char>,
    pub dep_type: DependencyType,
}

impl View for Dependency {
    type V = DependencyV;

    open spec fn view(&self) -> DependencyV {
        DependencyV { name: self.name@, version: self.version@, dep_type: self.dep_type }
    }
}

impl DeepView for Dependency {
    type V = DependencyV;

    open spec fn deep_view(&self) -> DependencyV {
        self.view()
    }
}

/// A directed edge between module identifiers. `from` always names a parsed
/// module; `to` may dangle (an unresolved or external reference).
#[derive(Clone, Debug)]
pub struct Relationship {
    pub from: String,
    pub to: String,
    pub rel_type: RelationType,
}

/// Mathematical value of a [`Relationship`].
#[verifier::ext_equal]
pub struct RelationshipV {
    pub from: Seq<char>,
    pub to: Seq<char>,
    pub rel_type: RelationType,
}

impl View for Relationship {
    type V = RelationshipV;

    open spec fn view(&self) -> RelationshipV {
        RelationshipV { from: self.from@, to: self.to@, rel_type: self.rel_type }
    }
}

impl DeepView for Relationship {
    type V = RelationshipV;

    open spec fn deep_view(&self) -> RelationshipV {
        self.view()
    }
}

impl Item {
    /// A copy with the same mathematical value.
    pub fn duplicate(&self) -> (r: Item)
        ensures
            r@ == self@,
    {
        Item {
            name: self.name.clone(),
            item_type: self.item_type,
            visibility: self.visibility,
        }
    }
}

/// A copy of an item list with the same mathematical value.
pub fn duplicate_items(v: &Vec<Item>) -> (r: Vec<Item>)
    ensures
        r.deep_view() == v.deep_view(),
{
    let mut r: Vec<Item> = Vec::new();
    let mut i: usize = 0;
    while i < v.len()
        invariant
            i <= v.len(),
            r.deep_view() == v.deep_view().take(i as int),
        decreases v.len() - i,
    {
        let ghost prev = r.deep_view();
        r.push(v[i].duplicate());
        proof {
            assert(r.deep_view() =~~= prev.push(v.deep_view()[i as int]));
            assert(v.deep_view().take(i + 1) =~= v.deep_view().take(i as int).push(
                v.deep_view()[i as int],
            ));
        }
        i = i + 1;
    }
    proof {
        assert(v.deep_view().take(v.deep_view().len() as int) =~~= v.deep_view());
    }
    r
}

impl Module {
    /// A copy with the same mathematical value.
    pub fn duplicate(&self) -> (r: Module)
        ensures
            r@ == self@,
    {
        let r = Module {
            id: self.id.clone(),
            name: self.name.clone(),
            path: self.path.clone(),
            module_type: self.module_type,
            visibility: self.visibility,
            items: duplicate_items(&self.items),
        };
        proof {
            assert(r@ =~~= self@);
        }
        r
    }
}

/// A copy of a module list with the same mathematical value.
pub fn duplicate_modules(v: &Vec<Module>) -> (r: Vec<Module>)
    ensures
        r.deep_view() == v.deep_view(),
{
    let mut r: Vec<Module> = Vec::new();
    let mut i: usize = 0;
    while i < v.len()
        invariant
            i <= v.len(),
            r.deep_view() == v.deep_view().take(i as int),
        decreases v.len() - i,
    {
        let ghost prev = r.deep_view();
        r.push(v[i].duplicate());
        proof {
            assert(r.deep_view() =~~= prev.push(v.deep_view()[i as int]));
            assert(v.deep_view().take(i + 1) =~= v.deep_view().take(i as int).push(
                v.deep_view()[i as int],
            ));
        }
        i = i + 1;
    }
    proof {
        assert(v.deep_view().take(v.deep_view().len() as int) =~~= v.deep_view());
    }
    r
}

impl Dependency {
    /// A copy with the same mathematical value.
    pub fn duplicate(&self) -> (r: Dependency)
        ensures
            r@ == self@,
    {
        Dependency {
            name: self.name.clone(),
            version: self.version.clone(),
            dep_type: self.dep_type,
        }
    }
}

/// A copy of a dependency list with the same mathematical value.
pub fn duplicate_dependencies(v: &Vec<Dependency>) -> (r: Vec<Dependency>)
    ensures
        r.deep_view() == v.deep_view(),
{
    let mut r: Vec<Dependency> = Vec::new();
    let mut i: usize = 0;
    while i < v.len()
        invariant
            i <= v.len(),
            r.deep_view() == v.deep_view().take(i as int),
        decreases v.len() - i,
    {
        let ghost prev = r.deep_view();
        r.push(v[i].duplicate());
        proof {
            assert(r.deep_view() =~~= prev.push(v.deep_view()[i as int]));
            assert(v.deep_view().take(i + 1) =~= v.deep_view().take(i as int).push(
                v.deep_view()[i as int],
            ));
        }
        i = i + 1;
    }
    proof {
        assert(v.deep_view().take(v.deep_view().len() as int) =~~= v.deep_view());
    }
    r
}

impl Relationship {
    /// A copy with the same mathematical value.
    pub fn duplicate(&self) -> (r: Relationship)
        ensures
            r@ == self@,
    {
        Relationship { from: self.from.clone(), to: self.to.clone(), rel_type: self.rel_type }
    }
}

/// A copy of a relationship list with the same mathematical value.
pub fn duplicate_relationships(v: &Vec<Relationship>) -> (r: Vec<Relationship>)
    ensures
        r.deep_view() == v.deep_view(),
{
    let mut r: Vec<Relationship> = Vec::new();
    let mut i: usize = 0;
    while i < v.len()
        invariant
            i <= v.len(),
            r.deep_view() == v.deep_view().take(i as int),
        decreases v.len() - i,
    {
        let ghost prev = r.deep_view();
        r.push(v[i].duplicate());
        proof {
            assert(r.deep_view() =~~= prev.push(v.deep_view()[i as int]));
            assert(v.deep_view().take(i + 1) =~= v.deep_view().take(i as int).push(
                v.deep_view()[i as int],
            ));
        }
        i = i + 1;
    }
    proof {
        assert(v.deep_view().take(v.deep_view().len() as int) =~~= v.deep_view());
    }
    r
}

/// The aggregate produced by one analysis run: the sole artifact handed to
/// external consumers.
#[derive(Clone, Debug)]
pub struct ProjectStructure {
    pub root_path: String,
    pub modules: Vec<Module>,
    pub dependencies: Vec<Dependency>,
    pub relationships: Vec<Relationship>,
}

/// Derived per-module measurements; `complexity_score` is the declared-item
/// count, a coarse proxy.
#[derive(Clone, Copy, PartialEq, Eq, Structural, Debug)]
pub struct ModuleMetrics {
    pub lines_of_code: usize,
    pub incoming_deps: usize,
    pub outgoing_deps: usize,
    pub complexity_score: usize,
}

/// Derived problem report over a finished [`ProjectStructure`].
#[derive(Clone, Debug)]
pub struct ProjectProblems {
    pub cycles: Vec<Vec<String>>,
    pub unused_modules: Vec<String>,
    pub large_modules: Vec<String>,
    pub highly_coupled: Vec<String>,
}

} // verus!
