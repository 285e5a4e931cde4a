//! The analyzer for structured-family projects and the graph analyses run
//! over a finished module/relationship set: cycle detection, per-module
//! metrics, unused-module detection and threshold-based problem
//! classification.

use vstd::prelude::*;

use crate::models::{
    Dependency, Module, ModuleMetrics, ModuleType, ModuleV, ProjectProblems, ProjectStructure,
    Relationship, RelationshipV, RelationType, duplicate_dependencies, duplicate_modules,
    duplicate_relationships,
};
use crate::relations::{
    declares_edges, has_module_id, lemma_ids_unique_push, spec_declares_edges, spec_has_module_id,
    spec_ids_unique, spec_uses_edges, uses_edges,
};
use crate::text::{
    append_all, chars_of, contains_str, ends_with_seq, position_str, push_decimal, replace_seq,
    spec_dec_digits, spec_ends_with, spec_replace, spec_trim_end_matches, spec_trim_start_matches,
    string_from_chars, tail_strings, take_to, trim_end_matches_seq, trim_start_matches_seq,
};

verus! {

/// Line count above which a module is classified "large" (strictly
/// greater-than).
pub const LARGE_MODULE_LINES: usize = 500;

/// Incoming-edge count above which a module is classified "highly coupled"
/// (strictly greater-than).
pub const HIGH_COUPLING_EDGES: usize = 10;

/// The two language families an analyzed project can belong to.
#[derive(Clone, Copy, PartialEq, Eq, Structural, Debug)]
pub enum ProjectFamily {
    Rust,
    Python,
}

/// Language family selection, as a priority check over the files present
/// at the project root: the primary manifest selects the structured
/// family; otherwise any heuristic-family marker file selects that
/// family; with neither the project is unrecognized and nothing is
/// analyzed.
pub fn detect_project_family(
    has_cargo_manifest: bool,
    has_setup: bool,
    has_requirements: bool,
    has_pyproject: bool,
    has_package_index: bool,
) -> (r: Option<ProjectFamily>)
    ensures
        r == if has_cargo_manifest {
            Some(ProjectFamily::Rust)
        } else if has_setup || has_requirements || has_pyproject || has_package_index {
            Some(ProjectFamily::Python)
        } else {
            None::<ProjectFamily>
        },
{
    if has_cargo_manifest {
        Some(ProjectFamily::Rust)
    } else if has_setup || has_requirements || has_pyproject || has_package_index {
        Some(ProjectFamily::Python)
    } else {
        None
    }
}

// === graph specifications ===

/// Whether the relationship set holds a directed edge from `a` to `b`
/// (either kind).
pub open spec fn spec_edge(rels: Seq<RelationshipV>, a: Seq<char>, b: Seq<char>) -> bool {
    exists|k: int| 0 <= k < rels.len() && rels[k].from == a && rels[k].to == b
}

/// Whether consecutive nodes of `c` are each connected by an edge.
pub open spec fn spec_chained(rels: Seq<RelationshipV>, c: Seq<Seq<char>>) -> bool {
    forall|i: int| 0 <= i < c.len() - 1 ==> spec_edge(rels, #[trigger] c[i], c[i + 1])
}

/// A non-empty node sequence whose consecutive nodes are connected and
/// whose last node connects back to its first: a cycle of the relationship
/// set.
pub open spec fn spec_is_cycle(rels: Seq<RelationshipV>, c: Seq<Seq<char>>) -> bool {
    c.len() >= 1 && spec_chained(rels, c) && spec_edge(rels, c.last(), c[0])
}

/// Whether the relationship set has no cycle at all.
pub open spec fn spec_acyclic(rels: Seq<RelationshipV>) -> bool {
    forall|c: Seq<Seq<char>>| !spec_is_cycle(rels, c)
}

/// Whether the relationship set holds an edge from `x` back to `x`.
pub open spec fn spec_self_edge(rels: Seq<RelationshipV>, x: Seq<char>) -> bool {
    spec_edge(rels, x, x)
}

/// Some sequence recorded at position `lo` or later begins and ends at
/// `x`.
pub open spec fn spec_cycle_at(cs: Seq<Seq<Seq<char>>>, lo: int, x: Seq<char>) -> bool {
    exists|i: int|
        lo <= i < cs.len() && (#[trigger] cs[i]).len() >= 1 && cs[i][0] == x && cs[i].last() == x
}

/// A recorded-cycle witness survives any extension of the list that
/// keeps the already-recorded entries, and any widening of the range.
proof fn lemma_cycle_at_mono(
    cs1: Seq<Seq<Seq<char>>>,
    cs2: Seq<Seq<Seq<char>>>,
    lo1: int,
    lo2: int,
    x: Seq<char>,
)
    requires
        spec_cycle_at(cs1, lo1, x),
        lo2 <= lo1,
        forall|i: int| lo1 <= i < cs1.len() ==> i < cs2.len() && #[trigger] cs2[i] == cs1[i],
    ensures
        spec_cycle_at(cs2, lo2, x),
{
    let i = choose|i: int|
        lo1 <= i < cs1.len() && (#[trigger] cs1[i]).len() >= 1 && cs1[i][0] == x && cs1[i].last()
            == x;
    assert(cs2[i] == cs1[i]);
}

/// Every node the traversal can ever reach: the module ids and the edge
/// targets.
pub open spec fn spec_universe(ms: Seq<ModuleV>, rels: Seq<RelationshipV>) -> Seq<Seq<char>> {
    ms.map_values(|m: ModuleV| m.id) + rels.map_values(|r: RelationshipV| r.to)
}

/// The visited list stays duplicate-free and inside the universe.
pub open spec fn spec_nodes_ok(visited: Seq<Seq<char>>, univ: Seq<Seq<char>>) -> bool {
    visited.no_duplicates() && forall|x: Seq<char>| #[trigger]
        visited.contains(x) ==> univ.contains(x)
}

proof fn lemma_push_no_dup(s: Seq<Seq<char>>, x: Seq<char>)
    requires
        s.no_duplicates(),
        !s.contains(x),
    ensures
        s.push(x).no_duplicates(),
{
    let t = s.push(x);
    assert forall|i: int, j: int|
        0 <= i < t.len() && 0 <= j < t.len() && i != j implies t[i] != t[j] by {
        if i < s.len() && j < s.len() {
        } else if i < s.len() && j == s.len() {
            if s[i] == x {
                assert(s.contains(x));
            }
        } else if j < s.len() && i == s.len() {
            if s[j] == x {
                assert(s.contains(x));
            }
        }
    }
}

/// A duplicate-free sequence whose elements all occur in `univ` cannot be
/// longer than `univ`.
proof fn lemma_visited_bound(visited: Seq<Seq<char>>, univ: Seq<Seq<char>>)
    requires
        visited.no_duplicates(),
        forall|x: Seq<char>| #[trigger] visited.contains(x) ==> univ.contains(x),
    ensures
        visited.len() <= univ.len(),
{
    broadcast use vstd::seq_lib::seq_to_set_is_finite;
    broadcast use vstd::set::group_set_axioms;

    visited.unique_seq_to_set();
    univ.lemma_cardinality_of_set();
    assert forall|x: Seq<char>|
        visited.to_set().contains(x) implies univ.to_set().contains(x) by {
        assert(visited.contains(x));
        assert(univ.contains(x));
    }
    assert(visited.to_set().subset_of(univ.to_set()));
    vstd::set_lib::lemma_len_subset(visited.to_set(), univ.to_set());
}

// === metrics and usage specifications ===

/// How many relationships (of either kind) target `id`.
pub open spec fn spec_count_incoming(rels: Seq<RelationshipV>, id: Seq<char>) -> nat
    decreases rels.len(),
{
    if rels.len() == 0 {
        0
    } else {
        spec_count_incoming(rels.drop_last(), id) + if rels.last().to == id {
            1nat
        } else {
            0nat
        }
    }
}

/// How many relationships (of either kind) leave `id`.
pub open spec fn spec_count_outgoing(rels: Seq<RelationshipV>, id: Seq<char>) -> nat
    decreases rels.len(),
{
    if rels.len() == 0 {
        0
    } else {
        spec_count_outgoing(rels.drop_last(), id) + if rels.last().from == id {
            1nat
        } else {
            0nat
        }
    }
}

/// Whether some `Uses` edge targets `id` (`Declares` edges do not count).
pub open spec fn spec_is_used(rels: Seq<RelationshipV>, id: Seq<char>) -> bool {
    exists|k: int|
        0 <= k < rels.len() && rels[k].to == id && rels[k].rel_type == RelationType::Uses
}

/// Binary and Library modules are always-reachable entry points.
pub open spec fn spec_is_entry(m: ModuleV) -> bool {
    m.module_type == ModuleType::Binary || m.module_type == ModuleType::Library
}

/// A module is unused iff no `Uses` edge targets it and it is not an entry
/// point.
pub open spec fn spec_unused(m: ModuleV, rels: Seq<RelationshipV>) -> bool {
    !spec_is_used(rels, m.id) && !spec_is_entry(m)
}

/// A module of kind Binary or Library is never classified unused,
/// regardless of its incoming edges — including none at all.
pub proof fn lemma_entry_never_unused(m: ModuleV, rels: Seq<RelationshipV>)
    requires
        m.module_type == ModuleType::Binary || m.module_type == ModuleType::Library,
    ensures
        !spec_unused(m, rels),
{
}

/// The names of the unused modules among the first `i`, in module order.
pub open spec fn spec_unused_fold(ms: Seq<ModuleV>, rels: Seq<RelationshipV>, i: int) -> Seq<
    Seq<char>,
>
    decreases i,
{
    if i <= 0 {
        Seq::empty()
    } else {
        spec_unused_fold(ms, rels, i - 1) + if spec_unused(ms[i - 1], rels) {
            seq![ms[i - 1].name]
        } else {
            Seq::empty()
        }
    }
}

/// The names of all unused modules, in module order.
pub open spec fn spec_unused_names(ms: Seq<ModuleV>, rels: Seq<RelationshipV>) -> Seq<Seq<char>> {
    spec_unused_fold(ms, rels, ms.len() as int)
}

// === problem report specifications ===

/// The label reported for an oversized module.
pub open spec fn spec_large_label(name: Seq<char>, n: usize) -> Seq<char> {
    name + " ("@ + spec_dec_digits(n as int) + " lines)"@
}

/// The label reported for a highly coupled module.
pub open spec fn spec_coupled_label(name: Seq<char>, n: usize) -> Seq<char> {
    name + " ("@ + spec_dec_digits(n as int) + " deps)"@
}

/// The labels of the oversized modules among the first `i`: strictly more
/// lines than the threshold.
pub open spec fn spec_large_fold(ms: Seq<ModuleV>, loc: Seq<usize>, i: int) -> Seq<Seq<char>>
    decreases i,
{
    if i <= 0 {
        Seq::empty()
    } else {
        spec_large_fold(ms, loc, i - 1) + if loc[i - 1] > LARGE_MODULE_LINES {
            seq![spec_large_label(ms[i - 1].name, loc[i - 1])]
        } else {
            Seq::empty()
        }
    }
}

/// The labels of the highly coupled modules among the first `i`: strictly
/// more incoming edges than the threshold.
pub open spec fn spec_coupled_fold(ms: Seq<ModuleV>, rels: Seq<RelationshipV>, i: int) -> Seq<
    Seq<char>,
>
    decreases i,
{
    if i <= 0 {
        Seq::empty()
    } else {
        spec_coupled_fold(ms, rels, i - 1) + if spec_count_incoming(rels, ms[i - 1].id)
            > HIGH_COUPLING_EDGES {
            seq![
                spec_coupled_label(
                    ms[i - 1].name,
                    spec_count_incoming(rels, ms[i - 1].id) as usize,
                ),
            ]
        } else {
            Seq::empty()
        }
    }
}

// === path normalization (structured family) ===

/// Logical `::`-separated module path of a relative source path: root
/// prefixes stripped, the extension stripped, a final module-index
/// filename collapsed into its directory, path separators turned into
/// `::`.
pub open spec fn spec_rust_module_name(p: Seq<char>) -> Seq<char> {
    let a = spec_trim_start_matches(p, "src/"@);
    let b = spec_trim_start_matches(a, "tests/"@);
    let c = spec_trim_start_matches(b, "examples/"@);
    let d = spec_trim_start_matches(c, "benches/"@);
    let e = spec_trim_end_matches(d, ".rs"@);
    let f = if spec_ends_with(e, "/mod"@) {
        e.take(e.len() - "/mod"@.len())
    } else {
        e
    };
    spec_replace(spec_replace(f, "/"@, "::"@), "\\"@, "::"@)
}

/// Canonical module id of a logical path: the `::` separator replaced
/// with the canonical delimiter, a character a module-path segment cannot
/// hold.
pub open spec fn spec_rust_id(name: Seq<char>) -> Seq<char> {
    spec_replace(name, "::"@, "-"@)
}

// === executable helpers ===

/// How many relationships target `id`.
fn count_incoming_edges(rels: &Vec<Relationship>, id: &String) -> (r: usize)
    ensures
        r == spec_count_incoming(rels.deep_view(), id@),
{
    let mut cnt: usize = 0;
    let mut k: usize = 0;
    while k < rels.len()
        invariant
            k <= rels.len(),
            cnt <= k,
            cnt == spec_count_incoming(rels.deep_view().take(k as int), id@),
        decreases rels.len() - k,
    {
        if rels[k].to.eq(id) {
            cnt = cnt + 1;
        }
        proof {
            assert(rels.deep_view().take(k + 1).drop_last() =~~= rels.deep_view().take(k as int));
            assert(rels.deep_view().take(k + 1).last() == rels.deep_view()[k as int]);
        }
        k = k + 1;
    }
    proof {
        assert(rels.deep_view().take(rels.deep_view().len() as int) =~~= rels.deep_view());
    }
    cnt
}

/// How many relationships leave `id`.
fn count_outgoing_edges(rels: &Vec<Relationship>, id: &String) -> (r: usize)
    ensures
        r == spec_count_outgoing(rels.deep_view(), id@),
{
    let mut cnt: usize = 0;
    let mut k: usize = 0;
    while k < rels.len()
        invariant
            k <= rels.len(),
            cnt <= k,
            cnt == spec_count_outgoing(rels.deep_view().take(k as int), id@),
        decreases rels.len() - k,
    {
        if rels[k].from.eq(id) {
            cnt = cnt + 1;
        }
        proof {
            assert(rels.deep_view().take(k + 1).drop_last() =~~= rels.deep_view().take(k as int));
            assert(rels.deep_view().take(k + 1).last() == rels.deep_view()[k as int]);
        }
        k = k + 1;
    }
    proof {
        assert(rels.deep_view().take(rels.deep_view().len() as int) =~~= rels.deep_view());
    }
    cnt
}

/// Whether some `Uses` edge targets `id`.
fn any_uses_edge_to(rels: &Vec<Relationship>, id: &String) -> (r: bool)
    ensures
        r == spec_is_used(rels.deep_view(), id@),
{
    let mut k: usize = 0;
    while k < rels.len()
        invariant
            k <= rels.len(),
            forall|j: int|
                0 <= j < k ==> !(rels.deep_view()[j].to == id@ && rels.deep_view()[j].rel_type
                    == RelationType::Uses),
        decreases rels.len() - k,
    {
        if rels[k].to.eq(id) && rels[k].rel_type == RelationType::Uses {
            proof {
                assert(rels.deep_view()[k as int].to == id@ && rels.deep_view()[k as int].rel_type
                    == RelationType::Uses);
            }
            return true;
        }
        k = k + 1;
    }
    proof {
        if spec_is_used(rels.deep_view(), id@) {
            let j = choose|j: int|
                0 <= j < rels.deep_view().len() && rels.deep_view()[j].to == id@
                    && rels.deep_view()[j].rel_type == RelationType::Uses;
            assert(!(rels.deep_view()[j].to == id@ && rels.deep_view()[j].rel_type
                == RelationType::Uses));
        }
    }
    false
}

// === the analyzer ===

/// Accumulates modules, dependencies and relationships for a
/// structured-family project, and runs the read-only graph analyses over a
/// finished set. The caller walks the file tree and hands extraction
/// results in.
pub struct ProjectAnalyzer {
    pub root_path: String,
    pub modules: Vec<Module>,
    pub dependencies: Vec<Dependency>,
    pub relationships: Vec<Relationship>,
}

impl ProjectAnalyzer {
    /// A fresh analyzer over the given project root.
    pub fn new(root_path: String) -> (r: Self)
        ensures
            r.root_path@ == root_path@,
            r.modules@.len() == 0,
            r.dependencies@.len() == 0,
            r.relationships@.len() == 0,
    {
        ProjectAnalyzer {
            root_path,
            modules: Vec::new(),
            dependencies: Vec::new(),
            relationships: Vec::new(),
        }
    }

    /// Loads an already-built aggregate, replacing the working collections.
    pub fn initialize_data(&mut self, structure: ProjectStructure)
        ensures
            final (self).modules == structure.modules,
            final (self).dependencies == structure.dependencies,
            final (self).relationships == structure.relationships,
            final (self).root_path == old(self).root_path,
    {
        let ProjectStructure { root_path: _, modules, dependencies, relationships } = structure;
        self.modules = modules;
        self.dependencies = dependencies;
        self.relationships = relationships;
    }

    /// Logical `::`-separated module path of a relative source path.
    pub fn path_to_module_name(&self, path: &str) -> (r: String)
        ensures
            r@ == spec_rust_module_name(path@),
    {
        let p = chars_of(path);
        let src_pre = chars_of("src/");
        let tests_pre = chars_of("tests/");
        let examples_pre = chars_of("examples/");
        let benches_pre = chars_of("benches/");
        let ext = chars_of(".rs");
        let mod_suffix = chars_of("/mod");
        let slash = chars_of("/");
        let backslash = chars_of("\\");
        let sep = chars_of("::");
        proof {
            reveal_strlit("src/");
            reveal_strlit("tests/");
            reveal_strlit("examples/");
            reveal_strlit("benches/");
            reveal_strlit(".rs");
            reveal_strlit("/mod");
            reveal_strlit("/");
            reveal_strlit("\\");
            reveal_strlit("::");
        }
        let a = trim_start_matches_seq(&p, &src_pre);
        let b = trim_start_matches_seq(&a, &tests_pre);
        let c = trim_start_matches_seq(&b, &examples_pre);
        let d = trim_start_matches_seq(&c, &benches_pre);
        let e = trim_end_matches_seq(&d, &ext);
        let f = if ends_with_seq(&e, &mod_suffix) {
            take_to(&e, e.len() - mod_suffix.len())
        } else {
            e
        };
        let g = replace_seq(&f, &slash, &sep);
        let h = replace_seq(&g, &backslash, &sep);
        string_from_chars(&h)
    }

    /// Canonical module id of a logical path.
    pub fn module_id(&self, name: &str) -> (r: String)
        ensures
            r@ == spec_rust_id(name@),
    {
        let n = chars_of(name);
        let sep = chars_of("::");
        let dash = chars_of("-");
        proof {
            reveal_strlit("::");
            reveal_strlit("-");
        }
        let a = replace_seq(&n, &sep, &dash);
        string_from_chars(&a)
    }

    /// Records one extracted module together with its `Uses` edges (the
    /// raw `::`-separated targets normalized to canonical ids). A module
    /// whose id is already taken is refused, so that two files can never
    /// collapse to one id; the caller diagnoses the refusal.
    pub fn add_module_with_uses(&mut self, module: Module, uses: &Vec<String>) -> (added: bool)
        ensures
            added == !spec_has_module_id(old(self).modules.deep_view(), module@.id),
            added ==> final (self).modules.deep_view() == old(self).modules.deep_view().push(
                module@,
            ) && final (self).relationships.deep_view() == old(self).relationships.deep_view()
                + spec_uses_edges(module@.id, uses.deep_view(), "::"@),
            !added ==> final (self).modules.deep_view() == old(self).modules.deep_view()
                && final (self).relationships.deep_view() == old(self).relationships.deep_view(),
            final (self).dependencies.deep_view() == old(self).dependencies.deep_view(),
            final (self).root_path@ == old(self).root_path@,
            spec_ids_unique(old(self).modules.deep_view()) ==> spec_ids_unique(
                final (self).modules.deep_view(),
            ),
    {
        let id_chars = chars_of(module.id.as_str());
        if has_module_id(&self.modules, &id_chars) {
            return false;
        }
        let sep = chars_of("::");
        proof {
            reveal_strlit("::");
        }
        let from_id = module.id.clone();
        let mut edges = uses_edges(&from_id, uses, &sep);
        let ghost edges_dv = edges.deep_view();
        let ghost mprev = self.modules.deep_view();
        let ghost rprev = self.relationships.deep_view();
        self.modules.push(module);
        self.relationships.append(&mut edges);
        proof {
            assert(self.modules.deep_view() =~~= mprev.push(module@));
            assert(self.relationships.deep_view() =~~= rprev + edges_dv);
            if spec_ids_unique(mprev) {
                lemma_ids_unique_push(mprev, module@);
            }
        }
        true
    }

    /// Records one extracted module without recording import edges. A
    /// module whose id is already taken is refused, so that two files can
    /// never collapse to one id; the caller diagnoses the refusal.
    pub fn add_module(&mut self, module: Module) -> (added: bool)
        ensures
            added == !spec_has_module_id(old(self).modules.deep_view(), module@.id),
            added ==> final (self).modules.deep_view() == old(self).modules.deep_view().push(
                module@,
            ),
            !added ==> final (self).modules.deep_view() == old(self).modules.deep_view(),
            final (self).relationships.deep_view() == old(self).relationships.deep_view(),
            final (self).dependencies.deep_view() == old(self).dependencies.deep_view(),
            final (self).root_path@ == old(self).root_path@,
            spec_ids_unique(old(self).modules.deep_view()) ==> spec_ids_unique(
                final (self).modules.deep_view(),
            ),
    {
        let id_chars = chars_of(module.id.as_str());
        if has_module_id(&self.modules, &id_chars) {
            return false;
        }
        let ghost mprev = self.modules.deep_view();
        self.modules.push(module);
        proof {
            assert(self.modules.deep_view() =~~= mprev.push(module@));
            if spec_ids_unique(mprev) {
                lemma_ids_unique_push(mprev, module@);
            }
        }
        true
    }

    /// Records one declared dependency from the project's manifest
    /// resolution.
    pub fn add_dependency(&mut self, dependency: Dependency)
        ensures
            final (self).dependencies.deep_view() == old(self).dependencies.deep_view().push(
                dependency@,
            ),
            final (self).modules.deep_view() == old(self).modules.deep_view(),
            final (self).relationships.deep_view() == old(self).relationships.deep_view(),
            final (self).root_path@ == old(self).root_path@,
    {
        let ghost dprev = self.dependencies.deep_view();
        self.dependencies.push(dependency);
        proof {
            assert(self.dependencies.deep_view() =~~= dprev.push(dependency@));
        }
    }

    /// Derives the `Declares` edges implied by the module-path hierarchy
    /// and appends them to the relationship list.
    pub fn build_relationships(&mut self)
        ensures
            final (self).relationships.deep_view() == old(self).relationships.deep_view()
                + spec_declares_edges(old(self).modules.deep_view(), "::"@),
            final (self).modules.deep_view() == old(self).modules.deep_view(),
            final (self).dependencies.deep_view() == old(self).dependencies.deep_view(),
            final (self).root_path@ == old(self).root_path@,
    {
        let sep = chars_of("::");
        proof {
            reveal_strlit("::");
        }
        let mut edges = declares_edges(&self.modules, &sep);
        let ghost edges_dv = edges.deep_view();
        let ghost rprev = self.relationships.deep_view();
        self.relationships.append(&mut edges);
        proof {
            assert(self.relationships.deep_view() =~~= rprev + edges_dv);
        }
    }

    /// Finishes one analysis run: derives the `Declares` edges and hands
    /// back the accumulated aggregate.
    pub fn finish(&mut self) -> (r: ProjectStructure)
        ensures
            final (self).relationships.deep_view() == old(self).relationships.deep_view()
                + spec_declares_edges(old(self).modules.deep_view(), "::"@),
            final (self).modules.deep_view() == old(self).modules.deep_view(),
            final (self).dependencies.deep_view() == old(self).dependencies.deep_view(),
            final (self).root_path@ == old(self).root_path@,
            r.root_path@ == final (self).root_path@,
            r.modules.deep_view() == final (self).modules.deep_view(),
            r.dependencies.deep_view() == final (self).dependencies.deep_view(),
            r.relationships.deep_view() == final (self).relationships.deep_view(),
    {
        self.build_relationships();
        ProjectStructure {
            root_path: self.root_path.clone(),
            modules: duplicate_modules(&self.modules),
            dependencies: duplicate_dependencies(&self.dependencies),
            relationships: duplicate_relationships(&self.relationships),
        }
    }

    /// Depth-first traversal from `node` over all outgoing edges. Visited
    /// nodes are never re-entered; an edge back into the current path
    /// records the sub-path from the target's occurrence as one cycle.
    #[verifier::rlimit(60)]
    fn dfs_cycle(
        &self,
        node: &String,
        visited: &mut Vec<String>,
        path: &mut Vec<String>,
        cycles: &mut Vec<Vec<String>>,
    )
        requires
            spec_universe(
                self.modules.deep_view(),
                self.relationships.deep_view(),
            ).contains(node@),
            !old(visited).deep_view().contains(node@),
            spec_nodes_ok(
                old(visited).deep_view(),
                spec_universe(self.modules.deep_view(), self.relationships.deep_view()),
            ),
            spec_chained(self.relationships.deep_view(), old(path).deep_view().push(node@)),
            old(path).deep_view().no_duplicates(),
            forall|x: Seq<char>| #[trigger]
                old(path).deep_view().contains(x) ==> old(visited).deep_view().contains(x),
        ensures
            old(visited).deep_view().push(node@).is_prefix_of(final (visited).deep_view()),
            spec_nodes_ok(
                final (visited).deep_view(),
                spec_universe(self.modules.deep_view(), self.relationships.deep_view()),
            ),
            final (path).deep_view() == old(path).deep_view(),
            old(cycles).deep_view().is_prefix_of(final (cycles).deep_view()),
            forall|i: int|
                old(cycles).deep_view().len() <= i < final (cycles).deep_view().len()
                    ==> spec_is_cycle(
                    self.relationships.deep_view(),
                    #[trigger] final (cycles).deep_view()[i],
                ) && final (cycles).deep_view()[i].no_duplicates(),
            forall|x: Seq<char>|
                (#[trigger] final (visited).deep_view().contains(x)) && !old(
                    visited,
                ).deep_view().contains(x) && spec_self_edge(self.relationships.deep_view(), x)
                    ==> spec_cycle_at(
                    final (cycles).deep_view(),
                    old(cycles).deep_view().len() as int,
                    x,
                ),
        decreases spec_universe(self.modules.deep_view(), self.relationships.deep_view()).len()
            - old(visited).deep_view().len(),
    {
        let ghost ms_dv = self.modules.deep_view();
        let ghost rels_dv = self.relationships.deep_view();
        let ghost univ = spec_universe(ms_dv, rels_dv);
        visited.push(node.clone());
        path.push(node.clone());
        proof {
            assert(visited.deep_view() =~~= old(visited).deep_view().push(node@));
            assert(path.deep_view() =~~= old(path).deep_view().push(node@));
            lemma_push_no_dup(old(visited).deep_view(), node@);
            if old(path).deep_view().contains(node@) {
                assert(old(visited).deep_view().contains(node@));
            }
            lemma_push_no_dup(old(path).deep_view(), node@);
            assert forall|x: Seq<char>| #[trigger]
                path.deep_view().contains(x) implies visited.deep_view().contains(x) by {
                let j = choose|j: int| 0 <= j < path.deep_view().len() && path.deep_view()[j] == x;
                if j < old(path).deep_view().len() {
                    assert(old(path).deep_view().contains(x));
                    let jj = choose|jj: int|
                        0 <= jj < old(visited).deep_view().len() && old(visited).deep_view()[jj]
                            == x;
                    assert(visited.deep_view()[jj] == x);
                } else {
                    assert(visited.deep_view()[old(visited).deep_view().len() as int] == node@);
                }
            }
            assert forall|x: Seq<char>| #[trigger]
                visited.deep_view().contains(x) implies univ.contains(x) by {
                if x != node@ {
                    let j = choose|j: int|
                        0 <= j < visited.deep_view().len() && visited.deep_view()[j] == x;
                    assert(old(visited).deep_view()[j] == x);
                    assert(old(visited).deep_view().contains(x));
                }
            }
        }
        let mut k: usize = 0;
        while k < self.relationships.len()
            invariant
                k <= self.relationships.len(),
                ms_dv == self.modules.deep_view(),
                rels_dv == self.relationships.deep_view(),
                univ == spec_universe(ms_dv, rels_dv),
                spec_universe(ms_dv, rels_dv).contains(node@),
                spec_nodes_ok(visited.deep_view(), univ),
                old(visited).deep_view().push(node@).is_prefix_of(visited.deep_view()),
                path.deep_view() == old(path).deep_view().push(node@),
                path.deep_view().no_duplicates(),
                forall|x: Seq<char>| #[trigger]
                    path.deep_view().contains(x) ==> visited.deep_view().contains(x),
                spec_chained(rels_dv, path.deep_view()),
                old(cycles).deep_view().is_prefix_of(cycles.deep_view()),
                forall|i: int|
                    old(cycles).deep_view().len() <= i < cycles.deep_view().len()
                        ==> spec_is_cycle(rels_dv, #[trigger] cycles.deep_view()[i])
                            && cycles.deep_view()[i].no_duplicates(),
                forall|x: Seq<char>|
                    (#[trigger] visited.deep_view().contains(x)) && !old(
                        visited,
                    ).deep_view().contains(x) && x != node@ && spec_self_edge(rels_dv, x)
                        ==> spec_cycle_at(cycles.deep_view(), old(cycles).deep_view().len() as int, x),
                (exists|kk: int|
                    0 <= kk < k && (#[trigger] rels_dv[kk]).from == node@ && rels_dv[kk].to
                        == node@) ==> spec_cycle_at(
                    cycles.deep_view(),
                    old(cycles).deep_view().len() as int,
                    node@,
                ),
            decreases self.relationships.len() - k,
        {
            let rel = &self.relationships[k];
            proof {
                assert(rels_dv[k as int] == rel@);
            }
            if rel.from.eq(node) {
                proof {
                    assert(rels_dv[k as int] == rel@);
                    assert(spec_edge(rels_dv, node@, rel@.to)) by {
                        assert(rels_dv[k as int].from == node@ && rels_dv[k as int].to == rel@.to);
                    }
                }
                if !contains_str(visited, &rel.to) {
                    proof {
                        // the target is in the universe
                        assert(univ[ms_dv.len() + k] == rel@.to);
                        assert(univ.contains(rel@.to));
                        // the current node is visited, so the target is not it
                        let ghost ol = old(visited).deep_view().len() as int;
                        assert(visited.deep_view().take(ol + 1)[ol] == visited.deep_view()[ol]);
                        assert(visited.deep_view()[ol] == node@);
                        assert(visited.deep_view().contains(node@));
                        assert(rel@.to != node@);
                        // the extended path is chained
                        let ghost pd = path.deep_view();
                        assert forall|i: int|
                            0 <= i < pd.push(rel@.to).len() - 1 implies spec_edge(
                            rels_dv,
                            #[trigger] pd.push(rel@.to)[i],
                            pd.push(rel@.to)[i + 1],
                        ) by {
                            if i < pd.len() - 1 {
                                assert(spec_edge(rels_dv, pd[i], pd[i + 1]));
                            } else {
                                assert(pd.push(rel@.to)[i] == node@);
                                assert(pd.push(rel@.to)[i + 1] == rel@.to);
                            }
                        }
                        // the recursion terminates: visited grew and stays bounded
                        lemma_visited_bound(visited.deep_view(), univ);
                        lemma_push_no_dup(visited.deep_view(), rel@.to);
                        assert forall|x: Seq<char>| #[trigger]
                            visited.deep_view().push(rel@.to).contains(x) implies univ.contains(
                            x,
                        ) by {
                            if x != rel@.to {
                                let j = choose|j: int|
                                    0 <= j < visited.deep_view().push(rel@.to).len()
                                        && visited.deep_view().push(rel@.to)[j] == x;
                                assert(visited.deep_view()[j] == x);
                                assert(visited.deep_view().contains(x));
                            }
                        }
                        lemma_visited_bound(visited.deep_view().push(rel@.to), univ);
                    }
                    let ghost visited_mid = visited.deep_view();
                    let ghost cycles_mid = cycles.deep_view();
                    self.dfs_cycle(&rel.to, visited, path, cycles);
                    proof {
                        // prefix facts compose
                        assert(old(visited).deep_view().push(node@).is_prefix_of(
                            visited.deep_view(),
                        )) by {
                            assert(visited_mid.push(rel@.to).is_prefix_of(visited.deep_view()));
                            assert(visited.deep_view().take(
                                old(visited).deep_view().push(node@).len() as int,
                            ) =~~= old(visited).deep_view().push(node@));
                        }
                        assert(old(cycles).deep_view().is_prefix_of(cycles.deep_view())) by {
                            assert(cycles_mid.is_prefix_of(cycles.deep_view()));
                            assert(cycles.deep_view().take(old(cycles).deep_view().len() as int)
                                =~~= old(cycles).deep_view());
                        }
                        assert forall|i: int|
                            old(cycles).deep_view().len() <= i < cycles.deep_view().len()
                                implies spec_is_cycle(rels_dv, #[trigger] cycles.deep_view()[i])
                            && cycles.deep_view()[i].no_duplicates() by {
                            if i < cycles_mid.len() {
                                assert(cycles.deep_view().take(cycles_mid.len() as int)
                                    =~~= cycles_mid);
                                assert(cycles.deep_view()[i] == cycles_mid[i]);
                            }
                        }
                        // the path stays inside the grown visited list
                        assert forall|x: Seq<char>| #[trigger]
                            path.deep_view().contains(x) implies visited.deep_view().contains(
                            x,
                        ) by {
                            let jj = choose|jj: int|
                                0 <= jj < visited_mid.len() && visited_mid[jj] == x;
                            assert(visited.deep_view().take(visited_mid.len() as int)[jj]
                                == visited.deep_view()[jj]);
                            assert(visited.deep_view()[jj] == x);
                        }
                        // recorded-cycle witnesses survive the recursion
                        assert(cycles.deep_view().take(cycles_mid.len() as int) =~~= cycles_mid);
                        assert forall|i: int|
                            0 <= i < cycles_mid.len() implies i < cycles.deep_view().len()
                            && #[trigger] cycles.deep_view()[i] == cycles_mid[i] by {
                            assert(cycles.deep_view().take(cycles_mid.len() as int)[i]
                                == cycles.deep_view()[i]);
                        }
                        let ghost entry_lo = old(cycles).deep_view().len() as int;
                        assert forall|x: Seq<char>|
                            (#[trigger] visited.deep_view().contains(x)) && !old(
                                visited,
                            ).deep_view().contains(x) && x != node@ && spec_self_edge(rels_dv, x)
                                implies spec_cycle_at(cycles.deep_view(), entry_lo, x) by {
                            if visited_mid.contains(x) {
                                lemma_cycle_at_mono(
                                    cycles_mid,
                                    cycles.deep_view(),
                                    entry_lo,
                                    entry_lo,
                                    x,
                                );
                            } else {
                                assert(spec_cycle_at(
                                    cycles.deep_view(),
                                    cycles_mid.len() as int,
                                    x,
                                ));
                                lemma_cycle_at_mono(
                                    cycles.deep_view(),
                                    cycles.deep_view(),
                                    cycles_mid.len() as int,
                                    entry_lo,
                                    x,
                                );
                            }
                        }
                        if exists|kk: int|
                            0 <= kk < k && (#[trigger] rels_dv[kk]).from == node@ && rels_dv[kk].to
                                == node@ {
                            lemma_cycle_at_mono(
                                cycles_mid,
                                cycles.deep_view(),
                                entry_lo,
                                entry_lo,
                                node@,
                            );
                        }
                    }
                } else {
                    match position_str(path, &rel.to) {
                        Some(pos) => {
                            let ghost pd = path.deep_view();
                            let cyc = tail_strings(path, pos);
                            proof {
                                // the recorded sub-path is a cycle
                                let ghost c = pd.skip(pos as int);
                                assert(c.len() >= 1);
                                assert forall|i: int|
                                    0 <= i < c.len() - 1 implies spec_edge(
                                    rels_dv,
                                    #[trigger] c[i],
                                    c[i + 1],
                                ) by {
                                    assert(c[i] == pd[pos + i]);
                                    assert(c[i + 1] == pd[pos + i + 1]);
                                    assert(spec_edge(rels_dv, pd[pos + i], pd[pos + i + 1]));
                                }
                                assert(c.last() == pd.last());
                                assert(pd.last() == node@);
                                assert(c[0] == pd[pos as int]);
                                assert(spec_is_cycle(rels_dv, c));
                                assert forall|a: int, b: int|
                                    0 <= a < c.len() && 0 <= b < c.len() && a != b implies c[a]
                                    != c[b] by {
                                    assert(c[a] == pd[pos + a]);
                                    assert(c[b] == pd[pos + b]);
                                }
                                assert(c.no_duplicates());
                            }
                            let ghost cprev = cycles.deep_view();
                            cycles.push(cyc);
                            proof {
                                assert(cycles.deep_view() =~~= cprev.push(pd.skip(pos as int)));
                                assert forall|i: int|
                                    0 <= i < cprev.len() implies i < cycles.deep_view().len()
                                    && #[trigger] cycles.deep_view()[i] == cprev[i] by {}
                                let ghost entry_lo = old(cycles).deep_view().len() as int;
                                assert forall|x: Seq<char>|
                                    (#[trigger] visited.deep_view().contains(x)) && !old(
                                        visited,
                                    ).deep_view().contains(x) && x != node@ && spec_self_edge(
                                        rels_dv,
                                        x,
                                    ) implies spec_cycle_at(cycles.deep_view(), entry_lo, x) by {
                                    lemma_cycle_at_mono(
                                        cprev,
                                        cycles.deep_view(),
                                        entry_lo,
                                        entry_lo,
                                        x,
                                    );
                                }
                                if exists|kk: int|
                                    0 <= kk < k && (#[trigger] rels_dv[kk]).from == node@
                                        && rels_dv[kk].to == node@ {
                                    lemma_cycle_at_mono(
                                        cprev,
                                        cycles.deep_view(),
                                        entry_lo,
                                        entry_lo,
                                        node@,
                                    );
                                }
                                if rel@.to == node@ {
                                    // a self-edge records the one-node cycle at the path's end
                                    let ghost c = pd.skip(pos as int);
                                    assert(c[0] == rel@.to);
                                    assert(c.last() == node@);
                                    assert(cycles.deep_view()[cprev.len() as int] == c);
                                    assert(spec_cycle_at(
                                        cycles.deep_view(),
                                        old(cycles).deep_view().len() as int,
                                        node@,
                                    ));
                                }
                            }
                        },
                        None => {
                            proof {
                                if rel@.to == node@ {
                                    let ghost pd = path.deep_view();
                                    assert(pd[pd.len() - 1] == node@);
                                    assert(false);
                                }
                            }
                        },
                    }
                }
            }
            k = k + 1;
        }
        let ghost before_pop = path.deep_view();
        path.pop();
        proof {
            assert(path.deep_view() =~~= before_pop.drop_last());
            assert(before_pop.drop_last() =~~= old(path).deep_view());
        }
    }

    /// Cycle detection: a depth-first traversal from every not-yet-visited
    /// module, over all relationship edges regardless of kind, in module
    /// insertion order. Every returned sequence is a cycle of the
    /// relationship set (so its last and first nodes are connected by a
    /// recorded edge); every returned sequence is duplicate-free (a simple
    /// path closed by one back edge); on an acyclic relationship set the
    /// result is empty; and a module whose id carries an edge back to
    /// itself always has a cycle recorded at it.
    pub fn detect_cycles(&self) -> (r: Vec<Vec<String>>)
        ensures
            forall|i: int|
                0 <= i < r.deep_view().len() ==> spec_is_cycle(
                    self.relationships.deep_view(),
                    #[trigger] r.deep_view()[i],
                ) && r.deep_view()[i].no_duplicates(),
            spec_acyclic(self.relationships.deep_view()) ==> r@.len() == 0,
            forall|j: int|
                0 <= j < self.modules.deep_view().len() && spec_self_edge(
                    self.relationships.deep_view(),
                    (#[trigger] self.modules.deep_view()[j]).id,
                ) ==> spec_cycle_at(r.deep_view(), 0, self.modules.deep_view()[j].id),
    {
        let ghost ms_dv = self.modules.deep_view();
        let ghost rels_dv = self.relationships.deep_view();
        let ghost univ = spec_universe(ms_dv, rels_dv);
        let mut cycles: Vec<Vec<String>> = Vec::new();
        let mut visited: Vec<String> = Vec::new();
        let mut m: usize = 0;
        while m < self.modules.len()
            invariant
                m <= self.modules.len(),
                ms_dv == self.modules.deep_view(),
                rels_dv == self.relationships.deep_view(),
                univ == spec_universe(ms_dv, rels_dv),
                spec_nodes_ok(visited.deep_view(), univ),
                forall|i: int|
                    0 <= i < cycles.deep_view().len() ==> spec_is_cycle(
                        rels_dv,
                        #[trigger] cycles.deep_view()[i],
                    ) && cycles.deep_view()[i].no_duplicates(),
                forall|j: int|
                    0 <= j < m ==> visited.deep_view().contains((#[trigger] ms_dv[j]).id),
                forall|x: Seq<char>|
                    (#[trigger] visited.deep_view().contains(x)) && spec_self_edge(rels_dv, x)
                        ==> spec_cycle_at(cycles.deep_view(), 0, x),
            decreases self.modules.len() - m,
        {
            let id = &self.modules[m].id;
            if !contains_str(&visited, id) {
                let mut path: Vec<String> = Vec::new();
                proof {
                    assert(univ[m as int] == ms_dv[m as int].id);
                    assert(univ.contains(id@));
                    assert(path.deep_view().push(id@).len() == 1);
                }
                let ghost visited_mid = visited.deep_view();
                let ghost cycles_mid = cycles.deep_view();
                self.dfs_cycle(id, &mut visited, &mut path, &mut cycles);
                proof {
                    assert(cycles.deep_view().take(cycles_mid.len() as int) =~~= cycles_mid);
                    assert forall|i: int|
                        0 <= i < cycles_mid.len() implies i < cycles.deep_view().len()
                        && #[trigger] cycles.deep_view()[i] == cycles_mid[i] by {
                        assert(cycles.deep_view().take(cycles_mid.len() as int)[i]
                            == cycles.deep_view()[i]);
                    }
                    assert forall|i: int|
                        0 <= i < cycles.deep_view().len() implies spec_is_cycle(
                        rels_dv,
                        #[trigger] cycles.deep_view()[i],
                    ) && cycles.deep_view()[i].no_duplicates() by {
                        if i < cycles_mid.len() {
                            assert(cycles.deep_view()[i] == cycles_mid[i]);
                        }
                    }
                    // previously visited nodes stay visited
                    assert(visited.deep_view().take(visited_mid.len() as int) =~~= visited_mid);
                    assert forall|i: int|
                        0 <= i < visited_mid.len() implies i < visited.deep_view().len()
                        && #[trigger] visited.deep_view()[i] == visited_mid[i] by {
                        assert(visited.deep_view().take(visited_mid.len() as int)[i]
                            == visited.deep_view()[i]);
                    }
                    assert forall|x: Seq<char>|
                        visited_mid.contains(x) implies visited.deep_view().contains(x) by {
                        let i = choose|i: int|
                            0 <= i < visited_mid.len() && visited_mid[i] == x;
                        assert(visited.deep_view()[i] == x);
                    }
                    // this module's id was entered by the traversal
                    assert(visited.deep_view().take((visited_mid.len() + 1) as int)[visited_mid.len() as int]
                        == visited.deep_view()[visited_mid.len() as int]);
                    assert(visited.deep_view()[visited_mid.len() as int] == id@);
                    assert(visited.deep_view().contains(id@));
                    // recorded-at witnesses carry over, old and new alike
                    assert forall|x: Seq<char>|
                        (#[trigger] visited.deep_view().contains(x)) && spec_self_edge(rels_dv, x)
                            implies spec_cycle_at(cycles.deep_view(), 0, x) by {
                        if visited_mid.contains(x) {
                            lemma_cycle_at_mono(cycles_mid, cycles.deep_view(), 0, 0, x);
                        } else {
                            assert(spec_cycle_at(
                                cycles.deep_view(),
                                cycles_mid.len() as int,
                                x,
                            ));
                            lemma_cycle_at_mono(
                                cycles.deep_view(),
                                cycles.deep_view(),
                                cycles_mid.len() as int,
                                0,
                                x,
                            );
                        }
                    }
                }
            }
            m = m + 1;
        }
        proof {
            if cycles.deep_view().len() > 0 {
                assert(spec_is_cycle(rels_dv, cycles.deep_view()[0]));
            }
        }
        cycles
    }

    /// Per-module metrics in module order: line count as handed in by the
    /// caller, incoming and outgoing edge counts over both edge kinds, and
    /// the declared-item count as the complexity score.
    pub fn calculate_metrics(&self, loc: &Vec<usize>) -> (r: Vec<(String, ModuleMetrics)>)
        requires
            loc.len() == self.modules.len(),
        ensures
            r@.len() == self.modules@.len(),
            forall|i: int|
                0 <= i < r@.len() ==> (#[trigger] r@[i]).0@ == self.modules.deep_view()[i].id
                    && r@[i].1.lines_of_code == loc@[i] && r@[i].1.incoming_deps
                    == spec_count_incoming(
                    self.relationships.deep_view(),
                    self.modules.deep_view()[i].id,
                ) && r@[i].1.outgoing_deps == spec_count_outgoing(
                    self.relationships.deep_view(),
                    self.modules.deep_view()[i].id,
                ) && r@[i].1.complexity_score == self.modules.deep_view()[i].items.len(),
    {
        let mut r: Vec<(String, ModuleMetrics)> = Vec::new();
        let mut i: usize = 0;
        while i < self.modules.len()
            invariant
                i <= self.modules.len(),
                loc.len() == self.modules.len(),
                r@.len() == i,
                forall|j: int|
                    0 <= j < i ==> (#[trigger] r@[j]).0@ == self.modules.deep_view()[j].id
                        && r@[j].1.lines_of_code == loc@[j] && r@[j].1.incoming_deps
                        == spec_count_incoming(
                        self.relationships.deep_view(),
                        self.modules.deep_view()[j].id,
                    ) && r@[j].1.outgoing_deps == spec_count_outgoing(
                        self.relationships.deep_view(),
                        self.modules.deep_view()[j].id,
                    ) && r@[j].1.complexity_score == self.modules.deep_view()[j].items.len(),
            decreases self.modules.len() - i,
        {
            let id = self.modules[i].id.clone();
            let incoming = count_incoming_edges(&self.relationships, &id);
            let outgoing = count_outgoing_edges(&self.relationships, &id);
            let metrics = ModuleMetrics {
                lines_of_code: loc[i],
                incoming_deps: incoming,
                outgoing_deps: outgoing,
                complexity_score: self.modules[i].items.len(),
            };
            r.push((id, metrics));
            i = i + 1;
        }
        r
    }

    /// Unused-module detection: the names of the modules that no `Uses`
    /// edge targets and whose kind is neither Binary nor Library, in
    /// module order.
    pub fn find_unused_modules(&self) -> (r: Vec<String>)
        ensures
            r.deep_view() == spec_unused_names(
                self.modules.deep_view(),
                self.relationships.deep_view(),
            ),
    {
        let ghost ms_dv = self.modules.deep_view();
        let ghost rels_dv = self.relationships.deep_view();
        let mut r: Vec<String> = Vec::new();
        let mut i: usize = 0;
        while i < self.modules.len()
            invariant
                i <= self.modules.len(),
                ms_dv == self.modules.deep_view(),
                rels_dv == self.relationships.deep_view(),
                r.deep_view() == spec_unused_fold(ms_dv, rels_dv, i as int),
            decreases self.modules.len() - i,
        {
            let ghost prev = r.deep_view();
            let m = &self.modules[i];
            let is_used = any_uses_edge_to(&self.relationships, &m.id);
            let is_entry = m.module_type == ModuleType::Binary || m.module_type
                == ModuleType::Library;
            if !is_used && !is_entry {
                r.push(m.name.clone());
                proof {
                    assert(r.deep_view() =~~= prev + seq![ms_dv[i as int].name]);
                }
            } else {
                proof {
                    assert(r.deep_view() =~~= prev + Seq::<Seq<char>>::empty());
                }
            }
            i = i + 1;
        }
        r
    }

    /// Threshold-based problem classification over a finished set: the
    /// recorded cycles, the unused modules, and the modules strictly above
    /// the size or coupling thresholds, with their measured values in the
    /// reported labels. `loc` holds each module's line count, in module
    /// order.
    pub fn analyze_problems(&self, loc: &Vec<usize>) -> (r: ProjectProblems)
        requires
            loc.len() == self.modules.len(),
        ensures
            forall|i: int|
                0 <= i < r.cycles.deep_view().len() ==> spec_is_cycle(
                    self.relationships.deep_view(),
                    #[trigger] r.cycles.deep_view()[i],
                ) && r.cycles.deep_view()[i].no_duplicates(),
            spec_acyclic(self.relationships.deep_view()) ==> r.cycles@.len() == 0,
            forall|j: int|
                0 <= j < self.modules.deep_view().len() && spec_self_edge(
                    self.relationships.deep_view(),
                    (#[trigger] self.modules.deep_view()[j]).id,
                ) ==> spec_cycle_at(r.cycles.deep_view(), 0, self.modules.deep_view()[j].id),
            r.unused_modules.deep_view() == spec_unused_names(
                self.modules.deep_view(),
                self.relationships.deep_view(),
            ),
            r.large_modules.deep_view() == spec_large_fold(
                self.modules.deep_view(),
                loc@,
                self.modules@.len() as int,
            ),
            r.highly_coupled.deep_view() == spec_coupled_fold(
                self.modules.deep_view(),
                self.relationships.deep_view(),
                self.modules@.len() as int,
            ),
    {
        let ghost ms_dv = self.modules.deep_view();
        let ghost rels_dv = self.relationships.deep_view();
        let cycles = self.detect_cycles();
        let unused_modules = self.find_unused_modules();
        let open_paren = chars_of(" (");
        let lines_suffix = chars_of(" lines)");
        let deps_suffix = chars_of(" deps)");
        let mut large_modules: Vec<String> = Vec::new();
        let mut highly_coupled: Vec<String> = Vec::new();
        let mut i: usize = 0;
        while i < self.modules.len()
            invariant
                i <= self.modules.len(),
                loc.len() == self.modules.len(),
                ms_dv == self.modules.deep_view(),
                rels_dv == self.relationships.deep_view(),
                open_paren@ == " ("@,
                lines_suffix@ == " lines)"@,
                deps_suffix@ == " deps)"@,
                large_modules.deep_view() == spec_large_fold(ms_dv, loc@, i as int),
                highly_coupled.deep_view() == spec_coupled_fold(ms_dv, rels_dv, i as int),
            decreases self.modules.len() - i,
        {
            let ghost lprev = large_modules.deep_view();
            let ghost cprev = highly_coupled.deep_view();
            let m = &self.modules[i];
            if loc[i] > LARGE_MODULE_LINES {
                let mut label = chars_of(m.name.as_str());
                append_all(&mut label, &open_paren);
                push_decimal(loc[i], &mut label);
                append_all(&mut label, &lines_suffix);
                proof {
                    assert(label@ =~= spec_large_label(ms_dv[i as int].name, loc@[i as int]));
                }
                large_modules.push(string_from_chars(&label));
                proof {
                    assert(large_modules.deep_view() =~~= lprev + seq![
                        spec_large_label(ms_dv[i as int].name, loc@[i as int]),
                    ]);
                }
            } else {
                proof {
                    assert(large_modules.deep_view() =~~= lprev + Seq::<Seq<char>>::empty());
                }
            }
            let incoming = count_incoming_edges(&self.relationships, &m.id);
            if incoming > HIGH_COUPLING_EDGES {
                let mut label = chars_of(m.name.as_str());
                append_all(&mut label, &open_paren);
                push_decimal(incoming, &mut label);
                append_all(&mut label, &deps_suffix);
                proof {
                    assert(label@ =~= spec_coupled_label(
                        ms_dv[i as int].name,
                        spec_count_incoming(rels_dv, ms_dv[i as int].id) as usize,
                    ));
                }
                highly_coupled.push(string_from_chars(&label));
                proof {
                    assert(highly_coupled.deep_view() =~~= cprev + seq![
                        spec_coupled_label(
                            ms_dv[i as int].name,
                            spec_count_incoming(rels_dv, ms_dv[i as int].id) as usize,
                        ),
                    ]);
                }
            } else {
                proof {
                    assert(highly_coupled.deep_view() =~~= cprev + Seq::<Seq<char>>::empty());
                }
            }
            i = i + 1;
        }
        ProjectProblems { cycles, unused_modules, large_modules, highly_coupled }
    }
}

} // verus!
