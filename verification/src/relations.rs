//! The relationship builder: raw import targets become `Uses` edges, and
//! the module-path hierarchy yields `Declares` edges (parent to child, only
//! when the parent is itself a parsed module).

use vstd::prelude::*;

use crate::models::{Module, ModuleV, Relationship, RelationshipV, RelationType};
use crate::text::{
    chars_of, eq_seq, join_seq, lemma_find_props, lemma_replace_no_occurrence, replace_seq,
    spec_contains, spec_find, spec_join, spec_replace, spec_split, spec_starts_with, split_seq,
    string_from_chars,
};

verus! {

/// The `Uses` edge recorded for one raw import target: its target id is
/// formed by replacing the language's path separator with the canonical id
/// delimiter (a character neither convention's module-path segments can
/// hold).
pub open spec fn spec_use_edge(from: Seq<char>, u: Seq<char>, sep: Seq<char>) -> RelationshipV {
    RelationshipV { from: from, to: spec_replace(u, sep, "-"@), rel_type: RelationType::Uses }
}

/// The `Uses` edges of the first `i` raw import targets, in order.
pub open spec fn spec_uses_fold(from: Seq<char>, uses: Seq<Seq<char>>, i: int, sep: Seq<char>) -> Seq<
    RelationshipV,
>
    decreases i,
{
    if i <= 0 {
        Seq::empty()
    } else {
        spec_uses_fold(from, uses, i - 1, sep).push(spec_use_edge(from, uses[i - 1], sep))
    }
}

/// The `Uses` edges recorded for one module: one edge per raw import
/// target, in order.
pub open spec fn spec_uses_edges(from: Seq<char>, uses: Seq<Seq<char>>, sep: Seq<char>) -> Seq<
    RelationshipV,
> {
    spec_uses_fold(from, uses, uses.len() as int, sep)
}

/// Builds the `Uses` edges for the module with id `from`.
pub fn uses_edges(from: &String, uses: &Vec<String>, sep: &Vec<char>) -> (r: Vec<Relationship>)
    requires
        sep.len() >= 1,
    ensures
        r.deep_view() == spec_uses_edges(from@, uses.deep_view(), sep@),
{
    let dash = chars_of("-");
    let mut r: Vec<Relationship> = Vec::new();
    let mut i: usize = 0;
    while i < uses.len()
        invariant
            i <= uses.len(),
            r.len() == i,
            sep.len() >= 1,
            dash@ == "-"@,
            r.deep_view() == spec_uses_fold(from@, uses.deep_view(), i as int, sep@),
        decreases uses.len() - i,
    {
        let ghost prev = r.deep_view();
        let u = chars_of(uses[i].as_str());
        let to = replace_seq(&u, sep, &dash);
        r.push(
            Relationship {
                from: from.clone(),
                to: string_from_chars(&to),
                rel_type: RelationType::Uses,
            },
        );
        proof {
            let ghost udv = uses.deep_view();
            assert(u@ == udv[i as int]);
            assert(r.deep_view()[i as int] =~~= spec_use_edge(from@, udv[i as int], sep@));
            assert(r.deep_view() =~~= prev.push(spec_use_edge(from@, udv[i as int], sep@)));
        }
        i = i + 1;
    }
    r
}

/// Canonical id of the parent of a module path: all segments but the last,
/// joined with the separator, the separator then replaced by the canonical
/// delimiter.
pub open spec fn spec_parent_id(name: Seq<char>, sep: Seq<char>) -> Seq<char> {
    spec_replace(spec_join(spec_split(name, sep).drop_last(), sep), sep, "-"@)
}

/// Whether some module of `ms` has the id `id`.
pub open spec fn spec_has_module_id(ms: Seq<ModuleV>, id: Seq<char>) -> bool {
    exists|k: int| 0 <= k < ms.len() && ms[k].id == id
}

/// The module ids are pairwise distinct: each module is identified by its
/// id, so two files may never collapse to one.
pub open spec fn spec_ids_unique(ms: Seq<ModuleV>) -> bool {
    forall|i: int, j: int| #![trigger ms[i].id, ms[j].id]
        0 <= i < j < ms.len() ==> ms[i].id != ms[j].id
}

/// Appending a module whose id is fresh keeps the ids pairwise distinct.
pub proof fn lemma_ids_unique_push(ms: Seq<ModuleV>, m: ModuleV)
    requires
        spec_ids_unique(ms),
        !spec_has_module_id(ms, m.id),
    ensures
        spec_ids_unique(ms.push(m)),
{
    let t = ms.push(m);
    assert forall|i: int, j: int| #![trigger t[i].id, t[j].id]
        0 <= i < j < t.len() implies t[i].id != t[j].id by {
        if j == ms.len() {
            if ms[i].id == m.id {
                assert(spec_has_module_id(ms, m.id));
            }
        }
    }
}

/// The `Declares` edge contributed by one module: present only when its
/// logical path has more than one segment and its parent id belongs to a
/// parsed module.
pub open spec fn spec_declares_for(all: Seq<ModuleV>, m: ModuleV, sep: Seq<char>) -> Seq<
    RelationshipV,
> {
    if spec_split(m.name, sep).len() > 1 && spec_has_module_id(all, spec_parent_id(m.name, sep)) {
        seq![
            RelationshipV {
                from: spec_parent_id(m.name, sep),
                to: m.id,
                rel_type: RelationType::Declares,
            },
        ]
    } else {
        Seq::empty()
    }
}

/// The `Declares` edges of the first `i` modules, in module order.
pub open spec fn spec_declares_fold(all: Seq<ModuleV>, i: int, sep: Seq<char>) -> Seq<RelationshipV>
    decreases i,
{
    if i <= 0 {
        Seq::empty()
    } else {
        spec_declares_fold(all, i - 1, sep) + spec_declares_for(all, all[i - 1], sep)
    }
}

/// All `Declares` edges derived from the module-path hierarchy.
pub open spec fn spec_declares_edges(all: Seq<ModuleV>, sep: Seq<char>) -> Seq<RelationshipV> {
    spec_declares_fold(all, all.len() as int, sep)
}

/// Whether some module of `modules` has the id written in `id`.
pub fn has_module_id(modules: &Vec<Module>, id: &Vec<char>) -> (r: bool)
    ensures
        r == spec_has_module_id(modules.deep_view(), id@),
{
    let mut k: usize = 0;
    while k < modules.len()
        invariant
            k <= modules.len(),
            forall|j: int| 0 <= j < k ==> modules.deep_view()[j].id != id@,
        decreases modules.len() - k,
    {
        let mid = chars_of(modules[k].id.as_str());
        if eq_seq(&mid, id) {
            proof {
                assert(modules.deep_view()[k as int].id == id@);
            }
            return true;
        }
        k = k + 1;
    }
    proof {
        if spec_has_module_id(modules.deep_view(), id@) {
            let j = choose|j: int|
                0 <= j < modules.deep_view().len() && modules.deep_view()[j].id == id@;
            assert(modules.deep_view()[j].id != id@);
        }
    }
    false
}

/// Derives the `Declares` edges from the module-path hierarchy: for every
/// module whose logical path has more than one segment, an edge from its
/// parent's id to its own id, provided the parent is a parsed module.
pub fn declares_edges(modules: &Vec<Module>, sep: &Vec<char>) -> (r: Vec<Relationship>)
    requires
        sep.len() >= 1,
    ensures
        r.deep_view() == spec_declares_edges(modules.deep_view(), sep@),
{
    let dash = chars_of("-");
    let mut r: Vec<Relationship> = Vec::new();
    let mut i: usize = 0;
    while i < modules.len()
        invariant
            i <= modules.len(),
            sep.len() >= 1,
            dash@ == "-"@,
            r.deep_view() == spec_declares_fold(modules.deep_view(), i as int, sep@),
        decreases modules.len() - i,
    {
        let ghost dv = modules.deep_view();
        let ghost prev = r.deep_view();
        let name = chars_of(modules[i].name.as_str());
        let mut parts = split_seq(&name, sep);
        if parts.len() > 1 {
            parts.pop();
            proof {
                assert(parts.deep_view() =~~= spec_split(dv[i as int].name, sep@).drop_last());
            }
            let parent_name = join_seq(&parts, sep);
            let parent_id = replace_seq(&parent_name, sep, &dash);
            proof {
                assert(parent_id@ == spec_parent_id(dv[i as int].name, sep@));
            }
            if has_module_id(modules, &parent_id) {
                r.push(
                    Relationship {
                        from: string_from_chars(&parent_id),
                        to: modules[i].id.clone(),
                        rel_type: RelationType::Declares,
                    },
                );
                proof {
                    assert(r.deep_view() =~~= prev + spec_declares_for(dv, dv[i as int], sep@));
                }
            } else {
                proof {
                    assert(r.deep_view() =~~= prev + spec_declares_for(dv, dv[i as int], sep@));
                }
            }
        } else {
            proof {
                assert(r.deep_view() =~~= prev + spec_declares_for(dv, dv[i as int], sep@));
            }
        }
        i = i + 1;
    }
    r
}


// === normalization round-trip laws ===

/// No two adjacent colons anywhere in the sequence.
pub open spec fn no_adjacent_colons(r: Seq<char>) -> bool {
    forall|i: int| #![trigger r[i]] 0 <= i && i + 1 < r.len() ==> !(r[i] == ':' && r[i + 1] == ':')
}

proof fn lemma_dcolon_replace_no_adjacent(s: Seq<char>)
    ensures
        no_adjacent_colons(spec_replace(s, "::"@, "-"@)),
    decreases s.len(),
{
    reveal_strlit("::");
    reveal_strlit("-");
    let pat = "::"@;
    let rep = "-"@;
    let r = spec_replace(s, pat, rep);
    if s.len() < 2 {
    } else if spec_starts_with(s, pat) {
        lemma_dcolon_replace_no_adjacent(s.skip(2));
        let rr = spec_replace(s.skip(2), pat, rep);
        assert(r == rep + rr);
        assert forall|i: int| #![trigger r[i]]
            0 <= i && i + 1 < r.len() implies !(r[i] == ':' && r[i + 1] == ':') by {
            if i == 0 {
                assert(r[0] == '-');
            } else {
                assert(r[i] == rr[i - 1]);
                assert(r[i + 1] == rr[i]);
                assert(!(rr[i - 1] == ':' && rr[i] == ':'));
            }
        }
    } else {
        lemma_dcolon_replace_no_adjacent(s.skip(1));
        let rr = spec_replace(s.skip(1), pat, rep);
        assert(r == seq![s[0]] + rr);
        assert forall|i: int| #![trigger r[i]]
            0 <= i && i + 1 < r.len() implies !(r[i] == ':' && r[i + 1] == ':') by {
            if i == 0 {
                if r[0] == ':' && r[1] == ':' {
                    let tail = s.skip(1);
                    assert(rr.len() >= 1);
                    if tail.len() < 2 {
                        assert(rr == tail);
                        assert(s[1] == tail[0]);
                        assert(s.take(2) =~= pat);
                        assert(false);
                    } else if spec_starts_with(tail, pat) {
                        assert(rr[0] == '_');
                        assert(false);
                    } else {
                        assert(rr[0] == tail[0]);
                        assert(s[1] == tail[0]);
                        assert(s.take(2) =~= pat);
                        assert(false);
                    }
                }
            } else {
                assert(r[i] == rr[i - 1]);
                assert(r[i + 1] == rr[i]);
                assert(!(rr[i - 1] == ':' && rr[i] == ':'));
            }
        }
    }
}

proof fn lemma_dcolon_replace_sep_free(s: Seq<char>)
    ensures
        !spec_contains(spec_replace(s, "::"@, "-"@), "::"@),
{
    reveal_strlit("::");
    let r = spec_replace(s, "::"@, "-"@);
    lemma_dcolon_replace_no_adjacent(s);
    if spec_contains(r, "::"@) {
        lemma_find_props(r, "::"@);
        match spec_find(r, "::"@) {
            Some(i) => {
                assert(r.subrange(i, i + 2) == "::"@);
                assert(r[i] == r.subrange(i, i + 2)[0]);
                assert(r[i + 1] == r.subrange(i, i + 2)[1]);
                assert(false);
            },
            None => {},
        }
    }
}

/// Normalizing a `Uses`-edge target of the structured family is
/// idempotent: its canonical form is reached in one application, so
/// feeding an already-canonical id through the normalization again is a
/// no-op (round-trip law).
pub proof fn lemma_rust_edge_normalization_idempotent(u: Seq<char>)
    ensures
        spec_replace(spec_replace(u, "::"@, "-"@), "::"@, "-"@) == spec_replace(u, "::"@, "-"@),
{
    lemma_dcolon_replace_sep_free(u);
    lemma_replace_no_occurrence(spec_replace(u, "::"@, "-"@), "::"@, "-"@);
}

/// No dot anywhere in the sequence.
pub open spec fn no_dots(r: Seq<char>) -> bool {
    forall|i: int| 0 <= i < r.len() ==> (#[trigger] r[i]) != '.'
}

proof fn lemma_dot_replace_dot_free(s: Seq<char>)
    ensures
        no_dots(spec_replace(s, "."@, "-"@)),
    decreases s.len(),
{
    reveal_strlit(".");
    reveal_strlit("-");
    let pat = "."@;
    let rep = "-"@;
    let r = spec_replace(s, pat, rep);
    if s.len() < 1 {
    } else if spec_starts_with(s, pat) {
        lemma_dot_replace_dot_free(s.skip(1));
        let rr = spec_replace(s.skip(1), pat, rep);
        assert(r == rep + rr);
        assert forall|i: int| 0 <= i < r.len() implies (#[trigger] r[i]) != '.' by {
            if i == 0 {
                assert(r[0] == '-');
            } else {
                assert(r[i] == rr[i - 1]);
            }
        }
    } else {
        lemma_dot_replace_dot_free(s.skip(1));
        let rr = spec_replace(s.skip(1), pat, rep);
        assert(r == seq![s[0]] + rr);
        assert forall|i: int| 0 <= i < r.len() implies (#[trigger] r[i]) != '.' by {
            if i == 0 {
                if s[0] == '.' {
                    assert(s.take(1) =~= pat);
                    assert(false);
                }
            } else {
                assert(r[i] == rr[i - 1]);
            }
        }
    }
}

/// Normalizing a `Uses`-edge target of the heuristic family is
/// idempotent: its canonical form is reached in one application, so
/// feeding an already-canonical id through the normalization again is a
/// no-op (round-trip law).
pub proof fn lemma_python_edge_normalization_idempotent(u: Seq<char>)
    ensures
        spec_replace(spec_replace(u, "."@, "-"@), "."@, "-"@) == spec_replace(u, "."@, "-"@),
{
    reveal_strlit(".");
    lemma_dot_replace_dot_free(u);
    let r = spec_replace(u, "."@, "-"@);
    if spec_contains(r, "."@) {
        lemma_find_props(r, "."@);
        match spec_find(r, "."@) {
            Some(i) => {
                assert(r.subrange(i, i + 1) == "."@);
                assert(r[i] == r.subrange(i, i + 1)[0]);
                assert(false);
            },
            None => {},
        }
    }
    lemma_replace_no_occurrence(r, "."@, "-"@);
}

} // verus!
