//! The mathematical model of graph construction: the node sequence, the
//! version index, the identifier map, and the edge sequence that one
//! snapshot determines. The executable builder is proved to produce
//! exactly these values, and the laws of the library are stated over them.

use vstd::prelude::*;
use crate::records::{PackageInfoView, VersionInfoView, NodeView, id_of};
use crate::ranges::{range_ok, version_ok, range_matches};
use crate::index::spec_lookup;

verus! {

/// The version strings published for one package, in record order.
pub open spec fn version_names(p: PackageInfoView) -> Seq<Seq<char>> {
    Seq::new(p.versions.len(), |i: int| p.versions[i].0)
}

/// The version index of a snapshot: every record inserts its name with its
/// full version list, a later record with the same name replacing an
/// earlier one.
pub open spec fn spec_index(ps: Seq<PackageInfoView>) -> Map<Seq<char>, Seq<Seq<char>>>
    decreases ps.len(),
{
    if ps.len() == 0 {
        Map::empty()
    } else {
        spec_index(ps.drop_last()).insert(ps.last().name, version_names(ps.last()))
    }
}

/// The nodes one package contributes: one per published version, in order.
pub open spec fn nodes_of(p: PackageInfoView) -> Seq<NodeView> {
    Seq::new(
        p.versions.len(),
        |i: int| NodeView {
            name: p.name,
            version: p.versions[i].0,
            timestamp: p.versions[i].1.timestamp,
        },
    )
}

/// The node sequence of a snapshot: every package's nodes, in input order.
pub open spec fn spec_nodes(ps: Seq<PackageInfoView>) -> Seq<NodeView>
    decreases ps.len(),
{
    if ps.len() == 0 {
        Seq::empty()
    } else {
        spec_nodes(ps.drop_last()) + nodes_of(ps.last())
    }
}

/// The identifier map of a node sequence: each node registered under its
/// canonical identifier, a later node with the same identifier replacing
/// an earlier one.
pub open spec fn spec_id_map(nodes: Seq<NodeView>) -> Map<Seq<char>, int>
    decreases nodes.len(),
{
    if nodes.len() == 0 {
        Map::empty()
    } else {
        spec_id_map(nodes.drop_last()).insert(nodes.last().id(), nodes.len() - 1)
    }
}

/// The edges one candidate version string contributes: one edge when the
/// range and the candidate parse, the candidate satisfies the range, both
/// identifiers resolve, and they do not resolve to the same node — a
/// dependent never gains an edge to itself; no edge otherwise.
pub open spec fn edge_for_candidate(
    m: Map<Seq<char>, int>,
    dep_id: Seq<char>,
    dname: Seq<char>,
    r: Seq<char>,
    w: Seq<char>,
) -> Seq<(int, int)> {
    if range_ok(r) && version_ok(w) && range_matches(r, w) && m.contains_key(dep_id)
        && m.contains_key(id_of(dname, w)) && m[dep_id] != m[id_of(dname, w)] {
        seq![(m[dep_id], m[id_of(dname, w)])]
    } else {
        Seq::empty()
    }
}

/// The edges one dependency declaration contributes, over its candidates
/// in index order.
pub open spec fn edges_for_candidates(
    m: Map<Seq<char>, int>,
    dep_id: Seq<char>,
    dname: Seq<char>,
    r: Seq<char>,
    cands: Seq<Seq<char>>,
) -> Seq<(int, int)>
    decreases cands.len(),
{
    if cands.len() == 0 {
        Seq::empty()
    } else {
        edges_for_candidates(m, dep_id, dname, r, cands.drop_last())
            + edge_for_candidate(m, dep_id, dname, r, cands.last())
    }
}

/// The edges one version record contributes, over its declarations in
/// order; each declaration's candidates come from the index.
pub open spec fn edges_for_deps(
    m: Map<Seq<char>, int>,
    idx: Map<Seq<char>, Seq<Seq<char>>>,
    dep_id: Seq<char>,
    deps: Seq<(Seq<char>, Seq<char>)>,
) -> Seq<(int, int)>
    decreases deps.len(),
{
    if deps.len() == 0 {
        Seq::empty()
    } else {
        edges_for_deps(m, idx, dep_id, deps.drop_last()) + edges_for_candidates(
            m,
            dep_id,
            deps.last().0,
            deps.last().1,
            spec_lookup(idx, deps.last().0),
        )
    }
}

/// The edges one package contributes, over its versions in order.
pub open spec fn edges_for_versions(
    m: Map<Seq<char>, int>,
    idx: Map<Seq<char>, Seq<Seq<char>>>,
    name: Seq<char>,
    versions: Seq<(Seq<char>, VersionInfoView)>,
) -> Seq<(int, int)>
    decreases versions.len(),
{
    if versions.len() == 0 {
        Seq::empty()
    } else {
        edges_for_versions(m, idx, name, versions.drop_last()) + edges_for_deps(
            m,
            idx,
            id_of(name, versions.last().0),
            versions.last().1.dependencies,
        )
    }
}

/// The edge sequence of a snapshot against a given identifier map and
/// version index.
pub open spec fn spec_edges_with(
    m: Map<Seq<char>, int>,
    idx: Map<Seq<char>, Seq<Seq<char>>>,
    ps: Seq<PackageInfoView>,
) -> Seq<(int, int)>
    decreases ps.len(),
{
    if ps.len() == 0 {
        Seq::empty()
    } else {
        spec_edges_with(m, idx, ps.drop_last()) + edges_for_versions(
            m,
            idx,
            ps.last().name,
            ps.last().versions,
        )
    }
}

/// The edge sequence of a snapshot: built against the identifier map of
/// its own nodes and its own version index, both completed before any
/// edge is considered.
pub open spec fn spec_edges(ps: Seq<PackageInfoView>) -> Seq<(int, int)> {
    spec_edges_with(spec_id_map(spec_nodes(ps)), spec_index(ps), ps)
}

/// An executable edge list, read as the mathematical pairs it denotes.
pub open spec fn edges_as_int(s: Seq<(usize, usize)>) -> Seq<(int, int)> {
    Seq::new(s.len(), |i: int| (s[i].0 as int, s[i].1 as int))
}

/// A declaration whose range expression does not parse contributes no
/// edge, whatever its candidates: the whole declaration is skipped.
pub proof fn lemma_bad_range_no_edges(
    m: Map<Seq<char>, int>,
    dep_id: Seq<char>,
    dname: Seq<char>,
    r: Seq<char>,
    cands: Seq<Seq<char>>,
)
    requires
        !range_ok(r),
    ensures
        edges_for_candidates(m, dep_id, dname, r, cands) == Seq::<(int, int)>::empty(),
    decreases cands.len(),
{
    if cands.len() == 0 {
    } else {
        lemma_bad_range_no_edges(m, dep_id, dname, r, cands.drop_last());
        assert(edges_for_candidates(m, dep_id, dname, r, cands) =~= Seq::<(int, int)>::empty());
    }
}

/// The number of (package, version) pairs in a snapshot.
pub open spec fn total_versions(ps: Seq<PackageInfoView>) -> int
    decreases ps.len(),
{
    if ps.len() == 0 {
        0
    } else {
        total_versions(ps.drop_last()) + ps.last().versions.len()
    }
}

} // verus!
