//! Proved laws of graph construction, stated over the model in `model`:
//! the node count, the absence of dangling edges, edge existence for
//! well-formed snapshots, independence from the input's record order,
//! and idempotence. The skip policy for malformed ranges is proved in
//! `model` itself, where the builder relies on it.

use vstd::prelude::*;
use crate::records::{PackageInfoView, NodeView};
use crate::model::{
    spec_index, spec_nodes, spec_id_map, nodes_of, edge_for_candidate, edges_for_candidates, edges_for_deps,
    edges_for_versions, spec_edges_with, spec_edges, total_versions,
};
use crate::index::spec_lookup;
use crate::ranges::{range_ok, version_ok, range_matches};

verus! {

/// The node count of a snapshot is the sum, over all packages, of the
/// number of versions of that package.
pub proof fn lemma_node_count(ps: Seq<PackageInfoView>)
    ensures
        spec_nodes(ps).len() == total_versions(ps),
    decreases ps.len(),
{
    if ps.len() == 0 {
    } else {
        lemma_node_count(ps.drop_last());
    }
}

/// Every value of the identifier map is the position of a node: at least
/// zero and below the node count.
pub proof fn lemma_id_map_values(nodes: Seq<NodeView>)
    ensures
        forall|k: Seq<char>| #[trigger]
            spec_id_map(nodes).contains_key(k) ==> 0 <= spec_id_map(nodes)[k] < nodes.len(),
    decreases nodes.len(),
{
    if nodes.len() == 0 {
    } else {
        lemma_id_map_values(nodes.drop_last());
        assert forall|k: Seq<char>| #[trigger]
            spec_id_map(nodes).contains_key(k) implies 0 <= spec_id_map(nodes)[k]
            < nodes.len() by {
            if k != nodes.last().id() {
                assert(spec_id_map(nodes.drop_last()).contains_key(k));
            }
        }
    }
}

/// All endpoint positions in an edge sequence lie below `n`.
pub open spec fn edges_in_range(es: Seq<(int, int)>, n: int) -> bool {
    forall|i: int| 0 <= i < es.len() ==> 0 <= #[trigger] es[i].0 < n && 0 <= es[i].1 < n
}

/// Whether every value of an identifier map lies below `n`.
pub open spec fn map_values_below(m: Map<Seq<char>, int>, n: int) -> bool {
    forall|k: Seq<char>| #[trigger] m.contains_key(k) ==> 0 <= m[k] < n
}

proof fn lemma_candidates_range(
    m: Map<Seq<char>, int>,
    dep_id: Seq<char>,
    dname: Seq<char>,
    r: Seq<char>,
    cands: Seq<Seq<char>>,
    n: int,
)
    requires
        map_values_below(m, n),
    ensures
        edges_in_range(edges_for_candidates(m, dep_id, dname, r, cands), n),
    decreases cands.len(),
{
    if cands.len() == 0 {
    } else {
        lemma_candidates_range(m, dep_id, dname, r, cands.drop_last(), n);
        let a = edges_for_candidates(m, dep_id, dname, r, cands.drop_last());
        let es = edges_for_candidates(m, dep_id, dname, r, cands);
        assert forall|i: int| 0 <= i < es.len() implies 0 <= #[trigger] es[i].0 < n && 0 <= es[i].1
            < n by {
            if i < a.len() {
                assert(es[i] == a[i]);
            }
        }
    }
}

proof fn lemma_deps_range(
    m: Map<Seq<char>, int>,
    idx: Map<Seq<char>, Seq<Seq<char>>>,
    dep_id: Seq<char>,
    deps: Seq<(Seq<char>, Seq<char>)>,
    n: int,
)
    requires
        map_values_below(m, n),
    ensures
        edges_in_range(edges_for_deps(m, idx, dep_id, deps), n),
    decreases deps.len(),
{
    if deps.len() == 0 {
    } else {
        lemma_deps_range(m, idx, dep_id, deps.drop_last(), n);
        lemma_candidates_range(
            m,
            dep_id,
            deps.last().0,
            deps.last().1,
            spec_lookup(idx, deps.last().0),
            n,
        );
        let a = edges_for_deps(m, idx, dep_id, deps.drop_last());
        let b = edges_for_candidates(
            m,
            dep_id,
            deps.last().0,
            deps.last().1,
            spec_lookup(idx, deps.last().0),
        );
        let es = edges_for_deps(m, idx, dep_id, deps);
        assert forall|i: int| 0 <= i < es.len() implies 0 <= #[trigger] es[i].0 < n && 0 <= es[i].1
            < n by {
            if i < a.len() {
                assert(es[i] == a[i]);
            } else {
                assert(es[i] == b[i - a.len()]);
            }
        }
    }
}

proof fn lemma_versions_range(
    m: Map<Seq<char>, int>,
    idx: Map<Seq<char>, Seq<Seq<char>>>,
    name: Seq<char>,
    versions: Seq<(Seq<char>, crate::records::VersionInfoView)>,
    n: int,
)
    requires
        map_values_below(m, n),
    ensures
        edges_in_range(edges_for_versions(m, idx, name, versions), n),
    decreases versions.len(),
{
    if versions.len() == 0 {
    } else {
        lemma_versions_range(m, idx, name, versions.drop_last(), n);
        lemma_deps_range(
            m,
            idx,
            crate::records::id_of(name, versions.last().0),
            versions.last().1.dependencies,
            n,
        );
    }
}

proof fn lemma_edges_with_range(
    m: Map<Seq<char>, int>,
    idx: Map<Seq<char>, Seq<Seq<char>>>,
    ps: Seq<PackageInfoView>,
    n: int,
)
    requires
        map_values_below(m, n),
    ensures
        edges_in_range(spec_edges_with(m, idx, ps), n),
    decreases ps.len(),
{
    if ps.len() == 0 {
    } else {
        lemma_edges_with_range(m, idx, ps.drop_last(), n);
        lemma_versions_range(m, idx, ps.last().name, ps.last().versions, n);
    }
}

/// No dangling edges: both endpoints of every edge of a snapshot's edge
/// sequence are positions of nodes in its node sequence.
pub proof fn lemma_no_dangling_edges(ps: Seq<PackageInfoView>)
    ensures
        edges_in_range(spec_edges(ps), spec_nodes(ps).len() as int),
{
    lemma_id_map_values(spec_nodes(ps));
    lemma_edges_with_range(
        spec_id_map(spec_nodes(ps)),
        spec_index(ps),
        ps,
        spec_nodes(ps).len() as int,
    );
}

proof fn lemma_candidates_mem(
    m: Map<Seq<char>, int>,
    dep_id: Seq<char>,
    dname: Seq<char>,
    r: Seq<char>,
    cands: Seq<Seq<char>>,
    x: (int, int),
)
    ensures
        edges_for_candidates(m, dep_id, dname, r, cands).contains(x) <==> exists|c: int|
            0 <= c < cands.len() && (#[trigger] edge_for_candidate(
                m,
                dep_id,
                dname,
                r,
                cands[c],
            )).contains(x),
    decreases cands.len(),
{
    if cands.len() == 0 {
    } else {
        lemma_candidates_mem(m, dep_id, dname, r, cands.drop_last(), x);
        let a = edges_for_candidates(m, dep_id, dname, r, cands.drop_last());
        let b = edge_for_candidate(m, dep_id, dname, r, cands.last());
        let es = edges_for_candidates(m, dep_id, dname, r, cands);
        assert(es == a + b);
        if es.contains(x) {
            let i = choose|i: int| 0 <= i < es.len() && es[i] == x;
            if i < a.len() {
                assert(a[i] == x);
                assert(a.contains(x));
                let c = choose|c: int|
                    0 <= c < cands.drop_last().len() && (#[trigger] edge_for_candidate(
                        m,
                        dep_id,
                        dname,
                        r,
                        cands.drop_last()[c],
                    )).contains(x);
                assert(cands.drop_last()[c] == cands[c]);
            } else {
                assert(b[i - a.len()] == x);
                assert(b.contains(x));
                assert(cands[cands.len() - 1] == cands.last());
            }
        }
        if exists|c: int|
            0 <= c < cands.len() && (#[trigger] edge_for_candidate(
                m,
                dep_id,
                dname,
                r,
                cands[c],
            )).contains(x) {
            let c = choose|c: int|
                0 <= c < cands.len() && (#[trigger] edge_for_candidate(
                    m,
                    dep_id,
                    dname,
                    r,
                    cands[c],
                )).contains(x);
            if c < cands.len() - 1 {
                assert(cands.drop_last()[c] == cands[c]);
                assert(a.contains(x));
                let j = choose|j: int| 0 <= j < a.len() && a[j] == x;
                assert(es[j] == x);
            } else {
                assert(cands[c] == cands.last());
                let j = choose|j: int| 0 <= j < b.len() && b[j] == x;
                assert(es[a.len() + j] == x);
            }
            assert(es.contains(x));
        }
    }
}

proof fn lemma_deps_mem(
    m: Map<Seq<char>, int>,
    ix: Map<Seq<char>, Seq<Seq<char>>>,
    dep_id: Seq<char>,
    deps: Seq<(Seq<char>, Seq<char>)>,
    x: (int, int),
)
    ensures
        edges_for_deps(m, ix, dep_id, deps).contains(x) <==> exists|q: int|
            0 <= q < deps.len() && (#[trigger] edges_for_candidates(
                m,
                dep_id,
                deps[q].0,
                deps[q].1,
                spec_lookup(ix, deps[q].0),
            )).contains(x),
    decreases deps.len(),
{
    if deps.len() == 0 {
    } else {
        lemma_deps_mem(m, ix, dep_id, deps.drop_last(), x);
        let a = edges_for_deps(m, ix, dep_id, deps.drop_last());
        let b = edges_for_candidates(
            m,
            dep_id,
            deps.last().0,
            deps.last().1,
            spec_lookup(ix, deps.last().0),
        );
        let es = edges_for_deps(m, ix, dep_id, deps);
        assert(es == a + b);
        if es.contains(x) {
            let i = choose|i: int| 0 <= i < es.len() && es[i] == x;
            if i < a.len() {
                assert(a[i] == x);
                assert(a.contains(x));
                let q = choose|q: int|
                    0 <= q < deps.drop_last().len() && (#[trigger] edges_for_candidates(
                        m,
                        dep_id,
                        deps.drop_last()[q].0,
                        deps.drop_last()[q].1,
                        spec_lookup(ix, deps.drop_last()[q].0),
                    )).contains(x);
                assert(deps.drop_last()[q] == deps[q]);
            } else {
                assert(b[i - a.len()] == x);
                assert(b.contains(x));
                assert(deps[deps.len() - 1] == deps.last());
            }
        }
        if exists|q: int|
            0 <= q < deps.len() && (#[trigger] edges_for_candidates(
                m,
                dep_id,
                deps[q].0,
                deps[q].1,
                spec_lookup(ix, deps[q].0),
            )).contains(x) {
            let q = choose|q: int|
                0 <= q < deps.len() && (#[trigger] edges_for_candidates(
                    m,
                    dep_id,
                    deps[q].0,
                    deps[q].1,
                    spec_lookup(ix, deps[q].0),
                )).contains(x);
            if q < deps.len() - 1 {
                assert(deps.drop_last()[q] == deps[q]);
                assert(a.contains(x));
                let j = choose|j: int| 0 <= j < a.len() && a[j] == x;
                assert(es[j] == x);
            } else {
                assert(deps[q] == deps.last());
                let j = choose|j: int| 0 <= j < b.len() && b[j] == x;
                assert(es[a.len() + j] == x);
            }
            assert(es.contains(x));
        }
    }
}

proof fn lemma_versions_mem(
    m: Map<Seq<char>, int>,
    ix: Map<Seq<char>, Seq<Seq<char>>>,
    name: Seq<char>,
    versions: Seq<(Seq<char>, crate::records::VersionInfoView)>,
    x: (int, int),
)
    ensures
        edges_for_versions(m, ix, name, versions).contains(x) <==> exists|k: int|
            0 <= k < versions.len() && (#[trigger] edges_for_deps(
                m,
                ix,
                crate::records::id_of(name, versions[k].0),
                versions[k].1.dependencies,
            )).contains(x),
    decreases versions.len(),
{
    if versions.len() == 0 {
    } else {
        lemma_versions_mem(m, ix, name, versions.drop_last(), x);
        let a = edges_for_versions(m, ix, name, versions.drop_last());
        let b = edges_for_deps(
            m,
            ix,
            crate::records::id_of(name, versions.last().0),
            versions.last().1.dependencies,
        );
        let es = edges_for_versions(m, ix, name, versions);
        assert(es == a + b);
        if es.contains(x) {
            let i = choose|i: int| 0 <= i < es.len() && es[i] == x;
            if i < a.len() {
                assert(a[i] == x);
                assert(a.contains(x));
                let k = choose|k: int|
                    0 <= k < versions.drop_last().len() && (#[trigger] edges_for_deps(
                        m,
                        ix,
                        crate::records::id_of(name, versions.drop_last()[k].0),
                        versions.drop_last()[k].1.dependencies,
                    )).contains(x);
                assert(versions.drop_last()[k] == versions[k]);
            } else {
                assert(b[i - a.len()] == x);
                assert(b.contains(x));
                assert(versions[versions.len() - 1] == versions.last());
            }
        }
        if exists|k: int|
            0 <= k < versions.len() && (#[trigger] edges_for_deps(
                m,
                ix,
                crate::records::id_of(name, versions[k].0),
                versions[k].1.dependencies,
            )).contains(x) {
            let k = choose|k: int|
                0 <= k < versions.len() && (#[trigger] edges_for_deps(
                    m,
                    ix,
                    crate::records::id_of(name, versions[k].0),
                    versions[k].1.dependencies,
                )).contains(x);
            if k < versions.len() - 1 {
                assert(versions.drop_last()[k] == versions[k]);
                assert(a.contains(x));
                let j = choose|j: int| 0 <= j < a.len() && a[j] == x;
                assert(es[j] == x);
            } else {
                assert(versions[k] == versions.last());
                let j = choose|j: int| 0 <= j < b.len() && b[j] == x;
                assert(es[a.len() + j] == x);
            }
            assert(es.contains(x));
        }
    }
}

proof fn lemma_packages_mem(
    m: Map<Seq<char>, int>,
    ix: Map<Seq<char>, Seq<Seq<char>>>,
    ps: Seq<PackageInfoView>,
    x: (int, int),
)
    ensures
        spec_edges_with(m, ix, ps).contains(x) <==> exists|p: int|
            0 <= p < ps.len() && (#[trigger] edges_for_versions(
                m,
                ix,
                ps[p].name,
                ps[p].versions,
            )).contains(x),
    decreases ps.len(),
{
    if ps.len() == 0 {
    } else {
        lemma_packages_mem(m, ix, ps.drop_last(), x);
        let a = spec_edges_with(m, ix, ps.drop_last());
        let b = edges_for_versions(m, ix, ps.last().name, ps.last().versions);
        let es = spec_edges_with(m, ix, ps);
        assert(es == a + b);
        if es.contains(x) {
            let i = choose|i: int| 0 <= i < es.len() && es[i] == x;
            if i < a.len() {
                assert(a[i] == x);
                assert(a.contains(x));
                let p = choose|p: int|
                    0 <= p < ps.drop_last().len() && (#[trigger] edges_for_versions(
                        m,
                        ix,
                        ps.drop_last()[p].name,
                        ps.drop_last()[p].versions,
                    )).contains(x);
                assert(ps.drop_last()[p] == ps[p]);
            } else {
                assert(b[i - a.len()] == x);
                assert(b.contains(x));
                assert(ps[ps.len() - 1] == ps.last());
            }
        }
        if exists|p: int|
            0 <= p < ps.len() && (#[trigger] edges_for_versions(
                m,
                ix,
                ps[p].name,
                ps[p].versions,
            )).contains(x) {
            let p = choose|p: int|
                0 <= p < ps.len() && (#[trigger] edges_for_versions(
                    m,
                    ix,
                    ps[p].name,
                    ps[p].versions,
                )).contains(x);
            if p < ps.len() - 1 {
                assert(ps.drop_last()[p] == ps[p]);
                assert(a.contains(x));
                let j = choose|j: int| 0 <= j < a.len() && a[j] == x;
                assert(es[j] == x);
            } else {
                assert(ps[p] == ps.last());
                let j = choose|j: int| 0 <= j < b.len() && b[j] == x;
                assert(es[a.len() + j] == x);
            }
            assert(es.contains(x));
        }
    }
}

/// Package names are pairwise distinct across the snapshot.
pub open spec fn unique_package_names(ps: Seq<PackageInfoView>) -> bool {
    forall|i: int, j: int| 0 <= i < j < ps.len() ==> ps[i].name != ps[j].name
}

/// Canonical node identifiers are pairwise distinct.
pub open spec fn distinct_node_ids(ns: Seq<NodeView>) -> bool {
    forall|i: int, j: int| 0 <= i < j < ns.len() ==> ns[i].id() != ns[j].id()
}

/// Dependency names are pairwise distinct within one version record.
pub open spec fn unique_dep_names(deps: Seq<(Seq<char>, Seq<char>)>) -> bool {
    forall|i: int, j: int| 0 <= i < j < deps.len() ==> deps[i].0 != deps[j].0
}

/// With unique package names, the version index holds exactly the
/// package names of the snapshot, each mapped to its version list.
pub proof fn lemma_index_char(ps: Seq<PackageInfoView>)
    requires
        unique_package_names(ps),
    ensures
        forall|n: Seq<char>| #[trigger]
            spec_index(ps).contains_key(n) ==> exists|p: int| 0 <= p < ps.len() && ps[p].name == n,
        forall|p: int|
            0 <= p < ps.len() ==> spec_index(ps).contains_key(#[trigger] ps[p].name) && spec_index(
                ps,
            )[ps[p].name] == crate::model::version_names(ps[p]),
    decreases ps.len(),
{
    if ps.len() == 0 {
    } else {
        let prev = ps.drop_last();
        assert(forall|i: int| 0 <= i < prev.len() ==> prev[i] == ps[i]);
        lemma_index_char(prev);
        let ix = spec_index(ps);
        assert forall|n: Seq<char>| #[trigger]
            ix.contains_key(n) implies exists|p: int| 0 <= p < ps.len() && ps[p].name == n by {
            if n == ps.last().name {
                assert(ps[ps.len() - 1].name == n);
            } else {
                assert(spec_index(prev).contains_key(n));
                let p = choose|p: int| 0 <= p < prev.len() && prev[p].name == n;
                assert(ps[p].name == n);
            }
        }
        assert forall|p: int| 0 <= p < ps.len() implies ix.contains_key(#[trigger] ps[p].name)
            && ix[ps[p].name] == crate::model::version_names(ps[p]) by {
            if p == ps.len() - 1 {
                assert(ps[p] == ps.last());
            } else {
                assert(prev[p] == ps[p]);
                assert(ps[p].name != ps[ps.len() - 1].name);
            }
        }
    }
}

/// With distinct identifiers, the identifier map resolves every node's
/// identifier to that node's own position, and holds nothing else.
pub proof fn lemma_id_map_resolve(ns: Seq<NodeView>)
    requires
        distinct_node_ids(ns),
    ensures
        forall|x: int|
            0 <= x < ns.len() ==> spec_id_map(ns).contains_key(#[trigger] ns[x].id())
                && spec_id_map(ns)[ns[x].id()] == x,
        forall|y: Seq<char>| #[trigger]
            spec_id_map(ns).contains_key(y) ==> exists|x: int| 0 <= x < ns.len() && ns[x].id()
                == y,
    decreases ns.len(),
{
    if ns.len() == 0 {
    } else {
        let prev = ns.drop_last();
        assert(forall|i: int| 0 <= i < prev.len() ==> prev[i] == ns[i]);
        lemma_id_map_resolve(prev);
        let m = spec_id_map(ns);
        assert forall|x: int| 0 <= x < ns.len() implies m.contains_key(#[trigger] ns[x].id())
            && m[ns[x].id()] == x by {
            if x == ns.len() - 1 {
                assert(ns[x] == ns.last());
            } else {
                assert(prev[x] == ns[x]);
                assert(ns[x].id() != ns[ns.len() - 1].id());
                assert(ns.last() == ns[ns.len() - 1]);
            }
        }
        assert forall|y: Seq<char>| #[trigger] m.contains_key(y) implies exists|x: int|
            0 <= x < ns.len() && ns[x].id() == y by {
            if y == ns.last().id() {
                assert(ns[ns.len() - 1].id() == y);
            } else {
                assert(spec_id_map(prev).contains_key(y));
                let x = choose|x: int| 0 <= x < prev.len() && prev[x].id() == y;
                assert(ns[x].id() == y);
            }
        }
    }
}

/// The position in the node sequence of the `k`-th version of the `p`-th
/// package.
pub open spec fn flat_index(ps: Seq<PackageInfoView>, p: int, k: int) -> int {
    spec_nodes(ps.take(p)).len() + k
}

/// The node at a flat position is the node of its source (package,
/// version) pair.
pub proof fn lemma_flat(ps: Seq<PackageInfoView>, p: int, k: int)
    requires
        0 <= p < ps.len(),
        0 <= k < ps[p].versions.len(),
    ensures
        0 <= flat_index(ps, p, k) < spec_nodes(ps).len(),
        spec_nodes(ps)[flat_index(ps, p, k)] == nodes_of(ps[p])[k],
    decreases ps.len(),
{
    if p == ps.len() - 1 {
        assert(ps.take(p) =~= ps.drop_last());
        assert(ps[p] == ps.last());
    } else {
        let prev = ps.drop_last();
        assert(prev[p] == ps[p]);
        assert(prev.take(p) =~= ps.take(p));
        lemma_flat(prev, p, k);
        assert(spec_nodes(ps)[flat_index(ps, p, k)] == spec_nodes(prev)[flat_index(prev, p, k)]);
    }
}

/// One direction of edge existence: a declaration whose range parses,
/// aimed at a published version of another node that parses and
/// satisfies it, yields the edge between the two nodes.
pub proof fn lemma_edge_complete(
    ps: Seq<PackageInfoView>,
    p: int,
    k: int,
    q: int,
    p2: int,
    k2: int,
)
    requires
        unique_package_names(ps),
        distinct_node_ids(spec_nodes(ps)),
        0 <= p < ps.len(),
        0 <= k < ps[p].versions.len(),
        0 <= q < ps[p].versions[k].1.dependencies.len(),
        0 <= p2 < ps.len(),
        0 <= k2 < ps[p2].versions.len(),
        ps[p].versions[k].1.dependencies[q].0 == ps[p2].name,
        range_ok(ps[p].versions[k].1.dependencies[q].1),
        version_ok(ps[p2].versions[k2].0),
        range_matches(ps[p].versions[k].1.dependencies[q].1, ps[p2].versions[k2].0),
        crate::records::id_of(ps[p].name, ps[p].versions[k].0) != crate::records::id_of(
            ps[p2].name,
            ps[p2].versions[k2].0,
        ),
    ensures
        spec_edges(ps).contains((flat_index(ps, p, k), flat_index(ps, p2, k2))),
{
    let m = spec_id_map(spec_nodes(ps));
    let ix = spec_index(ps);
    let ns = spec_nodes(ps);
    let deps = ps[p].versions[k].1.dependencies;
    let d = deps[q].0;
    let r = deps[q].1;
    let w = ps[p2].versions[k2].0;
    let i = flat_index(ps, p, k);
    let j = flat_index(ps, p2, k2);
    let x = (i, j);
    lemma_index_char(ps);
    lemma_id_map_resolve(ns);
    lemma_flat(ps, p, k);
    lemma_flat(ps, p2, k2);
    let di = crate::records::id_of(ps[p].name, ps[p].versions[k].0);
    let ti = crate::records::id_of(d, w);
    assert(ns[i] == nodes_of(ps[p])[k]);
    assert(ns[i].id() == di);
    assert(ns[j] == nodes_of(ps[p2])[k2]);
    assert(ns[j].id() == ti);
    assert(m.contains_key(di) && m[di] == i);
    assert(m.contains_key(ti) && m[ti] == j);
    assert(i != j) by {
        if i == j {
            assert(ns[i].id() == di);
            assert(ns[j].id() == ti);
        }
    }
    assert(ix.contains_key(d) && ix[d] == crate::model::version_names(ps[p2]));
    let cands = spec_lookup(ix, d);
    assert(cands[k2] == w);
    let ec = edge_for_candidate(m, di, d, r, w);
    assert(ec == seq![x]);
    assert(ec[0] == x);
    assert(ec.contains(x));
    lemma_candidates_mem(m, di, d, r, cands, x);
    assert(0 <= k2 < cands.len() && (#[trigger] edge_for_candidate(
        m,
        di,
        d,
        r,
        cands[k2],
    )).contains(x));
    assert(edges_for_candidates(m, di, d, r, cands).contains(x));
    lemma_deps_mem(m, ix, di, deps, x);
    assert(0 <= q < deps.len() && (#[trigger] edges_for_candidates(
        m,
        di,
        deps[q].0,
        deps[q].1,
        spec_lookup(ix, deps[q].0),
    )).contains(x));
    assert(edges_for_deps(m, ix, di, deps).contains(x));
    lemma_versions_mem(m, ix, ps[p].name, ps[p].versions, x);
    assert(0 <= k < ps[p].versions.len() && (#[trigger] edges_for_deps(
        m,
        ix,
        crate::records::id_of(ps[p].name, ps[p].versions[k].0),
        ps[p].versions[k].1.dependencies,
    )).contains(x));
    assert(edges_for_versions(m, ix, ps[p].name, ps[p].versions).contains(x));
    lemma_packages_mem(m, ix, ps, x);
    assert(spec_edges_with(m, ix, ps).contains(x));
}

/// Edge existence. For a well-formed snapshot (unique package names,
/// pairwise-distinct node identifiers, unique dependency names within
/// the version record at hand), and a dependent version `(p, k)` whose
/// `q`-th declaration names the package of record `p2`: the edge from
/// the dependent's node to the node of version `k2` of that package
/// exists exactly when the declared range parses, the candidate version
/// string parses, the candidate satisfies the range, and the candidate
/// node is not the dependent node itself.
pub proof fn lemma_edge_existence(
    ps: Seq<PackageInfoView>,
    p: int,
    k: int,
    q: int,
    p2: int,
    k2: int,
)
    requires
        unique_package_names(ps),
        distinct_node_ids(spec_nodes(ps)),
        0 <= p < ps.len(),
        0 <= k < ps[p].versions.len(),
        0 <= q < ps[p].versions[k].1.dependencies.len(),
        unique_dep_names(ps[p].versions[k].1.dependencies),
        0 <= p2 < ps.len(),
        0 <= k2 < ps[p2].versions.len(),
        ps[p].versions[k].1.dependencies[q].0 == ps[p2].name,
    ensures
        ({
            let r = ps[p].versions[k].1.dependencies[q].1;
            let w = ps[p2].versions[k2].0;
            spec_edges(ps).contains((flat_index(ps, p, k), flat_index(ps, p2, k2))) <==> {
                &&& range_ok(r)
                &&& version_ok(w)
                &&& range_matches(r, w)
                &&& crate::records::id_of(ps[p].name, ps[p].versions[k].0)
                    != crate::records::id_of(ps[p2].name, w)
            }
        }),
{
    let m = spec_id_map(spec_nodes(ps));
    let ix = spec_index(ps);
    let ns = spec_nodes(ps);
    let deps = ps[p].versions[k].1.dependencies;
    let d = deps[q].0;
    let r = deps[q].1;
    let w = ps[p2].versions[k2].0;
    let i = flat_index(ps, p, k);
    let j = flat_index(ps, p2, k2);
    let x = (i, j);
    lemma_index_char(ps);
    lemma_id_map_resolve(ns);
    lemma_flat(ps, p, k);
    lemma_flat(ps, p2, k2);
    let di = crate::records::id_of(ps[p].name, ps[p].versions[k].0);
    let ti = crate::records::id_of(d, w);
    assert(ns[i] == nodes_of(ps[p])[k]);
    assert(ns[i].name == ps[p].name && ns[i].version == ps[p].versions[k].0);
    assert(ns[i].id() == di);
    assert(ns[j] == nodes_of(ps[p2])[k2]);
    assert(ns[j].name == ps[p2].name && ns[j].version == w);
    assert(ns[j].id() == ti);
    assert(m.contains_key(di) && m[di] == i);
    assert(m.contains_key(ti) && m[ti] == j);
    assert(ix.contains_key(d) && ix[d] == crate::model::version_names(ps[p2]));
    let cands = spec_lookup(ix, d);
    assert(cands[k2] == w);
    if range_ok(r) && version_ok(w) && range_matches(r, w) && di != ti {
        lemma_edge_complete(ps, p, k, q, p2, k2);
    }
    if spec_edges_with(m, ix, ps).contains(x) {
        lemma_packages_mem(m, ix, ps, x);
        let pp = choose|pp: int|
            0 <= pp < ps.len() && (#[trigger] edges_for_versions(
                m,
                ix,
                ps[pp].name,
                ps[pp].versions,
            )).contains(x);
        lemma_versions_mem(m, ix, ps[pp].name, ps[pp].versions, x);
        let kk = choose|kk: int|
            0 <= kk < ps[pp].versions.len() && (#[trigger] edges_for_deps(
                m,
                ix,
                crate::records::id_of(ps[pp].name, ps[pp].versions[kk].0),
                ps[pp].versions[kk].1.dependencies,
            )).contains(x);
        let di2 = crate::records::id_of(ps[pp].name, ps[pp].versions[kk].0);
        let deps2 = ps[pp].versions[kk].1.dependencies;
        lemma_deps_mem(m, ix, di2, deps2, x);
        let qq = choose|qq: int|
            0 <= qq < deps2.len() && (#[trigger] edges_for_candidates(
                m,
                di2,
                deps2[qq].0,
                deps2[qq].1,
                spec_lookup(ix, deps2[qq].0),
            )).contains(x);
        let d2 = deps2[qq].0;
        let r2 = deps2[qq].1;
        lemma_candidates_mem(m, di2, d2, r2, spec_lookup(ix, d2), x);
        let cc = choose|cc: int|
            0 <= cc < spec_lookup(ix, d2).len() && (#[trigger] edge_for_candidate(
                m,
                di2,
                d2,
                r2,
                spec_lookup(ix, d2)[cc],
            )).contains(x);
        let w2 = spec_lookup(ix, d2)[cc];
        let ec = edge_for_candidate(m, di2, d2, r2, w2);
        assert(ec.contains(x));
        assert(range_ok(r2) && version_ok(w2) && range_matches(r2, w2) && m.contains_key(di2)
            && m.contains_key(crate::records::id_of(d2, w2)) && m[di2] != m[crate::records::id_of(
            d2,
            w2,
        )]);
        assert(ec[0] == x);
        assert(x == (m[di2], m[crate::records::id_of(d2, w2)]));
        lemma_flat(ps, pp, kk);
        let i2 = flat_index(ps, pp, kk);
        assert(ns[i2] == nodes_of(ps[pp])[kk]);
        assert(ns[i2].id() == di2);
        assert(m[di2] == i2);
        assert(i2 == i);
        assert(ns[i].name == ps[pp].name && ns[i].version == ps[pp].versions[kk].0);
        assert(ps[pp].name == ps[p].name);
        assert(pp == p) by {
            if pp < p {
                assert(ps[pp].name != ps[p].name);
            }
            if p < pp {
                assert(ps[p].name != ps[pp].name);
            }
        }
        assert(kk == k);
        assert(ix.contains_key(d2));
        let p3 = choose|p3: int| 0 <= p3 < ps.len() && ps[p3].name == d2;
        assert(ix[ps[p3].name] == crate::model::version_names(ps[p3]));
        assert(w2 == crate::model::version_names(ps[p3])[cc]);
        assert(w2 == ps[p3].versions[cc].0);
        lemma_flat(ps, p3, cc);
        let j3 = flat_index(ps, p3, cc);
        assert(ns[j3] == nodes_of(ps[p3])[cc]);
        assert(ns[j3].id() == crate::records::id_of(d2, w2));
        assert(m[crate::records::id_of(d2, w2)] == j3);
        assert(j3 == j);
        assert(ns[j].name == ps[p3].name && ns[j].version == w2);
        assert(d2 == ps[p2].name && w2 == w);
        assert(d2 == deps[q].0);
        assert(qq == q) by {
            if qq < q {
                assert(deps[qq].0 != deps[q].0);
            }
            if q < qq {
                assert(deps[q].0 != deps[qq].0);
            }
        }
        assert(r2 == r);
        assert(range_ok(r) && version_ok(w) && range_matches(r, w));
        assert(i != j);
        assert(di != ti) by {
            if i < j {
                assert(ns[i].id() != ns[j].id());
            } else {
                assert(ns[j].id() != ns[i].id());
            }
        }
    }
}

proof fn lemma_spec_nodes_remove(ps: Seq<PackageInfoView>, i: int)
    requires
        0 <= i < ps.len(),
    ensures
        spec_nodes(ps).to_multiset() == spec_nodes(ps.remove(i)).to_multiset().add(
            nodes_of(ps[i]).to_multiset(),
        ),
    decreases ps.len(),
{
    broadcast use vstd::multiset::group_multiset_axioms;

    if i == ps.len() - 1 {
        assert(ps.remove(i) =~= ps.drop_last());
        vstd::seq_lib::lemma_multiset_commutative(spec_nodes(ps.drop_last()), nodes_of(ps.last()));
    } else {
        assert(ps.remove(i).drop_last() =~= ps.drop_last().remove(i));
        assert(ps.remove(i).last() == ps.last());
        assert(ps.drop_last()[i] == ps[i]);
        lemma_spec_nodes_remove(ps.drop_last(), i);
        vstd::seq_lib::lemma_multiset_commutative(spec_nodes(ps.drop_last()), nodes_of(ps.last()));
        vstd::seq_lib::lemma_multiset_commutative(
            spec_nodes(ps.drop_last().remove(i)),
            nodes_of(ps.last()),
        );
        assert(spec_nodes(ps.remove(i)).to_multiset() =~= spec_nodes(
            ps.drop_last().remove(i),
        ).to_multiset().add(nodes_of(ps.last()).to_multiset()));
        assert(spec_nodes(ps).to_multiset() =~= spec_nodes(ps.remove(i)).to_multiset().add(
            nodes_of(ps[i]).to_multiset(),
        ));
    }
}

proof fn lemma_contains_transfer(a: Seq<PackageInfoView>, b: Seq<PackageInfoView>, x: PackageInfoView)
    requires
        a.to_multiset() == b.to_multiset(),
        a.contains(x),
    ensures
        b.contains(x),
{
    broadcast use vstd::seq_lib::group_to_multiset_ensures;

    assert(a.to_multiset().count(x) > 0);
    assert(b.to_multiset().count(x) > 0);
}

/// The node multiset of a snapshot depends only on the multiset of its
/// records: permuting the records permutes the nodes.
pub proof fn lemma_nodes_multiset_permutation(ps: Seq<PackageInfoView>, ps2: Seq<PackageInfoView>)
    requires
        ps.to_multiset() == ps2.to_multiset(),
    ensures
        spec_nodes(ps).to_multiset() == spec_nodes(ps2).to_multiset(),
    decreases ps2.len(),
{
    broadcast use vstd::seq_lib::group_to_multiset_ensures;
    broadcast use vstd::multiset::group_multiset_axioms;

    if ps2.len() == 0 {
        assert(ps.to_multiset().len() == ps.len());
        assert(ps2.to_multiset().len() == ps2.len());
        assert(ps.len() == 0);
    } else {
        let r = ps2.last();
        assert(ps2[ps2.len() - 1] == r);
        assert(ps2.contains(r));
        lemma_contains_transfer(ps2, ps, r);
        assert(ps.contains(r));
        let i = choose|i: int| 0 <= i < ps.len() && ps[i] == r;
        let ps_r = ps.remove(i);
        assert(ps_r.to_multiset() =~= ps.to_multiset().remove(r));
        assert(ps2.drop_last() =~= ps2.remove(ps2.len() - 1));
        assert(ps2.drop_last().to_multiset() =~= ps2.to_multiset().remove(r));
        lemma_nodes_multiset_permutation(ps_r, ps2.drop_last());
        lemma_spec_nodes_remove(ps, i);
        vstd::seq_lib::lemma_multiset_commutative(spec_nodes(ps2.drop_last()), nodes_of(r));
        assert(spec_nodes(ps).to_multiset() =~= spec_nodes(ps2).to_multiset());
    }
}

/// The version index of a snapshot with unique package names depends only
/// on the multiset of its records.
pub proof fn lemma_index_permutation(ps: Seq<PackageInfoView>, ps2: Seq<PackageInfoView>)
    requires
        ps.to_multiset() == ps2.to_multiset(),
        unique_package_names(ps),
        unique_package_names(ps2),
    ensures
        spec_index(ps) == spec_index(ps2),
{
    broadcast use vstd::seq_lib::group_to_multiset_ensures;

    lemma_index_char(ps);
    lemma_index_char(ps2);
    let ix = spec_index(ps);
    let ix2 = spec_index(ps2);
    assert forall|n: Seq<char>| #[trigger] ix.contains_key(n) implies ix2.contains_key(n)
        && ix2[n] == ix[n] by {
        let p = choose|p: int| 0 <= p < ps.len() && ps[p].name == n;
        assert(ps.contains(ps[p]));
        lemma_contains_transfer(ps, ps2, ps[p]);
        assert(ps2.contains(ps[p]));
        let p2 = choose|p2: int| 0 <= p2 < ps2.len() && ps2[p2] == ps[p];
        assert(ps2[p2].name == n);
    }
    assert forall|n: Seq<char>| #[trigger] ix2.contains_key(n) implies ix.contains_key(n) by {
        let p2 = choose|p2: int| 0 <= p2 < ps2.len() && ps2[p2].name == n;
        assert(ps2.contains(ps2[p2]));
        lemma_contains_transfer(ps2, ps, ps2[p2]);
        assert(ps.contains(ps2[p2]));
        let p = choose|p: int| 0 <= p < ps.len() && ps[p] == ps2[p2];
        assert(ps[p].name == n);
    }
    assert(ix =~= ix2);
}

/// Two records declare an edge between two distinct identifier strings:
/// some version of the first names the second's package with a range
/// that parses, and some version of the second parses and satisfies it.
pub open spec fn record_edge(
    r1: PackageInfoView,
    r2: PackageInfoView,
    pr: (Seq<char>, Seq<char>),
) -> bool {
    exists|k: int, q: int, k2: int|
        #![trigger r1.versions[k].1.dependencies[q], r2.versions[k2]]
        {
            &&& 0 <= k < r1.versions.len()
            &&& 0 <= q < r1.versions[k].1.dependencies.len()
            &&& 0 <= k2 < r2.versions.len()
            &&& r1.versions[k].1.dependencies[q].0 == r2.name
            &&& range_ok(r1.versions[k].1.dependencies[q].1)
            &&& version_ok(r2.versions[k2].0)
            &&& range_matches(r1.versions[k].1.dependencies[q].1, r2.versions[k2].0)
            &&& crate::records::id_of(r1.name, r1.versions[k].0) != crate::records::id_of(
                r2.name,
                r2.versions[k2].0,
            )
            &&& pr == (
                crate::records::id_of(r1.name, r1.versions[k].0),
                crate::records::id_of(r2.name, r2.versions[k2].0),
            )
        }
}

/// Some two records of the snapshot declare the edge: a property of the
/// records alone, not of their order.
pub open spec fn declared_edge(ps: Seq<PackageInfoView>, pr: (Seq<char>, Seq<char>)) -> bool {
    exists|r1: PackageInfoView, r2: PackageInfoView|
        #![trigger record_edge(r1, r2, pr)]
        ps.contains(r1) && ps.contains(r2) && record_edge(r1, r2, pr)
}

/// The edges of a snapshot, read back as pairs of canonical identifiers.
pub open spec fn edge_id_pairs(ps: Seq<PackageInfoView>) -> Set<(Seq<char>, Seq<char>)> {
    Set::new(
        |pr: (Seq<char>, Seq<char>)|
            exists|e: (int, int)|
                #![trigger spec_edges(ps).contains(e)]
                {
                    &&& spec_edges(ps).contains(e)
                    &&& 0 <= e.0 < spec_nodes(ps).len()
                    &&& 0 <= e.1 < spec_nodes(ps).len()
                    &&& pr == (spec_nodes(ps)[e.0].id(), spec_nodes(ps)[e.1].id())
                },
    )
}

/// Which edges the records declare does not depend on their order.
pub proof fn lemma_declared_edges_permutation(
    ps: Seq<PackageInfoView>,
    ps2: Seq<PackageInfoView>,
    pr: (Seq<char>, Seq<char>),
)
    requires
        ps.to_multiset() == ps2.to_multiset(),
    ensures
        declared_edge(ps, pr) == declared_edge(ps2, pr),
{
    broadcast use vstd::seq_lib::group_to_multiset_ensures;

    if declared_edge(ps, pr) {
        let (r1, r2) = choose|r1: PackageInfoView, r2: PackageInfoView|
            #![trigger record_edge(r1, r2, pr)]
            ps.contains(r1) && ps.contains(r2) && record_edge(r1, r2, pr);
        lemma_contains_transfer(ps, ps2, r1);
        lemma_contains_transfer(ps, ps2, r2);
        assert(ps2.contains(r1) && ps2.contains(r2));
        assert(declared_edge(ps2, pr));
    }
    if declared_edge(ps2, pr) {
        let (r1, r2) = choose|r1: PackageInfoView, r2: PackageInfoView|
            #![trigger record_edge(r1, r2, pr)]
            ps2.contains(r1) && ps2.contains(r2) && record_edge(r1, r2, pr);
        lemma_contains_transfer(ps2, ps, r1);
        lemma_contains_transfer(ps2, ps, r2);
        assert(ps.contains(r1) && ps.contains(r2));
        assert(declared_edge(ps, pr));
    }
}

/// For a well-formed snapshot the edges, read as identifier pairs, are
/// exactly the declared edges.
pub proof fn lemma_edge_id_pairs_declared(ps: Seq<PackageInfoView>)
    requires
        unique_package_names(ps),
        distinct_node_ids(spec_nodes(ps)),
    ensures
        forall|pr: (Seq<char>, Seq<char>)| #[trigger]
            edge_id_pairs(ps).contains(pr) <==> declared_edge(ps, pr),
{
    let m = spec_id_map(spec_nodes(ps));
    let ix = spec_index(ps);
    let ns = spec_nodes(ps);
    lemma_index_char(ps);
    lemma_id_map_resolve(ns);
    lemma_no_dangling_edges(ps);
    assert forall|pr: (Seq<char>, Seq<char>)| #[trigger]
        edge_id_pairs(ps).contains(pr) implies declared_edge(ps, pr) by {
        let x = choose|e: (int, int)|
            #![trigger spec_edges(ps).contains(e)]
            {
                &&& spec_edges(ps).contains(e)
                &&& 0 <= e.0 < ns.len()
                &&& 0 <= e.1 < ns.len()
                &&& pr == (ns[e.0].id(), ns[e.1].id())
            };
        lemma_packages_mem(m, ix, ps, x);
        let pp = choose|pp: int|
            0 <= pp < ps.len() && (#[trigger] edges_for_versions(
                m,
                ix,
                ps[pp].name,
                ps[pp].versions,
            )).contains(x);
        lemma_versions_mem(m, ix, ps[pp].name, ps[pp].versions, x);
        let kk = choose|kk: int|
            0 <= kk < ps[pp].versions.len() && (#[trigger] edges_for_deps(
                m,
                ix,
                crate::records::id_of(ps[pp].name, ps[pp].versions[kk].0),
                ps[pp].versions[kk].1.dependencies,
            )).contains(x);
        let di2 = crate::records::id_of(ps[pp].name, ps[pp].versions[kk].0);
        let deps2 = ps[pp].versions[kk].1.dependencies;
        lemma_deps_mem(m, ix, di2, deps2, x);
        let qq = choose|qq: int|
            0 <= qq < deps2.len() && (#[trigger] edges_for_candidates(
                m,
                di2,
                deps2[qq].0,
                deps2[qq].1,
                spec_lookup(ix, deps2[qq].0),
            )).contains(x);
        let d2 = deps2[qq].0;
        let r2 = deps2[qq].1;
        lemma_candidates_mem(m, di2, d2, r2, spec_lookup(ix, d2), x);
        let cc = choose|cc: int|
            0 <= cc < spec_lookup(ix, d2).len() && (#[trigger] edge_for_candidate(
                m,
                di2,
                d2,
                r2,
                spec_lookup(ix, d2)[cc],
            )).contains(x);
        let w2 = spec_lookup(ix, d2)[cc];
        let ec = edge_for_candidate(m, di2, d2, r2, w2);
        assert(ec.contains(x));
        assert(range_ok(r2) && version_ok(w2) && range_matches(r2, w2) && m.contains_key(di2)
            && m.contains_key(crate::records::id_of(d2, w2)) && m[di2] != m[crate::records::id_of(
            d2,
            w2,
        )]);
        assert(ec[0] == x);
        assert(x == (m[di2], m[crate::records::id_of(d2, w2)]));
        lemma_flat(ps, pp, kk);
        let i2 = flat_index(ps, pp, kk);
        assert(ns[i2] == nodes_of(ps[pp])[kk]);
        assert(ns[i2].id() == di2);
        assert(m[di2] == i2);
        assert(x.0 == i2);
        assert(ns[x.0].id() == di2);
        assert(ix.contains_key(d2));
        let p3 = choose|p3: int| 0 <= p3 < ps.len() && ps[p3].name == d2;
        assert(ix[ps[p3].name] == crate::model::version_names(ps[p3]));
        assert(w2 == crate::model::version_names(ps[p3])[cc]);
        assert(w2 == ps[p3].versions[cc].0);
        lemma_flat(ps, p3, cc);
        let j3 = flat_index(ps, p3, cc);
        assert(ns[j3] == nodes_of(ps[p3])[cc]);
        assert(ns[j3].id() == crate::records::id_of(d2, w2));
        assert(m[crate::records::id_of(d2, w2)] == j3);
        assert(x.1 == j3);
        assert(ns[x.1].id() == crate::records::id_of(d2, w2));
        assert(pr == (di2, crate::records::id_of(d2, w2)));
        assert(x.0 != x.1);
        assert(di2 != crate::records::id_of(d2, w2)) by {
            if x.0 < x.1 {
                assert(ns[x.0].id() != ns[x.1].id());
            } else {
                assert(ns[x.1].id() != ns[x.0].id());
            }
        }
        assert(ps[pp].versions[kk].1.dependencies[qq] == deps2[qq]);
        assert(ps[p3].versions[cc] == ps[p3].versions[cc]);
        assert(record_edge(ps[pp], ps[p3], pr));
        assert(ps.contains(ps[pp]) && ps.contains(ps[p3]));
        assert(declared_edge(ps, pr));
    }
    assert forall|pr: (Seq<char>, Seq<char>)| declared_edge(ps, pr) implies #[trigger]
        edge_id_pairs(ps).contains(pr) by {
        let (r1, r2) = choose|r1: PackageInfoView, r2: PackageInfoView|
            #![trigger record_edge(r1, r2, pr)]
            ps.contains(r1) && ps.contains(r2) && record_edge(r1, r2, pr);
        let p = choose|p: int| 0 <= p < ps.len() && ps[p] == r1;
        let p2 = choose|p2: int| 0 <= p2 < ps.len() && ps[p2] == r2;
        let (k, q, k2) = choose|k: int, q: int, k2: int|
            #![trigger r1.versions[k].1.dependencies[q], r2.versions[k2]]
            {
                &&& 0 <= k < r1.versions.len()
                &&& 0 <= q < r1.versions[k].1.dependencies.len()
                &&& 0 <= k2 < r2.versions.len()
                &&& r1.versions[k].1.dependencies[q].0 == r2.name
                &&& range_ok(r1.versions[k].1.dependencies[q].1)
                &&& version_ok(r2.versions[k2].0)
                &&& range_matches(r1.versions[k].1.dependencies[q].1, r2.versions[k2].0)
                &&& crate::records::id_of(r1.name, r1.versions[k].0) != crate::records::id_of(
                    r2.name,
                    r2.versions[k2].0,
                )
                &&& pr == (
                    crate::records::id_of(r1.name, r1.versions[k].0),
                    crate::records::id_of(r2.name, r2.versions[k2].0),
                )
            };
        lemma_edge_complete(ps, p, k, q, p2, k2);
        lemma_flat(ps, p, k);
        lemma_flat(ps, p2, k2);
        let e = (flat_index(ps, p, k), flat_index(ps, p2, k2));
        assert(spec_edges(ps).contains(e));
        assert(ns[e.0] == nodes_of(ps[p])[k]);
        assert(ns[e.1] == nodes_of(ps[p2])[k2]);
        assert(ns[e.0].id() == pr.0);
        assert(ns[e.1].id() == pr.1);
    }
}

/// Order independence. Permuting the records of a well-formed snapshot
/// (unique package names, pairwise-distinct node identifiers) yields the
/// same node multiset, the same version index, and the same edge set read
/// as pairs of canonical identifiers.
pub proof fn lemma_order_independence(ps: Seq<PackageInfoView>, ps2: Seq<PackageInfoView>)
    requires
        ps.to_multiset() == ps2.to_multiset(),
        unique_package_names(ps),
        unique_package_names(ps2),
        distinct_node_ids(spec_nodes(ps)),
        distinct_node_ids(spec_nodes(ps2)),
    ensures
        spec_nodes(ps).to_multiset() == spec_nodes(ps2).to_multiset(),
        spec_index(ps) == spec_index(ps2),
        edge_id_pairs(ps) == edge_id_pairs(ps2),
{
    lemma_nodes_multiset_permutation(ps, ps2);
    lemma_index_permutation(ps, ps2);
    lemma_edge_id_pairs_declared(ps);
    lemma_edge_id_pairs_declared(ps2);
    assert forall|pr: (Seq<char>, Seq<char>)|
        edge_id_pairs(ps).contains(pr) == #[trigger] edge_id_pairs(ps2).contains(pr) by {
        lemma_declared_edges_permutation(ps, ps2, pr);
        assert(edge_id_pairs(ps).contains(pr) <==> declared_edge(ps, pr));
        assert(edge_id_pairs(ps2).contains(pr) <==> declared_edge(ps2, pr));
    }
    assert(edge_id_pairs(ps) =~= edge_id_pairs(ps2));
}

/// Construction is idempotent: two runs on the same snapshot determine
/// the same node sequence and the same edge sequence, because both equal
/// the values the model assigns to the input alone.
pub proof fn lemma_idempotent(
    ps: Seq<PackageInfoView>,
    nodes1: Seq<NodeView>,
    edges1: Seq<(int, int)>,
    nodes2: Seq<NodeView>,
    edges2: Seq<(int, int)>,
)
    requires
        nodes1 == spec_nodes(ps),
        edges1 == spec_edges(ps),
        nodes2 == spec_nodes(ps),
        edges2 == spec_edges(ps),
    ensures
        nodes1 == nodes2,
        edges1 == edges2,
{
}

} // verus!
