//! The graph builder's verified passes: the node pass, the version-index
//! pass, the identifier-map pass, and the edge pass. Each is proved to
//! produce exactly the value the model in `model` assigns to its input.

use vstd::prelude::*;
use crate::records::{PackageInfo, Node, make_id, id_of};
use crate::index::{VersionIndex, NodeIdMap, spec_lookup};
use crate::model::{
    version_names, spec_index, nodes_of, spec_nodes, spec_id_map, edge_for_candidate,
    edges_for_candidates, edges_for_deps, edges_for_versions, spec_edges_with, spec_edges,
    edges_as_int, lemma_bad_range_no_edges,
};
use crate::ranges::{range_is_valid, version_satisfies};

verus! {

/// Builds the version index of a snapshot: every package name mapped to
/// its full list of version strings, an empty list included, a later
/// record with the same name replacing an earlier one.
pub fn create_id_to_versions_map(packages: &Vec<PackageInfo>) -> (idx: VersionIndex)
    ensures
        idx@ == spec_index(packages.deep_view()),
{
    let ghost psv = packages.deep_view();
    let mut idx = VersionIndex::new();
    proof {
        assert(psv.take(0) =~= Seq::<crate::records::PackageInfoView>::empty());
    }
    let mut p: usize = 0;
    while p < packages.len()
        invariant
            p <= packages.len(),
            psv == packages.deep_view(),
            psv.len() == packages.len(),
            idx@ == spec_index(psv.take(p as int)),
        decreases packages.len() - p,
    {
        let mut names: Vec<String> = Vec::new();
        proof {
            assert(names.deep_view() =~= version_names(psv[p as int]).take(0));
        }
        let mut k: usize = 0;
        while k < packages[p].versions.len()
            invariant
                p < packages.len(),
                k <= packages@[p as int].versions@.len(),
                psv == packages.deep_view(),
                psv.len() == packages.len(),
                names.deep_view() == version_names(psv[p as int]).take(k as int),
            decreases packages@[p as int].versions@.len() - k,
        {
            let ghost before = names.deep_view();
            proof {
                assert(before.len() == names@.len());
            }
            names.push(packages[p].versions[k].0.clone());
            proof {
                assert(names.deep_view() =~= before.push(
                    packages@[p as int].versions@[k as int].0@,
                ));
                assert(names.deep_view() =~= version_names(psv[p as int]).take(k as int + 1));
            }
            k = k + 1;
        }
        proof {
            assert(version_names(psv[p as int]).take(k as int) =~= version_names(psv[p as int]));
        }
        idx.insert(packages[p].name.clone(), names);
        proof {
            assert(psv.take(p as int + 1).drop_last() =~= psv.take(p as int));
            assert(psv.take(p as int + 1).last() == psv[p as int]);
        }
        p = p + 1;
    }
    proof {
        assert(psv.take(p as int) =~= psv);
    }
    idx
}

/// The node pass: one node per (package, version) pair, in input order,
/// carrying the publish timestamp through unchanged.
pub fn build_nodes(packages: &Vec<PackageInfo>) -> (nodes: Vec<Node>)
    ensures
        nodes.deep_view() == spec_nodes(packages.deep_view()),
{
    let ghost psv = packages.deep_view();
    let mut nodes: Vec<Node> = Vec::new();
    proof {
        assert(psv.take(0) =~= Seq::<crate::records::PackageInfoView>::empty());
        assert(nodes.deep_view() =~= spec_nodes(psv.take(0)));
    }
    let mut p: usize = 0;
    while p < packages.len()
        invariant
            p <= packages.len(),
            psv == packages.deep_view(),
            psv.len() == packages.len(),
            nodes.deep_view() == spec_nodes(psv.take(p as int)),
        decreases packages.len() - p,
    {
        let mut k: usize = 0;
        while k < packages[p].versions.len()
            invariant
                p < packages.len(),
                k <= packages@[p as int].versions@.len(),
                psv == packages.deep_view(),
                psv.len() == packages.len(),
                nodes.deep_view() == spec_nodes(psv.take(p as int)) + nodes_of(
                    psv[p as int],
                ).take(k as int),
            decreases packages@[p as int].versions@.len() - k,
        {
            let node = Node {
                name: packages[p].name.clone(),
                version: packages[p].versions[k].0.clone(),
                timestamp: packages[p].versions[k].1.timestamp.clone(),
            };
            let ghost before = nodes.deep_view();
            proof {
                assert(before.len() == nodes@.len());
                assert(node@ == nodes_of(psv[p as int])[k as int]);
            }
            nodes.push(node);
            proof {
                assert(nodes.deep_view() =~= before.push(node@));
                assert(before.push(node@) =~= spec_nodes(psv.take(p as int)) + nodes_of(
                    psv[p as int],
                ).take(k as int + 1));
            }
            k = k + 1;
        }
        proof {
            assert(psv.take(p as int + 1).drop_last() =~= psv.take(p as int));
            assert(psv.take(p as int + 1).last() == psv[p as int]);
            assert(nodes_of(psv[p as int]).take(k as int) =~= nodes_of(psv[p as int]));
            assert(nodes.deep_view() =~= spec_nodes(psv.take(p as int + 1)));
        }
        p = p + 1;
    }
    proof {
        assert(psv.take(p as int) =~= psv);
    }
    nodes
}

/// The identifier-map pass: each node registered under its canonical
/// identifier, a later node with the same identifier silently replacing
/// an earlier one.
pub fn build_id_map(nodes: &Vec<Node>) -> (m: NodeIdMap)
    ensures
        m@ == spec_id_map(nodes.deep_view()),
{
    let ghost nv = nodes.deep_view();
    let mut m = NodeIdMap::new();
    proof {
        assert(nv.take(0) =~= Seq::<crate::records::NodeView>::empty());
    }
    let mut i: usize = 0;
    while i < nodes.len()
        invariant
            i <= nodes.len(),
            nv == nodes.deep_view(),
            nv.len() == nodes.len(),
            m@ == spec_id_map(nv.take(i as int)),
        decreases nodes.len() - i,
    {
        let id = nodes[i].identifier();
        m.insert(id, i);
        proof {
            assert(nv.take(i as int + 1).drop_last() =~= nv.take(i as int));
            assert(nv.take(i as int + 1).last() == nv[i as int]);
        }
        i = i + 1;
    }
    proof {
        assert(nv.take(i as int) =~= nv);
    }
    m
}

/// The edge pass: for every (package, version) pair and every dependency
/// declaration of it, every candidate version of the named dependency
/// that satisfies the declared range contributes one directed edge, both
/// endpoints resolved through the identifier map. A malformed range skips
/// its declaration; a malformed candidate, an unsatisfied candidate, an
/// unresolved identifier and a candidate that resolves to the dependent
/// node itself skip that candidate alone.
pub fn build_edges(packages: &Vec<PackageInfo>, idx: &VersionIndex, ids: &NodeIdMap) -> (edges: Vec<
    (usize, usize),
>)
    ensures
        edges_as_int(edges@) == spec_edges_with(ids@, idx@, packages.deep_view()),
{
    let ghost psv = packages.deep_view();
    let ghost m = ids@;
    let ghost ix = idx@;
    let mut edges: Vec<(usize, usize)> = Vec::new();
    proof {
        assert(psv.take(0) =~= Seq::<crate::records::PackageInfoView>::empty());
        assert(edges_as_int(edges@) =~= spec_edges_with(m, ix, psv.take(0)));
    }
    let mut p: usize = 0;
    while p < packages.len()
        invariant
            p <= packages.len(),
            psv == packages.deep_view(),
            psv.len() == packages.len(),
            m == ids@,
            ix == idx@,
            edges_as_int(edges@) == spec_edges_with(m, ix, psv.take(p as int)),
        decreases packages.len() - p,
    {
        let ghost pv = psv[p as int];
        proof {
            assert(edges_for_versions(m, ix, pv.name, pv.versions.take(0)) =~= Seq::<(
                int,
                int,
            )>::empty());
            assert(edges_as_int(edges@) =~= spec_edges_with(m, ix, psv.take(p as int))
                + edges_for_versions(m, ix, pv.name, pv.versions.take(0)));
        }
        let mut k: usize = 0;
        while k < packages[p].versions.len()
            invariant
                p < packages.len(),
                k <= packages@[p as int].versions@.len(),
                psv == packages.deep_view(),
                psv.len() == packages.len(),
                pv == psv[p as int],
                m == ids@,
                ix == idx@,
                edges_as_int(edges@) == spec_edges_with(m, ix, psv.take(p as int))
                    + edges_for_versions(m, ix, pv.name, pv.versions.take(k as int)),
            decreases packages@[p as int].versions@.len() - k,
        {
            let dependent_id = make_id(&packages[p].name, &packages[p].versions[k].0);
            let ghost di = id_of(pv.name, pv.versions[k as int].0);
            let ghost deps = pv.versions[k as int].1.dependencies;
            proof {
                assert(dependent_id@ == di);
                assert(edges_for_deps(m, ix, di, deps.take(0)) =~= Seq::<(int, int)>::empty());
            }
            let mut q: usize = 0;
            while q < packages[p].versions[k].1.dependencies.len()
                invariant
                    p < packages.len(),
                    k < packages@[p as int].versions@.len(),
                    q <= packages@[p as int].versions@[k as int].1.dependencies@.len(),
                    psv == packages.deep_view(),
                    psv.len() == packages.len(),
                    pv == psv[p as int],
                    di == id_of(pv.name, pv.versions[k as int].0),
                    deps == pv.versions[k as int].1.dependencies,
                    dependent_id@ == di,
                    m == ids@,
                    ix == idx@,
                    edges_as_int(edges@) == spec_edges_with(m, ix, psv.take(p as int))
                        + edges_for_versions(m, ix, pv.name, pv.versions.take(k as int))
                        + edges_for_deps(m, ix, di, deps.take(q as int)),
                decreases packages@[p as int].versions@[k as int].1.dependencies@.len() - q,
            {
                let dname = &packages[p].versions[k].1.dependencies[q].0;
                let range = &packages[p].versions[k].1.dependencies[q].1;
                let ghost cands = spec_lookup(ix, deps[q as int].0);
                proof {
                    assert(dname@ == deps[q as int].0);
                    assert(range@ == deps[q as int].1);
                }
                if range_is_valid(range.as_str()) {
                    proof {
                        assert(edges_for_candidates(m, di, dname@, range@, cands.take(0)) =~= Seq::<
                            (int, int),
                        >::empty());
                    }
                    let n = idx.candidate_count(dname);
                    let mut c: usize = 0;
                    while c < n
                        invariant
                            p < packages.len(),
                            k < packages@[p as int].versions@.len(),
                            q < packages@[p as int].versions@[k as int].1.dependencies@.len(),
                            c <= n,
                            psv == packages.deep_view(),
                            psv.len() == packages.len(),
                            pv == psv[p as int],
                            di == id_of(pv.name, pv.versions[k as int].0),
                            deps == pv.versions[k as int].1.dependencies,
                            dependent_id@ == di,
                            dname@ == deps[q as int].0,
                            range@ == deps[q as int].1,
                            cands == spec_lookup(ix, deps[q as int].0),
                            n == cands.len(),
                            m == ids@,
                            ix == idx@,
                            edges_as_int(edges@) == spec_edges_with(m, ix, psv.take(p as int))
                                + edges_for_versions(m, ix, pv.name, pv.versions.take(k as int))
                                + edges_for_deps(m, ix, di, deps.take(q as int))
                                + edges_for_candidates(m, di, dname@, range@, cands.take(c as int)),
                        decreases n - c,
                    {
                        let w = idx.candidate(dname, c);
                        let ghost before = edges@;
                        if version_satisfies(range.as_str(), w.as_str()) {
                            let target_id = make_id(dname, w);
                            if let Some(from) = ids.find(&dependent_id) {
                                if let Some(to) = ids.find(&target_id) {
                                    if from != to {
                                        edges.push((from, to));
                                    }
                                }
                            }
                        }
                        proof {
                            assert(cands.take(c as int + 1).drop_last() =~= cands.take(c as int));
                            assert(cands.take(c as int + 1).last() == cands[c as int]);
                            assert(edges_as_int(edges@) =~= edges_as_int(before)
                                + edge_for_candidate(m, di, dname@, range@, cands[c as int]));
                        }
                        c = c + 1;
                    }
                    proof {
                        assert(cands.take(n as int) =~= cands);
                    }
                } else {
                    proof {
                        lemma_bad_range_no_edges(m, di, dname@, range@, cands);
                    }
                }
                proof {
                    assert(deps.take(q as int + 1).drop_last() =~= deps.take(q as int));
                    assert(deps.take(q as int + 1).last() == deps[q as int]);
                    assert(edges_as_int(edges@) =~= spec_edges_with(m, ix, psv.take(p as int))
                        + edges_for_versions(m, ix, pv.name, pv.versions.take(k as int))
                        + edges_for_deps(m, ix, di, deps.take(q as int + 1)));
                }
                q = q + 1;
            }
            proof {
                assert(deps.take(q as int) =~= deps);
                assert(pv.versions.take(k as int + 1).drop_last() =~= pv.versions.take(k as int));
                assert(pv.versions.take(k as int + 1).last() == pv.versions[k as int]);
                assert(edges_as_int(edges@) =~= spec_edges_with(m, ix, psv.take(p as int))
                    + edges_for_versions(m, ix, pv.name, pv.versions.take(k as int + 1)));
            }
            k = k + 1;
        }
        proof {
            assert(pv.versions.take(k as int) =~= pv.versions);
            assert(psv.take(p as int + 1).drop_last() =~= psv.take(p as int));
            assert(psv.take(p as int + 1).last() == psv[p as int]);
            assert(edges_as_int(edges@) =~= spec_edges_with(m, ix, psv.take(p as int + 1)));
        }
        p = p + 1;
    }
    proof {
        assert(psv.take(p as int) =~= psv);
    }
    edges
}

/// Runs all four passes on a snapshot: the node list, then the version
/// index and the identifier map, both completed before the edge pass
/// begins, then the edge list. The result is exactly the model's node and
/// edge sequences for this snapshot, whatever the iteration order inside
/// each record.
pub fn build_graph_model(packages: &Vec<PackageInfo>) -> (r: (Vec<Node>, Vec<(usize, usize)>))
    ensures
        r.0.deep_view() == spec_nodes(packages.deep_view()),
        edges_as_int(r.1@) == spec_edges(packages.deep_view()),
{
    let nodes = build_nodes(packages);
    let index = create_id_to_versions_map(packages);
    let ids = build_id_map(&nodes);
    let edges = build_edges(packages, &index, &ids);
    (nodes, edges)
}

} // verus!
