use depgraph::builder::{build_graph_model, build_nodes, build_id_map, create_id_to_versions_map};
use depgraph::graph::{build_graph, to_petgraph};
use depgraph::records::{PackageInfo, VersionInfo, Node};

fn version(deps: Vec<(&str, &str)>, ts: &str) -> VersionInfo {
    let mut dependencies: Vec<(String, String)> = Vec::new();
    for (n, r) in deps {
        dependencies.push((n.to_string(), r.to_string()));
    }
    VersionInfo { dependencies, timestamp: ts.to_string() }
}

fn package(name: &str, versions: Vec<(&str, VersionInfo)>) -> PackageInfo {
    let mut vs: Vec<(String, VersionInfo)> = Vec::new();
    for (v, info) in versions {
        vs.push((v.to_string(), info));
    }
    PackageInfo { versions: vs, name: name.to_string() }
}

fn ids(nodes: &[Node]) -> Vec<String> {
    nodes.iter().map(|n| n.identifier()).collect()
}

fn edge_id_pairs(nodes: &[Node], edges: &[(usize, usize)]) -> Vec<(String, String)> {
    let mut pairs: Vec<(String, String)> = edges
        .iter()
        .map(|&(a, b)| (nodes[a].identifier(), nodes[b].identifier()))
        .collect();
    pairs.sort();
    pairs
}

#[test]
fn scenario_caret_range_picks_matching_version() {
    let snapshot = vec![
        package("A", vec![("1.0.0", version(vec![("B", "^1.2.0")], "t0"))]),
        package("B", vec![("1.2.5", version(vec![], "t1")), ("2.0.0", version(vec![], "t2"))]),
    ];
    let (nodes, edges) = build_graph_model(&snapshot);
    assert_eq!(ids(&nodes), vec!["A-1.0.0", "B-1.2.5", "B-2.0.0"]);
    assert_eq!(edges, vec![(0, 1)]);
}

#[test]
fn scenario_fan_out_one_edge_per_satisfying_version() {
    let snapshot = vec![
        package("A", vec![("1.0.0", version(vec![("B", "^1.2.0")], "t0"))]),
        package(
            "B",
            vec![
                ("1.2.1", version(vec![], "t1")),
                ("1.2.9", version(vec![], "t2")),
                ("1.3.0", version(vec![], "t3")),
            ],
        ),
    ];
    let (nodes, edges) = build_graph_model(&snapshot);
    assert_eq!(nodes.len(), 4);
    assert_eq!(edges, vec![(0, 1), (0, 2), (0, 3)]);
}

#[test]
fn scenario_unknown_dependency_package_yields_no_edges() {
    let snapshot = vec![package("A", vec![("1.0.0", version(vec![("C", "^1.0.0")], "t0"))])];
    let (nodes, edges) = build_graph_model(&snapshot);
    assert_eq!(nodes.len(), 1);
    assert!(edges.is_empty());
}

#[test]
fn malformed_range_skips_declaration_only() {
    let snapshot = vec![
        package(
            "A",
            vec![(
                "1.0.0",
                version(vec![("B", "not-a-valid-range"), ("C", "^0.3.0")], "t0"),
            )],
        ),
        package("B", vec![("1.2.5", version(vec![], "t1"))]),
        package("C", vec![("0.3.7", version(vec![], "t2"))]),
    ];
    let (nodes, edges) = build_graph_model(&snapshot);
    let pairs = edge_id_pairs(&nodes, &edges);
    assert_eq!(pairs, vec![("A-1.0.0".to_string(), "C-0.3.7".to_string())]);
}

#[test]
fn malformed_candidate_version_skips_candidate_only() {
    let snapshot = vec![
        package("A", vec![("1.0.0", version(vec![("B", ">=1.0.0")], "t0"))]),
        package(
            "B",
            vec![("abc", version(vec![], "t1")), ("1.2.5", version(vec![], "t2"))],
        ),
    ];
    let (nodes, edges) = build_graph_model(&snapshot);
    // the unparseable version still becomes a node, it just never matches
    assert_eq!(nodes.len(), 3);
    assert_eq!(edge_id_pairs(&nodes, &edges), vec![("A-1.0.0".to_string(), "B-1.2.5".to_string())]);
}

#[test]
fn no_edge_from_a_node_to_itself() {
    let snapshot = vec![package("A", vec![("1.0.0", version(vec![("A", "=1.0.0")], "t0"))])];
    let (nodes, edges) = build_graph_model(&snapshot);
    assert_eq!(nodes.len(), 1);
    assert!(edges.is_empty());
}

#[test]
fn self_dependency_still_links_other_versions() {
    let snapshot = vec![package(
        "A",
        vec![
            ("1.0.0", version(vec![("A", "^2.0.0")], "t0")),
            ("2.0.0", version(vec![("A", "^2.0.0")], "t1")),
        ],
    )];
    let (nodes, edges) = build_graph_model(&snapshot);
    assert_eq!(nodes.len(), 2);
    // version 1.0.0 gains the edge to 2.0.0; version 2.0.0 would only
    // match itself, so it gains none
    assert_eq!(edge_id_pairs(&nodes, &edges), vec![("A-1.0.0".to_string(), "A-2.0.0".to_string())]);
}

#[test]
fn node_count_is_sum_of_version_counts() {
    let snapshot = vec![
        package("A", vec![("1.0.0", version(vec![], "t")), ("1.1.0", version(vec![], "t"))]),
        package("B", vec![]),
        package("C", vec![("0.1.0", version(vec![], "t"))]),
    ];
    let (nodes, _) = build_graph_model(&snapshot);
    assert_eq!(nodes.len(), 3);
}

#[test]
fn construction_is_idempotent() {
    let snapshot = vec![
        package("A", vec![("1.0.0", version(vec![("B", "^1.2.0")], "t0"))]),
        package("B", vec![("1.2.5", version(vec![], "t1")), ("2.0.0", version(vec![], "t2"))]),
    ];
    let (nodes1, edges1) = build_graph_model(&snapshot);
    let (nodes2, edges2) = build_graph_model(&snapshot);
    assert_eq!(ids(&nodes1), ids(&nodes2));
    assert_eq!(edges1, edges2);
}

#[test]
fn permuted_input_yields_same_node_set_and_edge_set() {
    let a = || package("A", vec![("1.0.0", version(vec![("B", "^1.2.0")], "t0"))]);
    let b = || {
        package("B", vec![("1.2.5", version(vec![], "t1")), ("2.0.0", version(vec![], "t2"))])
    };
    let (nodes1, edges1) = build_graph_model(&vec![a(), b()]);
    let (nodes2, edges2) = build_graph_model(&vec![b(), a()]);
    let mut ids1 = ids(&nodes1);
    let mut ids2 = ids(&nodes2);
    ids1.sort();
    ids2.sort();
    assert_eq!(ids1, ids2);
    assert_eq!(edge_id_pairs(&nodes1, &edges1), edge_id_pairs(&nodes2, &edges2));
}

#[test]
fn version_index_lists_versions_and_replaces_on_duplicate_name() {
    let snapshot = vec![
        package("A", vec![("1.0.0", version(vec![], "t")), ("2.0.0", version(vec![], "t"))]),
        package("B", vec![]),
        package("A", vec![("9.9.9", version(vec![], "t"))]),
    ];
    let idx = create_id_to_versions_map(&snapshot);
    let a = "A".to_string();
    let b = "B".to_string();
    let c = "C".to_string();
    // the later record for "A" replaced the earlier list
    assert_eq!(idx.candidate_count(&a), 1);
    assert_eq!(idx.candidate(&a, 0), "9.9.9");
    // a known package with no versions resolves to an empty list, not an error
    assert_eq!(idx.candidate_count(&b), 0);
    // an unknown package also resolves to an empty list
    assert_eq!(idx.candidate_count(&c), 0);
}

#[test]
fn id_map_resolves_later_node_on_duplicate_identifier() {
    let nodes = vec![
        Node { name: "A".to_string(), version: "1.0.0".to_string(), timestamp: "t0".to_string() },
        Node { name: "A".to_string(), version: "1.0.0".to_string(), timestamp: "t1".to_string() },
        Node { name: "B".to_string(), version: "2.0.0".to_string(), timestamp: "t2".to_string() },
    ];
    let m = build_id_map(&nodes);
    assert_eq!(m.find(&"A-1.0.0".to_string()), Some(1));
    assert_eq!(m.find(&"B-2.0.0".to_string()), Some(2));
    assert_eq!(m.find(&"B-9.9.9".to_string()), None);
}

#[test]
fn node_identifier_joins_name_and_version() {
    let n = Node {
        name: "left-pad".to_string(),
        version: "1.3.0".to_string(),
        timestamp: "t".to_string(),
    };
    assert_eq!(n.identifier(), "left-pad-1.3.0");
}

#[test]
fn build_nodes_carries_timestamps_through() {
    let snapshot = vec![package("A", vec![("1.0.0", version(vec![], "2015-03-22"))])];
    let nodes = build_nodes(&snapshot);
    assert_eq!(nodes.len(), 1);
    assert_eq!(nodes[0].name, "A");
    assert_eq!(nodes[0].version, "1.0.0");
    assert_eq!(nodes[0].timestamp, "2015-03-22");
}

#[test]
fn petgraph_artifact_holds_the_model() {
    let snapshot = vec![
        package("A", vec![("1.0.0", version(vec![("B", "^1.2.0")], "t0"))]),
        package("B", vec![("1.2.5", version(vec![], "t1")), ("2.0.0", version(vec![], "t2"))]),
    ];
    let g = build_graph(&snapshot).unwrap();
    assert_eq!(g.node_count(), 3);
    assert_eq!(g.edge_count(), 1);
    let a = petgraph::graph::NodeIndex::new(0);
    let b = petgraph::graph::NodeIndex::new(1);
    let c = petgraph::graph::NodeIndex::new(2);
    assert!(g.contains_edge(a, b));
    assert!(!g.contains_edge(a, c));
    assert_eq!(g.node_weight(b).unwrap().identifier(), "B-1.2.5");
}

#[test]
fn to_petgraph_rejects_dangling_endpoints() {
    let nodes = vec![Node {
        name: "A".to_string(),
        version: "1.0.0".to_string(),
        timestamp: "t".to_string(),
    }];
    let edges_ok: Vec<(usize, usize)> = vec![(0, 0)];
    let edges_bad: Vec<(usize, usize)> = vec![(0, 1)];
    assert!(to_petgraph(&nodes, &edges_ok).is_some());
    assert!(to_petgraph(&nodes, &edges_bad).is_none());
}
