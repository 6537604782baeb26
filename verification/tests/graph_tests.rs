use graph_reps::Edge;
use graph_reps::Graph;
use graph_reps::IncEntry;
use graph_reps::Vertex;

fn vx(name: &str) -> Vertex {
    Vertex::new(name.to_string())
}

fn ed(a: &str, b: &str, weight: u32) -> Edge {
    Edge::new(vx(a), vx(b), weight)
}

fn count_some(matrix: &Vec<Vec<Option<u32>>>) -> usize {
    matrix
        .iter()
        .map(|row| row.iter().filter(|c| c.is_some()).count())
        .sum()
}

#[test]
fn new_graph_is_empty() {
    let g = Graph::new(true);
    assert_eq!(g.edge_count, 0);
    assert_eq!(g.vertices.len(), 0);
    assert!(g.directed);
    let m = g.adjacency_matrix();
    assert!(m.is_empty());
    let inc = g.incidence_matrix();
    assert!(inc.is_empty());
}

#[test]
fn undirected_cycle_scenario() {
    let w = 1.0f32.to_bits();
    let mut g = Graph::new(false);
    for name in ["A", "B", "C", "D", "E"] {
        g.add_vertex(vx(name));
    }
    for (a, b) in [("A", "C"), ("C", "E"), ("E", "B"), ("B", "D"), ("D", "A")] {
        g.add_edge(ed(a, b, w)).unwrap();
    }
    assert_eq!(g.edge_count, 5);

    let m = g.adjacency_matrix();
    assert_eq!(m.len(), 5);
    for row in &m {
        assert_eq!(row.len(), 5);
    }
    for i in 0..5 {
        for j in 0..5 {
            assert_eq!(m[i][j], m[j][i]);
        }
    }
    assert_eq!(count_some(&m), 10);
    for row in &m {
        for cell in row {
            if let Some(bits) = cell {
                assert_eq!(f32::from_bits(*bits), 1.0);
            }
        }
    }

    let inc = g.incidence_matrix();
    assert_eq!(inc.len(), 5);
    for row in &inc {
        assert_eq!(row.len(), 5);
    }
    for c in 0..5 {
        let mut nonzero = 0;
        for r in 0..5 {
            match inc[r][c] {
                IncEntry::Zero => {}
                IncEntry::Pos(bits) => {
                    nonzero += 1;
                    assert_eq!(f32::from_bits(bits), 1.0);
                }
                IncEntry::Neg(_) => panic!("undirected incidence entries carry no sign"),
            }
        }
        assert_eq!(nonzero, 2);
    }
}

#[test]
fn missing_vertex1_leaves_graph_unchanged() {
    let mut g = Graph::new(false);
    for name in ["A", "B", "C", "D", "E"] {
        g.add_vertex(vx(name));
    }
    let err = g.add_edge(ed("Z", "B", 1.0f32.to_bits())).unwrap_err();
    assert_eq!(err.0, "Z");
    assert_eq!(g.edge_count, 0);
    let (adjacents, indices) = g.csr_representation();
    assert_eq!(indices, vec![0, 0, 0, 0, 0, 0]);
    assert_eq!(adjacents, vec![None]);
}

#[test]
fn missing_vertex2_fails_after_first_endpoint_was_touched() {
    let mut g = Graph::new(false);
    g.add_vertex(vx("A"));
    let err = g.add_edge(ed("A", "B", 7)).unwrap_err();
    assert_eq!(err.0, "B");
    assert_eq!(g.edge_count, 0);
    // The first endpoint already holds the edge: its degree is visible in CSR.
    let (adjacents, indices) = g.csr_representation();
    assert_eq!(indices, vec![0, 1]);
    assert_eq!(adjacents, vec![Some("B".to_string()), None]);
}

#[test]
fn missing_vertex2_fails_on_directed_graphs_too() {
    let mut g = Graph::new(true);
    g.add_vertex(vx("A"));
    let err = g.add_edge(ed("A", "B", 7)).unwrap_err();
    assert_eq!(err.0, "B");
    assert_eq!(g.edge_count, 0);
}

#[test]
fn edge_count_counts_only_successful_calls() {
    let mut g = Graph::new(true);
    g.add_vertex(vx("A"));
    g.add_vertex(vx("B"));
    g.add_vertex(vx("C"));
    assert!(g.add_edge(ed("A", "B", 1)).is_ok());
    assert!(g.add_edge(ed("Q", "B", 2)).is_err());
    assert!(g.add_edge(ed("B", "C", 3)).is_ok());
    assert!(g.add_edge(ed("C", "Q", 4)).is_err());
    assert!(g.add_edge(ed("C", "A", 5)).is_ok());
    assert_eq!(g.edge_count, 3);
}

#[test]
fn directed_adjacency_is_one_sided() {
    let w = 2.5f32.to_bits();
    let mut g = Graph::new(true);
    g.add_vertex(vx("A"));
    g.add_vertex(vx("B"));
    g.add_edge(ed("A", "B", w)).unwrap();
    let m = g.adjacency_matrix();
    assert_eq!(m[0][1], Some(w));
    assert_eq!(m[1][0], None);
}

#[test]
fn directed_reverse_edge_fills_the_mirrored_cell() {
    let mut g = Graph::new(true);
    g.add_vertex(vx("A"));
    g.add_vertex(vx("B"));
    g.add_edge(ed("A", "B", 3)).unwrap();
    g.add_edge(ed("B", "A", 4)).unwrap();
    let m = g.adjacency_matrix();
    assert_eq!(m[0][1], Some(3));
    assert_eq!(m[1][0], Some(4));
}

#[test]
fn zero_weight_edge_differs_from_no_edge() {
    let w = 0.0f32.to_bits();
    let mut g = Graph::new(false);
    g.add_vertex(vx("A"));
    g.add_vertex(vx("B"));
    g.add_vertex(vx("C"));
    g.add_edge(ed("A", "B", w)).unwrap();
    let m = g.adjacency_matrix();
    assert_eq!(m[0][1], Some(w));
    assert_eq!(m[0][2], None);
}

#[test]
fn directed_incidence_column_sums_to_zero() {
    let w = 4.0f32.to_bits();
    let mut g = Graph::new(true);
    g.add_vertex(vx("A"));
    g.add_vertex(vx("B"));
    g.add_vertex(vx("C"));
    g.add_edge(ed("A", "B", w)).unwrap();
    let inc = g.incidence_matrix();
    assert_eq!(inc.len(), 3);
    for row in &inc {
        assert_eq!(row.len(), 1);
    }
    assert_eq!(inc[0][0], IncEntry::Pos(w));
    assert_eq!(inc[1][0], IncEntry::Neg(w));
    assert_eq!(inc[2][0], IncEntry::Zero);
    match (inc[0][0], inc[1][0]) {
        (IncEntry::Pos(a), IncEntry::Neg(b)) => {
            assert_eq!(f32::from_bits(a) + (-f32::from_bits(b)), 0.0);
        }
        _ => panic!("expected one positive and one negative entry"),
    }
}

#[test]
fn incidence_keeps_first_orientation_of_a_pair() {
    let mut g = Graph::new(false);
    g.add_vertex(vx("A"));
    g.add_vertex(vx("B"));
    g.add_edge(ed("A", "B", 9)).unwrap();
    // The copy stored on B has the same unordered pair, so one column only.
    let inc = g.incidence_matrix();
    assert_eq!(inc.len(), 2);
    assert_eq!(inc[0].len(), 1);
    assert_eq!(inc[0][0], IncEntry::Pos(9));
    assert_eq!(inc[1][0], IncEntry::Pos(9));
}

#[test]
fn parallel_edges_make_one_incidence_column() {
    let mut g = Graph::new(true);
    g.add_vertex(vx("A"));
    g.add_vertex(vx("B"));
    g.add_edge(ed("A", "B", 1)).unwrap();
    g.add_edge(ed("B", "A", 2)).unwrap();
    g.add_edge(ed("A", "B", 3)).unwrap();
    let inc = g.incidence_matrix();
    // All three edges connect the same unordered pair: the first one scanned
    // fixes the single column.
    assert_eq!(inc[0].len(), 1);
    assert_eq!(inc[0][0], IncEntry::Pos(1));
    assert_eq!(inc[1][0], IncEntry::Neg(1));
}

#[test]
fn csr_of_empty_graph_is_a_lone_sentinel() {
    let g = Graph::new(false);
    let (adjacents, indices) = g.csr_representation();
    assert_eq!(indices, vec![0]);
    assert_eq!(adjacents, vec![None]);
}

#[test]
fn csr_offsets_are_prefix_sums_of_degrees() {
    let mut g = Graph::new(false);
    g.add_vertex(vx("A"));
    g.add_vertex(vx("B"));
    g.add_vertex(vx("C"));
    g.add_edge(ed("A", "B", 1)).unwrap();
    g.add_edge(ed("A", "C", 2)).unwrap();
    let (adjacents, indices) = g.csr_representation();
    // Degrees: A holds 2 edges, B and C one copy each.
    assert_eq!(indices, vec![0, 2, 3, 4]);
    assert_eq!(
        adjacents,
        vec![
            Some("B".to_string()),
            Some("C".to_string()),
            Some("A".to_string()),
            Some("A".to_string()),
            None,
        ]
    );
    // The final offset is the sum of all per-vertex edge-list lengths, and
    // the neighbor list without its sentinel is exactly that long.
    assert_eq!(*indices.last().unwrap(), 4);
    assert_eq!(adjacents.len() - 1, *indices.last().unwrap());
}

#[test]
fn csr_directed_counts_only_source_lists() {
    let mut g = Graph::new(true);
    g.add_vertex(vx("A"));
    g.add_vertex(vx("B"));
    g.add_edge(ed("A", "B", 1)).unwrap();
    let (adjacents, indices) = g.csr_representation();
    assert_eq!(indices, vec![0, 1, 1]);
    assert_eq!(adjacents, vec![Some("B".to_string()), None]);
}

#[test]
fn self_loop_is_recorded_twice_on_undirected_graphs() {
    let mut g = Graph::new(false);
    g.add_vertex(vx("A"));
    g.add_edge(ed("A", "A", 6)).unwrap();
    assert_eq!(g.edge_count, 1);
    let m = g.adjacency_matrix();
    assert_eq!(m[0][0], Some(6));
    let (adjacents, indices) = g.csr_representation();
    assert_eq!(indices, vec![0, 2]);
    assert_eq!(
        adjacents,
        vec![Some("A".to_string()), Some("A".to_string()), None]
    );
}

#[test]
fn add_vertex_replaces_and_drops_the_old_edge_list() {
    let mut g = Graph::new(true);
    g.add_vertex(vx("A"));
    g.add_vertex(vx("B"));
    g.add_edge(ed("A", "B", 5)).unwrap();
    g.add_vertex(vx("A"));
    assert_eq!(g.vertices.len(), 2);
    // The fresh vertex kept position 0 but lost the stored edge.
    let (adjacents, indices) = g.csr_representation();
    assert_eq!(indices, vec![0, 0, 0]);
    assert_eq!(adjacents, vec![None]);
    // The counter keeps counting successful calls, not stored edges.
    assert_eq!(g.edge_count, 1);
}

#[test]
fn vertex_and_edge_constructors_copy_keys() {
    let v = Vertex::new("N".to_string());
    assert_eq!(v.value, "N");
    assert_eq!(v.edges.len(), 0);
    let e = Edge::new(vx("N"), vx("M"), 8);
    assert_eq!(e.vertex1, "N");
    assert_eq!(e.vertex2, "M");
    assert_eq!(e.weight, 8);
    let mut v2 = vx("N");
    v2.add_edge(Edge::new(vx("N"), vx("M"), 8));
    assert_eq!(v2.edges.len(), 1);
    assert_eq!(v2.edges[0].vertex2, "M");
}

#[test]
fn empty_string_is_a_valid_key() {
    let mut g = Graph::new(false);
    g.add_vertex(vx(""));
    g.add_vertex(vx("A"));
    g.add_edge(ed("", "A", 1)).unwrap();
    assert_eq!(g.edge_count, 1);
    let m = g.adjacency_matrix();
    assert_eq!(m[0][1], Some(1));
    assert_eq!(m[1][0], Some(1));
    let (adjacents, indices) = g.csr_representation();
    assert_eq!(indices, vec![0, 1, 2]);
    assert_eq!(adjacents, vec![Some("A".to_string()), Some("".to_string()), None]);
}

#[test]
fn adjacency_last_parallel_edge_wins() {
    let mut g = Graph::new(true);
    g.add_vertex(vx("A"));
    g.add_vertex(vx("B"));
    g.add_edge(ed("A", "B", 1)).unwrap();
    g.add_edge(ed("A", "B", 2)).unwrap();
    let m = g.adjacency_matrix();
    assert_eq!(m[0][1], Some(2));
}
