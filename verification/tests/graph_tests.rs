use conservation_composer::graph::{Graph, WEIGHT_UNIT};

fn w(g: &Graph, k: usize) -> f64 {
    g.adj[k] as f64 / WEIGHT_UNIT as f64
}

fn row_degree(g: &Graph, i: usize) -> f64 {
    (0..g.n).map(|j| w(g, i * g.n + j)).sum()
}

#[test]
fn test_path_graph() {
    let g = Graph::path(4);
    assert_eq!(g.n, 4);
    assert_eq!(w(&g, 0 * 4 + 1), 1.0);
    assert_eq!(w(&g, 1 * 4 + 0), 1.0);
    assert_eq!(w(&g, 0 * 4 + 2), 0.0); // no skip connection
}

#[test]
fn test_cycle_graph() {
    let g = Graph::cycle(4);
    assert_eq!(w(&g, 0 * 4 + 3), 1.0); // wrap-around
}

#[test]
fn test_complete_graph() {
    let g = Graph::complete(4);
    assert_eq!(w(&g, 0 * 4 + 1), 1.0);
    assert_eq!(w(&g, 0 * 4 + 0), 0.0); // no self-loop
    let edge_count: usize = g.adj.iter().map(|&v| if v > 0 { 1 } else { 0 }).sum();
    assert_eq!(edge_count, 12); // 4*3 = 12 undirected edges
}

#[test]
fn test_laplacian_row_sum_zero() {
    let g = Graph::cycle(6);
    let lap = g.laplacian();
    for i in 0..6 {
        let row_sum: f64 = (0..6).map(|j| lap[i * 6 + j] as f64 / WEIGHT_UNIT as f64).sum();
        assert!((row_sum).abs() < 1e-10, "Row {} sum = {}", i, row_sum);
    }
}

#[test]
fn test_star_graph() {
    let g = Graph::star(5);
    // Hub (node 0) should have degree 4
    assert_eq!(row_degree(&g, 0), 4.0);
    // Leaf (node 1) should have degree 1
    assert_eq!(row_degree(&g, 1), 1.0);
}

#[test]
fn test_barbell_graph() {
    let g = Graph::barbell(3);
    assert_eq!(g.n, 6);
    // Bridge between nodes 2 and 3
    assert_eq!(w(&g, 2 * 6 + 3), 1.0);
}

#[test]
fn new_graph_is_empty() {
    let g = Graph::new(3);
    assert_eq!(g.n, 3);
    assert_eq!(g.adj, vec![0; 9]);
    let empty = Graph::new(0);
    assert!(empty.adj.is_empty());
    assert!(empty.laplacian().is_empty());
}

#[test]
fn add_edge_is_symmetric_and_overwrites() {
    let mut g = Graph::new(3);
    g.add_edge(0, 2, 250);
    assert_eq!(g.adj[0 * 3 + 2], 250);
    assert_eq!(g.adj[2 * 3 + 0], 250);
    g.add_edge(2, 0, 700);
    assert_eq!(g.adj[0 * 3 + 2], 700);
    assert_eq!(g.adj[2 * 3 + 0], 700);
}

#[test]
fn laplacian_entries() {
    let mut g = Graph::new(3);
    g.add_edge(0, 1, 2000);
    g.add_edge(1, 2, 500);
    let lap = g.laplacian();
    assert_eq!(lap, vec![2000, -2000, 0, -2000, 2500, -500, 0, -500, 500]);
}

#[test]
fn laplacian_ignores_self_loops() {
    let mut g = Graph::path(3);
    g.add_edge(1, 1, 700);
    let lap = g.laplacian();
    assert_eq!(lap, vec![1000, -1000, 0, -1000, 2000, -1000, 0, -1000, 1000]);
    let sums: Vec<i64> = (0..3).map(|i| (0..3).map(|j| lap[i * 3 + j]).sum()).collect();
    assert_eq!(sums, vec![0, 0, 0]);
}

#[test]
fn laplacian_rows_sum_to_zero_for_any_weights() {
    let mut g = Graph::new(4);
    g.add_edge(0, 0, -300);
    g.add_edge(0, 3, 2500);
    g.add_edge(1, 2, -40);
    g.add_edge(2, 2, 9);
    g.adj[3 * 4 + 1] = 77; // an asymmetric entry
    let lap = g.laplacian();
    for i in 0..4 {
        assert_eq!((0..4).map(|j| lap[i * 4 + j]).sum::<i64>(), 0);
    }
}

#[test]
fn small_presets() {
    assert_eq!(Graph::path(1).adj, vec![0]);
    assert!(Graph::path(0).adj.is_empty());
    // A 2-cycle is just a path: no extra closing edge.
    assert_eq!(Graph::cycle(2).adj, vec![0, 1000, 1000, 0]);
    let c3 = Graph::cycle(3);
    assert_eq!(c3.adj, vec![0, 1000, 1000, 1000, 0, 1000, 1000, 1000, 0]);
    assert_eq!(Graph::star(1).adj, vec![0]);
    let b1 = Graph::barbell(1);
    assert_eq!(b1.adj, vec![0, 1000, 1000, 0]);
}

#[test]
fn jazz_preset_weights() {
    let g = Graph::jazz_ii_v_i();
    assert_eq!(g.n, 9);
    assert_eq!(w(&g, 0 * 9 + 1), 1.0);
    assert_eq!(w(&g, 0 * 9 + 2), 0.5);
    assert_eq!(w(&g, 2 * 9 + 3), 0.3);
    assert_eq!(w(&g, 6 * 9 + 5), 0.5);
    assert_eq!(w(&g, 0 * 9 + 8), 0.0);
    let lap = g.laplacian();
    for i in 0..9 {
        assert_eq!((0..9).map(|j| lap[i * 9 + j]).sum::<i64>(), 0);
        for j in 0..9 {
            assert_eq!(lap[i * 9 + j], lap[j * 9 + i]);
        }
    }
}
