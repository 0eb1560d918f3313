//! Weighted undirected graphs on `n` nodes, stored as a flat adjacency matrix,
//! their preset topologies and their Laplacian `L = D - A`.

use vstd::prelude::*;

verus! {

/// The weight that stands for 1.0: edge weights are fixed-point numbers in
/// thousandths (0.5 is 500, 0.3 is 300).
pub const WEIGHT_UNIT: i32 = 1000;

/// An undirected graph represented as an adjacency matrix.
///
/// The adjacency matrix is stored flat in row-major order: for an n-node
/// graph, `adj[i * n + j] = w` is an edge of weight `w` (in thousandths)
/// between nodes i and j.
#[derive(Debug, Clone)]
pub struct Graph {
    /// Number of nodes.
    pub n: usize,
    /// Flat adjacency matrix (row-major), size n×n.
    pub adj: Vec<i32>,
}

/// Weight of the edge from `i` to `j` in a flat `n`-column matrix.
pub open spec fn edge_weight(adj: Seq<i32>, n: int, i: int, j: int) -> int {
    adj[i * n + j] as int
}

/// The matrix has all `n * n` entries.
pub open spec fn is_square(adj: Seq<i32>, n: int) -> bool {
    n * n <= adj.len()
}

/// Every edge has the same weight in both directions.
pub open spec fn is_symmetric(adj: Seq<i32>, n: int) -> bool {
    forall|i: int, j: int|
        0 <= i < n && 0 <= j < n ==> #[trigger] edge_weight(adj, n, i, j) == edge_weight(
            adj,
            n,
            j,
            i,
        )
}

/// No node has an edge to itself.
pub open spec fn has_no_self_loops(adj: Seq<i32>, n: int) -> bool {
    forall|i: int| 0 <= i < n ==> #[trigger] edge_weight(adj, n, i, i) == 0
}

/// Sum of the weights from node `i` to the other nodes among `0..m`.
pub open spec fn row_prefix_sum(adj: Seq<i32>, n: int, i: int, m: int) -> int
    decreases m,
{
    if m <= 0 {
        0
    } else {
        row_prefix_sum(adj, n, i, m - 1) + if m - 1 == i {
            0
        } else {
            edge_weight(adj, n, i, m - 1)
        }
    }
}

/// Weighted degree of node `i`: the total weight of its edges to the other
/// nodes (the diagonal of `D - A`, a self-loop cancelling out).
pub open spec fn degree(adj: Seq<i32>, n: int, i: int) -> int {
    row_prefix_sum(adj, n, i, n)
}

/// Entry `(i, j)` of the Laplacian `L = D - A`.
pub open spec fn laplacian_entry(adj: Seq<i32>, n: int, i: int, j: int) -> int {
    if i == j {
        degree(adj, n, i)
    } else {
        -edge_weight(adj, n, i, j)
    }
}

/// Sum of the entries `(i, 0..k)` of a flat `n`-column matrix.
pub open spec fn matrix_row_sum(m: Seq<i64>, n: int, i: int, k: int) -> int
    decreases k,
{
    if k <= 0 {
        0
    } else {
        matrix_row_sum(m, n, i, k - 1) + m[i * n + k - 1]
    }
}

/// Position `i * n + j` is inside the matrix and belongs to `(i, j)` alone.
pub proof fn lemma_index(n: int, i: int, j: int)
    requires
        0 <= i < n,
        0 <= j < n,
    ensures
        0 <= i * n + j < n * n,
        forall|a: int, b: int|
            0 <= a < n && 0 <= b < n && #[trigger] (a * n + b) == i * n + j ==> a == i && b == j,
{
    assert(0 <= i * n + j < n * n) by (nonlinear_arith)
        requires
            0 <= i < n,
            0 <= j < n,
    ;
    assert forall|a: int, b: int|
        0 <= a < n && 0 <= b < n && #[trigger] (a * n + b) == i * n + j implies a == i && b
        == j by {
        if a < i {
            assert(a * n + b < i * n + j) by (nonlinear_arith)
                requires
                    a < i,
                    0 <= b < n,
                    0 <= j,
            ;
        } else if a > i {
            assert(a * n + b > i * n + j) by (nonlinear_arith)
                requires
                    a > i,
                    0 <= j < n,
                    0 <= b,
            ;
        }
    }
}


/// Sum of the Laplacian entries `(i, 0..m)`.
pub open spec fn laplacian_row_prefix_sum(adj: Seq<i32>, n: int, i: int, m: int) -> int
    decreases m,
{
    if m <= 0 {
        0
    } else {
        laplacian_row_prefix_sum(adj, n, i, m - 1) + laplacian_entry(adj, n, i, m - 1)
    }
}

proof fn lemma_laplacian_prefix(adj: Seq<i32>, n: int, i: int, m: int)
    requires
        0 <= i < n,
        0 <= m <= n,
    ensures
        laplacian_row_prefix_sum(adj, n, i, m) == if i < m {
            degree(adj, n, i) - row_prefix_sum(adj, n, i, m)
        } else {
            -row_prefix_sum(adj, n, i, m)
        },
    decreases m,
{
    if m > 0 {
        lemma_laplacian_prefix(adj, n, i, m - 1);
    }
}

/// Every row of the Laplacian `L = D - A` sums to zero, for every matrix
/// (self-loops included): the constant vector is in its kernel.
pub proof fn lemma_laplacian_row_sums(adj: Seq<i32>, n: int, i: int)
    requires
        0 <= i < n,
    ensures
        laplacian_row_prefix_sum(adj, n, i, n) == 0,
{
    lemma_laplacian_prefix(adj, n, i, n);
}

proof fn lemma_row_sum_matches(lap: Seq<i64>, adj: Seq<i32>, n: int, i: int, k: int)
    requires
        0 <= i < n,
        0 <= k <= n,
        forall|a: int, b: int|
            0 <= a < n && 0 <= b < n ==> #[trigger] lap[a * n + b] == laplacian_entry(adj, n, a, b),
    ensures
        matrix_row_sum(lap, n, i, k) == laplacian_row_prefix_sum(adj, n, i, k),
    decreases k,
{
    if k > 0 {
        lemma_row_sum_matches(lap, adj, n, i, k - 1);
        assert(lap[i * n + (k - 1)] == laplacian_entry(adj, n, i, k - 1));
        assert(i * n + k - 1 == i * n + (k - 1));
    }
}

/// The Laplacian of a symmetric adjacency matrix is symmetric.
pub proof fn lemma_laplacian_symmetric(adj: Seq<i32>, n: int, i: int, j: int)
    requires
        is_symmetric(adj, n),
        0 <= i < n,
        0 <= j < n,
    ensures
        laplacian_entry(adj, n, i, j) == laplacian_entry(adj, n, j, i),
{
    assert(edge_weight(adj, n, i, j) == edge_weight(adj, n, j, i));
}

/// Path topology: `i` and `j` are neighbours in the chain 0-1-...-(n-1).
pub open spec fn path_weight(i: int, j: int) -> int {
    if i + 1 == j || j + 1 == i {
        WEIGHT_UNIT as int
    } else {
        0
    }
}

/// Cycle topology: the path plus the edge closing it (when n > 2).
pub open spec fn cycle_weight(n: int, i: int, j: int) -> int {
    if n > 2 && ((i == 0 && j == n - 1) || (i == n - 1 && j == 0)) {
        WEIGHT_UNIT as int
    } else {
        path_weight(i, j)
    }
}

/// Complete topology: every pair of distinct nodes is connected.
pub open spec fn complete_weight(i: int, j: int) -> int {
    if i != j {
        WEIGHT_UNIT as int
    } else {
        0
    }
}

/// Star topology: node 0 is the hub connected to every other node.
pub open spec fn star_weight(i: int, j: int) -> int {
    if (i == 0) != (j == 0) {
        WEIGHT_UNIT as int
    } else {
        0
    }
}

/// Barbell topology: two cliques `0..m` and `m..2m` joined by the edge `(m-1, m)`.
pub open spec fn barbell_weight(m: int, i: int, j: int) -> int {
    if i != j && ((i < m && j < m) || (i >= m && j >= m)) {
        WEIGHT_UNIT as int
    } else if (i == m - 1 && j == m) || (i == m && j == m - 1) {
        WEIGHT_UNIT as int
    } else {
        0
    }
}

/// The ii-V-I topology on nine nodes: three triads (0-2, 3-5, 6-8), each a
/// path with a half-weight edge between its outer notes, then a 0.3 edge
/// ii -> V (2-3) and a 0.5 edge V -> I (5-6).
pub open spec fn jazz_weight(i: int, j: int) -> int {
    let lo = if i < j {
        i
    } else {
        j
    };
    let hi = if i < j {
        j
    } else {
        i
    };
    if (lo == 0 && hi == 1) || (lo == 1 && hi == 2) || (lo == 3 && hi == 4) || (lo == 4 && hi == 5)
        || (lo == 6 && hi == 7) || (lo == 7 && hi == 8) {
        WEIGHT_UNIT as int
    } else if (lo == 0 && hi == 2) || (lo == 3 && hi == 5) || (lo == 6 && hi == 8) || (lo == 5
        && hi == 6) {
        500
    } else if lo == 2 && hi == 3 {
        300
    } else {
        0
    }
}

/// `g` has `n` nodes, all `n * n` entries, and edge weights given by `w`.
pub open spec fn has_weights(g: Graph, n: int, w: spec_fn(int, int) -> int) -> bool {
    &&& g.n == n
    &&& g.adj@.len() == n * n
    &&& forall|i: int, j: int|
        0 <= i < n && 0 <= j < n ==> #[trigger] edge_weight(g.adj@, n, i, j) == w(i, j)
}

/// A barbell is two cliques joined by one bridge: any two distinct nodes of the
/// same half (`0..m` or `m..2m`) are joined with unit weight, a node is never
/// joined to itself, and across the halves only the bridge `m-1`--`m` exists.
pub proof fn lemma_barbell_shape(m: int, i: int, j: int)
    requires
        m >= 1,
        0 <= i < 2 * m,
        0 <= j < 2 * m,
    ensures
        i != j && i < m && j < m ==> barbell_weight(m, i, j) == WEIGHT_UNIT,
        i != j && m <= i && m <= j ==> barbell_weight(m, i, j) == WEIGHT_UNIT,
        i == j ==> barbell_weight(m, i, j) == 0,
        i < m <= j ==> (barbell_weight(m, i, j) == WEIGHT_UNIT <==> (i == m - 1 && j == m)),
        i < m <= j ==> barbell_weight(m, i, j) == barbell_weight(m, j, i),
{
}

/// In a cycle of more than two nodes each node is joined exactly to its
/// successor and predecessor modulo `n`.
pub proof fn lemma_cycle_shape(n: int, i: int, j: int)
    requires
        n > 2,
        0 <= i < n,
        0 <= j < n,
    ensures
        cycle_weight(n, i, j) == if j == (i + 1) % n || i == (j + 1) % n {
            WEIGHT_UNIT as int
        } else {
            0
        },
{
    if i == n - 1 {
        vstd::arithmetic::div_mod::lemma_mod_self_0(n);
    } else {
        vstd::arithmetic::div_mod::lemma_small_mod((i + 1) as nat, n as nat);
    }
    if j == n - 1 {
        vstd::arithmetic::div_mod::lemma_mod_self_0(n);
    } else {
        vstd::arithmetic::div_mod::lemma_small_mod((j + 1) as nat, n as nat);
    }
}

/// A path joins each node to the next one only; a complete graph joins every
/// two distinct nodes; a star joins the hub 0 to every other node and no two
/// leaves.
pub proof fn lemma_path_complete_star_shape(i: int, j: int)
    requires
        0 <= i,
        0 <= j,
    ensures
        path_weight(i, j) == WEIGHT_UNIT <==> (i == j + 1 || j == i + 1),
        path_weight(i, j) == 0 <==> !(i == j + 1 || j == i + 1),
        complete_weight(i, j) == WEIGHT_UNIT <==> i != j,
        complete_weight(i, i) == 0,
        i > 0 ==> star_weight(0, i) == WEIGHT_UNIT && star_weight(i, 0) == WEIGHT_UNIT,
        i > 0 && j > 0 ==> star_weight(i, j) == 0,
        star_weight(0, 0) == 0,
{
}

/// The ii-V-I graph is three triads `3t, 3t+1, 3t+2` (t = 0, 1, 2), each a
/// unit-weight chain with a half-weight edge between its outer notes; the ii
/// triad reaches the V triad by a 0.3 edge (2-3) and V resolves to I by a 0.5
/// edge (5-6); there are no other edges, and the weights are symmetric.
pub proof fn lemma_jazz_shape(t: int, i: int, j: int)
    requires
        0 <= t < 3,
        0 <= i < 9,
        0 <= j < 9,
    ensures
        jazz_weight(3 * t, 3 * t + 1) == WEIGHT_UNIT,
        jazz_weight(3 * t + 1, 3 * t + 2) == WEIGHT_UNIT,
        jazz_weight(3 * t, 3 * t + 2) == WEIGHT_UNIT / 2,
        jazz_weight(2, 3) * 10 == WEIGHT_UNIT * 3,
        jazz_weight(5, 6) == WEIGHT_UNIT / 2,
        jazz_weight(i, j) == jazz_weight(j, i),
        i / 3 != j / 3 && !((i == 2 && j == 3) || (i == 3 && j == 2) || (i == 5 && j == 6) || (i
            == 6 && j == 5)) ==> jazz_weight(i, j) == 0,
        i == j ==> jazz_weight(i, j) == 0,
{
}

impl Graph {
    /// Create an empty graph with `n` isolated nodes.
    pub fn new(n: usize) -> (g: Self)
        requires
            n * n <= usize::MAX,
        ensures
            g.n == n,
            g.adj@.len() == n * n,
            forall|k: int| 0 <= k < n * n ==> #[trigger] g.adj@[k] == 0,
            forall|i: int, j: int|
                0 <= i < n && 0 <= j < n ==> #[trigger] edge_weight(g.adj@, n as int, i, j) == 0,
    {
        let total = n * n;
        let mut adj: Vec<i32> = Vec::new();
        let mut k: usize = 0;
        while k < total
            invariant
                total == n * n,
                k <= total,
                adj@.len() == k,
                forall|q: int| 0 <= q < k ==> #[trigger] adj@[q] == 0,
            decreases total - k,
        {
            adj.push(0);
            k = k + 1;
        }
        proof {
            assert forall|i: int, j: int| 0 <= i < n && 0 <= j < n implies #[trigger] edge_weight(
                adj@,
                n as int,
                i,
                j,
            ) == 0 by {
                lemma_index(n as int, i, j);
            }
        }
        Graph { n, adj }
    }

    /// Add an undirected edge between nodes `a` and `b` with weight `w` (in thousandths).
    pub fn add_edge(&mut self, a: usize, b: usize, w: i32)
        requires
            a * old(self).n + b < old(self).adj@.len(),
            b * old(self).n + a < old(self).adj@.len(),
        ensures
            final(self).n == old(self).n,
            final(self).adj@ == old(self).adj@.update(a * old(self).n + b, w).update(
                b * old(self).n + a,
                w,
            ),
            a < old(self).n && b < old(self).n && is_square(old(self).adj@, old(self).n as int)
                ==> forall|i: int, j: int|
                0 <= i < old(self).n && 0 <= j < old(self).n ==> #[trigger] edge_weight(
                    final(self).adj@,
                    old(self).n as int,
                    i,
                    j,
                ) == if (i == a && j == b) || (i == b && j == a) {
                    w as int
                } else {
                    edge_weight(old(self).adj@, old(self).n as int, i, j)
                },
            a < old(self).n && b < old(self).n && is_square(old(self).adj@, old(self).n as int)
                && is_symmetric(old(self).adj@, old(self).n as int) ==> is_symmetric(
                final(self).adj@,
                old(self).n as int,
            ),
            a < old(self).n && b < old(self).n && is_square(old(self).adj@, old(self).n as int)
                && has_no_self_loops(old(self).adj@, old(self).n as int) && a != b
                ==> has_no_self_loops(final(self).adj@, old(self).n as int),
    {
        let n = self.n;
        let len = self.adj.len();
        assert(a * n + b < len && b * n + a < len);
        self.adj.set(a * n + b, w);
        self.adj.set(b * n + a, w);
        proof {
            if a < n && b < n && is_square(old(self).adj@, n as int) {
                assert forall|i: int, j: int| 0 <= i < n && 0 <= j < n implies #[trigger] edge_weight(
                    self.adj@,
                    n as int,
                    i,
                    j,
                ) == if (i == a && j == b) || (i == b && j == a) {
                    w as int
                } else {
                    edge_weight(old(self).adj@, n as int, i, j)
                } by {
                    lemma_index(n as int, a as int, b as int);
                    lemma_index(n as int, b as int, a as int);
                    lemma_index(n as int, i, j);
                    let k = i * n + j;
                    if k == b * n + a {
                        assert(i == b && j == a);
                    } else if k == a * n + b {
                        assert(i == a && j == b);
                    } else {
                        assert(!((i == a && j == b) || (i == b && j == a)));
                        assert(self.adj@[k] == old(self).adj@[k]);
                    }
                }
            }
        }
    }

    /// Generate a path graph: nodes connected in a chain 0-1-2-...-(n-1).
    pub fn path(n: usize) -> (g: Self)
        requires
            n * n <= usize::MAX,
        ensures
            has_weights(g, n as int, |i: int, j: int| path_weight(i, j)),
            is_symmetric(g.adj@, n as int),
            has_no_self_loops(g.adj@, n as int),
    {
        let mut g = Self::new(n);
        let last = n.saturating_sub(1);
        let mut i: usize = 0;
        while i < last
            invariant
                last == if n > 0 {
                    n - 1
                } else {
                    0
                },
                i <= last,
                g.n == n,
                g.adj@.len() == n * n,
                forall|a: int, b: int|
                    0 <= a < n && 0 <= b < n ==> #[trigger] edge_weight(g.adj@, n as int, a, b)
                        == if (a + 1 == b && a < i) || (b + 1 == a && b < i) {
                        WEIGHT_UNIT as int
                    } else {
                        0
                    },
            decreases last - i,
        {
            proof {
                lemma_index(n as int, i as int, (i + 1) as int);
                lemma_index(n as int, (i + 1) as int, i as int);
            }
            g.add_edge(i, i + 1, WEIGHT_UNIT);
            i = i + 1;
        }
        g
    }

    /// Generate a cycle graph: path with the ends connected.
    pub fn cycle(n: usize) -> (g: Self)
        requires
            n * n <= usize::MAX,
        ensures
            has_weights(g, n as int, |i: int, j: int| cycle_weight(n as int, i, j)),
            is_symmetric(g.adj@, n as int),
            has_no_self_loops(g.adj@, n as int),
    {
        let mut g = Self::path(n);
        if n > 2 {
            proof {
                lemma_index(n as int, 0, (n - 1) as int);
                lemma_index(n as int, (n - 1) as int, 0);
            }
            g.add_edge(0, n - 1, WEIGHT_UNIT);
        }
        g
    }

    /// Generate a complete graph: every node connects to every other.
    pub fn complete(n: usize) -> (g: Self)
        requires
            n * n <= usize::MAX,
        ensures
            has_weights(g, n as int, |i: int, j: int| complete_weight(i, j)),
            is_symmetric(g.adj@, n as int),
            has_no_self_loops(g.adj@, n as int),
    {
        let mut g = Self::new(n);
        g.add_clique(0, n);
        g
    }

    /// Generate a star graph: node 0 is the hub, all others connect to it.
    pub fn star(n: usize) -> (g: Self)
        requires
            n * n <= usize::MAX,
        ensures
            has_weights(g, n as int, |i: int, j: int| star_weight(i, j)),
            is_symmetric(g.adj@, n as int),
            has_no_self_loops(g.adj@, n as int),
    {
        let mut g = Self::new(n);
        let mut i: usize = 1;
        while i < n
            invariant
                1 <= i,
                i <= n || n == 0,
                g.n == n,
                g.adj@.len() == n * n,
                forall|a: int, b: int|
                    0 <= a < n && 0 <= b < n ==> #[trigger] edge_weight(g.adj@, n as int, a, b)
                        == if (a == 0 && 0 < b < i) || (b == 0 && 0 < a < i) {
                        WEIGHT_UNIT as int
                    } else {
                        0
                    },
            decreases n - i,
        {
            proof {
                lemma_index(n as int, 0, i as int);
                lemma_index(n as int, i as int, 0);
            }
            g.add_edge(0, i, WEIGHT_UNIT);
            i = i + 1;
        }
        g
    }

    /// Generate a barbell graph: two cliques of size `m` joined by a bridge edge.
    pub fn barbell(m: usize) -> (g: Self)
        requires
            m >= 1,
            (2 * m) * (2 * m) <= usize::MAX,
        ensures
            has_weights(g, 2 * m as int, |i: int, j: int| barbell_weight(m as int, i, j)),
            is_symmetric(g.adj@, 2 * m as int),
            has_no_self_loops(g.adj@, 2 * m as int),
    {
        assert(2 * m <= (2 * m) * (2 * m)) by (nonlinear_arith)
            requires
                m >= 1,
        ;
        let n = 2 * m;
        let mut g = Self::new(n);
        // Left clique
        g.add_clique(0, m);
        // Right clique
        g.add_clique(m, n);
        // Bridge
        proof {
            lemma_index(n as int, (m - 1) as int, m as int);
            lemma_index(n as int, m as int, (m - 1) as int);
        }
        g.add_edge(m - 1, m, WEIGHT_UNIT);
        g
    }

    /// Generate a jazz ii-V-I graph: three clusters (ii, V, I chords) connected
    /// by transition edges.
    pub fn jazz_ii_v_i() -> (g: Self)
        ensures
            has_weights(g, 9, |i: int, j: int| jazz_weight(i, j)),
            is_symmetric(g.adj@, 9),
            has_no_self_loops(g.adj@, 9),
    {
        let mut g = Self::new(9);
        proof {
            assert forall|i: int, j: int| 0 <= i < 9 && 0 <= j < 9 implies #[trigger] (i * 9 + j)
                < 81 by {
                lemma_index(9, i, j);
            }
        }
        // ii chord: nodes 0, 1, 2 (minor)
        g.add_edge(0, 1, WEIGHT_UNIT);
        g.add_edge(1, 2, WEIGHT_UNIT);
        g.add_edge(0, 2, 500);
        // V chord: nodes 3, 4, 5 (dominant)
        g.add_edge(3, 4, WEIGHT_UNIT);
        g.add_edge(4, 5, WEIGHT_UNIT);
        g.add_edge(3, 5, 500);
        // I chord: nodes 6, 7, 8 (major)
        g.add_edge(6, 7, WEIGHT_UNIT);
        g.add_edge(7, 8, WEIGHT_UNIT);
        g.add_edge(6, 8, 500);
        // ii -> V transition
        g.add_edge(2, 3, 300);
        // V -> I resolution
        g.add_edge(5, 6, 500);
        g
    }

    /// Connect every pair of distinct nodes in `lo..hi` with a unit edge.
    fn add_clique(&mut self, lo: usize, hi: usize)
        requires
            lo <= hi <= old(self).n,
            is_square(old(self).adj@, old(self).n as int),
        ensures
            final(self).n == old(self).n,
            final(self).adj@.len() == old(self).adj@.len(),
            forall|a: int, b: int|
                0 <= a < old(self).n && 0 <= b < old(self).n ==> #[trigger] edge_weight(
                    final(self).adj@,
                    old(self).n as int,
                    a,
                    b,
                ) == if a != b && lo <= a < hi && lo <= b < hi {
                    WEIGHT_UNIT as int
                } else {
                    edge_weight(old(self).adj@, old(self).n as int, a, b)
                },
    {
        let n = self.n;
        let ghost orig = self.adj@;
        let mut i = lo;
        while i < hi
            invariant
                n == self.n,
                lo <= i <= hi,
                hi <= n,
                self.adj@.len() == orig.len(),
                is_square(orig, n as int),
                forall|a: int, b: int|
                    0 <= a < n && 0 <= b < n ==> #[trigger] edge_weight(self.adj@, n as int, a, b)
                        == if a != b && lo <= a < hi && lo <= b < hi && (a < i || b < i) {
                        WEIGHT_UNIT as int
                    } else {
                        edge_weight(orig, n as int, a, b)
                    },
            decreases hi - i,
        {
            let mut j = i + 1;
            while j < hi
                invariant
                    n == self.n,
                    lo <= i < hi,
                    i + 1 <= j <= hi,
                    hi <= n,
                    self.adj@.len() == orig.len(),
                    is_square(orig, n as int),
                    forall|a: int, b: int|
                        0 <= a < n && 0 <= b < n ==> #[trigger] edge_weight(
                            self.adj@,
                            n as int,
                            a,
                            b,
                        ) == if a != b && lo <= a < hi && lo <= b < hi && (a < i || b < i || (a
                            == i && b < j) || (b == i && a < j)) {
                            WEIGHT_UNIT as int
                        } else {
                            edge_weight(orig, n as int, a, b)
                        },
                decreases hi - j,
            {
                proof {
                    lemma_index(n as int, i as int, j as int);
                    lemma_index(n as int, j as int, i as int);
                }
                self.add_edge(i, j, WEIGHT_UNIT);
                j = j + 1;
            }
            i = i + 1;
        }
    }

    /// Build the Laplacian matrix `L = D - A` (flat, row-major): on the diagonal
    /// the total weight of each node's edges to the other nodes, elsewhere the
    /// negated edge weights; every row sums to zero.
    pub fn laplacian(&self) -> (lap: Vec<i64>)
        requires
            is_square(self.adj@, self.n as int),
        ensures
            lap@.len() == self.n * self.n,
            forall|i: int, j: int|
                0 <= i < self.n && 0 <= j < self.n ==> #[trigger] lap@[i * self.n + j]
                    == laplacian_entry(self.adj@, self.n as int, i, j),
            forall|i: int| 0 <= i < self.n ==> #[trigger] matrix_row_sum(lap@, self.n as int, i, self.n as int) == 0,
    {
        let n = self.n;
        let len = self.adj.len();
        proof {
            if n > 0 {
                lemma_index(n as int, (n - 1) as int, (n - 1) as int);
            }
        }
        let total = n * n;
        let mut lap: Vec<i64> = Vec::new();
        let mut i: usize = 0;
        while i < n
            invariant
                n == self.n,
                total == n * n,
                len == self.adj@.len(),
                is_square(self.adj@, n as int),
                i <= n,
                lap@.len() == i * n,
                forall|a: int, b: int|
                    0 <= a < i && 0 <= b < n ==> #[trigger] lap@[a * n + b] == laplacian_entry(
                        self.adj@,
                        n as int,
                        a,
                        b,
                    ),
            decreases n - i,
        {
            let ghost base = lap@;
            let mut deg: i64 = 0;
            let mut j: usize = 0;
            while j < n
                invariant
                    n == self.n,
                    len == self.adj@.len(),
                    is_square(self.adj@, n as int),
                    i < n,
                    j <= n,
                    deg == row_prefix_sum(self.adj@, n as int, i as int, j as int),
                    -(j as int) * 0x8000_0000 <= deg <= (j as int) * 0x7fff_ffff,
                decreases n - j,
            {
                proof {
                    lemma_index(n as int, i as int, j as int);
                    assert(n * n <= usize::MAX);
                    assert((j as int) * 0x8000_0000 + 0x8000_0000 == (j + 1) * 0x8000_0000);
                    assert((j as int) * 0x7fff_ffff + 0x7fff_ffff == (j + 1) * 0x7fff_ffff);
                    assert((j + 1) * 0x8000_0000 <= 0x1_0000_0000 * 0x8000_0000) by (nonlinear_arith)
                        requires
                            j + 1 <= n,
                            n * n <= usize::MAX,
                            usize::MAX <= u64::MAX,
                    {
                        if n > 0x1_0000_0000 {
                            assert(n * n > 0x1_0000_0000 * 0x1_0000_0000) by (nonlinear_arith)
                                requires n > 0x1_0000_0000;
                        }
                    }
                }
                if j != i {
                    deg = deg + self.adj[i * n + j] as i64;
                }
                j = j + 1;
            }
            let mut k: usize = 0;
            while k < n
                invariant
                    n == self.n,
                    len == self.adj@.len(),
                    is_square(self.adj@, n as int),
                    i < n,
                    k <= n,
                    deg == degree(self.adj@, n as int, i as int),
                    lap@.len() == i * n + k,
                    lap@.subrange(0, i * n) == base.subrange(0, i * n),
                    base.len() == i * n,
                    forall|b: int| 0 <= b < k ==> #[trigger] lap@[i * n + b] == laplacian_entry(
                        self.adj@,
                        n as int,
                        i as int,
                        b,
                    ),
                decreases n - k,
            {
                proof {
                    lemma_index(n as int, i as int, k as int);
                }
                if k == i {
                    lap.push(deg);
                } else {
                    lap.push(-(self.adj[i * n + k] as i64));
                }
                proof {
                    assert(lap@.subrange(0, i * n) =~= base.subrange(0, i * n));
                }
                k = k + 1;
            }
            proof {
                assert((i + 1) * n == i * n + n) by (nonlinear_arith);
                assert forall|a: int, b: int|
                    0 <= a < i + 1 && 0 <= b < n implies #[trigger] lap@[a * n + b]
                    == laplacian_entry(self.adj@, n as int, a, b) by {
                    if a < i {
                        assert(a * n + b < i * n) by (nonlinear_arith)
                            requires
                                a < i,
                                0 <= b < n,
                        ;
                        assert(lap@[a * n + b] == lap@.subrange(0, i * n)[a * n + b]);
                        assert(base[a * n + b] == base.subrange(0, i * n)[a * n + b]);
                    }
                }
            }
            i = i + 1;
        }
        proof {
            assert forall|r: int| 0 <= r < n implies #[trigger] matrix_row_sum(lap@, n as int, r, n as int) == 0 by {
                lemma_row_sum_matches(lap@, self.adj@, n as int, r, n as int);
                lemma_laplacian_row_sums(self.adj@, n as int, r);
            }
        }
        lap
    }
}

} // verus!
