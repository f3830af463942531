//! Layout logic of the separable 2-D DCT-II and its inverse.

use vstd::prelude::*;

verus! {

/// Normalisation of the DCT-II.
#[derive(Debug, Clone, Copy, PartialEq, Eq, Structural)]
pub enum Norm {
    /// No normalisation (scipy's `norm=None`, also called "backward"):
    /// `X[k] = 2 * sum_n x[n] cos(pi k (2n+1) / 2N)`.
    Backward,
    /// Orthonormal scaling: `sqrt(1/N)` for `k = 0`, `sqrt(2/N)` otherwise.
    Ortho,
}

/// Direction(s) along which the 1-D transform is applied.
#[derive(Debug, Clone, Copy, PartialEq, Eq, Structural)]
pub enum Axis {
    /// Along each row independently.
    Rows,
    /// Along each column independently.
    Columns,
    /// Full separable 2-D transform.
    Both,
}

/// A matrix given as its rows is rectangular with `cols` columns.
pub open spec fn is_matrix<T>(m: Seq<Vec<T>>, cols: nat) -> bool {
    forall|i: int| 0 <= i < m.len() ==> #[trigger] m[i]@.len() == cols
}

/// `t` is the transpose of the `m.len() x cols` matrix `m`.
pub open spec fn is_transpose_of<T>(t: Seq<Vec<T>>, m: Seq<Vec<T>>, cols: nat) -> bool {
    &&& t.len() == cols
    &&& is_matrix(t, m.len())
    &&& forall|i: int, j: int|
        0 <= i < cols && 0 <= j < m.len() ==> #[trigger] t[i]@[j] == m[j]@[i]
}

/// Transposes a `rows x cols` matrix.
pub fn transpose<T: Copy>(m: &Vec<Vec<T>>, cols: usize) -> (t: Vec<Vec<T>>)
    requires
        is_matrix(m@, cols as nat),
    ensures
        is_transpose_of(t@, m@, cols as nat),
        t@.len() == cols,
        forall|i: int| 0 <= i < cols ==> (#[trigger] t@[i])@.len() == m@.len(),
        forall|i: int, j: int|
            0 <= i < cols && 0 <= j < m@.len() ==> #[trigger] t@[i]@[j] == m@[j]@[i],
{
    let rows = m.len();
    let mut t: Vec<Vec<T>> = Vec::new();
    let mut i: usize = 0;
    while i < cols
        invariant
            i <= cols,
            rows == m@.len(),
            is_matrix(m@, cols as nat),
            t@.len() == i,
            is_matrix(t@, rows as nat),
            forall|a: int, b: int|
                0 <= a < i && 0 <= b < rows ==> #[trigger] t@[a]@[b] == m@[b]@[a],
        decreases cols - i,
    {
        let mut col: Vec<T> = Vec::new();
        let mut j: usize = 0;
        while j < rows
            invariant
                j <= rows,
                i < cols,
                rows == m@.len(),
                is_matrix(m@, cols as nat),
                col@.len() == j,
                forall|b: int| 0 <= b < j ==> #[trigger] col@[b] == m@[b]@[i as int],
            decreases rows - j,
        {
            assert(m@[j as int]@.len() == cols);
            col.push(m[j][i]);
            j = j + 1;
        }
        t.push(col);
        i = i + 1;
    }
    t
}


/// Transposing twice gives back the matrix: the column transform, which
/// transposes, transforms rows and transposes back, leaves the layout as it
/// found it.
pub proof fn lemma_transpose_twice<T>(m: Seq<Vec<T>>, cols: nat, t: Seq<Vec<T>>, u: Seq<Vec<T>>)
    requires
        is_matrix(m, cols),
        is_transpose_of(t, m, cols),
        is_transpose_of(u, t, m.len()),
    ensures
        u.len() == m.len(),
        forall|i: int| 0 <= i < m.len() ==> #[trigger] u[i]@ == m[i]@,
{
    assert forall|i: int| 0 <= i < m.len() implies #[trigger] u[i]@ == m[i]@ by {
        assert(u[i]@.len() == cols);
        assert forall|j: int| 0 <= j < cols implies u[i]@[j] == m[i]@[j] by {
            assert(u[i]@[j] == t[j]@[i]);
        }
        assert(u[i]@ =~= m[i]@);
    }
}

/// `(2j + 1) * k`: the cosine-table entry for frequency `k` and sample `j` is
/// `cos(pi * (2j + 1) * k / 2n)`.
pub open spec fn cos_phase(k: int, j: int) -> int {
    (2 * j + 1) * k
}

/// The `n x n` table of cosine phases, stored row-major: entry `k * n + j`
/// is `(2j + 1) * k`, the multiple of `pi / 2n` whose cosine the transform
/// uses for frequency `k` and sample `j`.
pub fn cos_phase_table(n: usize) -> (table: Vec<u128>)
    requires
        n * n <= usize::MAX,
    ensures
        table@.len() == n * n,
        forall|k: int, j: int|
            0 <= k < n && 0 <= j < n ==> #[trigger] table@[k * n + j] == cos_phase(k, j),
        forall|k: int, j: int|
            0 <= k < n && 0 <= j < n ==> #[trigger] table@[k * n + j] == (2 * j + 1) * k,
{
    let mut table: Vec<u128> = Vec::new();
    let mut k: usize = 0;
    assert(n <= 0x1_0000_0000) by (nonlinear_arith)
        requires
            n * n <= usize::MAX,
            usize::MAX <= 0xffff_ffff_ffff_ffffu64,
    ;
    while k < n
        invariant
            k <= n,
            n <= 0x1_0000_0000,
            n * n <= usize::MAX,
            table@.len() == k * n,
            forall|a: int, b: int|
                0 <= a < k && 0 <= b < n ==> #[trigger] table@[a * n + b] == cos_phase(a, b),
        decreases n - k,
    {
        let mut j: usize = 0;
        while j < n
            invariant
                j <= n,
                k < n,
                n <= 0x1_0000_0000,
                table@.len() == k * n + j,
                forall|a: int, b: int|
                    0 <= a < k && 0 <= b < n ==> #[trigger] table@[a * n + b] == cos_phase(a, b),
                forall|b: int| 0 <= b < j ==> #[trigger] table@[k * n + b] == cos_phase(k as int, b),
            decreases n - j,
        {
            assert((2 * j as u128 + 1) * (k as u128) <= 0x3_0000_0000 * 0x1_0000_0000) by (nonlinear_arith)
                requires
                    j < n,
                    k < n,
                    n <= 0x1_0000_0000,
            ;
            let phase: u128 = (2 * (j as u128) + 1) * (k as u128);
            let ghost before = table@;
            table.push(phase);
            proof {
                assert forall|a: int, b: int| 0 <= a < k && 0 <= b < n implies #[trigger] table@[a
                    * n + b] == cos_phase(a, b) by {
                    assert(a * n + b < k * n) by (nonlinear_arith)
                        requires
                            0 <= a < k,
                            0 <= b < n,
                    ;
                    assert(table@[a * n + b] == before[a * n + b]);
                }
            }
            j = j + 1;
        }
        assert((k + 1) * n == k * n + n) by (nonlinear_arith);
        k = k + 1;
    }
    table
}

/// The 1-D passes that the forward transform makes, in order.
pub open spec fn forward_pass_seq(axis: Axis) -> Seq<Axis> {
    match axis {
        Axis::Rows => seq![Axis::Rows],
        Axis::Columns => seq![Axis::Columns],
        Axis::Both => seq![Axis::Rows, Axis::Columns],
    }
}

/// The 1-D passes that the inverse transform makes, in order.
pub open spec fn inverse_pass_seq(axis: Axis) -> Seq<Axis> {
    match axis {
        Axis::Rows => seq![Axis::Rows],
        Axis::Columns => seq![Axis::Columns],
        Axis::Both => seq![Axis::Columns, Axis::Rows],
    }
}

/// The passes of the forward transform along `axis`: rows, then columns for
/// the full 2-D transform.
pub fn forward_passes(axis: Axis) -> (passes: Vec<Axis>)
    ensures
        passes@ == forward_pass_seq(axis),
{
    match axis {
        Axis::Rows => vec![Axis::Rows],
        Axis::Columns => vec![Axis::Columns],
        Axis::Both => vec![Axis::Rows, Axis::Columns],
    }
}

/// The passes of the inverse transform along `axis`: columns, then rows for
/// the full 2-D transform.
pub fn inverse_passes(axis: Axis) -> (passes: Vec<Axis>)
    ensures
        passes@ == inverse_pass_seq(axis),
{
    match axis {
        Axis::Rows => vec![Axis::Rows],
        Axis::Columns => vec![Axis::Columns],
        Axis::Both => vec![Axis::Columns, Axis::Rows],
    }
}

/// The inverse transform undoes the forward passes in the opposite order,
/// and every pass is along a single axis.
pub proof fn lemma_inverse_passes_reverse_forward(axis: Axis)
    ensures
        inverse_pass_seq(axis) == forward_pass_seq(axis).reverse(),
        forall|i: int|
            0 <= i < forward_pass_seq(axis).len() ==> #[trigger] forward_pass_seq(axis)[i]
                != Axis::Both,
{
    assert(inverse_pass_seq(axis) =~= forward_pass_seq(axis).reverse());
}


/// The phases grow by `2k` from one sample to the next and by `2j + 1` from
/// one frequency to the next, starting from `k` at sample 0 and 0 at
/// frequency 0; samples `j` and `n - 1 - j` have phases summing to `2nk`, so
/// their cosines `cos(pi p / 2n)` are equal for even `k` and opposite for odd
/// `k` (which is what cancels a constant row at every odd frequency).
pub proof fn lemma_cos_phase_structure(n: int, k: int, j: int)
    requires
        0 <= k,
        0 <= j < n,
    ensures
        cos_phase(k, 0) == k,
        cos_phase(0, j) == 0,
        cos_phase(k, j + 1) == cos_phase(k, j) + 2 * k,
        cos_phase(k + 1, j) == cos_phase(k, j) + 2 * j + 1,
        cos_phase(k, j) + cos_phase(k, n - 1 - j) == 2 * n * k,
        cos_phase(k, j) >= 0,
        k > 0 ==> cos_phase(k, j) >= k,
{
    assert(cos_phase(k, 0) == k) by (nonlinear_arith);
    assert(cos_phase(0, j) == 0) by (nonlinear_arith);
    assert(cos_phase(k, j + 1) == cos_phase(k, j) + 2 * k) by (nonlinear_arith);
    assert(cos_phase(k + 1, j) == cos_phase(k, j) + 2 * j + 1) by (nonlinear_arith);
    assert(cos_phase(k, j) + cos_phase(k, n - 1 - j) == 2 * n * k) by (nonlinear_arith);
    assert(cos_phase(k, j) >= 0) by (nonlinear_arith)
        requires
            0 <= k,
            0 <= j,
    ;
    assert(k > 0 ==> cos_phase(k, j) >= k) by (nonlinear_arith)
        requires
            0 <= k,
            0 <= j,
    ;
}

} // verus!
