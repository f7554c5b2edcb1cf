//! Mathematical model of the vectors and matrices the engine works on, the
//! lemmas about inner products that the proofs need, and the executable
//! inner products themselves.
use vstd::prelude::*;

verus! {

/// Largest magnitude of any entry of the problem data or the iterate.
pub const MAX_ENTRY: i64 = 16777216;

/// Largest problem dimension (primal size or constraint count).
pub const MAX_DIM: usize = 16777216;

/// `MAX_ENTRY` as a mathematical integer.
pub open spec fn entry_bound() -> int {
    16777216
}

/// `MAX_DIM` as a mathematical integer.
pub open spec fn dim_bound() -> int {
    16777216
}

/// The integer values of a vector of `i64`.
pub open spec fn ints64(s: Seq<i64>) -> Seq<int> {
    s.map_values(|e: i64| e as int)
}

/// The integer values of a vector of `i128`.
pub open spec fn ints128(s: Seq<i128>) -> Seq<int> {
    s.map_values(|e: i128| e as int)
}

/// The integer values of a matrix stored as a vector of rows.
pub open spec fn ints_mat(rows: Seq<Vec<i64>>) -> Seq<Seq<int>> {
    rows.map_values(|r: Vec<i64>| ints64(r@))
}

/// The zero vector of length `n`.
pub open spec fn zero_vec(n: nat) -> Seq<int> {
    Seq::new(n, |i: int| 0int)
}

/// Sum of `a[t] * b[t]` over the first `k` positions.
pub open spec fn dot_upto(a: Seq<int>, b: Seq<int>, k: int) -> int
    decreases k,
{
    if k <= 0 {
        0
    } else {
        dot_upto(a, b, k - 1) + a[k - 1] * b[k - 1]
    }
}

/// Inner product of two vectors of equal length.
pub open spec fn dot(a: Seq<int>, b: Seq<int>) -> int {
    dot_upto(a, b, a.len() as int)
}

/// The product `M x` of a matrix, given as its rows, and a vector.
pub open spec fn mat_vec(m: Seq<Seq<int>>, x: Seq<int>) -> Seq<int> {
    Seq::new(m.len(), |i: int| dot(m[i], x))
}

/// Column `j` of a matrix given as its rows.
pub open spec fn column(m: Seq<Seq<int>>, j: int) -> Seq<int> {
    Seq::new(m.len(), |i: int| m[i][j])
}

/// The product `Mᵗ z` of the transpose of a matrix with `n` columns and a vector.
pub open spec fn mat_t_vec(m: Seq<Seq<int>>, z: Seq<int>, n: nat) -> Seq<int> {
    Seq::new(n, |j: int| dot(column(m, j), z))
}

/// Every entry lies within `[-bound, bound]`.
pub open spec fn bounded_by(s: Seq<int>, bound: int) -> bool {
    forall|i: int| 0 <= i < s.len() ==> -bound <= #[trigger] s[i] <= bound
}

/// Every row has `n` entries.
pub open spec fn has_columns(m: Seq<Seq<int>>, n: nat) -> bool {
    forall|i: int| 0 <= i < m.len() ==> (#[trigger] m[i]).len() == n
}

/// Every entry of every row lies within `[-bound, bound]`.
pub open spec fn mat_bounded_by(m: Seq<Seq<int>>, bound: int) -> bool {
    forall|i: int| 0 <= i < m.len() ==> bounded_by(#[trigger] m[i], bound)
}

/// One product of two bounded factors is bounded by the product of the bounds.
pub proof fn lemma_product_bound(x: int, y: int, bx: int, by_: int)
    requires
        -bx <= x <= bx,
        -by_ <= y <= by_,
    ensures
        -(bx * by_) <= x * y <= bx * by_,
{
    assert(-(bx * by_) <= x * y <= bx * by_) by (nonlinear_arith)
        requires
            -bx <= x <= bx,
            -by_ <= y <= by_,
    ;
}

/// Scaling a non-negative constant by a smaller count gives a smaller value.
pub proof fn lemma_scale_le(k: int, kmax: int, c: int)
    requires
        0 <= k <= kmax,
        0 <= c,
    ensures
        k * c <= kmax * c,
{
    assert(k * c <= kmax * c) by (nonlinear_arith)
        requires
            0 <= k <= kmax,
            0 <= c,
    ;
}

/// One more bounded term keeps a running sum within the linear bound.
pub proof fn lemma_acc_step(acc: int, t: int, i: int, c: int, n: int, nmax: int)
    requires
        0 <= i < n <= nmax,
        0 <= c,
        -(i * c) <= acc <= i * c,
        -c <= t <= c,
    ensures
        -((i + 1) * c) <= acc + t <= (i + 1) * c,
        (i + 1) * c <= n * c <= nmax * c,
{
    assert((i + 1) * c == i * c + c) by (nonlinear_arith);
    assert((i + 1) * c <= n * c <= nmax * c) by (nonlinear_arith)
        requires
            0 <= i < n <= nmax,
            0 <= c,
    ;
}

/// Inner products are linear in their terms: if every term of `a·b` is
/// `c1` times the term of `a1·b1` plus `c2` times the term of `a2·b2`, the
/// partial sums relate in the same way.
pub proof fn lemma_dot_linear(
    a: Seq<int>,
    b: Seq<int>,
    a1: Seq<int>,
    b1: Seq<int>,
    c1: int,
    a2: Seq<int>,
    b2: Seq<int>,
    c2: int,
    k: int,
)
    requires
        forall|t: int| 0 <= t < k ==> #[trigger] (a[t] * b[t]) == c1 * (a1[t] * b1[t]) + c2 * (a2[t]
            * b2[t]),
    ensures
        dot_upto(a, b, k) == c1 * dot_upto(a1, b1, k) + c2 * dot_upto(a2, b2, k),
    decreases k,
{
    if k > 0 {
        lemma_dot_linear(a, b, a1, b1, c1, a2, b2, c2, k - 1);
        let x = dot_upto(a1, b1, k - 1);
        let y = dot_upto(a2, b2, k - 1);
        let p = a1[k - 1] * b1[k - 1];
        let q = a2[k - 1] * b2[k - 1];
        assert(c1 * (x + p) + c2 * (y + q) == c1 * x + c2 * y + c1 * p + c2 * q)
            by (nonlinear_arith);
        assert(a[k - 1] * b[k - 1] == c1 * p + c2 * q);
    } else {
        assert(c1 * 0 + c2 * 0 == 0) by (nonlinear_arith);
    }
}

/// `zᵗ(A x) = xᵗ(Aᵗ z)` for a matrix `A` with `n` columns.
pub proof fn lemma_dot_transpose(m: Seq<Seq<int>>, z: Seq<int>, x: Seq<int>, n: nat)
    requires
        has_columns(m, n),
        z.len() == m.len(),
        x.len() == n,
    ensures
        dot(z, mat_vec(m, x)) == dot(x, mat_t_vec(m, z, n)),
{
    lemma_dot_transpose_upto(m, z, x, n, m.len() as int);
    assert(Seq::new(n, |j: int| dot_upto(column(m, j), z, m.len() as int)) =~= mat_t_vec(m, z, n));
}

/// The first `k` rows of the double sum in `lemma_dot_transpose`.
proof fn lemma_dot_transpose_upto(m: Seq<Seq<int>>, z: Seq<int>, x: Seq<int>, n: nat, k: int)
    requires
        has_columns(m, n),
        z.len() == m.len(),
        x.len() == n,
        0 <= k <= m.len(),
    ensures
        dot_upto(z, mat_vec(m, x), k) == dot_upto(
            x,
            Seq::new(n, |j: int| dot_upto(column(m, j), z, k)),
            n as int,
        ),
    decreases k,
{
    let cur = Seq::new(n, |j: int| dot_upto(column(m, j), z, k));
    if k == 0 {
        lemma_dot_linear(x, cur, x, cur, 0, x, cur, 0, n as int);
    } else {
        lemma_dot_transpose_upto(m, z, x, n, k - 1);
        let prev = Seq::new(n, |j: int| dot_upto(column(m, j), z, k - 1));
        let row = m[k - 1];
        let zk = z[k - 1];
        let rowz = Seq::new(n, |j: int| row[j] * zk);
        assert forall|t: int| 0 <= t < n implies #[trigger] (x[t] * cur[t]) == 1 * (x[t] * prev[t])
            + 1 * (x[t] * rowz[t]) by {
            assert(column(m, t)[k - 1] == row[t]);
            assert(x[t] * (prev[t] + rowz[t]) == x[t] * prev[t] + x[t] * rowz[t])
                by (nonlinear_arith);
        }
        lemma_dot_linear(x, cur, x, prev, 1, x, rowz, 1, n as int);
        assert forall|t: int| 0 <= t < n implies #[trigger] (x[t] * rowz[t]) == zk * (row[t] * x[t])
            + 0 * (row[t] * x[t]) by {
            assert(x[t] * (row[t] * zk) == zk * (row[t] * x[t]) + 0 * (row[t] * x[t]))
                by (nonlinear_arith);
        }
        lemma_dot_linear(x, rowz, row, x, zk, row, x, 0, n as int);
        assert(mat_vec(m, x)[k - 1] == dot_upto(row, x, n as int));
    }
}

/// Inner product of two `i64` vectors whose entries are at most
/// `MAX_ENTRY` in magnitude.
pub fn dot_i64(a: &Vec<i64>, b: &Vec<i64>) -> (r: i128)
    requires
        a.len() == b.len(),
        a.len() <= dim_bound(),
        bounded_by(ints64(a@), entry_bound()),
        bounded_by(ints64(b@), entry_bound()),
    ensures
        r == dot(ints64(a@), ints64(b@)),
        -(a.len() * (entry_bound() * entry_bound())) <= r <= a.len() * (entry_bound()
            * entry_bound()),
{
    let ghost av = ints64(a@);
    let ghost bv = ints64(b@);
    let mut acc: i128 = 0;
    let mut i: usize = 0;
    while i < a.len()
        invariant
            a.len() == b.len(),
            a.len() <= dim_bound(),
            av == ints64(a@),
            bv == ints64(b@),
            bounded_by(av, entry_bound()),
            bounded_by(bv, entry_bound()),
            0 <= i <= a.len(),
            acc == dot_upto(av, bv, i as int),
            -(i * (entry_bound() * entry_bound())) <= acc <= i * (entry_bound() * entry_bound()),
        decreases a.len() - i,
    {
        assert(av[i as int] == a[i as int] as int);
        assert(bv[i as int] == b[i as int] as int);
        proof {
            lemma_product_bound(av[i as int], bv[i as int], entry_bound(), entry_bound());
            lemma_acc_step(
                acc as int,
                av[i as int] * bv[i as int],
                i as int,
                entry_bound() * entry_bound(),
                a.len() as int,
                dim_bound(),
            );
        }
        let t: i128 = (a[i] as i128) * (b[i] as i128);
        acc = acc + t;
        i = i + 1;
    }
    acc
}

/// Inner product of an `i64` vector whose entries are at most `MAX_ENTRY` in
/// magnitude with an `i128` vector whose entries are at most
/// `MAX_DIM * MAX_ENTRY * MAX_ENTRY` in magnitude.
pub fn dot_i64_i128(a: &Vec<i64>, b: &Vec<i128>) -> (r: i128)
    requires
        a.len() == b.len(),
        a.len() <= dim_bound(),
        bounded_by(ints64(a@), entry_bound()),
        bounded_by(ints128(b@), dim_bound() * entry_bound() * entry_bound()),
    ensures
        r == dot(ints64(a@), ints128(b@)),
        -(a.len() * (entry_bound() * (dim_bound() * entry_bound() * entry_bound()))) <= r
            <= a.len() * (entry_bound() * (dim_bound() * entry_bound() * entry_bound())),
{
    let ghost av = ints64(a@);
    let ghost bv = ints128(b@);
    let ghost c = entry_bound() * (dim_bound() * entry_bound() * entry_bound());
    let mut acc: i128 = 0;
    let mut i: usize = 0;
    while i < a.len()
        invariant
            a.len() == b.len(),
            a.len() <= dim_bound(),
            av == ints64(a@),
            bv == ints128(b@),
            c == entry_bound() * (dim_bound() * entry_bound() * entry_bound()),
            bounded_by(av, entry_bound()),
            bounded_by(bv, dim_bound() * entry_bound() * entry_bound()),
            0 <= i <= a.len(),
            acc == dot_upto(av, bv, i as int),
            -(i * c) <= acc <= i * c,
        decreases a.len() - i,
    {
        assert(av[i as int] == a[i as int] as int);
        assert(bv[i as int] == b[i as int] as int);
        proof {
            lemma_product_bound(
                av[i as int],
                bv[i as int],
                entry_bound(),
                dim_bound() * entry_bound() * entry_bound(),
            );
            lemma_acc_step(
                acc as int,
                av[i as int] * bv[i as int],
                i as int,
                c,
                a.len() as int,
                dim_bound(),
            );
        }
        let t: i128 = (a[i] as i128) * b[i];
        acc = acc + t;
        i = i + 1;
    }
    acc
}

/// Inner product of column `j` of a matrix, given as its rows, with a vector
/// `z`: the `j`-th entry of `Mᵗ z`.
pub fn column_dot(m: &Vec<Vec<i64>>, j: usize, z: &Vec<i64>) -> (r: i128)
    requires
        m.len() == z.len(),
        m.len() <= dim_bound(),
        forall|i: int| 0 <= i < m.len() ==> j < (#[trigger] m[i]).len(),
        mat_bounded_by(ints_mat(m@), entry_bound()),
        bounded_by(ints64(z@), entry_bound()),
    ensures
        r == dot(column(ints_mat(m@), j as int), ints64(z@)),
        -(m.len() * (entry_bound() * entry_bound())) <= r <= m.len() * (entry_bound()
            * entry_bound()),
{
    let ghost mv = ints_mat(m@);
    let ghost col = column(mv, j as int);
    let ghost zv = ints64(z@);
    let mut acc: i128 = 0;
    let mut i: usize = 0;
    while i < m.len()
        invariant
            m.len() == z.len(),
            m.len() <= dim_bound(),
            forall|k: int| 0 <= k < m.len() ==> j < (#[trigger] m[k]).len(),
            mv == ints_mat(m@),
            col == column(mv, j as int),
            zv == ints64(z@),
            mat_bounded_by(mv, entry_bound()),
            bounded_by(zv, entry_bound()),
            0 <= i <= m.len(),
            acc == dot_upto(col, zv, i as int),
            -(i * (entry_bound() * entry_bound())) <= acc <= i * (entry_bound() * entry_bound()),
        decreases m.len() - i,
    {
        let row = &m[i];
        assert(mv[i as int] == ints64(row@));
        assert(col[i as int] == row[j as int] as int);
        assert(bounded_by(mv[i as int], entry_bound()));
        assert(zv[i as int] == z[i as int] as int);
        proof {
            lemma_product_bound(col[i as int], zv[i as int], entry_bound(), entry_bound());
            lemma_acc_step(
                acc as int,
                col[i as int] * zv[i as int],
                i as int,
                entry_bound() * entry_bound(),
                m.len() as int,
                dim_bound(),
            );
        }
        let t: i128 = (row[j] as i128) * (z[i] as i128);
        acc = acc + t;
        i = i + 1;
    }
    acc
}

} // verus!
