//! The residual engine: recomputes the KKT residuals, the infeasibility
//! certificate residuals and the equilibration-invariant inner products of
//! the homogeneous embedding from the current iterate.
#![allow(non_snake_case)]
use vstd::prelude::*;
use crate::data::{
    in_range, values_in_range, DefaultProblemData, DefaultVariables, IterateModel, ProblemModel,
};
use crate::linalg::{
    bounded_by, column_dot, dim_bound, dot, dot_i64, dot_i64_i128, entry_bound, ints128, ints64,
    lemma_product_bound, lemma_scale_le, mat_t_vec, mat_vec, zero_vec,
};

verus! {

/// `update` refuses a scale `tau` at or below this floor.
pub const TAU_FLOOR: i64 = 0;

/// Why `update` left the engine unchanged.
#[derive(Clone, Copy, Debug, PartialEq, Eq, Structural)]
pub enum ResidualError {
    /// `tau` is at or below `TAU_FLOOR`: the embedding has degenerated.
    DegenerateScale,
    /// A dimension exceeds `MAX_DIM` or a value exceeds `MAX_ENTRY` in magnitude.
    ValueOutOfRange,
}

/// Residuals of one iterate. The homogeneity residual `rτ` is the fraction
/// `rtau_num / rtau_den`; after an update `rtau_den` is `tau`.
pub struct DefaultResiduals {
    rx: Vec<i128>,
    rz: Vec<i128>,
    rtau_num: i128,
    rtau_den: i128,
    rx_inf: Vec<i128>,
    rz_inf: Vec<i128>,
    dot_qx: i128,
    dot_bz: i128,
    dot_sz: i128,
    dot_xPx: i128,
    Px: Vec<i128>,
}

/// Mathematical model of the engine's fields.
pub ghost struct ResidualsView {
    pub rx: Seq<int>,
    pub rz: Seq<int>,
    pub rtau_num: int,
    pub rtau_den: int,
    pub rx_inf: Seq<int>,
    pub rz_inf: Seq<int>,
    pub dot_qx: int,
    pub dot_bz: int,
    pub dot_sz: int,
    pub dot_xPx: int,
    pub Px: Seq<int>,
}

impl View for DefaultResiduals {
    type V = ResidualsView;

    closed spec fn view(&self) -> ResidualsView {
        ResidualsView {
            rx: ints128(self.rx@),
            rz: ints128(self.rz@),
            rtau_num: self.rtau_num as int,
            rtau_den: self.rtau_den as int,
            rx_inf: ints128(self.rx_inf@),
            rz_inf: ints128(self.rz_inf@),
            dot_qx: self.dot_qx as int,
            dot_bz: self.dot_bz as int,
            dot_sz: self.dot_sz as int,
            dot_xPx: self.dot_xPx as int,
            Px: ints128(self.Px@),
        }
    }
}

impl ResidualsView {
    /// The vector fields have the lengths of a problem with sizes `n`, `m`.
    pub open spec fn sized(self, n: nat, m: nat) -> bool {
        &&& self.rx.len() == n
        &&& self.rz.len() == m
        &&& self.rx_inf.len() == n
        &&& self.rz_inf.len() == m
        &&& self.Px.len() == n
    }
}

/// The residuals of iterate `v` for problem `d`:
/// `Px = P x`, `dot_xPx = xᵗPx`, `dot_qx = q·x`, `dot_bz = b·z`, `dot_sz = s·z`,
/// `rx = -Px - Aᵗz - q τ`, `rz = A x + s - b τ`,
/// `rτ = κ + q·x + b·z + xᵗPx / τ` (as `(κτ + τ q·x + τ b·z + xᵗPx) / τ`),
/// `rx_inf = Px + Aᵗz` and `rz_inf = A x + s`.
pub open spec fn residuals_of(d: ProblemModel, v: IterateModel) -> ResidualsView {
    let Px = mat_vec(d.P, v.x);
    let Atz = mat_t_vec(d.A, v.z, d.n);
    let Ax = mat_vec(d.A, v.x);
    let dot_qx = dot(d.q, v.x);
    let dot_bz = dot(d.b, v.z);
    let dot_xPx = dot(v.x, Px);
    ResidualsView {
        rx: Seq::new(d.n, |i: int| -Px[i] - Atz[i] - d.q[i] * v.tau),
        rz: Seq::new(d.m, |i: int| Ax[i] + v.s[i] - d.b[i] * v.tau),
        rtau_num: v.kappa * v.tau + dot_qx * v.tau + dot_bz * v.tau + dot_xPx,
        rtau_den: v.tau,
        rx_inf: Seq::new(d.n, |i: int| Px[i] + Atz[i]),
        rz_inf: Seq::new(d.m, |i: int| Ax[i] + v.s[i]),
        dot_qx,
        dot_bz,
        dot_sz: dot(v.s, v.z),
        dot_xPx,
        Px,
    }
}

/// The model of a freshly built engine for sizes `n`, `m`: zero vectors,
/// zero inner products and `rτ = 1 / 1`.
pub open spec fn initial_residuals(n: nat, m: nat) -> ResidualsView {
    ResidualsView {
        rx: zero_vec(n),
        rz: zero_vec(m),
        rtau_num: 1,
        rtau_den: 1,
        rx_inf: zero_vec(n),
        rz_inf: zero_vec(m),
        dot_qx: 0,
        dot_bz: 0,
        dot_sz: 0,
        dot_xPx: 0,
        Px: zero_vec(n),
    }
}

/// A zero-filled vector of `n` entries.
fn zeros(n: usize) -> (r: Vec<i128>)
    ensures
        ints128(r@) == zero_vec(n as nat),
{
    let mut r: Vec<i128> = Vec::new();
    while r.len() < n
        invariant
            r.len() <= n,
            forall|k: int| 0 <= k < r.len() ==> r@[k] == 0,
        decreases n - r.len(),
    {
        r.push(0);
    }
    assert(ints128(r@) =~= zero_vec(n as nat));
    r
}

impl DefaultResiduals {
    /// An engine sized for `n` primal variables and `m` constraint rows.
    pub fn new(n: usize, m: usize) -> (r: Self)
        ensures
            r@ == initial_residuals(n as nat, m as nat),
    {
        DefaultResiduals {
            rx: zeros(n),
            rz: zeros(m),
            rtau_num: 1,
            rtau_den: 1,
            rx_inf: zeros(n),
            rz_inf: zeros(m),
            dot_qx: 0,
            dot_bz: 0,
            dot_sz: 0,
            dot_xPx: 0,
            Px: zeros(n),
        }
    }

    /// Recomputes every field from the iterate `vars` of problem `data`.
    ///
    /// Fails with `DegenerateScale` when `tau <= TAU_FLOOR`, otherwise with
    /// `ValueOutOfRange` when the inputs leave the exact range; on failure
    /// the engine is left unchanged. On success every field holds
    /// `residuals_of(data, vars)`, whatever it held before.
    pub fn update(&mut self, vars: &DefaultVariables, data: &DefaultProblemData) -> (r: Result<
        (),
        ResidualError,
    >)
        requires
            data@.shaped(),
            vars@.fits(data@),
            old(self)@.sized(data@.n, data@.m),
        ensures
            vars@.tau <= TAU_FLOOR ==> r == Err::<(), ResidualError>(
                ResidualError::DegenerateScale,
            ),
            vars@.tau > TAU_FLOOR && !in_range(data@, vars@) ==> r == Err::<(), ResidualError>(
                ResidualError::ValueOutOfRange,
            ),
            vars@.tau > TAU_FLOOR && in_range(data@, vars@) ==> r == Ok::<(), ResidualError>(()),
            r is Ok ==> final(self)@ == residuals_of(data@, vars@),
            r is Err ==> final(self)@ == old(self)@,
            final(self)@.sized(data@.n, data@.m),
            r is Ok && data@.objective_psd() ==> final(self)@.dot_xPx >= 0,
    {
        if vars.tau <= TAU_FLOOR {
            return Err(ResidualError::DegenerateScale);
        }
        if !values_in_range(data, vars) {
            return Err(ResidualError::ValueOutOfRange);
        }
        let ghost d = data@;
        let ghost v = vars@;
        let ghost target = residuals_of(d, v);
        let n = data.q.len();
        let m = data.b.len();
        let tau = vars.tau as i128;
        let kappa = vars.kappa as i128;

        // Px = P x
        let mut i: usize = 0;
        while i < n
            invariant
                d == data@,
                v == vars@,
                target == residuals_of(d, v),
                d.shaped(),
                v.fits(d),
                in_range(d, v),
                n == d.n,
                self@.sized(d.n, d.m),
                0 <= i <= n,
                forall|k: int| 0 <= k < i ==> #[trigger] self@.Px[k] == target.Px[k],
                forall|k: int|
                    0 <= k < i ==> -(dim_bound() * entry_bound() * entry_bound())
                        <= #[trigger] self@.Px[k] <= dim_bound() * entry_bound() * entry_bound(),
            decreases n - i,
        {
            assert(d.P[i as int] == ints64(data.P[i as int]@));
            assert(bounded_by(d.P[i as int], entry_bound()));
            let p = dot_i64(&data.P[i], &vars.x);
            proof {
                let len = data.P[i as int].len() as int;
                lemma_scale_le(len, dim_bound(), entry_bound() * entry_bound());
            }
            let ghost prev = self@;
            self.Px[i] = p;
            assert(self@.Px =~= prev.Px.update(i as int, p as int));
            assert(self@.Px[i as int] == target.Px[i as int]);
            i = i + 1;
        }
        assert(self@.Px =~= target.Px);
        assert(bounded_by(self@.Px, dim_bound() * entry_bound() * entry_bound()));
        assert(ints128(self.Px@) == self@.Px);

        // inner products
        let dot_xPx = dot_i64_i128(&vars.x, &self.Px);
        let dot_qx = dot_i64(&data.q, &vars.x);
        let dot_bz = dot_i64(&data.b, &vars.z);
        let dot_sz = dot_i64(&vars.s, &vars.z);
        self.dot_xPx = dot_xPx;
        self.dot_qx = dot_qx;
        self.dot_bz = dot_bz;
        self.dot_sz = dot_sz;
        proof {
            let sq = entry_bound() * entry_bound();
            lemma_scale_le(n as int, dim_bound(), entry_bound() * (dim_bound() * sq));
            lemma_scale_le(n as int, dim_bound(), sq);
            lemma_scale_le(m as int, dim_bound(), sq);
            lemma_product_bound(kappa as int, tau as int, entry_bound(), entry_bound());
            lemma_product_bound(dot_qx as int, tau as int, dim_bound() * sq, entry_bound());
            lemma_product_bound(dot_bz as int, tau as int, dim_bound() * sq, entry_bound());
        }
        self.rtau_num = kappa * tau + dot_qx * tau + dot_bz * tau + dot_xPx;
        self.rtau_den = tau;

        // rx = -Px - Aᵗz - q τ,  rx_inf = Px + Aᵗz
        let mut j: usize = 0;
        while j < n
            invariant
                d == data@,
                v == vars@,
                target == residuals_of(d, v),
                d.shaped(),
                v.fits(d),
                in_range(d, v),
                n == d.n,
                m == d.m,
                tau == v.tau,
                self@.sized(d.n, d.m),
                self@.Px == target.Px,
                bounded_by(self@.Px, dim_bound() * entry_bound() * entry_bound()),
                self@.dot_xPx == target.dot_xPx,
                self@.dot_qx == target.dot_qx,
                self@.dot_bz == target.dot_bz,
                self@.dot_sz == target.dot_sz,
                self@.rtau_num == target.rtau_num,
                self@.rtau_den == target.rtau_den,
                0 <= j <= n,
                forall|k: int| 0 <= k < j ==> #[trigger] self@.rx[k] == target.rx[k],
                forall|k: int| 0 <= k < j ==> #[trigger] self@.rx_inf[k] == target.rx_inf[k],
            decreases n - j,
        {
            assert forall|k: int| 0 <= k < data.A.len() implies j < (#[trigger] data.A[k]).len()
                by {
                assert(d.A[k] == ints64(data.A[k]@));
            }
            let atz = column_dot(&data.A, j, &vars.z);
            assert(self@.Px[j as int] == self.Px[j as int] as int);
            assert(d.q[j as int] == data.q[j as int] as int);
            proof {
                lemma_scale_le(m as int, dim_bound(), entry_bound() * entry_bound());
                lemma_product_bound(d.q[j as int], tau as int, entry_bound(), entry_bound());
            }
            let px = self.Px[j];
            let ghost prev = self@;
            let rxj = -px - atz - (data.q[j] as i128) * tau;
            self.rx[j] = rxj;
            self.rx_inf[j] = px + atz;
            assert(self@.rx =~= prev.rx.update(j as int, rxj as int));
            assert(self@.rx_inf =~= prev.rx_inf.update(j as int, px + atz));
            assert(target.rx[j as int] == rxj);
            j = j + 1;
        }

        assert(self@.rx =~= target.rx);
        assert(self@.rx_inf =~= target.rx_inf);

        // rz = A x + s - b τ,  rz_inf = A x + s
        let mut i: usize = 0;
        while i < m
            invariant
                d == data@,
                v == vars@,
                target == residuals_of(d, v),
                d.shaped(),
                v.fits(d),
                in_range(d, v),
                n == d.n,
                m == d.m,
                tau == v.tau,
                self@.sized(d.n, d.m),
                self@.rx == target.rx,
                self@.rx_inf == target.rx_inf,
                self@.Px == target.Px,
                self@.dot_xPx == target.dot_xPx,
                self@.dot_qx == target.dot_qx,
                self@.dot_bz == target.dot_bz,
                self@.dot_sz == target.dot_sz,
                self@.rtau_num == target.rtau_num,
                self@.rtau_den == target.rtau_den,
                0 <= i <= m,
                forall|k: int| 0 <= k < i ==> #[trigger] self@.rz[k] == target.rz[k],
                forall|k: int| 0 <= k < i ==> #[trigger] self@.rz_inf[k] == target.rz_inf[k],
            decreases m - i,
        {
            assert(d.A[i as int] == ints64(data.A[i as int]@));
            assert(bounded_by(d.A[i as int], entry_bound()));
            let ax = dot_i64(&data.A[i], &vars.x);
            assert(d.b[i as int] == data.b[i as int] as int);
            assert(v.s[i as int] == vars.s[i as int] as int);
            proof {
                lemma_scale_le(n as int, dim_bound(), entry_bound() * entry_bound());
                lemma_product_bound(d.b[i as int], tau as int, entry_bound(), entry_bound());
            }
            let si = vars.s[i] as i128;
            let ghost prev = self@;
            let rzi = ax + si - (data.b[i] as i128) * tau;
            self.rz[i] = rzi;
            self.rz_inf[i] = ax + si;
            assert(self@.rz =~= prev.rz.update(i as int, rzi as int));
            assert(self@.rz_inf =~= prev.rz_inf.update(i as int, ax + si));
            assert(target.rz[i as int] == rzi);
            i = i + 1;
        }
        assert(self@.rz =~= target.rz);
        assert(self@.rz_inf =~= target.rz_inf);
        Ok(())
    }

    /// Whether the buffers are sized for `n` primal variables and `m`
    /// constraint rows.
    pub fn is_sized_for(&self, n: usize, m: usize) -> (r: bool)
        ensures
            r == self@.sized(n as nat, m as nat),
    {
        self.rx.len() == n && self.rz.len() == m && self.rx_inf.len() == n && self.rz_inf.len()
            == m && self.Px.len() == n
    }

    /// Stationarity residual `rx`.
    pub fn rx(&self) -> (r: &Vec<i128>)
        ensures
            ints128(r@) == self@.rx,
    {
        &self.rx
    }

    /// Primal-feasibility residual `rz`.
    pub fn rz(&self) -> (r: &Vec<i128>)
        ensures
            ints128(r@) == self@.rz,
    {
        &self.rz
    }

    /// Dual-infeasibility certificate residual `rx_inf`.
    pub fn rx_inf(&self) -> (r: &Vec<i128>)
        ensures
            ints128(r@) == self@.rx_inf,
    {
        &self.rx_inf
    }

    /// Primal-infeasibility certificate residual `rz_inf`.
    pub fn rz_inf(&self) -> (r: &Vec<i128>)
        ensures
            ints128(r@) == self@.rz_inf,
    {
        &self.rz_inf
    }

    /// The cached product `P x`.
    pub fn Px(&self) -> (r: &Vec<i128>)
        ensures
            ints128(r@) == self@.Px,
    {
        &self.Px
    }

    /// Numerator of the homogeneity residual `rτ`.
    pub fn rtau_num(&self) -> (r: i128)
        ensures
            r == self@.rtau_num,
    {
        self.rtau_num
    }

    /// Denominator of the homogeneity residual `rτ`: the `tau` of the last update, 1 before any.
    pub fn rtau_den(&self) -> (r: i128)
        ensures
            r == self@.rtau_den,
    {
        self.rtau_den
    }

    /// Inner product `q·x`.
    pub fn dot_qx(&self) -> (r: i128)
        ensures
            r == self@.dot_qx,
    {
        self.dot_qx
    }

    /// Inner product `b·z`.
    pub fn dot_bz(&self) -> (r: i128)
        ensures
            r == self@.dot_bz,
    {
        self.dot_bz
    }

    /// Complementarity product `s·z`.
    pub fn dot_sz(&self) -> (r: i128)
        ensures
            r == self@.dot_sz,
    {
        self.dot_sz
    }

    /// Quadratic term `xᵗPx`.
    pub fn dot_xPx(&self) -> (r: i128)
        ensures
            r == self@.dot_xPx,
    {
        self.dot_xPx
    }
}

} // verus!
