//! Properties of the residual engine that relate several calls or several
//! problems, proved over the mathematical model.
#![allow(non_snake_case)]
use vstd::prelude::*;
use crate::data::{IterateModel, ProblemModel};
use crate::linalg::{
    dot, lemma_dot_linear, lemma_dot_transpose, mat_t_vec, mat_vec, zero_vec,
};
use crate::residuals::{residuals_of, DefaultResiduals};

verus! {

/// Two engines that were each updated successfully with the same problem
/// data and the same iterate hold identical fields, whatever they held
/// before: an update depends on its inputs alone.
pub proof fn lemma_update_deterministic(
    first: DefaultResiduals,
    second: DefaultResiduals,
    d: ProblemModel,
    v: IterateModel,
)
    requires
        first@ == residuals_of(d, v),
        second@ == residuals_of(d, v),
    ensures
        first@ == second@,
{
}

/// When the objective matrix is positive semidefinite, the quadratic term
/// `xᵗPx` of every iterate is non-negative.
pub proof fn lemma_psd_quadratic_nonneg(d: ProblemModel, v: IterateModel)
    requires
        d.objective_psd(),
        v.fits(d),
    ensures
        residuals_of(d, v).dot_xPx >= 0,
{
    assert(v.x.len() == d.n);
    let px = mat_vec(d.P, v.x);
    assert(dot(v.x, px) >= 0);
}

/// Diagonal equilibration leaves `q·x`, `b·z`, `s·z` and `xᵗPx` unchanged.
///
/// The scaled problem `e` and iterate `w` come from `d` and `v` through the
/// diagonal scalings `dd` (primal side) and `ee` (constraint side):
/// `P̂ = D P D`, `q̂ = D q`, `Â = E A D`, `b̂ = E b`, `x = D x̂`,
/// `z = E ẑ` and `ŝ = E s`.
pub proof fn lemma_equilibration_invariance(
    d: ProblemModel,
    v: IterateModel,
    e: ProblemModel,
    w: IterateModel,
    dd: Seq<int>,
    ee: Seq<int>,
)
    requires
        d.shaped(),
        e.shaped(),
        v.fits(d),
        w.fits(e),
        e.n == d.n,
        e.m == d.m,
        dd.len() == d.n,
        ee.len() == d.m,
        w.tau == v.tau,
        w.kappa == v.kappa,
        forall|i: int, j: int|
            0 <= i < d.n && 0 <= j < d.n ==> #[trigger] e.P[i][j] == dd[i] * d.P[i][j] * dd[j],
        forall|i: int| 0 <= i < d.n ==> #[trigger] e.q[i] == dd[i] * d.q[i],
        forall|i: int, j: int|
            0 <= i < d.m && 0 <= j < d.n ==> #[trigger] e.A[i][j] == ee[i] * d.A[i][j] * dd[j],
        forall|i: int| 0 <= i < d.m ==> #[trigger] e.b[i] == ee[i] * d.b[i],
        forall|i: int| 0 <= i < d.n ==> #[trigger] v.x[i] == dd[i] * w.x[i],
        forall|i: int| 0 <= i < d.m ==> #[trigger] v.z[i] == ee[i] * w.z[i],
        forall|i: int| 0 <= i < d.m ==> #[trigger] w.s[i] == ee[i] * v.s[i],
    ensures
        residuals_of(e, w).dot_qx == residuals_of(d, v).dot_qx,
        residuals_of(e, w).dot_bz == residuals_of(d, v).dot_bz,
        residuals_of(e, w).dot_sz == residuals_of(d, v).dot_sz,
        residuals_of(e, w).dot_xPx == residuals_of(d, v).dot_xPx,
{
    let n = d.n as int;
    let m = d.m as int;
    // q̂·x̂ = q·x
    assert forall|t: int| 0 <= t < n implies #[trigger] (e.q[t] * w.x[t]) == 1 * (d.q[t] * v.x[t])
        + 0 * (d.q[t] * v.x[t]) by {
        let (a, b, c) = (dd[t], d.q[t], w.x[t]);
        assert((a * b) * c == 1 * (b * (a * c)) + 0 * (b * (a * c))) by (nonlinear_arith);
    }
    lemma_dot_linear(e.q, w.x, d.q, v.x, 1, d.q, v.x, 0, n);
    // b̂·ẑ = b·z
    assert forall|t: int| 0 <= t < m implies #[trigger] (e.b[t] * w.z[t]) == 1 * (d.b[t] * v.z[t])
        + 0 * (d.b[t] * v.z[t]) by {
        let (a, b, c) = (ee[t], d.b[t], w.z[t]);
        assert((a * b) * c == 1 * (b * (a * c)) + 0 * (b * (a * c))) by (nonlinear_arith);
    }
    lemma_dot_linear(e.b, w.z, d.b, v.z, 1, d.b, v.z, 0, m);
    // ŝ·ẑ = s·z
    assert forall|t: int| 0 <= t < m implies #[trigger] (w.s[t] * w.z[t]) == 1 * (v.s[t] * v.z[t])
        + 0 * (v.s[t] * v.z[t]) by {
        let (a, b, c) = (ee[t], v.s[t], w.z[t]);
        assert((a * b) * c == 1 * (b * (a * c)) + 0 * (b * (a * c))) by (nonlinear_arith);
    }
    lemma_dot_linear(w.s, w.z, v.s, v.z, 1, v.s, v.z, 0, m);
    // (P̂ x̂)_i = d_i (P x)_i
    let px = mat_vec(d.P, v.x);
    let pxh = mat_vec(e.P, w.x);
    assert forall|i: int| 0 <= i < n implies #[trigger] pxh[i] == dd[i] * px[i] by {
        assert(e.P[i].len() == n && d.P[i].len() == n);
        assert forall|t: int| 0 <= t < n implies #[trigger] (e.P[i][t] * w.x[t]) == dd[i] * (
        d.P[i][t] * v.x[t]) + 0 * (d.P[i][t] * v.x[t]) by {
            assert(e.P[i][t] == dd[i] * d.P[i][t] * dd[t]);
            assert(v.x[t] == dd[t] * w.x[t]);
            let (a, p, b, c) = (dd[i], d.P[i][t], dd[t], w.x[t]);
            assert((a * p * b) * c == a * (p * (b * c)) + 0 * (p * (b * c))) by (nonlinear_arith);
        }
        lemma_dot_linear(e.P[i], w.x, d.P[i], v.x, dd[i], d.P[i], v.x, 0, n);
    }
    // x̂ᵗP̂x̂ = xᵗPx
    assert forall|t: int| 0 <= t < n implies #[trigger] (w.x[t] * pxh[t]) == 1 * (v.x[t] * px[t])
        + 0 * (v.x[t] * px[t]) by {
        let (a, c, p) = (dd[t], w.x[t], px[t]);
        assert(c * (a * p) == 1 * ((a * c) * p) + 0 * ((a * c) * p)) by (nonlinear_arith);
    }
    lemma_dot_linear(w.x, pxh, v.x, px, 1, v.x, px, 0, n);
}

/// For every iterate, `τ·rτ = κτ + s·z - x·rx - z·rz`. So `rτ` tends to zero
/// along any sequence of iterates on which `rx`, `rz`, `κ` and `s·z` tend to
/// zero with `τ` bounded away from zero.
pub proof fn lemma_homogeneity_identity(d: ProblemModel, v: IterateModel)
    requires
        d.shaped(),
        v.fits(d),
    ensures
        residuals_of(d, v).rtau_num == v.kappa * v.tau + residuals_of(d, v).dot_sz - dot(
            v.x,
            residuals_of(d, v).rx,
        ) - dot(v.z, residuals_of(d, v).rz),
{
    let r = residuals_of(d, v);
    let n = d.n as int;
    let m = d.m as int;
    let tau = v.tau;
    let px = mat_vec(d.P, v.x);
    let atz = mat_t_vec(d.A, v.z, d.n);
    let ax = mat_vec(d.A, v.x);
    // x·rx = -xᵗPx - xᵗ(Aᵗz) - τ q·x
    let u = Seq::new(d.n, |i: int| -px[i] - atz[i]);
    assert forall|t: int| 0 <= t < n implies #[trigger] (v.x[t] * r.rx[t]) == 1 * (v.x[t] * u[t])
        + (-tau) * (d.q[t] * v.x[t]) by {
        let (x, a, q) = (v.x[t], u[t], d.q[t]);
        assert(x * (a - q * tau) == 1 * (x * a) + (-tau) * (q * x)) by (nonlinear_arith);
    }
    lemma_dot_linear(v.x, r.rx, v.x, u, 1, d.q, v.x, -tau, n);
    assert forall|t: int| 0 <= t < n implies #[trigger] (v.x[t] * u[t]) == -1 * (v.x[t] * px[t])
        + -1 * (v.x[t] * atz[t]) by {
        let (x, p, a) = (v.x[t], px[t], atz[t]);
        assert(x * (-p - a) == -1 * (x * p) + -1 * (x * a)) by (nonlinear_arith);
    }
    lemma_dot_linear(v.x, u, v.x, px, -1, v.x, atz, -1, n);
    // z·rz = zᵗ(Ax) + s·z - τ b·z
    let w = Seq::new(d.m, |i: int| ax[i] + v.s[i]);
    assert forall|t: int| 0 <= t < m implies #[trigger] (v.z[t] * r.rz[t]) == 1 * (v.z[t] * w[t])
        + (-tau) * (d.b[t] * v.z[t]) by {
        let (z, a, b) = (v.z[t], w[t], d.b[t]);
        assert(z * (a - b * tau) == 1 * (z * a) + (-tau) * (b * z)) by (nonlinear_arith);
    }
    lemma_dot_linear(v.z, r.rz, v.z, w, 1, d.b, v.z, -tau, m);
    assert forall|t: int| 0 <= t < m implies #[trigger] (v.z[t] * w[t]) == 1 * (v.z[t] * ax[t])
        + 1 * (v.s[t] * v.z[t]) by {
        let (z, a, s) = (v.z[t], ax[t], v.s[t]);
        assert(z * (a + s) == 1 * (z * a) + 1 * (s * z)) by (nonlinear_arith);
    }
    lemma_dot_linear(v.z, w, v.z, ax, 1, v.s, v.z, 1, m);
    // zᵗ(Ax) = xᵗ(Aᵗz)
    lemma_dot_transpose(d.A, v.z, v.x, d.n);
    let (qx, bz) = (r.dot_qx, r.dot_bz);
    assert(qx * tau + bz * tau == tau * qx + tau * bz) by (nonlinear_arith);
    assert((-tau) * qx == -(tau * qx) && (-tau) * bz == -(tau * bz)) by (nonlinear_arith);
}

/// At an exact solution of the embedding with `τ = 1` and `κ = 0`
/// (stationarity `Px + Aᵗz + q = 0` and feasibility `Ax + s = b`), the
/// stationarity and feasibility residuals vanish and `rτ` equals the
/// complementarity product `s·z`: it vanishes exactly when `s·z` does.
pub proof fn lemma_optimality_residuals(d: ProblemModel, v: IterateModel)
    requires
        d.shaped(),
        v.fits(d),
        v.tau == 1,
        v.kappa == 0,
        forall|i: int|
            0 <= i < d.n ==> #[trigger] mat_vec(d.P, v.x)[i] + mat_t_vec(d.A, v.z, d.n)[i] + d.q[i]
                == 0,
        forall|i: int| 0 <= i < d.m ==> #[trigger] mat_vec(d.A, v.x)[i] + v.s[i] == d.b[i],
    ensures
        residuals_of(d, v).rx == zero_vec(d.n),
        residuals_of(d, v).rz == zero_vec(d.m),
        residuals_of(d, v).rtau_den == 1,
        residuals_of(d, v).rtau_num == residuals_of(d, v).dot_sz,
{
    let r = residuals_of(d, v);
    assert(r.rx =~= zero_vec(d.n));
    assert(r.rz =~= zero_vec(d.m));
    lemma_homogeneity_identity(d, v);
    lemma_dot_linear(v.x, r.rx, v.x, r.rx, 0, v.x, r.rx, 0, d.n as int);
    lemma_dot_linear(v.z, r.rz, v.z, r.rz, 0, v.z, r.rz, 0, d.m as int);
}

} // verus!
