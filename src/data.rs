//! Problem data and iterate of the homogeneous self-dual embedding, with their
//! mathematical models.
#![allow(non_snake_case)]
use vstd::prelude::*;
use crate::linalg::{
    dot, mat_vec,
    bounded_by, dim_bound, entry_bound, has_columns, ints64, ints_mat, mat_bounded_by, MAX_DIM,
    MAX_ENTRY,
};

verus! {

/// The kind of one cone block of the constraint slack.
#[derive(Clone, Copy, Debug, PartialEq, Eq, Structural)]
pub enum ConeKind {
    Zero,
    Nonnegative,
    SecondOrder,
}

/// One block of the cone descriptor: `dim` consecutive constraint rows whose
/// slack lies in a cone of kind `kind`.
#[derive(Clone, Copy, Debug, PartialEq, Eq, Structural)]
pub struct ConeBlock {
    pub kind: ConeKind,
    pub dim: usize,
}

/// Total number of rows that a sequence of cone blocks covers.
pub open spec fn cone_rows(cones: Seq<ConeBlock>) -> int
    decreases cones.len(),
{
    if cones.len() == 0 {
        0
    } else {
        cone_rows(cones.drop_last()) + cones.last().dim
    }
}

/// Covering a prefix of the blocks never takes more rows than all of them.
pub proof fn lemma_cone_rows_prefix(cones: Seq<ConeBlock>, i: int)
    requires
        0 <= i <= cones.len(),
    ensures
        cone_rows(cones.subrange(0, i)) <= cone_rows(cones),
    decreases cones.len(),
{
    if i < cones.len() {
        assert(cones.drop_last().subrange(0, i) =~= cones.subrange(0, i));
        lemma_cone_rows_prefix(cones.drop_last(), i);
    } else {
        assert(cones.subrange(0, i) =~= cones);
    }
}

/// Whether the cone blocks cover exactly `m` rows.
pub fn cones_cover(cones: &Vec<ConeBlock>, m: usize) -> (r: bool)
    ensures
        r == (cone_rows(cones@) == m),
{
    let mut total: usize = 0;
    let mut i: usize = 0;
    while i < cones.len()
        invariant
            0 <= i <= cones.len(),
            total <= m,
            total == cone_rows(cones@.subrange(0, i as int)),
        decreases cones.len() - i,
    {
        assert(cones@.subrange(0, i + 1).drop_last() =~= cones@.subrange(0, i as int));
        let dim = cones[i].dim;
        if dim > m - total {
            proof {
                lemma_cone_rows_prefix(cones@, i + 1);
            }
            return false;
        }
        total = total + dim;
        i = i + 1;
    }
    assert(cones@.subrange(0, i as int) =~= cones@);
    total == m
}

/// Problem data of a conic program with quadratic objective
/// `minimize ½ xᵗPx + qᵗx subject to Ax + s = b, s in K`.
/// Matrices are stored as vectors of rows.
pub struct DefaultProblemData {
    /// Objective matrix, `n` rows of `n` entries.
    pub P: Vec<Vec<i64>>,
    /// Linear cost, `n` entries.
    pub q: Vec<i64>,
    /// Constraint matrix, `m` rows of `n` entries.
    pub A: Vec<Vec<i64>>,
    /// Constraint bound, `m` entries.
    pub b: Vec<i64>,
    /// Partition of the `m` constraint rows into cone blocks.
    pub cones: Vec<ConeBlock>,
}

/// Mathematical model of the problem data.
pub ghost struct ProblemModel {
    pub P: Seq<Seq<int>>,
    pub q: Seq<int>,
    pub A: Seq<Seq<int>>,
    pub b: Seq<int>,
    pub n: nat,
    pub m: nat,
}

impl View for DefaultProblemData {
    type V = ProblemModel;

    open spec fn view(&self) -> ProblemModel {
        ProblemModel {
            P: ints_mat(self.P@),
            q: ints64(self.q@),
            A: ints_mat(self.A@),
            b: ints64(self.b@),
            n: self.q@.len(),
            m: self.b@.len(),
        }
    }
}

impl ProblemModel {
    /// The matrices and vectors have the shapes that `n` and `m` give.
    pub open spec fn shaped(self) -> bool {
        &&& self.q.len() == self.n
        &&& self.P.len() == self.n
        &&& has_columns(self.P, self.n)
        &&& self.A.len() == self.m
        &&& has_columns(self.A, self.n)
        &&& self.b.len() == self.m
    }

    /// `P` is positive semidefinite: `xᵗPx >= 0` for every `x`.
    pub open spec fn objective_psd(self) -> bool {
        forall|x: Seq<int>|
            x.len() == self.n ==> dot(x, #[trigger] mat_vec(self.P, x)) >= 0
    }
}

impl DefaultProblemData {
    /// Shapes agree and the cone blocks cover exactly the `m` constraint rows.
    pub open spec fn wf(&self) -> bool {
        &&& self@.shaped()
        &&& cone_rows(self.cones@) == self@.m
    }

    /// Whether the shapes agree and the cone blocks cover exactly the `m`
    /// constraint rows.
    pub fn is_well_formed(&self) -> (r: bool)
        ensures
            r == self.wf(),
    {
        let n = self.q.len();
        let m = self.b.len();
        if self.P.len() != n || self.A.len() != m {
            return false;
        }
        let ghost pv = ints_mat(self.P@);
        let ghost av = ints_mat(self.A@);
        let mut i: usize = 0;
        while i < n
            invariant
                pv == ints_mat(self.P@),
                self.P.len() == n,
                n == self.q.len(),
                m == self.b.len(),
                0 <= i <= n,
                forall|k: int| 0 <= k < i ==> (#[trigger] pv[k]).len() == n,
            decreases n - i,
        {
            assert(pv[i as int] == ints64(self.P[i as int]@));
            assert(pv[i as int].len() == self.P[i as int].len());
            if self.P[i].len() != n {
                return false;
            }
            i = i + 1;
        }
        let mut i: usize = 0;
        while i < m
            invariant
                av == ints_mat(self.A@),
                self.A.len() == m,
                n == self.q.len(),
                m == self.b.len(),
                0 <= i <= m,
                forall|k: int| 0 <= k < i ==> (#[trigger] av[k]).len() == n,
            decreases m - i,
        {
            assert(av[i as int] == ints64(self.A[i as int]@));
            assert(av[i as int].len() == self.A[i as int].len());
            if self.A[i].len() != n {
                return false;
            }
            i = i + 1;
        }
        cones_cover(&self.cones, m)
    }

    /// Problem data from its parts, or `None` when the shapes disagree or the
    /// cone blocks do not cover exactly the constraint rows.
    pub fn new(
        P: Vec<Vec<i64>>,
        q: Vec<i64>,
        A: Vec<Vec<i64>>,
        b: Vec<i64>,
        cones: Vec<ConeBlock>,
    ) -> (r: Option<Self>)
        ensures
            r is Some <==> (DefaultProblemData { P, q, A, b, cones }).wf(),
            r matches Some(d) ==> d.P == P && d.q == q && d.A == A && d.b == b && d.cones == cones,
    {
        let d = DefaultProblemData { P, q, A, b, cones };
        if d.is_well_formed() {
            Some(d)
        } else {
            None
        }
    }

    /// Primal dimension `n`.
    pub fn n(&self) -> (r: usize)
        ensures
            r == self@.n,
    {
        self.q.len()
    }

    /// Number of constraint rows `m`.
    pub fn m(&self) -> (r: usize)
        ensures
            r == self@.m,
    {
        self.b.len()
    }
}

/// Iterate of the homogeneous embedding: primal `x`, dual `z`, slack `s`,
/// scale `tau` and complementary scale `kappa`.
pub struct DefaultVariables {
    pub x: Vec<i64>,
    pub z: Vec<i64>,
    pub s: Vec<i64>,
    pub tau: i64,
    pub kappa: i64,
}

/// Mathematical model of the iterate.
pub ghost struct IterateModel {
    pub x: Seq<int>,
    pub z: Seq<int>,
    pub s: Seq<int>,
    pub tau: int,
    pub kappa: int,
}

impl View for DefaultVariables {
    type V = IterateModel;

    open spec fn view(&self) -> IterateModel {
        IterateModel {
            x: ints64(self.x@),
            z: ints64(self.z@),
            s: ints64(self.s@),
            tau: self.tau as int,
            kappa: self.kappa as int,
        }
    }
}

impl DefaultVariables {
    /// Whether the vectors have the lengths that the problem's `n` and `m` give.
    pub fn fits_problem(&self, data: &DefaultProblemData) -> (r: bool)
        ensures
            r == self@.fits(data@),
    {
        self.x.len() == data.q.len() && self.z.len() == data.b.len() && self.s.len()
            == data.b.len()
    }
}

impl IterateModel {
    /// The vectors have the lengths that the problem's `n` and `m` give.
    pub open spec fn fits(self, d: ProblemModel) -> bool {
        &&& self.x.len() == d.n
        &&& self.z.len() == d.m
        &&& self.s.len() == d.m
    }
}

/// Dimensions are at most `MAX_DIM` and every value of the problem data and
/// of the iterate is at most `MAX_ENTRY` in magnitude: within this range
/// every residual is computed exactly.
pub open spec fn in_range(d: ProblemModel, v: IterateModel) -> bool {
    &&& d.n <= dim_bound()
    &&& d.m <= dim_bound()
    &&& mat_bounded_by(d.P, entry_bound())
    &&& bounded_by(d.q, entry_bound())
    &&& mat_bounded_by(d.A, entry_bound())
    &&& bounded_by(d.b, entry_bound())
    &&& bounded_by(v.x, entry_bound())
    &&& bounded_by(v.z, entry_bound())
    &&& bounded_by(v.s, entry_bound())
    &&& -entry_bound() <= v.tau <= entry_bound()
    &&& -entry_bound() <= v.kappa <= entry_bound()
}

/// Whether a single value is at most `MAX_ENTRY` in magnitude.
pub fn entry_in_range(e: i64) -> (r: bool)
    ensures
        r == (-entry_bound() <= e <= entry_bound()),
{
    -MAX_ENTRY <= e && e <= MAX_ENTRY
}

/// Whether every entry of a vector is at most `MAX_ENTRY` in magnitude.
pub fn vec_in_range(v: &Vec<i64>) -> (r: bool)
    ensures
        r == bounded_by(ints64(v@), entry_bound()),
{
    let ghost vv = ints64(v@);
    let mut i: usize = 0;
    while i < v.len()
        invariant
            vv == ints64(v@),
            0 <= i <= v.len(),
            forall|k: int| 0 <= k < i ==> -entry_bound() <= #[trigger] vv[k] <= entry_bound(),
        decreases v.len() - i,
    {
        assert(vv[i as int] == v[i as int] as int);
        if !entry_in_range(v[i]) {
            return false;
        }
        i = i + 1;
    }
    true
}

/// Whether every entry of a matrix, given as its rows, is at most
/// `MAX_ENTRY` in magnitude.
pub fn mat_in_range(m: &Vec<Vec<i64>>) -> (r: bool)
    ensures
        r == mat_bounded_by(ints_mat(m@), entry_bound()),
{
    let ghost mv = ints_mat(m@);
    let mut i: usize = 0;
    while i < m.len()
        invariant
            mv == ints_mat(m@),
            0 <= i <= m.len(),
            forall|k: int| 0 <= k < i ==> bounded_by(#[trigger] mv[k], entry_bound()),
        decreases m.len() - i,
    {
        assert(mv[i as int] == ints64(m[i as int]@));
        if !vec_in_range(&m[i]) {
            return false;
        }
        i = i + 1;
    }
    true
}

/// Whether problem data and iterate lie within the range where the engine
/// computes exactly.
pub fn values_in_range(data: &DefaultProblemData, vars: &DefaultVariables) -> (r: bool)
    ensures
        r == in_range(data@, vars@),
{
    data.q.len() <= MAX_DIM && data.b.len() <= MAX_DIM && mat_in_range(&data.P) && vec_in_range(
        &data.q,
    ) && mat_in_range(&data.A) && vec_in_range(&data.b) && vec_in_range(&vars.x) && vec_in_range(
        &vars.z,
    ) && vec_in_range(&vars.s) && entry_in_range(vars.tau) && entry_in_range(vars.kappa)
}

} // verus!
