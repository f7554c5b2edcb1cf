use solver::{
    ConeBlock, ConeKind, DefaultProblemData, DefaultResiduals, DefaultVariables, ResidualError,
    MAX_ENTRY,
};

fn problem(
    p: Vec<Vec<i64>>,
    q: Vec<i64>,
    a: Vec<Vec<i64>>,
    b: Vec<i64>,
    cones: Vec<ConeBlock>,
) -> DefaultProblemData {
    DefaultProblemData::new(p, q, a, b, cones).expect("well-formed problem data")
}

fn nonneg(dim: usize) -> ConeBlock {
    ConeBlock { kind: ConeKind::Nonnegative, dim }
}

fn vars(x: Vec<i64>, z: Vec<i64>, s: Vec<i64>, tau: i64, kappa: i64) -> DefaultVariables {
    DefaultVariables { x, z, s, tau, kappa }
}

fn updated(v: &DefaultVariables, d: &DefaultProblemData) -> DefaultResiduals {
    let mut r = DefaultResiduals::new(d.n(), d.m());
    assert_eq!(r.update(v, d), Ok(()));
    r
}

fn fields(r: &DefaultResiduals) -> (Vec<Vec<i128>>, Vec<i128>) {
    (
        vec![r.rx().clone(), r.rz().clone(), r.rx_inf().clone(), r.rz_inf().clone(), r.Px().clone()],
        vec![
            r.rtau_num(),
            r.rtau_den(),
            r.dot_qx(),
            r.dot_bz(),
            r.dot_sz(),
            r.dot_xPx(),
        ],
    )
}

#[test]
fn new_is_zero_filled_with_unit_rtau() {
    let r = DefaultResiduals::new(3, 2);
    assert_eq!(r.rx(), &vec![0i128; 3]);
    assert_eq!(r.rz(), &vec![0i128; 2]);
    assert_eq!(r.rx_inf(), &vec![0i128; 3]);
    assert_eq!(r.rz_inf(), &vec![0i128; 2]);
    assert_eq!(r.Px(), &vec![0i128; 3]);
    assert_eq!(r.rtau_num(), 1);
    assert_eq!(r.rtau_den(), 1);
    assert_eq!(r.dot_qx(), 0);
    assert_eq!(r.dot_bz(), 0);
    assert_eq!(r.dot_sz(), 0);
    assert_eq!(r.dot_xPx(), 0);
    assert!(r.is_sized_for(3, 2));
    assert!(!r.is_sized_for(2, 3));
}

#[test]
fn unconstrained_qp_scenario() {
    let d = problem(vec![vec![1, 0], vec![0, 1]], vec![-1, -1], vec![], vec![], vec![]);
    let v = vars(vec![1, 1], vec![], vec![], 1, 0);
    let r = updated(&v, &d);
    assert_eq!(r.Px(), &vec![1i128, 1]);
    assert_eq!(r.dot_xPx(), 2);
    assert_eq!(r.dot_qx(), -2);
    assert_eq!(r.dot_bz(), 0);
    assert_eq!(r.rx(), &vec![0i128, 0]);
    assert!(r.rz().is_empty());
    assert_eq!(r.rtau_num(), 0);
    assert_eq!(r.rtau_den(), 1);
}

#[test]
fn degenerate_scale_is_refused_and_leaves_fields_unchanged() {
    let d = problem(vec![vec![1, 0], vec![0, 1]], vec![-1, -1], vec![], vec![], vec![]);
    for tau in [0i64, -1, -MAX_ENTRY] {
        let v = vars(vec![1, 1], vec![], vec![], tau, 0);
        let mut r = DefaultResiduals::new(2, 0);
        let before = fields(&r);
        assert_eq!(r.update(&v, &d), Err(ResidualError::DegenerateScale));
        assert_eq!(fields(&r), before);
    }
}

#[test]
fn out_of_range_value_is_refused() {
    let d = problem(vec![vec![1]], vec![MAX_ENTRY + 1], vec![], vec![], vec![]);
    let v = vars(vec![1], vec![], vec![], 1, 0);
    let mut r = DefaultResiduals::new(1, 0);
    let before = fields(&r);
    assert_eq!(r.update(&v, &d), Err(ResidualError::ValueOutOfRange));
    assert_eq!(fields(&r), before);

    let d = problem(vec![vec![1]], vec![MAX_ENTRY], vec![], vec![], vec![]);
    let v = vars(vec![-MAX_ENTRY], vec![], vec![], MAX_ENTRY + 1, 0);
    assert_eq!(r.update(&v, &d), Err(ResidualError::ValueOutOfRange));
    let v = vars(vec![-MAX_ENTRY], vec![], vec![], MAX_ENTRY, MAX_ENTRY);
    assert_eq!(r.update(&v, &d), Ok(()));
    let e = MAX_ENTRY as i128;
    assert_eq!(r.dot_qx(), -e * e);
    assert_eq!(r.dot_xPx(), e * e);
}

#[test]
fn general_residual_formulas() {
    // n = 2, m = 1, P = [[2, 1], [1, 3]], q = (1, -2), A = [[1, 2]], b = (4)
    let d = problem(
        vec![vec![2, 1], vec![1, 3]],
        vec![1, -2],
        vec![vec![1, 2]],
        vec![4],
        vec![nonneg(1)],
    );
    let v = vars(vec![1, 2], vec![3], vec![5], 2, 7);
    let r = updated(&v, &d);
    // Px = (4, 7), xᵗPx = 18, q·x = -3, b·z = 12, s·z = 15
    assert_eq!(r.Px(), &vec![4i128, 7]);
    assert_eq!(r.dot_xPx(), 18);
    assert_eq!(r.dot_qx(), -3);
    assert_eq!(r.dot_bz(), 12);
    assert_eq!(r.dot_sz(), 15);
    // Aᵗz = (3, 6); rx = -Px - Aᵗz - qτ = (-4 - 3 - 2, -7 - 6 + 4)
    assert_eq!(r.rx(), &vec![-9i128, -9]);
    // Ax = 5; rz = Ax + s - bτ = 5 + 5 - 8
    assert_eq!(r.rz(), &vec![2i128]);
    assert_eq!(r.rx_inf(), &vec![7i128, 13]);
    assert_eq!(r.rz_inf(), &vec![10i128]);
    // rτ = κ + q·x + b·z + xᵗPx/τ = 7 - 3 + 12 + 9 = 25 = 50 / 2
    assert_eq!(r.rtau_num(), 50);
    assert_eq!(r.rtau_den(), 2);
}

#[test]
fn update_twice_gives_identical_fields() {
    let d = problem(
        vec![vec![2, 1], vec![1, 3]],
        vec![1, -2],
        vec![vec![1, 2]],
        vec![4],
        vec![nonneg(1)],
    );
    let v = vars(vec![1, 2], vec![3], vec![5], 2, 7);
    let mut r = DefaultResiduals::new(2, 1);
    assert_eq!(r.update(&v, &d), Ok(()));
    let first = fields(&r);
    assert_eq!(r.update(&v, &d), Ok(()));
    assert_eq!(fields(&r), first);

    // an engine that held another iterate's results ends up the same
    let mut other = DefaultResiduals::new(2, 1);
    let w = vars(vec![-3, 4], vec![1], vec![0], 5, 0);
    assert_eq!(other.update(&w, &d), Ok(()));
    assert_ne!(fields(&other), first);
    assert_eq!(other.update(&v, &d), Ok(()));
    assert_eq!(fields(&other), first);
}

#[test]
fn psd_objective_gives_nonnegative_quadratic_term() {
    let d = problem(vec![vec![2, -1], vec![-1, 2]], vec![0, 0], vec![], vec![], vec![]);
    for x in [vec![1i64, 1], vec![1, -1], vec![-5, 3], vec![0, 0], vec![7, 0]] {
        let v = vars(x, vec![], vec![], 1, 0);
        let r = updated(&v, &d);
        assert!(r.dot_xPx() >= 0);
    }
    let v = vars(vec![1, -1], vec![], vec![], 1, 0);
    assert_eq!(updated(&v, &d).dot_xPx(), 6);
}

#[test]
fn equilibration_keeps_inner_products() {
    // unscaled problem
    let d = problem(
        vec![vec![2, 1], vec![1, 3]],
        vec![1, -2],
        vec![vec![1, 2], vec![-1, 1]],
        vec![4, -3],
        vec![nonneg(2)],
    );
    // scaled copy: D = diag(2, 3), E = diag(5, -2)
    let dd = [2i64, 3];
    let ee = [5i64, -2];
    let x_hat = vec![1i64, -1];
    let z_hat = vec![2i64, 1];
    let x: Vec<i64> = (0..2).map(|i| dd[i] * x_hat[i]).collect();
    let z: Vec<i64> = (0..2).map(|i| ee[i] * z_hat[i]).collect();
    let s = vec![3i64, 4];
    let s_hat: Vec<i64> = (0..2).map(|i| ee[i] * s[i]).collect();
    let p_hat: Vec<Vec<i64>> =
        (0..2).map(|i| (0..2).map(|j| dd[i] * d.P[i][j] * dd[j]).collect()).collect();
    let q_hat: Vec<i64> = (0..2).map(|i| dd[i] * d.q[i]).collect();
    let a_hat: Vec<Vec<i64>> =
        (0..2).map(|i| (0..2).map(|j| ee[i] * d.A[i][j] * dd[j]).collect()).collect();
    let b_hat: Vec<i64> = (0..2).map(|i| ee[i] * d.b[i]).collect();
    let e = problem(p_hat, q_hat, a_hat, b_hat, vec![nonneg(2)]);

    let r = updated(&vars(x, z, s, 1, 0), &d);
    let rh = updated(&vars(x_hat, z_hat, s_hat, 1, 0), &e);
    assert_eq!(rh.dot_qx(), r.dot_qx());
    assert_eq!(rh.dot_bz(), r.dot_bz());
    assert_eq!(rh.dot_sz(), r.dot_sz());
    assert_eq!(rh.dot_xPx(), r.dot_xPx());
    // the scaling is not trivial: the vector residuals do change
    assert_ne!(rh.Px(), r.Px());
    assert_eq!(r.dot_qx(), 2 + 6);
    assert_eq!(r.dot_xPx(), 2 * 4 - 2 * 6 + 3 * 9);
}

#[test]
fn residuals_vanish_at_optimum() {
    // minimize ½x² - 3x subject to x <= 2: optimum x = 2, z = 1, s = 0
    let d = problem(vec![vec![1]], vec![-3], vec![vec![1]], vec![2], vec![nonneg(1)]);
    let r = updated(&vars(vec![2], vec![1], vec![0], 1, 0), &d);
    assert_eq!(r.rx(), &vec![0i128]);
    assert_eq!(r.rz(), &vec![0i128]);
    assert_eq!(r.dot_sz(), 0);
    assert_eq!(r.rtau_num(), 0);
    assert_eq!(r.rtau_den(), 1);

    // stationary and feasible but not complementary: rτ equals s·z
    let d = problem(vec![vec![1]], vec![-3], vec![vec![1]], vec![4], vec![nonneg(1)]);
    let r = updated(&vars(vec![2], vec![1], vec![2], 1, 0), &d);
    assert_eq!(r.rx(), &vec![0i128]);
    assert_eq!(r.rz(), &vec![0i128]);
    assert_eq!(r.dot_sz(), 2);
    assert_eq!(r.rtau_num(), 2);
}

#[test]
fn primal_infeasibility_certificate() {
    // x <= 1 and -x <= -2 contradict each other
    let d = problem(vec![vec![0]], vec![0], vec![vec![1], vec![-1]], vec![1, -2], vec![nonneg(2)]);
    let r = updated(&vars(vec![0], vec![1, 1], vec![0, 0], 1, 0), &d);
    assert_eq!(r.rx_inf(), &vec![0i128]);
    assert_eq!(r.rz_inf(), &vec![0i128, 0]);
    assert!(r.dot_bz() < 0);
    assert_eq!(r.dot_bz(), -1);
}

#[test]
fn problem_data_shape_is_checked() {
    assert!(DefaultProblemData::new(vec![vec![1]], vec![0], vec![vec![1]], vec![1], vec![nonneg(1)])
        .is_some());
    // cone blocks cover too few or too many rows
    assert!(DefaultProblemData::new(vec![vec![1]], vec![0], vec![vec![1]], vec![1], vec![])
        .is_none());
    let two = vec![nonneg(1), ConeBlock { kind: ConeKind::Zero, dim: 1 }];
    assert!(DefaultProblemData::new(vec![vec![1]], vec![0], vec![vec![1]], vec![1], two).is_none());
    let huge = vec![nonneg(usize::MAX), ConeBlock { kind: ConeKind::SecondOrder, dim: 3 }];
    assert!(DefaultProblemData::new(vec![vec![1]], vec![0], vec![vec![1]], vec![1], huge).is_none());
    // a row of the wrong length
    assert!(DefaultProblemData::new(vec![vec![1, 2]], vec![0], vec![], vec![], vec![]).is_none());
    assert!(DefaultProblemData::new(vec![vec![1]], vec![0], vec![vec![1, 1]], vec![1], vec![nonneg(1)])
        .is_none());
    let d = problem(vec![vec![1]], vec![0], vec![vec![1]], vec![1], vec![nonneg(1)]);
    assert_eq!((d.n(), d.m()), (1, 1));
    assert!(vars(vec![0], vec![0], vec![0], 1, 0).fits_problem(&d));
    assert!(!vars(vec![0], vec![], vec![0], 1, 0).fits_problem(&d));
}

#[test]
fn homogeneity_identity_on_example() {
    let d = problem(
        vec![vec![2, 1], vec![1, 3]],
        vec![1, -2],
        vec![vec![1, 2]],
        vec![4],
        vec![nonneg(1)],
    );
    let v = vars(vec![1, 2], vec![3], vec![5], 2, 7);
    let r = updated(&v, &d);
    let x_rx: i128 = r.rx().iter().zip(&v.x).map(|(a, b)| a * (*b as i128)).sum();
    let z_rz: i128 = r.rz().iter().zip(&v.z).map(|(a, b)| a * (*b as i128)).sum();
    // τ·rτ = κτ + s·z - x·rx - z·rz
    assert_eq!(r.rtau_num(), 7 * 2 + r.dot_sz() - x_rx - z_rz);
    assert_eq!(x_rx, -27);
    assert_eq!(z_rz, 6);
}
