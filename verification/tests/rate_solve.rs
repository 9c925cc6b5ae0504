//! The equations that a rate solve works on.

use krasis::initialization::{
    check_algebraic_rows, expand_rows, restrict_rows, select_rows, solve_consistent_state_rate_for,
};
use krasis::{
    reduced_rate_product, reduced_rate_residual, KrasisError, NewtonConfig, NewtonReport, RowKind,
    Scalar, SolveError,
};

fn scalar(value: f64) -> Scalar {
    Scalar::from_bits(value.to_bits())
}

fn scalars(values: &[f64]) -> Vec<Scalar> {
    values.iter().map(|value| scalar(*value)).collect()
}

fn float(value: Scalar) -> f64 {
    f64::from_bits(value.to_bits())
}

/// `F_i = (i + 1) rate_i - 1`.
fn residual(rate: &Vec<Scalar>) -> Result<Vec<Scalar>, SolveError> {
    Ok(rate
        .iter()
        .enumerate()
        .map(|(row, value)| scalar((row + 1) as f64 * float(*value) - 1.0))
        .collect())
}

#[test]
fn differential_rows_are_expanded_and_restricted() {
    let mask = vec![
        RowKind::Algebraic,
        RowKind::Differential,
        RowKind::Algebraic,
        RowKind::Differential,
    ];
    let rows = select_rows(&mask, RowKind::Differential);
    assert_eq!(rows, vec![1, 3]);
    assert_eq!(select_rows(&mask, RowKind::Algebraic), vec![0, 2]);
    let full = expand_rows(&rows, &scalars(&[5.0, 7.0]), 4);
    assert_eq!(full, scalars(&[0.0, 5.0, 0.0, 7.0]));
    assert_eq!(restrict_rows(&rows, &full), scalars(&[5.0, 7.0]));
}

#[test]
fn the_reduced_residual_sees_the_rates_of_its_rows_alone() {
    let rows = vec![1, 3];
    assert_eq!(
        reduced_rate_residual(&rows, 4, &scalars(&[0.5, 2.0]), &residual).unwrap(),
        scalars(&[0.0, 7.0])
    );
    let failing = |_: &Vec<Scalar>| {
        Err::<Vec<Scalar>, SolveError>(SolveError {
            refusal: None,
            text: "no residual".to_owned(),
        })
    };
    assert_eq!(
        reduced_rate_residual(&rows, 4, &scalars(&[0.5, 2.0]), &failing)
            .unwrap_err()
            .text,
        "no residual"
    );
}

#[test]
fn the_reduced_product_holds_the_state_fixed() {
    let product = |rate: &Vec<Scalar>, still: &Vec<Scalar>, along: &Vec<Scalar>| {
        assert_eq!(still, &scalars(&[0.0; 4]));
        assert_eq!(rate, &scalars(&[0.0, 0.5, 0.0, 2.0]));
        let moved: Vec<f64> = along
            .iter()
            .enumerate()
            .map(|(row, value)| (row + 1) as f64 * float(*value))
            .collect();
        Ok::<Vec<Scalar>, SolveError>(scalars(&moved))
    };
    assert_eq!(
        reduced_rate_product(
            &vec![1, 3],
            4,
            &scalars(&[0.5, 2.0]),
            &scalars(&[1.0, -1.0]),
            &product
        )
        .unwrap(),
        scalars(&[2.0, -4.0])
    );
}

fn render(value: Scalar) -> String {
    format!("{}", float(value))
}

/// One differential row, one algebraic row; the algebraic residual is as given.
fn solve_with(algebraic: f64, tolerance: f64) -> Result<Vec<Scalar>, KrasisError> {
    let newton = NewtonConfig {
        absolute_tolerance: scalar(tolerance),
        relative_tolerance: scalar(1.0e-10),
        initial_damping: scalar(1.0),
        minimum_damping: scalar(1.0e-4),
        encoding: "{}".to_owned(),
    };
    solve_consistent_state_rate_for(
        2,
        &vec![RowKind::Differential, RowKind::Algebraic],
        &newton,
        scalar(0.25),
        &scalars(&[1.0, 2.0]),
        |given: &NewtonConfig,
         time: Scalar,
         state: &Vec<Scalar>,
         rows: Vec<usize>,
         guess: Vec<Scalar>| {
            assert_eq!(given, &newton);
            assert_eq!(time, scalar(0.25));
            assert_eq!(*state, scalars(&[1.0, 2.0]));
            assert_eq!(rows, vec![0]);
            assert_eq!(guess, scalars(&[0.0]));
            Ok::<NewtonReport, SolveError>(NewtonReport {
                state: scalars(&[-3.0]),
                converged: true,
            })
        },
        |time: Scalar, state: &Vec<Scalar>, rate: Vec<Scalar>| {
            assert_eq!(time, scalar(0.25));
            assert_eq!(*state, scalars(&[1.0, 2.0]));
            assert_eq!(rate, scalars(&[-3.0, 0.0]));
            Ok::<Vec<Scalar>, SolveError>(scalars(&[0.0, algebraic]))
        },
        &render,
    )
}

#[test]
fn algebraic_rows_must_vanish_within_the_tolerance() {
    for residual in [0.0, -0.0, 0.5, -0.5] {
        assert_eq!(solve_with(residual, 0.5).unwrap(), scalars(&[-3.0, 0.0]));
    }
    for residual in [0.75, -0.75, f64::INFINITY, f64::NEG_INFINITY] {
        assert!(matches!(
            solve_with(residual, 0.5),
            Err(KrasisError::InvalidCoupling(_))
        ));
    }
    assert_eq!(
        solve_with(0.75, 0.5),
        Err(KrasisError::InvalidCoupling(
            "row 1 is marked algebraic but has residual 0.75 at the supplied initial state, \
             which exceeds the configured absolute tolerance 0.5; the initial condition is not \
             consistent with the algebraic constraint"
                .to_owned()
        ))
    );
}

/// Not a number is not zero, within whatever tolerance.
#[test]
fn a_nan_algebraic_row_is_refused() {
    assert!(matches!(
        solve_with(f64::NAN, 0.5),
        Err(KrasisError::InvalidCoupling(_))
    ));
    assert!(matches!(
        solve_with(f64::NAN, f64::INFINITY),
        Err(KrasisError::InvalidCoupling(_))
    ));
    assert!(matches!(
        solve_with(0.0, f64::NAN),
        Err(KrasisError::InvalidCoupling(_))
    ));
    // A row that carries a rate is not asked to vanish.
    assert_eq!(
        check_algebraic_rows(
            &vec![RowKind::Differential],
            &scalars(&[f64::NAN]),
            scalar(0.5),
            &render
        ),
        Ok(())
    );
}
