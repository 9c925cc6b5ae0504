//! Two operators from distinct method families, coupled by explicit matrices.

use krasis::{
    BdfState, BlockSpec, CrossDialectOperator, DialectCalls, DiscreteOperator, KrasisError,
    NumericError, Scalar, SolveError,
};

fn scalar(value: f64) -> Scalar {
    Scalar::from_bits(value.to_bits())
}

fn scalars(values: &[f64]) -> Vec<Scalar> {
    values.iter().map(|value| scalar(*value)).collect()
}

fn float(value: Scalar) -> f64 {
    f64::from_bits(value.to_bits())
}

fn floats(values: &[Scalar]) -> Vec<f64> {
    values.iter().map(|value| float(*value)).collect()
}

fn matrix(rows: &[&[f64]]) -> Vec<Vec<Scalar>> {
    rows.iter().map(|row| scalars(row)).collect()
}

/// Upwind transport on a ring of two cells, and a one-state network.
fn blocks() -> (DiscreteOperator, DiscreteOperator) {
    (
        DiscreteOperator {
            family_identity: "finite-volume/1".to_owned(),
            identity: "upwind-ring".to_owned(),
            dimension: 2,
        },
        DiscreteOperator {
            family_identity: "network-dae/1".to_owned(),
            identity: "decay".to_owned(),
            dimension: 1,
        },
    )
}

fn compose(
    left: DiscreteOperator,
    right: DiscreteOperator,
    left_from_right: Vec<Vec<Scalar>>,
    right_from_left: Vec<Vec<Scalar>>,
) -> Result<CrossDialectOperator, KrasisError> {
    CrossDialectOperator::new(
        left,
        right,
        left_from_right,
        right_from_left,
        &|_: &Vec<BlockSpec>| Ok::<(), String>(()),
        &|value: Scalar| format!("{:?}", float(value)),
    )
}

fn operator() -> CrossDialectOperator {
    let (finite_volume, network) = blocks();
    compose(
        finite_volume,
        network,
        matrix(&[&[0.5], &[-0.5]]),
        matrix(&[&[0.25, -0.25]]),
    )
    .unwrap()
}

/// The two laws, linear in state and rate.
fn law(side: usize, state: &[f64], rate: &[f64]) -> Vec<f64> {
    if side == 0 {
        vec![
            rate[0] + state[0] - state[1],
            rate[1] + state[1] - state[0],
        ]
    } else {
        vec![rate[0] + 2.0 * state[0]]
    }
}

fn dot(row: &Vec<Scalar>, input: &Vec<Scalar>) -> Scalar {
    scalar(
        floats(row)
            .iter()
            .zip(&floats(input))
            .map(|(a, b)| a * b)
            .sum(),
    )
}

fn sum(left: Scalar, right: Scalar) -> Scalar {
    scalar(float(left) + float(right))
}

fn residual(
    operator: &CrossDialectOperator,
    time: f64,
    state: &[f64],
    rate: &[f64],
) -> Result<Vec<f64>, NumericError> {
    let calls = DialectCalls {
        block: |side: usize, _: Scalar, parts: &Vec<Vec<Scalar>>| {
            Ok::<Vec<Scalar>, SolveError>(scalars(&law(
                side,
                &floats(&parts[0]),
                &floats(&parts[1]),
            )))
        },
        dot,
        sum,
    };
    operator
        .residual(scalar(time), &scalars(state), &scalars(rate), 3, &calls)
        .map(|values| floats(&values))
}

fn product(operator: &CrossDialectOperator, direction: &[f64], rate_direction: &[f64]) -> Vec<f64> {
    let calls = DialectCalls {
        block: |side: usize, _: Scalar, parts: &Vec<Vec<Scalar>>| {
            Ok::<Vec<Scalar>, SolveError>(scalars(&law(
                side,
                &floats(&parts[2]),
                &floats(&parts[3]),
            )))
        },
        dot,
        sum,
    };
    let zero = scalars(&[0.0; 3]);
    let values = operator
        .jacobian_vector_product(
            scalar(0.0),
            &zero,
            &zero,
            &scalars(direction),
            &scalars(rate_direction),
            3,
            &calls,
        )
        .unwrap();
    floats(&values)
}

#[test]
fn explicit_off_diagonal_blocks_form_a_real_bidirectional_dae() {
    let operator = operator();
    let state = [1.0, 0.0, 2.0];
    let rate = [0.1, 0.2, 0.3];
    assert_eq!(
        residual(&operator, 0.0, &state, &rate).unwrap(),
        vec![2.1, -1.8, 4.55]
    );
    assert!(operator.identity().starts_with("blake3:"));
    let (direction, rate_direction) = ([-0.4, 0.7, 0.2], [0.5, -0.1, 0.6]);
    let at = |by: f64| {
        let moved = |values: &[f64], along: &[f64]| -> Vec<f64> {
            values.iter().zip(along).map(|(v, d)| v + by * d).collect()
        };
        residual(
            &operator,
            0.3,
            &moved(&state, &direction),
            &moved(&rate, &rate_direction),
        )
        .unwrap()
    };
    let discrepancy = at(1.0e-6)
        .iter()
        .zip(&at(-1.0e-6))
        .zip(&product(&operator, &direction, &rate_direction))
        .map(|((ahead, behind), value)| ((ahead - behind) / 2.0e-6 - value).abs())
        .fold(0.0, f64::max);
    assert!(discrepancy < 1.0e-9);
}

#[test]
fn identity_is_canonical_and_covers_coupling_matrices() {
    let baseline = operator();
    assert_eq!(baseline.identity(), operator().identity());

    let (finite_volume, network) = blocks();
    let changed = compose(
        finite_volume,
        network,
        matrix(&[&[0.75], &[-0.5]]),
        matrix(&[&[0.25, -0.25]]),
    )
    .unwrap();
    assert_ne!(baseline.identity(), changed.identity());
}

#[test]
fn solverang_advances_the_cross_dialect_system_without_method_specific_policy() {
    let operator = operator();
    let state = BdfState {
        time: scalar(0.0),
        values: scalars(&[1.0, 0.0, 0.5]),
        previous_values: None,
        previous_step: None,
        accepted_steps: 0,
    };
    // One backward step by sweeps over the rows.
    let values = floats(&state.values);
    let step = 0.1;
    let mut next = values.clone();
    for _ in 0..200 {
        for row in 0..3 {
            let rate: Vec<f64> = next
                .iter()
                .zip(&values)
                .map(|(after, before)| (after - before) / step)
                .collect();
            let value = residual(&operator, step, &next, &rate).unwrap()[row];
            let mut direction = vec![0.0; 3];
            direction[row] = 1.0;
            let mut rate_direction = vec![0.0; 3];
            rate_direction[row] = 1.0 / step;
            next[row] -= value / product(&operator, &direction, &rate_direction)[row];
        }
    }
    let accepted = BdfState {
        time: scalar(step),
        values: scalars(&next),
        previous_values: Some(state.values.clone()),
        previous_step: Some(scalar(step)),
        accepted_steps: state.accepted_steps + 1,
    };
    assert_eq!(accepted.accepted_steps, 1);
    assert_eq!(float(accepted.time), 0.1);
    assert_ne!(accepted.values, state.values);
    let rate: Vec<f64> = next
        .iter()
        .zip(&values)
        .map(|(after, before)| (after - before) / step)
        .collect();
    assert!(residual(&operator, step, &next, &rate)
        .unwrap()
        .iter()
        .all(|value| value.abs() < 1.0e-9));
}

#[test]
fn same_family_and_one_way_placeholders_are_refused() {
    let (finite_volume, network) = blocks();
    assert!(compose(
        finite_volume.clone(),
        finite_volume,
        matrix(&[&[0.5, 0.0], &[0.0, 0.5]]),
        matrix(&[&[0.5, 0.0], &[0.0, 0.5]]),
    )
    .is_err());
    let (finite_volume, _) = blocks();
    assert!(compose(
        finite_volume,
        network,
        matrix(&[&[0.5], &[-0.5]]),
        matrix(&[&[0.0, 0.0]]),
    )
    .is_err());
}
