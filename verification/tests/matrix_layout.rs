use std::collections::BTreeMap;

use simplex::errors::MatrixFormError;
use simplex::matrix_form::{check_normalized, natural_slack_basis, split_variables, variable_index};
use simplex::problem::{Constraint, Problem, Relation, Sense, VariableBound, VariableKind};

fn problem(sense: Sense, relations: &[Relation]) -> Problem<i64> {
    Problem {
        sense,
        original_sense: sense,
        objective: Vec::new(),
        constraints: relations
            .iter()
            .map(|relation| Constraint { terms: Vec::new(), relation: *relation, rhs: 0 })
            .collect(),
        variable_bounds: BTreeMap::new(),
        variable_kinds: BTreeMap::new(),
        warnings: Vec::new(),
    }
}

#[test]
fn only_normalized_problems_have_a_matrix_form() {
    assert_eq!(check_normalized(&problem(Sense::Min, &[Relation::Equal])), Ok(()));
    assert_eq!(
        check_normalized(&problem(Sense::Max, &[Relation::Equal])),
        Err(MatrixFormError::NotNormalized)
    );
    assert_eq!(
        check_normalized(&problem(Sense::Min, &[Relation::Equal, Relation::LessOrEqual])),
        Err(MatrixFormError::NotNormalized)
    );
}

#[test]
fn fixed_zero_variables_are_not_columns() {
    let mut kinds = BTreeMap::new();
    let mut bounds = BTreeMap::new();
    for variable in 1..=3 {
        kinds.insert(variable, VariableKind::Original);
        bounds.insert(variable, VariableBound::NonNegative);
    }
    bounds.insert(3, VariableBound::FixedZero);
    kinds.insert(4, VariableKind::Slack);
    bounds.insert(4, VariableBound::NonNegative);
    let (variables, variable_kinds, fixed_zero) = split_variables(&kinds, &bounds);
    assert_eq!(variables, vec![1, 2, 4]);
    assert_eq!(
        variable_kinds,
        vec![VariableKind::Original, VariableKind::Original, VariableKind::Slack]
    );
    assert_eq!(fixed_zero, vec![3]);
}

#[test]
fn columns_are_found_by_variable() {
    assert_eq!(variable_index(&[1, 2, 5], 5), Ok(2));
    assert_eq!(
        variable_index(&[1, 2, 5], 3),
        Err(MatrixFormError::UnknownVariable { variable: 3 })
    );
}

#[test]
fn natural_basis_is_found_row_by_row() {
    let kinds = vec![
        VariableKind::Original,
        VariableKind::Original,
        VariableKind::Slack,
        VariableKind::Excess,
        VariableKind::Slack,
    ];
    let identity_rows = vec![None, None, Some(0), Some(1), Some(2)];
    assert_eq!(
        natural_slack_basis(&kinds, &identity_rows, 3),
        vec![Some(2), None, Some(4)]
    );
}
