use std::collections::BTreeMap;

use simplex::errors::NormalizeError;
use simplex::normalizer::{
    add_slack_variables, highest_problem_variable, inequality_count, reject_non_positive,
    remove_fixed_zero_terms,
};
use simplex::problem::{Constraint, Problem, Relation, Sense, Term, VariableBound, VariableKind};

fn term(variable: usize, coefficient: f64) -> Term<f64> {
    Term { variable, coefficient }
}

#[test]
fn non_positive_variables_are_refused() {
    let mut bounds = BTreeMap::new();
    bounds.insert(1, VariableBound::NonNegative);
    assert_eq!(reject_non_positive(&bounds), Ok(()));
    bounds.insert(5, VariableBound::NonPositive);
    bounds.insert(3, VariableBound::NonPositive);
    assert_eq!(
        reject_non_positive(&bounds),
        Err(NormalizeError::NonPositiveVariable { variable: 3 })
    );
}

#[test]
fn fixed_zero_terms_leave_the_problem() {
    let mut bounds = BTreeMap::new();
    bounds.insert(1, VariableBound::NonNegative);
    bounds.insert(3, VariableBound::FixedZero);
    let mut terms = vec![term(1, 3.0), term(3, 13.0), term(2, -1.0)];
    remove_fixed_zero_terms(&mut terms, &bounds);
    assert_eq!(terms, vec![term(1, 3.0), term(2, -1.0)]);
}

#[test]
fn highest_variable_covers_bounds_objective_and_constraints() {
    let mut bounds = BTreeMap::new();
    bounds.insert(2, VariableBound::NonNegative);
    let problem = Problem {
        sense: Sense::Min,
        original_sense: Sense::Min,
        objective: vec![term(1, 1.0)],
        constraints: vec![Constraint {
            terms: vec![term(4, 1.0)],
            relation: Relation::Equal,
            rhs: 1.0,
        }],
        variable_bounds: bounds,
        variable_kinds: BTreeMap::new(),
        warnings: Vec::new(),
    };
    assert_eq!(highest_problem_variable(&problem), 4);
}

#[test]
fn slack_and_excess_variables_come_after_the_original_ones() {
    let mut bounds = BTreeMap::new();
    bounds.insert(1, VariableBound::NonNegative);
    bounds.insert(2, VariableBound::NonNegative);
    let mut kinds = BTreeMap::new();
    kinds.insert(1, VariableKind::Original);
    kinds.insert(2, VariableKind::Original);
    let constraints = vec![
        Constraint { terms: vec![term(1, 1.0), term(2, 1.0)], relation: Relation::LessOrEqual, rhs: 4.0 },
        Constraint { terms: vec![term(1, 1.0)], relation: Relation::Equal, rhs: 3.0 },
        Constraint { terms: vec![term(1, 1.0), term(2, 1.0)], relation: Relation::GreaterOrEqual, rhs: 4.0 },
    ];
    let equations = add_slack_variables(constraints, 2, &mut bounds, &mut kinds, 1.0, -1.0);
    assert!(equations.iter().all(|c| c.relation == Relation::Equal));
    assert_eq!(equations[0].terms, vec![term(1, 1.0), term(2, 1.0), term(3, 1.0)]);
    assert_eq!(equations[1].terms, vec![term(1, 1.0)]);
    assert_eq!(equations[2].terms, vec![term(1, 1.0), term(2, 1.0), term(4, -1.0)]);
    assert_eq!(equations[2].rhs, 4.0);
    assert_eq!(bounds.get(&3), Some(&VariableBound::NonNegative));
    assert_eq!(bounds.get(&4), Some(&VariableBound::NonNegative));
    assert_eq!(kinds.get(&3), Some(&VariableKind::Slack));
    assert_eq!(kinds.get(&4), Some(&VariableKind::Excess));
    assert_eq!(kinds.get(&1), Some(&VariableKind::Original));
}

#[test]
fn equations_need_no_new_variable() {
    let rows = vec![
        Constraint { terms: vec![term(1, 1.0)], relation: Relation::Equal, rhs: 2.0 },
        Constraint { terms: vec![term(2, 1.0)], relation: Relation::LessOrEqual, rhs: 2.0 },
        Constraint { terms: vec![term(1, 1.0)], relation: Relation::GreaterOrEqual, rhs: 1.0 },
    ];
    assert_eq!(inequality_count(&rows), 2);

    let equations = vec![Constraint {
        terms: vec![term(usize::MAX, 1.0)],
        relation: Relation::Equal,
        rhs: 0.0,
    }];
    assert_eq!(inequality_count(&equations), 0);
    let mut bounds = BTreeMap::new();
    let mut kinds = BTreeMap::new();
    let result = add_slack_variables(equations, usize::MAX, &mut bounds, &mut kinds, 1.0, -1.0);
    assert_eq!(result.len(), 1);
    assert_eq!(result[0].terms, vec![term(usize::MAX, 1.0)]);
    assert!(bounds.is_empty() && kinds.is_empty());
}
