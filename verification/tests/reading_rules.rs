use std::collections::BTreeMap;

use simplex::problem::{Relation, VariableBound, VariableKind};
use simplex::problem_parser::{
    classify_relation_line, finish_bounds, parse_variable_index, record_bound, used_variables,
    LineRole,
};

#[test]
fn variable_indices_are_read_as_rust_reads_a_usize() {
    assert_eq!(parse_variable_index("12", 1).unwrap(), 12);
    assert_eq!(parse_variable_index("007", 1).unwrap(), 7);
    assert_eq!(parse_variable_index("+5", 1).unwrap(), 5);
    assert_eq!(
        parse_variable_index(&usize::MAX.to_string(), 1).unwrap(),
        usize::MAX
    );
}

#[test]
fn variable_index_zero_is_refused_on_its_line() {
    let error = parse_variable_index("0", 4).unwrap_err();
    assert_eq!(error.line, Some(4));
    assert!(error.message.contains("x_0"));
    assert_eq!(
        error.message,
        "índice de variável inválido: x_0; os índices devem começar em 1"
    );
}

#[test]
fn malformed_variable_indices_are_refused() {
    for text in ["", "+", "-1", "1a", "99999999999999999999999999"] {
        let error = parse_variable_index(text, 2).unwrap_err();
        assert_eq!(error.line, Some(2));
        assert_eq!(error.message, format!("índice de variável inválido: \"{text}\""));
    }
}

#[test]
fn relation_lines_are_classified() {
    assert_eq!(
        classify_relation_line(false, true, Relation::GreaterOrEqual, true, true, 3),
        Ok(LineRole::Bound(VariableBound::NonNegative))
    );
    assert_eq!(
        classify_relation_line(false, false, Relation::LessOrEqual, true, true, 3),
        Ok(LineRole::Bound(VariableBound::NonPositive))
    );
    assert_eq!(
        classify_relation_line(false, false, Relation::LessOrEqual, false, true, 3),
        Ok(LineRole::Constraint)
    );
    assert_eq!(
        classify_relation_line(false, false, Relation::Equal, true, true, 3),
        Ok(LineRole::Constraint)
    );
}

#[test]
fn malformed_bound_lines_are_refused() {
    let equal = classify_relation_line(false, true, Relation::Equal, true, true, 5).unwrap_err();
    assert_eq!(equal.line, Some(5));
    assert_eq!(equal.message, "um limite não pode usar '='");

    let nonzero =
        classify_relation_line(false, true, Relation::LessOrEqual, false, true, 5).unwrap_err();
    assert_eq!(nonzero.message, "o lado direito de um limite deve ser 0");

    let list =
        classify_relation_line(false, true, Relation::LessOrEqual, true, false, 5).unwrap_err();
    assert_eq!(list.message, "lista de variáveis de limite inválida");
}

#[test]
fn constraints_may_not_follow_the_bounds() {
    let late =
        classify_relation_line(true, false, Relation::LessOrEqual, false, false, 6).unwrap_err();
    assert_eq!(late.line, Some(6));
    assert_eq!(late.message, "uma restrição não pode aparecer depois da seção de limites");
}

#[test]
fn repeated_bound_keeps_one_and_warns() {
    let mut bounds = BTreeMap::new();
    let mut warnings = Vec::new();
    record_bound(&mut bounds, &mut warnings, 1, VariableBound::NonPositive);
    assert!(warnings.is_empty());
    record_bound(&mut bounds, &mut warnings, 1, VariableBound::NonPositive);
    assert_eq!(bounds.get(&1), Some(&VariableBound::NonPositive));
    assert_eq!(warnings.len(), 1);
    assert_eq!(
        warnings[0],
        "Limite repetido para x_1; mantendo apenas uma ocorrência."
    );
}

#[test]
fn opposite_bounds_fix_the_variable_at_zero() {
    let mut bounds = BTreeMap::new();
    let mut warnings = Vec::new();
    record_bound(&mut bounds, &mut warnings, 1, VariableBound::NonPositive);
    record_bound(&mut bounds, &mut warnings, 1, VariableBound::NonNegative);
    assert_eq!(bounds.get(&1), Some(&VariableBound::FixedZero));
    assert!(warnings.is_empty());
}

#[test]
fn variables_without_declared_bounds_become_non_negative() {
    let mut bounds = BTreeMap::new();
    let mut warnings = Vec::new();
    let kinds = finish_bounds(&vec![1, 2], &mut bounds, &mut warnings).unwrap();
    assert_eq!(bounds.get(&1), Some(&VariableBound::NonNegative));
    assert_eq!(bounds.get(&2), Some(&VariableBound::NonNegative));
    assert_eq!(bounds.len(), 2);
    assert_eq!(warnings.len(), 1);
    assert!(warnings[0].contains("x_i >= 0"));
    assert_eq!(kinds.get(&1), Some(&VariableKind::Original));
    assert_eq!(kinds.get(&2), Some(&VariableKind::Original));
}

#[test]
fn partial_bounds_are_refused() {
    let mut bounds = BTreeMap::new();
    bounds.insert(1, VariableBound::NonPositive);
    let mut warnings = Vec::new();
    let error = finish_bounds(&vec![1, 2, 3], &mut bounds, &mut warnings).unwrap_err();
    assert_eq!(error.line, None);
    assert_eq!(error.message, "limites parciais: x_2 é usada, mas não possui limite");
    assert!(warnings.is_empty());
}

#[test]
fn bounds_on_unused_variables_are_refused() {
    let mut bounds = BTreeMap::new();
    bounds.insert(1, VariableBound::NonNegative);
    bounds.insert(4, VariableBound::NonNegative);
    bounds.insert(6, VariableBound::NonNegative);
    let mut warnings = Vec::new();
    let error = finish_bounds(&vec![1], &mut bounds, &mut warnings).unwrap_err();
    assert_eq!(error.message, "x_4 possui limite, mas não é usada no problema");
}

#[test]
fn complete_bounds_are_kept() {
    let mut bounds = BTreeMap::new();
    bounds.insert(1, VariableBound::NonNegative);
    bounds.insert(3, VariableBound::FixedZero);
    let before = bounds.clone();
    let mut warnings = Vec::new();
    let kinds = finish_bounds(&vec![1, 3], &mut bounds, &mut warnings).unwrap();
    assert_eq!(bounds, before);
    assert!(warnings.is_empty());
    assert_eq!(kinds.len(), 2);
}

#[test]
fn used_variables_are_sorted_without_repetition() {
    assert_eq!(used_variables(&vec![3, 1, 3, 2, 1]), vec![1, 2, 3]);
    assert_eq!(used_variables(&vec![]), Vec::<usize>::new());
}
