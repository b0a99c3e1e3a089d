use simplex::basis::{
    append_fresh_variables, artificial_basis, artificial_columns_from_last, basis_from_natural,
    change_basis, contains_column, highest_variable, non_basic_complement,
    remove_column_from_basis, retire_basic_row,
};
use simplex::errors::MatrixFormError;
use simplex::problem::VariableKind;

fn is_partition(basic: &[usize], non_basic: &[usize], columns: usize) -> bool {
    let mut seen = vec![0; columns];
    for column in basic.iter().chain(non_basic) {
        if *column >= columns {
            return false;
        }
        seen[*column] += 1;
    }
    seen.iter().all(|count| *count == 1)
}

#[test]
fn complement_lists_the_other_columns_in_order() {
    assert_eq!(non_basic_complement(&vec![2, 3, 4], 5), vec![0, 1]);
    assert_eq!(non_basic_complement(&vec![], 3), vec![0, 1, 2]);
    assert!(contains_column(&vec![4, 2], 2));
    assert!(!contains_column(&vec![4, 2], 3));
}

#[test]
fn complete_natural_basis_gives_the_second_phase_basis() {
    let (basic, non_basic) = basis_from_natural(&vec![Some(2), Some(3), Some(4)], 5).unwrap();
    assert_eq!(basic, vec![2, 3, 4]);
    assert_eq!(non_basic, vec![0, 1]);
    assert!(is_partition(&basic, &non_basic, 5));
}

#[test]
fn rows_without_natural_basis_are_reported() {
    assert_eq!(
        basis_from_natural(&vec![Some(2), None, Some(4)], 5),
        Err(MatrixFormError::MissingInitialBasis { rows: vec![1] })
    );
}

#[test]
fn a_pivot_exchanges_one_basic_and_one_non_basic_column() {
    let mut basic = vec![2, 3, 4];
    let mut non_basic = vec![0, 1];
    change_basis(&mut basic, &mut non_basic, 1, 0);
    assert_eq!(basic, vec![2, 0, 4]);
    assert_eq!(non_basic, vec![3, 1]);
    assert!(is_partition(&basic, &non_basic, 5));
}

#[test]
fn artificial_columns_follow_the_existing_ones() {
    let (missing, basic, non_basic) = artificial_basis(&vec![Some(2), None, Some(4), None], 5);
    assert_eq!(missing, vec![1, 3]);
    assert_eq!(basic, vec![2, 5, 4, 6]);
    assert_eq!(non_basic, vec![0, 1, 3]);
    assert!(is_partition(&basic, &non_basic, 7));
}

#[test]
fn fresh_variables_are_numbered_after_the_largest() {
    assert_eq!(highest_variable(&vec![3, 9, 4]), 9);
    assert_eq!(highest_variable(&vec![]), 0);
    let mut variables = vec![1, 4, 2];
    append_fresh_variables(&mut variables, 2);
    assert_eq!(variables, vec![1, 4, 2, 5, 6]);
}

#[test]
fn removing_a_non_basic_column_renumbers_the_rest() {
    let mut basic = vec![2, 5, 4];
    let mut non_basic = vec![0, 1, 3, 6];
    remove_column_from_basis(&mut basic, &mut non_basic, 3);
    assert_eq!(basic, vec![2, 4, 3]);
    assert_eq!(non_basic, vec![0, 1, 5]);
    assert!(is_partition(&basic, &non_basic, 6));
}

#[test]
fn retiring_a_row_makes_its_column_non_basic() {
    let mut basic = vec![2, 5, 4];
    let mut non_basic = vec![0, 1, 3];
    retire_basic_row(&mut basic, &mut non_basic, 1);
    assert_eq!(basic, vec![2, 4]);
    assert_eq!(non_basic, vec![0, 1, 3, 5]);
    assert!(is_partition(&basic, &non_basic, 6));
}

#[test]
fn artificial_columns_are_listed_from_the_last() {
    let kinds = vec![
        VariableKind::Original,
        VariableKind::Artificial,
        VariableKind::Slack,
        VariableKind::Artificial,
        VariableKind::Artificial,
        VariableKind::Excess,
    ];
    assert_eq!(artificial_columns_from_last(&kinds), vec![4, 3, 1]);
    assert_eq!(
        artificial_columns_from_last(&vec![VariableKind::Original, VariableKind::Slack]),
        Vec::<usize>::new()
    );
}
