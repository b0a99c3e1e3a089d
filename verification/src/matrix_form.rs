//! The structural part of bringing a normalized problem into the matrix
//! form `A x = b`, minimize `c x`: which problems qualify, which variables
//! become columns, where a variable's column is, and which rows start with a
//! slack variable as their basic column.

use std::collections::BTreeMap;
use vstd::prelude::*;

use crate::basis::natural_basis_distinct_below;
use crate::errors::MatrixFormError;
use crate::maps::{ordered_keys, strictly_increasing};
use crate::normalizer::is_fixed_zero;
use crate::problem::{Problem, Relation, Sense, VariableBound, VariableKind};

verus! {

broadcast use {vstd::std_specs::btree::group_btree_axioms, vstd::laws_cmp::group_laws_cmp};

/// The problem is normalized: it minimizes and has only equations.
pub open spec fn is_normalized<C>(problem: Problem<C>) -> bool {
    &&& problem.sense == Sense::Min
    &&& forall|i: int|
        0 <= i < problem.constraints@.len() ==> (#[trigger] problem.constraints@[i]).relation
            == Relation::Equal
}

/// Refuses a problem that is not normalized.
pub fn check_normalized<C>(problem: &Problem<C>) -> (result: Result<(), MatrixFormError>)
    ensures
        result is Ok <==> is_normalized(*problem),
        result matches Err(error) ==> error == MatrixFormError::NotNormalized,
{
    if problem.sense != Sense::Min {
        return Err(MatrixFormError::NotNormalized);
    }
    let mut index: usize = 0;
    while index < problem.constraints.len()
        invariant
            index <= problem.constraints@.len(),
            forall|i: int| 0 <= i < index ==> (#[trigger] problem.constraints@[i]).relation
                == Relation::Equal,
        decreases problem.constraints.len() - index,
    {
        if problem.constraints[index].relation != Relation::Equal {
            return Err(MatrixFormError::NotNormalized);
        }
        index = index + 1;
    }
    Ok(())
}

/// Splits the variables of a problem, in increasing order, into those that
/// become columns of the matrix form, with their kinds, and those fixed at
/// zero, which are left out.
pub fn split_variables(
    kinds: &BTreeMap<usize, VariableKind>,
    bounds: &BTreeMap<usize, VariableBound>,
) -> (split: (Vec<usize>, Vec<VariableKind>, Vec<usize>))
    ensures
        strictly_increasing(split.0@),
        strictly_increasing(split.2@),
        split.1@.len() == split.0@.len(),
        forall|i: int| 0 <= i < split.0@.len() ==> split.1@[i] == kinds@[#[trigger] split.0@[i]],
        forall|v: usize|
            split.0@.contains(v) <==> kinds@.contains_key(v) && !is_fixed_zero(bounds@, v),
        forall|v: usize|
            split.2@.contains(v) <==> kinds@.contains_key(v) && is_fixed_zero(bounds@, v),
{
    let keys = ordered_keys(kinds);
    let mut variables: Vec<usize> = Vec::new();
    let mut variable_kinds: Vec<VariableKind> = Vec::new();
    let mut fixed_zero: Vec<usize> = Vec::new();
    let mut index: usize = 0;
    while index < keys.len()
        invariant
            index <= keys@.len(),
            strictly_increasing(keys@),
            forall|i: int| 0 <= i < keys@.len() ==> kinds@.contains_key(#[trigger] keys@[i]),
            forall|k: usize| kinds@.contains_key(k) ==> keys@.contains(k),
            strictly_increasing(variables@),
            strictly_increasing(fixed_zero@),
            variable_kinds@.len() == variables@.len(),
            forall|i: int|
                0 <= i < variables@.len() ==> variable_kinds@[i] == kinds@[#[trigger] variables@[i]],
            forall|v: usize|
                variables@.contains(v) <==> keys@.take(index as int).contains(v)
                    && !is_fixed_zero(bounds@, v),
            forall|v: usize|
                fixed_zero@.contains(v) <==> keys@.take(index as int).contains(v)
                    && is_fixed_zero(bounds@, v),
            forall|i: int|
                0 <= i < variables@.len() ==> #[trigger] variables@[i] < (if index < keys@.len() {
                    keys@[index as int] as int
                } else {
                    usize::MAX + 1
                }),
            forall|i: int|
                0 <= i < fixed_zero@.len() ==> #[trigger] fixed_zero@[i] < (if index < keys@.len() {
                    keys@[index as int] as int
                } else {
                    usize::MAX + 1
                }),
        decreases keys.len() - index,
    {
        let variable = keys[index];
        let fixed = match bounds.get(&variable) {
            Some(bound) => *bound == VariableBound::FixedZero,
            None => false,
        };
        assert(fixed == is_fixed_zero(bounds@, variable));
        let kind = *kinds.get(&variable).unwrap();
        let ghost old_variables = variables@;
        let ghost old_fixed = fixed_zero@;
        if fixed {
            fixed_zero.push(variable);
        } else {
            variables.push(variable);
            variable_kinds.push(kind);
        }
        proof {
            assert forall|v: usize| variables@.contains(v) <==> (old_variables.contains(v) || (!fixed
                && v == variable)) by {
                if variables@.contains(v) && !old_variables.contains(v) {
                    let k = choose|k: int| 0 <= k < variables@.len() && variables@[k] == v;
                    if k < old_variables.len() {
                        assert(old_variables[k] == v);
                    }
                }
                if old_variables.contains(v) {
                    let k = choose|k: int| 0 <= k < old_variables.len() && old_variables[k] == v;
                    assert(variables@[k] == v);
                }
                if !fixed && v == variable {
                    assert(variables@[variables@.len() - 1] == v);
                }
            }
            assert forall|v: usize| fixed_zero@.contains(v) <==> (old_fixed.contains(v) || (fixed
                && v == variable)) by {
                if fixed_zero@.contains(v) && !old_fixed.contains(v) {
                    let k = choose|k: int| 0 <= k < fixed_zero@.len() && fixed_zero@[k] == v;
                    if k < old_fixed.len() {
                        assert(old_fixed[k] == v);
                    }
                }
                if old_fixed.contains(v) {
                    let k = choose|k: int| 0 <= k < old_fixed.len() && old_fixed[k] == v;
                    assert(fixed_zero@[k] == v);
                }
                if fixed && v == variable {
                    assert(fixed_zero@[fixed_zero@.len() - 1] == v);
                }
            }
        }
        proof {
            let shorter = keys@.take(index as int);
            let longer = keys@.take(index + 1);
            assert(longer =~= shorter.push(variable));
            assert forall|v: usize| longer.contains(v) <==> (shorter.contains(v) || v == variable) by {
                if longer.contains(v) && v != variable {
                    let k = choose|k: int| 0 <= k < longer.len() && longer[k] == v;
                    assert(shorter[k] == v);
                }
                if shorter.contains(v) {
                    let k = choose|k: int| 0 <= k < shorter.len() && shorter[k] == v;
                    assert(longer[k] == v);
                }
                if v == variable {
                    assert(longer[index as int] == v);
                }
            }
            if shorter.contains(variable) {
                let k = choose|k: int| 0 <= k < shorter.len() && shorter[k] == variable;
                assert(keys@[k] < keys@[index as int]);
            }
            assert forall|v: usize| variables@.contains(v) <==> longer.contains(v)
                && !is_fixed_zero(bounds@, v) by {
                assert(old_variables.contains(v) <==> shorter.contains(v) && !is_fixed_zero(
                    bounds@,
                    v,
                ));
                assert(longer.contains(v) <==> (shorter.contains(v) || v == variable));
                assert(variables@.contains(v) <==> (old_variables.contains(v) || (!fixed && v
                    == variable)));
            }
            assert forall|v: usize| fixed_zero@.contains(v) <==> longer.contains(v)
                && is_fixed_zero(bounds@, v) by {
                assert(old_fixed.contains(v) <==> shorter.contains(v) && is_fixed_zero(bounds@, v));
                assert(longer.contains(v) <==> (shorter.contains(v) || v == variable));
                assert(fixed_zero@.contains(v) <==> (old_fixed.contains(v) || (fixed && v
                    == variable)));
            }
            if index + 1 < keys@.len() {
                assert(keys@[index as int] < keys@[index + 1]);
            }
        }
        index = index + 1;
    }
    proof {
        assert(keys@.take(index as int) =~= keys@);
    }
    (variables, variable_kinds, fixed_zero)
}

/// The column of a variable: its first position in the list of columns.
pub fn variable_index(variables: &[usize], variable: usize) -> (result: Result<
    usize,
    MatrixFormError,
>)
    ensures
        match result {
            Ok(index) => index < variables@.len() && variables@[index as int] == variable
                && forall|i: int| 0 <= i < index ==> variables@[i] != variable,
            Err(error) => error == (MatrixFormError::UnknownVariable { variable })
                && !variables@.contains(variable),
        },
{
    let mut index: usize = 0;
    while index < variables.len()
        invariant
            index <= variables@.len(),
            forall|i: int| 0 <= i < index ==> variables@[i] != variable,
        decreases variables.len() - index,
    {
        if variables[index] == variable {
            return Ok(index);
        }
        index = index + 1;
    }
    Err(MatrixFormError::UnknownVariable { variable })
}

/// The column is a slack column that is the unit column of `row`.
pub open spec fn is_natural_column(
    kinds: Seq<VariableKind>,
    identity_rows: Seq<Option<usize>>,
    column: int,
    row: int,
) -> bool {
    kinds[column] == VariableKind::Slack && identity_rows[column] == Some(row as usize)
}

/// The natural basis: for each row, the first slack column that is the unit
/// column of that row, if any. `identity_rows[c]` is the row of which column
/// `c` is the unit column (a single 1 there and zeros elsewhere), if it is
/// one.
pub fn natural_slack_basis(
    kinds: &Vec<VariableKind>,
    identity_rows: &Vec<Option<usize>>,
    rows: usize,
) -> (basis: Vec<Option<usize>>)
    requires
        kinds@.len() == identity_rows@.len(),
    ensures
        basis@.len() == rows,
        forall|row: int|
            0 <= row < rows ==> match #[trigger] basis@[row] {
                Some(column) => column < kinds@.len() && is_natural_column(
                    kinds@,
                    identity_rows@,
                    column as int,
                    row,
                ) && forall|earlier: int|
                    0 <= earlier < column ==> !is_natural_column(
                        kinds@,
                        identity_rows@,
                        earlier,
                        row,
                    ),
                None => forall|column: int|
                    0 <= column < kinds@.len() ==> !is_natural_column(
                        kinds@,
                        identity_rows@,
                        column,
                        row,
                    ),
            },
        natural_basis_distinct_below(basis@, kinds@.len()),
{
    let mut basis: Vec<Option<usize>> = Vec::new();
    let mut row: usize = 0;
    while row < rows
        invariant
            row <= rows,
            basis@.len() == row,
            kinds@.len() == identity_rows@.len(),
            forall|r: int|
                0 <= r < row ==> match #[trigger] basis@[r] {
                    Some(column) => column < kinds@.len() && is_natural_column(
                        kinds@,
                        identity_rows@,
                        column as int,
                        r,
                    ) && forall|earlier: int|
                        0 <= earlier < column ==> !is_natural_column(
                            kinds@,
                            identity_rows@,
                            earlier,
                            r,
                        ),
                    None => forall|column: int|
                        0 <= column < kinds@.len() ==> !is_natural_column(
                            kinds@,
                            identity_rows@,
                            column,
                            r,
                        ),
                },
        decreases rows - row,
    {
        let mut found: Option<usize> = None;
        let mut column: usize = 0;
        while column < kinds.len()
            invariant_except_break
                found is None,
            invariant
                column <= kinds@.len(),
                kinds@.len() == identity_rows@.len(),
                forall|earlier: int|
                    0 <= earlier < column ==> !is_natural_column(
                        kinds@,
                        identity_rows@,
                        earlier,
                        row as int,
                    ),
            ensures
                found matches Some(c) ==> c < kinds@.len() && is_natural_column(
                    kinds@,
                    identity_rows@,
                    c as int,
                    row as int,
                ) && c == column,
                found is None ==> column == kinds@.len(),
            decreases kinds.len() - column,
        {
            if kinds[column] == VariableKind::Slack && identity_rows[column] == Some(row) {
                found = Some(column);
                break;
            }
            column = column + 1;
        }
        basis.push(found);
        row = row + 1;
    }
    proof {
        assert forall|i: int, j: int|
            0 <= i < basis@.len() && 0 <= j < basis@.len() && i != j && basis@[i] is Some
                && basis@[j] is Some implies basis@[i]->0 != basis@[j]->0 by {
            let ci = basis@[i]->0;
            let cj = basis@[j]->0;
            assert(identity_rows@[ci as int] == Some(i as usize));
            assert(identity_rows@[cj as int] == Some(j as usize));
        }
    }
    basis
}

} // verus!
