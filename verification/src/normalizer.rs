//! The structural part of normalization: every constraint becomes an
//! equation by means of a new slack (for `<=`) or excess (for `>=`)
//! variable numbered after all the others, variables fixed at zero leave the
//! problem's terms, and problems with a non-positive variable are refused.

use std::collections::BTreeMap;
use vstd::prelude::*;

use crate::errors::NormalizeError;
use crate::maps::ordered_keys;
use crate::problem::{Constraint, Problem, Relation, Term, VariableBound, VariableKind};

verus! {

broadcast use {vstd::std_specs::btree::group_btree_axioms, vstd::laws_cmp::group_laws_cmp};

/// The bound map restricts the variable to `x <= 0`.
pub open spec fn is_non_positive(bounds: Map<usize, VariableBound>, variable: usize) -> bool {
    bounds.contains_key(variable) && bounds[variable] == VariableBound::NonPositive
}

/// Refuses a problem with a variable restricted to `x <= 0`, naming the
/// smallest such variable.
pub fn reject_non_positive(bounds: &BTreeMap<usize, VariableBound>) -> (result: Result<
    (),
    NormalizeError,
>)
    ensures
        result is Ok <==> forall|v: usize| !is_non_positive(bounds@, v),
        result matches Err(NormalizeError::NonPositiveVariable { variable }) ==> is_non_positive(
            bounds@,
            variable,
        ) && forall|w: usize| w < variable ==> !is_non_positive(bounds@, w),
{
    let keys = ordered_keys(bounds);
    let mut index: usize = 0;
    while index < keys.len()
        invariant
            index <= keys@.len(),
            crate::maps::strictly_increasing(keys@),
            forall|i: int| 0 <= i < keys@.len() ==> bounds@.contains_key(#[trigger] keys@[i]),
            forall|k: usize| bounds@.contains_key(k) ==> keys@.contains(k),
            forall|i: int| 0 <= i < index ==> !is_non_positive(bounds@, #[trigger] keys@[i]),
        decreases keys.len() - index,
    {
        let variable = keys[index];
        let non_positive = match bounds.get(&variable) {
            Some(bound) => *bound == VariableBound::NonPositive,
            None => false,
        };
        if non_positive {
            assert forall|w: usize| w < variable implies !is_non_positive(bounds@, w) by {
                if bounds@.contains_key(w) {
                    assert(keys@.contains(w));
                    let k = choose|k: int| 0 <= k < keys@.len() && keys@[k] == w;
                    if k >= index {
                        if k > index {
                            assert(keys@[index as int] < keys@[k]);
                        }
                    }
                }
            }
            assert(is_non_positive(bounds@, variable));
            return Err(NormalizeError::NonPositiveVariable { variable });
        }
        index = index + 1;
    }
    assert forall|v: usize| !is_non_positive(bounds@, v) by {
        if bounds@.contains_key(v) {
            assert(keys@.contains(v));
            let k = choose|k: int| 0 <= k < keys@.len() && keys@[k] == v;
            assert(!is_non_positive(bounds@, keys@[k]));
        }
    }
    Ok(())
}

/// The bound map fixes the variable at zero.
pub open spec fn is_fixed_zero(bounds: Map<usize, VariableBound>, variable: usize) -> bool {
    bounds.contains_key(variable) && bounds[variable] == VariableBound::FixedZero
}

/// The terms whose variable is not fixed at zero, in their order.
pub open spec fn without_fixed_zero<C>(terms: Seq<Term<C>>, bounds: Map<usize, VariableBound>) -> Seq<
    Term<C>,
>
    decreases terms.len(),
{
    if terms.len() == 0 {
        Seq::empty()
    } else {
        let rest = without_fixed_zero(terms.drop_last(), bounds);
        if is_fixed_zero(bounds, terms.last().variable) {
            rest
        } else {
            rest.push(terms.last())
        }
    }
}

/// Drops the terms whose variable is fixed at zero.
pub fn remove_fixed_zero_terms<C: Copy>(
    terms: &mut Vec<Term<C>>,
    bounds: &BTreeMap<usize, VariableBound>,
)
    ensures
        final(terms)@ == without_fixed_zero(old(terms)@, bounds@),
{
    let mut kept: Vec<Term<C>> = Vec::new();
    let mut index: usize = 0;
    while index < terms.len()
        invariant
            index <= terms@.len(),
            terms@ == old(terms)@,
            kept@ == without_fixed_zero(terms@.take(index as int), bounds@),
        decreases terms.len() - index,
    {
        let term = terms[index];
        assert(terms@.take(index + 1).drop_last() =~= terms@.take(index as int));
        let fixed_zero = match bounds.get(&term.variable) {
            Some(bound) => *bound == VariableBound::FixedZero,
            None => false,
        };
        if !fixed_zero {
            kept.push(term);
        }
        index = index + 1;
    }
    assert(terms@.take(index as int) =~= terms@);
    *terms = kept;
}

/// The variable appears in the problem: it has a bound, or it occurs in the
/// objective or in a constraint.
pub open spec fn appears_in<C>(problem: Problem<C>, variable: usize) -> bool {
    ||| problem.variable_bounds@.contains_key(variable)
    ||| exists|i: int|
        0 <= i < problem.objective@.len() && (#[trigger] problem.objective@[i]).variable
            == variable
    ||| exists|i: int, j: int|
        0 <= i < problem.constraints@.len() && 0 <= j < problem.constraints@[i].terms@.len()
            && (#[trigger] problem.constraints@[i].terms@[j]).variable == variable
}

/// The largest variable of the problem: over the variables with a bound and
/// those in the objective and the constraints, 0 when there is none.
pub fn highest_problem_variable<C>(problem: &Problem<C>) -> (highest: usize)
    ensures
        forall|v: usize| appears_in(*problem, v) ==> v <= highest,
        highest == 0 || appears_in(*problem, highest),
{
    let keys = ordered_keys(&problem.variable_bounds);
    let mut highest: usize = 0;
    if keys.len() > 0 {
        highest = keys[keys.len() - 1];
        assert forall|v: usize| problem.variable_bounds@.contains_key(v) implies v <= highest by {
            let k = choose|k: int| 0 <= k < keys@.len() && keys@[k] == v;
            if k < keys@.len() - 1 {
                assert(keys@[k] < keys@[keys@.len() - 1]);
            }
        }
    }
    let mut index: usize = 0;
    while index < problem.objective.len()
        invariant
            index <= problem.objective@.len(),
            forall|v: usize| problem.variable_bounds@.contains_key(v) ==> v <= highest,
            forall|i: int| 0 <= i < index ==> problem.objective@[i].variable <= highest,
            highest == 0 || appears_in(*problem, highest),
        decreases problem.objective.len() - index,
    {
        if problem.objective[index].variable > highest {
            highest = problem.objective[index].variable;
            assert(problem.objective@[index as int].variable == highest);
        }
        index = index + 1;
    }
    let mut row: usize = 0;
    while row < problem.constraints.len()
        invariant
            row <= problem.constraints@.len(),
            forall|v: usize| problem.variable_bounds@.contains_key(v) ==> v <= highest,
            forall|i: int|
                0 <= i < problem.objective@.len() ==> problem.objective@[i].variable <= highest,
            forall|i: int, j: int|
                0 <= i < row && 0 <= j < problem.constraints@[i].terms@.len()
                    ==> problem.constraints@[i].terms@[j].variable <= highest,
            highest == 0 || appears_in(*problem, highest),
        decreases problem.constraints.len() - row,
    {
        let terms = &problem.constraints[row].terms;
        let mut position: usize = 0;
        while position < terms.len()
            invariant
                row < problem.constraints@.len(),
                *terms == problem.constraints@[row as int].terms,
                position <= terms@.len(),
                forall|v: usize| problem.variable_bounds@.contains_key(v) ==> v <= highest,
                forall|i: int|
                    0 <= i < problem.objective@.len() ==> problem.objective@[i].variable <= highest,
                forall|i: int, j: int|
                    0 <= i < row && 0 <= j < problem.constraints@[i].terms@.len()
                        ==> problem.constraints@[i].terms@[j].variable <= highest,
                forall|j: int| 0 <= j < position ==> terms@[j].variable <= highest,
                highest == 0 || appears_in(*problem, highest),
            decreases terms.len() - position,
        {
            if terms[position].variable > highest {
                highest = terms[position].variable;
                assert(problem.constraints@[row as int].terms@[position as int].variable
                    == highest);
            }
            position = position + 1;
        }
        row = row + 1;
    }
    highest
}

/// How many of the first `count` constraints are inequalities.
pub open spec fn inequalities_before<C>(constraints: Seq<Constraint<C>>, count: int) -> nat
    decreases count,
{
    if count <= 0 {
        0
    } else if constraints[count - 1].relation == Relation::Equal {
        inequalities_before(constraints, count - 1)
    } else {
        inequalities_before(constraints, count - 1) + 1
    }
}

/// How many of the constraints are inequalities: the number of variables
/// that normalization adds.
pub fn inequality_count<C>(constraints: &Vec<Constraint<C>>) -> (count: usize)
    ensures
        count == inequalities_before(constraints@, constraints@.len() as int),
{
    let mut count: usize = 0;
    let mut row: usize = 0;
    while row < constraints.len()
        invariant
            row <= constraints@.len(),
            count == inequalities_before(constraints@, row as int),
            count <= row,
        decreases constraints.len() - row,
    {
        if constraints[row].relation != Relation::Equal {
            count = count + 1;
        }
        row = row + 1;
    }
    count
}

/// The variable added to the inequality at `row`: the inequalities get
/// `highest + 1`, `highest + 2`, ... in order.
pub open spec fn slack_variable<C>(constraints: Seq<Constraint<C>>, highest: usize, row: int) -> usize {
    (highest + 1 + inequalities_before(constraints, row)) as usize
}

/// The role of the variable added to an inequality.
pub open spec fn slack_kind(relation: Relation) -> VariableKind {
    if relation == Relation::LessOrEqual {
        VariableKind::Slack
    } else {
        VariableKind::Excess
    }
}

/// The variable is one of those added to the first `count` constraints.
pub open spec fn added_within<C>(
    constraints: Seq<Constraint<C>>,
    highest: usize,
    count: int,
    variable: usize,
) -> bool {
    exists|row: int|
        0 <= row < count && constraints[row].relation != Relation::Equal && variable
            == #[trigger] slack_variable(constraints, highest, row)
}

/// The variable is one of those added to the inequalities.
pub open spec fn is_added_variable<C>(
    constraints: Seq<Constraint<C>>,
    highest: usize,
    variable: usize,
) -> bool {
    added_within(constraints, highest, constraints.len() as int, variable)
}

proof fn lemma_added_within_step<C>(
    constraints: Seq<Constraint<C>>,
    highest: usize,
    row: int,
    variable: usize,
)
    requires
        0 <= row < constraints.len(),
        highest + inequalities_before(constraints, constraints.len() as int) <= usize::MAX,
    ensures
        added_within(constraints, highest, row + 1, variable) <==> (added_within(
            constraints,
            highest,
            row,
            variable,
        ) || (constraints[row].relation != Relation::Equal && variable == slack_variable(
            constraints,
            highest,
            row,
        ))),
        added_within(constraints, highest, row, variable) && constraints[row].relation
            != Relation::Equal ==> variable < slack_variable(constraints, highest, row),
{
    lemma_inequalities_before_grows(constraints, row, constraints.len() as int);
    if added_within(constraints, highest, row, variable) {
        let r = choose|r: int|
            0 <= r < row && constraints[r].relation != Relation::Equal && variable
                == #[trigger] slack_variable(constraints, highest, r);
        lemma_inequalities_before_grows(constraints, r, row);
        lemma_inequalities_before_grows(constraints, r, constraints.len() as int);
        lemma_inequalities_before_grows(constraints, 0, row);
        lemma_inequalities_before_grows(constraints, 0, r);
    }
    if constraints[row].relation != Relation::Equal && variable == slack_variable(
        constraints,
        highest,
        row,
    ) {
        assert(added_within(constraints, highest, row + 1, variable));
    }
}

proof fn lemma_inequalities_before_grows<C>(constraints: Seq<Constraint<C>>, first: int, second: int)
    requires
        0 <= first <= second <= constraints.len(),
    ensures
        inequalities_before(constraints, first) <= inequalities_before(constraints, second),
        inequalities_before(constraints, second) <= inequalities_before(constraints, first)
            + second - first,
        first < second && constraints[first].relation != Relation::Equal ==> inequalities_before(
            constraints,
            first,
        ) < inequalities_before(constraints, second),
    decreases second - first,
{
    if first < second {
        lemma_inequalities_before_grows(constraints, first, second - 1);
    }
}

/// The variables that normalization adds come after `highest`, and in the
/// order of their constraints: slack and excess variables are numbered after
/// every variable of the problem, and no two constraints share one.
pub proof fn lemma_added_variables_are_fresh<C>(
    constraints: Seq<Constraint<C>>,
    highest: usize,
    first: int,
    second: int,
)
    requires
        highest + inequalities_before(constraints, constraints.len() as int) <= usize::MAX,
        0 <= first < second < constraints.len(),
        constraints[first].relation != Relation::Equal,
        constraints[second].relation != Relation::Equal,
    ensures
        highest < slack_variable(constraints, highest, first),
        slack_variable(constraints, highest, first) < slack_variable(constraints, highest, second),
{
    lemma_inequalities_before_grows(constraints, first, second);
    lemma_inequalities_before_grows(constraints, 0, second);
    lemma_inequalities_before_grows(constraints, 0, first);
    lemma_inequalities_before_grows(constraints, second, constraints.len() as int);
}

/// The equation that replaces a constraint: an inequality gets the term of
/// `variable`, with coefficient `plus_one` for `<=` and `minus_one` for
/// `>=`.
fn make_equation<C: Copy>(
    constraint: Constraint<C>,
    variable: usize,
    plus_one: C,
    minus_one: C,
) -> (equation: Constraint<C>)
    ensures
        equation.relation == Relation::Equal,
        equation.rhs == constraint.rhs,
        constraint.relation == Relation::Equal ==> equation.terms@ == constraint.terms@,
        constraint.relation != Relation::Equal ==> equation.terms@ == constraint.terms@.push(
            Term {
                variable,
                coefficient: if constraint.relation == Relation::LessOrEqual {
                    plus_one
                } else {
                    minus_one
                },
            },
        ),
{
    let mut equation = constraint;
    if equation.relation != Relation::Equal {
        let coefficient = if equation.relation == Relation::LessOrEqual {
            plus_one
        } else {
            minus_one
        };
        equation.terms.push(Term { variable, coefficient });
    }
    equation.relation = Relation::Equal;
    equation
}

/// Turns every constraint into an equation. Each inequality gets a new
/// variable, numbered after `highest` in the order of the constraints, with
/// coefficient `plus_one` in a `<=` constraint (a slack variable) and
/// `minus_one` in a `>=` constraint (an excess variable); the new variable
/// is non-negative.
pub fn add_slack_variables<C: Copy>(
    constraints: Vec<Constraint<C>>,
    highest: usize,
    bounds: &mut BTreeMap<usize, VariableBound>,
    kinds: &mut BTreeMap<usize, VariableKind>,
    plus_one: C,
    minus_one: C,
) -> (equations: Vec<Constraint<C>>)
    requires
        highest + inequalities_before(constraints@, constraints@.len() as int) <= usize::MAX,
    ensures
        equations@.len() == constraints@.len(),
        forall|row: int|
            0 <= row < constraints@.len() ==> {
                let before = #[trigger] constraints@[row];
                let after = equations@[row];
                &&& after.relation == Relation::Equal
                &&& after.rhs == before.rhs
                &&& before.relation == Relation::Equal ==> after.terms@ == before.terms@
                &&& before.relation != Relation::Equal ==> after.terms@ == before.terms@.push(
                    Term {
                        variable: slack_variable(constraints@, highest, row),
                        coefficient: if before.relation == Relation::LessOrEqual {
                            plus_one
                        } else {
                            minus_one
                        },
                    },
                )
            },
        forall|v: usize|
            final(bounds)@.contains_key(v) <==> old(bounds)@.contains_key(v) || is_added_variable(
                constraints@,
                highest,
                v,
            ),
        forall|v: usize|
            final(kinds)@.contains_key(v) <==> old(kinds)@.contains_key(v) || is_added_variable(
                constraints@,
                highest,
                v,
            ),
        forall|row: int|
            0 <= row < constraints@.len() && constraints@[row].relation != Relation::Equal ==> {
                let v = #[trigger] slack_variable(constraints@, highest, row);
                &&& final(bounds)@[v] == VariableBound::NonNegative
                &&& final(kinds)@[v] == slack_kind(constraints@[row].relation)
            },
        forall|v: usize|
            !is_added_variable(constraints@, highest, v) && old(bounds)@.contains_key(v)
                ==> final(bounds)@[v] == old(bounds)@[v],
        forall|v: usize|
            !is_added_variable(constraints@, highest, v) && old(kinds)@.contains_key(v)
                ==> final(kinds)@[v] == old(kinds)@[v],
{
    let ghost original = constraints@;
    let count = constraints.len();
    let mut remaining = constraints;
    let mut equations: Vec<Constraint<C>> = Vec::new();
    let mut relations: Vec<Relation> = Vec::new();
    let mut next = highest;
    let mut row: usize = 0;
    while remaining.len() > 0
        invariant
            row <= original.len(),
            original.len() == count,
            remaining@ == original.skip(row as int),
            equations@.len() == row,
            relations@.len() == row,
            highest + inequalities_before(original, original.len() as int) <= usize::MAX,
            next == highest + inequalities_before(original, row as int),
            forall|r: int| 0 <= r < row ==> relations@[r] == original[r].relation,
            forall|r: int|
                0 <= r < row ==> {
                    let before = #[trigger] original[r];
                    let after = equations@[r];
                    &&& after.relation == Relation::Equal
                    &&& after.rhs == before.rhs
                    &&& before.relation == Relation::Equal ==> after.terms@ == before.terms@
                    &&& before.relation != Relation::Equal ==> after.terms@ == before.terms@.push(
                        Term {
                            variable: slack_variable(original, highest, r),
                            coefficient: if before.relation == Relation::LessOrEqual {
                                plus_one
                            } else {
                                minus_one
                            },
                        },
                    )
                },
        decreases remaining.len(),
    {
        let constraint = remaining.remove(0);
        assert(constraint == original[row as int]);
        assert(remaining@ =~= original.skip(row + 1));
        proof {
            lemma_inequalities_before_grows(original, row as int, original.len() as int);
            lemma_inequalities_before_grows(original, 0, row as int);
        }
        relations.push(constraint.relation);
        if constraint.relation != Relation::Equal {
            next = next + 1;
        }
        let equation = make_equation(constraint, next, plus_one, minus_one);
        equations.push(equation);
        row = row + 1;
    }
    assert(original.skip(row as int).len() == 0);
    let mut next = highest;
    let mut row: usize = 0;
    while row < relations.len()
        invariant
            row <= original.len(),
            relations@.len() == original.len(),
            forall|r: int| 0 <= r < original.len() ==> relations@[r] == original[r].relation,
            highest + inequalities_before(original, original.len() as int) <= usize::MAX,
            next == highest + inequalities_before(original, row as int),
            forall|v: usize|
                bounds@.contains_key(v) <==> old(bounds)@.contains_key(v) || added_within(
                    original,
                    highest,
                    row as int,
                    v,
                ),
            forall|v: usize|
                kinds@.contains_key(v) <==> old(kinds)@.contains_key(v) || added_within(
                    original,
                    highest,
                    row as int,
                    v,
                ),
            forall|r: int|
                0 <= r < row && original[r].relation != Relation::Equal ==> {
                    let v = #[trigger] slack_variable(original, highest, r);
                    &&& bounds@[v] == VariableBound::NonNegative
                    &&& kinds@[v] == slack_kind(original[r].relation)
                },
            forall|v: usize|
                old(bounds)@.contains_key(v) && !added_within(original, highest, row as int, v)
                    ==> bounds@[v] == old(bounds)@[v],
            forall|v: usize|
                old(kinds)@.contains_key(v) && !added_within(original, highest, row as int, v)
                    ==> kinds@[v] == old(kinds)@[v],
        decreases relations.len() - row,
    {
        proof {
            lemma_inequalities_before_grows(original, row as int, original.len() as int);
            lemma_inequalities_before_grows(original, 0, row as int);
            assert forall|v: usize| true implies (added_within(original, highest, row + 1, v) <==> (
            added_within(original, highest, row as int, v) || (original[row as int].relation
                != Relation::Equal && v == slack_variable(original, highest, row as int)))) by {
                lemma_added_within_step(original, highest, row as int, v);
            }
        }
        let relation = relations[row];
        if relation != Relation::Equal {
            next = next + 1;
            assert(next == slack_variable(original, highest, row as int));
            assert forall|r: int| 0 <= r < row && original[r].relation != Relation::Equal implies #[trigger] slack_variable(
                original,
                highest,
                r,
            ) < next by {
                lemma_inequalities_before_grows(original, r, row as int);
                lemma_inequalities_before_grows(original, 0, r);
            }
            let kind = if relation == Relation::LessOrEqual {
                VariableKind::Slack
            } else {
                VariableKind::Excess
            };
            bounds.insert(next, VariableBound::NonNegative);
            kinds.insert(next, kind);
        }
        row = row + 1;
    }
    equations
}

} // verus!
