//! The enumerations that describe a linear program and the rules that relate
//! them.

use std::collections::BTreeMap;
use vstd::prelude::*;

verus! {

/// The direction of optimization.
#[derive(Clone, Copy, Debug, PartialEq, Eq, Structural)]
pub enum Sense {
    Max,
    Min,
}

/// The relation between the two sides of a constraint.
#[derive(Clone, Copy, Debug, PartialEq, Eq, Structural)]
pub enum Relation {
    LessOrEqual,
    GreaterOrEqual,
    Equal,
}

/// The role of a variable in a problem: written by the user, or added by
/// normalization (slack for `<=`, excess for `>=`) or by the first phase of
/// the simplex method (artificial).
#[derive(Clone, Copy, Debug, PartialEq, Eq, Structural)]
pub enum VariableKind {
    Original,
    Slack,
    Excess,
    Artificial,
}

/// The sign restriction on a variable: `x >= 0`, `x <= 0`, or both at once,
/// which fixes it at zero.
#[derive(Clone, Copy, Debug, PartialEq, Eq, Structural)]
pub enum VariableBound {
    NonNegative,
    NonPositive,
    FixedZero,
}

/// A coefficient times a variable `x_variable`. The coefficient type is a
/// parameter: the library never computes with coefficients, it only moves
/// them.
#[derive(Clone, Copy, Debug, PartialEq)]
pub struct Term<C> {
    pub variable: usize,
    pub coefficient: C,
}

/// A linear constraint: a sum of terms, a relation and a right-hand side.
#[derive(Clone, Debug, PartialEq)]
pub struct Constraint<C> {
    pub terms: Vec<Term<C>>,
    pub relation: Relation,
    pub rhs: C,
}

/// A linear program: the objective to optimize, the constraints, the sign
/// restriction and the role of each variable, and the warnings produced
/// while it was read. `sense` is the direction in which the objective is
/// currently optimized; `original_sense` the one the user wrote.
#[derive(Clone, Debug, PartialEq)]
pub struct Problem<C> {
    pub sense: Sense,
    pub original_sense: Sense,
    pub objective: Vec<Term<C>>,
    pub constraints: Vec<Constraint<C>>,
    pub variable_bounds: BTreeMap<usize, VariableBound>,
    pub variable_kinds: BTreeMap<usize, VariableKind>,
    pub warnings: Vec<String>,
}

/// The text of a relation as it is written in a problem.
pub open spec fn relation_text(relation: Relation) -> Seq<char> {
    match relation {
        Relation::LessOrEqual => "<="@,
        Relation::GreaterOrEqual => ">="@,
        Relation::Equal => "="@,
    }
}

impl Relation {
    /// The text of the relation: `<=`, `>=` or `=`.
    pub fn symbol(self) -> (text: &'static str)
        ensures
            text@ == relation_text(self),
    {
        match self {
            Relation::LessOrEqual => "<=",
            Relation::GreaterOrEqual => ">=",
            Relation::Equal => "=",
        }
    }
}

/// The relation that holds after both sides are multiplied by -1.
pub open spec fn inverted(relation: Relation) -> Relation {
    match relation {
        Relation::LessOrEqual => Relation::GreaterOrEqual,
        Relation::GreaterOrEqual => Relation::LessOrEqual,
        Relation::Equal => Relation::Equal,
    }
}

/// The relation that holds after both sides are multiplied by -1.
pub fn invert_relation(relation: Relation) -> (result: Relation)
    ensures
        result == inverted(relation),
{
    match relation {
        Relation::LessOrEqual => Relation::GreaterOrEqual,
        Relation::GreaterOrEqual => Relation::LessOrEqual,
        Relation::Equal => Relation::Equal,
    }
}

/// Inverting a relation twice gives it back.
pub proof fn lemma_invert_relation_involution(relation: Relation)
    ensures
        inverted(inverted(relation)) == relation,
{
}

/// Whether `lhs relation rhs` holds of two numbers.
pub open spec fn relation_holds(relation: Relation, lhs: int, rhs: int) -> bool {
    match relation {
        Relation::LessOrEqual => lhs <= rhs,
        Relation::GreaterOrEqual => lhs >= rhs,
        Relation::Equal => lhs == rhs,
    }
}

/// Multiplying both sides of a constraint by -1 keeps it true exactly when
/// the relation is inverted: `a <= b` holds exactly when `-a >= -b` does,
/// and an equation stays an equation.
pub proof fn lemma_inverted_relation_negates_sides(relation: Relation, lhs: int, rhs: int)
    ensures
        relation_holds(relation, lhs, rhs) <==> relation_holds(inverted(relation), -lhs, -rhs),
        (relation == Relation::Equal) <==> (inverted(relation) == Relation::Equal),
{
}

/// The relation written as `text`, one of `<=`, `>=` and `=`.
pub open spec fn relation_of_text(text: Seq<char>) -> Relation {
    if text == "<="@ {
        Relation::LessOrEqual
    } else if text == ">="@ {
        Relation::GreaterOrEqual
    } else {
        Relation::Equal
    }
}

/// The relation that a symbol of a problem's text stands for.
pub fn relation_from_symbol(symbol: &str) -> (relation: Relation)
    requires
        symbol@ == "<="@ || symbol@ == ">="@ || symbol@ == "="@,
    ensures
        relation == relation_of_text(symbol@),
        relation_text(relation) == symbol@,
{
    proof {
        reveal_strlit("<=");
        reveal_strlit(">=");
        reveal_strlit("=");
    }
    if symbol.unicode_len() == 1 {
        Relation::Equal
    } else if symbol.get_char(0) == '<' {
        Relation::LessOrEqual
    } else {
        Relation::GreaterOrEqual
    }
}

/// Reading back the text of a relation gives the relation.
pub proof fn lemma_relation_text_round_trip(relation: Relation)
    ensures
        relation_of_text(relation_text(relation)) == relation,
{
    reveal_strlit("<=");
    reveal_strlit(">=");
    reveal_strlit("=");
    assert("<="@[0] != ">="@[0]);
    assert("="@.len() != "<="@.len());
}

/// The bound that a line `x_i <= 0` or `x_i >= 0` declares.
pub open spec fn bound_of(relation: Relation) -> VariableBound {
    match relation {
        Relation::GreaterOrEqual => VariableBound::NonNegative,
        _ => VariableBound::NonPositive,
    }
}

/// The bound that a line `x_i <= 0` or `x_i >= 0` declares.
pub fn bound_from_relation(relation: Relation) -> (bound: VariableBound)
    requires
        relation != Relation::Equal,
    ensures
        bound == bound_of(relation),
{
    match relation {
        Relation::GreaterOrEqual => VariableBound::NonNegative,
        _ => VariableBound::NonPositive,
    }
}

/// Two declarations for the same variable: the same bound twice stays that
/// bound; two different bounds leave only zero.
pub open spec fn combined(current: VariableBound, new_bound: VariableBound) -> VariableBound {
    if current == new_bound {
        current
    } else {
        VariableBound::FixedZero
    }
}

/// Combines a bound already declared for a variable with a new one.
pub fn combine_bounds(current: VariableBound, new_bound: VariableBound) -> (bound: VariableBound)
    ensures
        bound == combined(current, new_bound),
{
    if current == new_bound {
        return current;
    }
    VariableBound::FixedZero
}

/// The order in which bounds are declared does not matter: combining is
/// commutative, associative and idempotent, and a variable fixed at zero
/// stays fixed.
pub proof fn lemma_combine_bounds_laws(a: VariableBound, b: VariableBound, c: VariableBound)
    ensures
        combined(a, b) == combined(b, a),
        combined(combined(a, b), c) == combined(a, combined(b, c)),
        combined(a, a) == a,
        combined(VariableBound::FixedZero, a) == VariableBound::FixedZero,
        combined(VariableBound::NonNegative, VariableBound::NonPositive)
            == VariableBound::FixedZero,
{
}

} // verus!
