//! The decisions that reading a problem makes apart from numbers: variable
//! indices, what a relation line declares, how repeated bounds combine, and
//! which bounds the variables end up with.

use std::collections::BTreeMap;
use vstd::prelude::*;

use crate::basis::contains_column;
use crate::branch_and_bound::insert_sorted;
use crate::errors::ParseError;
use crate::maps::{ordered_keys, strictly_increasing};
use crate::problem::{
    bound_from_relation, bound_of, combine_bounds, combined, Relation, Sense, VariableBound,
    VariableKind,
};
use crate::text::{decimal_text, push_decimal};

verus! {

broadcast use {vstd::std_specs::btree::group_btree_axioms, vstd::laws_cmp::group_laws_cmp};

/// The character is an ASCII decimal digit.
pub open spec fn is_digit(c: char) -> bool {
    '0' <= c <= '9'
}

/// The value of a string of decimal digits.
pub open spec fn digits_value(digits: Seq<char>) -> nat
    decreases digits.len(),
{
    if digits.len() == 0 {
        0
    } else {
        digits_value(digits.drop_last()) * 10 + (digits.last() as nat - '0' as nat) as nat
    }
}

/// The digits of an unsigned integer text: an optional leading `+` is
/// dropped when something follows it.
pub open spec fn unsigned_digits(text: Seq<char>) -> Seq<char> {
    if text.len() > 1 && text[0] == '+' {
        text.drop_first()
    } else {
        text
    }
}

/// The value of a text read as a `usize`, as Rust reads it: an optional `+`
/// and then at least one decimal digit, with a value that fits.
pub open spec fn usize_text_value(text: Seq<char>) -> Option<nat> {
    let digits = unsigned_digits(text);
    if digits.len() > 0 && (forall|i: int| 0 <= i < digits.len() ==> is_digit(digits[i]))
        && digits_value(digits) <= usize::MAX {
        Some(digits_value(digits))
    } else {
        None
    }
}

/// The message for a variable index that is not a number.
pub open spec fn invalid_index_message(index: Seq<char>) -> Seq<char> {
    "índice de variável inválido: \""@ + index + "\""@
}

/// The message for the variable index 0.
pub open spec fn zero_index_message() -> Seq<char> {
    "índice de variável inválido: x_0; os índices devem começar em 1"@
}

proof fn lemma_digits_value_grows(digits: Seq<char>, prefix: int)
    requires
        0 <= prefix <= digits.len(),
        forall|i: int| 0 <= i < digits.len() ==> is_digit(digits[i]),
    ensures
        digits_value(digits.take(prefix)) <= digits_value(digits),
    decreases digits.len() - prefix,
{
    if prefix < digits.len() {
        lemma_digits_value_grows(digits, prefix + 1);
        assert(digits.take(prefix + 1).drop_last() =~= digits.take(prefix));
    } else {
        assert(digits.take(prefix) =~= digits);
    }
}

/// What reading a variable index gives: its value, or the message of the
/// error.
pub open spec fn index_reading(index: Seq<char>) -> Result<usize, Seq<char>> {
    match usize_text_value(index) {
        None => Err(invalid_index_message(index)),
        Some(value) => if value == 0 {
            Err(zero_index_message())
        } else {
            Ok(value as usize)
        },
    }
}

/// Reads the index `i` of a variable written `x_i`. The index must be a
/// number that fits in a `usize`, and indices start at 1.
pub fn parse_variable_index(index: &str, line: usize) -> (result: Result<usize, ParseError>)
    ensures
        match index_reading(index@) {
            Ok(value) => result == Ok::<usize, ParseError>(value),
            Err(message) => result matches Err(error) && error.line == Some(line)
                && error.message@ == message,
        },
{
    let length = index.unicode_len();
    let mut start: usize = 0;
    if length > 1 && index.get_char(0) == '+' {
        start = 1;
    }
    let ghost digits = unsigned_digits(index@);
    assert(digits =~= index@.subrange(start as int, length as int));
    let mut value: u128 = 0;
    let mut position: usize = start;
    let invalid = invalid_index_error(index, line);
    if start == length {
        return Err(invalid);
    }
    while position < length
        invariant
            start <= position <= length,
            length == index@.len(),
            digits == index@.subrange(start as int, length as int),
            digits == unsigned_digits(index@),
            value == digits_value(digits.take(position - start)),
            value <= usize::MAX,
            forall|i: int| 0 <= i < position - start ==> is_digit(digits[i]),
            invalid.line == Some(line),
            invalid.message@ == invalid_index_message(index@),
        decreases length - position,
    {
        let c = index.get_char(position);
        assert(digits[position - start] == c);
        assert(digits.take(position - start + 1).drop_last() =~= digits.take(position - start));
        if !('0' <= c && c <= '9') {
            return Err(invalid);
        }
        let digit = (c as u32 - '0' as u32) as u128;
        value = value * 10 + digit;
        position = position + 1;
        if value > usize::MAX as u128 {
            proof {
                if forall|i: int| 0 <= i < digits.len() ==> is_digit(digits[i]) {
                    lemma_digits_value_grows(digits, position - start);
                }
            }
            return Err(invalid);
        }
    }
    assert(digits.take(position - start) =~= digits);
    if value == 0 {
        proof {
            reveal_strlit("índice de variável inválido: x_0; os índices devem começar em 1");
        }
        return Err(
            ParseError::at(line, "índice de variável inválido: x_0; os índices devem começar em 1"),
        );
    }
    Ok(value as usize)
}

fn invalid_index_error(index: &str, line: usize) -> (error: ParseError)
    ensures
        error.line == Some(line),
        error.message@ == invalid_index_message(index@),
{
    let mut message = String::from_str("índice de variável inválido: \"");
    message.append(index);
    message.append("\"");
    ParseError { line: Some(line), message }
}

/// What a line with a relation declares.
#[derive(Clone, Copy, Debug, PartialEq, Eq, Structural)]
pub enum LineRole {
    /// A list of variables with a sign restriction.
    Bound(VariableBound),
    /// A linear constraint.
    Constraint,
}

/// The message for a bound written with `=`.
pub open spec fn equal_bound_message() -> Seq<char> {
    "um limite não pode usar '='"@
}

/// The message for a bound whose right-hand side is not zero.
pub open spec fn nonzero_bound_message() -> Seq<char> {
    "o lado direito de um limite deve ser 0"@
}

/// The message for a malformed list of bound variables.
pub open spec fn bound_list_message() -> Seq<char> {
    "lista de variáveis de limite inválida"@
}

/// The message for a constraint after the bounds.
pub open spec fn late_constraint_message() -> Seq<char> {
    "uma restrição não pode aparecer depois da seção de limites"@
}

/// A relation line is read as a bound when its left side holds a comma, or
/// when it is an inequality with right side zero whose left side is a list
/// of variables.
pub open spec fn looks_like_bound(
    lhs_has_comma: bool,
    relation: Relation,
    rhs_is_zero: bool,
    lhs_is_variable_list: bool,
) -> bool {
    lhs_has_comma || (relation != Relation::Equal && rhs_is_zero && lhs_is_variable_list)
}

/// What a relation line declares, or the message of the error it holds. A
/// bound must be an inequality with right side zero over a list of
/// variables; a constraint may not come after the bounds.
pub open spec fn relation_line_role(
    in_bounds: bool,
    lhs_has_comma: bool,
    relation: Relation,
    rhs_is_zero: bool,
    lhs_is_variable_list: bool,
) -> Result<LineRole, Seq<char>> {
    if looks_like_bound(lhs_has_comma, relation, rhs_is_zero, lhs_is_variable_list) {
        if relation == Relation::Equal {
            Err(equal_bound_message())
        } else if !rhs_is_zero {
            Err(nonzero_bound_message())
        } else if !lhs_is_variable_list {
            Err(bound_list_message())
        } else {
            Ok(LineRole::Bound(bound_of(relation)))
        }
    } else if in_bounds {
        Err(late_constraint_message())
    } else {
        Ok(LineRole::Constraint)
    }
}

/// An inequality with right side zero over a list of variables declares a
/// bound of the relation's sign, wherever it stands: `x_1 >= 0` makes `x_1`
/// non-negative and `x_1 <= 0` non-positive.
pub proof fn lemma_zero_inequality_is_bound(
    in_bounds: bool,
    lhs_has_comma: bool,
    relation: Relation,
)
    requires
        relation != Relation::Equal,
    ensures
        relation_line_role(in_bounds, lhs_has_comma, relation, true, true) == Ok::<
            LineRole,
            Seq<char>,
        >(
            LineRole::Bound(
                if relation == Relation::GreaterOrEqual {
                    VariableBound::NonNegative
                } else {
                    VariableBound::NonPositive
                },
            ),
        ),
{
}

/// A left side with a comma is always a bound list, never a constraint: it
/// is a bound exactly when it is an inequality with right side zero over a
/// list of variables, and an error otherwise.
pub proof fn lemma_comma_line_is_never_constraint(
    in_bounds: bool,
    relation: Relation,
    rhs_is_zero: bool,
    lhs_is_variable_list: bool,
)
    ensures
        relation_line_role(in_bounds, true, relation, rhs_is_zero, lhs_is_variable_list)
            != Ok::<LineRole, Seq<char>>(LineRole::Constraint),
        relation_line_role(in_bounds, true, relation, rhs_is_zero, lhs_is_variable_list) is Ok
            <==> (relation != Relation::Equal && rhs_is_zero && lhs_is_variable_list),
{
}

/// A line without a comma that is an equation, has a right side other than
/// zero, or whose left side is no list of variables is a constraint, and an
/// error once the bounds have begun.
pub proof fn lemma_other_line_is_constraint(
    in_bounds: bool,
    relation: Relation,
    rhs_is_zero: bool,
    lhs_is_variable_list: bool,
)
    requires
        relation == Relation::Equal || !rhs_is_zero || !lhs_is_variable_list,
    ensures
        !in_bounds ==> relation_line_role(
            in_bounds,
            false,
            relation,
            rhs_is_zero,
            lhs_is_variable_list,
        ) == Ok::<LineRole, Seq<char>>(LineRole::Constraint),
        in_bounds ==> relation_line_role(
            in_bounds,
            false,
            relation,
            rhs_is_zero,
            lhs_is_variable_list,
        ) is Err,
{
}

/// Decides what a relation line declares. `rhs_is_zero` tells whether the
/// right side is zero within the tolerance, `lhs_is_variable_list` whether
/// the left side is a comma-separated list of variables, and `in_bounds`
/// whether a bound line was already read.
pub fn classify_relation_line(
    in_bounds: bool,
    lhs_has_comma: bool,
    relation: Relation,
    rhs_is_zero: bool,
    lhs_is_variable_list: bool,
    line: usize,
) -> (result: Result<LineRole, ParseError>)
    ensures
        match relation_line_role(
            in_bounds,
            lhs_has_comma,
            relation,
            rhs_is_zero,
            lhs_is_variable_list,
        ) {
            Ok(role) => result == Ok::<LineRole, ParseError>(role),
            Err(message) => result matches Err(error) && error.line == Some(line)
                && error.message@ == message,
        },
{
    let bound_line = lhs_has_comma || (relation != Relation::Equal && rhs_is_zero
        && lhs_is_variable_list);
    if bound_line {
        if relation == Relation::Equal {
            return Err(ParseError::at(line, "um limite não pode usar '='"));
        }
        if !rhs_is_zero {
            return Err(ParseError::at(line, "o lado direito de um limite deve ser 0"));
        }
        if !lhs_is_variable_list {
            return Err(ParseError::at(line, "lista de variáveis de limite inválida"));
        }
        return Ok(LineRole::Bound(bound_from_relation(relation)));
    }
    if in_bounds {
        return Err(
            ParseError::at(line, "uma restrição não pode aparecer depois da seção de limites"),
        );
    }
    Ok(LineRole::Constraint)
}

/// The warning for a bound declared twice.
pub open spec fn repeated_bound_warning(variable: usize) -> Seq<char> {
    "Limite repetido para x_"@ + decimal_text(variable as nat)
        + "; mantendo apenas uma ocorrência."@
}

/// Records the bound that a line declares for a variable. A variable that
/// already has a bound keeps the combination of both; declaring the same
/// bound again adds a warning.
pub fn record_bound(
    bounds: &mut BTreeMap<usize, VariableBound>,
    warnings: &mut Vec<String>,
    variable: usize,
    new_bound: VariableBound,
)
    ensures
        final(bounds)@ == old(bounds)@.insert(
            variable,
            if old(bounds)@.contains_key(variable) {
                combined(old(bounds)@[variable], new_bound)
            } else {
                new_bound
            },
        ),
        old(bounds)@.contains_key(variable) && old(bounds)@[variable] == new_bound ==> {
            &&& final(warnings)@.len() == old(warnings)@.len() + 1
            &&& final(warnings)@.take(old(warnings)@.len() as int) == old(warnings)@
            &&& final(warnings)@.last()@ == repeated_bound_warning(variable)
        },
        !(old(bounds)@.contains_key(variable) && old(bounds)@[variable] == new_bound)
            ==> final(warnings)@ == old(warnings)@,
{
    match bounds.get(&variable) {
        Some(current) => {
            let current_bound = *current;
            let combined_bound = combine_bounds(current_bound, new_bound);
            bounds.insert(variable, combined_bound);
            if current_bound == new_bound {
                let mut warning = String::from_str("Limite repetido para x_");
                push_decimal(&mut warning, variable as u128);
                warning.append("; mantendo apenas uma ocorrência.");
                warnings.push(warning);
                assert(warnings@.take(old(warnings)@.len() as int) =~= old(warnings)@);
            }
        },
        None => {
            bounds.insert(variable, new_bound);
        },
    }
}

/// The message for an input without an objective line.
pub open spec fn missing_objective_message() -> Seq<char> {
    "entrada vazia: objetivo não encontrado"@
}

/// The sense of the problem once every line is read: an input without an
/// objective line is an error.
pub fn read_sense(sense: Option<Sense>) -> (result: Result<Sense, ParseError>)
    ensures
        match sense {
            Some(found) => result == Ok::<Sense, ParseError>(found),
            None => result matches Err(error) && error.line is None && error.message@
                == missing_objective_message(),
        },
{
    match sense {
        Some(found) => Ok(found),
        None => {
            proof {
                reveal_strlit("entrada vazia: objetivo não encontrado");
            }
            Err(ParseError::general("entrada vazia: objetivo não encontrado"))
        },
    }
}

/// The warning added when no bound is declared.
pub open spec fn default_bounds_warning() -> Seq<char> {
    "Nenhum limite declarado; assumindo x_i >= 0 para todas as variáveis originais."@
}

/// The message for a used variable without a bound.
pub open spec fn partial_bounds_message(variable: usize) -> Seq<char> {
    "limites parciais: x_"@ + decimal_text(variable as nat) + " é usada, mas não possui limite"@
}

/// The message for a bound on a variable that is not used.
pub open spec fn unused_bound_message(variable: usize) -> Seq<char> {
    "x_"@ + decimal_text(variable as nat) + " possui limite, mas não é usada no problema"@
}

/// Completes the bounds once the whole problem is read, given the variables
/// that the objective and the constraints use (in increasing order). When no
/// bound was declared every used variable is taken as non-negative, with a
/// warning. Otherwise every used variable must have a bound, and every bound
/// must belong to a used variable; the smallest variable that breaks a rule
/// is reported. On success every used variable is an original variable.
pub fn finish_bounds(
    used: &Vec<usize>,
    bounds: &mut BTreeMap<usize, VariableBound>,
    warnings: &mut Vec<String>,
) -> (result: Result<BTreeMap<usize, VariableKind>, ParseError>)
    requires
        strictly_increasing(used@),
    ensures
        old(bounds)@.len() == 0 ==> {
            &&& final(bounds)@ == Map::new(
                |v: usize| used@.contains(v),
                |v: usize| VariableBound::NonNegative,
            )
            &&& final(warnings)@.len() == old(warnings)@.len() + 1
            &&& final(warnings)@.take(old(warnings)@.len() as int) == old(warnings)@
            &&& final(warnings)@.last()@ == default_bounds_warning()
        },
        old(bounds)@.len() > 0 ==> final(bounds)@ == old(bounds)@ && final(warnings)@ == old(
            warnings,
        )@,
        old(bounds)@.len() > 0 && (exists|i: int|
            0 <= i < used@.len() && !old(bounds)@.contains_key(used@[i])) ==> exists|i: int|
            {
                &&& 0 <= i < used@.len()
                &&& !old(bounds)@.contains_key(used@[i])
                &&& forall|k: int| 0 <= k < i ==> old(bounds)@.contains_key(used@[k])
                &&& result matches Err(error) && error.line is None && error.message@
                    == partial_bounds_message(used@[i])
            },
        old(bounds)@.len() > 0 && (forall|i: int|
            0 <= i < used@.len() ==> old(bounds)@.contains_key(used@[i])) && (exists|v: usize|
            old(bounds)@.contains_key(v) && !used@.contains(v)) ==> exists|v: usize|
            {
                &&& old(bounds)@.contains_key(v)
                &&& !used@.contains(v)
                &&& forall|w: usize| w < v && old(bounds)@.contains_key(w) ==> used@.contains(w)
                &&& result matches Err(error) && error.line is None && error.message@
                    == unused_bound_message(v)
            },
        (old(bounds)@.len() == 0 || ((forall|i: int|
            0 <= i < used@.len() ==> old(bounds)@.contains_key(used@[i])) && (forall|v: usize|
            old(bounds)@.contains_key(v) ==> used@.contains(v)))) ==> (result matches Ok(kinds)
            && kinds@ == Map::new(|v: usize| used@.contains(v), |v: usize| VariableKind::Original)),
{
    if bounds.len() == 0 {
        let mut index: usize = 0;
        while index < used.len()
            invariant
                index <= used@.len(),
                bounds@ == Map::new(
                    |v: usize| used@.take(index as int).contains(v),
                    |v: usize| VariableBound::NonNegative,
                ),
            decreases used.len() - index,
        {
            bounds.insert(used[index], VariableBound::NonNegative);
            assert(bounds@ =~= Map::new(
                |v: usize| used@.take(index + 1).contains(v),
                |v: usize| VariableBound::NonNegative,
            )) by {
                assert forall|v: usize| used@.take(index + 1).contains(v) implies v == used@[index as int]
                    || used@.take(index as int).contains(v) by {
                    let longer = used@.take(index + 1);
                    let k = choose|k: int| 0 <= k < longer.len() && longer[k] == v;
                    if k < index {
                        assert(used@.take(index as int)[k] == v);
                    }
                }
                assert forall|v: usize| used@.take(index as int).contains(v) implies used@.take(
                    index + 1,
                ).contains(v) by {
                    let shorter = used@.take(index as int);
                    let k = choose|k: int| 0 <= k < shorter.len() && shorter[k] == v;
                    assert(used@.take(index + 1)[k] == v);
                }
                assert(used@.take(index + 1)[index as int] == used@[index as int]);
            }
            index = index + 1;
        }
        assert(used@.take(index as int) =~= used@);
        warnings.push(
            String::from_str(
                "Nenhum limite declarado; assumindo x_i >= 0 para todas as variáveis originais.",
            ),
        );
        assert(warnings@.take(old(warnings)@.len() as int) =~= old(warnings)@);
    } else {
        let mut index: usize = 0;
        while index < used.len()
            invariant
                index <= used@.len(),
                bounds@ == old(bounds)@,
                bounds@.len() > 0,
                forall|k: int| 0 <= k < index ==> bounds@.contains_key(used@[k]),
            decreases used.len() - index,
        {
            let variable = used[index];
            if !bounds.contains_key(&variable) {
                let mut message = String::from_str("limites parciais: x_");
                push_decimal(&mut message, variable as u128);
                message.append(" é usada, mas não possui limite");
                assert(!old(bounds)@.contains_key(used@[index as int]));
                return Err(ParseError { line: None, message });
            }
            index = index + 1;
        }
        let keys = ordered_keys(bounds);
        let mut position: usize = 0;
        while position < keys.len()
            invariant
                position <= keys@.len(),
                bounds@ == old(bounds)@,
                bounds@.len() > 0,
                forall|i: int| 0 <= i < used@.len() ==> bounds@.contains_key(used@[i]),
                strictly_increasing(keys@),
                forall|i: int| 0 <= i < keys@.len() ==> bounds@.contains_key(#[trigger] keys@[i]),
                forall|k: usize| bounds@.contains_key(k) ==> keys@.contains(k),
                forall|i: int| 0 <= i < position ==> used@.contains(#[trigger] keys@[i]),
            decreases keys.len() - position,
        {
            let variable = keys[position];
            if !contains_column(used, variable) {
                let mut message = String::from_str("x_");
                push_decimal(&mut message, variable as u128);
                message.append(" possui limite, mas não é usada no problema");
                assert(bounds@.contains_key(variable) && !used@.contains(variable));
                proof {
                    assert forall|w: usize| w < variable && bounds@.contains_key(w) implies used@.contains(
                        w,
                    ) by {
                        assert(keys@.contains(w));
                        let k = choose|k: int| 0 <= k < keys@.len() && keys@[k] == w;
                        if k >= position {
                            if k > position {
                                assert(keys@[position as int] < keys@[k]);
                            }
                        }
                    }
                }
                return Err(ParseError { line: None, message });
            }
            position = position + 1;
        }
        assert forall|v: usize| bounds@.contains_key(v) implies used@.contains(v) by {
            let k = choose|k: int| 0 <= k < keys@.len() && keys@[k] == v;
            assert(used@.contains(keys@[k]));
        }
    }
    let mut kinds: BTreeMap<usize, VariableKind> = BTreeMap::new();
    let mut index: usize = 0;
    while index < used.len()
        invariant
            index <= used@.len(),
            kinds@ == Map::new(
                |v: usize| used@.take(index as int).contains(v),
                |v: usize| VariableKind::Original,
            ),
        decreases used.len() - index,
    {
        kinds.insert(used[index], VariableKind::Original);
        assert(kinds@ =~= Map::new(
            |v: usize| used@.take(index + 1).contains(v),
            |v: usize| VariableKind::Original,
        )) by {
            assert forall|v: usize| used@.take(index + 1).contains(v) implies v == used@[index as int]
                || used@.take(index as int).contains(v) by {
                let longer = used@.take(index + 1);
                let k = choose|k: int| 0 <= k < longer.len() && longer[k] == v;
                if k < index {
                    assert(used@.take(index as int)[k] == v);
                }
            }
            assert forall|v: usize| used@.take(index as int).contains(v) implies used@.take(
                index + 1,
            ).contains(v) by {
                let shorter = used@.take(index as int);
                let k = choose|k: int| 0 <= k < shorter.len() && shorter[k] == v;
                assert(used@.take(index + 1)[k] == v);
            }
            assert(used@.take(index + 1)[index as int] == used@[index as int]);
        }
        index = index + 1;
    }
    assert(used@.take(index as int) =~= used@);
    Ok(kinds)
}

/// The variables that occur in a list, each once, in increasing order.
pub fn used_variables(variables: &Vec<usize>) -> (used: Vec<usize>)
    ensures
        strictly_increasing(used@),
        used@.to_set() == variables@.to_set(),
{
    let mut used: Vec<usize> = Vec::new();
    let mut index: usize = 0;
    while index < variables.len()
        invariant
            index <= variables@.len(),
            strictly_increasing(used@),
            used@.to_set() == variables@.take(index as int).to_set(),
        decreases variables.len() - index,
    {
        let variable = variables[index];
        proof {
            variables@.take(index as int).lemma_push_to_set_commute(variable);
        }
        assert(variables@.take(index + 1) =~= variables@.take(index as int).push(variable));
        if !contains_column(&used, variable) {
            assert(!used@.to_set().contains(variable));
            insert_sorted(&mut used, variable);
        } else {
            assert(used@.to_set().contains(variable));
            assert(used@.to_set().insert(variable) =~= used@.to_set());
        }
        index = index + 1;
    }
    assert(variables@.take(index as int) =~= variables@);
    used
}

} // verus!
