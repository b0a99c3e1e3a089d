use simplex::problem::{
    bound_from_relation, combine_bounds, invert_relation, relation_from_symbol, Relation,
    VariableBound,
};

#[test]
fn relation_symbols_are_written_as_in_the_input() {
    assert_eq!(Relation::LessOrEqual.symbol(), "<=");
    assert_eq!(Relation::GreaterOrEqual.symbol(), ">=");
    assert_eq!(Relation::Equal.symbol(), "=");
}

#[test]
fn symbols_read_back_to_their_relation() {
    for relation in [Relation::LessOrEqual, Relation::GreaterOrEqual, Relation::Equal] {
        assert_eq!(relation_from_symbol(relation.symbol()), relation);
    }
}

#[test]
fn inverting_swaps_inequalities_and_keeps_equations() {
    assert_eq!(invert_relation(Relation::LessOrEqual), Relation::GreaterOrEqual);
    assert_eq!(invert_relation(Relation::GreaterOrEqual), Relation::LessOrEqual);
    assert_eq!(invert_relation(Relation::Equal), Relation::Equal);
    for relation in [Relation::LessOrEqual, Relation::GreaterOrEqual, Relation::Equal] {
        assert_eq!(invert_relation(invert_relation(relation)), relation);
    }
}

#[test]
fn bound_lines_declare_sign_restrictions() {
    assert_eq!(bound_from_relation(Relation::GreaterOrEqual), VariableBound::NonNegative);
    assert_eq!(bound_from_relation(Relation::LessOrEqual), VariableBound::NonPositive);
}

#[test]
fn repeated_bounds_combine_regardless_of_order() {
    let all = [VariableBound::NonNegative, VariableBound::NonPositive, VariableBound::FixedZero];
    for a in all {
        assert_eq!(combine_bounds(a, a), a);
        assert_eq!(combine_bounds(VariableBound::FixedZero, a), VariableBound::FixedZero);
        for b in all {
            assert_eq!(combine_bounds(a, b), combine_bounds(b, a));
            for c in all {
                assert_eq!(
                    combine_bounds(combine_bounds(a, b), c),
                    combine_bounds(a, combine_bounds(b, c))
                );
            }
        }
    }
    assert_eq!(
        combine_bounds(VariableBound::NonNegative, VariableBound::NonPositive),
        VariableBound::FixedZero
    );
}
