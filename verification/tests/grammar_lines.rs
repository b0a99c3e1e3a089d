use simplex::errors::ParseError;
use simplex::grammar::{trim, Grammar, LineKind, RelationParts, TermText};
use simplex::problem::{Relation, Sense, VariableBound};
use simplex::problem_parser::{read_sense, LineRole};

fn grammar() -> Grammar {
    Grammar::new().expect("the grammar compiles")
}

fn term(negative: bool, coefficient: &str, variable: &str) -> TermText {
    TermText {
        negative,
        coefficient: coefficient.to_string(),
        variable: variable.to_string(),
    }
}

fn parts(lhs: &str, relation: Relation, rhs: &str) -> RelationParts {
    RelationParts {
        lhs: lhs.to_string(),
        relation,
        rhs: rhs.to_string(),
    }
}

fn error_at(line: usize, message: &str) -> ParseError {
    ParseError {
        line: Some(line),
        message: message.to_string(),
    }
}

#[test]
fn grammar_compiles() {
    assert!(Grammar::new().is_some());
}

#[test]
fn objective_line_reads_sense_in_any_case() {
    let grammar = grammar();
    assert_eq!(
        grammar.objective_line("MaX z = 3x_1 + 2x_2", 1),
        Ok((Sense::Max, "3x_1 + 2x_2".to_string()))
    );
    assert_eq!(
        grammar.objective_line("min   z=x_1   ", 1),
        Ok((Sense::Min, "x_1".to_string()))
    );
}

#[test]
fn objective_line_rejects_other_text() {
    let grammar = grammar();
    assert_eq!(
        grammar.objective_line("z = x_1", 4),
        Err(error_at(
            4,
            "a primeira linha deve ser um objetivo no formato 'max|min z = expressão'"
        ))
    );
}

#[test]
fn relation_line_splits_sides() {
    let grammar = grammar();
    assert_eq!(
        grammar.relation_line("x_1 + x_2 <= 4", 2),
        Ok(parts("x_1 + x_2", Relation::LessOrEqual, "4"))
    );
    assert_eq!(
        grammar.relation_line("2x_1 >= -1.5", 2),
        Ok(parts("2x_1", Relation::GreaterOrEqual, "-1.5"))
    );
    assert_eq!(
        grammar.relation_line("x_1 - x_2 = .5", 3),
        Ok(parts("x_1 - x_2", Relation::Equal, ".5"))
    );
}

#[test]
fn relation_line_trims_left_side() {
    let grammar = grammar();
    assert_eq!(
        grammar.relation_line("\u{3000} x_1, x_2 >= 0", 6),
        Ok(parts("x_1, x_2", Relation::GreaterOrEqual, "0"))
    );
}

#[test]
fn relation_line_rejects_strict_inequalities() {
    let grammar = grammar();
    assert_eq!(
        grammar.relation_line("x_1 < 3", 5),
        Err(error_at(5, "desigualdades estritas não são suportadas; use <= ou >="))
    );
    assert_eq!(
        grammar.relation_line("x_1 > 3", 5),
        Err(error_at(5, "desigualdades estritas não são suportadas; use <= ou >="))
    );
}

#[test]
fn relation_line_rejects_missing_number() {
    let grammar = grammar();
    assert_eq!(
        grammar.relation_line("x_1 <= abc", 3),
        Err(error_at(3, "relação inválida: \"x_1 <= abc\""))
    );
}

#[test]
fn line_role_reads_bound_lists() {
    let grammar = grammar();
    assert_eq!(
        grammar.line_role(&parts("x_1, x_2", Relation::GreaterOrEqual, "0"), true, false, 4),
        Ok(LineRole::Bound(VariableBound::NonNegative))
    );
    assert_eq!(
        grammar.line_role(&parts("x_3", Relation::LessOrEqual, "0"), true, true, 5),
        Ok(LineRole::Bound(VariableBound::NonPositive))
    );
}

#[test]
fn line_role_reads_constraints() {
    let grammar = grammar();
    assert_eq!(
        grammar.line_role(&parts("x_1 + x_2", Relation::LessOrEqual, "4"), false, false, 2),
        Ok(LineRole::Constraint)
    );
    assert_eq!(
        grammar.line_role(&parts("x_1", Relation::Equal, "0"), true, false, 2),
        Ok(LineRole::Constraint)
    );
}

#[test]
fn line_role_reports_bound_errors() {
    let grammar = grammar();
    assert_eq!(
        grammar.line_role(&parts("x_1, x_2", Relation::Equal, "0"), true, false, 7),
        Err(error_at(7, "um limite não pode usar '='"))
    );
    assert_eq!(
        grammar.line_role(&parts("x_1, x_2", Relation::GreaterOrEqual, "1"), false, false, 7),
        Err(error_at(7, "o lado direito de um limite deve ser 0"))
    );
    assert_eq!(
        grammar.line_role(&parts("x_1, 2x_2", Relation::GreaterOrEqual, "0"), true, false, 7),
        Err(error_at(7, "lista de variáveis de limite inválida"))
    );
    assert_eq!(
        grammar.line_role(&parts("x_1 + x_2", Relation::LessOrEqual, "4"), false, true, 8),
        Err(error_at(
            8,
            "uma restrição não pode aparecer depois da seção de limites"
        ))
    );
}

#[test]
fn bound_variables_read_each_index() {
    let grammar = grammar();
    assert_eq!(grammar.bound_variables("x_1, x_3 ,x_12", 4), Ok(vec![1, 3, 12]));
}

#[test]
fn bound_variables_report_the_first_bad_index() {
    let grammar = grammar();
    assert_eq!(
        grammar.bound_variables("x_2, x_0, x_99999999999999999999999", 9),
        Err(error_at(
            9,
            "índice de variável inválido: x_0; os índices devem começar em 1"
        ))
    );
    assert_eq!(
        grammar.bound_variables("x_99999999999999999999999, x_0", 9),
        Err(error_at(
            9,
            "índice de variável inválido: \"99999999999999999999999\""
        ))
    );
}

#[test]
fn expression_terms_read_signs_coefficients_and_indices() {
    let grammar = grammar();
    let scan = grammar.expression_terms("3x_1 - 2.5 x_2 + x_3", 1);
    assert_eq!(
        scan.terms,
        vec![term(false, "3", "1"), term(true, "2.5", "2"), term(false, "", "3")]
    );
    assert_eq!(scan.error, None);
}

#[test]
fn expression_terms_need_a_sign_between_terms() {
    let grammar = grammar();
    let scan = grammar.expression_terms("x_1 x_2", 3);
    assert_eq!(scan.terms, vec![term(false, "", "1")]);
    assert_eq!(
        scan.error,
        Some(error_at(
            3,
            "termos devem ser separados por '+' ou '-': \"x_1 x_2\""
        ))
    );
}

#[test]
fn expression_terms_reject_text_between_terms() {
    let grammar = grammar();
    let scan = grammar.expression_terms("2 * x_1", 2);
    assert_eq!(scan.terms, Vec::new());
    assert_eq!(
        scan.error,
        Some(error_at(2, "expressão linear inválida: \"2 * x_1\""))
    );
}

#[test]
fn expression_terms_reject_trailing_text() {
    let grammar = grammar();
    let scan = grammar.expression_terms("x_1 + y", 2);
    assert_eq!(scan.terms, vec![term(false, "", "1")]);
    assert_eq!(
        scan.error,
        Some(error_at(2, "expressão linear inválida: \"x_1 + y\""))
    );
}

#[test]
fn expression_terms_reject_an_expression_without_terms() {
    let grammar = grammar();
    let scan = grammar.expression_terms("   ", 2);
    assert_eq!(scan.terms, Vec::new());
    assert_eq!(
        scan.error,
        Some(error_at(2, "expressão linear inválida: \"   \""))
    );
}

#[test]
fn trim_removes_unicode_white_space() {
    assert_eq!(trim("\u{3000} a b \t\u{85}"), "a b".to_string());
    assert_eq!(trim(" \n "), String::new());
    assert_eq!(trim("x"), "x".to_string());
}

#[test]
fn read_line_skips_blank_lines() {
    let grammar = grammar();
    assert_eq!(grammar.read_line(" \t ", false, 1), Ok(LineKind::Blank));
    assert_eq!(grammar.read_line("", true, 2), Ok(LineKind::Blank));
}

#[test]
fn read_line_takes_the_first_line_as_objective() {
    let grammar = grammar();
    assert_eq!(
        grammar.read_line("  max z = x_1 ", false, 3),
        Ok(LineKind::Objective(Sense::Max, "x_1".to_string()))
    );
    assert_eq!(
        grammar.read_line("x_1 <= 2", false, 3),
        Err(error_at(
            3,
            "a primeira linha deve ser um objetivo no formato 'max|min z = expressão'"
        ))
    );
}

#[test]
fn read_line_takes_later_lines_as_relations() {
    let grammar = grammar();
    assert_eq!(
        grammar.read_line("  x_1 + x_2 <= 4  ", true, 4),
        Ok(LineKind::Relation(parts("x_1 + x_2", Relation::LessOrEqual, "4")))
    );
}

#[test]
fn an_input_without_objective_is_refused() {
    assert_eq!(read_sense(Some(Sense::Min)), Ok(Sense::Min));
    assert_eq!(
        read_sense(None),
        Err(ParseError {
            line: None,
            message: "entrada vazia: objetivo não encontrado".to_string(),
        })
    );
}
