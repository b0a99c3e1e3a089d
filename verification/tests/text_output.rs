use simplex::status::{
    branch_and_bound_status_label, node_action_label, simplex_status_label, BranchAndBoundStatus,
    NodeFinalAction, SimplexStatus,
};
use simplex::text::{decimal, normalize_parser_input};

#[test]
fn decimal_numbers_have_no_leading_zeros() {
    assert_eq!(decimal(0), "0");
    assert_eq!(decimal(7), "7");
    assert_eq!(decimal(10), "10");
    assert_eq!(decimal(1234), "1234");
    assert_eq!(decimal(u64::MAX as u128), u64::MAX.to_string());
}

#[test]
fn typographic_symbols_become_ascii() {
    assert_eq!(normalize_parser_input("3x_1 \u{2212}6x_2 \u{2265} -12"), "3x_1 -6x_2 >= -12");
    assert_eq!(normalize_parser_input("2x_1 + x_2 \u{2264} 18"), "2x_1 + x_2 <= 18");
    assert_eq!(normalize_parser_input("x_1 \u{2013} x_2 \u{2014} x_3"), "x_1 - x_2 - x_3");
    assert_eq!(normalize_parser_input("max z = x_1"), "max z = x_1");
    assert_eq!(normalize_parser_input(""), "");
    assert_eq!(normalize_parser_input("\u{2264}\u{2265}"), "<=>=");
}

#[test]
fn outcomes_have_report_names() {
    assert_eq!(simplex_status_label(SimplexStatus::Optimal), "ótimo");
    assert_eq!(simplex_status_label(SimplexStatus::Unbounded), "ilimitado");
    assert_eq!(simplex_status_label(SimplexStatus::Infeasible), "inviável");
    assert_eq!(
        simplex_status_label(SimplexStatus::IterationLimit),
        "limite de iterações atingido"
    );
    assert_eq!(branch_and_bound_status_label(BranchAndBoundStatus::Optimal), "ótimo");
    assert_eq!(
        branch_and_bound_status_label(BranchAndBoundStatus::Infeasible),
        "inteiro inviável"
    );
    assert_eq!(
        branch_and_bound_status_label(BranchAndBoundStatus::NodeLimit),
        "limite de nós atingido"
    );
    assert_eq!(
        branch_and_bound_status_label(BranchAndBoundStatus::SimplexIterationLimit),
        "limite de iterações do simplex atingido"
    );
    assert_eq!(
        branch_and_bound_status_label(BranchAndBoundStatus::RelaxationUnbounded),
        "relaxação linear ilimitada"
    );
    assert_eq!(node_action_label(NodeFinalAction::Branched), "ramificado");
    assert_eq!(
        node_action_label(NodeFinalAction::PrunedInfeasible),
        "podado por inviabilidade"
    );
    assert_eq!(node_action_label(NodeFinalAction::PrunedByBound), "podado por limitante");
    assert_eq!(node_action_label(NodeFinalAction::IntegerSolution), "solução inteira");
    assert_eq!(node_action_label(NodeFinalAction::IterationLimit), "limite de iterações");
    assert_eq!(
        node_action_label(NodeFinalAction::RelaxationUnbounded),
        "relaxação ilimitada"
    );
}
