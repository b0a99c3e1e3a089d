use std::collections::BTreeMap;

use simplex::branch_and_bound::{
    original_variables, validate_integer_variables, BranchAndBoundSearch, NodeOutcome,
    SearchStep,
};
use simplex::errors::BranchAndBoundError;
use simplex::problem::VariableKind;
use simplex::status::{BranchAndBoundStatus, NodeFinalAction};

fn kinds() -> BTreeMap<usize, VariableKind> {
    let mut kinds = BTreeMap::new();
    kinds.insert(1, VariableKind::Original);
    kinds.insert(2, VariableKind::Original);
    kinds.insert(3, VariableKind::Slack);
    kinds
}

#[test]
fn integer_variables_come_back_sorted() {
    assert_eq!(validate_integer_variables(&kinds(), &[2, 1]).unwrap(), vec![1, 2]);
    assert_eq!(validate_integer_variables(&kinds(), &[]).unwrap(), Vec::<usize>::new());
}

#[test]
fn repeated_integer_variables_are_refused() {
    match validate_integer_variables(&kinds(), &[1, 2, 1]) {
        Err(BranchAndBoundError::DuplicateIntegerVariable { variable }) => assert_eq!(variable, 1),
        other => panic!("unexpected result: {other:?}"),
    }
}

#[test]
fn only_original_variables_can_be_integer() {
    match validate_integer_variables(&kinds(), &[1, 3]) {
        Err(BranchAndBoundError::InvalidIntegerVariable { variable }) => assert_eq!(variable, 3),
        other => panic!("unexpected result: {other:?}"),
    }
    match validate_integer_variables(&kinds(), &[8]) {
        Err(BranchAndBoundError::InvalidIntegerVariable { variable }) => assert_eq!(variable, 8),
        other => panic!("unexpected result: {other:?}"),
    }
}

#[test]
fn original_variables_are_listed_in_order() {
    assert_eq!(original_variables(&kinds()), vec![1, 2]);
}

fn explore(search: &mut BranchAndBoundSearch<&'static str, i32>) -> simplex::branch_and_bound::SearchNode<&'static str> {
    match search.next_step() {
        SearchStep::Explore(node) => node,
        SearchStep::Finished(status) => panic!("finished early with {status:?}"),
    }
}

#[test]
fn root_that_is_integral_ends_the_search() {
    let mut search: BranchAndBoundSearch<&'static str, i32> = BranchAndBoundSearch::new("root", 100);
    let root = explore(&mut search);
    assert_eq!(root.id, 0);
    assert_eq!(root.parent_id, None);
    assert!(!search.prune_by_bound(true));
    let verdict = search.record(
        &root,
        NodeOutcome::IntegerSolution { candidate: 12, better_than_incumbent: false },
    );
    assert_eq!(verdict.final_action, NodeFinalAction::IntegerSolution);
    assert!(matches!(search.next_step(), SearchStep::Finished(BranchAndBoundStatus::Optimal)));
    assert_eq!(search.explored_nodes(), 1);
    assert_eq!(search.created_nodes(), 1);
    assert_eq!(search.integer_solution_nodes(), 1);
    assert_eq!(search.into_incumbent(), Some(12));
}

#[test]
fn infeasible_children_leave_the_problem_infeasible() {
    let mut search: BranchAndBoundSearch<&'static str, i32> = BranchAndBoundSearch::new("root", 100);
    let root = explore(&mut search);
    let verdict = search.record(&root, NodeOutcome::Branch { left: "x <= 0", right: "x >= 1" });
    assert_eq!(verdict.final_action, NodeFinalAction::Branched);
    assert_eq!(verdict.children, Some((1, 2)));
    let left = explore(&mut search);
    assert_eq!((left.id, left.parent_id, left.depth, left.payload), (1, Some(0), 1, "x <= 0"));
    search.record(&left, NodeOutcome::RelaxationInfeasible);
    let right = explore(&mut search);
    assert_eq!((right.id, right.payload), (2, "x >= 1"));
    search.record(&right, NodeOutcome::RelaxationInfeasible);
    assert!(matches!(search.next_step(), SearchStep::Finished(BranchAndBoundStatus::Infeasible)));
    assert_eq!(search.pruned_infeasible(), 2);
    assert_eq!(search.created_nodes(), 3);
    assert_eq!(search.explored_nodes(), 3);
    assert!(search.incumbent().is_none());
}

#[test]
fn node_limit_keeps_the_incumbent_without_claiming_optimality() {
    let mut search: BranchAndBoundSearch<&'static str, i32> = BranchAndBoundSearch::new("root", 2);
    let root = explore(&mut search);
    search.record(&root, NodeOutcome::Branch { left: "left", right: "right" });
    let left = explore(&mut search);
    search.record(&left, NodeOutcome::IntegerSolution { candidate: 1, better_than_incumbent: true });
    assert!(matches!(search.next_step(), SearchStep::Finished(BranchAndBoundStatus::NodeLimit)));
    assert_eq!(search.explored_nodes(), 2);
    assert_eq!(search.created_nodes(), 3);
    assert_eq!(search.incumbent(), Some(&1));
}

#[test]
fn incumbent_is_replaced_only_by_a_better_solution() {
    let mut search: BranchAndBoundSearch<&'static str, i32> = BranchAndBoundSearch::new("root", 10);
    let root = explore(&mut search);
    search.record(&root, NodeOutcome::Branch { left: "left", right: "right" });
    let left = explore(&mut search);
    search.record(&left, NodeOutcome::IntegerSolution { candidate: 5, better_than_incumbent: false });
    let right = explore(&mut search);
    assert!(search.prune_by_bound(true));
    assert_eq!(search.pruned_by_bound(), 1);
    let _ = right;
    assert!(matches!(search.next_step(), SearchStep::Finished(BranchAndBoundStatus::Optimal)));
    assert_eq!(search.into_incumbent(), Some(5));
}

#[test]
fn relaxation_failures_stop_the_search() {
    let mut search: BranchAndBoundSearch<&'static str, i32> = BranchAndBoundSearch::new("root", 10);
    let root = explore(&mut search);
    let verdict = search.record(&root, NodeOutcome::RelaxationUnbounded);
    assert_eq!(verdict.final_action, NodeFinalAction::RelaxationUnbounded);
    assert_eq!(verdict.stop, Some(BranchAndBoundStatus::RelaxationUnbounded));

    let mut search: BranchAndBoundSearch<&'static str, i32> = BranchAndBoundSearch::new("root", 10);
    let root = explore(&mut search);
    let verdict = search.record(&root, NodeOutcome::RelaxationIterationLimit);
    assert_eq!(verdict.final_action, NodeFinalAction::IterationLimit);
    assert_eq!(verdict.stop, Some(BranchAndBoundStatus::SimplexIterationLimit));
}

#[test]
fn zero_node_limit_explores_nothing() {
    let mut search: BranchAndBoundSearch<&'static str, i32> = BranchAndBoundSearch::new("root", 0);
    assert!(matches!(search.next_step(), SearchStep::Finished(BranchAndBoundStatus::NodeLimit)));
    assert_eq!(search.explored_nodes(), 0);
}

#[test]
fn any_node_limit_is_accepted() {
    let mut search: BranchAndBoundSearch<&'static str, i32> =
        BranchAndBoundSearch::new("root", usize::MAX);
    assert_eq!(search.max_nodes(), usize::MAX);
    let root = explore(&mut search);
    let verdict = search.record(&root, NodeOutcome::Branch { left: "left", right: "right" });
    assert_eq!(verdict.children, Some((1, 2)));
    assert_eq!(search.created_nodes(), 3);
}
