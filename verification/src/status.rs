//! How a run of the simplex method or of branch and bound ended, and the
//! names under which these outcomes are reported.

use vstd::prelude::*;

verus! {

/// How a run of the simplex method ended.
#[derive(Clone, Copy, Debug, PartialEq, Eq, Structural)]
pub enum SimplexStatus {
    Optimal,
    Unbounded,
    Infeasible,
    IterationLimit,
}

/// The phase of the two-phase simplex method.
#[derive(Clone, Copy, Debug, PartialEq, Eq, Structural)]
pub enum SimplexPhase {
    PhaseOne,
    PhaseTwo,
}

/// How a run of branch and bound ended.
#[derive(Clone, Copy, Debug, PartialEq, Eq, Structural)]
pub enum BranchAndBoundStatus {
    Optimal,
    Infeasible,
    NodeLimit,
    SimplexIterationLimit,
    RelaxationUnbounded,
}

/// What branch and bound did with a node after solving its relaxation.
#[derive(Clone, Copy, Debug, PartialEq, Eq, Structural)]
pub enum NodeFinalAction {
    Branched,
    PrunedInfeasible,
    PrunedByBound,
    IntegerSolution,
    IterationLimit,
    RelaxationUnbounded,
}

/// The name of a simplex outcome in a report.
pub open spec fn simplex_status_text(status: SimplexStatus) -> Seq<char> {
    match status {
        SimplexStatus::Optimal => "ótimo"@,
        SimplexStatus::Unbounded => "ilimitado"@,
        SimplexStatus::Infeasible => "inviável"@,
        SimplexStatus::IterationLimit => "limite de iterações atingido"@,
    }
}

/// The name of a simplex outcome in a report.
pub fn simplex_status_label(status: SimplexStatus) -> (label: &'static str)
    ensures
        label@ == simplex_status_text(status),
{
    match status {
        SimplexStatus::Optimal => "ótimo",
        SimplexStatus::Unbounded => "ilimitado",
        SimplexStatus::Infeasible => "inviável",
        SimplexStatus::IterationLimit => "limite de iterações atingido",
    }
}

/// The name of a branch and bound outcome in a report.
pub open spec fn branch_and_bound_status_text(status: BranchAndBoundStatus) -> Seq<char> {
    match status {
        BranchAndBoundStatus::Optimal => "ótimo"@,
        BranchAndBoundStatus::Infeasible => "inteiro inviável"@,
        BranchAndBoundStatus::NodeLimit => "limite de nós atingido"@,
        BranchAndBoundStatus::SimplexIterationLimit => "limite de iterações do simplex atingido"@,
        BranchAndBoundStatus::RelaxationUnbounded => "relaxação linear ilimitada"@,
    }
}

/// The name of a branch and bound outcome in a report.
pub fn branch_and_bound_status_label(status: BranchAndBoundStatus) -> (label: &'static str)
    ensures
        label@ == branch_and_bound_status_text(status),
{
    match status {
        BranchAndBoundStatus::Optimal => "ótimo",
        BranchAndBoundStatus::Infeasible => "inteiro inviável",
        BranchAndBoundStatus::NodeLimit => "limite de nós atingido",
        BranchAndBoundStatus::SimplexIterationLimit => "limite de iterações do simplex atingido",
        BranchAndBoundStatus::RelaxationUnbounded => "relaxação linear ilimitada",
    }
}

/// The name of what was done with a node in a report.
pub open spec fn node_action_text(action: NodeFinalAction) -> Seq<char> {
    match action {
        NodeFinalAction::Branched => "ramificado"@,
        NodeFinalAction::PrunedInfeasible => "podado por inviabilidade"@,
        NodeFinalAction::PrunedByBound => "podado por limitante"@,
        NodeFinalAction::IntegerSolution => "solução inteira"@,
        NodeFinalAction::IterationLimit => "limite de iterações"@,
        NodeFinalAction::RelaxationUnbounded => "relaxação ilimitada"@,
    }
}

/// The name of what was done with a node in a report.
pub fn node_action_label(action: NodeFinalAction) -> (label: &'static str)
    ensures
        label@ == node_action_text(action),
{
    match action {
        NodeFinalAction::Branched => "ramificado",
        NodeFinalAction::PrunedInfeasible => "podado por inviabilidade",
        NodeFinalAction::PrunedByBound => "podado por limitante",
        NodeFinalAction::IntegerSolution => "solução inteira",
        NodeFinalAction::IterationLimit => "limite de iterações",
        NodeFinalAction::RelaxationUnbounded => "relaxação ilimitada",
    }
}

} // verus!
