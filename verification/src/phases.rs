//! The order of the two phases of the simplex method: which phases a
//! problem needs, what the end of the first phase leads to, and how the
//! iterations are counted per phase.

use vstd::prelude::*;

use crate::errors::MatrixError;
use crate::status::{SimplexPhase, SimplexStatus};

verus! {

/// How a problem in matrix form is solved.
#[derive(Clone, Copy, Debug, PartialEq, Eq, Structural)]
pub enum PhasePlan {
    /// There is no constraint: the costs alone decide.
    WithoutConstraints,
    /// Every row has a natural basic column: the second phase starts at once.
    PhaseTwoOnly,
    /// Some row has no natural basic column: artificial variables and a first
    /// phase come first.
    PhaseOneFirst,
}

/// Every row has a natural basic column.
pub open spec fn natural_basis_complete(natural_basis: Seq<Option<usize>>) -> bool {
    forall|row: int| 0 <= row < natural_basis.len() ==> (#[trigger] natural_basis[row]) is Some
}

/// Chooses how to solve a problem with `rows` constraints, given the natural
/// basic column of each row.
pub fn phase_plan(rows: usize, natural_basis: &Vec<Option<usize>>) -> (plan: PhasePlan)
    ensures
        rows == 0 ==> plan == PhasePlan::WithoutConstraints,
        rows > 0 && natural_basis_complete(natural_basis@) ==> plan == PhasePlan::PhaseTwoOnly,
        rows > 0 && !natural_basis_complete(natural_basis@) ==> plan
            == PhasePlan::PhaseOneFirst,
{
    if rows == 0 {
        return PhasePlan::WithoutConstraints;
    }
    let mut row: usize = 0;
    while row < natural_basis.len()
        invariant
            rows > 0,
            row <= natural_basis@.len(),
            forall|r: int| 0 <= r < row ==> (#[trigger] natural_basis@[r]) is Some,
        decreases natural_basis.len() - row,
    {
        if natural_basis[row].is_none() {
            return PhasePlan::PhaseOneFirst;
        }
        row = row + 1;
    }
    PhasePlan::PhaseTwoOnly
}

/// What the end of the first phase leads to, before its objective is looked
/// at.
#[derive(Clone, Copy, Debug, PartialEq, Eq, Structural)]
pub enum PhaseOneVerdict {
    /// The first phase stopped at its iteration limit: its result is the
    /// answer.
    KeepPhaseOneResult,
    /// The first phase reached an optimum: its objective decides whether the
    /// problem is feasible.
    CheckFeasibility,
}

/// Decides what the status of the first phase leads to. The first phase
/// minimizes a sum of non-negative variables, so it cannot be unbounded:
/// that status is an error.
pub fn phase_one_verdict(status: SimplexStatus) -> (result: Result<PhaseOneVerdict, MatrixError>)
    ensures
        status == SimplexStatus::IterationLimit ==> result == Ok::<
            PhaseOneVerdict,
            MatrixError,
        >(PhaseOneVerdict::KeepPhaseOneResult),
        status == SimplexStatus::Unbounded ==> result == Err::<PhaseOneVerdict, MatrixError>(
            MatrixError::InternalPhaseOneUnbounded,
        ),
        status != SimplexStatus::IterationLimit && status != SimplexStatus::Unbounded ==> result
            == Ok::<PhaseOneVerdict, MatrixError>(PhaseOneVerdict::CheckFeasibility),
{
    match status {
        SimplexStatus::IterationLimit => Ok(PhaseOneVerdict::KeepPhaseOneResult),
        SimplexStatus::Unbounded => Err(MatrixError::InternalPhaseOneUnbounded),
        _ => Ok(PhaseOneVerdict::CheckFeasibility),
    }
}

/// The iterations of a run counted per phase: all of them belong to the
/// phase the run was in, as (first phase, second phase).
pub fn iterations_by_phase(phase: SimplexPhase, iterations: usize) -> (counts: (usize, usize))
    ensures
        phase == SimplexPhase::PhaseOne ==> counts == (iterations, 0usize),
        phase == SimplexPhase::PhaseTwo ==> counts == (0usize, iterations),
{
    match phase {
        SimplexPhase::PhaseOne => (iterations, 0),
        SimplexPhase::PhaseTwo => (0, iterations),
    }
}

} // verus!
