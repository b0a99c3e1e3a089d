use simplex::errors::MatrixError;
use simplex::phases::{iterations_by_phase, phase_one_verdict, phase_plan, PhaseOneVerdict, PhasePlan};
use simplex::status::{SimplexPhase, SimplexStatus};

#[test]
fn a_problem_without_rows_needs_no_phase() {
    assert_eq!(phase_plan(0, &Vec::new()), PhasePlan::WithoutConstraints);
}

#[test]
fn a_complete_natural_basis_starts_in_the_second_phase() {
    assert_eq!(phase_plan(2, &vec![Some(3), Some(4)]), PhasePlan::PhaseTwoOnly);
}

#[test]
fn a_missing_basic_column_needs_the_first_phase() {
    assert_eq!(phase_plan(2, &vec![Some(3), None]), PhasePlan::PhaseOneFirst);
}

#[test]
fn the_end_of_the_first_phase_decides_what_follows() {
    assert_eq!(
        phase_one_verdict(SimplexStatus::IterationLimit),
        Ok(PhaseOneVerdict::KeepPhaseOneResult)
    );
    assert_eq!(
        phase_one_verdict(SimplexStatus::Unbounded),
        Err(MatrixError::InternalPhaseOneUnbounded)
    );
    assert_eq!(
        phase_one_verdict(SimplexStatus::Optimal),
        Ok(PhaseOneVerdict::CheckFeasibility)
    );
}

#[test]
fn iterations_count_for_the_phase_of_the_run() {
    assert_eq!(iterations_by_phase(SimplexPhase::PhaseOne, 7), (7, 0));
    assert_eq!(iterations_by_phase(SimplexPhase::PhaseTwo, 7), (0, 7));
}
