//! Branch and bound over the integer variables of a problem.
//!
//! The search keeps the nodes that wait to be explored on a stack, numbers
//! them in the order they are created, counts what happened to each explored
//! node and keeps the best integer solution found so far (the incumbent).
//! Solving the relaxation of a node is left to the caller, who reports the
//! outcome back; a node's payload (its problem) and a solution are opaque to
//! the search.

use std::collections::BTreeMap;
use vstd::prelude::*;

use crate::basis::contains_column;
use crate::errors::BranchAndBoundError;
use crate::maps::{ordered_keys, strictly_increasing};
use crate::problem::VariableKind;
use crate::status::{BranchAndBoundStatus, NodeFinalAction};

verus! {

broadcast use {vstd::std_specs::btree::group_btree_axioms, vstd::laws_cmp::group_laws_cmp};

/// A node of the search tree.
pub struct SearchNode<T> {
    pub id: usize,
    pub parent_id: Option<usize>,
    pub depth: usize,
    pub payload: T,
}

/// The next thing to do: explore a node, or stop with a status.
pub enum SearchStep<T> {
    Explore(SearchNode<T>),
    Finished(BranchAndBoundStatus),
}

/// What solving the relaxation of a node led to.
pub enum NodeOutcome<T, S> {
    /// The relaxation has no feasible solution.
    RelaxationInfeasible,
    /// The simplex method stopped at its iteration limit.
    RelaxationIterationLimit,
    /// The relaxation is unbounded.
    RelaxationUnbounded,
    /// The relaxation's solution is integral on the integer variables;
    /// `better_than_incumbent` tells whether it beats the incumbent, when
    /// there is one.
    IntegerSolution { candidate: S, better_than_incumbent: bool },
    /// A variable is fractional; `left` and `right` are the two subproblems.
    Branch { left: T, right: T },
}

/// What was done with an explored node.
pub struct NodeVerdict {
    pub final_action: NodeFinalAction,
    pub children: Option<(usize, usize)>,
    pub stop: Option<BranchAndBoundStatus>,
}

/// The state of a branch and bound search.
pub struct BranchAndBoundSearch<T, S> {
    max_nodes: usize,
    explored_nodes: usize,
    created_nodes: usize,
    pruned_infeasible: usize,
    pruned_by_bound: usize,
    integer_solution_nodes: usize,
    branched_nodes: usize,
    stopping_nodes: usize,
    pending: Vec<SearchNode<T>>,
    incumbent: Option<S>,
    awaiting_outcome: bool,
}

impl<T, S> BranchAndBoundSearch<T, S> {
    /// The most nodes that the search explores.
    pub closed spec fn node_limit(&self) -> nat {
        self.max_nodes as nat
    }

    /// How many nodes were taken from the stack.
    pub closed spec fn explored(&self) -> nat {
        self.explored_nodes as nat
    }

    /// How many nodes were created: the root and two per branching.
    pub closed spec fn created(&self) -> nat {
        self.created_nodes as nat
    }

    /// How many explored nodes had an infeasible relaxation.
    pub closed spec fn infeasible_count(&self) -> nat {
        self.pruned_infeasible as nat
    }

    /// How many explored nodes could not beat the incumbent.
    pub closed spec fn bound_pruned_count(&self) -> nat {
        self.pruned_by_bound as nat
    }

    /// How many explored nodes had an integral relaxation.
    pub closed spec fn integer_count(&self) -> nat {
        self.integer_solution_nodes as nat
    }

    /// How many explored nodes were branched on.
    pub closed spec fn branched_count(&self) -> nat {
        self.branched_nodes as nat
    }

    /// How many explored nodes stopped the search: their relaxation hit the
    /// iteration limit or was unbounded.
    pub closed spec fn stopping_count(&self) -> nat {
        self.stopping_nodes as nat
    }

    /// The identifiers of the nodes waiting on the stack, bottom first.
    pub closed spec fn pending_ids(&self) -> Seq<usize> {
        self.pending@.map_values(|node: SearchNode<T>| node.id)
    }

    /// The nodes waiting on the stack, bottom first.
    pub closed spec fn pending_nodes(&self) -> Seq<SearchNode<T>> {
        self.pending@
    }

    /// The best integer solution found so far.
    pub closed spec fn best(&self) -> Option<S> {
        self.incumbent
    }

    /// Whether the last node taken from the stack still waits for its outcome.
    pub closed spec fn awaiting(&self) -> bool {
        self.awaiting_outcome
    }

    /// The invariant of the search.
    pub closed spec fn wf(&self) -> bool {
        &&& self.created_nodes == self.explored_nodes + self.pending@.len()
        &&& self.explored_nodes <= self.max_nodes
        &&& self.created_nodes == 1 + 2 * self.branched_nodes
        &&& self.pruned_infeasible + self.pruned_by_bound + self.integer_solution_nodes
            + self.branched_nodes + self.stopping_nodes + (if self.awaiting_outcome {
            1int
        } else {
            0int
        }) == self.explored_nodes
        &&& forall|i: int|
            0 <= i < self.pending@.len() ==> #[trigger] self.pending@[i].id < self.created_nodes
                && self.pending@[i].depth < self.created_nodes
        &&& forall|i: int, j: int|
            0 <= i < j < self.pending@.len() ==> self.pending@[i].id != self.pending@[j].id
    }

    /// Every node created so far has been explored or waits on the stack;
    /// the nodes created are the root and two per branching; no more nodes
    /// than the limit are explored; each explored node whose outcome is
    /// recorded is counted exactly once, as infeasible, pruned by bound,
    /// integral, branched or stopping the search; and waiting nodes have
    /// distinct identifiers.
    pub proof fn lemma_accounting(&self)
        requires
            self.wf(),
        ensures
            self.created() == self.explored() + self.pending_ids().len(),
            self.explored() <= self.node_limit(),
            self.created() == 1 + 2 * self.branched_count(),
            self.infeasible_count() + self.bound_pruned_count() + self.integer_count()
                + self.branched_count() + self.stopping_count() + (if self.awaiting() {
                1int
            } else {
                0int
            }) == self.explored(),
            self.pending_ids().no_duplicates(),
            forall|i: int| 0 <= i < self.pending_ids().len() ==> self.pending_ids()[i] < self.created(),
    {
        let ids = self.pending_ids();
        assert forall|i: int, j: int| 0 <= i < j < ids.len() implies ids[i] != ids[j] by {
            assert(ids[i] == self.pending@[i].id && ids[j] == self.pending@[j].id);
        }
        assert forall|i: int| 0 <= i < ids.len() implies ids[i] < self.created() by {
            assert(ids[i] == self.pending@[i].id);
        }
    }

    /// A search whose stack holds only the root, with identifier 0.
    pub fn new(root: T, max_nodes: usize) -> (search: Self)
        ensures
            search.wf(),
            search.node_limit() == max_nodes,
            search.explored() == 0,
            search.created() == 1,
            search.infeasible_count() == 0,
            search.bound_pruned_count() == 0,
            search.integer_count() == 0,
            search.branched_count() == 0,
            search.stopping_count() == 0,
            search.pending_nodes() == seq![
                SearchNode { id: 0, parent_id: None, depth: 0, payload: root },
            ],
            search.best() is None,
            !search.awaiting(),
    {
        let mut pending = Vec::new();
        pending.push(SearchNode { id: 0, parent_id: None, depth: 0, payload: root });
        let search = BranchAndBoundSearch {
            max_nodes,
            explored_nodes: 0,
            created_nodes: 1,
            pruned_infeasible: 0,
            pruned_by_bound: 0,
            integer_solution_nodes: 0,
            branched_nodes: 0,
            stopping_nodes: 0,
            pending,
            incumbent: None,
            awaiting_outcome: false,
        };
        assert(search.pending@ =~= seq![
            SearchNode { id: 0, parent_id: None, depth: 0, payload: root },
        ]);
        search
    }

    /// Takes the next node from the top of the stack. The search finishes
    /// when the stack is empty (optimal when an integer solution was found,
    /// infeasible otherwise) or when the node limit has been reached.
    pub fn next_step(&mut self) -> (step: SearchStep<T>)
        requires
            old(self).wf(),
            !old(self).awaiting(),
        ensures
            final(self).wf(),
            final(self).node_limit() == old(self).node_limit(),
            final(self).created() == old(self).created(),
            final(self).infeasible_count() == old(self).infeasible_count(),
            final(self).bound_pruned_count() == old(self).bound_pruned_count(),
            final(self).integer_count() == old(self).integer_count(),
            final(self).branched_count() == old(self).branched_count(),
            final(self).stopping_count() == old(self).stopping_count(),
            final(self).best() == old(self).best(),
            old(self).pending_nodes().len() == 0 ==> {
                &&& step == SearchStep::<T>::Finished(
                    if old(self).best() is Some {
                        BranchAndBoundStatus::Optimal
                    } else {
                        BranchAndBoundStatus::Infeasible
                    },
                )
                &&& final(self).explored() == old(self).explored()
                &&& final(self).pending_nodes() == old(self).pending_nodes()
                &&& !final(self).awaiting()
            },
            old(self).pending_nodes().len() > 0 && old(self).explored() >= old(self).node_limit()
                ==> {
                &&& step == SearchStep::<T>::Finished(BranchAndBoundStatus::NodeLimit)
                &&& final(self).explored() == old(self).explored()
                &&& final(self).pending_nodes() == old(self).pending_nodes()
                &&& !final(self).awaiting()
            },
            old(self).pending_nodes().len() > 0 && old(self).explored() < old(self).node_limit()
                ==> {
                &&& step == SearchStep::Explore(old(self).pending_nodes().last())
                &&& final(self).explored() == old(self).explored() + 1
                &&& final(self).pending_nodes() == old(self).pending_nodes().drop_last()
                &&& final(self).awaiting()
            },
            step matches SearchStep::Explore(node) ==> node.id < final(self).created()
                && node.depth < final(self).created(),
    {
        if self.pending.len() == 0 {
            if self.incumbent.is_some() {
                return SearchStep::Finished(BranchAndBoundStatus::Optimal);
            }
            return SearchStep::Finished(BranchAndBoundStatus::Infeasible);
        }
        if self.explored_nodes >= self.max_nodes {
            return SearchStep::Finished(BranchAndBoundStatus::NodeLimit);
        }
        let ghost last_index = self.pending@.len() - 1;
        let node = self.pending.pop().unwrap();
        assert(node.id < self.created_nodes && node.depth < self.created_nodes) by {
            assert(node == old(self).pending@[last_index]);
        }
        self.explored_nodes = self.explored_nodes + 1;
        self.awaiting_outcome = true;
        assert(self.pending@ =~= old(self).pending@.drop_last());
        assert forall|i: int, j: int| 0 <= i < j < self.pending@.len() implies self.pending@[i].id
            != self.pending@[j].id by {
            assert(self.pending@[i] == old(self).pending@[i]);
            assert(self.pending@[j] == old(self).pending@[j]);
        }
        SearchStep::Explore(node)
    }

    /// Prunes the node being explored when it cannot beat the incumbent:
    /// `not_better` tells whether the bound of the node's relaxation fails to
    /// improve on the incumbent. Without an incumbent nothing is pruned.
    pub fn prune_by_bound(&mut self, not_better: bool) -> (pruned: bool)
        requires
            old(self).wf(),
            old(self).awaiting(),
        ensures
            final(self).wf(),
            pruned == (old(self).best() is Some && not_better),
            pruned ==> final(self).bound_pruned_count() == old(self).bound_pruned_count() + 1
                && !final(self).awaiting(),
            !pruned ==> final(self).bound_pruned_count() == old(self).bound_pruned_count()
                && final(self).awaiting(),
            final(self).node_limit() == old(self).node_limit(),
            final(self).explored() == old(self).explored(),
            final(self).created() == old(self).created(),
            final(self).infeasible_count() == old(self).infeasible_count(),
            final(self).integer_count() == old(self).integer_count(),
            final(self).branched_count() == old(self).branched_count(),
            final(self).stopping_count() == old(self).stopping_count(),
            final(self).pending_nodes() == old(self).pending_nodes(),
            final(self).best() == old(self).best(),
    {
        if self.incumbent.is_some() && not_better {
            self.pruned_by_bound = self.pruned_by_bound + 1;
            self.awaiting_outcome = false;
            true
        } else {
            false
        }
    }

    /// Records the outcome of the node being explored, `node`. A fractional
    /// node gets two children, numbered in the order of creation, whose
    /// subproblems go on the stack so that the left one is explored next.
    pub fn record(&mut self, node: &SearchNode<T>, outcome: NodeOutcome<T, S>) -> (verdict:
        NodeVerdict)
        requires
            old(self).wf(),
            old(self).awaiting(),
            node.depth < old(self).created(),
            outcome is Branch ==> old(self).created() + 2 <= usize::MAX,
        ensures
            final(self).wf(),
            !final(self).awaiting(),
            final(self).node_limit() == old(self).node_limit(),
            final(self).explored() == old(self).explored(),
            old(self).best() is Some ==> final(self).best() is Some,
            match outcome {
                NodeOutcome::RelaxationInfeasible => {
                    &&& verdict.final_action == NodeFinalAction::PrunedInfeasible
                    &&& verdict.children is None
                    &&& verdict.stop is None
                    &&& final(self).infeasible_count() == old(self).infeasible_count() + 1
                    &&& final(self).integer_count() == old(self).integer_count()
                    &&& final(self).branched_count() == old(self).branched_count()
                    &&& final(self).stopping_count() == old(self).stopping_count()
                    &&& final(self).created() == old(self).created()
                    &&& final(self).pending_nodes() == old(self).pending_nodes()
                    &&& final(self).best() == old(self).best()
                },
                NodeOutcome::RelaxationIterationLimit => {
                    &&& verdict.final_action == NodeFinalAction::IterationLimit
                    &&& verdict.children is None
                    &&& verdict.stop == Some(BranchAndBoundStatus::SimplexIterationLimit)
                    &&& final(self).infeasible_count() == old(self).infeasible_count()
                    &&& final(self).integer_count() == old(self).integer_count()
                    &&& final(self).branched_count() == old(self).branched_count()
                    &&& final(self).stopping_count() == old(self).stopping_count() + 1
                    &&& final(self).created() == old(self).created()
                    &&& final(self).pending_nodes() == old(self).pending_nodes()
                    &&& final(self).best() == old(self).best()
                },
                NodeOutcome::RelaxationUnbounded => {
                    &&& verdict.final_action == NodeFinalAction::RelaxationUnbounded
                    &&& verdict.children is None
                    &&& verdict.stop == Some(BranchAndBoundStatus::RelaxationUnbounded)
                    &&& final(self).infeasible_count() == old(self).infeasible_count()
                    &&& final(self).integer_count() == old(self).integer_count()
                    &&& final(self).branched_count() == old(self).branched_count()
                    &&& final(self).stopping_count() == old(self).stopping_count() + 1
                    &&& final(self).created() == old(self).created()
                    &&& final(self).pending_nodes() == old(self).pending_nodes()
                    &&& final(self).best() == old(self).best()
                },
                NodeOutcome::IntegerSolution { candidate, better_than_incumbent } => {
                    &&& verdict.final_action == NodeFinalAction::IntegerSolution
                    &&& verdict.children is None
                    &&& verdict.stop is None
                    &&& final(self).infeasible_count() == old(self).infeasible_count()
                    &&& final(self).integer_count() == old(self).integer_count() + 1
                    &&& final(self).branched_count() == old(self).branched_count()
                    &&& final(self).stopping_count() == old(self).stopping_count()
                    &&& final(self).created() == old(self).created()
                    &&& final(self).pending_nodes() == old(self).pending_nodes()
                    &&& final(self).best() == (if old(self).best() is None
                        || better_than_incumbent {
                        Some(candidate)
                    } else {
                        old(self).best()
                    })
                },
                NodeOutcome::Branch { left, right } => {
                    let first = old(self).created() as usize;
                    &&& verdict.final_action == NodeFinalAction::Branched
                    &&& verdict.children == Some((first, (first + 1) as usize))
                    &&& verdict.stop is None
                    &&& final(self).infeasible_count() == old(self).infeasible_count()
                    &&& final(self).integer_count() == old(self).integer_count()
                    &&& final(self).branched_count() == old(self).branched_count() + 1
                    &&& final(self).stopping_count() == old(self).stopping_count()
                    &&& final(self).created() == old(self).created() + 2
                    &&& final(self).pending_nodes() == old(self).pending_nodes().push(
                        SearchNode {
                            id: (first + 1) as usize,
                            parent_id: Some(node.id),
                            depth: (node.depth + 1) as usize,
                            payload: right,
                        },
                    ).push(
                        SearchNode {
                            id: first,
                            parent_id: Some(node.id),
                            depth: (node.depth + 1) as usize,
                            payload: left,
                        },
                    )
                    &&& final(self).best() == old(self).best()
                },
            },
            final(self).bound_pruned_count() == old(self).bound_pruned_count(),
    {
        self.awaiting_outcome = false;
        assert(self.pending@ == old(self).pending@);
        match outcome {
            NodeOutcome::RelaxationInfeasible => {
                self.pruned_infeasible = self.pruned_infeasible + 1;
                NodeVerdict {
                    final_action: NodeFinalAction::PrunedInfeasible,
                    children: None,
                    stop: None,
                }
            },
            NodeOutcome::RelaxationIterationLimit => {
                self.stopping_nodes = self.stopping_nodes + 1;
                NodeVerdict {
                    final_action: NodeFinalAction::IterationLimit,
                    children: None,
                    stop: Some(BranchAndBoundStatus::SimplexIterationLimit),
                }
            },
            NodeOutcome::RelaxationUnbounded => {
                self.stopping_nodes = self.stopping_nodes + 1;
                NodeVerdict {
                    final_action: NodeFinalAction::RelaxationUnbounded,
                    children: None,
                    stop: Some(BranchAndBoundStatus::RelaxationUnbounded),
                }
            },
            NodeOutcome::IntegerSolution { candidate, better_than_incumbent } => {
                if self.incumbent.is_none() || better_than_incumbent {
                    self.incumbent = Some(candidate);
                }
                self.integer_solution_nodes = self.integer_solution_nodes + 1;
                NodeVerdict {
                    final_action: NodeFinalAction::IntegerSolution,
                    children: None,
                    stop: None,
                }
            },
            NodeOutcome::Branch { left, right } => {
                let first = self.created_nodes;
                let ghost before = self.pending@;
                self.pending.push(
                    SearchNode {
                        id: first + 1,
                        parent_id: Some(node.id),
                        depth: node.depth + 1,
                        payload: right,
                    },
                );
                self.pending.push(
                    SearchNode {
                        id: first,
                        parent_id: Some(node.id),
                        depth: node.depth + 1,
                        payload: left,
                    },
                );
                self.created_nodes = first + 2;
                self.branched_nodes = self.branched_nodes + 1;
                assert forall|i: int, j: int|
                    0 <= i < j < self.pending@.len() implies self.pending@[i].id
                    != self.pending@[j].id by {
                    if j < before.len() {
                        assert(self.pending@[i] == before[i] && self.pending@[j] == before[j]);
                    } else if i < before.len() {
                        assert(self.pending@[i] == before[i]);
                    }
                }
                assert forall|i: int| 0 <= i < self.pending@.len() implies #[trigger] self.pending@[i].id
                    < self.created_nodes && self.pending@[i].depth < self.created_nodes by {
                    if i < before.len() {
                        assert(self.pending@[i] == before[i]);
                    }
                }
                NodeVerdict {
                    final_action: NodeFinalAction::Branched,
                    children: Some((first, first + 1)),
                    stop: None,
                }
            },
        }
    }

    /// The most nodes that the search explores.
    pub fn max_nodes(&self) -> (limit: usize)
        ensures
            limit == self.node_limit(),
    {
        self.max_nodes
    }

    /// How many nodes were taken from the stack.
    pub fn explored_nodes(&self) -> (count: usize)
        ensures
            count == self.explored(),
    {
        self.explored_nodes
    }

    /// How many nodes were created.
    pub fn created_nodes(&self) -> (count: usize)
        ensures
            count == self.created(),
    {
        self.created_nodes
    }

    /// How many explored nodes had an infeasible relaxation.
    pub fn pruned_infeasible(&self) -> (count: usize)
        ensures
            count == self.infeasible_count(),
    {
        self.pruned_infeasible
    }

    /// How many explored nodes could not beat the incumbent.
    pub fn pruned_by_bound(&self) -> (count: usize)
        ensures
            count == self.bound_pruned_count(),
    {
        self.pruned_by_bound
    }

    /// How many explored nodes had an integral relaxation.
    pub fn integer_solution_nodes(&self) -> (count: usize)
        ensures
            count == self.integer_count(),
    {
        self.integer_solution_nodes
    }

    /// The best integer solution found so far.
    pub fn incumbent(&self) -> (best: Option<&S>)
        ensures
            best is None <==> self.best() is None,
            best matches Some(solution) ==> self.best() == Some(*solution),
    {
        match &self.incumbent {
            Some(solution) => Some(solution),
            None => None,
        }
    }

    /// Ends the search, handing back the best integer solution found.
    pub fn into_incumbent(self) -> (best: Option<S>)
        ensures
            best == self.best(),
    {
        self.incumbent
    }
}


/// The variable is an original variable of the problem.
pub open spec fn is_original(kinds: Map<usize, VariableKind>, variable: usize) -> bool {
    kinds.contains_key(variable) && kinds[variable] == VariableKind::Original
}

/// The entry at `index` repeats an earlier one.
pub open spec fn repeated_at(variables: Seq<usize>, index: int) -> bool {
    variables.take(index).contains(variables[index])
}

/// The entry at `index` is accepted as an integer variable: it is new and
/// it is an original variable.
pub open spec fn accepted_at(
    variables: Seq<usize>,
    kinds: Map<usize, VariableKind>,
    index: int,
) -> bool {
    !repeated_at(variables, index) && is_original(kinds, variables[index])
}

/// Inserts `value` into a strictly increasing list, keeping it so.
pub fn insert_sorted(sorted: &mut Vec<usize>, value: usize)
    requires
        strictly_increasing(old(sorted)@),
        !old(sorted)@.contains(value),
    ensures
        strictly_increasing(final(sorted)@),
        final(sorted)@.to_set() == old(sorted)@.to_set().insert(value),
        final(sorted)@.len() == old(sorted)@.len() + 1,
{
    let mut position: usize = 0;
    while position < sorted.len() && sorted[position] < value
        invariant
            position <= sorted@.len(),
            sorted@ == old(sorted)@,
            forall|i: int| 0 <= i < position ==> sorted@[i] < value,
        decreases sorted.len() - position,
    {
        position = position + 1;
    }
    let ghost before = sorted@;
    sorted.insert(position, value);
    assert forall|i: int, j: int| 0 <= i < j < sorted@.len() implies sorted@[i] < sorted@[j] by {
        if j < position {
        } else if j == position {
        } else if i < position {
            assert(sorted@[j] == before[j - 1]);
            assert(before[position as int] != value);
            assert(value < before[position as int]);
        } else if i == position {
            assert(sorted@[j] == before[j - 1]);
            assert(before[position as int] != value);
            assert(value < before[position as int]);
        } else {
            assert(sorted@[i] == before[i - 1] && sorted@[j] == before[j - 1]);
        }
    }
    assert(sorted@.to_set() =~= before.to_set().insert(value)) by {
        assert forall|x: usize| sorted@.to_set().contains(x) implies before.to_set().insert(
            value,
        ).contains(x) by {
            let k = choose|k: int| 0 <= k < sorted@.len() && sorted@[k] == x;
            if k < position {
                assert(before[k] == x);
            } else if k > position {
                assert(before[k - 1] == x);
            }
        }
        assert forall|x: usize| before.to_set().insert(value).contains(x) implies sorted@.to_set().contains(
            x,
        ) by {
            if x == value {
                assert(sorted@[position as int] == x);
            } else {
                let k = choose|k: int| 0 <= k < before.len() && before[k] == x;
                if k < position {
                    assert(sorted@[k] == x);
                } else {
                    assert(sorted@[k + 1] == x);
                }
            }
        }
    }
}

/// Checks the list of integer variables: each must appear once and be an
/// original variable of the problem. The first entry that breaks a rule
/// names the error; a repetition is reported before a wrong kind. On
/// success the variables come back in increasing order.
pub fn validate_integer_variables(
    kinds: &BTreeMap<usize, VariableKind>,
    integer_variables: &[usize],
) -> (result: Result<Vec<usize>, BranchAndBoundError>)
    ensures
        match result {
            Ok(sorted) => {
                &&& forall|i: int|
                    0 <= i < integer_variables@.len() ==> accepted_at(integer_variables@, kinds@, i)
                &&& strictly_increasing(sorted@)
                &&& sorted@.to_set() == integer_variables@.to_set()
                &&& sorted@.len() == integer_variables@.len()
            },
            Err(BranchAndBoundError::DuplicateIntegerVariable { variable }) => exists|i: int|
                0 <= i < integer_variables@.len() && repeated_at(integer_variables@, i) && variable
                    == integer_variables@[i] && forall|k: int|
                    0 <= k < i ==> accepted_at(integer_variables@, kinds@, k),
            Err(BranchAndBoundError::InvalidIntegerVariable { variable }) => exists|i: int|
                0 <= i < integer_variables@.len() && !repeated_at(integer_variables@, i)
                    && !is_original(kinds@, integer_variables@[i]) && variable
                    == integer_variables@[i] && forall|k: int|
                    0 <= k < i ==> accepted_at(integer_variables@, kinds@, k),
            Err(_) => false,
        },
{
    let mut sorted: Vec<usize> = Vec::new();
    let mut index: usize = 0;
    while index < integer_variables.len()
        invariant
            index <= integer_variables@.len(),
            forall|k: int| 0 <= k < index ==> accepted_at(integer_variables@, kinds@, k),
            strictly_increasing(sorted@),
            sorted@.to_set() == integer_variables@.take(index as int).to_set(),
            sorted@.len() == index,
        decreases integer_variables.len() - index,
    {
        let variable = integer_variables[index];
        assert(integer_variables@.take(index as int).to_set().contains(variable)
            == integer_variables@.take(index as int).contains(variable));
        if contains_column(&sorted, variable) {
            assert(repeated_at(integer_variables@, index as int));
            return Err(BranchAndBoundError::DuplicateIntegerVariable { variable });
        }
        let is_original_variable = match kinds.get(&variable) {
            Some(kind) => *kind == VariableKind::Original,
            None => false,
        };
        if !is_original_variable {
            return Err(BranchAndBoundError::InvalidIntegerVariable { variable });
        }
        insert_sorted(&mut sorted, variable);
        assert(integer_variables@.take(index + 1) =~= integer_variables@.take(index as int).push(
            variable,
        ));
        proof {
            integer_variables@.take(index as int).lemma_push_to_set_commute(variable);
        }
        index = index + 1;
    }
    assert(integer_variables@.take(index as int) =~= integer_variables@);
    Ok(sorted)
}

/// The original variables of a problem, in increasing order.
pub fn original_variables(kinds: &BTreeMap<usize, VariableKind>) -> (variables: Vec<usize>)
    ensures
        strictly_increasing(variables@),
        forall|v: usize| variables@.contains(v) <==> is_original(kinds@, v),
{
    let keys = ordered_keys(kinds);
    let mut variables: Vec<usize> = Vec::new();
    let mut index: usize = 0;
    while index < keys.len()
        invariant
            index <= keys@.len(),
            strictly_increasing(keys@),
            forall|i: int| 0 <= i < keys@.len() ==> kinds@.contains_key(#[trigger] keys@[i]),
            strictly_increasing(variables@),
            forall|i: int| 0 <= i < variables@.len() ==> is_original(kinds@, #[trigger] variables@[i]),
            forall|i: int|
                0 <= i < variables@.len() ==> exists|k: int|
                    0 <= k < index && keys@[k] == #[trigger] variables@[i],
            forall|k: int|
                0 <= k < index && is_original(kinds@, #[trigger] keys@[k]) ==> variables@.contains(
                    keys@[k],
                ),
        decreases keys.len() - index,
    {
        let key = keys[index];
        let is_original_variable = match kinds.get(&key) {
            Some(kind) => *kind == VariableKind::Original,
            None => false,
        };
        if is_original_variable {
            let ghost before = variables@;
            variables.push(key);
            assert forall|i: int, j: int| 0 <= i < j < variables@.len() implies variables@[i]
                < variables@[j] by {
                if j == variables@.len() - 1 {
                    let k = choose|k: int| 0 <= k < index && keys@[k] == before[i];
                    assert(keys@[k] < keys@[index as int]);
                }
            }
            assert forall|i: int|
                0 <= i < variables@.len() implies exists|k: int|
                0 <= k < index + 1 && keys@[k] == #[trigger] variables@[i] by {
                if i < before.len() {
                    let k = choose|k: int| 0 <= k < index && keys@[k] == before[i];
                    assert(keys@[k] == variables@[i]);
                } else {
                    assert(keys@[index as int] == variables@[i]);
                }
            }
            assert forall|k: int|
                0 <= k < index + 1 && is_original(kinds@, #[trigger] keys@[k]) implies variables@.contains(
                keys@[k],
            ) by {
                if k < index {
                    let p = choose|p: int| 0 <= p < before.len() && before[p] == keys@[k];
                    assert(variables@[p] == keys@[k]);
                } else {
                    assert(variables@[variables@.len() - 1] == keys@[k]);
                }
            }
        }
        index = index + 1;
    }
    assert forall|v: usize| is_original(kinds@, v) implies variables@.contains(v) by {
        assert(keys@.contains(v));
        let k = choose|k: int| 0 <= k < keys@.len() && keys@[k] == v;
        assert(is_original(kinds@, keys@[k]));
    }
    variables
}

} // verus!
