use vstd::prelude::*;
use crate::engine::{keeps_disabled, Activation, Step};
use crate::model::Select;

verus! {

/// Whether `states` and `steps` record calls made one after another on one
/// activation: call `i` was made in state `i`, returned step `i` and left state
/// `i + 1`, as each method's contract describes.
pub open spec fn is_run(states: Seq<Activation>, steps: Seq<Step>) -> bool {
    &&& states.len() == steps.len() + 1
    &&& forall|i: int|
        0 <= i < steps.len() ==> {
            &&& states[i].live()
            &&& ((#[trigger] steps[i]).ends() <==> states[i + 1].phase is Done)
            &&& keeps_disabled(states[i], states[i + 1], steps[i])
        }
}

proof fn lemma_run_step(states: Seq<Activation>, steps: Seq<Step>, i: int)
    requires
        is_run(states, steps),
        0 <= i < steps.len(),
    ensures
        states[i].live(),
        steps[i].ends() <==> states[i + 1].phase is Done,
        keeps_disabled(states[i], states[i + 1], steps[i]),
{
    let s = steps[i];
}

/// At most one body runs per activation: a step that runs a body, the default
/// or fails is the last step of any run, so no two steps of a run end it.
pub proof fn lemma_one_body(states: Seq<Activation>, steps: Seq<Step>)
    requires
        is_run(states, steps),
    ensures
        forall|i: int| 0 <= i < steps.len() && #[trigger] steps[i].ends() ==> i == steps.len() - 1,
        forall|i: int, j: int|
            0 <= i < steps.len() && 0 <= j < steps.len() && #[trigger] steps[i].ends()
                && #[trigger] steps[j].ends() ==> i == j,
{
    assert forall|i: int| 0 <= i < steps.len() && #[trigger] steps[i].ends() implies i
        == steps.len() - 1 by {
        if i + 1 < steps.len() {
            lemma_run_step(states, steps, i);
            lemma_run_step(states, steps, i + 1);
        }
    }
}

proof fn lemma_disabled_grows(states: Seq<Activation>, steps: Seq<Step>, i: int, k: int)
    requires
        is_run(states, steps),
        0 <= i <= k < states.len(),
    ensures
        states[i].disabled@.subset_of(states[k].disabled@),
    decreases k - i,
{
    if i < k {
        lemma_disabled_grows(states, steps, i, k - 1);
        lemma_run_step(states, steps, k - 1);
    }
}

/// No double poll: once a branch is disabled, no later step of the run polls it.
pub proof fn lemma_no_poll_after_disabled(
    states: Seq<Activation>,
    steps: Seq<Step>,
    i: int,
    b: int,
)
    requires
        is_run(states, steps),
        0 <= i < states.len(),
        states[i].disabled@.contains(b),
    ensures
        forall|j: int|
            i <= j < steps.len() ==> #[trigger] steps[j] != (Step::Poll { branch: b as usize }),
{
    assert forall|j: int| i <= j < steps.len() implies #[trigger] steps[j] != Step::Poll {
        branch: b as usize,
    } by {
        lemma_disabled_grows(states, steps, i, j + 1);
        lemma_run_step(states, steps, j);
    }
}

/// Guard precedence: a branch that its guard disabled when the activation began
/// is never polled in it, whether or not its operation is complete.
pub proof fn lemma_guard_precedence(
    sel: Select,
    guards: Seq<bool>,
    start: usize,
    states: Seq<Activation>,
    steps: Seq<Step>,
    b: int,
)
    requires
        is_run(states, steps),
        states[0].started(&sel, guards, start),
        0 <= b < sel.branches@.len(),
        sel.branches@[b].guarded && guards[b],
    ensures
        forall|j: int|
            0 <= j < steps.len() ==> #[trigger] steps[j] != (Step::Poll { branch: b as usize }),
{
    assert(states[0].disabled@.contains(b));
    lemma_no_poll_after_disabled(states, steps, 0, b);
}

} // verus!
