//! Running a sequence of steps done outside the library (sysfs writes, module
//! loads, messages sent): the steps are taken in order and the sequence stops
//! at the first that fails, with that failure as its result.
use vstd::prelude::*;

verus! {

/// What to do next in a sequence of steps.
#[derive(Debug)]
pub enum RunStep<E> {
    /// Take the step at this index.
    Perform(usize),
    /// The sequence is over, with this result.
    Finish(Result<(), E>),
}

/// How many steps are taken when step `i` gives `outcomes[i]`: every step up
/// to and including the first that fails.
pub open spec fn steps_taken<E>(outcomes: Seq<Result<(), E>>) -> nat
    decreases outcomes.len(),
{
    if outcomes.len() == 0 {
        0
    } else if outcomes[0] is Err {
        1
    } else {
        1 + steps_taken(outcomes.drop_first())
    }
}

/// The result of a sequence: its first failure, or success when no step fails.
pub open spec fn run_result<E>(outcomes: Seq<Result<(), E>>) -> Result<(), E>
    decreases outcomes.len(),
{
    if outcomes.len() == 0 {
        Ok(())
    } else {
        match outcomes[0] {
            Err(e) => Err(e),
            Ok(_) => run_result(outcomes.drop_first()),
        }
    }
}

/// The first step of a sequence of `n` steps.
pub open spec fn first_step_of<E>(n: nat) -> RunStep<E> {
    if n > 0 {
        RunStep::Perform(0)
    } else {
        RunStep::Finish(Ok(()))
    }
}

/// What follows when step `done` of a sequence of `n` steps gave `outcome`.
pub open spec fn step_after<E>(n: nat, done: nat, outcome: Result<(), E>) -> RunStep<E> {
    match outcome {
        Err(e) => RunStep::Finish(Err(e)),
        Ok(_) => if done + 1 < n {
            RunStep::Perform((done + 1) as usize)
        } else {
            RunStep::Finish(Ok(()))
        },
    }
}

/// The indices of the steps taken, in order, and the result, when a sequence
/// of `n` steps goes on from step `k` by `step_after` and step `i` gives
/// `outcomes[i]`.
pub open spec fn drive<E>(n: nat, k: nat, outcomes: Seq<Result<(), E>>) -> (Seq<nat>, Result<(), E>)
    decreases n - k,
{
    if k >= n {
        (Seq::empty(), Ok(()))
    } else {
        match step_after(n, k, outcomes[k as int]) {
            RunStep::Finish(r) => (seq![k], r),
            RunStep::Perform(j) => if k < j {
                (seq![k] + drive(n, j as nat, outcomes).0, drive(n, j as nat, outcomes).1)
            } else {
                (seq![k], Ok(()))
            },
        }
    }
}

/// The steps of `steps` that are taken, in order, and the result, when the
/// sequence starts with `first_step_of` and step `i` gives `outcomes[i]`.
pub open spec fn run_of<S, E>(steps: Seq<S>, outcomes: Seq<Result<(), E>>) -> (Seq<S>, Result<(), E>) {
    match first_step_of::<E>(steps.len()) {
        RunStep::Perform(k) => (
            drive(steps.len(), k as nat, outcomes).0.map_values(|i: nat| steps[i as int]),
            drive(steps.len(), k as nat, outcomes).1,
        ),
        RunStep::Finish(r) => (Seq::empty(), r),
    }
}

/// The first step of a sequence of `n` steps: the step at index zero, or the
/// end with success when there are none.
pub fn first_step<E>(n: usize) -> (s: RunStep<E>)
    ensures
        s == first_step_of::<E>(n as nat),
{
    if n > 0 {
        RunStep::Perform(0)
    } else {
        RunStep::Finish(Ok(()))
    }
}

/// What follows when step `done` of a sequence of `n` steps gave `outcome`: a
/// failure ends the sequence with it; otherwise the next step is taken, or the
/// sequence ends with success after its last step.
pub fn next_step<E>(n: usize, done: usize, outcome: Result<(), E>) -> (s: RunStep<E>)
    requires
        done < n,
    ensures
        s == step_after(n as nat, done as nat, outcome),
{
    match outcome {
        Err(e) => RunStep::Finish(Err(e)),
        Ok(()) => if done + 1 < n {
            RunStep::Perform(done + 1)
        } else {
            RunStep::Finish(Ok(()))
        },
    }
}

proof fn lemma_drive<E>(outcomes: Seq<Result<(), E>>, k: nat)
    requires
        k < outcomes.len() <= usize::MAX,
    ensures
        drive(outcomes.len(), k, outcomes).0 == Seq::new(
            steps_taken(outcomes.skip(k as int)),
            |i: int| (k + i) as nat,
        ),
        drive(outcomes.len(), k, outcomes).1 == run_result(outcomes.skip(k as int)),
    decreases outcomes.len() - k,
{
    let n = outcomes.len();
    let rest = outcomes.skip(k as int);
    assert(rest.len() > 0);
    assert(rest[0] == outcomes[k as int]);
    if outcomes[k as int] is Err {
        assert(steps_taken(rest) == 1);
        assert(run_result(rest) == outcomes[k as int]);
        assert(drive(n, k, outcomes).0 =~= Seq::new(1, |i: int| (k + i) as nat));
    } else if k + 1 < n {
        lemma_drive(outcomes, (k + 1) as nat);
        assert(rest.drop_first() =~= outcomes.skip(k + 1 as int));
        assert(steps_taken(rest) == 1 + steps_taken(rest.drop_first()));
        assert(run_result(rest) == run_result(rest.drop_first()));
        assert(step_after(n, k, outcomes[k as int]) == RunStep::<E>::Perform((k + 1) as usize));
        assert(drive(n, k, outcomes).0 =~= Seq::new(steps_taken(rest), |i: int| (k + i) as nat));
    } else {
        assert(rest.drop_first() =~= Seq::<Result<(), E>>::empty());
        assert(steps_taken(Seq::<Result<(), E>>::empty()) == 0);
        assert(steps_taken(rest) == 1);
        assert(run_result(rest) == run_result(rest.drop_first()));
        assert(drive(n, k, outcomes).0 =~= Seq::new(1, |i: int| (k + i) as nat));
    }
}

proof fn lemma_first_failure<E>(outcomes: Seq<Result<(), E>>)
    ensures
        steps_taken(outcomes) <= outcomes.len(),
        run_result(outcomes) is Ok <==> (forall|i: int|
            0 <= i < outcomes.len() ==> #[trigger] outcomes[i] is Ok),
        run_result(outcomes) is Ok ==> steps_taken(outcomes) == outcomes.len(),
        run_result(outcomes) is Err ==> {
            &&& 1 <= steps_taken(outcomes)
            &&& outcomes[steps_taken(outcomes) - 1] == run_result(outcomes)
            &&& forall|i: int| 0 <= i < steps_taken(outcomes) - 1 ==> #[trigger] outcomes[i] is Ok
        },
    decreases outcomes.len(),
{
    if outcomes.len() > 0 {
        let rest = outcomes.drop_first();
        lemma_first_failure(rest);
        assert forall|i: int| 0 < i < outcomes.len() implies #[trigger] outcomes[i] == rest[i - 1] by {}
        if outcomes[0] is Ok {
            if run_result(rest) is Ok {
                assert forall|i: int| 0 <= i < outcomes.len() implies #[trigger] outcomes[i] is Ok by {
                    if i > 0 {
                        assert(outcomes[i] == rest[i - 1]);
                    }
                }
            } else {
                assert forall|i: int| 0 <= i < steps_taken(outcomes) - 1 implies #[trigger] outcomes[i] is Ok by {
                    if i > 0 {
                        assert(outcomes[i] == rest[i - 1]);
                    }
                }
                let j = steps_taken(rest) - 1;
                assert(outcomes[j + 1] == rest[j]);
                assert(!(outcomes[j + 1] is Ok));
            }
        }
    }
}

/// A sequence of steps is taken in order up to and including the first step
/// that fails, and ends with that failure; when no step fails, every step is
/// taken and the sequence ends with success.
pub proof fn lemma_run_stops_at_first_failure<S, E>(steps: Seq<S>, outcomes: Seq<Result<(), E>>)
    requires
        outcomes.len() == steps.len(),
        steps.len() <= usize::MAX,
    ensures
        run_of(steps, outcomes) == (steps.take(steps_taken(outcomes) as int), run_result(outcomes)),
        run_result(outcomes) is Ok <==> (forall|i: int|
            0 <= i < outcomes.len() ==> #[trigger] outcomes[i] is Ok),
        run_result(outcomes) is Ok ==> steps_taken(outcomes) == steps.len(),
        run_result(outcomes) is Err ==> {
            &&& 1 <= steps_taken(outcomes)
            &&& outcomes[steps_taken(outcomes) - 1] == run_result(outcomes)
            &&& forall|i: int| 0 <= i < steps_taken(outcomes) - 1 ==> #[trigger] outcomes[i] is Ok
        },
{
    lemma_first_failure(outcomes);
    if steps.len() > 0 {
        lemma_drive(outcomes, 0);
        assert(outcomes.skip(0) =~= outcomes);
        let m = steps_taken(outcomes);
        assert(run_of(steps, outcomes).0 =~= steps.take(m as int));
    } else {
        assert(steps.take(0) =~= Seq::<S>::empty());
    }
}

} // verus!
