//! The batch policy over the requested commits.
//!
//! Commits are processed strictly in request order.  Without keep-going,
//! the first failure stops the run and is its error.  With keep-going, a
//! failure is reported as a warning, processing continues, and the run
//! still ends in failure if at least one commit failed — but only after
//! every requested commit has been attempted, so keep-going never drops
//! work to an early abort.

use vstd::prelude::*;

verus! {

/// What a run did and how it ended: how many of the requested commits
/// were attempted (always a prefix, in request order), and whether the
/// run as a whole is a failure.
pub struct BatchOutcome {
    pub attempted: int,
    pub failed: bool,
}

/// The batch policy over the per-commit results (`true` = that commit's
/// installation succeeded), in request order.
pub open spec fn spec_batch(results: Seq<bool>, keep_going: bool) -> BatchOutcome
    decreases results.len(),
{
    if results.len() == 0 {
        BatchOutcome { attempted: 0, failed: false }
    } else if results[0] {
        let rest = spec_batch(results.drop_first(), keep_going);
        BatchOutcome { attempted: rest.attempted + 1, failed: rest.failed }
    } else if keep_going {
        let rest = spec_batch(results.drop_first(), keep_going);
        BatchOutcome { attempted: rest.attempted + 1, failed: true }
    } else {
        BatchOutcome { attempted: 1, failed: true }
    }
}

/// What to do after one commit's attempt.
#[derive(Clone, Copy, Debug, PartialEq, Eq, Structural)]
pub enum BatchDirective {
    /// Go on with the next commit.
    Continue,
    /// Stop the run here; this failure is the run's error.
    Stop,
}

/// The decision after one commit's attempt: only a failure without
/// keep-going stops the run.
pub fn batch_step(ok: bool, keep_going: bool) -> (r: BatchDirective)
    ensures
        (r is Stop) == (!ok && !keep_going),
{
    if !ok && !keep_going {
        BatchDirective::Stop
    } else {
        BatchDirective::Continue
    }
}

/// Replays the batch policy over a run's per-commit results: how many
/// commits were attempted, and whether the run failed.
pub fn run_batch_policy(results: &Vec<bool>, keep_going: bool) -> (r: (usize, bool))
    ensures
        r.0 == spec_batch(results@, keep_going).attempted,
        r.1 == spec_batch(results@, keep_going).failed,
{
    let n = results.len();
    let mut i: usize = 0;
    let mut failed = false;
    proof {
        assert(results@.skip(0) =~= results@);
    }
    while i < n
        invariant
            0 <= i <= n,
            n == results@.len(),
            spec_batch(results@, keep_going).attempted == i + spec_batch(
                results@.skip(i as int),
                keep_going,
            ).attempted,
            spec_batch(results@, keep_going).failed == (failed || spec_batch(
                results@.skip(i as int),
                keep_going,
            ).failed),
        decreases n - i,
    {
        proof {
            assert(results@.skip(i as int).len() == n - i);
            assert(results@.skip(i as int)[0] == results@[i as int]);
            assert(results@.skip(i as int).drop_first() =~= results@.skip(i + 1));
        }
        let ok = results[i];
        if !ok {
            failed = true;
            match batch_step(ok, keep_going) {
                BatchDirective::Stop => {
                    return (i + 1, true);
                },
                BatchDirective::Continue => {},
            }
        }
        i += 1;
    }
    proof {
        assert(results@.skip(n as int) =~= Seq::<bool>::empty());
    }
    (i, failed)
}

/// A keep-going run attempts every requested commit, and its final status
/// is failure exactly where at least one commit failed — even where every
/// other commit succeeded.
pub proof fn lemma_keep_going_attempts_all(results: Seq<bool>)
    ensures
        spec_batch(results, true).attempted == results.len(),
        spec_batch(results, true).failed <==> exists|i: int|
            0 <= i < results.len() && !results[i],
    decreases results.len(),
{
    if results.len() > 0 {
        let rest = results.drop_first();
        lemma_keep_going_attempts_all(rest);
        if spec_batch(results, true).failed {
            if results[0] {
                let j = choose|j: int| 0 <= j < rest.len() && !rest[j];
                assert(!results[j + 1]);
            } else {
                assert(!results[0]);
            }
        }
        if exists|i: int| 0 <= i < results.len() && !results[i] {
            let i = choose|i: int| 0 <= i < results.len() && !results[i];
            if i > 0 {
                assert(!rest[i - 1]);
            }
        }
    }
}

/// Without keep-going, the run stops at the first failure: every commit
/// before the stopping point succeeded, the run fails exactly where the
/// last attempted commit failed, and a clean run attempts all commits.
pub proof fn lemma_fail_fast_stops_at_first_failure(results: Seq<bool>)
    ensures
        0 <= spec_batch(results, false).attempted <= results.len(),
        forall|j: int| 0 <= j < spec_batch(results, false).attempted - 1 ==> results[j],
        spec_batch(results, false).failed <==> (spec_batch(results, false).attempted > 0
            && !results[spec_batch(results, false).attempted - 1]),
        !spec_batch(results, false).failed ==> spec_batch(results, false).attempted
            == results.len(),
    decreases results.len(),
{
    if results.len() > 0 {
        let rest = results.drop_first();
        lemma_fail_fast_stops_at_first_failure(rest);
        if results[0] {
            let a = spec_batch(results, false).attempted;
            assert forall|j: int| 0 <= j < a - 1 implies results[j] by {
                if j > 0 {
                    assert(rest[j - 1]);
                }
            }
        }
    }
}

} // verus!
