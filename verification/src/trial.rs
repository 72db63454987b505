//! The verified pieces of one trial of the concurrent withdrawal experiment.
//!
//! A trial creates a fresh `GuardedAccount`, runs a fixed number of workers
//! that each perform a fixed number of guarded withdrawal attempts, waits for
//! every worker to finish, and returns the final balance. Spawning and
//! joining the worker threads is plain scheduling glue that the verifier does
//! not see; everything a worker does (`withdraw_locked`) and the decision
//! that turns the joined state into a trial outcome (`finish_trial`) is
//! verified here. Workers run truly concurrently and may be interleaved by
//! the scheduler in any order; the only ordering guarantees are the account's
//! exclusive-access boundary and the trial runner's join barrier.

use crate::account::{reachable_balance, settled_balance, withdrawn_to, GuardedAccount};
use vstd::prelude::*;

verus! {

/// Under an exhausting configuration (one admitted withdrawal leaves less
/// than the amount: `1 <= amount <= start < 2 * amount`), a balance that is
/// both reachable and settled is pinned down exactly: the one and only such
/// balance is `start - amount`. This is why every trial of such a
/// configuration with work to do ends at the same final balance, regardless
/// of the number of workers, attempts, or their interleaving.
pub proof fn lemma_settled_exact(v: int, start: int, amount: int)
    requires
        reachable_balance(v, start, amount),
        settled_balance(v, start, amount),
        1 <= amount,
        amount <= start,
        start < 2 * amount,
    ensures
        v == start - amount,
{
    let k = choose|k: nat| withdrawn_to(v, start, amount, k);
    assert(withdrawn_to(v, start, amount, k));
    if k == 0 {
        assert(k * amount == 0) by (nonlinear_arith)
            requires
                k == 0,
        ;
        assert(v == start);
    } else if k >= 2 {
        assert(k * amount >= 2 * amount) by (nonlinear_arith)
            requires
                k >= 2,
                amount >= 1,
        ;
        assert(v <= start - 2 * amount);
    } else {
        assert(k * amount == amount) by (nonlinear_arith)
            requires
                k == 1,
        ;
    }
}

/// Why a trial could not produce a final balance. A trial cannot return a
/// meaningful balance if a worker terminated abnormally, so this error is
/// fatal to the whole run.
#[derive(Clone, Copy, Debug, PartialEq, Eq, Structural)]
pub enum TrialError {
    /// A worker thread could not be joined, or a worker with attempts to
    /// perform left no completed attempt behind on the account.
    WorkerFailure,
}

/// One worker's share of a trial: `ops_per_thread` sequential calls to
/// `conditional_withdraw`, each acquiring the account's lock for its whole
/// check-then-act sequence.
pub fn withdraw_locked(account: &GuardedAccount, amount: i64, ops_per_thread: usize)
    requires
        amount as int == account.amount(),
{
    let mut i: usize = 0;
    while i < ops_per_thread
        invariant
            amount as int == account.amount(),
        decreases ops_per_thread - i,
    {
        account.conditional_withdraw(amount);
        i = i + 1;
    }
}

/// The decision a trial makes on the state its joined workers left behind,
/// stated for every balance and attempt count: when some attempt completed,
/// or none were owed, the balance is the trial's outcome; no completed
/// attempt where the workers owed some is a worker failure.
pub fn settle_outcome(balance: i64, attempts: u64, ops_per_thread: usize) -> (r: Result<
    i64,
    TrialError,
>)
    ensures
        r is Ok <==> (attempts >= 1 || ops_per_thread == 0),
        r is Ok ==> r->Ok_0 == balance,
        r is Err ==> r->Err_0 == TrialError::WorkerFailure,
{
    if attempts >= 1 || ops_per_thread == 0 {
        Result::Ok(balance)
    } else {
        Result::Err(TrialError::WorkerFailure)
    }
}

/// Turns the state left behind by a trial's joined workers into the trial's
/// outcome. `join_failed` says whether some worker terminated abnormally:
/// such a trial reports a fatal error rather than a partial balance.
///
/// An `Ok` balance is always a reachable one: the starting balance minus a
/// non-negative multiple of the withdrawal amount, and never negative - and
/// either the untouched starting balance or a settled one. When the workers
/// had attempts to perform (`ops_per_thread >= 1`), an `Ok` balance reflects
/// that at least one attempt completed; a joined worker with attempts to
/// perform always leaves that count behind, so its absence is reported as a
/// worker failure too - the only failure besides a failed join, so a clean
/// trial with no attempts owed always returns its balance.
pub fn finish_trial(account: &GuardedAccount, ops_per_thread: usize, join_failed: bool) -> (r:
    Result<i64, TrialError>)
    ensures
        r is Ok ==> reachable_balance(r->Ok_0 as int, account.start(), account.amount()),
        r is Ok && ops_per_thread >= 1 ==> settled_balance(
            r->Ok_0 as int,
            account.start(),
            account.amount(),
        ),
        r is Ok ==> (r->Ok_0 as int == account.start() || settled_balance(
            r->Ok_0 as int,
            account.start(),
            account.amount(),
        )),
        join_failed ==> r is Err,
        !join_failed && ops_per_thread == 0 ==> r is Ok,
        r is Err ==> join_failed || ops_per_thread >= 1,
{
    if join_failed {
        Result::Err(TrialError::WorkerFailure)
    } else {
        let (balance, attempts) = account.read_attempted();
        settle_outcome(balance, attempts, ops_per_thread)
    }
}

} // verus!
