//! The outcome aggregator: runs' statistics over many independent trials.
//!
//! A run executes a configured number of independent trials sequentially
//! (only the workers within a trial are parallel), tallies each trial's final
//! balance into a frequency histogram, counts invariant violations (negative
//! final balances), and reports the elapsed wall-clock time together with the
//! histogram ranked by descending frequency. Violations are the measured
//! phenomenon, reported as data: they are never an error of the run itself.

use crate::account::{reachable_balance, settled_balance};
use crate::histogram::{bucket_count, bucket_total, ranked_order, Histogram};
use crate::trial::lemma_settled_exact;
use crate::trial::TrialError;
use std::time::Instant;
use vstd::prelude::*;

verus! {

/// Default number of independent trials in a run.
pub const DEFAULT_TRIALS: usize = 20000;

/// Default number of worker threads per trial.
pub const DEFAULT_THREADS: usize = 2;

/// Default number of withdrawal attempts per worker.
pub const DEFAULT_OPS_PER_THREAD: usize = 1;

/// Default starting balance, in minor currency units.
pub const START_BALANCE: i64 = 100000;

/// Default withdrawal amount, in minor currency units.
pub const WITHDRAW_AMT: i64 = 70000;

#[verifier::external_type_specification]
#[verifier::external_body]
pub struct ExInstant(Instant);

/// Relies on std::time::Instant::now: an opaque reading of the monotonic
/// clock, used only to report elapsed time.
#[verifier::external_body]
fn clock_now() -> (t: Instant) {
    Instant::now()
}

/// Relies on std::time::Instant::elapsed: the wall-clock nanoseconds since
/// the earlier reading, truncated to a machine word. Nothing is promised of
/// the value: it depends on when the call runs.
#[verifier::external_body]
fn clock_elapsed_nanos(since: &Instant) -> (nanos: u64) {
    since.elapsed().as_nanos() as u64
}

/// An immutable run configuration, fixed for the duration of a run.
#[derive(Clone, Copy)]
pub struct RunConfig {
    /// Number of independent trials to run.
    pub trials: usize,
    /// Worker threads per trial.
    pub threads: usize,
    /// Withdrawal attempts per worker.
    pub ops_per_thread: usize,
    /// Balance each trial's account starts from, in minor currency units.
    pub starting_balance: i64,
    /// Amount each attempt tries to withdraw, in minor currency units.
    pub withdrawal_amount: i64,
}

impl RunConfig {
    /// What the trial executor demands of a configuration.
    pub open spec fn valid(self) -> bool {
        &&& 1 <= self.threads
        &&& 0 <= self.starting_balance
        &&& 0 <= self.withdrawal_amount
    }
}

/// A whole run aborts when one of its trials fails: the index of the failing
/// trial and the worker failure that caused it.
#[derive(Clone, Copy, Debug, PartialEq, Eq, Structural)]
pub struct RunError {
    /// Zero-based index of the trial that failed.
    pub trial_index: u64,
    /// The failure the trial reported.
    pub cause: TrialError,
}

/// The outcome of a whole run: elapsed wall-clock time, the count of trials
/// whose final balance violated the invariant (fell below zero), and the
/// histogram of final balances ranked by descending frequency, ties broken by
/// ascending balance.
pub struct RunReport {
    /// Wall-clock time the run took, in nanoseconds.
    pub elapsed_nanos: u64,
    /// Number of trials recorded.
    pub trials: u64,
    /// Number of trials whose final balance was negative. The violation rate
    /// is this count over `trials`, always a fraction in [0, 1].
    pub violations: u64,
    /// The histogram buckets `(final balance, occurrences)`, sorted by
    /// descending count, ties broken by ascending balance.
    pub ranked: Vec<(i64, u64)>,
}

/// Accumulates trial outcomes into a run's histogram and violation counter.
/// The aggregator exclusively owns both for the run's lifetime; trials are
/// fed to it sequentially, so no locking is involved here.
pub struct OutcomeAggregator {
    /// The configuration the run was started with.
    pub config: RunConfig,
    /// Trials recorded so far.
    pub trials_done: u64,
    /// Outcomes recorded so far whose balance was negative.
    pub violations: u64,
    /// Frequency histogram of the recorded final balances.
    pub histogram: Histogram,
    /// When the run started, for the report's elapsed time.
    pub started: Instant,
}

impl OutcomeAggregator {
    /// The aggregator's invariant: the histogram's bucket counts always sum
    /// to the number of trials recorded, the violation count never exceeds
    /// it, and the run never records more trials than configured.
    pub open spec fn wf(&self) -> bool {
        &&& self.histogram.wf()
        &&& self.histogram.total() == self.trials_done as nat
        &&& self.violations <= self.trials_done
        &&& self.trials_done <= self.config.trials as u64
    }

    /// Every balance recorded so far is one the guarded experiment can
    /// produce: reachable from the configured starting balance, and settled
    /// when the workers had attempts to perform.
    pub open spec fn outcomes_settled(&self) -> bool {
        forall|v: int|
            self.histogram.count_of(v) > 0 ==> {
                &&& reachable_balance(
                    v,
                    self.config.starting_balance as int,
                    self.config.withdrawal_amount as int,
                )
                &&& self.config.ops_per_thread >= 1 ==> settled_balance(
                    v,
                    self.config.starting_balance as int,
                    self.config.withdrawal_amount as int,
                )
            }
    }

    /// Opens a run: no trials recorded, no violations, an empty histogram,
    /// and the wall clock read for the report's elapsed time.
    pub fn new(config: RunConfig) -> (agg: OutcomeAggregator)
        requires
            config.valid(),
        ensures
            agg.wf(),
            agg.config == config,
            agg.trials_done == 0,
            agg.violations == 0,
            forall|v: int| agg.histogram.count_of(v) == 0,
            agg.outcomes_settled(),
    {
        OutcomeAggregator {
            config,
            trials_done: 0,
            violations: 0,
            histogram: Histogram::new(),
            started: clock_now(),
        }
    }

    /// Tallies one trial's final balance: the histogram bucket for that
    /// balance grows by one occurrence (so the sum of all bucket counts stays
    /// equal to the number of trials recorded), every other bucket is
    /// untouched, and the violation counter grows exactly when the balance is
    /// negative - in particular it never decreases.
    pub fn record_outcome(&mut self, balance: i64)
        requires
            old(self).wf(),
            old(self).trials_done < old(self).config.trials as u64,
        ensures
            final(self).wf(),
            final(self).config == old(self).config,
            final(self).started == old(self).started,
            final(self).trials_done == old(self).trials_done + 1,
            final(self).violations == old(self).violations + (if balance < 0 {
                1u64
            } else {
                0u64
            }),
            old(self).violations <= final(self).violations,
            final(self).histogram.count_of(balance as int) == old(self).histogram.count_of(
                balance as int,
            ) + 1,
            forall|v: int|
                v != balance as int ==> final(self).histogram.count_of(v) == old(
                    self,
                ).histogram.count_of(v),
            reachable_balance(
                balance as int,
                old(self).config.starting_balance as int,
                old(self).config.withdrawal_amount as int,
            ) ==> final(self).violations == old(self).violations,
            old(self).outcomes_settled() && reachable_balance(
                balance as int,
                old(self).config.starting_balance as int,
                old(self).config.withdrawal_amount as int,
            ) && (old(self).config.ops_per_thread >= 1 ==> settled_balance(
                balance as int,
                old(self).config.starting_balance as int,
                old(self).config.withdrawal_amount as int,
            )) ==> final(self).outcomes_settled(),
    {
        self.histogram.record(balance);
        self.trials_done = self.trials_done + 1;
        if balance < 0 {
            self.violations = self.violations + 1;
        }
        proof {
            let start0 = self.config.starting_balance as int;
            let amount0 = self.config.withdrawal_amount as int;
            if old(self).outcomes_settled() && reachable_balance(balance as int, start0, amount0)
                && (self.config.ops_per_thread >= 1 ==> settled_balance(
                balance as int,
                start0,
                amount0,
            )) {
                assert forall|v: int| self.histogram.count_of(v) > 0 implies {
                    &&& reachable_balance(v, start0, amount0)
                    &&& self.config.ops_per_thread >= 1 ==> settled_balance(v, start0, amount0)
                } by {
                    if v != balance as int {
                        assert(old(self).histogram.count_of(v) > 0);
                    }
                }
            }
        }
    }

    /// Feeds one trial's result to the aggregator: an `Ok` balance is
    /// tallied; a failed trial aborts the run, identified by the failing
    /// trial's zero-based index, and leaves the tallies untouched.
    pub fn record_trial(&mut self, outcome: Result<i64, TrialError>) -> (r: Result<(), RunError>)
        requires
            old(self).wf(),
            old(self).trials_done < old(self).config.trials as u64,
        ensures
            r is Ok <==> outcome is Ok,
            final(self).wf(),
            final(self).config == old(self).config,
            outcome is Ok ==> {
                &&& final(self).trials_done == old(self).trials_done + 1
                &&& final(self).violations == old(self).violations + (if outcome->Ok_0 < 0 {
                    1u64
                } else {
                    0u64
                })
                &&& final(self).histogram.count_of(outcome->Ok_0 as int) == old(
                    self,
                ).histogram.count_of(outcome->Ok_0 as int) + 1
                &&& forall|v: int|
                    v != outcome->Ok_0 as int ==> final(self).histogram.count_of(v) == old(
                        self,
                    ).histogram.count_of(v)
            },
            outcome is Ok && old(self).outcomes_settled() && reachable_balance(
                outcome->Ok_0 as int,
                old(self).config.starting_balance as int,
                old(self).config.withdrawal_amount as int,
            ) && (old(self).config.ops_per_thread >= 1 ==> settled_balance(
                outcome->Ok_0 as int,
                old(self).config.starting_balance as int,
                old(self).config.withdrawal_amount as int,
            )) ==> final(self).outcomes_settled() && final(self).violations == old(
                self,
            ).violations,
            outcome is Err ==> {
                &&& *final(self) == *old(self)
                &&& r->Err_0 == (RunError {
                    trial_index: old(self).trials_done,
                    cause: outcome->Err_0,
                })
            },
    {
        match outcome {
            Result::Ok(balance) => {
                self.record_outcome(balance);
                Result::Ok(())
            },
            Result::Err(cause) => Result::Err(
                RunError { trial_index: self.trials_done, cause },
            ),
        }
    }

    /// Closes the run: reads the elapsed wall clock and hands out the report.
    /// The ranked buckets carry exactly the recorded outcomes: per-balance
    /// counts are unchanged, their sum equals the number of trials recorded,
    /// and the buckets stand in ranked order. The violation count never
    /// exceeds the trial count, so the violation rate is a fraction in
    /// [0, 1].
    pub fn finish(self) -> (report: RunReport)
        requires
            self.wf(),
        ensures
            report.trials == self.trials_done,
            report.violations == self.violations,
            report.violations <= report.trials,
            ranked_order(report.ranked@),
            bucket_total(report.ranked@) == self.trials_done as nat,
            forall|v: int| bucket_count(report.ranked@, v) == self.histogram.count_of(v),
    {
        let ranked = self.histogram.ranked();
        let elapsed_nanos = clock_elapsed_nanos(&self.started);
        RunReport { elapsed_nanos, trials: self.trials_done, violations: self.violations, ranked }
    }
}

/// For a run of an exhausting configuration (one admitted withdrawal empties
/// the account below the amount: `1 <= amount <= start < 2 * amount`) in
/// which every recorded outcome is reachable and settled, the whole histogram
/// sits in the single bucket of `start - amount`, whatever the number of
/// trials and however the scheduler interleaved the workers.
pub proof fn lemma_settled_run_histogram(s: Seq<(i64, u64)>, start: int, amount: int)
    requires
        1 <= amount,
        amount <= start,
        start < 2 * amount,
        forall|v: int|
            bucket_count(s, v) > 0 ==> reachable_balance(v, start, amount) && settled_balance(
                v,
                start,
                amount,
            ),
    ensures
        forall|v: int| v != start - amount ==> bucket_count(s, v) == 0,
        bucket_count(s, start - amount) == bucket_total(s),
{
    assert forall|v: int| v != start - amount implies bucket_count(s, v) == 0 by {
        if bucket_count(s, v) > 0 {
            lemma_settled_exact(v, start, amount);
        }
    }
    crate::histogram::lemma_single_bucket(s, start - amount);
}

/// A run of an exhausting configuration with work to do (at least one attempt
/// per worker) that recorded only outcomes of the guarded experiment: the
/// whole histogram sits in the single bucket of `start - amount`, holding
/// every recorded trial. With the default amounts that bucket is
/// {30000 -> trials}, for any number of trials.
pub proof fn lemma_settled_run_report(agg: OutcomeAggregator)
    requires
        agg.wf(),
        agg.outcomes_settled(),
        1 <= agg.config.withdrawal_amount,
        agg.config.withdrawal_amount <= agg.config.starting_balance,
        agg.config.starting_balance < 2 * agg.config.withdrawal_amount,
        1 <= agg.config.ops_per_thread,
    ensures
        agg.histogram.count_of(
            agg.config.starting_balance - agg.config.withdrawal_amount,
        ) == agg.trials_done as nat,
        forall|v: int|
            v != agg.config.starting_balance - agg.config.withdrawal_amount
                ==> agg.histogram.count_of(v) == 0,
{
    lemma_settled_run_histogram(
        agg.histogram.buckets(),
        agg.config.starting_balance as int,
        agg.config.withdrawal_amount as int,
    );
}

/// The default experiment (starting balance 100000, withdrawal 70000): under
/// mutual exclusion only one withdrawal can ever be admitted, so every
/// reachable, settled final balance is exactly 30000 - never negative, for
/// any number of workers and attempts.
pub proof fn lemma_default_outcome(v: int)
    requires
        reachable_balance(v, START_BALANCE as int, WITHDRAW_AMT as int),
        settled_balance(v, START_BALANCE as int, WITHDRAW_AMT as int),
    ensures
        v == 30000,
{
    lemma_settled_exact(v, START_BALANCE as int, WITHDRAW_AMT as int);
}

} // verus!

