use race_stats::account::GuardedAccount;
use race_stats::histogram::Histogram;
use race_stats::stats::{OutcomeAggregator, RunConfig, RunError};
use race_stats::trial::{finish_trial, settle_outcome, withdraw_locked, TrialError};

// One trial under one legal schedule: the workers run their attempt
// sequences back to back. The account's contracts hold for every
// interleaving, so any schedule must produce the same settled outcome.
fn run_trial(
    threads: usize,
    ops_per_thread: usize,
    starting_balance: i64,
    withdrawal_amount: i64,
) -> Result<i64, TrialError> {
    let account = GuardedAccount::new(starting_balance, withdrawal_amount);
    for _ in 0..threads {
        withdraw_locked(&account, withdrawal_amount, ops_per_thread);
    }
    finish_trial(&account, ops_per_thread, false)
}

#[test]
fn new_account_reads_starting_balance() {
    let account = GuardedAccount::new(100000, 70000);
    assert_eq!(account.read(), 100000);
}

#[test]
fn withdraw_succeeds_when_covered() {
    let account = GuardedAccount::new(100000, 70000);
    account.conditional_withdraw(70000);
    assert_eq!(account.read(), 30000);
}

#[test]
fn withdraw_is_silent_noop_when_insufficient() {
    let account = GuardedAccount::new(100000, 70000);
    account.conditional_withdraw(70000);
    account.conditional_withdraw(70000);
    assert_eq!(account.read(), 30000);
}

#[test]
fn read_is_idempotent_without_withdrawals() {
    let account = GuardedAccount::new(100000, 70000);
    let first = account.read();
    let second = account.read();
    let third = account.read();
    assert_eq!(first, second);
    assert_eq!(second, third);
    let (left, right) = account.read_twice();
    assert_eq!(left, right);
    assert_eq!(left, first);
}

#[test]
fn zero_starting_balance_stays_zero() {
    let account = GuardedAccount::new(0, 70000);
    account.conditional_withdraw(70000);
    assert_eq!(account.read(), 0);
}

#[test]
fn zero_amount_withdraw_keeps_balance() {
    let account = GuardedAccount::new(100, 0);
    account.conditional_withdraw(0);
    assert_eq!(account.read(), 100);
}

#[test]
fn withdraw_locked_performs_all_attempts() {
    let account = GuardedAccount::new(100000, 70000);
    withdraw_locked(&account, 70000, 5);
    assert_eq!(account.read(), 30000);
}

#[test]
fn finish_trial_reports_join_failure() {
    let account = GuardedAccount::new(100000, 70000);
    assert_eq!(
        finish_trial(&account, 1, true),
        Err(TrialError::WorkerFailure)
    );
}

#[test]
fn finish_trial_with_no_attempts_returns_start() {
    let account = GuardedAccount::new(100000, 70000);
    assert_eq!(finish_trial(&account, 0, false), Ok(100000));
}

#[test]
fn two_workers_single_attempt_always_settle_at_30000() {
    for _ in 0..50 {
        assert_eq!(run_trial(2, 1, 100000, 70000), Ok(30000));
    }
}

#[test]
fn single_worker_two_attempts_settles_at_30000() {
    assert_eq!(run_trial(1, 2, 100000, 70000), Ok(30000));
}

#[test]
fn stress_many_workers_never_go_negative() {
    for _ in 0..10 {
        let outcome = run_trial(8, 50, 100000, 70000).unwrap();
        assert_eq!(outcome, 30000);
        assert!(outcome >= 0);
    }
}

#[test]
fn trial_with_zero_attempts_keeps_starting_balance() {
    assert_eq!(run_trial(4, 0, 100000, 70000), Ok(100000));
}

#[test]
fn histogram_counts_and_total() {
    let mut histogram = Histogram::new();
    histogram.record(5);
    histogram.record(7);
    histogram.record(5);
    assert_eq!(histogram.count_for(5), 2);
    assert_eq!(histogram.count_for(7), 1);
    assert_eq!(histogram.count_for(9), 0);
    assert_eq!(histogram.bucket_len(), 2);
}

#[test]
fn ranked_orders_by_count_then_value() {
    let mut histogram = Histogram::new();
    histogram.record(7);
    histogram.record(3);
    histogram.record(5);
    histogram.record(3);
    assert_eq!(histogram.ranked(), vec![(3, 2), (5, 1), (7, 1)]);
}

#[test]
fn aggregator_counts_violations_as_data() {
    let config = RunConfig {
        trials: 3,
        threads: 2,
        ops_per_thread: 1,
        starting_balance: 100000,
        withdrawal_amount: 70000,
    };
    let mut aggregator = OutcomeAggregator::new(config);
    aggregator.record_outcome(-40000);
    aggregator.record_outcome(30000);
    aggregator.record_outcome(-40000);
    let report = aggregator.finish();
    assert_eq!(report.trials, 3);
    assert_eq!(report.violations, 2);
    assert_eq!(report.ranked, vec![(-40000, 2), (30000, 1)]);
}

#[test]
fn record_trial_aborts_on_worker_failure() {
    let config = RunConfig {
        trials: 2,
        threads: 2,
        ops_per_thread: 1,
        starting_balance: 100000,
        withdrawal_amount: 70000,
    };
    let mut aggregator = OutcomeAggregator::new(config);
    assert_eq!(aggregator.record_trial(Ok(30000)), Ok(()));
    let aborted = aggregator.record_trial(Err(TrialError::WorkerFailure));
    assert_eq!(
        aborted,
        Err(RunError {
            trial_index: 1,
            cause: TrialError::WorkerFailure,
        })
    );
}

#[test]
fn aggregated_default_run_has_single_bucket_and_no_violations() {
    let config = RunConfig {
        trials: 1000,
        threads: 2,
        ops_per_thread: 1,
        starting_balance: 100000,
        withdrawal_amount: 70000,
    };
    let mut aggregator = OutcomeAggregator::new(config);
    for _ in 0..config.trials {
        let outcome = run_trial(
            config.threads,
            config.ops_per_thread,
            config.starting_balance,
            config.withdrawal_amount,
        );
        aggregator.record_trial(outcome).unwrap();
    }
    let report = aggregator.finish();
    assert_eq!(report.trials, 1000);
    assert_eq!(report.violations, 0);
    assert_eq!(report.ranked, vec![(30000, 1000)]);
}

#[test]
fn attempt_count_follows_withdraw_attempts() {
    let account = GuardedAccount::new(100000, 70000);
    let (balance, attempts) = account.read_attempted();
    assert_eq!((balance, attempts), (100000, 0));
    account.conditional_withdraw(70000);
    let (balance, attempts) = account.read_attempted();
    assert_eq!((balance, attempts), (30000, 1));
    account.conditional_withdraw(70000);
    let (balance, attempts) = account.read_attempted();
    assert_eq!((balance, attempts), (30000, 2));
}

#[test]
fn settle_outcome_decides_for_every_pair() {
    assert_eq!(settle_outcome(30000, 2, 1), Ok(30000));
    assert_eq!(settle_outcome(100000, 0, 0), Ok(100000));
    assert_eq!(settle_outcome(100000, 0, 3), Err(TrialError::WorkerFailure));
}

#[test]
fn empty_run_reports_nothing() {
    let config = RunConfig {
        trials: 0,
        threads: 2,
        ops_per_thread: 1,
        starting_balance: 100000,
        withdrawal_amount: 70000,
    };
    let aggregator = OutcomeAggregator::new(config);
    let report = aggregator.finish();
    assert_eq!(report.trials, 0);
    assert_eq!(report.violations, 0);
    assert_eq!(report.ranked, Vec::<(i64, u64)>::new());
}
