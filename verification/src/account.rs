//! A shared integer balance guarded by a mutual-exclusion lock.
//!
//! `GuardedAccount` owns one balance and one lock scoped to that balance; the
//! only mutation path is `conditional_withdraw`, whose check-then-act sequence
//! runs entirely inside the lock's critical section. The lock invariant states
//! that the balance is always the starting balance minus a non-negative
//! multiple of the configured withdrawal amount - the multiple bounded by the
//! number of completed attempts - and never negative.
//!
//! The cell guarded by the lock also counts the withdrawal attempts that have
//! completed. The lock invariant ties that count to the balance: while no
//! attempt has completed the balance is still the starting balance, and once
//! some attempt has completed, the balance is too small for a further
//! withdrawal or has already absorbed one. Whoever reads the count together
//! with the balance therefore learns those facts about the pair, however the
//! scheduler interleaved the workers.

use vstd::prelude::*;
use vstd::rwlock::{ReadHandle, RwLock, RwLockPredicate};

verus! {

/// The balance stands `k` completed withdrawals of `amount` below `start`.
pub open spec fn withdrawn_to(v: int, start: int, amount: int, k: nat) -> bool {
    v == start - k * amount
}

/// Every balance the guarded account can hold: the starting balance minus some
/// non-negative multiple of the withdrawal amount, and never negative.
pub open spec fn reachable_balance(v: int, start: int, amount: int) -> bool {
    &&& 0 <= v
    &&& exists|k: nat| withdrawn_to(v, start, amount, k)
}

/// As `reachable_balance`, with the multiple additionally bounded by the
/// number of completed withdrawal attempts.
pub open spec fn reachable_within(v: int, start: int, amount: int, attempts: nat) -> bool {
    &&& 0 <= v
    &&& exists|k: nat| k <= attempts && withdrawn_to(v, start, amount, k)
}

/// What holds of the balance once at least one withdrawal attempt has
/// completed: either the balance is already too small for a withdrawal, or it
/// has absorbed at least one.
pub open spec fn settled_balance(v: int, start: int, amount: int) -> bool {
    v < amount || v <= start - amount
}

/// A balance reachable within some number of attempts is reachable.
pub proof fn lemma_reachable_weaken(v: int, start: int, amount: int, attempts: nat)
    requires
        reachable_within(v, start, amount, attempts),
    ensures
        reachable_balance(v, start, amount),
{
    let k = choose|k: nat| k <= attempts && withdrawn_to(v, start, amount, k);
    assert(withdrawn_to(v, start, amount, k));
}

/// The attempt bound is monotone: a balance within `attempts` attempts is
/// within any larger bound too. In particular, a caller who knows every
/// completed attempt came from its own workers - say at most
/// `threads * ops_per_thread` of them - can restate the multiple's bound in
/// those terms.
pub proof fn lemma_reachable_within_monotone(
    v: int,
    start: int,
    amount: int,
    attempts: nat,
    bound: nat,
)
    requires
        reachable_within(v, start, amount, attempts),
        attempts <= bound,
    ensures
        reachable_within(v, start, amount, bound),
{
    let k = choose|k: nat| k <= attempts && withdrawn_to(v, start, amount, k);
    assert(k <= bound && withdrawn_to(v, start, amount, k));
}

/// A reachable balance stands a bounded number of withdrawals below the
/// starting balance: the account can absorb at most `start / amount` of them,
/// so only finitely many final balances are reachable.
pub proof fn lemma_withdrawal_count_bounded(v: int, start: int, amount: int)
    requires
        reachable_balance(v, start, amount),
        1 <= amount,
    ensures
        exists|k: nat| withdrawn_to(v, start, amount, k) && k <= start / amount,
{
    let k = choose|k: nat| withdrawn_to(v, start, amount, k);
    assert(k * amount <= start);
    assert(k <= start / amount) by (nonlinear_arith)
        requires
            k * amount <= start,
            amount >= 1,
            k >= 0,
    ;
    assert(withdrawn_to(v, start, amount, k) && k <= start / amount);
}

/// The value stored in the account's lock: the balance, together with the
/// number of withdrawal attempts that have completed on it (held at the
/// counter's ceiling in the impossible event of that many attempts).
pub struct AccountCell {
    pub balance: i64,
    pub attempts: u64,
}

/// The lock invariant of a `GuardedAccount`, fixed when the account is
/// created.
pub struct AccountPred {
    pub start: int,
    pub amount: int,
}

impl RwLockPredicate<AccountCell> for AccountPred {
    open spec fn inv(self, c: AccountCell) -> bool {
        &&& 0 <= self.start <= i64::MAX
        &&& 0 <= self.amount
        &&& reachable_within(c.balance as int, self.start, self.amount, c.attempts as nat)
        &&& c.attempts >= 1 ==> settled_balance(c.balance as int, self.start, self.amount)
    }
}

/// A single shared balance plus the mutual-exclusion lock scoped to it.
///
/// The account is created fresh for one experiment with a fixed starting
/// balance and a fixed withdrawal amount; `conditional_withdraw` is the sole
/// mutation entry point, and its check-then-act sequence is indivisible with
/// respect to all other calls on the same account. The lock is a verified
/// lock whose critical sections are proved panic-free, so the poisoned-lock
/// failure mode of an ordinary lock cannot arise here by construction.
pub struct GuardedAccount {
    lock: RwLock<AccountCell, AccountPred>,
}

impl GuardedAccount {
    /// The starting balance the account was created with.
    pub closed spec fn start(&self) -> int {
        self.lock.pred().start
    }

    /// The withdrawal amount the account's invariant is configured for.
    pub closed spec fn amount(&self) -> int {
        self.lock.pred().amount
    }

    /// Creates an account holding `starting_balance`, whose invariant is
    /// stated for withdrawals of `withdrawal_amount`.
    pub fn new(starting_balance: i64, withdrawal_amount: i64) -> (account: GuardedAccount)
        requires
            0 <= starting_balance,
            0 <= withdrawal_amount,
        ensures
            account.start() == starting_balance as int,
            account.amount() == withdrawal_amount as int,
    {
        let ghost pred = AccountPred {
            start: starting_balance as int,
            amount: withdrawal_amount as int,
        };
        let cell = AccountCell { balance: starting_balance, attempts: 0 };
        proof {
            assert(withdrawn_to(starting_balance as int, pred.start, pred.amount, 0));
        }
        let lock = RwLock::new(cell, Ghost(pred));
        GuardedAccount { lock }
    }

    /// Acquires exclusive access to the balance for the whole check-and-mutate
    /// sequence: if the current balance covers `amount`, subtracts it;
    /// otherwise the call is a silent no-op. No interleaving of concurrent
    /// callers can observe or produce an intermediate state.
    ///
    /// The lock invariant is stated for the withdrawal amount the account was
    /// created with, so every call withdraws exactly that configured amount -
    /// the experiment's runs fix it for all workers of a trial anyway.
    pub fn conditional_withdraw(&self, amount: i64)
        requires
            amount as int == self.amount(),
    {
        let (cell, write_handle) = self.lock.acquire_write();
        let ghost k0 = choose|k: nat|
            k <= cell.attempts as nat && withdrawn_to(
                cell.balance as int,
                self.start(),
                self.amount(),
                k,
            );
        let new_attempts = if cell.attempts < u64::MAX {
            cell.attempts + 1
        } else {
            cell.attempts
        };
        let new_balance = if cell.balance >= amount {
            cell.balance - amount
        } else {
            cell.balance
        };
        proof {
            let a0 = amount as int;
            if cell.balance >= amount {
                if amount == 0 {
                    assert(k0 * a0 == 0) by (nonlinear_arith)
                        requires
                            a0 == 0,
                    ;
                    assert(withdrawn_to(new_balance as int, self.start(), self.amount(), k0));
                } else {
                    assert(withdrawn_to(new_balance as int, self.start(), self.amount(), k0 + 1))
                        by {
                        assert((k0 + 1) * a0 == k0 * a0 + a0) by (nonlinear_arith);
                    }
                    assert(k0 * a0 >= 0) by (nonlinear_arith)
                        requires
                            a0 >= 0,
                    ;
                    assert(k0 <= k0 * a0) by (nonlinear_arith)
                        requires
                            a0 >= 1,
                            k0 >= 0,
                    ;
                    assert(k0 + 1 <= new_attempts as nat);
                }
            } else {
                assert(withdrawn_to(new_balance as int, self.start(), self.amount(), k0));
            }
        }
        write_handle.release_write(AccountCell { balance: new_balance, attempts: new_attempts });
    }

    /// Acquires exclusive access momentarily and returns the current balance.
    pub fn read(&self) -> (r: i64)
        ensures
            reachable_balance(r as int, self.start(), self.amount()),
    {
        let (cell, write_handle) = self.lock.acquire_write();
        let r = cell.balance;
        proof {
            lemma_reachable_weaken(r as int, self.start(), self.amount(), cell.attempts as nat);
        }
        write_handle.release_write(cell);
        r
    }

    /// Acquires exclusive access momentarily and returns the current balance
    /// together with the number of completed withdrawal attempts. While no
    /// attempt has completed the balance is still the starting balance; once
    /// one has, the balance reflects it; and the balance never stands more
    /// multiples of the amount below the starting balance than attempts
    /// completed.
    pub fn read_attempted(&self) -> (r: (i64, u64))
        ensures
            reachable_balance(r.0 as int, self.start(), self.amount()),
            reachable_within(r.0 as int, self.start(), self.amount(), r.1 as nat),
            r.1 >= 1 ==> settled_balance(r.0 as int, self.start(), self.amount()),
            r.1 == 0 ==> r.0 as int == self.start(),
    {
        let (cell, write_handle) = self.lock.acquire_write();
        let r = (cell.balance, cell.attempts);
        proof {
            lemma_reachable_weaken(r.0 as int, self.start(), self.amount(), cell.attempts as nat);
            if cell.attempts == 0 {
                let k = choose|k: nat|
                    k <= cell.attempts as nat && withdrawn_to(
                        cell.balance as int,
                        self.start(),
                        self.amount(),
                        k,
                    );
                assert(k == 0);
                assert(k * self.amount() == 0) by (nonlinear_arith)
                    requires
                        k == 0,
                ;
            }
        }
        write_handle.release_write(cell);
        r
    }

    /// Reads the balance twice with no intervening `conditional_withdraw`:
    /// both reads return the same value. The two reads hold overlapping
    /// shared access, so no withdrawal can run between them.
    pub fn read_twice(&self) -> (r: (i64, i64))
        ensures
            r.0 == r.1,
            reachable_balance(r.0 as int, self.start(), self.amount()),
    {
        let first_handle = self.lock.acquire_read();
        let second_handle = self.lock.acquire_read();
        let v1 = first_handle.borrow().balance;
        let v2 = second_handle.borrow().balance;
        proof {
            ReadHandle::lemma_readers_match(&first_handle, &second_handle);
            lemma_reachable_weaken(
                v1 as int,
                self.start(),
                self.amount(),
                first_handle.view().attempts as nat,
            );
        }
        first_handle.release_read();
        second_handle.release_read();
        (v1, v2)
    }
}

} // verus!
