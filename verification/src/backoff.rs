//! Reconnect policy: how often a broken stream is reopened, and how long to
//! wait before each attempt.

use vstd::arithmetic::power2::{lemma_pow2_strictly_increases, lemma_pow2_unfold, pow2};
use vstd::prelude::*;

verus! {

/// How many reconnects the stock client allows before it gives up.
pub const DEFAULT_MAX_ATTEMPTS: u32 = 10;

/// The wait before the first reconnect of the stock client, in seconds.
pub const DEFAULT_BASE_DELAY_SECS: u64 = 2;

/// What a stream failure means for the client.
#[derive(Clone, Copy, Debug, PartialEq, Eq, Structural)]
pub enum ErrorClass {
    /// The server lost its state and asks the client to connect again.
    Transient,
    /// Anything else: the session is over.
    Fatal,
}

/// The wait before reconnect number `attempt` (counted from 1): the base
/// delay doubled once for every earlier attempt.
pub open spec fn delay_at(base_delay: nat, attempt: nat) -> nat
    recommends
        attempt >= 1,
{
    base_delay * pow2((attempt - 1) as nat)
}

/// Every wait that a policy with these constants can ask for fits in a `u64`.
/// The last failure ends the session without a wait, so the attempts that
/// count are those below `max_attempts`.
pub open spec fn delays_fit(base_delay: nat, max_attempts: nat) -> bool {
    forall|attempt: nat|
        1 <= attempt < max_attempts ==> #[trigger] delay_at(base_delay, attempt) <= u64::MAX
}

/// The mathematical content of a [`Backoff`].
pub struct BackoffView {
    /// Consecutive transient failures since the last success.
    pub attempt: nat,
    /// The number of failures at which the client gives up.
    pub max_attempts: nat,
    /// The wait before the first reconnect, in seconds.
    pub base_delay: nat,
}

impl BackoffView {
    /// A policy that has seen no failure yet.
    pub open spec fn fresh(max_attempts: nat, base_delay: nat) -> BackoffView {
        BackoffView { attempt: 0, max_attempts, base_delay }
    }

    /// The attempt counter never passes the limit, and no wait overflows.
    pub open spec fn wf(self) -> bool {
        &&& self.attempt <= self.max_attempts
        &&& self.max_attempts <= u32::MAX
        &&& self.base_delay <= u64::MAX
        &&& delays_fit(self.base_delay, self.max_attempts)
    }

    /// No reconnect is left.
    pub open spec fn exhausted(self) -> bool {
        self.attempt >= self.max_attempts
    }

    /// Whether a failure of the given class is answered by a reconnect.
    pub open spec fn retries(self, class: ErrorClass) -> bool {
        class == ErrorClass::Transient && !self.exhausted()
    }

    /// The wait that belongs to the current attempt.
    pub open spec fn delay(self) -> nat
        recommends
            self.attempt >= 1,
    {
        delay_at(self.base_delay, self.attempt)
    }

    /// The policy after one more transient failure.
    pub open spec fn fail(self) -> BackoffView {
        BackoffView { attempt: self.attempt + 1, ..self }
    }

    /// The policy after a message was delivered.
    pub open spec fn succeed(self) -> BackoffView {
        BackoffView { attempt: 0, ..self }
    }

    /// The policy after `n` transient failures in a row.
    pub open spec fn fail_times(self, n: nat) -> BackoffView
        decreases n,
    {
        if n == 0 {
            self
        } else {
            self.fail_times((n - 1) as nat).fail()
        }
    }
}

/// Reconnect policy with its running attempt count.
#[derive(Clone, Copy, Debug, PartialEq, Eq)]
pub struct Backoff {
    attempt: u32,
    max_attempts: u32,
    base_delay_secs: u64,
}

impl View for Backoff {
    type V = BackoffView;

    closed spec fn view(&self) -> BackoffView {
        BackoffView {
            attempt: self.attempt as nat,
            max_attempts: self.max_attempts as nat,
            base_delay: self.base_delay_secs as nat,
        }
    }
}

/// Waits grow with the attempt number.
pub proof fn lemma_delay_monotonic(base_delay: nat, earlier: nat, later: nat)
    requires
        1 <= earlier <= later,
    ensures
        delay_at(base_delay, earlier) <= delay_at(base_delay, later),
{
    if earlier < later {
        lemma_pow2_strictly_increases((earlier - 1) as nat, (later - 1) as nat);
    }
    assert(base_delay * pow2((earlier - 1) as nat) <= base_delay * pow2((later - 1) as nat))
        by (nonlinear_arith)
        requires
            pow2((earlier - 1) as nat) <= pow2((later - 1) as nat),
    ;
}

/// Each wait is twice the one before it.
pub proof fn lemma_delay_doubles(base_delay: nat, attempt: nat)
    requires
        attempt >= 1,
    ensures
        delay_at(base_delay, attempt + 1) == 2 * delay_at(base_delay, attempt),
        delay_at(base_delay, 1) == base_delay,
{
    lemma_pow2_unfold(attempt);
    assert(pow2(0) == 1) by {
        vstd::arithmetic::power2::lemma2_to64();
    }
    assert(base_delay * 1 == base_delay) by (nonlinear_arith);
    assert(base_delay * (2 * pow2((attempt - 1) as nat)) == 2 * (base_delay * pow2(
        (attempt - 1) as nat,
    ))) by (nonlinear_arith);
}

/// `base_delay * 2^(attempt - 1)` if that fits in a `u64`.
fn checked_delay(base_delay_secs: u64, attempt: u32) -> (r: Option<u64>)
    requires
        attempt >= 1,
    ensures
        r is Some <==> delay_at(base_delay_secs as nat, attempt as nat) <= u64::MAX,
        r matches Some(d) ==> d == delay_at(base_delay_secs as nat, attempt as nat),
{
    if base_delay_secs == 0 {
        assert(0 * pow2((attempt - 1) as nat) == 0) by (nonlinear_arith);
        return Some(0);
    }
    let mut delay: u64 = base_delay_secs;
    let mut done: u32 = 1;
    proof {
        lemma_delay_doubles(base_delay_secs as nat, 1);
    }
    while done < attempt
        invariant
            1 <= done <= attempt,
            base_delay_secs >= 1,
            delay == delay_at(base_delay_secs as nat, done as nat),
        decreases attempt - done,
    {
        proof {
            lemma_delay_doubles(base_delay_secs as nat, done as nat);
        }
        match delay.checked_mul(2) {
            Some(doubled) => {
                delay = doubled;
                done = done + 1;
            },
            None => {
                proof {
                    lemma_delay_monotonic(
                        base_delay_secs as nat,
                        (done + 1) as nat,
                        attempt as nat,
                    );
                }
                return None;
            },
        }
    }
    Some(delay)
}

impl Backoff {
    /// Holds of every `Backoff` that exists.
    #[verifier::type_invariant]
    pub open spec fn inv(self) -> bool {
        self@.wf()
    }

    /// A policy that has seen no failure, if every wait it can ask for fits
    /// in a `u64`.
    pub fn new(max_attempts: u32, base_delay_secs: u64) -> (r: Option<Backoff>)
        ensures
            r is Some <==> delays_fit(base_delay_secs as nat, max_attempts as nat),
            r matches Some(b) ==> b@ == BackoffView::fresh(
                max_attempts as nat,
                base_delay_secs as nat,
            ) && b@.wf(),
    {
        if max_attempts >= 2 {
            let longest = checked_delay(base_delay_secs, max_attempts - 1);
            if longest.is_none() {
                assert(!delays_fit(base_delay_secs as nat, max_attempts as nat)) by {
                    assert(delay_at(base_delay_secs as nat, (max_attempts - 1) as nat)
                        > u64::MAX);
                }
                return None;
            }
            assert forall|attempt: nat| 1 <= attempt < max_attempts implies #[trigger] delay_at(
                base_delay_secs as nat,
                attempt,
            ) <= u64::MAX by {
                lemma_delay_monotonic(
                    base_delay_secs as nat,
                    attempt,
                    (max_attempts - 1) as nat,
                );
            }
        }
        Some(Backoff { attempt: 0, max_attempts, base_delay_secs })
    }

    /// The policy of the stock client: ten attempts, two seconds at first.
    pub fn standard() -> (r: Backoff)
        ensures
            r@ == BackoffView::fresh(DEFAULT_MAX_ATTEMPTS as nat, DEFAULT_BASE_DELAY_SECS as nat),
            r@.wf(),
    {
        assert forall|attempt: nat| 1 <= attempt < 10 implies #[trigger] delay_at(2, attempt)
            <= u64::MAX by {
            vstd::arithmetic::power2::lemma2_to64();
            lemma_delay_monotonic(2, attempt, 9);
        }
        Backoff {
            attempt: 0,
            max_attempts: DEFAULT_MAX_ATTEMPTS,
            base_delay_secs: DEFAULT_BASE_DELAY_SECS,
        }
    }

    /// Consecutive transient failures since the last success.
    pub fn attempt(&self) -> (r: u32)
        ensures
            r == self@.attempt,
            self@.wf(),
    {
        proof {
            use_type_invariant(self);
        }
        self.attempt
    }

    /// The number of failures at which the client gives up.
    pub fn max_attempts(&self) -> (r: u32)
        ensures
            r == self@.max_attempts,
    {
        self.max_attempts
    }

    /// The wait before the first reconnect, in seconds.
    pub fn base_delay_secs(&self) -> (r: u64)
        ensures
            r == self@.base_delay,
    {
        self.base_delay_secs
    }

    /// Whether a failure of the given class is answered by a reconnect:
    /// only a transient one, and only while attempts are left.
    pub fn should_retry(&self, class: ErrorClass) -> (r: bool)
        ensures
            r == self@.retries(class),
    {
        match class {
            ErrorClass::Transient => self.attempt < self.max_attempts,
            ErrorClass::Fatal => false,
        }
    }

    /// Counts one more transient failure.
    pub fn record_failure(&mut self)
        requires
            !old(self)@.exhausted(),
        ensures
            final(self)@ == old(self)@.fail(),
            final(self)@.wf(),
    {
        proof {
            use_type_invariant(&*self);
        }
        self.attempt = self.attempt + 1;
    }

    /// Forgets all failures: a message was delivered.
    pub fn record_success(&mut self)
        ensures
            final(self)@ == old(self)@.succeed(),
            final(self)@.attempt == 0,
            final(self)@.wf(),
    {
        proof {
            use_type_invariant(&*self);
        }
        self.attempt = 0;
    }

    /// The wait before the reconnect that answers the latest failure, in
    /// seconds.
    pub fn next_delay(&self) -> (r: u64)
        requires
            self@.attempt >= 1,
            self@.delay() <= u64::MAX,
        ensures
            r == self@.delay(),
    {
        let delay = checked_delay(self.base_delay_secs, self.attempt);
        delay.unwrap()
    }
}

/// Before every reconnect the wait is the base delay times two to the power
/// of the number of earlier attempts, and it fits in a `u64`, so that
/// [`Backoff::next_delay`] can be asked for it.
pub proof fn lemma_delay_is_exponential(b: BackoffView)
    requires
        b.wf(),
        1 <= b.attempt < b.max_attempts,
    ensures
        b.delay() == b.base_delay * pow2((b.attempt - 1) as nat),
        b.delay() <= u64::MAX,
{
    assert(delay_at(b.base_delay, b.attempt) <= u64::MAX);
}

/// Counted from a success, the `n`-th transient failure in a row is answered
/// by a reconnect exactly while `n` is below the limit: the failure that
/// reaches the limit ends the retries.
pub proof fn lemma_retries_end_at_limit(b: BackoffView, n: nat)
    requires
        b.attempt == 0,
    ensures
        b.fail_times(n).attempt == n,
        b.fail_times(n).max_attempts == b.max_attempts,
        b.fail_times(n).base_delay == b.base_delay,
        b.fail_times(n).retries(ErrorClass::Transient) <==> n < b.max_attempts,
        !b.fail_times(n).retries(ErrorClass::Fatal),
    decreases n,
{
    if n > 0 {
        lemma_retries_end_at_limit(b, (n - 1) as nat);
    }
}

/// A success forgets every failure, whatever the count was.
pub proof fn lemma_success_resets(b: BackoffView)
    ensures
        b.succeed().attempt == 0,
        b.succeed().max_attempts == b.max_attempts,
        b.succeed().base_delay == b.base_delay,
        b.wf() ==> b.succeed().wf(),
{
}

} // verus!
