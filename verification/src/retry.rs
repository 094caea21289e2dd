//! Trying a remote call again after a failure that may pass.
//!
//! The caller makes the attempts and says of each failure whether it is
//! transient or permanent. What is decided here is what follows an attempt: to
//! hand the result back, or to wait and try once more.

use vstd::arithmetic::power2::{lemma_pow2_pos, lemma_pow2_strictly_increases, lemma_pow2_unfold, pow2};
use vstd::prelude::*;

verus! {

/// A failure, marked by whether another attempt may succeed.
#[derive(Debug)]
pub enum Retry<E> {
    /// The failure may pass: the call is worth another attempt.
    Transient(E),
    /// The failure will not pass: no further attempt is made.
    Permanent(E),
}

impl<E> Retry<E> {
    /// The failure itself, without its mark.
    pub open spec fn inner(self) -> E {
        match self {
            Retry::Transient(error) => error,
            Retry::Permanent(error) => error,
        }
    }

    /// The failure itself, without its mark.
    pub fn into_inner(self) -> (error: E)
        ensures
            error == self.inner(),
    {
        match self {
            Retry::Transient(error) => error,
            Retry::Permanent(error) => error,
        }
    }

    /// Whether the failure is marked transient.
    pub fn is_retryable(&self) -> (retryable: bool)
        ensures
            retryable == (self is Transient),
    {
        match self {
            Retry::Transient(_) => true,
            Retry::Permanent(_) => false,
        }
    }
}

/// Marks a failure by what the caller found out about it.
pub fn classify<E>(error: E, retryable: bool) -> (marked: Retry<E>)
    ensures
        marked.inner() == error,
        marked is Transient <==> retryable,
{
    if retryable {
        Retry::Transient(error)
    } else {
        Retry::Permanent(error)
    }
}

/// The number of attempts that are made by default.
pub const DEFAULT_MAX_ATTEMPTS: usize = 30;

/// The wait that is doubled with every attempt by default, in milliseconds.
pub const DEFAULT_BASE_DELAY_MS: u64 = 250;

/// The longest wait between two attempts by default, in milliseconds.
pub const DEFAULT_MAX_DELAY_MS: u64 = 20_000;

/// How often a call is attempted, and how long the waits in between are.
#[derive(Clone, Copy, Debug, PartialEq, Eq, Structural)]
pub struct RetryParams {
    /// The wait that is doubled with every attempt, in milliseconds.
    pub base_delay_ms: u64,
    /// The longest wait between two attempts, in milliseconds.
    pub max_delay_ms: u64,
    /// The number of attempts after which a transient failure is final. The
    /// first attempt is always made.
    pub max_attempts: usize,
}

/// The parameters that a call is attempted with by default.
pub open spec fn default_retry_params() -> RetryParams {
    RetryParams {
        base_delay_ms: DEFAULT_BASE_DELAY_MS,
        max_delay_ms: DEFAULT_MAX_DELAY_MS,
        max_attempts: DEFAULT_MAX_ATTEMPTS,
    }
}

impl Default for RetryParams {
    fn default() -> (params: RetryParams)
        ensures
            params == default_retry_params(),
    {
        RetryParams {
            base_delay_ms: DEFAULT_BASE_DELAY_MS,
            max_delay_ms: DEFAULT_MAX_DELAY_MS,
            max_attempts: DEFAULT_MAX_ATTEMPTS,
        }
    }
}

impl RetryParams {
    /// The wait after `attempts` attempts have failed, in milliseconds: the
    /// base delay doubled once for each attempt, but no more than the longest
    /// wait.
    pub open spec fn backoff_ms(self, attempts: nat) -> nat {
        let doubled = (self.base_delay_ms * pow2(attempts)) as nat;
        if doubled <= self.max_delay_ms {
            doubled
        } else {
            self.max_delay_ms as nat
        }
    }

    /// The wait after `attempts` attempts have failed, in milliseconds.
    pub fn compute_delay(&self, attempts: usize) -> (delay_ms: u64)
        ensures
            delay_ms == self.backoff_ms(attempts as nat),
    {
        let base = self.base_delay_ms;
        let cap = self.max_delay_ms;
        let mut delay: u64 = if base <= cap {
            base
        } else {
            cap
        };
        let mut doublings: usize = 0;
        proof {
            vstd::arithmetic::power2::lemma2_to64();
            assert(base * pow2(0) == base);
        }
        while doublings < attempts && 0 < delay && delay < cap
            invariant
                doublings <= attempts,
                base == self.base_delay_ms,
                cap == self.max_delay_ms,
                delay == self.backoff_ms(doublings as nat),
            decreases attempts - doublings,
        {
            proof {
                lemma_pow2_unfold((doublings + 1) as nat);
                assert(base * (2 * pow2(doublings as nat)) == 2 * (base * pow2(doublings as nat)))
                    by (nonlinear_arith);
            }
            delay = if delay > cap - delay {
                cap
            } else {
                delay + delay
            };
            doublings += 1;
        }
        proof {
            if doublings < attempts {
                lemma_pow2_strictly_increases(doublings as nat, attempts as nat);
                lemma_pow2_pos(doublings as nat);
                if delay == 0 {
                    if base > 0 {
                        assert(base * pow2(doublings as nat) > 0) by (nonlinear_arith)
                            requires
                                base > 0,
                                pow2(doublings as nat) > 0,
                        ;
                    }
                    assert(base * pow2(attempts as nat) >= 0) by (nonlinear_arith)
                        requires
                            base >= 0,
                            pow2(attempts as nat) > 0,
                    ;
                    if base == 0 {
                        assert(base * pow2(attempts as nat) == 0) by (nonlinear_arith)
                            requires
                                base == 0,
                        ;
                    }
                } else {
                    assert(base * pow2(doublings as nat) <= base * pow2(attempts as nat))
                        by (nonlinear_arith)
                        requires
                            base >= 0,
                            pow2(doublings as nat) < pow2(attempts as nat),
                    ;
                }
            }
        }
        delay
    }
}

/// What follows an attempt.
#[derive(Debug)]
pub enum RetryDecision<T, E> {
    /// The call is over: this is its result. A failure comes without its mark.
    Return(Result<T, E>),
    /// The call is attempted once more, after a wait of `delay_ms`
    /// milliseconds.
    Retry { delay_ms: u64 },
}

/// What follows an attempt with the given outcome, after `attempts` earlier
/// attempts have failed. A success is handed back. A permanent failure is
/// handed back at once. A transient failure is handed back when it was the
/// last attempt allowed; before that the call is attempted again after the
/// backoff.
pub open spec fn decide<T, E>(
    params: RetryParams,
    attempts: nat,
    outcome: Result<T, Retry<E>>,
) -> RetryDecision<T, E> {
    match outcome {
        Ok(value) => RetryDecision::Return(Ok(value)),
        Err(Retry::Permanent(error)) => RetryDecision::Return(Err(error)),
        Err(Retry::Transient(error)) => if attempts + 1 >= params.max_attempts {
            RetryDecision::Return(Err(error))
        } else {
            RetryDecision::Retry { delay_ms: params.backoff_ms(attempts + 1) as u64 }
        },
    }
}

/// A call that is being attempted: its parameters and the attempts made.
pub struct RetryState {
    params: RetryParams,
    num_attempts: usize,
}

impl RetryState {
    #[verifier::type_invariant]
    spec fn attempts_are_left(self) -> bool {
        self.num_attempts == 0 || self.num_attempts < self.params.max_attempts
    }

    /// The parameters that the call is attempted with.
    pub closed spec fn params(self) -> RetryParams {
        self.params
    }

    /// The number of attempts that were made and are to be followed by
    /// another.
    pub closed spec fn attempts(self) -> nat {
        self.num_attempts as nat
    }

    /// A call that has not been attempted yet.
    pub fn new(params: RetryParams) -> (state: RetryState)
        ensures
            state.params() == params,
            state.attempts() == 0,
    {
        RetryState { params, num_attempts: 0 }
    }

    /// The number of attempts that were made and are to be followed by
    /// another.
    pub fn num_attempts(&self) -> (attempts: usize)
        ensures
            attempts == self.attempts(),
    {
        self.num_attempts
    }

    /// Takes in the outcome of an attempt and decides what follows: see
    /// [`decide`]. An attempt that is to be followed by another is counted.
    pub fn on_attempt<T, E>(&mut self, outcome: Result<T, Retry<E>>) -> (decision: RetryDecision<
        T,
        E,
    >)
        ensures
            decision == decide(old(self).params(), old(self).attempts(), outcome),
            final(self).params() == old(self).params(),
            final(self).attempts() == if decision is Retry {
                old(self).attempts() + 1
            } else {
                old(self).attempts()
            },
    {
        proof {
            use_type_invariant(&*self);
        }
        match outcome {
            Ok(value) => RetryDecision::Return(Ok(value)),
            Err(Retry::Permanent(error)) => RetryDecision::Return(Err(error)),
            Err(Retry::Transient(error)) => {
                if self.params.max_attempts == 0 || self.num_attempts >= self.params.max_attempts
                    - 1 {
                    RetryDecision::Return(Err(error))
                } else {
                    let attempts = self.num_attempts + 1;
                    let delay_ms = self.params.compute_delay(attempts);
                    self.num_attempts = attempts;
                    RetryDecision::Retry { delay_ms }
                }
            },
        }
    }
}

/// How a call ends whose attempts have the given outcomes, in order, after
/// `attempts` earlier attempts have failed: its result and the number of
/// attempts made in all. Outcomes after the one that ends the call are not
/// looked at. The call has no end yet where every outcome given calls for
/// another attempt.
pub open spec fn run<T, E>(params: RetryParams, attempts: nat, outcomes: Seq<Result<T, Retry<E>>>) -> Option<
    (Result<T, E>, nat),
>
    decreases outcomes.len(),
{
    if outcomes.len() == 0 {
        None
    } else {
        match decide(params, attempts, outcomes[0]) {
            RetryDecision::Return(result) => Some((result, attempts + 1)),
            RetryDecision::Retry { .. } => run(params, attempts + 1, outcomes.drop_first()),
        }
    }
}

/// The outcomes of attempts that all fail for a while, with the given errors.
pub open spec fn transient_failures<T, E>(errors: Seq<E>) -> Seq<Result<T, Retry<E>>> {
    Seq::new(errors.len(), |i: int| Err(Retry::Transient(errors[i])))
}

/// A call that fails for a while fewer times than attempts are allowed, and
/// then succeeds, returns the value of the success. Every failure costs one
/// attempt.
pub proof fn lemma_transient_failures_then_success<T, E>(
    params: RetryParams,
    attempts: nat,
    errors: Seq<E>,
    value: T,
)
    requires
        attempts + errors.len() < params.max_attempts,
    ensures
        run(params, attempts, transient_failures::<T, E>(errors).push(Ok(value))) == Some(
            (Ok::<T, E>(value), attempts + errors.len() + 1),
        ),
    decreases errors.len(),
{
    let outcomes = transient_failures::<T, E>(errors).push(Ok(value));
    if errors.len() > 0 {
        lemma_transient_failures_then_success(params, attempts + 1, errors.drop_first(), value);
        assert(outcomes.drop_first() =~= transient_failures::<T, E>(errors.drop_first()).push(
            Ok(value),
        ));
    }
}

/// A permanent failure ends the call at once, with that failure: whatever
/// further attempts would have brought, none is made.
pub proof fn lemma_permanent_failure_is_final<T, E>(
    params: RetryParams,
    attempts: nat,
    error: E,
    later: Seq<Result<T, Retry<E>>>,
)
    ensures
        run(params, attempts, seq![Err(Retry::Permanent(error))] + later) == Some(
            (Err::<T, E>(error), attempts + 1),
        ),
{
}

/// A call that fails for a while as often as attempts are allowed ends with
/// the last of these failures, after exactly that many attempts. The first
/// attempt is made even where none is allowed.
pub proof fn lemma_transient_failures_exhaust<T, E>(
    params: RetryParams,
    attempts: nat,
    errors: Seq<E>,
    later: Seq<Result<T, Retry<E>>>,
)
    requires
        errors.len() > 0,
        attempts + errors.len() == params.max_attempts || (attempts + errors.len() == 1
            && params.max_attempts == 0),
    ensures
        run(params, attempts, transient_failures::<T, E>(errors) + later) == Some(
            (Err::<T, E>(errors.last()), attempts + errors.len()),
        ),
    decreases errors.len(),
{
    let outcomes = transient_failures::<T, E>(errors) + later;
    assert(outcomes[0] == Err::<T, Retry<E>>(Retry::Transient(errors[0])));
    if errors.len() > 1 {
        lemma_transient_failures_exhaust(params, attempts + 1, errors.drop_first(), later);
        assert(outcomes.drop_first() =~= transient_failures::<T, E>(errors.drop_first()) + later);
    }
}

/// Plays a call through whose attempts have the given outcomes, in order: the
/// result of the call and the number of attempts made, or nothing where the
/// outcomes run out before the call ends. No time passes between the attempts.
pub fn simulate_retries<T, E>(params: RetryParams, outcomes: Vec<Result<T, Retry<E>>>) -> (end: Option<
    (Result<T, E>, usize),
>)
    ensures
        match end {
            Some((result, attempts)) => run(params, 0, outcomes@) == Some((result, attempts as nat)),
            None => run(params, 0, outcomes@) is None,
        },
{
    let mut state = RetryState::new(params);
    let mut pending = outcomes;
    while pending.len() > 0
        invariant
            state.params() == params,
            run(params, 0, outcomes@) == run(params, state.attempts(), pending@),
        decreases pending.len(),
    {
        proof {
            use_type_invariant(&state);
        }
        let ghost before = pending@;
        let attempts = state.num_attempts();
        let outcome = pending.remove(0);
        assert(pending@ =~= before.drop_first());
        assert(before[0] == outcome);
        match state.on_attempt(outcome) {
            RetryDecision::Return(result) => {
                assert(run(params, attempts as nat, before) == Some((result, (attempts + 1) as nat)));
                return Some((result, attempts + 1));
            },
            RetryDecision::Retry { .. } => {
                assert(run(params, attempts as nat, before) == run(
                    params,
                    (attempts + 1) as nat,
                    pending@,
                ));
            },
        }
    }
    None
}

} // verus!
