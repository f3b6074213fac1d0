//! Waiting longer after each failure, up to a limit.

use vstd::prelude::*;

use crate::time::Duration;

verus! {

/// Exponential backoff with a ceiling. Never gives up: `next_delay` keeps
/// returning the capped delay indefinitely, because the peer may be down
/// for hours and must still be picked up when it returns.
#[derive(Debug)]
pub struct Backoff {
    initial: Duration,
    max: Duration,
    current: Option<Duration>,
}

/// What a [`Backoff`] goes by, in nanoseconds.
#[verifier::ext_equal]
pub struct BackoffState {
    pub initial: nat,
    pub max: nat,
    pub current: Option<nat>,
}

impl BackoffState {
    /// The delay that comes next: the initial one, then twice the one
    /// before, but no more than the limit.
    pub open spec fn next(self) -> nat {
        match self.current {
            None => self.initial,
            Some(previous) => if 2 * previous <= self.max {
                2 * previous
            } else {
                self.max
            },
        }
    }

    /// What is left once the next delay has been given.
    pub open spec fn advanced(self) -> BackoffState {
        BackoffState { current: Some(self.next()), ..self }
    }

    /// What is left once `n` delays have been given.
    pub open spec fn after(self, n: nat) -> BackoffState
        decreases n,
    {
        if n == 0 {
            self
        } else {
            self.after((n - 1) as nat).advanced()
        }
    }
}

impl View for Backoff {
    type V = BackoffState;

    closed spec fn view(&self) -> BackoffState {
        BackoffState {
            initial: self.initial@,
            max: self.max@,
            current: match self.current {
                None => None,
                Some(d) => Some(d@),
            },
        }
    }
}

impl Backoff {
    pub fn new(initial: Duration, max: Duration) -> (r: Backoff)
        ensures
            r@ == (BackoffState { initial: initial@, max: max@, current: None }),
    {
        Backoff { initial, max, current: None }
    }

    pub fn next_delay(&mut self) -> (r: Duration)
        ensures
            r@ == old(self)@.next(),
            final(self)@ == old(self)@.advanced(),
    {
        let delay: Duration = match self.current {
            None => self.initial,
            Some(previous) => previous.doubled_up_to(self.max),
        };
        self.current = Some(delay);
        delay
    }

    /// Call after a successful connection so the next outage retries fast.
    pub fn reset(&mut self)
        ensures
            final(self)@ == (BackoffState { current: None, ..old(self)@ }),
    {
        self.current = None;
    }
}

/// However often it is asked, a backoff whose initial delay is within its
/// limit gives a delay between the two, and each delay is twice the one
/// before it, or the limit.
pub proof fn law_delays_double_up_to_the_limit(b: BackoffState, n: nat)
    requires
        b.initial <= b.max,
        b.current is None,
    ensures
        b.after(0).next() == b.initial,
        b.initial <= b.after(n).next() <= b.max,
        b.after(n + 1).next() == if 2 * b.after(n).next() <= b.max {
            2 * b.after(n).next()
        } else {
            b.max
        },
    decreases n,
{
    lemma_limits_stay(b, n);
    lemma_limits_stay(b, n + 1);
    if n > 0 {
        law_delays_double_up_to_the_limit(b, (n - 1) as nat);
    }
}

proof fn lemma_limits_stay(b: BackoffState, n: nat)
    ensures
        b.after(n).initial == b.initial,
        b.after(n).max == b.max,
        n > 0 ==> b.after(n).current is Some,
    decreases n,
{
    if n > 0 {
        lemma_limits_stay(b, (n - 1) as nat);
    }
}

/// Once a delay has reached the limit, the next one is the limit too: a
/// backoff never gives up.
pub proof fn law_the_limit_is_kept(b: BackoffState)
    requires
        b.next() == b.max,
    ensures
        b.advanced().next() == b.max,
{
}

/// The first delay is the initial one, even where that is above the limit.
pub proof fn law_the_first_delay_is_the_initial_one(b: BackoffState)
    requires
        b.current is None,
    ensures
        b.next() == b.initial,
        b.advanced().current == Some(b.initial),
        b.advanced().initial == b.initial,
        b.advanced().max == b.max,
{
}

} // verus!
