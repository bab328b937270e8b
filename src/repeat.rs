//! The decisions of an executor that repeats a fallible operation: after a
//! success the repeat policy picks the next delay, after a failure the backoff
//! policy does. Whoever runs the operation waits `next_interval` before each
//! attempt and hands the outcome to `complete`.
use vstd::prelude::*;
use crate::delay::Delay;
use crate::misc::{pretty_text, HumanReadable};
use crate::policy::RepeatPolicy;
use crate::text::push_all;

verus! {

/// A failed attempt: the operation's error and the delay chosen before the
/// next attempt.
#[derive(Debug)]
pub struct ExecutionFailure<E>(pub E, pub Delay);

/// Relies on the `Debug` impl of the error type, in its alternate form.
/// Nothing is promised of the text.
#[verifier::external_body]
fn debug_text<E: std::fmt::Debug>(e: &E) -> String {
    format!("{e:#?}")
}

impl<E: std::fmt::Debug> ExecutionFailure<E> {
    /// The failure in words: the delay before the next attempt, then the error.
    pub fn message(&self) -> (r: String)
        ensures
            exists|error_text: Seq<char>|
                r@ == "postponing next retry in "@ + pretty_text(self.1@) + " due to last error: "@
                    + error_text,
    {
        let mut r = String::from_str("postponing next retry in ");
        push_all(&mut r, self.1.prettify().as_str());
        push_all(&mut r, " due to last error: ");
        let ghost head = r@;
        push_all(&mut r, debug_text(&self.0).as_str());
        assert(r@ == head + r@.subrange(head.len() as int, r@.len() as int));
        r
    }
}

/// Schedules the attempts of one repeated operation.
pub struct RepeatableExecutor<RP, BP> {
    repeat_policy: RP,
    backoff_policy: BP,
    next_interval: Delay,
}

impl<RP: RepeatPolicy, BP: RepeatPolicy> RepeatableExecutor<RP, BP> {
    pub closed spec fn repeat(&self) -> RP {
        self.repeat_policy
    }

    pub closed spec fn backoff(&self) -> BP {
        self.backoff_policy
    }

    /// The delay to wait before the next attempt.
    pub closed spec fn pending(&self) -> Delay {
        self.next_interval
    }

    pub open spec fn inv(&self) -> bool {
        self.repeat().inv() && self.backoff().inv()
    }

    /// An executor with both policies at their defaults; the first attempt
    /// runs without delay.
    pub fn new() -> (r: Self)
        ensures
            r.inv(),
            r.pending()@ == 0,
    {
        RepeatableExecutor {
            repeat_policy: RP::default_policy(),
            backoff_policy: BP::default_policy(),
            next_interval: Delay::zero(),
        }
    }

    pub fn with_repeat_policy(self, repeat_policy: RP) -> (r: Self)
        requires
            repeat_policy.inv(),
        ensures
            r.repeat() == repeat_policy,
            r.backoff() == self.backoff(),
            r.pending() == self.pending(),
    {
        RepeatableExecutor { repeat_policy, ..self }
    }

    pub fn with_backoff_policy(self, backoff_policy: BP) -> (r: Self)
        requires
            backoff_policy.inv(),
        ensures
            r.repeat() == self.repeat(),
            r.backoff() == backoff_policy,
            r.pending() == self.pending(),
    {
        RepeatableExecutor { backoff_policy, ..self }
    }

    /// The delay to wait before the next attempt: zero before the first one,
    /// then whatever the last outcome chose.
    pub fn next_interval(&self) -> (r: Delay)
        ensures
            r == self.pending(),
    {
        self.next_interval
    }

    /// Takes the outcome of an attempt. A success is handed back as it came and
    /// the repeat policy picks the next delay, while the backoff policy starts
    /// over; a failure is handed back with the delay that the backoff policy
    /// picked, while the repeat policy starts over.
    pub fn complete<I, E>(&mut self, outcome: Result<I, E>) -> (r: Result<I, ExecutionFailure<E>>)
        requires
            old(self).inv(),
        ensures
            final(self).inv(),
            match outcome {
                Ok(v) => {
                    &&& r == Ok::<I, ExecutionFailure<E>>(v)
                    &&& old(self).repeat().next_outcome(&final(self).repeat(), final(self).pending())
                    &&& old(self).backoff().reset_outcome(&final(self).backoff())
                },
                Err(e) => {
                    &&& r == Err::<I, ExecutionFailure<E>>(ExecutionFailure(e, final(self).pending()))
                    &&& old(self).backoff().next_outcome(&final(self).backoff(), final(self).pending())
                    &&& old(self).repeat().reset_outcome(&final(self).repeat())
                },
            },
    {
        match outcome {
            Ok(v) => {
                self.next_interval = self.repeat_policy.next();
                self.backoff_policy.reset();
                Ok(v)
            },
            Err(e) => {
                self.next_interval = self.backoff_policy.next();
                self.repeat_policy.reset();
                Err(ExecutionFailure(e, self.next_interval))
            },
        }
    }
}

} // verus!
