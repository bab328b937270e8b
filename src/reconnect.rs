//! The decisions of an event stream that keeps a connection alive: an event
//! is passed on at once, an error is answered with a backoff sleep before the
//! next poll. The stream never ends on an error.
use vstd::prelude::*;
use crate::delay::Delay;
use crate::policy::{growth, lemma_successive_delays, ExponentialBackoff, RepeatPolicy};

verus! {

/// What to do after one poll of the connection.
#[derive(Debug)]
pub enum StreamStep<T, E> {
    /// Hand the event on, and poll again at once.
    Yield(T),
    /// Report the error, sleep for the delay, then poll again.
    Retry(E, Delay),
}

/// The state of a reconnecting stream: its own backoff policy, from 50 ms up
/// to 300 s, which carries on across the stream's whole life.
pub struct ReconnectingStream {
    backoff: ExponentialBackoff,
}

impl ReconnectingStream {
    pub closed spec fn backoff(&self) -> ExponentialBackoff {
        self.backoff
    }

    pub open spec fn inv(&self) -> bool {
        self.backoff().inv()
    }

    pub fn new() -> (r: ReconnectingStream)
        ensures
            r.inv(),
            r.backoff().initial() == 50000000,
            r.backoff().ceiling() == 300000000000,
            r.backoff().attempts_made() == 0,
    {
        ReconnectingStream {
            backoff: ExponentialBackoff::new(Delay::from_millis(50), Delay::from_secs(300)),
        }
    }

    /// Decides what follows one poll of the connection.
    pub fn on_poll<T, E>(&mut self, polled: Result<T, E>) -> (r: StreamStep<T, E>)
        requires
            old(self).inv(),
        ensures
            final(self).inv(),
            polled is Ok ==> {
                &&& r == StreamStep::<T, E>::Yield(polled->Ok_0)
                &&& final(self).backoff() == old(self).backoff()
            },
            polled is Err ==> {
                &&& r is Retry
                &&& r->Retry_0 == polled->Err_0
                &&& old(self).backoff().next_outcome(&final(self).backoff(), r->Retry_1)
            },
    {
        match polled {
            Ok(event) => StreamStep::Yield(event),
            Err(error) => {
                let d = self.backoff.next();
                StreamStep::Retry(error, d)
            },
        }
    }
}

/// Two successive backoff sleeps of a reconnecting stream never shrink: the
/// second is at least as long as the first, and neither exceeds 300 s.
pub proof fn lemma_reconnect_sleeps_never_shrink(
    s0: ExponentialBackoff,
    s1: ExponentialBackoff,
    s2: ExponentialBackoff,
    d1: Delay,
    d2: Delay,
)
    requires
        s0.inv(),
        s0.initial() == 50000000,
        s0.ceiling() == 300000000000,
        s0.next_outcome(&s1, d1),
        s1.next_outcome(&s2, d2),
    ensures
        d1@ <= d2@,
        d2@ <= s0.ceiling(),
{
    reveal_with_fuel(growth, 15);
    assert(growth(12) == 4096);
    assert(growth(14) == 16384);
    lemma_successive_delays(s0, s1, s2, d1, d2, 13);
}

} // verus!
