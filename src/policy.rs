//! Delay policies: a fixed (or uniformly random) interval and an exponential
//! backoff that saturates at a ceiling.
use vstd::prelude::*;
use crate::delay::{Delay, DelayRange, MAX_NANOS};
use crate::misc::{pretty_text, HumanReadable};
use crate::text::push_all;
use exponential_backoff::IntoIter;
use rand::Rng;

verus! {

/// A stateful generator of delays.
pub trait RepeatPolicy: Sized {
    /// The policy's internal consistency, kept by every operation.
    spec fn inv(&self) -> bool;

    /// `d` is a delay that `next` may hand out in state `self`, moving to `after`.
    spec fn next_outcome(&self, after: &Self, d: Delay) -> bool;

    /// `after` is the state that `reset` leaves behind when called in `self`.
    spec fn reset_outcome(&self, after: &Self) -> bool;

    /// What `describe` writes.
    spec fn description(&self) -> Seq<char>;

    /// The policy in words.
    fn describe(&self) -> (r: String)
        ensures
            r@ == self.description(),
    ;

    /// The policy used when none is configured.
    fn default_policy() -> (r: Self)
        ensures
            r.inv(),
    ;

    /// The next delay.
    fn next(&mut self) -> (d: Delay)
        requires
            old(self).inv(),
        ensures
            final(self).inv(),
            old(self).next_outcome(final(self), d),
    ;

    /// Start the policy's sequence over.
    fn reset(&mut self)
        requires
            old(self).inv(),
        ensures
            final(self).inv(),
            old(self).reset_outcome(final(self)),
    ;
}

/// Relies on rand's `thread_rng().gen_range(low..=high)`: a value of the closed
/// range, which is not empty here.
#[verifier::external_body]
fn random_in(low: u128, high: u128) -> (r: u128)
    requires
        low <= high,
    ensures
        low <= r <= high,
{
    rand::thread_rng().gen_range(low..=high)
}

/// A delay that is constant, or drawn uniformly from a closed range.
#[derive(Clone, Copy, Debug)]
pub struct FixedInterval {
    low: Delay,
    high: Delay,
}

impl FixedInterval {
    pub closed spec fn low(&self) -> nat {
        self.low@
    }

    pub closed spec fn high(&self) -> nat {
        self.high@
    }

    /// Always `delay`.
    pub fn every(delay: Delay) -> (r: FixedInterval)
        ensures
            r.inv(),
            r.low() == delay@,
            r.high() == delay@,
    {
        FixedInterval { low: delay, high: delay }
    }

    /// Anywhere in `range`, bounds included.
    pub fn between(range: DelayRange) -> (r: FixedInterval)
        requires
            range.start@ <= range.end@,
        ensures
            r.inv(),
            r.low() == range.start@,
            r.high() == range.end@,
    {
        FixedInterval { low: range.start, high: range.end }
    }
}

impl RepeatPolicy for FixedInterval {
    open spec fn inv(&self) -> bool {
        self.low() <= self.high()
    }

    open spec fn next_outcome(&self, after: &Self, d: Delay) -> bool {
        &&& after.low() == self.low()
        &&& after.high() == self.high()
        &&& self.low() <= d@ <= self.high()
    }

    open spec fn reset_outcome(&self, after: &Self) -> bool {
        &&& after.low() == self.low()
        &&& after.high() == self.high()
    }

    open spec fn description(&self) -> Seq<char> {
        "between "@ + pretty_text(self.low()) + " and "@ + pretty_text(self.high())
    }

    fn describe(&self) -> (r: String) {
        let mut s = String::new();
        push_all(&mut s, "between ");
        push_all(&mut s, self.low.prettify().as_str());
        push_all(&mut s, " and ");
        push_all(&mut s, self.high.prettify().as_str());
        s
    }

    /// No delay at all.
    fn default_policy() -> (r: Self)
        ensures
            r.low() == 0,
            r.high() == 0,
    {
        FixedInterval::every(Delay::zero())
    }

    fn next(&mut self) -> (d: Delay) {
        if self.low == self.high {
            self.low
        } else {
            let n = random_in(self.low.as_nanos(), self.high.as_nanos());
            Delay::from_nanos_u128(n)
        }
    }

    /// Nothing to start over.
    fn reset(&mut self) {
    }
}


#[verifier::external_type_specification]
#[verifier::external_body]
pub struct ExBackoffIter(IntoIter);

/// The settings an exponential-backoff iterator was made with: the smallest
/// delay and the largest (both in nanoseconds), and how many attempts it counts.
pub uninterp spec fn backoff_settings(it: IntoIter) -> (nat, nat, nat);

/// How many terms an exponential-backoff iterator has handed out so far.
pub uninterp spec fn backoff_attempts(it: IntoIter) -> nat;

/// `2^k` as the backoff iterator's `u32` factor holds it: saturated at `u32::MAX`.
pub open spec fn growth(k: nat) -> nat
    decreases k,
{
    if k == 0 {
        1
    } else if k >= 32 {
        u32::MAX as nat
    } else {
        2 * growth((k - 1) as nat)
    }
}

/// The smallest and largest factors (in hundredths) that the iterator's jitter
/// applies to a term.
pub open spec fn jitter_low(base: nat) -> nat {
    71 * base / 100
}

pub open spec fn jitter_high(base: nat) -> nat {
    129 * base / 100
}

pub open spec fn clamp(v: nat, lo: nat, hi: nat) -> nat {
    if v < lo {
        lo
    } else if v > hi {
        hi
    } else {
        v
    }
}

/// What one call of the iterator's `next` may return, with `k` attempts made
/// before it and `k2` after it. The term of attempt `k` is the floor times
/// `growth(k)`, jittered, then clamped to the floor and the ceiling; the
/// jitter bounds are exact wherever no `Duration` arithmetic saturated.
pub open spec fn backoff_step(
    settings: (nat, nat, nat),
    k: nat,
    k2: nat,
    r: Option<Option<Delay>>,
) -> bool {
    let (lo, hi, n) = settings;
    if k == n {
        k2 == k && r is None
    } else if k + 1 == n {
        k2 == n && r == Some(None::<Delay>)
    } else {
        &&& k2 == k + 1
        &&& r matches Some(Some(d))
        &&& lo <= r->0->0@ <= hi
        &&& 2900 * (lo * growth(k)) <= MAX_NANOS ==> {
            let base = lo * growth(k);
            &&& clamp(jitter_low(base), lo, hi) <= r->0->0@
            &&& r->0->0@ <= clamp(jitter_high(base), lo, hi)
        }
    }
}

/// Relies on exponential_backoff's `Backoff::new` (jitter 0.3, factor 2) and
/// `into_iter`: a fresh iterator over `max_attempts` attempts.
#[verifier::external_body]
fn backoff_start(max_attempts: u32, min: Delay, max: Delay) -> (r: IntoIter)
    ensures
        backoff_settings(r) == (min@, max@, max_attempts as nat),
        backoff_attempts(r) == 0,
{
    let min = std::time::Duration::new(min.as_secs(), min.subsec_nanos());
    let max = std::time::Duration::new(max.as_secs(), max.subsec_nanos());
    exponential_backoff::Backoff::new(max_attempts, min, max).into_iter()
}

/// Relies on exponential_backoff's `IntoIter::next`: `None` once all attempts
/// are made, `Some(None)` on the last one, else the jittered, clamped term.
/// The clamp panics unless the floor is at most the ceiling.
#[verifier::external_body]
fn backoff_next(it: &mut IntoIter) -> (r: Option<Option<Delay>>)
    requires
        backoff_settings(*old(it)).0 <= backoff_settings(*old(it)).1,
        backoff_attempts(*old(it)) <= backoff_settings(*old(it)).2,
    ensures
        backoff_settings(*final(it)) == backoff_settings(*old(it)),
        backoff_step(
            backoff_settings(*old(it)),
            backoff_attempts(*old(it)),
            backoff_attempts(*final(it)),
            r,
        ),
{
    it.next().map(|o| o.map(|d| Delay::new(d.as_secs(), d.subsec_nanos())))
}

/// What `ExponentialBackoff::next` hands out: with `k` attempts made, the
/// jittered term of attempt `k` while the iterator lasts, then the ceiling.
pub open spec fn backoff_delay(lo: nat, hi: nat, k: nat, k2: nat, d: nat) -> bool {
    if k + 1 < u32::MAX {
        &&& k2 == k + 1
        &&& lo <= d <= hi
        &&& 2900 * (lo * growth(k)) <= MAX_NANOS ==> {
            &&& clamp(jitter_low(lo * growth(k)), lo, hi) <= d
            &&& d <= clamp(jitter_high(lo * growth(k)), lo, hi)
        }
    } else {
        &&& k2 == u32::MAX
        &&& d == hi
    }
}

/// Delays that grow exponentially, with jitter, from an initial delay up to a
/// ceiling, which they then keep. `reset` starts the sequence over from the
/// initial delay: an executor resets its backoff after every success, so each
/// run of failures backs off from the initial delay again.
pub struct ExponentialBackoff {
    initial_delay: Delay,
    max_delay: Delay,
    attempts: IntoIter,
}

impl ExponentialBackoff {
    pub closed spec fn initial(&self) -> nat {
        self.initial_delay@
    }

    pub closed spec fn ceiling(&self) -> nat {
        self.max_delay@
    }

    /// How many delays have been handed out since the start or the last reset.
    pub closed spec fn attempts_made(&self) -> nat {
        backoff_attempts(self.attempts)
    }

    pub closed spec fn well_formed(&self) -> bool {
        &&& self.initial_delay@ <= self.max_delay@
        &&& backoff_settings(self.attempts) == (
            self.initial_delay@,
            self.max_delay@,
            u32::MAX as nat,
        )
        &&& backoff_attempts(self.attempts) <= u32::MAX
    }

    /// A backoff from `initial_delay` up to `max_delay`; a ceiling below the
    /// initial delay is raised to it.
    pub fn new(initial_delay: Delay, max_delay: Delay) -> (r: ExponentialBackoff)
        ensures
            r.inv(),
            r.initial() == initial_delay@,
            r.ceiling() == if max_delay@ < initial_delay@ {
                initial_delay@
            } else {
                max_delay@
            },
            r.attempts_made() == 0,
    {
        let max_delay = if max_delay.as_nanos() < initial_delay.as_nanos() {
            initial_delay
        } else {
            max_delay
        };
        let attempts = backoff_start(u32::MAX, initial_delay, max_delay);
        ExponentialBackoff { initial_delay, max_delay, attempts }
    }

    /// Whether `new` would raise the ceiling: a configuration worth a warning.
    pub fn is_inconsistent(initial_delay: Delay, max_delay: Delay) -> (r: bool)
        ensures
            r == (max_delay@ < initial_delay@),
    {
        max_delay.as_nanos() < initial_delay.as_nanos()
    }
}

impl RepeatPolicy for ExponentialBackoff {
    open spec fn inv(&self) -> bool {
        self.well_formed()
    }

    open spec fn next_outcome(&self, after: &Self, d: Delay) -> bool {
        &&& after.initial() == self.initial()
        &&& after.ceiling() == self.ceiling()
        &&& backoff_delay(
            self.initial(),
            self.ceiling(),
            self.attempts_made(),
            after.attempts_made(),
            d@,
        )
    }

    open spec fn reset_outcome(&self, after: &Self) -> bool {
        &&& after.initial() == self.initial()
        &&& after.ceiling() == self.ceiling()
        &&& after.attempts_made() == 0
    }

    open spec fn description(&self) -> Seq<char> {
        "exponential backoff from "@ + pretty_text(self.initial()) + " up to "@ + pretty_text(
            self.ceiling(),
        )
    }

    fn describe(&self) -> (r: String) {
        let mut s = String::new();
        push_all(&mut s, "exponential backoff from ");
        push_all(&mut s, self.initial_delay.prettify().as_str());
        push_all(&mut s, " up to ");
        push_all(&mut s, self.max_delay.prettify().as_str());
        s
    }

    /// From one second up to the longest delay.
    fn default_policy() -> (r: Self)
        ensures
            r.initial() == 1000000000,
            r.ceiling() == MAX_NANOS,
            r.attempts_made() == 0,
    {
        ExponentialBackoff::new(Delay::from_secs(1), Delay::max())
    }

    fn next(&mut self) -> (d: Delay) {
        match backoff_next(&mut self.attempts) {
            Some(Some(d)) => d,
            _ => self.max_delay,
        }
    }

    fn reset(&mut self) {
        self.attempts = backoff_start(u32::MAX, self.initial_delay, self.max_delay);
    }
}

/// A fixed interval of a single delay hands out that delay, and stays such an
/// interval, on every call of `next`.
pub proof fn lemma_every_is_constant(p: FixedInterval, after: FixedInterval, d: Delay)
    requires
        p.low() == p.high(),
        p.next_outcome(&after, d),
    ensures
        d@ == p.low(),
        after.low() == p.low(),
        after.high() == p.low(),
{
}

/// A fixed interval over a range hands out delays within the range, and keeps
/// the range, on every call of `next`.
pub proof fn lemma_between_stays_in_range(p: FixedInterval, after: FixedInterval, d: Delay)
    requires
        p.next_outcome(&after, d),
    ensures
        p.low() <= d@ <= p.high(),
        after.low() == p.low(),
        after.high() == p.high(),
{
}

proof fn lemma_growth(k: nat)
    ensures
        1 <= growth(k) <= u32::MAX,
        k < 31 ==> growth(k + 1) == 2 * growth(k),
        k >= 32 ==> growth(k) == u32::MAX,
        k == 31 ==> growth(k) == 2147483648,
    decreases k,
{
    if k > 0 {
        lemma_growth((k - 1) as nat);
    }
    if k == 31 {
        reveal_with_fuel(growth, 32);
    }
}

proof fn lemma_growth_monotone(i: nat, j: nat)
    requires
        i <= j,
    ensures
        growth(i) <= growth(j),
    decreases j,
{
    lemma_growth(j);
    if i < j {
        lemma_growth_monotone(i, (j - 1) as nat);
        lemma_growth((j - 1) as nat);
    }
}

proof fn lemma_jitter_gap(b: nat)
    requires
        b >= 8,
    ensures
        jitter_high(b) < jitter_low(2 * b),
{
    assert(129 * b / 100 < 142 * b / 100) by (nonlinear_arith)
        requires
            b >= 8,
    ;
}

proof fn lemma_jitter_monotone(a: nat, b: nat)
    requires
        a <= b,
    ensures
        jitter_low(a) <= jitter_low(b),
        jitter_high(a) <= jitter_high(b),
{
    assert(71 * a / 100 <= 71 * b / 100) by (nonlinear_arith)
        requires
            a <= b,
    ;
    assert(129 * a / 100 <= 129 * b / 100) by (nonlinear_arith)
        requires
            a <= b,
    ;
}

/// Two successive delays of a backoff whose terms stay below the ceiling up to
/// attempt `m - 1` and are all at the ceiling from attempt `m + 1` on.
pub(crate) proof fn lemma_successive_delays(
    s0: ExponentialBackoff,
    s1: ExponentialBackoff,
    s2: ExponentialBackoff,
    d1: Delay,
    d2: Delay,
    m: nat,
)
    requires
        s0.inv(),
        s0.next_outcome(&s1, d1),
        s1.next_outcome(&s2, d2),
        8 <= s0.initial(),
        2900 * (s0.initial() * u32::MAX) <= MAX_NANOS,
        1 <= m <= 30,
        jitter_high(s0.initial() * growth((m - 1) as nat)) < s0.ceiling(),
        jitter_low(s0.initial() * growth(m + 1)) >= s0.ceiling(),
    ensures
        d1@ <= s0.ceiling(),
        d1@ < s0.ceiling() ==> d1@ < d2@,
        d1@ == s0.ceiling() ==> d2@ == s0.ceiling(),
{
    let lo = s0.initial();
    let hi = s0.ceiling();
    let k = s0.attempts_made();
    lemma_growth(k);
    lemma_growth(k + 1);
    if k + 1 < u32::MAX {
        let b = lo * growth(k);
        let b2 = lo * growth(k + 1);
        assert(2900 * b <= MAX_NANOS) by (nonlinear_arith)
            requires
                b == lo * growth(k),
                growth(k) <= u32::MAX,
                2900 * (lo * u32::MAX) <= MAX_NANOS,
        ;
        assert(2900 * b2 <= MAX_NANOS) by (nonlinear_arith)
            requires
                b2 == lo * growth(k + 1),
                growth(k + 1) <= u32::MAX,
                2900 * (lo * u32::MAX) <= MAX_NANOS,
        ;
        if k + 2 < u32::MAX {
            if k + 1 <= m {
                lemma_growth_monotone(k, (m - 1) as nat);
                assert(b <= lo * growth((m - 1) as nat)) by (nonlinear_arith)
                    requires
                        b == lo * growth(k),
                        growth(k) <= growth((m - 1) as nat),
                ;
                lemma_jitter_monotone(b, lo * growth((m - 1) as nat));
                assert(b >= 8) by (nonlinear_arith)
                    requires
                        b == lo * growth(k),
                        growth(k) >= 1,
                        lo >= 8,
                ;
                lemma_jitter_gap(b);
                assert(b2 == 2 * b) by (nonlinear_arith)
                    requires
                        b == lo * growth(k),
                        b2 == lo * growth(k + 1),
                        growth(k + 1) == 2 * growth(k),
                ;
                assert(b >= lo) by (nonlinear_arith)
                    requires
                        b == lo * growth(k),
                        growth(k) >= 1,
                ;
                assert(jitter_high(b) >= lo);
                assert(jitter_low(b2) > jitter_high(b));
                assert(d1@ <= jitter_high(b));
                assert(d2@ >= jitter_low(b2) || d2@ == hi);
            } else if k == m {
                lemma_growth_monotone(m + 1, k + 1);
            } else {
                lemma_growth_monotone(m + 1, k);
                lemma_growth_monotone(m + 1, k + 1);
                assert(lo * growth(m + 1) <= b) by (nonlinear_arith)
                    requires
                        b == lo * growth(k),
                        growth(m + 1) <= growth(k),
                ;
                assert(lo * growth(m + 1) <= b2) by (nonlinear_arith)
                    requires
                        b2 == lo * growth(k + 1),
                        growth(m + 1) <= growth(k + 1),
                ;
                lemma_jitter_monotone(lo * growth(m + 1), b);
                lemma_jitter_monotone(lo * growth(m + 1), b2);
            }
            if k == m {
                assert(lo * growth(m + 1) <= b2) by (nonlinear_arith)
                    requires
                        b2 == lo * growth(k + 1),
                        k == m,
                ;
                lemma_jitter_monotone(lo * growth(m + 1), b2);
            }
        }
    }
}

/// From 100 ms up to 180 s, each delay of an exponential backoff is strictly
/// greater than the one before it until it reaches 180 s, and once it has
/// reached 180 s it stays there.
pub proof fn lemma_backoff_grows_then_plateaus(
    s0: ExponentialBackoff,
    s1: ExponentialBackoff,
    s2: ExponentialBackoff,
    d1: Delay,
    d2: Delay,
)
    requires
        s0.inv(),
        s0.initial() == 100000000,
        s0.ceiling() == 180000000000,
        s0.next_outcome(&s1, d1),
        s1.next_outcome(&s2, d2),
    ensures
        d1@ <= s0.ceiling(),
        d1@ < s0.ceiling() ==> d1@ < d2@,
        d1@ == s0.ceiling() ==> d2@ == s0.ceiling(),
{
    reveal_with_fuel(growth, 13);
    assert(growth(10) == 1024);
    assert(growth(12) == 4096);
    lemma_successive_delays(s0, s1, s2, d1, d2, 11);
}

/// From 100 ms up to 3600 s, each delay of an exponential backoff is strictly
/// greater than the one before it until it reaches 3600 s, and once it has
/// reached 3600 s it stays there.
pub proof fn lemma_hourly_backoff_grows_then_plateaus(
    s0: ExponentialBackoff,
    s1: ExponentialBackoff,
    s2: ExponentialBackoff,
    d1: Delay,
    d2: Delay,
)
    requires
        s0.inv(),
        s0.initial() == 100000000,
        s0.ceiling() == 3600000000000,
        s0.next_outcome(&s1, d1),
        s1.next_outcome(&s2, d2),
    ensures
        d1@ <= s0.ceiling(),
        d1@ < s0.ceiling() ==> d1@ < d2@,
        d1@ == s0.ceiling() ==> d2@ == s0.ceiling(),
{
    reveal_with_fuel(growth, 17);
    assert(growth(14) == 16384);
    assert(growth(16) == 65536);
    lemma_successive_delays(s0, s1, s2, d1, d2, 15);
}

} // verus!
