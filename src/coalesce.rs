//! Debouncing of commands per target: commands for one key accumulate while
//! they keep arriving, and are handed out together once a grace period has
//! passed without a new one.
use vstd::prelude::*;
use crate::delay::{Delay, MAX_NANOS};

verus! {

/// What is pending for one key: its commands in the order they arrived, and
/// the instant from which they may be flushed.
pub struct PendingCommands<C> {
    key: String,
    commands: Vec<C>,
    deadline: Delay,
}

impl<C> PendingCommands<C> {
    pub closed spec fn view(&self) -> (Seq<C>, nat) {
        (self.commands@, self.deadline@)
    }
}

/// The instant `now + grace`, held at the longest delay.
pub open spec fn deadline_after(now: nat, grace: nat) -> nat {
    if now + grace <= MAX_NANOS {
        now + grace
    } else {
        MAX_NANOS as nat
    }
}

/// `pending` after `command` arrived for `key`, moving the key's flush to
/// `deadline`.
pub open spec fn with_command<C>(
    pending: Map<Seq<char>, (Seq<C>, nat)>,
    key: Seq<char>,
    command: C,
    deadline: nat,
) -> Map<Seq<char>, (Seq<C>, nat)> {
    let commands = if pending.contains_key(key) {
        pending[key].0.push(command)
    } else {
        seq![command]
    };
    pending.insert(key, (commands, deadline))
}

/// Whether the commands pending for `key` may be flushed at `now`.
pub open spec fn flush_ready<C>(pending: Map<Seq<char>, (Seq<C>, nat)>, key: Seq<char>, now: nat) -> bool {
    pending.contains_key(key) && pending[key].1 <= now
}

/// Per-key debouncer. Instants are given as the time elapsed since a start
/// that the caller chooses.
pub struct Coalescer<C> {
    grace: Delay,
    entries: Vec<PendingCommands<C>>,
    model: Ghost<Map<Seq<char>, (Seq<C>, nat)>>,
}

impl<C> Coalescer<C> {
    /// For each key with pending commands: the commands, oldest first, and the
    /// instant from which they may be flushed. There is at most one such
    /// instant, and so at most one outstanding timer, per key.
    pub closed spec fn pending(&self) -> Map<Seq<char>, (Seq<C>, nat)> {
        self.model@
    }

    pub closed spec fn grace(&self) -> nat {
        self.grace@
    }

    pub closed spec fn wf(&self) -> bool {
        &&& forall|i: int|
            0 <= i < self.entries@.len() ==> {
                &&& self.model@.contains_key(#[trigger] self.entries@[i].key@)
                &&& self.model@[self.entries@[i].key@] == self.entries@[i].view()
            }
        &&& forall|i: int, j: int|
            0 <= i < self.entries@.len() && 0 <= j < self.entries@.len() && i != j
                ==> #[trigger] self.entries@[i].key@ != #[trigger] self.entries@[j].key@
        &&& forall|k: Seq<char>|
            #[trigger] self.model@.contains_key(k) ==> exists|i: int|
                0 <= i < self.entries@.len() && #[trigger] self.entries@[i].key@ == k
    }

    /// A coalescer with nothing pending, whose grace period is `grace`.
    pub fn new(grace: Delay) -> (r: Coalescer<C>)
        ensures
            r.wf(),
            r.grace() == grace@,
            r.pending() == Map::<Seq<char>, (Seq<C>, nat)>::empty(),
    {
        Coalescer { grace, entries: Vec::new(), model: Ghost(Map::empty()) }
    }

    fn find(&self, key: &String) -> (r: Option<usize>)
        requires
            self.wf(),
        ensures
            match r {
                Some(i) => i < self.entries@.len() && self.entries@[i as int].key@ == key@,
                None => !self.pending().contains_key(key@),
            },
    {
        let mut i: usize = 0;
        while i < self.entries.len()
            invariant
                self.wf(),
                i <= self.entries@.len(),
                forall|j: int| 0 <= j < i ==> self.entries@[j].key@ != key@,
            decreases self.entries@.len() - i,
        {
            if self.entries[i].key == *key {
                return Some(i);
            }
            i = i + 1;
        }
        None
    }

    /// Adds `command` for `key`, arrived at `now`: it goes after the commands
    /// already pending for that key, and the key's flush moves to
    /// `now + grace`. Other keys are left as they were.
    pub fn submit(&mut self, key: String, command: C, now: Delay) -> (deadline: Delay)
        requires
            old(self).wf(),
        ensures
            final(self).wf(),
            final(self).grace() == old(self).grace(),
            deadline@ == deadline_after(now@, old(self).grace()),
            final(self).pending() == with_command(old(self).pending(), key@, command, deadline@),
    {
        let deadline = now.saturating_add(self.grace);
        let ghost old_model = self.model@;
        let ghost new_commands = if old_model.contains_key(key@) {
            old_model[key@].0.push(command)
        } else {
            seq![command]
        };
        match self.find(&key) {
            Some(i) => {
                let ghost old_entries = self.entries@;
                let entry = &mut self.entries[i];
                entry.commands.push(command);
                entry.deadline = deadline;
                self.model = Ghost(old_model.insert(key@, (new_commands, deadline@)));
                assert forall|k: Seq<char>| #[trigger] self.model@.contains_key(k) implies exists|j: int|
                    0 <= j < self.entries@.len() && #[trigger] self.entries@[j].key@ == k by {
                    if k != key@ {
                        let j = choose|j: int| 0 <= j < old_entries.len() && #[trigger] old_entries[j].key@ == k;
                        assert(self.entries@[j].key@ == k);
                    } else {
                        assert(self.entries@[i as int].key@ == k);
                    }
                }
            },
            None => {
                let mut commands = Vec::new();
                commands.push(command);
                let ghost old_entries = self.entries@;
                self.entries.push(PendingCommands { key, commands, deadline });
                self.model = Ghost(old_model.insert(key@, (new_commands, deadline@)));
                assert(self.entries@[old_entries.len() as int].view().0 =~= new_commands);
                assert forall|k: Seq<char>| #[trigger] self.model@.contains_key(k) implies exists|j: int|
                    0 <= j < self.entries@.len() && #[trigger] self.entries@[j].key@ == k by {
                    if k != key@ {
                        let j = choose|j: int| 0 <= j < old_entries.len() && #[trigger] old_entries[j].key@ == k;
                        assert(self.entries@[j].key@ == k);
                    } else {
                        assert(self.entries@[old_entries.len() as int].key@ == k);
                    }
                }
            },
        }
        deadline
    }

    /// The instant from which the commands pending for `key` may be flushed,
    /// if any are pending.
    pub fn deadline(&self, key: &String) -> (r: Option<Delay>)
        requires
            self.wf(),
        ensures
            match r {
                Some(d) => self.pending().contains_key(key@) && d@ == self.pending()[key@].1,
                None => !self.pending().contains_key(key@),
            },
    {
        match self.find(key) {
            Some(i) => Some(self.entries[i].deadline),
            None => None,
        }
    }

    /// At `now`, when the timer armed for `key` fires: if commands are pending
    /// for `key` and no command arrived for it during the last grace period,
    /// they are removed and handed out, oldest first. Otherwise nothing changes:
    /// a later command has armed a later timer, which owns the flush.
    pub fn flush(&mut self, key: &String, now: Delay) -> (r: Option<Vec<C>>)
        requires
            old(self).wf(),
        ensures
            final(self).wf(),
            final(self).grace() == old(self).grace(),
            if flush_ready(old(self).pending(), key@, now@) {
                &&& r is Some
                &&& r->0@ == old(self).pending()[key@].0
                &&& final(self).pending() == old(self).pending().remove(key@)
            } else {
                &&& r is None
                &&& final(self).pending() == old(self).pending()
            },
    {
        match self.find(key) {
            Some(i) => {
                if self.entries[i].deadline.as_nanos() <= now.as_nanos() {
                    let ghost old_entries = self.entries@;
                    let ghost old_model = self.model@;
                    let entry = self.entries.remove(i);
                    self.model = Ghost(old_model.remove(key@));
                    assert forall|a: int, b: int|
                        0 <= a < self.entries@.len() && 0 <= b < self.entries@.len() && a != b
                        implies #[trigger] self.entries@[a].key@ != #[trigger] self.entries@[b].key@ by {
                        let a0 = if a < i { a } else { a + 1 };
                        let b0 = if b < i { b } else { b + 1 };
                        assert(self.entries@[a] == old_entries[a0]);
                        assert(self.entries@[b] == old_entries[b0]);
                    }
                    assert forall|a: int| 0 <= a < self.entries@.len() implies {
                        &&& self.model@.contains_key(#[trigger] self.entries@[a].key@)
                        &&& self.model@[self.entries@[a].key@] == self.entries@[a].view()
                    } by {
                        let a0 = if a < i { a } else { a + 1 };
                        assert(self.entries@[a] == old_entries[a0]);
                        assert(old_entries[a0].key@ != old_entries[i as int].key@);
                    }
                    assert forall|k: Seq<char>| #[trigger] self.model@.contains_key(k) implies exists|j: int|
                        0 <= j < self.entries@.len() && #[trigger] self.entries@[j].key@ == k by {
                        let j0 = choose|j: int| 0 <= j < old_entries.len() && #[trigger] old_entries[j].key@ == k;
                        assert(j0 != i);
                        let j = if j0 < i { j0 } else { j0 - 1 };
                        assert(self.entries@[j] == old_entries[j0]);
                    }
                    Some(entry.commands)
                } else {
                    None
                }
            },
            None => None,
        }
    }
}

/// Commands for one key never hold back or move the flush of another: adding
/// a command for `k1`, or flushing `k1`, leaves what is pending for `k2`, and
/// whether it may be flushed at any instant, as it was.
pub proof fn lemma_keys_are_independent<C>(
    pending: Map<Seq<char>, (Seq<C>, nat)>,
    k1: Seq<char>,
    k2: Seq<char>,
    command: C,
    deadline: nat,
    now: nat,
)
    requires
        k1 != k2,
    ensures
        with_command(pending, k1, command, deadline).contains_key(k2) == pending.contains_key(k2),
        pending.contains_key(k2) ==> with_command(pending, k1, command, deadline)[k2] == pending[k2],
        flush_ready(with_command(pending, k1, command, deadline), k2, now) == flush_ready(pending, k2, now),
        pending.remove(k1).contains_key(k2) == pending.contains_key(k2),
        pending.contains_key(k2) ==> pending.remove(k1)[k2] == pending[k2],
        flush_ready(pending.remove(k1), k2, now) == flush_ready(pending, k2, now),
{
}

/// Three commands for one key arriving at `t0`, `t0 + 1 s` and `t0 + 2 s` with
/// a grace period of 5 s are flushed exactly once: not before `t0 + 7 s`, then
/// all three together in the order they arrived, after which nothing is left
/// to flush for that key.
pub proof fn lemma_three_commands_flush_once<C>(
    pending: Map<Seq<char>, (Seq<C>, nat)>,
    key: Seq<char>,
    c1: C,
    c2: C,
    c3: C,
    t0: nat,
    now: nat,
)
    requires
        !pending.contains_key(key),
        t0 + 7000000000 <= MAX_NANOS,
    ensures
        ({
            let grace: nat = 5000000000;
            let after_first = with_command(pending, key, c1, deadline_after(t0, grace));
            let after_second = with_command(after_first, key, c2, deadline_after(t0 + 1000000000, grace));
            let after_third = with_command(after_second, key, c3, deadline_after(t0 + 2000000000, grace));
            &&& flush_ready(after_third, key, now) <==> now >= t0 + 7000000000
            &&& after_third[key].0 == seq![c1, c2, c3]
            &&& !flush_ready(after_third.remove(key), key, now)
        }),
{
    let grace: nat = 5000000000;
    let after_first = with_command(pending, key, c1, deadline_after(t0, grace));
    let after_second = with_command(after_first, key, c2, deadline_after(t0 + 1000000000, grace));
    let after_third = with_command(after_second, key, c3, deadline_after(t0 + 2000000000, grace));
    assert(after_third[key].0 =~= seq![c1, c2, c3]);
}

} // verus!
