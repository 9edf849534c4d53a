//! The key-state tracker: a finite-state machine per key, driven by raw
//! down/up events and a once-per-frame bookkeeping call.

use vstd::prelude::*;

verus! {

/// The logical state of a single key.
///
/// `Pressed` and `Released` are edge states, valid for exactly one frame.
/// `HeldBuffer` is the resting state between the one-frame `Pressed` edge and
/// the steady `Held` state: the key is down, but the repeat delay has not yet
/// elapsed. It carries the time at which it was entered, so that the
/// promotion to `Held` can be gated on elapsed time.
#[derive(Copy, Clone, Debug, Hash, PartialEq, Eq, Structural)]
pub enum KeyState {
    Pressed,
    HeldBuffer { since: u64 },
    Released,
    Held,
    Idle,
}

/// The polarity of a raw key transition: the key went down or came up.
#[derive(Copy, Clone, Debug, Hash, PartialEq, Eq, Structural)]
pub enum KeyPolarity {
    Down,
    Up,
}

/// One raw hardware key transition as delivered by the event pump.
///
/// The platform sometimes reports a transition whose scan code it cannot
/// resolve to a key identifier; such an event carries `None` and is ignored
/// by the tracker.
#[derive(Copy, Clone, Debug, Hash, PartialEq, Eq, Structural)]
pub struct RawKeyEvent {
    pub key: Option<u32>,
    pub polarity: KeyPolarity,
}

/// How one raw event moves a key's state, `now` being the time the event is
/// processed.
///
/// A `Down` from `Idle` or `Released` opens the one-frame `Pressed` edge; a
/// second `Down` while still `Pressed` means the OS delivered an auto-repeat
/// tick before the frame boundary ran, and is folded into `HeldBuffer` so the
/// edge fires only once; further `Down`s in `HeldBuffer` or `Held` are
/// absorbed. An `Up` from any down state gives the one-frame `Released`
/// edge; an `Up` from `Idle` or `Released` is a protocol violation by the
/// event source and leaves the state unchanged.
pub open spec fn step_event(s: KeyState, polarity: KeyPolarity, now: u64) -> KeyState {
    match polarity {
        KeyPolarity::Down => match s {
            KeyState::Idle => KeyState::Pressed,
            KeyState::Released => KeyState::Pressed,
            KeyState::Pressed => KeyState::HeldBuffer { since: now },
            KeyState::HeldBuffer { .. } => s,
            KeyState::Held => s,
        },
        KeyPolarity::Up => match s {
            KeyState::Pressed => KeyState::Released,
            KeyState::HeldBuffer { .. } => KeyState::Released,
            KeyState::Held => KeyState::Released,
            KeyState::Idle => s,
            KeyState::Released => s,
        },
    }
}

/// Whether the repeat delay has elapsed between entering `HeldBuffer` at
/// `since` and the frame boundary at `now`.
pub open spec fn repeat_elapsed(since: u64, now: u64, delay: u64) -> bool {
    since <= now && now - since >= delay
}

/// How the frame boundary moves a key's state: the `Pressed` edge closes
/// into `HeldBuffer` (stamped with the boundary time), the `Released` edge
/// closes into `Idle`, and a `HeldBuffer` whose repeat delay has elapsed is
/// promoted to `Held`. `Held` and `Idle` are steady and untouched.
pub open spec fn step_frame(s: KeyState, now: u64, delay: u64) -> KeyState {
    match s {
        KeyState::Pressed => KeyState::HeldBuffer { since: now },
        KeyState::Released => KeyState::Idle,
        KeyState::HeldBuffer { since } => if repeat_elapsed(since, now, delay) {
            KeyState::Held
        } else {
            s
        },
        KeyState::Held => s,
        KeyState::Idle => s,
    }
}

/// The tracker: a mapping from key identifier to current logical state,
/// together with the configured repeat-delay threshold.
///
/// A key absent from the mapping behaves as `Idle` for every query. Entries
/// are created lazily on the first event for a key and never removed.
pub struct Input {
    key_state: Vec<(u32, KeyState)>,
    repeat_delay: u64,
}

impl Input {
    /// Each key identifier occurs at most once in the backing vector.
    pub closed spec fn wf(self) -> bool {
        forall|i: int, j: int|
            0 <= i < j < self.key_state@.len() ==> self.key_state@[i].0 != self.key_state@[j].0
    }

    /// The configured repeat-delay threshold.
    pub closed spec fn spec_repeat_delay(self) -> u64 {
        self.repeat_delay
    }

    /// Whether the tracker has an entry for `key`.
    pub closed spec fn tracks(self, key: u32) -> bool {
        exists|i: int| 0 <= i < self.key_state@.len() && self.key_state@[i].0 == key
    }

    /// The logical state of `key`: its entry if one exists, `Idle` otherwise.
    pub closed spec fn state_of(self, key: u32) -> KeyState {
        if self.tracks(key) {
            let i = choose|i: int| 0 <= i < self.key_state@.len() && self.key_state@[i].0 == key;
            self.key_state@[i].1
        } else {
            KeyState::Idle
        }
    }

    /// In a well-formed tracker the entry at any index gives the state of
    /// its key.
    proof fn lemma_state_at_index(self, i: int)
        requires
            self.wf(),
            0 <= i < self.key_state@.len(),
        ensures
            self.tracks(self.key_state@[i].0),
            self.state_of(self.key_state@[i].0) == self.key_state@[i].1,
    {
        let key = self.key_state@[i].0;
        assert(self.tracks(key));
        let j = choose|j: int| 0 <= j < self.key_state@.len() && self.key_state@[j].0 == key;
        if i < j {
            assert(self.key_state@[i].0 != self.key_state@[j].0);
        } else if j < i {
            assert(self.key_state@[j].0 != self.key_state@[i].0);
        }
    }

    /// Creates a tracker with no entries; every key reads as `Idle`.
    /// `repeat_delay` is the threshold, in the caller's time units, after
    /// which a sustained key-down is considered held.
    pub fn new(repeat_delay: u64) -> (r: Input)
        ensures
            r.wf(),
            r.spec_repeat_delay() == repeat_delay,
            forall|key: u32| r.state_of(key) == KeyState::Idle,
    {
        let r = Input { key_state: Vec::new(), repeat_delay };
        proof {
            assert(forall|key: u32| !r.tracks(key));
        }
        r
    }

    /// The index of `key`'s entry in the backing vector, if it has one.
    fn find(&self, key: u32) -> (r: Option<usize>)
        ensures
            match r {
                Some(i) => i < self.key_state@.len() && self.key_state@[i as int].0 == key,
                None => !self.tracks(key),
            },
    {
        let mut i: usize = 0;
        while i < self.key_state.len()
            invariant
                i <= self.key_state@.len(),
                forall|j: int| 0 <= j < i ==> self.key_state@[j].0 != key,
            decreases self.key_state@.len() - i,
        {
            if self.key_state[i].0 == key {
                return Some(i);
            }
            i = i + 1;
        }
        None
    }

    /// Replacing the entry at index `i` with a new state for the same key
    /// changes that key's logical state and no other's.
    proof fn lemma_update_entry(pre: Input, post: Input, i: int, next: KeyState)
        requires
            pre.wf(),
            0 <= i < pre.key_state@.len(),
            post.key_state@ == pre.key_state@.update(i, (pre.key_state@[i].0, next)),
        ensures
            post.wf(),
            post.state_of(pre.key_state@[i].0) == next,
            forall|k: u32| k != pre.key_state@[i].0 ==> post.state_of(k) == pre.state_of(k),
    {
        let key = pre.key_state@[i].0;
        assert(forall|idx: int|
            0 <= idx < post.key_state@.len() ==> post.key_state@[idx].0
                == pre.key_state@[idx].0);
        post.lemma_state_at_index(i);
        assert forall|k: u32| k != key implies post.state_of(k) == pre.state_of(k) by {
            if pre.tracks(k) {
                let j = choose|j: int|
                    0 <= j < pre.key_state@.len() && pre.key_state@[j].0 == k;
                pre.lemma_state_at_index(j);
                post.lemma_state_at_index(j);
            } else {
                assert(!post.tracks(k));
            }
        }
    }

    /// Appending an entry for a key the tracker does not yet hold gives that
    /// key the appended state and leaves every other key's state alone.
    proof fn lemma_push_entry(pre: Input, post: Input, key: u32, st: KeyState)
        requires
            pre.wf(),
            !pre.tracks(key),
            post.key_state@ == pre.key_state@.push((key, st)),
        ensures
            post.wf(),
            post.state_of(key) == st,
            forall|k: u32| k != key ==> post.state_of(k) == pre.state_of(k),
    {
        let n = pre.key_state@.len() as int;
        assert forall|i: int, j: int|
            0 <= i < j < post.key_state@.len() implies post.key_state@[i].0
            != post.key_state@[j].0 by {
            if j < n {
                assert(pre.key_state@[i].0 != pre.key_state@[j].0);
            } else {
                assert(post.key_state@[j].0 == key);
                assert(post.key_state@[i].0 == pre.key_state@[i].0);
            }
        }
        post.lemma_state_at_index(n);
        assert forall|k: u32| k != key implies post.state_of(k) == pre.state_of(k) by {
            if pre.tracks(k) {
                let j = choose|j: int|
                    0 <= j < pre.key_state@.len() && pre.key_state@[j].0 == k;
                pre.lemma_state_at_index(j);
                post.lemma_state_at_index(j);
            } else {
                if post.tracks(k) {
                    let j = choose|j: int|
                        0 <= j < post.key_state@.len() && post.key_state@[j].0 == k;
                    assert(j == n);
                }
            }
        }
    }

    /// True exactly when `key` is in its one-frame "just pressed" window.
    pub fn on_key_pressed(&self, key: u32) -> (r: bool)
        requires
            self.wf(),
        ensures
            r == (self.state_of(key) is Pressed),
    {
        match self.find(key) {
            Some(i) => {
                proof {
                    self.lemma_state_at_index(i as int);
                }
                matches!(self.key_state[i].1, KeyState::Pressed)
            },
            None => false,
        }
    }

    /// True exactly when `key` has been down past the repeat delay.
    pub fn on_key_held(&self, key: u32) -> (r: bool)
        requires
            self.wf(),
        ensures
            r == (self.state_of(key) is Held),
    {
        match self.find(key) {
            Some(i) => {
                proof {
                    self.lemma_state_at_index(i as int);
                }
                matches!(self.key_state[i].1, KeyState::Held)
            },
            None => false,
        }
    }

    /// True exactly when `key` is in its one-frame "just released" window.
    pub fn on_key_released(&self, key: u32) -> (r: bool)
        requires
            self.wf(),
        ensures
            r == (self.state_of(key) is Released),
    {
        match self.find(key) {
            Some(i) => {
                proof {
                    self.lemma_state_at_index(i as int);
                }
                matches!(self.key_state[i].1, KeyState::Released)
            },
            None => false,
        }
    }

    /// Reports whether a raw event alone proves the key to be down.
    ///
    /// It never does: a raw transition carries no history, and whether a key
    /// counts as down is a property of the tracked state, answered by the
    /// per-key queries.
    pub fn get_key_down(event: RawKeyEvent) -> (r: bool)
        ensures
            !r,
    {
        false
    }

    /// Ingests one raw key transition, delivered at time `now`.
    ///
    /// The named key moves exactly one step of the event state machine; every
    /// other key is untouched. An event whose key the platform could not
    /// resolve is ignored. An `Up` for a key that is not down (a protocol
    /// violation by the event source) leaves the state unchanged rather than
    /// failing.
    pub fn process_key_event(&mut self, event: RawKeyEvent, now: u64)
        requires
            old(self).wf(),
        ensures
            final(self).wf(),
            final(self).spec_repeat_delay() == old(self).spec_repeat_delay(),
            event.key matches Some(k) ==> final(self).state_of(k) == step_event(
                old(self).state_of(k),
                event.polarity,
                now,
            ) && (forall|k2: u32|
                k2 != k ==> final(self).state_of(k2) == old(self).state_of(k2)),
            event.key is None ==> *final(self) == *old(self),
    {
        let key = match event.key {
            Some(k) => k,
            None => {
                return;
            },
        };
        let ghost pre = *self;
        match self.find(key) {
            Some(i) => {
                proof {
                    pre.lemma_state_at_index(i as int);
                }
                let next = apply_event(self.key_state[i].1, event.polarity, now);
                self.key_state[i] = (key, next);
                proof {
                    Input::lemma_update_entry(pre, *self, i as int, next);
                }
            },
            None => {
                let next = apply_event(KeyState::Idle, event.polarity, now);
                self.key_state.push((key, next));
                proof {
                    Input::lemma_push_entry(pre, *self, key, next);
                }
            },
        }
    }

    /// Performs the once-per-frame bookkeeping at boundary time `now`.
    ///
    /// Every key moves one step of the frame state machine: the one-frame
    /// `Pressed` and `Released` edges close, and a buffered key whose repeat
    /// delay has elapsed is promoted to `Held`. Keys the tracker has never
    /// seen are `Idle` and stay `Idle`.
    pub fn end_of_frame_clean(&mut self, now: u64)
        requires
            old(self).wf(),
        ensures
            final(self).wf(),
            final(self).spec_repeat_delay() == old(self).spec_repeat_delay(),
            forall|k: u32|
                final(self).state_of(k) == step_frame(
                    old(self).state_of(k),
                    now,
                    old(self).spec_repeat_delay(),
                ),
    {
        let ghost pre = *self;
        let delay = self.repeat_delay;
        let n = self.key_state.len();
        let mut i: usize = 0;
        while i < n
            invariant
                n == self.key_state@.len(),
                i <= n,
                self.repeat_delay == pre.repeat_delay,
                n == pre.key_state@.len(),
                forall|j: int|
                    0 <= j < n ==> self.key_state@[j].0 == pre.key_state@[j].0,
                forall|j: int|
                    0 <= j < i ==> self.key_state@[j].1 == step_frame(
                        pre.key_state@[j].1,
                        now,
                        pre.repeat_delay,
                    ),
                forall|j: int| i <= j < n ==> self.key_state@[j].1 == pre.key_state@[j].1,
                delay == pre.repeat_delay,
            decreases n - i,
        {
            let entry = self.key_state[i];
            let next = apply_frame(entry.1, now, delay);
            self.key_state[i] = (entry.0, next);
            i = i + 1;
        }
        proof {
            assert(self.wf());
            assert forall|k: u32|
                self.state_of(k) == step_frame(pre.state_of(k), now, pre.repeat_delay) by {
                if pre.tracks(k) {
                    let j = choose|j: int|
                        0 <= j < pre.key_state@.len() && pre.key_state@[j].0 == k;
                    pre.lemma_state_at_index(j);
                    self.lemma_state_at_index(j);
                } else {
                    assert(!self.tracks(k));
                }
            }
        }
    }
}

/// A key whose state is `Idle` — as every key the tracker has never seen is,
/// by the contract of `Input::new` — satisfies none of the three query
/// states: it is neither just pressed, nor held, nor just released.
pub proof fn lemma_idle_key_reports_nothing(t: Input, key: u32)
    requires
        t.state_of(key) is Idle,
    ensures
        !(t.state_of(key) is Pressed),
        !(t.state_of(key) is Held),
        !(t.state_of(key) is Released),
{
}

/// The frame boundary leaves an `Idle` key `Idle`: a key that is never
/// ingested stays invisible to the queries, frame after frame.
pub proof fn lemma_frame_preserves_idle(now: u64, delay: u64)
    ensures
        step_frame(KeyState::Idle, now, delay) == KeyState::Idle,
{
}

/// Duplicate `Down` events are absorbed: from `HeldBuffer` or `Held`, a
/// `Down` changes nothing — so any run of repeated `Down`s with no
/// intervening `Up` changes nothing — and in particular never re-opens the
/// one-frame `Pressed` edge.
pub proof fn lemma_duplicate_down_absorbed(s: KeyState, now: u64)
    requires
        s is HeldBuffer || s is Held,
    ensures
        step_event(s, KeyPolarity::Down, now) == s,
        !(step_event(s, KeyPolarity::Down, now) is Pressed),
{
}

/// Round trip: press, frame boundary, release, frame boundary returns a key
/// to `Idle` — identical to the default state of a key never ingested —
/// whatever the event and boundary times and whatever the configured delay.
pub proof fn lemma_round_trip(t1: u64, t2: u64, t3: u64, t4: u64, delay: u64)
    ensures
        step_frame(
            step_event(
                step_frame(step_event(KeyState::Idle, KeyPolarity::Down, t1), t2, delay),
                KeyPolarity::Up,
                t3,
            ),
            t4,
            delay,
        ) == KeyState::Idle,
{
}

/// An `Up` for a key that is not down — `Idle`, as a fresh key is, or
/// already `Released` — is a protocol violation by the event source; it
/// leaves the state exactly as it was, and raises no error.
pub proof fn lemma_invalid_up_ignored(s: KeyState, now: u64)
    requires
        s is Idle || s is Released,
    ensures
        step_event(s, KeyPolarity::Up, now) == s,
{
}

/// Computes one step of the event state machine.
fn apply_event(s: KeyState, polarity: KeyPolarity, now: u64) -> (r: KeyState)
    ensures
        r == step_event(s, polarity, now),
{
    match polarity {
        KeyPolarity::Down => match s {
            KeyState::Idle => KeyState::Pressed,
            KeyState::Released => KeyState::Pressed,
            KeyState::Pressed => KeyState::HeldBuffer { since: now },
            KeyState::HeldBuffer { .. } => s,
            KeyState::Held => s,
        },
        KeyPolarity::Up => match s {
            KeyState::Pressed => KeyState::Released,
            KeyState::HeldBuffer { .. } => KeyState::Released,
            KeyState::Held => KeyState::Released,
            KeyState::Idle => s,
            KeyState::Released => s,
        },
    }
}

/// Computes one step of the frame state machine.
fn apply_frame(s: KeyState, now: u64, delay: u64) -> (r: KeyState)
    ensures
        r == step_frame(s, now, delay),
{
    match s {
        KeyState::Pressed => KeyState::HeldBuffer { since: now },
        KeyState::Released => KeyState::Idle,
        KeyState::HeldBuffer { since } => if since <= now && now - since >= delay {
            KeyState::Held
        } else {
            s
        },
        KeyState::Held => s,
        KeyState::Idle => s,
    }
}

} // verus!
