//! Single-slot, latest-value-wins broadcast channels.
//!
//! Each channel holds at most one value: publishing overwrites it and bumps
//! a revision counter, and every consumer carries a cursor recording the
//! last revision it observed. A consumer that polls rarely skips
//! intermediate values and only ever sees the latest one; the revision
//! counter is the sole mechanism by which "has this changed since I last
//! looked" is decided. Waiting is modeled by polling: an operation that
//! would suspend returns `None`, and the caller retries after the next
//! publish.

use vstd::prelude::*;

use crate::expression::Expression;

verus! {

/// What a channel is mathematically: the latest value if one was ever
/// published, the revision counter, one cursor per attached consumer, and
/// the fixed consumer capacity.
#[verifier::ext_equal]
pub struct ChannelModel<T> {
    pub value: Option<T>,
    pub revision: nat,
    pub cursors: Seq<nat>,
    pub capacity: nat,
}

impl<T> ChannelModel<T> {
    /// A value exists exactly after the first publish, every cursor is at
    /// or behind the revision counter, and the consumer list is within
    /// capacity. The counter and cursors stay machine-representable.
    pub open spec fn wf(self) -> bool {
        &&& self.value is Some <==> self.revision > 0
        &&& forall|i: int| 0 <= i < self.cursors.len() ==> #[trigger] self.cursors[i] <= self.revision
        &&& self.cursors.len() <= self.capacity
        &&& self.revision <= u64::MAX
    }

    /// The channel after a publish: the new value replaces the old
    /// unconditionally and the revision advances. The counter saturates at
    /// the machine limit rather than wrapping, so it never decreases.
    pub open spec fn published(self, v: T) -> ChannelModel<T> {
        ChannelModel {
            value: Some(v),
            revision: if self.revision < u64::MAX {
                self.revision + 1
            } else {
                self.revision
            },
            ..self
        }
    }

    /// The channel after one consumer attaches: its cursor starts at zero,
    /// so an already-published value counts as unseen.
    pub open spec fn attached(self) -> ChannelModel<T> {
        ChannelModel { cursors: self.cursors.push(0), ..self }
    }

    /// The channel and answer after consumer `id` polls for a change: the
    /// latest value, and the cursor caught up, when the revision has moved
    /// past the cursor; nothing otherwise.
    pub open spec fn polled(self, id: int) -> (ChannelModel<T>, Option<T>) {
        if 0 <= id < self.cursors.len() && self.cursors[id] < self.revision {
            (ChannelModel { cursors: self.cursors.update(id, self.revision), ..self }, self.value)
        } else {
            (self, None::<T>)
        }
    }
}

/// A single-slot broadcast channel for values of type `T`, fanning the
/// latest value out to a bounded number of consumers.
pub struct StateChannel<T> {
    value: Option<T>,
    revision: u64,
    cursors: Vec<u64>,
    capacity: usize,
}

impl<T> View for StateChannel<T> {
    type V = ChannelModel<T>;

    closed spec fn view(&self) -> ChannelModel<T> {
        ChannelModel {
            value: self.value,
            revision: self.revision as nat,
            cursors: self.cursors@.map_values(|c: u64| c as nat),
            capacity: self.capacity as nat,
        }
    }
}

impl<T: Copy> StateChannel<T> {
    /// A channel with no value yet and room for `capacity` consumers.
    pub fn new(capacity: usize) -> (r: Self)
        ensures
            r@.wf(),
            r@.value is None,
            r@.revision == 0,
            r@.cursors == Seq::<nat>::empty(),
            r@.capacity == capacity,
    {
        let r = StateChannel { value: None, revision: 0, cursors: Vec::new(), capacity };
        proof {
            assert(r@.cursors =~= Seq::<nat>::empty());
        }
        r
    }

    /// Registers one more consumer and hands back its identifier; refused
    /// when the channel's fixed capacity is already reached, which the
    /// caller must treat as a wiring error at startup.
    pub fn attach(&mut self) -> (r: Option<usize>)
        requires
            old(self)@.wf(),
        ensures
            final(self)@.wf(),
            old(self)@.cursors.len() < old(self)@.capacity ==> {
                &&& r matches Some(id) && id == old(self)@.cursors.len()
                &&& final(self)@ == old(self)@.attached()
            },
            old(self)@.cursors.len() >= old(self)@.capacity ==> r is None && final(self)@ == old(
                self,
            )@,
    {
        if self.cursors.len() < self.capacity {
            let id = self.cursors.len();
            self.cursors.push(0);
            proof {
                assert(self@.cursors =~= old(self)@.cursors.push(0nat));
                assert(self@ =~= old(self)@.attached());
            }
            Some(id)
        } else {
            None
        }
    }

    /// Overwrites the channel's value, advances the revision, and thereby
    /// marks the value unseen for every consumer whose cursor has not
    /// moved; last write wins.
    pub fn publish(&mut self, v: T)
        requires
            old(self)@.wf(),
        ensures
            final(self)@.wf(),
            final(self)@ == old(self)@.published(v),
    {
        self.value = Some(v);
        if self.revision < u64::MAX {
            self.revision = self.revision + 1;
        }
        proof {
            assert(self@ =~= old(self)@.published(v));
        }
    }

    /// The latest value, if one was ever published; `None` means a caller
    /// wanting a value must suspend until the first publish.
    pub fn try_current(&self) -> (r: Option<T>)
        ensures
            r == self@.value,
    {
        match self.value {
            Some(v) => Some(v),
            None => None,
        }
    }

    /// One poll by consumer `id`: the latest value when the channel changed
    /// since this consumer last looked, advancing its cursor; `None` means
    /// the consumer must suspend until the next publish.
    pub fn poll_change(&mut self, id: usize) -> (r: Option<T>)
        requires
            old(self)@.wf(),
            id < old(self)@.cursors.len(),
        ensures
            final(self)@.wf(),
            final(self)@ == old(self)@.polled(id as int).0,
            r == old(self)@.polled(id as int).1,
    {
        if self.cursors[id] < self.revision {
            let rev = self.revision;
            self.cursors[id] = rev;
            proof {
                assert(self@.cursors =~= old(self)@.cursors.update(
                    id as int,
                    old(self)@.revision,
                ));
                assert(self@ =~= old(self)@.polled(id as int).0);
            }
            match self.value {
                Some(v) => Some(v),
                None => {
                    proof {
                        assert(false);
                    }
                    None
                },
            }
        } else {
            None
        }
    }
}

/// A channel that has never been published to and has no consumers yet.
pub open spec fn spec_channel_fresh<T>(m: ChannelModel<T>, capacity: nat) -> bool {
    &&& m.value is None
    &&& m.revision == 0
    &&& m.cursors == Seq::<nat>::empty()
    &&& m.capacity == capacity
}

/// Broadcast coalescing. After v1, v2 and v3 are published in sequence, the
/// channel's current value is exactly v3. A consumer that observed v1 and
/// then polls for a change wakes exactly once and receives v3: the first
/// poll after the later publishes yields v3, a second poll yields nothing,
/// and v2 is never observable.
pub proof fn lemma_broadcast_coalescing<T>(ch: ChannelModel<T>, id: int, v1: T, v2: T, v3: T)
    requires
        ch.wf(),
        0 <= id < ch.cursors.len(),
        ch.revision + 3 <= u64::MAX,
    ensures
        ch.published(v1).published(v2).published(v3).value == Some(v3),
        ({
            let a = ch.published(v1);
            let r1 = a.polled(id);
            let b = r1.0.published(v2).published(v3);
            let r3 = b.polled(id);
            let again = r3.1;
            &&& r1.1 == Some(v1)
            &&& r3.1 == Some(v3)
            &&& r3.0.polled(id).1 is None
        }),
{
    let a = ch.published(v1);
    let r1 = a.polled(id);
    assert(a.cursors[id] < a.revision);
    assert(r1.1 == Some(v1));
    let b = r1.0.published(v2).published(v3);
    assert(b.cursors[id] == a.revision);
    assert(b.revision == a.revision + 2);
    let r3 = b.polled(id);
    assert(r3.1 == Some(v3));
    assert(r3.0.cursors[id] == b.revision);
    assert(r3.0.polled(id).1 is None);
}

/// Revision counters never decrease: publishing advances the counter (up
/// to its saturation point), and attaching or polling leaves it alone, so
/// a cursor comparison is a sound "has this changed" test.
pub proof fn lemma_revision_monotone<T>(m: ChannelModel<T>, v: T, id: int)
    ensures
        m.published(v).revision >= m.revision,
        m.polled(id).0.revision == m.revision,
        m.attached().revision == m.revision,
{
}

/// The process-wide set of broadcast channels: one per piece of shared
/// mutable state, created once at startup and shared by reference among all
/// tasks.
pub struct Comms {
    pub default_expression: StateChannel<Expression>,
    pub blink_expression: StateChannel<Expression>,
    pub friend_expression: StateChannel<Expression>,
    pub friend_blink_expression: StateChannel<Expression>,
    pub adc_val: StateChannel<u16>,
    pub brightness_val: StateChannel<u8>,
}

impl Comms {
    /// Every channel is in a well-formed state.
    pub open spec fn wf(self) -> bool {
        &&& self.default_expression@.wf()
        &&& self.blink_expression@.wf()
        &&& self.friend_expression@.wf()
        &&& self.friend_blink_expression@.wf()
        &&& self.adc_val@.wf()
        &&& self.brightness_val@.wf()
    }

    /// All channels fresh: one consumer slot per render concern, two for
    /// the sensor value.
    pub fn new() -> (r: Comms)
        ensures
            r.wf(),
            spec_channel_fresh(r.default_expression@, 1),
            spec_channel_fresh(r.blink_expression@, 1),
            spec_channel_fresh(r.friend_expression@, 1),
            spec_channel_fresh(r.friend_blink_expression@, 1),
            spec_channel_fresh(r.adc_val@, 2),
            spec_channel_fresh(r.brightness_val@, 1),
    {
        Comms {
            default_expression: StateChannel::new(1),
            blink_expression: StateChannel::new(1),
            friend_expression: StateChannel::new(1),
            friend_blink_expression: StateChannel::new(1),
            adc_val: StateChannel::new(2),
            brightness_val: StateChannel::new(1),
        }
    }
}

} // verus!
