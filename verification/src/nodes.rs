//! The decisions of a periodic counter node, apart from the waiting and the
//! sending that surround them.
//!
//! The node publishes 0, 1, 2, ... on one topic, one number at each tick of
//! a one-second interval whose first tick is due at once. Here it is a state
//! and a step: a tick comes in, the payload to publish and the instant of
//! the next tick come out. Whoever runs the node waits for the instant and
//! publishes the payload.

use crate::clock::{Interval, NANOS_PER_SEC};
use crate::handle::ClientHandle;
use vstd::prelude::*;

verus! {

/// The topic of the counter.
pub const COUNTER_TOPIC: &'static str = "example_counter";

/// The payload type of the counter topic.
pub const COUNTER_PAYLOAD: &'static str = "std_msgs/Int16";

/// The time between two numbers.
pub const COUNTER_PERIOD: u64 = NANOS_PER_SEC;

/// The number between 0 and 65535 that stands for a 16-bit integer in two's
/// complement.
pub open spec fn int16_unsigned(value: i16) -> int {
    if value < 0 {
        value + 65536
    } else {
        value as int
    }
}

/// The two bytes of a 16-bit integer, low byte first.
pub open spec fn int16_bytes(value: i16) -> Seq<u8> {
    seq![(int16_unsigned(value) % 256) as u8, (int16_unsigned(value) / 256) as u8]
}

/// The 16-bit integer that two bytes stand for, low byte first.
pub open spec fn int16_value(bytes: Seq<u8>) -> i16 {
    let unsigned = bytes[0] + 256 * bytes[1];
    if unsigned >= 32768 {
        (unsigned - 65536) as i16
    } else {
        unsigned as i16
    }
}

/// Decoding gives back what was encoded.
pub proof fn lemma_int16_round_trip(value: i16)
    ensures
        int16_bytes(value).len() == 2,
        int16_value(int16_bytes(value)) == value,
{
}

/// Encodes a 16-bit integer as a payload.
pub fn encode_int16(value: i16) -> (r: Vec<u8>)
    ensures
        r@ == int16_bytes(value),
{
    let u = value as u16;
    assert(u == int16_unsigned(value)) by {
        assert(value < 0 ==> (value as u16) as i32 == (value as i32) + 65536i32) by (bit_vector);
        assert(value >= 0 ==> (value as u16) as i32 == (value as i32)) by (bit_vector);
    }
    let mut r: Vec<u8> = Vec::new();
    r.push((u % 256) as u8);
    r.push((u / 256) as u8);
    assert(r@ =~= int16_bytes(value));
    r
}

/// Decodes a payload of exactly two bytes.
pub fn decode_int16(bytes: &Vec<u8>) -> (r: Option<i16>)
    ensures
        r == if bytes@.len() == 2 {
            Some(int16_value(bytes@))
        } else {
            None
        },
{
    if bytes.len() == 2 {
        let u: u16 = bytes[0] as u16 + 256 * (bytes[1] as u16);
        assert(u >= 32768 ==> (u as i16) as i32 == (u as i32) - 65536i32) by (bit_vector);
        assert(u < 32768 ==> (u as i16) as i32 == (u as i32)) by (bit_vector);
        Some(u as i16)
    } else {
        None
    }
}

/// The counter node between two ticks.
pub struct Counter {
    value: i16,
    interval: Interval,
}

impl Counter {
    /// The interval is the counter's own: its period is the counter period.
    #[verifier::type_invariant]
    spec fn periodic(self) -> bool {
        self.interval.period() == COUNTER_PERIOD
    }

    /// The number that the next tick publishes.
    pub closed spec fn spec_value(&self) -> i16 {
        self.value
    }

    /// The instant of the next tick.
    pub closed spec fn spec_next_wake(&self) -> u64 {
        self.interval.next_tick()
    }

    /// A node that starts at `start`: its first tick is due then, and
    /// publishes 0.
    pub fn new(start: u64) -> (r: Counter)
        ensures
            r.spec_value() == 0,
            r.spec_next_wake() == start,
    {
        Counter { value: 0, interval: Interval::new(start, COUNTER_PERIOD) }
    }

    /// The number that the next tick publishes.
    #[verifier::when_used_as_spec(spec_value)]
    pub fn value(&self) -> (r: i16)
        ensures
            r == self.spec_value(),
    {
        self.value
    }

    /// The instant until which the node waits.
    #[verifier::when_used_as_spec(spec_next_wake)]
    pub fn next_wake(&self) -> (r: u64)
        ensures
            r == self.spec_next_wake(),
    {
        self.interval.next_tick()
    }

    /// Whether the node can take another tick: the counter and the time of
    /// the tick after it are still in range.
    pub open spec fn can_tick(&self) -> bool {
        self.value() < i16::MAX && self.next_wake() + COUNTER_PERIOD <= u64::MAX
    }

    /// Whether the node can take another tick.
    pub fn check_can_tick(&self) -> (r: bool)
        ensures
            r == self.can_tick(),
    {
        self.value < i16::MAX && self.interval.next_tick() <= u64::MAX - COUNTER_PERIOD
    }

    /// The tick: returns the payload to publish now, and leaves the node
    /// waiting for the next tick, one period after this one, with the next
    /// number.
    pub fn on_tick(&mut self) -> (payload: Vec<u8>)
        requires
            old(self).can_tick(),
        ensures
            payload@ == int16_bytes(old(self).value()),
            final(self).value() == old(self).value() + 1,
            final(self).next_wake() == old(self).next_wake() + COUNTER_PERIOD,
    {
        proof {
            use_type_invariant(&*self);
        }
        let payload = encode_int16(self.value);
        self.interval.tick();
        self.value = self.value + 1;
        payload
    }

    /// The tick on a broker: publishes the number that is due through
    /// `publisher` and leaves the node waiting for the next tick.
    pub fn publish_tick<R: ClientHandle>(&mut self, ros: &mut R, publisher: &R::Publisher)
        requires
            old(self).can_tick(),
            old(ros).state().wf(),
            old(ros).state().topics.is_topic(publisher@),
        ensures
            final(self).value() == old(self).value() + 1,
            final(self).next_wake() == old(self).next_wake() + COUNTER_PERIOD,
            final(ros).state().wf(),
            final(ros).state() == old(ros).state().with_topics(
                old(ros).state().topics.publish(publisher@, int16_bytes(old(self).value())),
            ),
    {
        let payload = self.on_tick();
        ros.publish(publisher, &payload);
    }
}

} // verus!
