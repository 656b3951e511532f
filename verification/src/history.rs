//! Histories of the topic registry: what a subscriber has been handed and
//! what it still holds after any run of operations, whoever made them and
//! in whatever order.

use crate::topics::{SubscriberId, TopicsState};
use vstd::prelude::*;

verus! {

/// One operation on the topic registry.
pub enum TopicOp {
    Advertise { name: Seq<char>, payload_type: Seq<char> },
    Subscribe { name: Seq<char>, payload_type: Seq<char> },
    Publish { topic: int, message: Seq<u8> },
    TakeNext { id: SubscriberId },
    Unsubscribe { id: SubscriberId },
    Shutdown,
}

/// The messages that `ops` publish on `topic`, in order.
pub open spec fn published(ops: Seq<TopicOp>, topic: int) -> Seq<Seq<u8>>
    decreases ops.len(),
{
    if ops.len() == 0 {
        Seq::empty()
    } else {
        let before = published(ops.drop_last(), topic);
        match ops.last() {
            TopicOp::Publish { topic: t, message } => if t == topic {
                before.push(message)
            } else {
                before
            },
            _ => before,
        }
    }
}

/// Whether `ops` neither end the subscription `id` nor shut the broker
/// down.
pub open spec fn keeps(ops: Seq<TopicOp>, id: SubscriberId) -> bool {
    forall|k: int|
        0 <= k < ops.len() ==> match #[trigger] ops[k] {
            TopicOp::Shutdown => false,
            TopicOp::Unsubscribe { id: gone } => gone != id,
            _ => true,
        }
}

impl TopicsState {
    /// The registry after `op`.
    pub open spec fn step(self, op: TopicOp) -> TopicsState {
        match op {
            TopicOp::Advertise { name, payload_type } => self.advertise(name, payload_type),
            TopicOp::Subscribe { name, payload_type } => self.subscribe(name, payload_type),
            TopicOp::Publish { topic, message } => self.publish(topic, message),
            TopicOp::TakeNext { id } => self.take_next(id),
            TopicOp::Unsubscribe { id } => self.unsubscribe(id),
            TopicOp::Shutdown => self.shutdown(),
        }
    }

    /// The registry after each of `ops`, in order.
    pub open spec fn run(self, ops: Seq<TopicOp>) -> TopicsState
        decreases ops.len(),
    {
        if ops.len() == 0 {
            self
        } else {
            self.run(ops.drop_last()).step(ops.last())
        }
    }

    /// The messages that subscriber `id` is handed while `ops` run from this
    /// state, in the order in which it is handed them.
    pub open spec fn received(self, ops: Seq<TopicOp>, id: SubscriberId) -> Seq<Seq<u8>>
        decreases ops.len(),
    {
        if ops.len() == 0 {
            Seq::empty()
        } else {
            let before = self.received(ops.drop_last(), id);
            match ops.last() {
                TopicOp::TakeNext { id: taker } => if taker == id {
                    match self.run(ops.drop_last()).next_result(id) {
                        Ok(Some(message)) => before.push(message),
                        _ => before,
                    }
                } else {
                    before
                },
                _ => before,
            }
        }
    }

    /// One operation that is neither the shutdown nor the end of
    /// subscription `id` leaves the subscription in place; it changes the
    /// subscriber's queue only by appending what is published on its topic
    /// or by handing its oldest message to the subscriber itself.
    pub proof fn lemma_step(self, op: TopicOp, id: SubscriberId)
        requires
            self.wf(),
            !self.closed,
            self.is_subscriber(id),
            !(op is Shutdown),
            op matches TopicOp::Unsubscribe { id: gone } ==> gone != id,
        ensures
            self.step(op).wf(),
            !self.step(op).closed,
            self.step(op).is_subscriber(id),
            self.step(op).queue(id) == match op {
                TopicOp::Publish { topic, message } => if topic == id.topic {
                    self.queue(id).push(message)
                } else {
                    self.queue(id)
                },
                TopicOp::TakeNext { id: taker } => if taker == id && self.queue(id).len() > 0 {
                    self.queue(id).drop_first()
                } else {
                    self.queue(id)
                },
                _ => self.queue(id),
            },
    {
        match op {
            TopicOp::Advertise { name, payload_type } => {
                self.lemma_advertise(name, payload_type);
            },
            TopicOp::Subscribe { name, payload_type } => {
                if self.accepts(name, payload_type) {
                    self.lemma_subscribe(name, payload_type);
                }
            },
            TopicOp::Publish { topic, message } => {
                self.lemma_publish(topic, message, id);
                self.lemma_same_topics(self.publish(topic, message), Seq::empty());
            },
            TopicOp::TakeNext { id: taker } => {
                assert(self.same_topics(self.take_next(taker)));
                self.lemma_same_topics(self.take_next(taker), Seq::empty());
                if taker == id {
                    self.lemma_take_next(id);
                }
            },
            TopicOp::Unsubscribe { id: gone } => {
                assert(self.same_topics(self.unsubscribe(gone)));
                self.lemma_same_topics(self.unsubscribe(gone), Seq::empty());
            },
            TopicOp::Shutdown => {},
        }
    }

    /// Nothing lost, nothing twice, nothing out of order. Take any run of
    /// operations, by any publishers and subscribers, that neither shuts the
    /// broker down nor ends subscription `id`. What the subscriber has been
    /// handed during the run, followed by what it still holds, is what it
    /// held at the start followed by what was published on its topic during
    /// the run.
    pub proof fn lemma_history(self, ops: Seq<TopicOp>, id: SubscriberId)
        requires
            self.wf(),
            !self.closed,
            self.is_subscriber(id),
            keeps(ops, id),
        ensures
            self.run(ops).wf(),
            !self.run(ops).closed,
            self.run(ops).is_subscriber(id),
            self.received(ops, id) + self.run(ops).queue(id) == self.queue(id) + published(
                ops,
                id.topic,
            ),
        decreases ops.len(),
    {
        if ops.len() == 0 {
            assert(self.received(ops, id) + self.queue(id) =~= self.queue(id));
            assert(self.queue(id) + published(ops, id.topic) =~= self.queue(id));
        } else {
            let front = ops.drop_last();
            let op = ops.last();
            let before = self.run(front);
            assert(keeps(front, id)) by {
                assert forall|k: int| 0 <= k < front.len() implies match #[trigger] front[k] {
                    TopicOp::Shutdown => false,
                    TopicOp::Unsubscribe { id: gone } => gone != id,
                    _ => true,
                } by {
                    assert(front[k] == ops[k]);
                }
            }
            assert(ops[ops.len() - 1] == op);
            self.lemma_history(front, id);
            before.lemma_step(op, id);
            let had = self.received(front, id);
            let held = before.queue(id);
            let start = self.queue(id);
            let sent = published(front, id.topic);
            assert(had + held == start + sent);
            match op {
                TopicOp::Publish { topic, message } => {
                    if topic == id.topic {
                        assert(had + held.push(message) =~= (had + held).push(message));
                        assert(start + sent.push(message) =~= (start + sent).push(message));
                    }
                },
                TopicOp::TakeNext { id: taker } => {
                    if taker == id && held.len() > 0 {
                        assert(had.push(held[0]) + held.drop_first() =~= had + held);
                    }
                },
                _ => {},
            }
        }
    }
}

} // verus!
