//! A link: the bounded queue between one output port and one input port.
//!
//! Messages leave in the order in which they were accepted. A link never
//! holds more than its capacity: when it is full, a sender either gets its
//! message back and has to wait ([`Policy::Block`]), or the oldest message
//! gives way ([`Policy::DropOldest`]). Once closed, a link accepts nothing;
//! what it still holds can be received, and after that it reports the end
//! of the stream.

use crate::error::FlowError;
use std::collections::VecDeque;
use vstd::prelude::*;

verus! {

/// The capacity of a link that is made without one.
pub const DEFAULT_CAPACITY: usize = 16;

/// What a full link does with a new message.
#[derive(Clone, Copy, Debug, PartialEq, Eq, Structural)]
pub enum Policy {
    /// The message is handed back; the sender waits for room.
    Block,
    /// The oldest message is dropped to make room.
    DropOldest,
}

/// What became of a message that was sent on an open link.
#[derive(Debug)]
pub enum Delivery<T> {
    /// The link took the message.
    Queued,
    /// The link took the message and dropped this one, its oldest.
    Displaced(T),
    /// The link is full: here is the message again.
    Full(T),
}

/// A link as specifications see it.
pub struct LinkView<T> {
    /// The messages that wait, oldest first.
    pub queue: Seq<T>,
    /// How many messages may wait.
    pub capacity: nat,
    /// What happens to a message sent when the link is full.
    pub policy: Policy,
    /// Whether the link was closed.
    pub closed: bool,
}

impl<T> LinkView<T> {
    /// An open link that holds nothing.
    pub open spec fn empty(capacity: nat, policy: Policy) -> Self {
        LinkView { queue: Seq::empty(), capacity, policy, closed: false }
    }

    /// The link after `message` was sent on it, and what the sender is told.
    pub open spec fn send(self, message: T) -> (Self, Result<Delivery<T>, FlowError>) {
        if self.closed {
            (self, Err(FlowError::PortDisconnected))
        } else if self.queue.len() < self.capacity {
            (LinkView { queue: self.queue.push(message), ..self }, Ok(Delivery::Queued))
        } else if self.policy == Policy::DropOldest && self.queue.len() > 0 {
            (
                LinkView { queue: self.queue.drop_first().push(message), ..self },
                Ok(Delivery::Displaced(self.queue.first())),
            )
        } else {
            (self, Ok(Delivery::Full(message)))
        }
    }

    /// The link after a receive, and what the receiver is given: the oldest
    /// message, nothing yet, or the end of the stream.
    pub open spec fn recv(self) -> (Self, Result<Option<T>, FlowError>) {
        if self.queue.len() > 0 {
            (LinkView { queue: self.queue.drop_first(), ..self }, Ok(Some(self.queue.first())))
        } else if self.closed {
            (self, Err(FlowError::EndOfStream))
        } else {
            (self, Ok(None))
        }
    }

    /// The link after it was closed.
    pub open spec fn close(self) -> Self {
        LinkView { closed: true, ..self }
    }
}

/// A bounded first-in first-out queue of messages between two ports.
#[derive(Debug)]
pub struct Link<T> {
    queue: VecDeque<T>,
    capacity: usize,
    policy: Policy,
    closed: bool,
}

impl<T> View for Link<T> {
    type V = LinkView<T>;

    closed spec fn view(&self) -> LinkView<T> {
        LinkView {
            queue: self.queue@,
            capacity: self.capacity as nat,
            policy: self.policy,
            closed: self.closed,
        }
    }
}

impl<T> Link<T> {
    #[verifier::type_invariant]
    spec fn bounded(&self) -> bool {
        0 < self.capacity && self.queue@.len() <= self.capacity
    }

    /// An open, empty link. Without a capacity it gets `DEFAULT_CAPACITY`;
    /// a capacity of zero is refused with `ConfigurationError`.
    pub fn new(capacity: Option<usize>, policy: Policy) -> (r: Result<Self, FlowError>)
        ensures
            match r {
                Ok(link) => capacity != Some(0usize) && link@ == LinkView::<T>::empty(
                    match capacity {
                        Some(c) => c as nat,
                        None => DEFAULT_CAPACITY as nat,
                    },
                    policy,
                ),
                Err(e) => capacity == Some(0usize) && e is ConfigurationError,
            },
    {
        let capacity = match capacity {
            Some(c) => c,
            None => DEFAULT_CAPACITY,
        };
        if capacity == 0 {
            return Err(FlowError::ConfigurationError);
        }
        Ok(Link { queue: VecDeque::new(), capacity, policy, closed: false })
    }

    /// How many messages wait.
    pub fn len(&self) -> (r: usize)
        ensures
            r == self@.queue.len(),
            0 < self@.capacity,
            r <= self@.capacity,
    {
        proof {
            use_type_invariant(self);
        }
        self.queue.len()
    }

    /// How many messages may wait.
    pub fn capacity(&self) -> (r: usize)
        ensures
            r == self@.capacity,
    {
        self.capacity
    }

    /// Whether the link was closed.
    pub fn is_closed(&self) -> (r: bool)
        ensures
            r == self@.closed,
    {
        self.closed
    }

    /// Sends `message`. A closed link answers `PortDisconnected`. A link
    /// with room takes the message. A full link hands it back or drops its
    /// oldest message for it, as its policy says.
    pub fn send(&mut self, message: T) -> (r: Result<Delivery<T>, FlowError>)
        ensures
            (final(self)@, r) == old(self)@.send(message),
    {
        proof {
            use_type_invariant(&*self);
        }
        if self.closed {
            return Err(FlowError::PortDisconnected);
        }
        if self.queue.len() >= self.capacity {
            match self.policy {
                Policy::Block => {
                    return Ok(Delivery::Full(message));
                },
                Policy::DropOldest => {},
            }
        }
        let mut queue: VecDeque<T> = VecDeque::new();
        std::mem::swap(&mut self.queue, &mut queue);
        let displaced = if queue.len() >= self.capacity {
            queue.pop_front()
        } else {
            None
        };
        queue.push_back(message);
        self.queue = queue;
        proof {
            assert(old(self)@.queue.drop_first() =~= old(self)@.queue.subrange(
                1,
                old(self)@.queue.len() as int,
            ));
        }
        match displaced {
            Some(oldest) => Ok(Delivery::Displaced(oldest)),
            None => Ok(Delivery::Queued),
        }
    }

    /// Receives the oldest message. An empty link gives `None` while it is
    /// open and `EndOfStream` once it is closed.
    pub fn recv(&mut self) -> (r: Result<Option<T>, FlowError>)
        ensures
            (final(self)@, r) == old(self)@.recv(),
    {
        proof {
            use_type_invariant(&*self);
        }
        let mut queue: VecDeque<T> = VecDeque::new();
        std::mem::swap(&mut self.queue, &mut queue);
        let head = queue.pop_front();
        self.queue = queue;
        proof {
            assert(old(self)@.queue.drop_first() =~= old(self)@.queue.subrange(
                1,
                old(self)@.queue.len() as int,
            ));
            assert(self@.queue =~= old(self)@.recv().0.queue);
        }
        match head {
            Some(message) => Ok(Some(message)),
            None => {
                if self.closed {
                    Err(FlowError::EndOfStream)
                } else {
                    Ok(None)
                }
            },
        }
    }

    /// Closes the link. What it holds can still be received.
    pub fn close(&mut self)
        ensures
            final(self)@ == old(self)@.close(),
    {
        proof {
            use_type_invariant(&*self);
        }
        self.closed = true;
    }
}

/// One use of a link.
pub enum LinkOp<T> {
    /// A message is sent.
    Send(T),
    /// The receiver asks for a message.
    Recv,
    /// The link is closed.
    Close,
}

/// What happened on a link over a sequence of uses.
pub struct History<T> {
    /// The link as it stands.
    pub link: LinkView<T>,
    /// The messages that the link took, in the order of their sending.
    pub accepted: Seq<T>,
    /// The messages that the receiver was given, in the order of receipt.
    pub delivered: Seq<T>,
    /// For each delivered message, its place in `accepted`.
    pub delivered_at: Seq<int>,
    /// For each message that waits, its place in `accepted`.
    pub waiting_at: Seq<int>,
}

impl<T> History<T> {
    /// The history of a new link.
    pub open spec fn start(capacity: nat, policy: Policy) -> Self {
        History {
            link: LinkView::empty(capacity, policy),
            accepted: Seq::empty(),
            delivered: Seq::empty(),
            delivered_at: Seq::empty(),
            waiting_at: Seq::empty(),
        }
    }

    /// The history after one more use of the link.
    pub open spec fn step(self, op: LinkOp<T>) -> Self {
        match op {
            LinkOp::Send(message) => {
                let (link, outcome) = self.link.send(message);
                match outcome {
                    Ok(Delivery::Queued) => History {
                        link,
                        accepted: self.accepted.push(message),
                        waiting_at: self.waiting_at.push(self.accepted.len() as int),
                        ..self
                    },
                    Ok(Delivery::Displaced(_)) => History {
                        link,
                        accepted: self.accepted.push(message),
                        waiting_at: self.waiting_at.drop_first().push(self.accepted.len() as int),
                        ..self
                    },
                    _ => History { link, ..self },
                }
            },
            LinkOp::Recv => {
                let (link, outcome) = self.link.recv();
                match outcome {
                    Ok(Some(message)) => History {
                        link,
                        delivered: self.delivered.push(message),
                        delivered_at: self.delivered_at.push(self.waiting_at.first()),
                        waiting_at: self.waiting_at.drop_first(),
                        ..self
                    },
                    _ => History { link, ..self },
                }
            },
            LinkOp::Close => History { link: self.link.close(), ..self },
        }
    }

    /// The history of a new link after the uses `ops`, in their order.
    pub open spec fn replay(capacity: nat, policy: Policy, ops: Seq<LinkOp<T>>) -> Self
        decreases ops.len(),
    {
        if ops.len() == 0 {
            Self::start(capacity, policy)
        } else {
            Self::replay(capacity, policy, ops.drop_last()).step(ops.last())
        }
    }

    /// The places of the delivered messages, then of those that wait.
    pub open spec fn places(self) -> Seq<int> {
        self.delivered_at + self.waiting_at
    }

    /// The delivered messages, then those that wait.
    pub open spec fn kept(self) -> Seq<T> {
        self.delivered + self.link.queue
    }

    /// Every message that was delivered or waits stands in `accepted` at its
    /// place, and the places rise: the order of sending is the order of
    /// leaving.
    pub open spec fn ordered(self) -> bool {
        &&& self.delivered_at.len() == self.delivered.len()
        &&& self.waiting_at.len() == self.link.queue.len()
        &&& forall|i: int|
            0 <= i < self.places().len() ==> 0 <= #[trigger] self.places()[i]
                < self.accepted.len()
        &&& forall|i: int|
            0 <= i < self.places().len() ==> self.accepted[#[trigger] self.places()[i]]
                == self.kept()[i]
        &&& forall|i: int, j: int|
            0 <= i < j < self.places().len() ==> #[trigger] self.places()[i]
                < #[trigger] self.places()[j]
    }

    proof fn lemma_step_ordered(self, op: LinkOp<T>)
        requires
            self.ordered(),
        ensures
            self.step(op).ordered(),
            self.link.policy == Policy::Block && self.kept() == self.accepted ==> self.step(
                op,
            ).kept() == self.step(op).accepted,
            self.step(op).link.capacity == self.link.capacity,
            self.step(op).link.policy == self.link.policy,
    {
        let next = self.step(op);
        let n = self.delivered.len() as int;
        match op {
            LinkOp::Send(message) => {
                match self.link.send(message).1 {
                    Ok(Delivery::Queued) => {
                        assert(next.places() =~= self.places().push(self.accepted.len() as int));
                        assert(next.kept() =~= self.kept().push(message));
                        assert forall|i: int| 0 <= i < next.places().len() implies {
                            &&& 0 <= #[trigger] next.places()[i] < next.accepted.len()
                            &&& next.accepted[next.places()[i]] == next.kept()[i]
                        } by {
                            if i < self.places().len() {
                                assert(next.places()[i] == self.places()[i]);
                                assert(next.kept()[i] == self.kept()[i]);
                            }
                        }
                        assert forall|i: int, j: int|
                            0 <= i < j < next.places().len() implies #[trigger] next.places()[i]
                            < #[trigger] next.places()[j] by {
                            assert(next.places()[i] == self.places()[i]);
                            if j < self.places().len() {
                                assert(next.places()[j] == self.places()[j]);
                            }
                        }
                    },
                    Ok(Delivery::Displaced(_)) => {
                        assert forall|i: int| 0 <= i < next.places().len() implies {
                            &&& 0 <= #[trigger] next.places()[i] < next.accepted.len()
                            &&& next.accepted[next.places()[i]] == next.kept()[i]
                        } by {
                            if i < n {
                                assert(next.places()[i] == self.places()[i]);
                                assert(next.kept()[i] == self.kept()[i]);
                            } else if i < next.places().len() - 1 {
                                assert(next.places()[i] == self.places()[i + 1]);
                                assert(next.kept()[i] == self.kept()[i + 1]);
                            }
                        }
                        assert forall|i: int, j: int|
                            0 <= i < j < next.places().len() implies #[trigger] next.places()[i]
                            < #[trigger] next.places()[j] by {
                            let a = if i < n {
                                i
                            } else {
                                i + 1
                            };
                            assert(next.places()[i] == self.places()[a]);
                            if j < next.places().len() - 1 {
                                let b = if j < n {
                                    j
                                } else {
                                    j + 1
                                };
                                assert(next.places()[j] == self.places()[b]);
                            }
                        }
                    },
                    _ => {},
                }
            },
            LinkOp::Recv => {
                match self.link.recv().1 {
                    Ok(Some(message)) => {
                        assert(next.places() =~= self.places());
                        assert(next.kept() =~= self.kept());
                    },
                    _ => {},
                }
            },
            LinkOp::Close => {},
        }
    }
}

/// Per-link order. Whatever is done with a link, the messages leave it in
/// the order in which it took them: each delivered message is one that was
/// accepted, and of two delivered messages the one received first was sent
/// first.
pub proof fn lemma_link_is_fifo<T>(capacity: nat, policy: Policy, ops: Seq<LinkOp<T>>)
    ensures
        History::replay(capacity, policy, ops).ordered(),
        History::replay(capacity, policy, ops).link.capacity == capacity,
        History::replay(capacity, policy, ops).link.policy == policy,
    decreases ops.len(),
{
    if ops.len() > 0 {
        lemma_link_is_fifo(capacity, policy, ops.drop_last());
        History::replay(capacity, policy, ops.drop_last()).lemma_step_ordered(ops.last());
    }
}

/// Nothing is lost or repeated on a link that blocks: what was delivered,
/// followed by what waits, is exactly what was accepted.
pub proof fn lemma_blocking_link_keeps_all<T>(capacity: nat, ops: Seq<LinkOp<T>>)
    ensures
        History::replay(capacity, Policy::Block, ops).kept() == History::replay(
            capacity,
            Policy::Block,
            ops,
        ).accepted,
    decreases ops.len(),
{
    if ops.len() > 0 {
        lemma_link_is_fifo(capacity, Policy::Block, ops.drop_last());
        lemma_blocking_link_keeps_all(capacity, ops.drop_last());
        History::replay(capacity, Policy::Block, ops.drop_last()).lemma_step_ordered(ops.last());
    } else {
        assert(History::<T>::start(capacity, Policy::Block).kept() =~= Seq::<T>::empty());
    }
}

} // verus!
