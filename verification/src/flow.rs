//! Flow lifecycle events and the in-memory flow bus.
//!
//! A connection task drives one [`FlowEmitter`] per flow; the emitter's
//! state machine can only produce the events of a flow in their lifecycle
//! order, which `lemma_emitter_ordered` states over the emitted history.
//! The [`FlowBus`] fans events out to subscribers over bounded queues:
//! when a queue is full the oldest event is dropped and the subscriber is
//! told how many it lost, so back-pressure never reaches the proxy path —
//! and `lemma_lossless_subscriber` shows a subscriber that never lost an
//! event holds exactly the published sequence.

use vstd::prelude::*;

verus! {

/// One kind of flow lifecycle event.
#[derive(Clone, Copy, Debug, PartialEq, Eq, Structural)]
pub enum FlowEventKind {
    Started,
    RequestBody,
    ResponseHeaders,
    ResponseBody,
    Completed,
}

/// One flow lifecycle event.
#[derive(Clone, Copy, Debug, PartialEq, Eq, Structural)]
pub struct FlowEvent {
    pub flow_id: u128,
    pub kind: FlowEventKind,
}

/// The phase a kind belongs to in the lifecycle order.
pub open spec fn spec_phase(k: FlowEventKind) -> int {
    match k {
        FlowEventKind::Started => 0,
        FlowEventKind::RequestBody => 1,
        FlowEventKind::ResponseHeaders => 2,
        FlowEventKind::ResponseBody => 3,
        FlowEventKind::Completed => 4,
    }
}

/// The lifecycle order over a history of one flow's events: phases never
/// go backwards, and the start, the response headers and the completion
/// appear at most once.
pub open spec fn spec_events_ordered(h: Seq<FlowEventKind>) -> bool {
    &&& forall|i: int, j: int|
        0 <= i < j < h.len() ==> spec_phase(#[trigger] h[i]) <= spec_phase(#[trigger] h[j])
    &&& forall|i: int, j: int|
        0 <= i < j < h.len() && spec_phase(#[trigger] h[i]) == spec_phase(#[trigger] h[j]) ==> (
        h[i] == FlowEventKind::RequestBody || h[i] == FlowEventKind::ResponseBody)
    &&& (h.len() > 0 ==> h[0] == FlowEventKind::Started)
}

/// Where in its lifecycle a flow stands.
#[derive(Clone, Copy, Debug, PartialEq, Eq, Structural)]
enum Stage {
    Created,
    Streaming,
    Responded,
    Done,
}

/// The emitter of one flow's events: each call emits the next event, and
/// the stages admit only the lifecycle order.
pub struct FlowEmitter {
    flow_id: u128,
    stage: Stage,
    history: Ghost<Seq<FlowEventKind>>,
    marker: Ghost<int>,
}

impl FlowEmitter {
    /// The identifier of the flow this emitter speaks for.
    pub closed spec fn spec_flow_id(self) -> u128 {
        self.flow_id
    }

    /// The kinds emitted so far, in order.
    pub closed spec fn spec_history(self) -> Seq<FlowEventKind> {
        self.history@
    }

    /// The history matches the stage: nothing before the start, request
    /// body chunks while streaming, response body chunks after the
    /// headers, and a single completion at the end.
    pub closed spec fn spec_wf(self) -> bool {
        let h = self.history@;
        let k = self.marker@;
        match self.stage {
            Stage::Created => h.len() == 0,
            Stage::Streaming => {
                &&& h.len() >= 1
                &&& h[0] == FlowEventKind::Started
                &&& forall|i: int| 1 <= i < h.len() ==> h[i] == FlowEventKind::RequestBody
            },
            Stage::Responded => {
                &&& h.len() >= 2
                &&& h[0] == FlowEventKind::Started
                &&& 1 <= k < h.len()
                &&& h[k] == FlowEventKind::ResponseHeaders
                &&& forall|i: int| 1 <= i < k ==> h[i] == FlowEventKind::RequestBody
                &&& forall|i: int| k < i < h.len() ==> h[i] == FlowEventKind::ResponseBody
            },
            Stage::Done => {
                &&& h.len() >= 3
                &&& h[0] == FlowEventKind::Started
                &&& h[h.len() - 1] == FlowEventKind::Completed
                &&& 1 <= k < h.len() - 1
                &&& h[k] == FlowEventKind::ResponseHeaders
                &&& forall|i: int| 1 <= i < k ==> h[i] == FlowEventKind::RequestBody
                &&& forall|i: int| k < i < h.len() - 1 ==> h[i] == FlowEventKind::ResponseBody
            },
        }
    }

    /// Whether the flow is sealed: no further event can be emitted.
    pub closed spec fn spec_done(self) -> bool {
        self.stage == Stage::Done
    }

    /// Whether the start was emitted.
    pub closed spec fn spec_started(self) -> bool {
        self.stage != Stage::Created
    }

    /// Whether the response headers were emitted.
    pub closed spec fn spec_responded(self) -> bool {
        self.stage == Stage::Responded || self.stage == Stage::Done
    }

    /// A fresh emitter for the flow: nothing emitted yet.
    pub fn new(flow_id: u128) -> (r: FlowEmitter)
        ensures
            r.spec_wf(),
            r.spec_flow_id() == flow_id,
            r.spec_history() == Seq::<FlowEventKind>::empty(),
            !r.spec_started(),
            !r.spec_responded(),
            !r.spec_done(),
    {
        FlowEmitter { flow_id, stage: Stage::Created, history: Ghost(Seq::empty()), marker: Ghost(0int) }
    }

    /// Emits the start of the flow.
    pub fn start(&mut self) -> (e: FlowEvent)
        requires
            old(self).spec_wf(),
            !old(self).spec_started(),
        ensures
            final(self).spec_wf(),
            final(self).spec_flow_id() == old(self).spec_flow_id(),
            e == (FlowEvent { flow_id: old(self).spec_flow_id(), kind: FlowEventKind::Started }),
            final(self).spec_history() == old(self).spec_history().push(FlowEventKind::Started),
            final(self).spec_started(),
            !final(self).spec_responded(),
            !final(self).spec_done(),
    {
        self.stage = Stage::Streaming;
        proof {
            self.history@ = self.history@.push(FlowEventKind::Started);
        }
        FlowEvent { flow_id: self.flow_id, kind: FlowEventKind::Started }
    }

    /// Emits one request body chunk, before the response headers.
    pub fn request_body(&mut self) -> (e: FlowEvent)
        requires
            old(self).spec_wf(),
            old(self).spec_started(),
            !old(self).spec_responded(),
            !old(self).spec_done(),
        ensures
            final(self).spec_wf(),
            final(self).spec_flow_id() == old(self).spec_flow_id(),
            e == (FlowEvent {
                flow_id: old(self).spec_flow_id(),
                kind: FlowEventKind::RequestBody,
            }),
            final(self).spec_history() == old(self).spec_history().push(
                FlowEventKind::RequestBody,
            ),
            final(self).spec_started(),
            !final(self).spec_responded(),
            !final(self).spec_done(),
    {
        proof {
            self.history@ = self.history@.push(FlowEventKind::RequestBody);
        }
        FlowEvent { flow_id: self.flow_id, kind: FlowEventKind::RequestBody }
    }

    /// Emits the response headers.
    pub fn response_headers(&mut self) -> (e: FlowEvent)
        requires
            old(self).spec_wf(),
            old(self).spec_started(),
            !old(self).spec_responded(),
            !old(self).spec_done(),
        ensures
            final(self).spec_wf(),
            final(self).spec_flow_id() == old(self).spec_flow_id(),
            e == (FlowEvent {
                flow_id: old(self).spec_flow_id(),
                kind: FlowEventKind::ResponseHeaders,
            }),
            final(self).spec_history() == old(self).spec_history().push(
                FlowEventKind::ResponseHeaders,
            ),
            final(self).spec_responded(),
            !final(self).spec_done(),
    {
        self.stage = Stage::Responded;
        proof {
            self.marker@ = self.history@.len() as int;
            self.history@ = self.history@.push(FlowEventKind::ResponseHeaders);
        }
        FlowEvent { flow_id: self.flow_id, kind: FlowEventKind::ResponseHeaders }
    }

    /// Emits one response body chunk, after the headers.
    pub fn response_body(&mut self) -> (e: FlowEvent)
        requires
            old(self).spec_wf(),
            old(self).spec_responded(),
            !old(self).spec_done(),
        ensures
            final(self).spec_wf(),
            final(self).spec_flow_id() == old(self).spec_flow_id(),
            e == (FlowEvent {
                flow_id: old(self).spec_flow_id(),
                kind: FlowEventKind::ResponseBody,
            }),
            final(self).spec_history() == old(self).spec_history().push(
                FlowEventKind::ResponseBody,
            ),
            final(self).spec_responded(),
            !final(self).spec_done(),
    {
        proof {
            self.history@ = self.history@.push(FlowEventKind::ResponseBody);
        }
        FlowEvent { flow_id: self.flow_id, kind: FlowEventKind::ResponseBody }
    }

    /// Emits the completion and seals the flow.
    pub fn complete(&mut self) -> (e: FlowEvent)
        requires
            old(self).spec_wf(),
            old(self).spec_responded(),
            !old(self).spec_done(),
        ensures
            final(self).spec_wf(),
            final(self).spec_flow_id() == old(self).spec_flow_id(),
            e == (FlowEvent { flow_id: old(self).spec_flow_id(), kind: FlowEventKind::Completed }),
            final(self).spec_history() == old(self).spec_history().push(FlowEventKind::Completed),
            final(self).spec_done(),
    {
        self.stage = Stage::Done;
        proof {
            self.history@ = self.history@.push(FlowEventKind::Completed);
        }
        FlowEvent { flow_id: self.flow_id, kind: FlowEventKind::Completed }
    }
}

/// The events of one flow arrive in lifecycle order: whatever the emitter
/// has emitted is ordered `Started`, request body chunks, response
/// headers, response body chunks, completion.
pub proof fn lemma_emitter_ordered(e: FlowEmitter)
    requires
        e.spec_wf(),
    ensures
        spec_events_ordered(e.spec_history()),
{
    let h = e.spec_history();
    assert forall|i: int, j: int| 0 <= i < j < h.len() implies spec_phase(#[trigger] h[i])
        <= spec_phase(#[trigger] h[j]) by {}
    assert forall|i: int, j: int|
        0 <= i < j < h.len() && spec_phase(#[trigger] h[i]) == spec_phase(
            #[trigger] h[j],
        ) implies (h[i] == FlowEventKind::RequestBody || h[i] == FlowEventKind::ResponseBody) by {}
}

/// What a subscriber takes off its queue: a gap marker saying how many
/// events were dropped, or the next event.
#[derive(Clone, Copy, Debug, PartialEq, Eq, Structural)]
pub enum Received {
    /// The subscriber fell behind and this many events were dropped.
    Lagged(u64),
    /// The next event, in publish order.
    Event(FlowEvent),
}

/// One subscriber: a bounded queue, the count of drops not yet reported,
/// and the ghost record of what was published and delivered.
pub struct Subscriber {
    queue: Vec<FlowEvent>,
    capacity: usize,
    lag: u64,
    dropped: u64,
    base: Ghost<Seq<FlowEvent>>,
    delivered: Ghost<Seq<FlowEvent>>,
}

impl Subscriber {
    /// The queued events, oldest first.
    pub closed spec fn spec_queue(self) -> Seq<FlowEvent> {
        self.queue@
    }

    /// The queue's bound.
    pub closed spec fn spec_capacity(self) -> usize {
        self.capacity
    }

    /// How many drops the subscriber has not seen a marker for yet.
    pub closed spec fn spec_lag(self) -> u64 {
        self.lag
    }

    /// How many events were ever dropped for this subscriber.
    pub closed spec fn spec_dropped(self) -> u64 {
        self.dropped
    }

    /// What was already published when the subscriber joined.
    pub closed spec fn spec_base(self) -> Seq<FlowEvent> {
        self.base@
    }

    /// What the subscriber has taken off the queue, in order.
    pub closed spec fn spec_delivered(self) -> Seq<FlowEvent> {
        self.delivered@
    }
}

/// Publish–subscribe fan-out of flow events with lossy bounded queues.
pub struct FlowBus {
    subscribers: Vec<Subscriber>,
    published: Ghost<Seq<FlowEvent>>,
}

impl FlowBus {
    /// Everything ever published, in order.
    pub closed spec fn spec_published(self) -> Seq<FlowEvent> {
        self.published@
    }

    /// The subscribers.
    pub closed spec fn spec_subscribers(self) -> Seq<Subscriber> {
        self.subscribers@
    }

    /// Queues respect their bounds, and a subscriber that never dropped
    /// holds the published sequence: what it joined after, what it took
    /// off, and what still queues, in order.
    pub open spec fn spec_wf(self) -> bool {
        forall|i: int|
            0 <= i < self.spec_subscribers().len() ==> {
                let s = #[trigger] self.spec_subscribers()[i];
                &&& s.spec_queue().len() <= s.spec_capacity()
                &&& (s.spec_dropped() == 0 ==> s.spec_base() + s.spec_delivered() + s.spec_queue()
                    == self.spec_published())
            }
    }

    /// A bus with no subscribers and nothing published.
    pub fn new() -> (r: FlowBus)
        ensures
            r.spec_wf(),
            r.spec_subscribers().len() == 0,
            r.spec_published().len() == 0,
    {
        FlowBus { subscribers: Vec::new(), published: Ghost(Seq::empty()) }
    }

    /// Adds a subscriber with the given queue bound; its handle is its
    /// index.
    pub fn subscribe(&mut self, capacity: usize) -> (r: usize)
        requires
            old(self).spec_wf(),
        ensures
            final(self).spec_wf(),
            final(self).spec_published() == old(self).spec_published(),
            final(self).spec_subscribers().len() == old(self).spec_subscribers().len() + 1,
            r == old(self).spec_subscribers().len(),
    {
        let r = self.subscribers.len();
        let sub = Subscriber {
            queue: Vec::new(),
            capacity,
            lag: 0,
            dropped: 0,
            base: Ghost(self.published@),
            delivered: Ghost(Seq::empty()),
        };
        self.subscribers.push(sub);
        proof {
            assert forall|i: int| 0 <= i < self.subscribers@.len() implies {
                let s = #[trigger] self.spec_subscribers()[i];
                &&& s.spec_queue().len() <= s.spec_capacity()
                &&& (s.spec_dropped() == 0 ==> s.spec_base() + s.spec_delivered() + s.spec_queue()
                    == self.spec_published())
            } by {
                if i < old(self).subscribers@.len() {
                    assert(self.spec_subscribers()[i] == old(self).spec_subscribers()[i]);
                } else {
                    assert(self.spec_subscribers()[i].spec_base() + self.spec_subscribers(
                    )[i].spec_delivered() + self.spec_subscribers()[i].spec_queue()
                        =~= self.spec_published());
                }
            }
        }
        r
    }

    /// Publishes one event to every subscriber. A full queue drops its
    /// oldest event and the loss is counted; back-pressure never reaches
    /// the publisher.
    #[verifier::loop_isolation(false)]
    pub fn publish(&mut self, event: FlowEvent)
        requires
            old(self).spec_wf(),
        ensures
            final(self).spec_wf(),
            final(self).spec_published() == old(self).spec_published().push(event),
            final(self).spec_subscribers().len() == old(self).spec_subscribers().len(),
    {
        let n = self.subscribers.len();
        let mut out: Vec<Subscriber> = Vec::new();
        let mut i: usize = 0;
        let ghost target = self.published@.push(event);
        while i < n
            invariant
                *self == *old(self),
                n == self.subscribers@.len(),
                i <= n,
                out@.len() == i,
                forall|t: int|
                    0 <= t < i ==> {
                        let s = #[trigger] out@[t];
                        &&& s.spec_queue().len() <= s.spec_capacity()
                        &&& (s.spec_dropped() == 0 ==> s.spec_base() + s.spec_delivered()
                            + s.spec_queue() == target)
                    },
            decreases n - i,
        {
            let sub = &self.subscribers[i];
            let ghost pre = *sub;
            proof {
                assert(pre == old(self).spec_subscribers()[i as int]);
                if pre.spec_dropped() == 0 {
                    assert(pre.spec_base() + pre.spec_delivered() + pre.spec_queue() == old(
                        self,
                    ).spec_published());
                }
                assert(pre.spec_queue().len() <= pre.spec_capacity());
            }
            let mut queue: Vec<FlowEvent> = copy_events(&sub.queue);
            let mut lag = sub.lag;
            let mut dropped = sub.dropped;
            if queue.len() < sub.capacity {
                queue.push(event);
            } else {
                if queue.len() > 0 {
                    let _ = queue.remove(0);
                }
                if lag < u64::MAX {
                    lag = lag + 1;
                }
                if dropped < u64::MAX {
                    dropped = dropped + 1;
                } else {
                    dropped = u64::MAX;
                }
                if queue.len() < sub.capacity {
                    queue.push(event);
                }
            }
            let next = Subscriber {
                queue,
                capacity: sub.capacity,
                lag,
                dropped,
                base: Ghost(sub.base@),
                delivered: Ghost(sub.delivered@),
            };
            proof {
                if pre.spec_dropped() == 0 && next.spec_dropped() == 0 {
                    assert(next.spec_queue() == pre.spec_queue().push(event));
                    assert(next.spec_base() + next.spec_delivered() + next.spec_queue()
                        =~= target);
                }
            }
            out.push(next);
            i = i + 1;
        }
        self.subscribers = out;
        proof {
            self.published@ = target;
        }
    }

    /// Takes the next item for subscriber `index`: first a gap marker
    /// where events were dropped since the last take, then events in
    /// publish order.
    pub fn recv(&mut self, index: usize) -> (r: Option<Received>)
        requires
            old(self).spec_wf(),
            index < old(self).spec_subscribers().len(),
        ensures
            final(self).spec_wf(),
            final(self).spec_published() == old(self).spec_published(),
            final(self).spec_subscribers().len() == old(self).spec_subscribers().len(),
            ({
                let pre = old(self).spec_subscribers()[index as int];
                let post = final(self).spec_subscribers()[index as int];
                match r {
                    Some(Received::Lagged(n)) => {
                        &&& pre.spec_lag() == n
                        &&& n > 0
                        &&& post.spec_lag() == 0
                        &&& post.spec_queue() == pre.spec_queue()
                        &&& post.spec_delivered() == pre.spec_delivered()
                    },
                    Some(Received::Event(e)) => {
                        &&& pre.spec_lag() == 0
                        &&& pre.spec_queue().len() > 0
                        &&& e == pre.spec_queue()[0]
                        &&& post.spec_queue() == pre.spec_queue().skip(1)
                        &&& post.spec_delivered() == pre.spec_delivered().push(e)
                    },
                    None => {
                        &&& pre.spec_lag() == 0
                        &&& pre.spec_queue().len() == 0
                        &&& *final(self) == *old(self)
                    },
                }
            }),
    {
        let sub = &self.subscribers[index];
        if sub.lag > 0 {
            let n = sub.lag;
            let next = Subscriber {
                queue: copy_events(&sub.queue),
                capacity: sub.capacity,
                lag: 0,
                dropped: sub.dropped,
                base: Ghost(sub.base@),
                delivered: Ghost(sub.delivered@),
            };
            let ghost pre_subs = self.subscribers@;
            set_subscriber(&mut self.subscribers, index, next);
            proof {
                lemma_set_preserves_wf(pre_subs, self.subscribers@, index as int, self.published@);
            }
            return Some(Received::Lagged(n));
        }
        if sub.queue.len() == 0 {
            return None;
        }
        let mut queue = copy_events(&sub.queue);
        let e = queue.remove(0);
        let next = Subscriber {
            queue,
            capacity: sub.capacity,
            lag: 0,
            dropped: sub.dropped,
            base: Ghost(sub.base@),
            delivered: Ghost(sub.delivered@.push(e)),
        };
        proof {
            if next.spec_dropped() == 0 {
                assert(next.spec_base() + next.spec_delivered() + next.spec_queue() =~= old(
                    self,
                ).spec_subscribers()[index as int].spec_base() + old(self).spec_subscribers()[
                    index as int
                ].spec_delivered() + old(self).spec_subscribers()[index as int].spec_queue());
            }
        }
        let ghost pre_subs = self.subscribers@;
        set_subscriber(&mut self.subscribers, index, next);
        proof {
            lemma_set_preserves_wf(pre_subs, self.subscribers@, index as int, self.published@);
            assert(final(self).spec_subscribers()[index as int].spec_queue() =~= old(
                self,
            ).spec_subscribers()[index as int].spec_queue().skip(1));
        }
        Some(Received::Event(e))
    }
}

/// A copy of a queue of events.
#[verifier::loop_isolation(false)]
fn copy_events(v: &Vec<FlowEvent>) -> (r: Vec<FlowEvent>)
    ensures
        r@ == v@,
{
    let mut out: Vec<FlowEvent> = Vec::new();
    let mut i: usize = 0;
    while i < v.len()
        invariant
            i <= v@.len(),
            out@ == v@.subrange(0, i as int),
        decreases v@.len() - i,
    {
        out.push(v[i]);
        i = i + 1;
        proof {
            assert(out@ =~= v@.subrange(0, i as int));
        }
    }
    proof {
        assert(v@.subrange(0, v@.len() as int) =~= v@);
    }
    out
}

/// Replaces element `index` of a subscriber list.
fn set_subscriber(subs: &mut Vec<Subscriber>, index: usize, next: Subscriber)
    requires
        index < old(subs)@.len(),
    ensures
        final(subs)@ == old(subs)@.update(index as int, next),
{
    let _ = subs.remove(index);
    subs.insert(index, next);
    proof {
        assert(subs@ =~= old(subs)@.update(index as int, next));
    }
}

/// Replacing one subscriber whose invariant holds keeps the bus invariant.
proof fn lemma_set_preserves_wf(
    pre: Seq<Subscriber>,
    post: Seq<Subscriber>,
    index: int,
    published: Seq<FlowEvent>,
)
    requires
        0 <= index < pre.len(),
        post == pre.update(
            index,
            post[index],
        ),
        forall|i: int|
            0 <= i < pre.len() ==> {
                let s = #[trigger] pre[i];
                &&& s.spec_queue().len() <= s.spec_capacity()
                &&& (s.spec_dropped() == 0 ==> s.spec_base() + s.spec_delivered() + s.spec_queue()
                    == published)
            },
        post[index].spec_queue().len() <= post[index].spec_capacity(),
        post[index].spec_dropped() == 0 ==> post[index].spec_base()
            + post[index].spec_delivered() + post[index].spec_queue() == published,
    ensures
        forall|i: int|
            0 <= i < post.len() ==> {
                let s = #[trigger] post[i];
                &&& s.spec_queue().len() <= s.spec_capacity()
                &&& (s.spec_dropped() == 0 ==> s.spec_base() + s.spec_delivered() + s.spec_queue()
                    == published)
            },
{
    assert forall|i: int| 0 <= i < post.len() implies {
        let s = #[trigger] post[i];
        &&& s.spec_queue().len() <= s.spec_capacity()
        &&& (s.spec_dropped() == 0 ==> s.spec_base() + s.spec_delivered() + s.spec_queue()
            == published)
    } by {
        if i != index {
            assert(post[i] == pre[i]);
        }
    }
}

/// A subscriber that never dropped an event holds exactly the published
/// sequence: its join-time prefix, what it took off, and what still
/// queues, in publish order.
pub proof fn lemma_lossless_subscriber(bus: FlowBus, index: int)
    requires
        bus.spec_wf(),
        0 <= index < bus.spec_subscribers().len(),
        bus.spec_subscribers()[index].spec_dropped() == 0,
    ensures
        bus.spec_subscribers()[index].spec_base() + bus.spec_subscribers()[index].spec_delivered()
            + bus.spec_subscribers()[index].spec_queue() == bus.spec_published(),
{
}

} // verus!
