//! Event bus: a bounded FIFO queue of events that coalesces consecutive
//! mouse events with the same button and modifiers.

use vstd::prelude::*;
use std::collections::VecDeque;
use crate::tree::{NodeId, Point};
use super::event_types::{EventResult, 
    Event, EventPhase, Key, KeyEvent, LifecycleEvent, Modifiers, MouseButton, MouseEvent, PasteEvent,
    ResizeEvent, no_modifiers,
};

verus! {

/// `true` when both events are mouse events with the same button and modifiers.
pub open spec fn same_mouse_gesture(a: Event, b: Event) -> bool {
    match (a, b) {
        (Event::Mouse(x), Event::Mouse(y)) => x.button == y.button && x.modifiers == y.modifiers,
        _ => false,
    }
}

/// The queue after pushing `e`. With coalescing on, a mouse event replaces a
/// trailing mouse event of the same gesture and is otherwise appended, with no
/// bound on the length. Every other event is appended; if the queue already
/// holds at least `max` events, the oldest one is dropped first.
pub open spec fn push_effect(q: Seq<Event>, e: Event, max: nat, coalesce: bool) -> Seq<Event> {
    if coalesce && e is Mouse {
        if q.len() > 0 && same_mouse_gesture(q.last(), e) {
            q.drop_last().push(e)
        } else {
            q.push(e)
        }
    } else if q.len() >= max && q.len() > 0 {
        q.drop_first().push(e)
    } else {
        q.push(e)
    }
}

/// `dispatch` may have answered `results[i]` to `events[i]`, for each `i`.
pub open spec fn answered<F: Fn(Event) -> EventResult>(
    dispatch: F,
    events: Seq<Event>,
    results: Seq<EventResult>,
) -> bool {
    results.len() == events.len() && forall|i: int|
        0 <= i < events.len() ==> call_ensures(dispatch, (events[i],), #[trigger] results[i])
}

/// A FIFO queue of events.
pub struct EventBus {
    queue: VecDeque<Event>,
    max_queue_size: usize,
    coalesce_mouse: bool,
}

impl EventBus {
    /// The queued events, oldest first.
    pub closed spec fn events(&self) -> Seq<Event> {
        self.queue@
    }

    /// The queue bound for events that are not coalesced.
    pub closed spec fn bound(&self) -> nat {
        self.max_queue_size as nat
    }

    /// Whether mouse events are coalesced.
    pub closed spec fn coalescing(&self) -> bool {
        self.coalesce_mouse
    }

    /// An empty bus bounded at 256 events, coalescing mouse events.
    pub fn new() -> (b: EventBus)
        ensures
            b.events().len() == 0,
            b.bound() == 256,
            b.coalescing(),
    {
        EventBus { queue: VecDeque::new(), max_queue_size: 256, coalesce_mouse: true }
    }

    /// As `new`; `capacity` only reserves room.
    pub fn with_capacity(capacity: usize) -> (b: EventBus)
        ensures
            b.events().len() == 0,
            b.bound() == 256,
            b.coalescing(),
    {
        EventBus { queue: VecDeque::with_capacity(capacity), max_queue_size: 256, coalesce_mouse: true }
    }

    /// Sets the queue bound for events that are not coalesced.
    pub fn set_max_queue_size(&mut self, max_queue_size: usize)
        ensures
            final(self).bound() == max_queue_size,
            final(self).events() == old(self).events(),
            final(self).coalescing() == old(self).coalescing(),
    {
        self.max_queue_size = max_queue_size;
    }

    /// Queues `event` (see `push_effect`).
    pub fn push(&mut self, event: Event)
        ensures
            final(self).events() == push_effect(
                old(self).events(),
                event,
                old(self).bound(),
                old(self).coalescing(),
            ),
            final(self).bound() == old(self).bound(),
            final(self).coalescing() == old(self).coalescing(),
    {
        if self.coalesce_mouse && matches!(event, Event::Mouse(_)) {
            self.coalesce_mouse_event(event);
            return;
        }
        if self.queue.len() >= self.max_queue_size && self.queue.len() > 0 {
            let _ = self.queue.pop_front();
        }
        self.queue.push_back(event);
    }

    fn coalesce_mouse_event(&mut self, event: Event)
        requires
            event is Mouse,
        ensures
            final(self).queue@ == (if old(self).queue@.len() > 0 && same_mouse_gesture(
                old(self).queue@.last(),
                event,
            ) {
                old(self).queue@.drop_last().push(event)
            } else {
                old(self).queue@.push(event)
            }),
            final(self).bound() == old(self).bound(),
            final(self).coalesce_mouse == old(self).coalesce_mouse,
    {
        let n = self.queue.len();
        if n > 0 {
            let same = match (&self.queue[n - 1], &event) {
                (Event::Mouse(last), Event::Mouse(new)) => last.button == new.button
                    && last.modifiers == new.modifiers,
                _ => false,
            };
            if same {
                let _ = self.queue.pop_back();
            }
        }
        self.queue.push_back(event);
    }

    /// Queues a key event for `target` with `modifiers`.
    pub fn push_key(&mut self, key: Key, modifiers: Modifiers, target: NodeId)
        ensures
            exists|e: KeyEvent|
                e.key == key && e.modifiers == modifiers && e.target == target && e.phase
                    == EventPhase::Target && !e.default_prevented && final(self).events()
                    == push_effect(
                    old(self).events(),
                    Event::Key(e),
                    old(self).bound(),
                    old(self).coalescing(),
                ),
            final(self).bound() == old(self).bound(),
            final(self).coalescing() == old(self).coalescing(),
    {
        let mut ke = KeyEvent::new(key, target);
        ke.modifiers = modifiers;
        self.push(Event::Key(ke));
    }

    /// Queues a mouse event.
    pub fn push_mouse(&mut self, button: MouseButton, position: Point, target: NodeId)
        ensures
            exists|e: MouseEvent|
                e.button == button && e.position == position && e.modifiers == no_modifiers()
                    && e.target == target && e.phase == EventPhase::Target && !e.default_prevented
                    && final(self).events() == push_effect(
                    old(self).events(),
                    Event::Mouse(e),
                    old(self).bound(),
                    old(self).coalescing(),
                ),
            final(self).bound() == old(self).bound(),
            final(self).coalescing() == old(self).coalescing(),
    {
        self.push(Event::Mouse(MouseEvent::new(button, position, target)));
    }

    /// Queues a paste event.
    pub fn push_paste(&mut self, text: &str, target: NodeId)
        ensures
            exists|e: PasteEvent|
                e.text@ == text@ && e.target == target && e.phase == EventPhase::Target
                    && !e.default_prevented && final(self).events() == push_effect(
                    old(self).events(),
                    Event::Paste(e),
                    old(self).bound(),
                    old(self).coalescing(),
                ),
            final(self).bound() == old(self).bound(),
            final(self).coalescing() == old(self).coalescing(),
    {
        self.push(Event::Paste(PasteEvent::new(text, target)));
    }

    /// Queues a resize event.
    pub fn push_resize(&mut self, width: u16, height: u16, prev_width: u16, prev_height: u16)
        ensures
            final(self).events() == push_effect(
                old(self).events(),
                Event::Resize(ResizeEvent { width, height, previous_width: prev_width, previous_height: prev_height }),
                old(self).bound(),
                old(self).coalescing(),
            ),
            final(self).bound() == old(self).bound(),
            final(self).coalescing() == old(self).coalescing(),
    {
        self.push(Event::Resize(ResizeEvent::new(width, height, prev_width, prev_height)));
    }

    /// Queues a lifecycle event.
    pub fn push_lifecycle(&mut self, event: LifecycleEvent)
        ensures
            final(self).events() == push_effect(
                old(self).events(),
                Event::Lifecycle(event),
                old(self).bound(),
                old(self).coalescing(),
            ),
            final(self).bound() == old(self).bound(),
            final(self).coalescing() == old(self).coalescing(),
    {
        self.push(Event::Lifecycle(event));
    }

    /// Takes every queued event, oldest first, leaving the bus empty.
    pub fn drain(&mut self) -> (q: VecDeque<Event>)
        ensures
            q@ == old(self).events(),
            final(self).events().len() == 0,
            final(self).bound() == old(self).bound(),
            final(self).coalescing() == old(self).coalescing(),
    {
        let mut q: VecDeque<Event> = VecDeque::new();
        std::mem::swap(&mut q, &mut self.queue);
        q
    }

    /// Takes the oldest queued event, if any.
    pub fn pop(&mut self) -> (e: Option<Event>)
        ensures
            old(self).events().len() == 0 ==> e is None
                && final(self).events() == old(self).events(),
            old(self).events().len() > 0 ==> e == Some(old(self).events()[0])
                && final(self).events() == old(self).events().drop_first(),
            final(self).bound() == old(self).bound(),
            final(self).coalescing() == old(self).coalescing(),
    {
        self.queue.pop_front()
    }

    /// Dispatches every queued event, oldest first, through `dispatch`,
    /// leaving the bus empty.
    pub fn process_all<F: Fn(Event) -> EventResult>(&mut self, dispatch: F)
        requires
            forall|e: Event| call_requires(dispatch, (e,)),
        ensures
            final(self).events().len() == 0,
            final(self).bound() == old(self).bound(),
            final(self).coalescing() == old(self).coalescing(),
            exists|rs: Seq<EventResult>| answered(dispatch, old(self).events(), rs),
    {
        let ghost all = self.queue@;
        let ghost mut rs: Seq<EventResult> = Seq::empty();
        let ghost mut n: int = 0;
        while self.queue.len() > 0
            invariant
                forall|e: Event| call_requires(dispatch, (e,)),
                0 <= n <= all.len(),
                self.queue@ == all.skip(n),
                answered(dispatch, all.take(n), rs),
                self.max_queue_size == old(self).max_queue_size,
                self.coalesce_mouse == old(self).coalesce_mouse,
                all == old(self).queue@,
            decreases self.queue@.len(),
        {
            match self.queue.pop_front() {
                Some(e) => {
                    let r = dispatch(e);
                    proof {
                        assert(all[n] == e);
                        assert(all.take(n + 1) =~= all.take(n).push(e));
                        rs = rs.push(r);
                        n = n + 1;
                        assert(all.skip(n - 1).drop_first() =~= all.skip(n));
                    }
                },
                None => {},
            }
        }
        proof {
            assert(all.take(n) =~= all);
            assert(answered(dispatch, old(self).events(), rs));
        }
    }

    /// Dispatches queued events, oldest first, through `dispatch` until one
    /// is consumed: gives `Consumed` then, and leaves the later events
    /// queued; gives none when every event was dispatched unconsumed.
    pub fn process_until_consumed<F: Fn(Event) -> EventResult>(&mut self, dispatch: F) -> (r: Option<EventResult>)
        requires
            forall|e: Event| call_requires(dispatch, (e,)),
        ensures
            final(self).bound() == old(self).bound(),
            final(self).coalescing() == old(self).coalescing(),
            r is None ==> final(self).events().len() == 0 && exists|rs: Seq<EventResult>|
                answered(dispatch, old(self).events(), rs) && !rs.contains(EventResult::Consumed),
            r is Some ==> r == Some(EventResult::Consumed) && exists|k: int, rs: Seq<EventResult>|
                0 <= k < old(self).events().len()
                && final(self).events() == old(self).events().skip(k + 1)
                && answered(dispatch, old(self).events().take(k), rs)
                && !rs.contains(EventResult::Consumed)
                && call_ensures(dispatch, (old(self).events()[k],), EventResult::Consumed),
    {
        let ghost all = self.queue@;
        let ghost mut rs: Seq<EventResult> = Seq::empty();
        let ghost mut n: int = 0;
        while self.queue.len() > 0
            invariant
                forall|e: Event| call_requires(dispatch, (e,)),
                0 <= n <= all.len(),
                self.queue@ == all.skip(n),
                answered(dispatch, all.take(n), rs),
                !rs.contains(EventResult::Consumed),
                self.max_queue_size == old(self).max_queue_size,
                self.coalesce_mouse == old(self).coalesce_mouse,
                all == old(self).queue@,
            decreases self.queue@.len(),
        {
            match self.queue.pop_front() {
                Some(e) => {
                    let r = dispatch(e);
                    proof {
                        assert(all[n] == e);
                        assert(all.skip(n).drop_first() =~= all.skip(n + 1));
                    }
                    if r == EventResult::Consumed {
                        proof {
                            assert(self.queue@ == all.skip(n + 1));
                            assert(all.take(n) == old(self).events().take(n));
                            assert(call_ensures(dispatch, (old(self).events()[n],), EventResult::Consumed));
                            assert(0 <= n < old(self).events().len()
                                && self.events() == old(self).events().skip(n + 1)
                                && answered(dispatch, old(self).events().take(n), rs)
                                && !rs.contains(EventResult::Consumed)
                                && call_ensures(dispatch, (old(self).events()[n],), EventResult::Consumed));
                        }
                        return Some(EventResult::Consumed);
                    }
                    proof {
                        assert(all.take(n + 1) =~= all.take(n).push(e));
                        assert forall|x: EventResult| rs.push(r).contains(x) implies x != EventResult::Consumed by {
                            let j = choose|j: int| 0 <= j < rs.push(r).len() && rs.push(r)[j] == x;
                            if j < rs.len() {
                                assert(rs.contains(rs[j]));
                            }
                        }
                        rs = rs.push(r);
                        n = n + 1;
                    }
                },
                None => {},
            }
        }
        proof {
            assert(all.take(n) =~= all);
            assert(answered(dispatch, old(self).events(), rs));
        }
        None
    }

    /// The number of queued events.
    pub fn len(&self) -> (n: usize)
        ensures
            n == self.events().len(),
    {
        self.queue.len()
    }

    /// `true` when no event is queued.
    pub fn is_empty(&self) -> (b: bool)
        ensures
            b == (self.events().len() == 0),
    {
        self.queue.len() == 0
    }

    /// Drops every queued event.
    pub fn clear(&mut self)
        ensures
            final(self).events().len() == 0,
            final(self).bound() == old(self).bound(),
            final(self).coalescing() == old(self).coalescing(),
    {
        self.queue.clear();
    }

    /// Turns mouse coalescing on or off.
    pub fn set_coalesce_mouse(&mut self, coalesce: bool)
        ensures
            final(self).events() == old(self).events(),
            final(self).bound() == old(self).bound(),
            final(self).coalescing() == coalesce,
    {
        self.coalesce_mouse = coalesce;
    }
}

impl Default for EventBus {
    fn default() -> (b: EventBus)
        ensures
            b.events().len() == 0,
            b.bound() == 256,
            b.coalescing(),
    {
        EventBus::new()
    }
}

/// Pushing an event that is not coalesced never lets the queue grow beyond
/// its bound: if the queue held at most `max` events (and `max > 0`), it holds
/// at most `max` afterwards, and the pushed event is the newest one.
pub proof fn lemma_push_respects_bound(q: Seq<Event>, e: Event, max: nat, coalesce: bool)
    requires
        q.len() <= max,
        max > 0,
        !(coalesce && e is Mouse),
    ensures
        push_effect(q, e, max, coalesce).len() <= max,
        push_effect(q, e, max, coalesce).last() == e,
{
}

/// With coalescing on, a burst of mouse events of one gesture leaves a single
/// queued event for it: pushing two such events in a row grows the queue by
/// one, and the second event replaces the first.
pub proof fn lemma_mouse_burst_coalesces(q: Seq<Event>, e1: Event, e2: Event, max: nat)
    requires
        e1 is Mouse,
        e2 is Mouse,
        same_mouse_gesture(e1, e2),
    ensures
        push_effect(push_effect(q, e1, max, true), e2, max, true).len() <= q.len() + 1,
        push_effect(push_effect(q, e1, max, true), e2, max, true).last() == e2,
{
    let q1 = push_effect(q, e1, max, true);
    assert(q1.last() == e1);
    assert(same_mouse_gesture(q1.last(), e2));
}

} // verus!
