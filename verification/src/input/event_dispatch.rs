//! Event dispatch: which handlers an event reaches and in what order.
//!
//! Global handlers see the event first; then it travels down the target's
//! ancestors from the root (capture), reaches the target, and travels back
//! up (bubble). A handler that answers `Consumed`, or a node handler that
//! marks the event consumed, ends the dispatch. The dispatcher here keeps
//! the registrations and plans the steps; whoever holds the handler code
//! performs each step and reports what the handler answered.

use vstd::prelude::*;
use crate::tree::NodeId;
use super::event_types::{EventPhase, EventResult};

verus! {

/// A registered handler, named by the number the dispatcher gave it.
#[derive(Debug, Clone, Copy, PartialEq, Eq, Hash, Structural)]
pub struct HandlerId(pub u64);

/// One step of a dispatch.
#[derive(Debug, Clone, Copy, PartialEq, Eq, Structural)]
pub enum DispatchStep {
    /// Set the event's phase.
    SetPhase(EventPhase),
    /// Call a global handler; answering `Consumed` ends the dispatch.
    CallGlobal(HandlerId),
    /// Call a node handler; answering `Consumed`, or leaving the event
    /// consumed, ends the dispatch.
    CallNode(HandlerId),
}

/// The position of `node`'s registrations, or -1.
pub open spec fn node_index(nodes: Seq<NodeId>, node: NodeId) -> int
    decreases nodes.len(),
{
    if nodes.len() == 0 {
        -1
    } else if nodes.last() == node {
        nodes.len() - 1
    } else {
        node_index(nodes.drop_last(), node)
    }
}

proof fn lemma_node_index(nodes: Seq<NodeId>, node: NodeId)
    ensures
        -1 <= node_index(nodes, node) < nodes.len(),
        node_index(nodes, node) >= 0 ==> nodes[node_index(nodes, node)] == node,
        node_index(nodes, node) < 0 ==> forall|i: int| 0 <= i < nodes.len() ==> nodes[i] != node,
        forall|i: int| node_index(nodes, node) < i < nodes.len() ==> nodes[i] != node,
    decreases nodes.len(),
{
    if nodes.len() > 0 {
        lemma_node_index(nodes.drop_last(), node);
        assert forall|i: int| 0 <= i < nodes.len() - 1 implies nodes.drop_last()[i] == nodes[i] by {}
    }
}

/// The sum of the lengths of some handler lists.
pub open spec fn total_handlers(lists: Seq<Seq<HandlerId>>) -> nat
    decreases lists.len(),
{
    if lists.len() == 0 {
        0
    } else {
        total_handlers(lists.drop_last()) + lists.last().len()
    }
}

/// The abstract registrations: for each node with handlers, its handlers
/// in registration order, and the global handlers.
pub struct DispatcherView {
    pub nodes: Seq<NodeId>,
    pub lists: Seq<Seq<HandlerId>>,
    pub globals: Seq<HandlerId>,
    pub next_id: u64,
}

impl DispatcherView {
    /// The handlers of `node`, in registration order.
    pub open spec fn handlers_of(self, node: NodeId) -> Seq<HandlerId> {
        let k = node_index(self.nodes, node);
        if k < 0 {
            Seq::empty()
        } else {
            self.lists[k]
        }
    }

    /// Whether `node` has registrations.
    pub open spec fn has(self, node: NodeId) -> bool {
        node_index(self.nodes, node) >= 0
    }

    /// Every handler, node and global.
    pub open spec fn count(self) -> nat {
        total_handlers(self.lists) + self.globals.len()
    }
}

/// The node-handler calls of a list.
pub open spec fn node_calls(hs: Seq<HandlerId>) -> Seq<DispatchStep> {
    hs.map_values(|h: HandlerId| DispatchStep::CallNode(h))
}

/// The global-handler calls of a list.
pub open spec fn global_calls(hs: Seq<HandlerId>) -> Seq<DispatchStep> {
    hs.map_values(|h: HandlerId| DispatchStep::CallGlobal(h))
}

/// The capture steps for the ancestors `anc[i..]`, visited from the last
/// (the root) down to `anc[i]`.
pub open spec fn capture_from(v: DispatcherView, anc: Seq<NodeId>, i: nat) -> Seq<DispatchStep>
    decreases anc.len() - i,
{
    if i >= anc.len() {
        Seq::empty()
    } else {
        capture_from(v, anc, i + 1) + seq![DispatchStep::SetPhase(EventPhase::Capture)] + node_calls(
            v.handlers_of(anc[i as int]),
        )
    }
}

/// The bubble steps for the first `k` ancestors, nearest first.
pub open spec fn bubble_upto(v: DispatcherView, anc: Seq<NodeId>, k: nat) -> Seq<DispatchStep>
    decreases k,
{
    if k == 0 {
        Seq::empty()
    } else {
        bubble_upto(v, anc, (k - 1) as nat) + seq![DispatchStep::SetPhase(EventPhase::Bubble)] + node_calls(
            v.handlers_of(anc[k - 1]),
        )
    }
}

/// Every step of a dispatch that nothing consumes: the global handlers;
/// then, for an event with a target, capture through the ancestors from
/// the root down, the target's handlers in the target phase, and bubble
/// through the ancestors from the nearest up. `anc` lists the target's
/// ancestors from its parent to the root.
pub open spec fn dispatch_plan(v: DispatcherView, target: Option<NodeId>, anc: Seq<NodeId>) -> Seq<DispatchStep> {
    global_calls(v.globals) + match target {
        None => Seq::empty(),
        Some(t) => capture_from(v, anc, 0) + seq![DispatchStep::SetPhase(EventPhase::Target)] + node_calls(
            v.handlers_of(t),
        ) + bubble_upto(v, anc, anc.len()),
    }
}

/// The steps a node contributes in a phase: the phase is set, then the
/// node's handlers are called in registration order.
pub open spec fn phase_steps(v: DispatcherView, phase: EventPhase, node: NodeId) -> Seq<DispatchStep> {
    seq![DispatchStep::SetPhase(phase)] + node_calls(v.handlers_of(node))
}

proof fn lemma_bubble_segments(v: DispatcherView, anc: Seq<NodeId>, k: nat)
    requires
        k <= anc.len(),
    ensures
        bubble_upto(v, anc, k) == Seq::new(k, |j: int| phase_steps(v, EventPhase::Bubble, anc[j])).flatten(),
    decreases k,
{
    let segs = Seq::new(k, |j: int| phase_steps(v, EventPhase::Bubble, anc[j]));
    if k == 0 {
        assert(segs =~= Seq::<Seq<DispatchStep>>::empty());
    } else {
        let prev = Seq::new((k - 1) as nat, |j: int| phase_steps(v, EventPhase::Bubble, anc[j]));
        lemma_bubble_segments(v, anc, (k - 1) as nat);
        assert(segs =~= prev.push(phase_steps(v, EventPhase::Bubble, anc[k - 1])));
        prev.lemma_flatten_push(phase_steps(v, EventPhase::Bubble, anc[k - 1]));
        assert(bubble_upto(v, anc, k) =~= prev.flatten() + phase_steps(v, EventPhase::Bubble, anc[k - 1]));
    }
}

proof fn lemma_capture_segments(v: DispatcherView, anc: Seq<NodeId>, i: nat)
    requires
        i <= anc.len(),
    ensures
        capture_from(v, anc, i) == Seq::new(
            (anc.len() - i) as nat,
            |j: int| phase_steps(v, EventPhase::Capture, anc[anc.len() - 1 - j]),
        ).flatten(),
    decreases anc.len() - i,
{
    let n = anc.len();
    let segs = Seq::new((n - i) as nat, |j: int| phase_steps(v, EventPhase::Capture, anc[n - 1 - j]));
    if i == n {
        assert(segs =~= Seq::<Seq<DispatchStep>>::empty());
    } else {
        let prev = Seq::new((n - i - 1) as nat, |j: int| phase_steps(v, EventPhase::Capture, anc[n - 1 - j]));
        lemma_capture_segments(v, anc, i + 1);
        assert(segs =~= prev.push(phase_steps(v, EventPhase::Capture, anc[i as int])));
        prev.lemma_flatten_push(phase_steps(v, EventPhase::Capture, anc[i as int]));
        assert(capture_from(v, anc, i) =~= prev.flatten() + phase_steps(v, EventPhase::Capture, anc[i as int]));
    }
}

/// The order of a dispatch that nothing consumes. The global handlers come
/// first. For an event with a target whose ancestors are `anc[0]` (the
/// parent) to `anc[n - 1]` (the root): capture visits the ancestors from the
/// root down, the `j`-th of them being `anc[n - 1 - j]`; then the target in
/// the target phase; then bubble visits them from the parent up, the `j`-th
/// of them being `anc[j]`, the reverse of capture. Each visit sets the phase
/// and calls the node's handlers in registration order.
pub proof fn lemma_dispatch_order(v: DispatcherView, target: Option<NodeId>, anc: Seq<NodeId>)
    ensures
        target is None ==> dispatch_plan(v, target, anc) == global_calls(v.globals),
        target matches Some(t) ==> dispatch_plan(v, target, anc) == global_calls(v.globals) + Seq::new(
            anc.len(),
            |j: int| phase_steps(v, EventPhase::Capture, anc[anc.len() - 1 - j]),
        ).flatten() + phase_steps(v, EventPhase::Target, t) + Seq::new(
            anc.len(),
            |j: int| phase_steps(v, EventPhase::Bubble, anc[j]),
        ).flatten(),
{
    lemma_capture_segments(v, anc, 0);
    lemma_bubble_segments(v, anc, anc.len());
    match target {
        None => {
            assert(dispatch_plan(v, target, anc) =~= global_calls(v.globals));
        },
        Some(t) => {
            assert(Seq::new((anc.len() - 0) as nat, |j: int| phase_steps(v, EventPhase::Capture, anc[anc.len() - 1 - j]))
                =~= Seq::new(anc.len(), |j: int| phase_steps(v, EventPhase::Capture, anc[anc.len() - 1 - j])));
            assert(dispatch_plan(v, target, anc) =~= global_calls(v.globals) + Seq::new(
                anc.len(),
                |j: int| phase_steps(v, EventPhase::Capture, anc[anc.len() - 1 - j]),
            ).flatten() + phase_steps(v, EventPhase::Target, t) + Seq::new(
                anc.len(),
                |j: int| phase_steps(v, EventPhase::Bubble, anc[j]),
            ).flatten());
        },
    }
}

/// Whether a handler's answer ends the dispatch after `step`.
pub open spec fn stops(step: DispatchStep, result: EventResult, consumed: bool) -> bool {
    match step {
        DispatchStep::SetPhase(_) => false,
        DispatchStep::CallGlobal(_) => result == EventResult::Consumed,
        DispatchStep::CallNode(_) => result == EventResult::Consumed || consumed,
    }
}

/// The handler registrations of the node tree.
pub struct EventDispatcher {
    nodes: Vec<NodeId>,
    lists: Vec<Vec<HandlerId>>,
    global_handlers: Vec<HandlerId>,
    count: usize,
    next_id: u64,
}

impl EventDispatcher {
    /// The registrations.
    pub closed spec fn view(&self) -> DispatcherView {
        DispatcherView {
            nodes: self.nodes@,
            lists: Seq::new(self.lists@.len(), |i: int| self.lists@[i]@),
            globals: self.global_handlers@,
            next_id: self.next_id,
        }
    }

    /// One entry per node, each with at least one handler, and the count
    /// kept.
    pub closed spec fn wf(&self) -> bool {
        &&& self.nodes@.len() == self.lists@.len()
        &&& forall|i: int, j: int| 0 <= i < j < self.nodes@.len() ==> self.nodes@[i] != self.nodes@[j]
        &&& forall|i: int| 0 <= i < self.lists@.len() ==> #[trigger] self.lists@[i]@.len() > 0
        &&& self.count == self.view().count()
    }

    /// No registration.
    pub fn new() -> (d: EventDispatcher)
        ensures
            d.wf(),
            d.view().nodes.len() == 0,
            d.view().lists.len() == 0,
            d.view().globals.len() == 0,
            d.view().next_id == 0,
    {
        let d = EventDispatcher {
            nodes: Vec::new(),
            lists: Vec::new(),
            global_handlers: Vec::new(),
            count: 0,
            next_id: 0,
        };
        assert(d.view().lists =~= Seq::<Seq<HandlerId>>::empty());
        d
    }

    /// Registers the next handler of `node_id`, after the ones it has;
    /// returns the handler's number.
    pub fn on(&mut self, node_id: NodeId) -> (h: HandlerId)
        requires
            old(self).wf(),
            old(self).view().count() < usize::MAX,
            old(self).view().next_id < u64::MAX,
        ensures
            final(self).wf(),
            h.0 == old(self).view().next_id,
            final(self).view().next_id == old(self).view().next_id + 1,
            final(self).view().globals == old(self).view().globals,
            final(self).view().count() == old(self).view().count() + 1,
            final(self).view().has(node_id),
            final(self).view().handlers_of(node_id) == old(self).view().handlers_of(node_id).push(h),
            forall|n: NodeId|
                n != node_id ==> final(self).view().handlers_of(n) == old(self).view().handlers_of(n)
                    && final(self).view().has(n) == old(self).view().has(n),
    {
        let h = HandlerId(self.next_id);
        self.next_id = self.next_id + 1;
        let ghost old_lists = self.view().lists;
        proof {
            lemma_node_index(self.nodes@, node_id);
        }
        match self.find(node_id) {
            Some(k) => {
                let mut list = Vec::new();
                std::mem::swap(&mut list, &mut self.lists[k]);
                list.push(h);
                self.lists.set(k, list);
                proof {
                    assert(self.view().lists =~= old_lists.update(k as int, old_lists[k as int].push(h)));
                    lemma_total_update(old_lists, k as int, old_lists[k as int].push(h));
                }
            },
            None => {
                self.nodes.push(node_id);
                let mut list = Vec::new();
                list.push(h);
                self.lists.push(list);
                proof {
                    assert(self.view().lists =~= old_lists.push(seq![h]));
                    assert(old_lists.push(seq![h]).drop_last() =~= old_lists);
                    lemma_node_index(self.nodes@, node_id);
                    assert(self.nodes@.drop_last() =~= old(self).nodes@);
                }
            },
        }
        self.count = self.count + 1;
        proof {
            assert forall|n: NodeId| n != node_id implies self.view().handlers_of(n) == old(self).view().handlers_of(n)
                && self.view().has(n) == old(self).view().has(n) by {
                lemma_node_index(self.nodes@, n);
                lemma_node_index(old(self).nodes@, n);
                if self.nodes@.len() > old(self).nodes@.len() {
                    assert(self.nodes@.drop_last() =~= old(self).nodes@);
                }
            }
        }
        h
    }

    fn find(&self, node_id: NodeId) -> (r: Option<usize>)
        requires
            self.wf(),
        ensures
            match r {
                Some(k) => k as int == node_index(self.nodes@, node_id) && k < self.nodes@.len(),
                None => node_index(self.nodes@, node_id) == -1,
            },
    {
        proof {
            lemma_node_index(self.nodes@, node_id);
        }
        let mut i: usize = self.nodes.len();
        while i > 0
            invariant
                i <= self.nodes@.len(),
                forall|j: int| i <= j < self.nodes@.len() ==> self.nodes@[j] != node_id,
                -1 <= node_index(self.nodes@, node_id) < self.nodes@.len(),
                node_index(self.nodes@, node_id) >= 0 ==> self.nodes@[node_index(self.nodes@, node_id)] == node_id,
                forall|j: int| node_index(self.nodes@, node_id) < j < self.nodes@.len() ==> self.nodes@[j] != node_id,
            decreases i,
        {
            i -= 1;
            if self.nodes[i].0 == node_id.0 {
                assert(self.nodes@[i as int] == node_id);
                return Some(i);
            }
        }
        None
    }

    /// Registers the next global handler; returns its number.
    pub fn on_global(&mut self) -> (h: HandlerId)
        requires
            old(self).wf(),
            old(self).view().count() < usize::MAX,
            old(self).view().next_id < u64::MAX,
        ensures
            final(self).wf(),
            h.0 == old(self).view().next_id,
            final(self).view() == (DispatcherView {
                globals: old(self).view().globals.push(h),
                next_id: (old(self).view().next_id + 1) as u64,
                ..old(self).view()
            }),
    {
        let h = HandlerId(self.next_id);
        self.next_id = self.next_id + 1;
        self.global_handlers.push(h);
        self.count = self.count + 1;
        assert(self.view().lists =~= old(self).view().lists);
        h
    }

    /// Drops every handler of `node_id`.
    pub fn remove_handlers(&mut self, node_id: NodeId)
        requires
            old(self).wf(),
        ensures
            final(self).wf(),
            !final(self).view().has(node_id),
            final(self).view().globals == old(self).view().globals,
            final(self).view().next_id == old(self).view().next_id,
            final(self).view().count() == old(self).view().count() - old(self).view().handlers_of(node_id).len(),
            forall|n: NodeId|
                n != node_id ==> final(self).view().handlers_of(n) == old(self).view().handlers_of(n)
                    && final(self).view().has(n) == old(self).view().has(n),
    {
        let ghost old_lists = self.view().lists;
        proof {
            lemma_node_index(self.nodes@, node_id);
        }
        match self.find(node_id) {
            Some(k) => {
                let list = self.lists.remove(k);
                self.nodes.remove(k);
                proof {
                    assert(self.view().lists =~= old_lists.remove(k as int));
                    lemma_total_remove(old_lists, k as int);
                    assert forall|i: int, j: int| 0 <= i < j < self.nodes@.len() implies self.nodes@[i]
                        != self.nodes@[j] by {
                        let oi = if i < k { i } else { i + 1 };
                        let oj = if j < k { j } else { j + 1 };
                        assert(self.nodes@[i] == old(self).nodes@[oi]);
                        assert(self.nodes@[j] == old(self).nodes@[oj]);
                    }
                    assert forall|i: int| 0 <= i < self.lists@.len() implies #[trigger] self.lists@[i]@.len() > 0 by {
                        let oi = if i < k { i } else { i + 1 };
                        assert(self.lists@[i] == old(self).lists@[oi]);
                    }
                }
                self.count = self.count - list.len();
                proof {
                    lemma_node_index(self.nodes@, node_id);
                    assert forall|n: NodeId| n != node_id implies self.view().handlers_of(n) == old(self).view().handlers_of(
                        n,
                    ) && self.view().has(n) == old(self).view().has(n) by {
                        lemma_node_index(self.nodes@, n);
                        lemma_node_index(old(self).nodes@, n);
                        let a = node_index(old(self).nodes@, n);
                        let b = node_index(self.nodes@, n);
                        if a >= 0 {
                            let na = if a < k { a } else { a - 1 };
                            assert(self.nodes@[na] == n);
                        }
                        if b >= 0 {
                            let ob = if b < k { b } else { b + 1 };
                            assert(old(self).nodes@[ob] == n);
                        }
                    }
                }
            },
            None => {},
        }
    }

    /// Drops every registration. Handler numbers keep counting.
    pub fn clear(&mut self)
        ensures
            final(self).wf(),
            final(self).view().nodes.len() == 0,
            final(self).view().globals.len() == 0,
            final(self).view().next_id == old(self).view().next_id,
    {
        self.nodes.clear();
        self.lists.clear();
        self.global_handlers.clear();
        self.count = 0;
        assert(self.view().lists =~= Seq::<Seq<HandlerId>>::empty());
    }

    /// The number of handlers, node and global.
    pub fn handler_count(&self) -> (n: usize)
        requires
            self.wf(),
        ensures
            n == self.view().count(),
    {
        self.count
    }

    /// Whether `node_id` has handlers.
    pub fn has_handlers(&self, node_id: NodeId) -> (b: bool)
        requires
            self.wf(),
        ensures
            b == self.view().has(node_id),
    {
        self.find(node_id).is_some()
    }

    fn push_node_calls(&self, out: &mut Vec<DispatchStep>, node_id: NodeId)
        requires
            self.wf(),
        ensures
            final(out)@ == old(out)@ + node_calls(self.view().handlers_of(node_id)),
    {
        match self.find(node_id) {
            Some(k) => {
                let list = &self.lists[k];
                let ghost hs = self.view().lists[k as int];
                assert(list@ == hs);
                let mut i: usize = 0;
                while i < list.len()
                    invariant
                        i <= list@.len(),
                        list@ == hs,
                        out@ == old(out)@ + node_calls(hs.subrange(0, i as int)),
                    decreases list@.len() - i,
                {
                    out.push(DispatchStep::CallNode(list[i]));
                    assert(node_calls(hs.subrange(0, i + 1)) =~= node_calls(hs.subrange(0, i as int)).push(
                        DispatchStep::CallNode(hs[i as int]),
                    ));
                    i += 1;
                }
                assert(hs.subrange(0, hs.len() as int) =~= hs);
            },
            None => {
                assert(node_calls(Seq::<HandlerId>::empty()) =~= Seq::<DispatchStep>::empty());
                assert(out@ =~= old(out)@ + Seq::<DispatchStep>::empty());
            },
        }
    }

    /// Plans the dispatch of an event with `target` (none for an event
    /// without one) whose ancestors, from its parent to the root, are
    /// `ancestors`.
    pub fn dispatch(&self, target: Option<NodeId>, ancestors: &[NodeId]) -> (d: Dispatch)
        requires
            self.wf(),
        ensures
            d.steps() == dispatch_plan(self.view(), target, ancestors@),
            d.position() == 0,
            !d.is_stopped(),
    {
        let mut steps: Vec<DispatchStep> = Vec::new();
        let mut g: usize = 0;
        while g < self.global_handlers.len()
            invariant
                g <= self.global_handlers@.len(),
                steps@ == global_calls(self.global_handlers@.subrange(0, g as int)),
            decreases self.global_handlers@.len() - g,
        {
            steps.push(DispatchStep::CallGlobal(self.global_handlers[g]));
            assert(global_calls(self.global_handlers@.subrange(0, g + 1)) =~= global_calls(
                self.global_handlers@.subrange(0, g as int),
            ).push(DispatchStep::CallGlobal(self.global_handlers@[g as int])));
            g += 1;
        }
        assert(self.global_handlers@.subrange(0, g as int) =~= self.global_handlers@);
        let ghost globals = steps@;
        match target {
            None => {},
            Some(t) => {
                let mut i: usize = ancestors.len();
                assert(capture_from(self.view(), ancestors@, i as nat) =~= Seq::<DispatchStep>::empty());
                while i > 0
                    invariant
                        i <= ancestors@.len(),
                        self.wf(),
                        steps@ == globals + capture_from(self.view(), ancestors@, i as nat),
                    decreases i,
                {
                    i -= 1;
                    steps.push(DispatchStep::SetPhase(EventPhase::Capture));
                    self.push_node_calls(&mut steps, ancestors[i]);
                    assert(steps@ =~= globals + capture_from(self.view(), ancestors@, i as nat));
                }
                let ghost captured = steps@;
                steps.push(DispatchStep::SetPhase(EventPhase::Target));
                self.push_node_calls(&mut steps, t);
                let ghost targeted = steps@;
                let mut k: usize = 0;
                assert(bubble_upto(self.view(), ancestors@, 0) =~= Seq::<DispatchStep>::empty());
                while k < ancestors.len()
                    invariant
                        k <= ancestors@.len(),
                        self.wf(),
                        steps@ == targeted + bubble_upto(self.view(), ancestors@, k as nat),
                    decreases ancestors@.len() - k,
                {
                    steps.push(DispatchStep::SetPhase(EventPhase::Bubble));
                    self.push_node_calls(&mut steps, ancestors[k]);
                    k += 1;
                    assert(steps@ =~= targeted + bubble_upto(self.view(), ancestors@, k as nat));
                }
                assert(steps@ =~= dispatch_plan(self.view(), target, ancestors@));
            },
        }
        proof {
            if target is None {
                assert(steps@ =~= dispatch_plan(self.view(), target, ancestors@));
            }
        }
        Dispatch { steps, pos: 0, stopped: false }
    }
}

proof fn lemma_total_update(lists: Seq<Seq<HandlerId>>, k: int, l: Seq<HandlerId>)
    requires
        0 <= k < lists.len(),
    ensures
        total_handlers(lists.update(k, l)) + lists[k].len() == total_handlers(lists) + l.len(),
    decreases lists.len(),
{
    if k < lists.len() - 1 {
        assert(lists.update(k, l).drop_last() =~= lists.drop_last().update(k, l));
        lemma_total_update(lists.drop_last(), k, l);
    } else {
        assert(lists.update(k, l).drop_last() =~= lists.drop_last());
    }
}

proof fn lemma_total_remove(lists: Seq<Seq<HandlerId>>, k: int)
    requires
        0 <= k < lists.len(),
    ensures
        total_handlers(lists.remove(k)) + lists[k].len() == total_handlers(lists),
    decreases lists.len(),
{
    if k < lists.len() - 1 {
        assert(lists.remove(k).drop_last() =~= lists.drop_last().remove(k));
        lemma_total_remove(lists.drop_last(), k);
    } else {
        assert(lists.remove(k) =~= lists.drop_last());
    }
}

impl Default for EventDispatcher {
    fn default() -> (d: EventDispatcher)
        ensures
            d.wf(),
            d.view().nodes.len() == 0,
            d.view().lists.len() == 0,
            d.view().globals.len() == 0,
            d.view().next_id == 0,
    {
        EventDispatcher::new()
    }
}

/// A dispatch under way: the planned steps, how far it has come, and
/// whether a handler ended it.
pub struct Dispatch {
    steps: Vec<DispatchStep>,
    pos: usize,
    stopped: bool,
}

impl Dispatch {
    /// The planned steps.
    pub closed spec fn steps(&self) -> Seq<DispatchStep> {
        self.steps@
    }

    /// How many steps were handed out.
    pub closed spec fn position(&self) -> nat {
        self.pos as nat
    }

    /// Whether a handler ended the dispatch.
    pub closed spec fn is_stopped(&self) -> bool {
        self.stopped
    }

    /// The next step to perform, or none when the dispatch is over (every
    /// step done, or a handler ended it).
    pub fn next_step(&mut self) -> (s: Option<DispatchStep>)
        requires
            old(self).position() <= old(self).steps().len(),
        ensures
            final(self).steps() == old(self).steps(),
            final(self).is_stopped() == old(self).is_stopped(),
            final(self).position() <= final(self).steps().len(),
            if old(self).is_stopped() || old(self).position() == old(self).steps().len() {
                s is None && final(self).position() == old(self).position()
            } else {
                s == Some(old(self).steps()[old(self).position() as int]) && final(self).position()
                    == old(self).position() + 1
            },
    {
        if self.stopped || self.pos >= self.steps.len() {
            None
        } else {
            let s = self.steps[self.pos];
            self.pos = self.pos + 1;
            Some(s)
        }
    }

    /// Reports what the handler of the last step answered and whether the
    /// event is now consumed; the dispatch ends when that stops it.
    pub fn report(&mut self, result: EventResult, consumed: bool)
        requires
            0 < old(self).position() <= old(self).steps().len(),
        ensures
            final(self).steps() == old(self).steps(),
            final(self).position() == old(self).position(),
            final(self).is_stopped() == (old(self).is_stopped() || stops(
                old(self).steps()[old(self).position() - 1],
                result,
                consumed,
            )),
    {
        let step = self.steps[self.pos - 1];
        let stop = match step {
            DispatchStep::SetPhase(_) => false,
            DispatchStep::CallGlobal(_) => result == EventResult::Consumed,
            DispatchStep::CallNode(_) => result == EventResult::Consumed || consumed,
        };
        if stop {
            self.stopped = true;
        }
    }

    /// `Consumed` when a handler ended the dispatch, else `Ignored`.
    pub fn outcome(&self) -> (r: EventResult)
        ensures
            r == (if self.is_stopped() {
                EventResult::Consumed
            } else {
                EventResult::Ignored
            }),
    {
        if self.stopped {
            EventResult::Consumed
        } else {
            EventResult::Ignored
        }
    }
}

} // verus!
