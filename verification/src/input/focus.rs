//! Focus management: focus identifiers and per-node focus state, focus
//! scopes, focus events, the focus manager and focus traversal.

use vstd::prelude::*;
use crate::tree::NodeId;

verus! {

// ---------------------------------------------------------------------------
// Events
// ---------------------------------------------------------------------------

/// The kind of a focus change.
#[derive(Debug, Clone, Copy, PartialEq, Eq, Structural)]
pub enum FocusEventType {
    Focus,
    Blur,
    FocusIn,
    FocusOut,
}

/// A focus change of a node.
#[derive(Debug, Clone, Copy, PartialEq, Eq, Structural)]
pub struct FocusEvent {
    pub node_id: NodeId,
    pub event_type: FocusEventType,
}

/// Another name of `FocusEvent`, the one the focus manager's operations
/// answer with.
#[allow(non_camel_case_types)]
pub type FocusEvent_ = FocusEvent;

impl FocusEvent {
    /// A focus change of `node_id`.
    pub fn new(node_id: NodeId, event_type: FocusEventType) -> (e: FocusEvent)
        ensures
            e == (FocusEvent { node_id, event_type }),
    {
        FocusEvent { node_id, event_type }
    }

    /// `true` for a focus event.
    pub fn is_focus(&self) -> (b: bool)
        ensures
            b == (self.event_type == FocusEventType::Focus),
    {
        self.event_type == FocusEventType::Focus
    }

    /// `true` for a blur event.
    pub fn is_blur(&self) -> (b: bool)
        ensures
            b == (self.event_type == FocusEventType::Blur),
    {
        self.event_type == FocusEventType::Blur
    }

    /// `true` for a focus-in event.
    pub fn is_focus_in(&self) -> (b: bool)
        ensures
            b == (self.event_type == FocusEventType::FocusIn),
    {
        self.event_type == FocusEventType::FocusIn
    }

    /// `true` for a focus-out event.
    pub fn is_focus_out(&self) -> (b: bool)
        ensures
            b == (self.event_type == FocusEventType::FocusOut),
    {
        self.event_type == FocusEventType::FocusOut
    }
}

// ---------------------------------------------------------------------------
// Scopes
// ---------------------------------------------------------------------------

/// The kind of a focus scope.
#[derive(Debug, Clone, Copy, PartialEq, Eq, Structural)]
pub enum FocusScopeType {
    Window,
    Panel,
    Modal,
    Popup,
    Tooltip,
}

/// A focus scope rooted at a node.
#[derive(Debug, Clone, Copy, PartialEq, Eq, Structural)]
pub struct FocusScope {
    pub id: NodeId,
    pub scope_type: FocusScopeType,
    pub modal: bool,
    pub trap_focus: bool,
}

impl FocusScope {
    /// A scope that is neither modal nor trapping focus.
    pub fn new(id: NodeId, scope_type: FocusScopeType) -> (s: FocusScope)
        ensures
            s == (FocusScope { id, scope_type, modal: false, trap_focus: false }),
    {
        FocusScope { id, scope_type, modal: false, trap_focus: false }
    }

    /// This scope with `modal`.
    pub fn with_modal(self, modal: bool) -> (s: FocusScope)
        ensures
            s == (FocusScope { modal, ..self }),
    {
        let mut s = self;
        s.modal = modal;
        s
    }

    /// This scope with `trap_focus`.
    pub fn with_trap_focus(self, trap_focus: bool) -> (s: FocusScope)
        ensures
            s == (FocusScope { trap_focus, ..self }),
    {
        let mut s = self;
        s.trap_focus = trap_focus;
        s
    }

    /// Whether the scope is modal.
    pub fn is_modal(&self) -> (b: bool)
        ensures
            b == self.modal,
    {
        self.modal
    }

    /// Whether the scope traps focus.
    pub fn traps_focus(&self) -> (b: bool)
        ensures
            b == self.trap_focus,
    {
        self.trap_focus
    }
}

/// The window scope of node 0.
pub open spec fn default_scope() -> FocusScope {
    FocusScope { id: NodeId(0), scope_type: FocusScopeType::Window, modal: false, trap_focus: false }
}

impl Default for FocusScope {
    fn default() -> (s: FocusScope)
        ensures
            s == default_scope(),
    {
        FocusScope::new(NodeId::default(), FocusScopeType::Window)
    }
}

// ---------------------------------------------------------------------------
// Identifiers and state
// ---------------------------------------------------------------------------

/// The identifier of a focusable node.
#[derive(Debug, Clone, Copy, PartialEq, Eq, Hash, Structural)]
pub struct FocusId(pub NodeId);

impl FocusId {
    /// The focus identifier of `node_id`.
    pub fn new(node_id: NodeId) -> (f: FocusId)
        ensures
            f.0 == node_id,
    {
        FocusId(node_id)
    }

    /// The node this identifier names.
    pub fn node_id(&self) -> (n: NodeId)
        ensures
            n == self.0,
    {
        self.0
    }
}

impl Default for FocusId {
    fn default() -> (f: FocusId)
        ensures
            f.0 == NodeId(0),
    {
        FocusId(NodeId::default())
    }
}

/// The focus state of a node.
#[derive(Debug, Clone, Copy, PartialEq, Eq, Structural)]
pub struct FocusState {
    pub focused: Option<FocusId>,
    pub previous: Option<FocusId>,
    pub scope: FocusScope,
    pub tab_index: i32,
    pub focusable: bool,
}

/// A focusable, unfocused state with tab index 0 in the default scope.
pub open spec fn initial_state() -> FocusState {
    FocusState { focused: None, previous: None, scope: default_scope(), tab_index: 0, focusable: true }
}

impl FocusState {
    /// A focusable, unfocused state with tab index 0.
    pub fn new() -> (s: FocusState)
        ensures
            s == initial_state(),
    {
        FocusState {
            focused: None,
            previous: None,
            scope: FocusScope::default(),
            tab_index: 0,
            focusable: true,
        }
    }

    /// The initial state with `focusable`.
    pub fn with_focusable(focusable: bool) -> (s: FocusState)
        ensures
            s == (FocusState { focusable, ..initial_state() }),
    {
        let mut s = Self::new();
        s.focusable = focusable;
        s
    }

    /// The initial state with `tab_index`.
    pub fn with_tab_index(tab_index: i32) -> (s: FocusState)
        ensures
            s == (FocusState { tab_index, ..initial_state() }),
    {
        let mut s = Self::new();
        s.tab_index = tab_index;
        s
    }

    /// Whether the node can take focus.
    pub fn is_focusable(&self) -> (b: bool)
        ensures
            b == self.focusable,
    {
        self.focusable
    }

    /// Whether the node holds focus.
    pub fn is_focused(&self) -> (b: bool)
        ensures
            b == (self.focused is Some),
    {
        self.focused.is_some()
    }
}

impl Default for FocusState {
    fn default() -> (s: FocusState)
        ensures
            s == initial_state(),
    {
        FocusState::new()
    }
}

// ---------------------------------------------------------------------------
// Specification helpers
// ---------------------------------------------------------------------------

/// No node id occurs twice.
pub open spec fn unique_ids(nodes: Seq<(NodeId, FocusState)>) -> bool {
    forall|i: int, j: int| 0 <= i < j < nodes.len() ==> nodes[i].0 != nodes[j].0
}

/// The registered state of `id`, if any.
pub open spec fn lookup(nodes: Seq<(NodeId, FocusState)>, id: NodeId) -> Option<FocusState> {
    if exists|i: int| 0 <= i < nodes.len() && nodes[i].0 == id {
        Some(nodes[choose|i: int| 0 <= i < nodes.len() && nodes[i].0 == id].1)
    } else {
        None
    }
}

/// `id` is registered and focusable.
pub open spec fn focusable_in(nodes: Seq<(NodeId, FocusState)>, id: NodeId) -> bool {
    lookup(nodes, id) matches Some(s) && s.focusable
}

/// The ids of the focusable nodes, in registration order.
pub open spec fn focusable_ids(nodes: Seq<(NodeId, FocusState)>) -> Seq<NodeId>
    decreases nodes.len(),
{
    if nodes.len() == 0 {
        Seq::empty()
    } else {
        let rest = focusable_ids(nodes.drop_last());
        if nodes.last().1.focusable {
            rest.push(nodes.last().0)
        } else {
            rest
        }
    }
}

/// Inserts `x` after every element whose key is at most `x`'s key.
pub open spec fn insert_by_key(s: Seq<(NodeId, i32)>, x: (NodeId, i32)) -> Seq<(NodeId, i32)>
    decreases s.len(),
{
    if s.len() == 0 {
        seq![x]
    } else if s.last().1 <= x.1 {
        s.push(x)
    } else {
        insert_by_key(s.drop_last(), x).push(s.last())
    }
}

/// The stable sort of `s` by key.
pub open spec fn stable_sort_by_key(s: Seq<(NodeId, i32)>) -> Seq<(NodeId, i32)>
    decreases s.len(),
{
    if s.len() == 0 {
        Seq::empty()
    } else {
        insert_by_key(stable_sort_by_key(s.drop_last()), s.last())
    }
}

/// The focusable nodes with their tab indices, in registration order.
pub open spec fn keyed_focusable(nodes: Seq<(NodeId, FocusState)>) -> Seq<(NodeId, i32)>
    decreases nodes.len(),
{
    if nodes.len() == 0 {
        Seq::empty()
    } else {
        let rest = keyed_focusable(nodes.drop_last());
        if nodes.last().1.focusable {
            rest.push((nodes.last().0, nodes.last().1.tab_index))
        } else {
            rest
        }
    }
}

/// The tab order: the focusable nodes, stably sorted by tab index.
pub open spec fn tab_order_of(nodes: Seq<(NodeId, FocusState)>) -> Seq<NodeId> {
    stable_sort_by_key(keyed_focusable(nodes)).map_values(|p: (NodeId, i32)| p.0)
}

/// `s` is in ascending order of key.
pub open spec fn sorted_by_key(s: Seq<(NodeId, i32)>) -> bool {
    forall|i: int, j: int| 0 <= i <= j < s.len() ==> s[i].1 <= s[j].1
}

/// The entries of `s` whose key is `k`, in their order in `s`.
pub open spec fn with_key(s: Seq<(NodeId, i32)>, k: i32) -> Seq<(NodeId, i32)> {
    s.filter(|p: (NodeId, i32)| p.1 == k)
}

proof fn lemma_with_key_push(s: Seq<(NodeId, i32)>, x: (NodeId, i32), k: i32)
    ensures
        with_key(s.push(x), k) == (if x.1 == k {
            with_key(s, k).push(x)
        } else {
            with_key(s, k)
        }),
{
    reveal(Seq::filter);
    assert(s.push(x).drop_last() =~= s);
}

proof fn lemma_insert_by_key(s: Seq<(NodeId, i32)>, x: (NodeId, i32))
    requires
        sorted_by_key(s),
    ensures
        sorted_by_key(insert_by_key(s, x)),
        insert_by_key(s, x).to_multiset() == s.to_multiset().insert(x),
        forall|k: i32|
            #![trigger with_key(insert_by_key(s, x), k)]
            with_key(insert_by_key(s, x), k) == (if x.1 == k {
                with_key(s, k).push(x)
            } else {
                with_key(s, k)
            }),
    decreases s.len(),
{
    broadcast use vstd::seq_lib::group_to_multiset_ensures, vstd::multiset::group_multiset_axioms;

    if s.len() == 0 {
        assert(seq![x] =~= s.push(x));
        assert forall|k: i32| #![trigger with_key(insert_by_key(s, x), k)]
            with_key(insert_by_key(s, x), k) == (if x.1 == k {
                with_key(s, k).push(x)
            } else {
                with_key(s, k)
            }) by {
            lemma_with_key_push(s, x, k);
        }
    } else if s.last().1 <= x.1 {
        assert forall|k: i32| #![trigger with_key(insert_by_key(s, x), k)]
            with_key(insert_by_key(s, x), k) == (if x.1 == k {
                with_key(s, k).push(x)
            } else {
                with_key(s, k)
            }) by {
            lemma_with_key_push(s, x, k);
        }
    } else {
        let d = s.drop_last();
        let l = s.last();
        let r = insert_by_key(d, x);
        lemma_insert_by_key(d, x);
        assert(s =~= d.push(l));
        assert forall|i: int| 0 <= i < r.len() implies r[i].1 <= l.1 by {
            let e = r[i];
            assert(r.to_multiset().count(e) > 0);
            if e != x {
                assert(d.to_multiset().count(e) > 0);
                assert(d.contains(e));
                let j = choose|j: int| 0 <= j < d.len() && d[j] == e;
                assert(s[j] == e);
            }
        }
        assert(sorted_by_key(r.push(l))) by {
            assert forall|i: int, j: int| 0 <= i <= j < r.push(l).len() implies r.push(l)[i].1 <= r.push(
                l,
            )[j].1 by {
                if j == r.len() && i < r.len() {
                    assert(r[i].1 <= l.1);
                }
            }
        }
        assert forall|k: i32| #![trigger with_key(insert_by_key(s, x), k)]
            with_key(insert_by_key(s, x), k) == (if x.1 == k {
                with_key(s, k).push(x)
            } else {
                with_key(s, k)
            }) by {
            lemma_with_key_push(r, l, k);
            lemma_with_key_push(d, l, k);
        }
    }
}

proof fn lemma_stable_sort(s: Seq<(NodeId, i32)>)
    ensures
        sorted_by_key(stable_sort_by_key(s)),
        stable_sort_by_key(s).to_multiset() == s.to_multiset(),
        forall|k: i32| #![trigger with_key(stable_sort_by_key(s), k)] with_key(stable_sort_by_key(s), k) == with_key(s, k),
    decreases s.len(),
{
    broadcast use vstd::seq_lib::group_to_multiset_ensures;

    if s.len() == 0 {
    } else {
        let d = s.drop_last();
        lemma_stable_sort(d);
        lemma_insert_by_key(stable_sort_by_key(d), s.last());
        assert(s =~= d.push(s.last()));
        assert forall|k: i32| #![trigger with_key(stable_sort_by_key(s), k)]
            with_key(stable_sort_by_key(s), k) == with_key(s, k) by {
            lemma_with_key_push(d, s.last(), k);
        }
    }
}

/// The tab order is the focusable nodes sorted by tab index: the keyed
/// list behind it is in ascending order of tab index, holds exactly the
/// focusable nodes with their tab indices, and keeps nodes with equal tab
/// index in registration order.
pub proof fn lemma_tab_order_sorted(nodes: Seq<(NodeId, FocusState)>)
    ensures
        tab_order_of(nodes) == stable_sort_by_key(keyed_focusable(nodes)).map_values(|p: (NodeId, i32)| p.0),
        sorted_by_key(stable_sort_by_key(keyed_focusable(nodes))),
        stable_sort_by_key(keyed_focusable(nodes)).to_multiset() == keyed_focusable(nodes).to_multiset(),
        forall|k: i32|
            #![trigger with_key(stable_sort_by_key(keyed_focusable(nodes)), k)]
            with_key(stable_sort_by_key(keyed_focusable(nodes)), k) == with_key(keyed_focusable(nodes), k),
{
    lemma_stable_sort(keyed_focusable(nodes));
}

/// The first position of `x` in `s`, if it occurs.
pub open spec fn first_position(s: Seq<NodeId>, x: NodeId) -> Option<int> {
    if s.contains(x) {
        Some(choose|i: int| 0 <= i < s.len() && s[i] == x && forall|j: int| 0 <= j < i ==> s[j] != x)
    } else {
        None
    }
}

/// The registry with the `focused` field of `id`'s state set to `f`.
pub open spec fn set_focused_field(
    nodes: Seq<(NodeId, FocusState)>,
    id: NodeId,
    f: Option<FocusId>,
) -> Seq<(NodeId, FocusState)> {
    nodes.map_values(
        |p: (NodeId, FocusState)|
            if p.0 == id {
                (p.0, FocusState { focused: f, ..p.1 })
            } else {
                p
            },
    )
}

/// The registry after registering `id` with `state`: an existing entry is
/// replaced in place, a new one is appended.
pub open spec fn register_effect(
    nodes: Seq<(NodeId, FocusState)>,
    id: NodeId,
    state: FocusState,
) -> Seq<(NodeId, FocusState)> {
    if exists|i: int| 0 <= i < nodes.len() && nodes[i].0 == id {
        nodes.map_values(
            |p: (NodeId, FocusState)|
                if p.0 == id {
                    (id, state)
                } else {
                    p
                },
        )
    } else {
        nodes.push((id, state))
    }
}

/// The registry without `id`.
pub open spec fn unregister_effect(nodes: Seq<(NodeId, FocusState)>, id: NodeId) -> Seq<
    (NodeId, FocusState),
> {
    nodes.filter(|p: (NodeId, FocusState)| p.0 != id)
}

proof fn lemma_lookup_index(nodes: Seq<(NodeId, FocusState)>, i: int)
    requires
        unique_ids(nodes),
        0 <= i < nodes.len(),
    ensures
        lookup(nodes, nodes[i].0) == Some(nodes[i].1),
{
    let id = nodes[i].0;
    let k = choose|k: int| 0 <= k < nodes.len() && nodes[k].0 == id;
    assert(k == i) by {
        if k < i {
            assert(nodes[k].0 != nodes[i].0);
        } else if k > i {
            assert(nodes[i].0 != nodes[k].0);
        }
    }
}

// ---------------------------------------------------------------------------
// Manager
// ---------------------------------------------------------------------------

/// Tracks the focusable nodes, the focused node, the previously focused node,
/// a stack of focus scopes and the tab order.
#[derive(Debug, Clone)]
pub struct FocusManager {
    nodes: Vec<(NodeId, FocusState)>,
    focused: Option<FocusId>,
    previous: Option<FocusId>,
    scopes: Vec<FocusScope>,
    tab_order: Vec<NodeId>,
}

/// `b` and `ev` are what focusing `node_id` makes of `a`: when the node is
/// not registered and focusable, or already focused, nothing changes and
/// there is no event; otherwise it becomes the focused node, the former
/// focus becomes the previous one, the states of both record the change,
/// and the event is the blur of the former focus, or the focus of
/// `node_id` when nothing was focused.
pub open spec fn focus_moved(a: FocusManager, node_id: NodeId, b: FocusManager, ev: Option<FocusEvent>) -> bool {
    if !focusable_in(a.registry(), node_id) || a.focused_node() == Some(node_id) {
        &&& ev is None
        &&& b.registry() == a.registry()
        &&& b.focused_node() == a.focused_node()
        &&& b.previous_node() == a.previous_node()
    } else {
        &&& b.focused_node() == Some(node_id)
        &&& b.previous_node() == a.focused_node()
        &&& b.registry() == set_focused_field(
            match a.focused_node() {
                Some(o) => set_focused_field(a.registry(), o, None),
                None => a.registry(),
            },
            node_id,
            Some(FocusId(node_id)),
        )
        &&& ev == match a.focused_node() {
            Some(o) => Some(FocusEvent { node_id: o, event_type: FocusEventType::Blur }),
            None => Some(FocusEvent { node_id, event_type: FocusEventType::Focus }),
        }
    }
}

impl FocusManager {
    /// The registered nodes and their states, in registration order.
    pub closed spec fn registry(&self) -> Seq<(NodeId, FocusState)> {
        self.nodes@
    }

    /// The focused node.
    pub closed spec fn focused_node(&self) -> Option<NodeId> {
        match self.focused {
            Some(f) => Some(f.0),
            None => None,
        }
    }

    /// The node that held focus before the current one.
    pub closed spec fn previous_node(&self) -> Option<NodeId> {
        match self.previous {
            Some(f) => Some(f.0),
            None => None,
        }
    }

    /// The scope stack, innermost last.
    pub closed spec fn scope_stack(&self) -> Seq<FocusScope> {
        self.scopes@
    }

    /// The manager's invariant: ids are unique, the tab order is current,
    /// and a focused node is registered.
    pub closed spec fn wf(&self) -> bool {
        &&& unique_ids(self.nodes@)
        &&& self.tab_order@ == tab_order_of(self.nodes@)
        &&& self.focused matches Some(f) ==> lookup(self.nodes@, f.0) is Some
    }

    /// A focused node is registered.
    pub proof fn lemma_focused_registered(&self)
        requires
            self.wf(),
        ensures
            self.focused_node() matches Some(n) ==> lookup(self.registry(), n) is Some,
    {
    }

    /// An empty manager.
    pub fn new() -> (m: FocusManager)
        ensures
            m.wf(),
            m.registry().len() == 0,
            m.focused_node() is None,
            m.previous_node() is None,
            m.scope_stack().len() == 0,
    {
        let m = FocusManager {
            nodes: Vec::new(),
            focused: None,
            previous: None,
            scopes: Vec::new(),
            tab_order: Vec::new(),
        };
        assert(keyed_focusable(m.nodes@) =~= Seq::empty());
        assert(tab_order_of(m.nodes@) =~= m.tab_order@);
        m
    }

    fn find(&self, node_id: NodeId) -> (r: Option<usize>)
        requires
            unique_ids(self.nodes@),
        ensures
            match r {
                Some(i) => i < self.nodes@.len() && self.nodes@[i as int].0 == node_id,
                None => forall|i: int| 0 <= i < self.nodes@.len() ==> self.nodes@[i].0 != node_id,
            },
    {
        let mut i: usize = 0;
        while i < self.nodes.len()
            invariant
                i <= self.nodes@.len(),
                forall|j: int| 0 <= j < i ==> self.nodes@[j].0 != node_id,
            decreases self.nodes@.len() - i,
        {
            if self.nodes[i].0 == node_id {
                return Some(i);
            }
            i += 1;
        }
        None
    }

    fn update_tab_order(&mut self)
        ensures
            final(self).nodes@ == old(self).nodes@,
            final(self).focused == old(self).focused,
            final(self).previous == old(self).previous,
            final(self).scopes@ == old(self).scopes@,
            final(self).tab_order@ == tab_order_of(old(self).nodes@),
    {
        let mut keyed: Vec<(NodeId, i32)> = Vec::new();
        let mut i: usize = 0;
        while i < self.nodes.len()
            invariant
                i <= self.nodes@.len(),
                keyed@ == keyed_focusable(self.nodes@.subrange(0, i as int)),
            decreases self.nodes@.len() - i,
        {
            let (id, st) = self.nodes[i];
            if st.focusable {
                keyed.push((id, st.tab_index));
            }
            assert(self.nodes@.subrange(0, i + 1).drop_last() =~= self.nodes@.subrange(0, i as int));
            i += 1;
        }
        assert(self.nodes@.subrange(0, self.nodes@.len() as int) =~= self.nodes@);
        let mut sorted: Vec<(NodeId, i32)> = Vec::new();
        let mut k: usize = 0;
        while k < keyed.len()
            invariant
                k <= keyed@.len(),
                sorted@ == stable_sort_by_key(keyed@.subrange(0, k as int)),
            decreases keyed@.len() - k,
        {
            let x = keyed[k];
            let ghost before = sorted@;
            // Find the insertion point: after the last element with key <= x's key.
            let mut p: usize = sorted.len();
            assert(before.subrange(0, p as int) =~= before);
            assert(before.subrange(p as int, before.len() as int) =~= Seq::<(NodeId, i32)>::empty());
            assert(insert_by_key(before, x) =~= insert_by_key(before, x) + Seq::<(NodeId, i32)>::empty());
            while p > 0 && sorted[p - 1].1 > x.1
                invariant
                    p <= sorted@.len(),
                    sorted@ == before,
                    insert_by_key(before, x) == insert_by_key(before.subrange(0, p as int), x) + before.subrange(p as int, before.len() as int),
                decreases p,
            {
                proof {
                    let s = before.subrange(0, p as int);
                    assert(s.drop_last() =~= before.subrange(0, p - 1));
                    assert(before.subrange(p - 1, before.len() as int) =~= seq![s.last()] + before.subrange(p as int, before.len() as int));
                    assert(insert_by_key(before.subrange(0, p - 1), x).push(s.last()) + before.subrange(p as int, before.len() as int)
                        =~= insert_by_key(before.subrange(0, p - 1), x) + before.subrange(p - 1, before.len() as int));
                }
                p -= 1;
            }
            proof {
                let s = before.subrange(0, p as int);
                if p > 0 {
                    assert(s.push(x) =~= insert_by_key(s, x));
                } else {
                    assert(s.len() == 0);
                }
                assert(insert_by_key(s, x) =~= s.push(x));
            }
            sorted.insert(p, x);
            proof {
                assert(sorted@ =~= before.subrange(0, p as int).push(x) + before.subrange(p as int, before.len() as int));
                assert(keyed@.subrange(0, k + 1).drop_last() =~= keyed@.subrange(0, k as int));
            }
            k += 1;
        }
        assert(keyed@.subrange(0, keyed@.len() as int) =~= keyed@);
        let mut order: Vec<NodeId> = Vec::new();
        let mut j: usize = 0;
        while j < sorted.len()
            invariant
                j <= sorted@.len(),
                order@ == sorted@.subrange(0, j as int).map_values(|p: (NodeId, i32)| p.0),
            decreases sorted@.len() - j,
        {
            order.push(sorted[j].0);
            assert(sorted@.subrange(0, j + 1).map_values(|p: (NodeId, i32)| p.0) =~= sorted@.subrange(0, j as int).map_values(|p: (NodeId, i32)| p.0).push(sorted@[j as int].0));
            j += 1;
        }
        assert(sorted@.subrange(0, sorted@.len() as int) =~= sorted@);
        self.tab_order = order;
    }

    /// Registers `node_id` with `state`, replacing an earlier registration, and
    /// refreshes the tab order.
    pub fn register(&mut self, node_id: NodeId, state: FocusState)
        requires
            old(self).wf(),
        ensures
            final(self).wf(),
            final(self).registry() == register_effect(old(self).registry(), node_id, state),
            final(self).focused_node() == old(self).focused_node(),
            final(self).previous_node() == old(self).previous_node(),
            final(self).scope_stack() == old(self).scope_stack(),
    {
        let ghost before = self.nodes@;
        match self.find(node_id) {
            Some(i) => {
                self.nodes.set(i, (node_id, state));
                proof {
                    assert(self.nodes@ =~= register_effect(before, node_id, state)) by {
                        assert forall|k: int| 0 <= k < before.len() implies #[trigger] self.nodes@[k] == (if before[k].0 == node_id {
                            (node_id, state)
                        } else {
                            before[k]
                        }) by {
                            if k != i {
                                assert(before[k].0 != before[i as int].0 || k == i);
                            }
                        }
                    }
                }
            },
            None => {
                self.nodes.push((node_id, state));
            },
        }
        proof {
            match self.focused {
                Some(f) => {
                    let w = choose|w: int| 0 <= w < before.len() && before[w].0 == f.0;
                    assert(self.nodes@[w].0 == f.0);
                },
                None => {},
            }
        }
        self.update_tab_order();
    }

    /// Removes `node_id`; clears the focus when it held it; refreshes the tab order.
    #[verifier::spinoff_prover]
    #[verifier::rlimit(30)]
    pub fn unregister(&mut self, node_id: NodeId)
        requires
            old(self).wf(),
        ensures
            final(self).wf(),
            final(self).registry() == unregister_effect(old(self).registry(), node_id),
            final(self).focused_node() == (if old(self).focused_node() == Some(node_id) {
                None
            } else {
                old(self).focused_node()
            }),
            final(self).previous_node() == old(self).previous_node(),
            final(self).scope_stack() == old(self).scope_stack(),
    {
        let ghost before = self.nodes@;
        let mut kept: Vec<(NodeId, FocusState)> = Vec::new();
        let mut i: usize = 0;
        while i < self.nodes.len()
            invariant
                i <= self.nodes@.len(),
                self.nodes@ == before,
                unique_ids(before),
                kept@ == unregister_effect(before.subrange(0, i as int), node_id),
                forall|a: int| 0 <= a < kept@.len() ==> exists|b: int| 0 <= b < i && before[b] == #[trigger] kept@[a],
                forall|b: int|
                    0 <= b < i && before[b].0 != node_id ==> exists|a: int|
                        0 <= a < kept@.len() && kept@[a] == #[trigger] before[b],
                unique_ids(kept@),
            decreases self.nodes@.len() - i,
        {
            let p = self.nodes[i];
            proof {
                assert(before.subrange(0, i + 1).drop_last() =~= before.subrange(0, i as int));
                reveal(Seq::filter);
            }
            if p.0 != node_id {
                proof {
                    assert forall|a: int| 0 <= a < kept@.len() implies kept@[a].0 != p.0 by {
                        let b = choose|b: int| 0 <= b < i && before[b] == kept@[a];
                        assert(before[b].0 != before[i as int].0);
                    }
                }
                let ghost k0 = kept@;
                kept.push(p);
                proof {
                    assert forall|b: int| 0 <= b < i + 1 && before[b].0 != node_id implies exists|a: int|
                        0 <= a < kept@.len() && kept@[a] == #[trigger] before[b] by {
                        if b == i {
                            assert(kept@[k0.len() as int] == before[b]);
                        } else {
                            let a = choose|a: int| 0 <= a < k0.len() && k0[a] == before[b];
                            assert(kept@[a] == before[b]);
                        }
                    }
                }
            }
            i += 1;
        }
        assert(before.subrange(0, before.len() as int) =~= before);
        self.nodes = kept;
        if self.focused.is_some() && self.focused.unwrap().0 == node_id {
            self.focused = None;
        }
        proof {
            match self.focused {
                Some(f) => {
                    let w = choose|w: int| 0 <= w < before.len() && before[w].0 == f.0;
                    let a = choose|a: int| 0 <= a < self.nodes@.len() && self.nodes@[a] == before[w];
                    assert(self.nodes@[a].0 == f.0);
                },
                None => {},
            }
        }
        self.update_tab_order();
    }

    /// Moves focus to `node_id` when it is registered, focusable and not
    /// already focused. The former focus becomes the previous one; the states
    /// of both nodes record the change. Returns the blur event of the former
    /// focus when there was one (a focused node is always registered), else
    /// the focus event of `node_id`; returns `None` and changes nothing when
    /// focus does not move.
    pub fn focus(&mut self, node_id: NodeId) -> (ev: Option<FocusEvent>)
        requires
            old(self).wf(),
        ensures
            final(self).wf(),
            final(self).scope_stack() == old(self).scope_stack(),
            focus_moved(*old(self), node_id, *final(self), ev),
    {
        if !self.is_focusable(node_id) {
            return None;
        }
        let old_focused = self.focused;
        if old_focused.is_some() && old_focused.unwrap().0 == node_id {
            return None;
        }
        self.previous = old_focused;
        self.focused = Some(FocusId::new(node_id));
        let mut first: Option<FocusEvent> = None;
        let ghost r0 = self.nodes@;
        match old_focused {
            Some(o) => {
                match self.find(o.0) {
                    Some(i) => {
                        let (id, st) = self.nodes[i];
                        self.nodes.set(i, (id, FocusState { focused: None, ..st }));
                        first = Some(FocusEvent { node_id: o.0, event_type: FocusEventType::Blur });
                        proof {
                            lemma_lookup_index(r0, i as int);
                            assert(self.nodes@ =~= set_focused_field(r0, o.0, None)) by {
                                assert forall|k: int| 0 <= k < r0.len() implies #[trigger] self.nodes@[k] == (if r0[k].0 == o.0 {
                                    (r0[k].0, FocusState { focused: None, ..r0[k].1 })
                                } else {
                                    r0[k]
                                }) by {
                                    if k != i {
                                        assert(r0[k].0 != r0[i as int].0);
                                    }
                                }
                            }
                        }
                    },
                    None => {
                        proof {
                            assert(r0 == old(self).nodes@);
                            let w = choose|w: int| 0 <= w < r0.len() && r0[w].0 == o.0;
                            assert(false);
                        }
                    },
                }
            },
            None => {},
        }
        let ghost r1 = self.nodes@;
        assert(unique_ids(r1));
        match self.find(node_id) {
            Some(i) => {
                let (id, st) = self.nodes[i];
                self.nodes.set(i, (id, FocusState { focused: Some(FocusId::new(node_id)), ..st }));
                if first.is_none() {
                    first = Some(FocusEvent { node_id, event_type: FocusEventType::Focus });
                }
                proof {
                    assert(self.nodes@[i as int].0 == node_id);
                    assert(self.nodes@ =~= set_focused_field(r1, node_id, Some(FocusId(node_id)))) by {
                        assert forall|k: int| 0 <= k < r1.len() implies #[trigger] self.nodes@[k] == (if r1[k].0 == node_id {
                            (r1[k].0, FocusState { focused: Some(FocusId(node_id)), ..r1[k].1 })
                        } else {
                            r1[k]
                        }) by {
                            if k != i {
                                assert(r1[k].0 != r1[i as int].0);
                            }
                        }
                    }
                }
            },
            None => {
                proof {
                    let w = choose|w: int| 0 <= w < r0.len() && r0[w].0 == node_id;
                    assert(r1[w].0 == r0[w].0);
                    assert(false);
                }
            },
        }
        proof {
            assert(keyed_focusable(self.nodes@) == keyed_focusable(r0)) by {
                lemma_keyed_focusable_focus_field(r0, old_focused);
                lemma_keyed_focusable_focus_field_2(r1, node_id);
            }

        }
        first
    }

    /// Clears the focus when `node_id` holds it, returning its blur event;
    /// otherwise returns `None` and changes nothing.
    pub fn blur(&mut self, node_id: NodeId) -> (ev: Option<FocusEvent>)
        requires
            old(self).wf(),
        ensures
            final(self).wf(),
            final(self).previous_node() == old(self).previous_node(),
            final(self).scope_stack() == old(self).scope_stack(),
            old(self).focused_node() == Some(node_id) ==> {
                &&& ev == Some(FocusEvent { node_id, event_type: FocusEventType::Blur })
                &&& final(self).focused_node() is None
                &&& final(self).registry() == set_focused_field(old(self).registry(), node_id, None)
            },
            old(self).focused_node() != Some(node_id) ==> {
                &&& ev is None
                &&& final(self).focused_node() == old(self).focused_node()
                &&& final(self).registry() == old(self).registry()
            },
    {
        if self.focused.is_some() && self.focused.unwrap().0 == node_id {
            self.focused = None;
            let ghost r0 = self.nodes@;
            match self.find(node_id) {
                Some(i) => {
                    let (id, st) = self.nodes[i];
                    self.nodes.set(i, (id, FocusState { focused: None, ..st }));
                    proof {
                        assert(self.nodes@ =~= set_focused_field(r0, node_id, None)) by {
                            assert forall|k: int| 0 <= k < r0.len() implies #[trigger] self.nodes@[k] == (if r0[k].0 == node_id {
                                (r0[k].0, FocusState { focused: None, ..r0[k].1 })
                            } else {
                                r0[k]
                            }) by {
                                if k != i {
                                    assert(r0[k].0 != r0[i as int].0);
                                }
                            }
                        }
                    }
                },
                None => {
                    assert(self.nodes@ =~= set_focused_field(r0, node_id, None));
                },
            }
            proof {
                lemma_keyed_focusable_focus_field_2(r0, node_id);
            }
            Some(FocusEvent { node_id, event_type: FocusEventType::Blur })
        } else {
            None
        }
    }

    /// The focused node.
    pub fn focused(&self) -> (r: Option<NodeId>)
        ensures
            r == self.focused_node(),
    {
        match self.focused {
            Some(f) => Some(f.0),
            None => None,
        }
    }

    /// The node that held focus before the current one.
    pub fn previous(&self) -> (r: Option<NodeId>)
        ensures
            r == self.previous_node(),
    {
        match self.previous {
            Some(f) => Some(f.0),
            None => None,
        }
    }

    /// Focuses the previous node again, exactly as `focus` does (see
    /// `focus_moved`); `None`, changing nothing, when there is none.
    pub fn restore(&mut self) -> (ev: Option<FocusEvent>)
        requires
            old(self).wf(),
        ensures
            final(self).wf(),
            final(self).scope_stack() == old(self).scope_stack(),
            match old(self).previous_node() {
                Some(p) => focus_moved(*old(self), p, *final(self), ev),
                None => {
                    &&& ev is None
                    &&& final(self).registry() == old(self).registry()
                    &&& final(self).focused_node() == old(self).focused_node()
                    &&& final(self).previous_node() is None
                },
            },
    {
        match self.previous {
            Some(p) => self.focus(p.0),
            None => None,
        }
    }

    /// Whether `node_id` is registered and focusable.
    pub fn is_focusable(&self, node_id: NodeId) -> (b: bool)
        requires
            self.wf(),
        ensures
            b == focusable_in(self.registry(), node_id),
    {
        match self.find(node_id) {
            Some(i) => {
                proof {
                    lemma_lookup_index(self.nodes@, i as int);
                }
                self.nodes[i].1.focusable
            },
            None => false,
        }
    }

    /// Whether `node_id` holds focus.
    pub fn is_focused(&self, node_id: NodeId) -> (b: bool)
        ensures
            b == (self.focused_node() == Some(node_id)),
    {
        self.focused.is_some() && self.focused.unwrap().0 == node_id
    }

    /// The focusable nodes, in registration order.
    pub fn focusable_nodes(&self) -> (v: Vec<NodeId>)
        ensures
            v@ == focusable_ids(self.registry()),
    {
        let mut v: Vec<NodeId> = Vec::new();
        let mut i: usize = 0;
        while i < self.nodes.len()
            invariant
                i <= self.nodes@.len(),
                v@ == focusable_ids(self.nodes@.subrange(0, i as int)),
            decreases self.nodes@.len() - i,
        {
            if self.nodes[i].1.focusable {
                v.push(self.nodes[i].0);
            }
            assert(self.nodes@.subrange(0, i + 1).drop_last() =~= self.nodes@.subrange(0, i as int));
            i += 1;
        }
        assert(self.nodes@.subrange(0, self.nodes@.len() as int) =~= self.nodes@);
        v
    }

    /// The focusable nodes stably sorted by tab index.
    pub fn tab_order(&self) -> (t: &[NodeId])
        requires
            self.wf(),
        ensures
            t@ == tab_order_of(self.registry()),
            sorted_by_key(stable_sort_by_key(keyed_focusable(self.registry()))),
    {
        proof {
            lemma_tab_order_sorted(self.registry());
        }
        self.tab_order.as_slice()
    }

    /// Pushes a scope.
    pub fn push_scope(&mut self, scope: FocusScope)
        requires
            old(self).wf(),
        ensures
            final(self).wf(),
            final(self).scope_stack() == old(self).scope_stack().push(scope),
            final(self).registry() == old(self).registry(),
            final(self).focused_node() == old(self).focused_node(),
            final(self).previous_node() == old(self).previous_node(),
    {
        self.scopes.push(scope);
    }

    /// Pops the innermost scope.
    pub fn pop_scope(&mut self) -> (s: Option<FocusScope>)
        requires
            old(self).wf(),
        ensures
            final(self).wf(),
            old(self).scope_stack().len() == 0 ==> s is None && final(self).scope_stack()
                == old(self).scope_stack(),
            old(self).scope_stack().len() > 0 ==> s == Some(old(self).scope_stack().last())
                && final(self).scope_stack() == old(self).scope_stack().drop_last(),
            final(self).registry() == old(self).registry(),
            final(self).focused_node() == old(self).focused_node(),
            final(self).previous_node() == old(self).previous_node(),
    {
        self.scopes.pop()
    }

    /// The innermost scope.
    pub fn current_scope(&self) -> (s: Option<&FocusScope>)
        ensures
            self.scope_stack().len() == 0 ==> s is None,
            self.scope_stack().len() > 0 ==> s == Some(&self.scope_stack().last()),
    {
        if self.scopes.len() == 0 {
            None
        } else {
            Some(&self.scopes[self.scopes.len() - 1])
        }
    }

    /// Forgets every node, the focus, the previous focus and every scope.
    pub fn clear(&mut self)
        ensures
            final(self).wf(),
            final(self).registry().len() == 0,
            final(self).focused_node() is None,
            final(self).previous_node() is None,
            final(self).scope_stack().len() == 0,
    {
        self.nodes.clear();
        self.focused = None;
        self.previous = None;
        self.scopes.clear();
        self.tab_order.clear();
        assert(keyed_focusable(self.nodes@) =~= Seq::empty());
        assert(tab_order_of(self.nodes@) =~= self.tab_order@);
    }
}

proof fn lemma_keyed_focusable_focus_field_2(nodes: Seq<(NodeId, FocusState)>, id: NodeId)
    ensures
        keyed_focusable(set_focused_field(nodes, id, None)) == keyed_focusable(nodes),
        forall|f: Option<FocusId>| keyed_focusable(#[trigger] set_focused_field(nodes, id, f)) == keyed_focusable(nodes),
    decreases nodes.len(),
{
    assert forall|f: Option<FocusId>| keyed_focusable(#[trigger] set_focused_field(nodes, id, f)) == keyed_focusable(nodes) by {
        lemma_keyed_focusable_set(nodes, id, f);
    }
}

proof fn lemma_keyed_focusable_set(nodes: Seq<(NodeId, FocusState)>, id: NodeId, f: Option<FocusId>)
    ensures
        keyed_focusable(set_focused_field(nodes, id, f)) == keyed_focusable(nodes),
    decreases nodes.len(),
{
    if nodes.len() > 0 {
        let s = set_focused_field(nodes, id, f);
        assert(s.drop_last() =~= set_focused_field(nodes.drop_last(), id, f));
        lemma_keyed_focusable_set(nodes.drop_last(), id, f);
    }
}

proof fn lemma_keyed_focusable_focus_field(nodes: Seq<(NodeId, FocusState)>, o: Option<FocusId>)
    ensures
        match o {
            Some(x) => keyed_focusable(set_focused_field(nodes, x.0, None)) == keyed_focusable(nodes),
            None => true,
        },
{
    match o {
        Some(x) => lemma_keyed_focusable_set(nodes, x.0, None),
        None => {},
    }
}

impl Default for FocusManager {
    fn default() -> (m: FocusManager)
        ensures
            m.wf(),
            m.registry().len() == 0,
            m.focused_node() is None,
            m.previous_node() is None,
            m.scope_stack().len() == 0,
    {
        FocusManager::new()
    }
}

// ---------------------------------------------------------------------------
// Traversal
// ---------------------------------------------------------------------------

/// A direction to move focus in.
#[derive(Debug, Clone, Copy, PartialEq, Eq, Structural)]
pub enum FocusDirection {
    Forward,
    Backward,
    Up,
    Down,
    Left,
    Right,
    First,
    Last,
}

/// The node after the current one among `f`, wrapping around; the first node
/// when nothing is focused or the focus is not among `f`; `None` when `f` is empty.
pub open spec fn next_in(f: Seq<NodeId>, cur: Option<NodeId>) -> Option<NodeId> {
    if f.len() == 0 {
        None
    } else {
        match cur {
            Some(c) => match first_position(f, c) {
                Some(p) => Some(f[(p + 1) % (f.len() as int)]),
                None => Some(f[0]),
            },
            None => Some(f[0]),
        }
    }
}

/// The node before the current one among `f`, wrapping around; the last node
/// when nothing is focused or the focus is not among `f`; `None` when `f` is empty.
pub open spec fn previous_in(f: Seq<NodeId>, cur: Option<NodeId>) -> Option<NodeId> {
    if f.len() == 0 {
        None
    } else {
        match cur {
            Some(c) => match first_position(f, c) {
                Some(p) => Some(
                    if p == 0 {
                        f[f.len() - 1]
                    } else {
                        f[p - 1]
                    },
                ),
                None => Some(f[f.len() - 1]),
            },
            None => Some(f[f.len() - 1]),
        }
    }
}

proof fn lemma_first_position_unique(f: Seq<NodeId>, p: int)
    requires
        0 <= p < f.len(),
        forall|i: int, j: int| 0 <= i < j < f.len() ==> f[i] != f[j],
    ensures
        first_position(f, f[p]) == Some(p),
{
    assert(f.contains(f[p]));
    assert(0 <= p < f.len() && f[p] == f[p] && forall|j: int| 0 <= j < p ==> f[j] != f[p]);
    let c = choose|i: int| 0 <= i < f.len() && f[i] == f[p] && forall|j: int| 0 <= j < i ==> f[j] != f[p];
    if c < p {
        assert(f[c] != f[p]);
    } else if c > p {
        assert(f[p] != f[c]);
    }
}

/// Tab and Shift+Tab walk the focusable nodes as a cycle: among `n` distinct
/// nodes with the focus on the one at position `p`, the next is at
/// `(p + 1) % n` and the previous at `(p + n - 1) % n` (so Shift+Tab from
/// the first node gives the last), and each undoes the other.
pub proof fn lemma_traversal_cycle(f: Seq<NodeId>, p: int)
    requires
        0 <= p < f.len(),
        forall|i: int, j: int| 0 <= i < j < f.len() ==> f[i] != f[j],
    ensures
        next_in(f, Some(f[p])) == Some(f[(p + 1) % (f.len() as int)]),
        previous_in(f, Some(f[p])) == Some(f[(p + f.len() - 1) % (f.len() as int)]),
        previous_in(f, next_in(f, Some(f[p]))) == Some(f[p]),
        next_in(f, previous_in(f, Some(f[p]))) == Some(f[p]),
{
    let n = f.len() as int;
    lemma_first_position_unique(f, p);
    let q = if p + 1 < n {
        p + 1
    } else {
        0
    };
    let r = if p == 0 {
        n - 1
    } else {
        p - 1
    };
    if p + 1 < n {
        vstd::arithmetic::div_mod::lemma_small_mod((p + 1) as nat, n as nat);
    } else {
        vstd::arithmetic::div_mod::lemma_mod_self_0(n);
    }
    if p == 0 {
        vstd::arithmetic::div_mod::lemma_small_mod((n - 1) as nat, n as nat);
    } else {
        vstd::arithmetic::div_mod::lemma_mod_add_multiples_vanish(p - 1, n);
        vstd::arithmetic::div_mod::lemma_small_mod((p - 1) as nat, n as nat);
        assert(p + n - 1 == n + (p - 1));
    }
    assert((p + 1) % n == q);
    assert((p + n - 1) % n == r);
    lemma_first_position_unique(f, q);
    lemma_first_position_unique(f, r);
    let qr = if q == 0 {
        n - 1
    } else {
        q - 1
    };
    assert(qr == p);
    if r + 1 < n {
        vstd::arithmetic::div_mod::lemma_small_mod((r + 1) as nat, n as nat);
    } else {
        vstd::arithmetic::div_mod::lemma_mod_self_0(n);
    }
}

proof fn lemma_focusable_ids_unique(nodes: Seq<(NodeId, FocusState)>)
    requires
        unique_ids(nodes),
    ensures
        forall|i: int|
            0 <= i < focusable_ids(nodes).len() ==> exists|j: int|
                0 <= j < nodes.len() && nodes[j].0 == #[trigger] focusable_ids(nodes)[i],
        forall|i: int, j: int|
            0 <= i < j < focusable_ids(nodes).len() ==> focusable_ids(nodes)[i] != focusable_ids(nodes)[j],
    decreases nodes.len(),
{
    if nodes.len() > 0 {
        let d = nodes.drop_last();
        assert(unique_ids(d)) by {
            assert forall|i: int, j: int| 0 <= i < j < d.len() implies d[i].0 != d[j].0 by {
                assert(d[i] == nodes[i] && d[j] == nodes[j]);
            }
        }
        lemma_focusable_ids_unique(d);
        let rest = focusable_ids(d);
        let f = focusable_ids(nodes);
        assert forall|i: int| 0 <= i < rest.len() implies exists|j: int|
            0 <= j < nodes.len() && nodes[j].0 == #[trigger] rest[i] by {
            let j = choose|j: int| 0 <= j < d.len() && d[j].0 == rest[i];
            assert(nodes[j] == d[j]);
        }
        if nodes.last().1.focusable {
            assert(f == rest.push(nodes.last().0));
            assert forall|i: int| 0 <= i < f.len() implies exists|j: int|
                0 <= j < nodes.len() && nodes[j].0 == #[trigger] f[i] by {
                if i < rest.len() {
                    assert(f[i] == rest[i]);
                } else {
                    assert(nodes[nodes.len() - 1].0 == f[i]);
                }
            }
            assert forall|i: int, j: int| 0 <= i < j < f.len() implies f[i] != f[j] by {
                if j == f.len() - 1 {
                    assert(f[i] == rest[i]);
                    let k = choose|k: int| 0 <= k < d.len() && d[k].0 == rest[i];
                    assert(nodes[k].0 != nodes[nodes.len() - 1].0);
                } else {
                    assert(f[i] == rest[i] && f[j] == rest[j]);
                }
            }
        }
    }
}

/// Traversal on a manager: its focusable nodes are distinct, and with the
/// focus on the node at position `p` of them, `FocusTraversal::next` gives
/// the node at `(p + 1) % n` and `FocusTraversal::previous` the node at
/// `(p + n - 1) % n`.
pub proof fn lemma_manager_traversal(m: FocusManager, p: int)
    requires
        m.wf(),
        0 <= p < focusable_ids(m.registry()).len(),
        m.focused_node() == Some(focusable_ids(m.registry())[p]),
    ensures
        next_in(focusable_ids(m.registry()), m.focused_node()) == Some(
            focusable_ids(m.registry())[(p + 1) % (focusable_ids(m.registry()).len() as int)],
        ),
        previous_in(focusable_ids(m.registry()), m.focused_node()) == Some(
            focusable_ids(m.registry())[(p + focusable_ids(m.registry()).len() - 1) % (focusable_ids(
                m.registry(),
            ).len() as int)],
        ),
{
    lemma_focusable_ids_unique(m.registry());
    lemma_traversal_cycle(focusable_ids(m.registry()), p);
}

/// Focus traversal over the focusable nodes of a manager, in registration order.
pub struct FocusTraversal;

/// The first position of `x` in `s`.
fn position(s: &Vec<NodeId>, x: NodeId) -> (r: Option<usize>)
    ensures
        match r {
            Some(i) => i < s@.len() && s@[i as int] == x && first_position(s@, x) == Some(i as int),
            None => first_position(s@, x) is None,
        },
{
    let mut i: usize = 0;
    while i < s.len()
        invariant
            i <= s@.len(),
            forall|j: int| 0 <= j < i ==> s@[j] != x,
        decreases s@.len() - i,
    {
        if s[i] == x {
            proof {
                assert(s@.contains(x));
                let c = choose|k: int| 0 <= k < s@.len() && s@[k] == x && forall|j: int| 0 <= j < k ==> s@[j] != x;
                assert(c == i as int) by {
                    if c < i {
                        assert(s@[c] != x);
                    } else if c > i {
                        assert(s@[i as int] != x);
                    }
                }
            }
            return Some(i);
        }
        i += 1;
    }
    proof {
        assert(!s@.contains(x));
    }
    None
}

impl FocusTraversal {
    /// The node after the focused one among the focusable nodes (see `next_in`).
    pub fn next(manager: &FocusManager) -> (r: Option<NodeId>)
        ensures
            r == next_in(focusable_ids(manager.registry()), manager.focused_node()),
    {
        let focusable = manager.focusable_nodes();
        if focusable.len() == 0 {
            return None;
        }
        match manager.focused() {
            Some(c) => match position(&focusable, c) {
                Some(p) => Some(focusable[(p + 1) % focusable.len()]),
                None => Some(focusable[0]),
            },
            None => Some(focusable[0]),
        }
    }

    /// The node before the focused one among the focusable nodes (see `previous_in`).
    pub fn previous(manager: &FocusManager) -> (r: Option<NodeId>)
        ensures
            r == previous_in(focusable_ids(manager.registry()), manager.focused_node()),
    {
        let focusable = manager.focusable_nodes();
        if focusable.len() == 0 {
            return None;
        }
        let n = focusable.len();
        match manager.focused() {
            Some(c) => match position(&focusable, c) {
                Some(p) => Some(
                    if p == 0 {
                        focusable[n - 1]
                    } else {
                        focusable[p - 1]
                    },
                ),
                None => Some(focusable[n - 1]),
            },
            None => Some(focusable[n - 1]),
        }
    }

    /// The first focusable node.
    pub fn first(manager: &FocusManager) -> (r: Option<NodeId>)
        ensures
            r == (if focusable_ids(manager.registry()).len() == 0 {
                None
            } else {
                Some(focusable_ids(manager.registry())[0])
            }),
    {
        let focusable = manager.focusable_nodes();
        if focusable.len() == 0 {
            None
        } else {
            Some(focusable[0])
        }
    }

    /// The last focusable node.
    pub fn last(manager: &FocusManager) -> (r: Option<NodeId>)
        ensures
            r == (if focusable_ids(manager.registry()).len() == 0 {
                None
            } else {
                Some(focusable_ids(manager.registry()).last())
            }),
    {
        let focusable = manager.focusable_nodes();
        if focusable.len() == 0 {
            None
        } else {
            Some(focusable[focusable.len() - 1])
        }
    }

    /// Moves in `direction`: forward and the four arrows go to the next node,
    /// backward to the previous one, first and last to the ends.
    pub fn traverse(manager: &FocusManager, direction: FocusDirection) -> (r: Option<NodeId>)
        ensures
            r == match direction {
                FocusDirection::Backward => previous_in(
                    focusable_ids(manager.registry()),
                    manager.focused_node(),
                ),
                FocusDirection::First => if focusable_ids(manager.registry()).len() == 0 {
                    None
                } else {
                    Some(focusable_ids(manager.registry())[0])
                },
                FocusDirection::Last => if focusable_ids(manager.registry()).len() == 0 {
                    None
                } else {
                    Some(focusable_ids(manager.registry()).last())
                },
                _ => next_in(focusable_ids(manager.registry()), manager.focused_node()),
            },
    {
        match direction {
            FocusDirection::Forward => Self::next(manager),
            FocusDirection::Backward => Self::previous(manager),
            FocusDirection::First => Self::first(manager),
            FocusDirection::Last => Self::last(manager),
            FocusDirection::Up | FocusDirection::Down | FocusDirection::Left | FocusDirection::Right => {
                Self::next(manager)
            },
        }
    }
}

} // verus!
