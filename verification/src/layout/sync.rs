//! Keeping the layout engine in step with the scene: new nodes are
//! registered (as text nodes when they have text), nodes whose layout
//! changed take their new style and text, and children are attached under
//! their parent. The computed boxes are kept for the renderer.

use vstd::prelude::*;
use crate::tree::NodeId;
use super::compute::{LayoutEngine, assoc, keys_unique};
use super::forest::{
    forest_ok, is_ancestor_or_self, kids, lemma_dead_unreached, lemma_reaches_with_child,
    lemma_reaches_same_parents, reaches, restyled, same_parents, with_child, with_leaf, Forest,
};
use taffy::Style;

verus! {

/// What the synchronisation reads of a scene node: its id, its text when it
/// is a text node, and whether its layout changed since the last sync.
#[derive(Debug, Clone)]
pub struct SceneNode {
    pub id: NodeId,
    pub text: Option<String>,
    pub layout_dirty: bool,
}

/// The computed box of a node, in whole cells.
#[derive(Debug, Clone, Copy, PartialEq, Eq, Default)]
pub struct LayoutResult {
    pub x: u16,
    pub y: u16,
    pub width: u16,
    pub height: u16,
    pub content_width: u16,
    pub content_height: u16,
    pub padding_top: u16,
    pub padding_right: u16,
    pub padding_bottom: u16,
    pub padding_left: u16,
    pub border_top: u16,
    pub border_right: u16,
    pub border_bottom: u16,
    pub border_left: u16,
}

/// The registrations after syncing a node with id `id`: a node seen for
/// the first time gets a new taffy node `t`.
pub open spec fn synced(reg: Map<NodeId, u64>, id: NodeId, t: u64) -> Map<NodeId, u64> {
    if reg.dom().contains(id) {
        reg
    } else {
        reg.insert(id, t)
    }
}

/// A layout engine kept in step with a scene, and the boxes it computed.
pub struct LayoutTreeSync {
    layout: LayoutEngine,
    results: Vec<(NodeId, LayoutResult)>,
}

impl LayoutTreeSync {
    /// The engine.
    pub closed spec fn engine(&self) -> LayoutEngine {
        self.layout
    }

    /// The computed boxes, by node.
    pub closed spec fn results_view(&self) -> Seq<(NodeId, LayoutResult)> {
        self.results@
    }

    /// The engine is well formed.
    pub open spec fn wf(&self) -> bool {
        self.engine().wf()
    }

    /// Nothing synced, nothing computed.
    pub fn new() -> (s: LayoutTreeSync)
        ensures
            s.wf(),
            s.engine().registered() == Map::<NodeId, u64>::empty(),
            s.engine().forest() == Forest::empty(),
            s.results_view().len() == 0,
    {
        LayoutTreeSync { layout: LayoutEngine::new(), results: Vec::new() }
    }

    /// Syncs one node: a node seen for the first time is registered, as a
    /// text node when it has text, with `style`; a known node whose layout
    /// changed takes its text (when it has one) and `style`; another known
    /// node is left as it is.
    pub fn sync_node(&mut self, node: &SceneNode, style: Style)
        requires
            old(self).wf(),
        ensures
            final(self).wf(),
            final(self).results_view() == old(self).results_view(),
            ({
                let old_reg = old(self).engine().registered();
                let reg = final(self).engine().registered();
                if old_reg.dom().contains(node.id) {
                    &&& reg == old_reg
                    &&& node.layout_dirty ==> final(self).engine().forest() == restyled(
                        old(self).engine().forest(),
                        reg[node.id],
                        style,
                    )
                    &&& !node.layout_dirty ==> final(self).engine().forest() == old(self).engine().forest()
                } else {
                    &&& !old(self).engine().forest().dom().contains(reg[node.id])
                    &&& reg == old_reg.insert(node.id, reg[node.id])
                    &&& final(self).engine().forest() == with_leaf(
                        old(self).engine().forest(),
                        reg[node.id],
                        style,
                    )
                }
            }),
            ({
                let registered = old(self).engine().registered().dom().contains(node.id);
                let takes_text = node.text is Some && (!registered || node.layout_dirty);
                &&& takes_text ==> final(self).engine().texts().dom() == old(self).engine().texts().dom().insert(node.id)
                    && final(self).engine().texts()[node.id]@ == node.text.unwrap()@
                    && forall|k: NodeId|
                        k != node.id && old(self).engine().texts().dom().contains(k)
                            ==> final(self).engine().texts()[k] == old(self).engine().texts()[k]
                &&& !takes_text ==> final(self).engine().texts() == old(self).engine().texts()
            }),
    {
        if !self.layout.has_node(node.id) {
            match &node.text {
                Some(text) => self.layout.register_text_node(node.id, style, text.as_str()),
                None => self.layout.register_container(node.id, style),
            }
        } else if node.layout_dirty {
            match &node.text {
                Some(text) => self.layout.update_text(node.id, text.as_str()),
                None => {},
            }
            self.layout.update_style(node.id, style);
        }
    }

    /// Syncs every node of the scene, in order.
    pub fn sync_full(&mut self, nodes: Vec<(SceneNode, Style)>)
        requires
            old(self).wf(),
        ensures
            final(self).wf(),
            final(self).results_view() == old(self).results_view(),
            forall|k: NodeId|
                #[trigger] final(self).engine().registered().dom().contains(k)
                    <==> (old(self).engine().registered().dom().contains(k)
                    || exists|i: int| 0 <= i < nodes@.len() && nodes@[i].0.id == k),
            forall|k: NodeId|
                #[trigger] old(self).engine().registered().dom().contains(k)
                    ==> final(self).engine().registered()[k] == old(self).engine().registered()[k],
    {
        let mut rest = nodes;
        let ghost all = rest@;
        let total: usize = rest.len();
        let ghost reg0 = self.layout.registered();
        let mut i: usize = 0;
        while rest.len() > 0
            invariant
                self.wf(),
                self.results@ == old(self).results@,
                reg0 == old(self).engine().registered(),
                i <= all.len(),
                all.len() == total,
                rest@ == all.skip(i as int),
                forall|k: NodeId|
                    #[trigger] self.layout.registered().dom().contains(k) <==> (reg0.dom().contains(k)
                        || exists|j: int| 0 <= j < i && all[j].0.id == k),
                forall|k: NodeId|
                    #[trigger] reg0.dom().contains(k) ==> self.layout.registered()[k] == reg0[k],
            decreases rest@.len(),
        {
            proof {
                assert(i < all.len());
            }
            let (node, style) = rest.remove(0);
            proof {
                assert(all[i as int] == (node, style));
            }
            self.sync_node(&node, style);
            proof {
                assert(all.skip(i as int).drop_first() =~= all.skip(i + 1));
                assert forall|k: NodeId|
                    #[trigger] self.layout.registered().dom().contains(k) <==> (reg0.dom().contains(k)
                        || exists|j: int| 0 <= j < i + 1 && all[j].0.id == k) by {
                    if k == node.id {
                        assert(all[i as int].0.id == k);
                    }
                }
            }
            i = i + 1;
        }
    }

    /// Unregisters a node (see `LayoutEngine::remove_node`).
    pub fn remove_node(&mut self, id: NodeId)
        requires
            old(self).wf(),
            old(self).engine().registered().dom().contains(id) ==> forall|c: u64|
                kids(old(self).engine().forest(), old(self).engine().registered()[id]).contains(c)
                    ==> old(self).engine().forest().dom().contains(c),
        ensures
            final(self).wf(),
            final(self).results_view() == old(self).results_view(),
            final(self).engine().registered() == old(self).engine().registered().remove(id),
    {
        self.layout.remove_node(id);
    }

    /// Syncs each child and attaches it under `parent`, in order. The
    /// parent must be registered and no child may be the parent or, when
    /// registered, one of its ancestors.
    pub fn sync_children(&mut self, parent: NodeId, children: Vec<(SceneNode, Style)>)
        requires
            old(self).wf(),
            old(self).engine().registered().dom().contains(parent),
            forall|i: int| 0 <= i < children@.len() ==> #[trigger] children@[i].0.id != parent,
            forall|i: int|
                0 <= i < children@.len() && old(self).engine().registered().dom().contains(
                    #[trigger] children@[i].0.id,
                ) ==> !is_ancestor_or_self(
                    old(self).engine().forest(),
                    old(self).engine().registered()[parent],
                    old(self).engine().registered()[children@[i].0.id],
                ),
        ensures
            final(self).wf(),
            final(self).results_view() == old(self).results_view(),
            forall|i: int|
                0 <= i < children@.len() ==> #[trigger] final(self).engine().registered().dom().contains(
                    children@[i].0.id,
                ),
            final(self).engine().registered()[parent] == old(self).engine().registered()[parent],
    {
        let mut rest = children;
        let ghost all = rest@;
        let total: usize = rest.len();
        let ghost tp = self.layout.registered()[parent];
        let mut i: usize = 0;
        while rest.len() > 0
            invariant
                self.wf(),
                self.results@ == old(self).results@,
                i <= all.len(),
                all.len() == total,
                rest@ == all.skip(i as int),
                self.layout.registered().dom().contains(parent),
                self.layout.registered()[parent] == tp,
                forall|j: int| 0 <= j < all.len() ==> #[trigger] all[j].0.id != parent,
                forall|j: int|
                    i <= j < all.len() && self.layout.registered().dom().contains(#[trigger] all[j].0.id)
                        ==> !is_ancestor_or_self(
                        self.layout.forest(),
                        tp,
                        self.layout.registered()[all[j].0.id],
                    ),
                forall|j: int|
                    0 <= j < i ==> #[trigger] self.layout.registered().dom().contains(all[j].0.id),
            decreases rest@.len(),
        {
            proof {
                assert(i < all.len());
            }
            let (node, style) = rest.remove(0);
            let ghost f0 = self.layout.forest();
            let ghost reg0 = self.layout.registered();
            proof {
                assert(all[i as int] == (node, style));
                assert(all.skip(i as int).drop_first() =~= all.skip(i + 1));
                self.layout.lemma_registered_live(parent);
                self.layout.lemma_wf_forest();
                if reg0.dom().contains(node.id) {
                    self.layout.lemma_registered_live(node.id);
                }
            }
            let ghost st = style;
            self.sync_node(&node, style);
            let ghost f1 = self.layout.forest();
            let ghost reg1 = self.layout.registered();
            let ghost tc = reg1[node.id];
            proof {
                self.layout.lemma_registered_live(node.id);
                if reg0.dom().contains(node.id) {
                    assert(f0.dom().contains(tc));
                    if node.layout_dirty {
                        assert(f1 == restyled(f0, tc, st));
                    } else {
                        assert(f1 == f0);
                    }
                } else {
                    assert(f1 == with_leaf(f0, tc, st));
                }
                assert(same_parents(f0, f1));
                if !reg0.dom().contains(node.id) {
                    assert forall|k: nat| !reaches(f1, tp, tc, k) by {
                        lemma_reaches_same_parents(f0, f1, tp, tc, k);
                        lemma_dead_unreached(f0, tc, tp, k);
                    }
                } else {
                    assert(!is_ancestor_or_self(f0, tp, tc));
                    assert forall|k: nat| !reaches(f1, tp, tc, k) by {
                        lemma_reaches_same_parents(f0, f1, tp, tc, k);
                    }
                }
                assert(!is_ancestor_or_self(f1, tp, tc));
                self.layout.lemma_registered_live(node.id);
                self.layout.lemma_registered_live(parent);
            }
            self.layout.add_child(parent, node.id);
            proof {
                let f2 = self.layout.forest();
                assert(f2 == with_child(f1, tp, tc));
                assert forall|j: int|
                    i + 1 <= j < all.len() && self.layout.registered().dom().contains(
                        #[trigger] all[j].0.id,
                    ) implies !is_ancestor_or_self(
                    self.layout.forest(),
                    tp,
                    self.layout.registered()[all[j].0.id],
                ) by {
                    let d = all[j].0.id;
                    let td = reg1[d];
                    if reg0.dom().contains(d) {
                        assert(reg1[d] == reg0[d]);
                        assert(!is_ancestor_or_self(f0, tp, td));
                        assert forall|k: nat| !reaches(f2, tp, td, k) by {
                            lemma_reaches_same_parents(f0, f1, tp, td, k);
                            lemma_reaches_with_child(f1, tp, tc, tp, td, k);
                        }
                    } else {
                        assert(d == node.id);
                        assert forall|k: nat| !reaches(f2, tp, td, k) by {
                            lemma_reaches_with_child(f1, tp, tc, tp, td, k);
                        }
                    }
                }
            }
            i = i + 1;
        }
    }

    /// How many nodes the engine has registered.
    pub fn node_count(&self) -> (n: usize)
        requires
            self.wf(),
        ensures
            n == self.engine().registered().len(),
    {
        self.layout.node_count()
    }

    /// The engine.
    pub fn layout(&self) -> (e: &LayoutEngine)
        ensures
            *e == self.engine(),
    {
        &self.layout
    }

    /// The engine, to compute the layout with.
    pub fn layout_mut(&mut self) -> (e: &mut LayoutEngine)
        ensures
            *e == old(self).engine(),
            final(self).engine() == *final(e),
            final(self).results_view() == old(self).results_view(),
    {
        &mut self.layout
    }

    /// The boxes of the last computation, by node.
    pub fn results(&self) -> (r: &[(NodeId, LayoutResult)])
        ensures
            r@ == self.results_view(),
    {
        self.results.as_slice()
    }

    /// Keeps the boxes of a computation.
    pub fn set_results(&mut self, results: Vec<(NodeId, LayoutResult)>)
        ensures
            final(self).results_view() == results@,
            final(self).engine() == old(self).engine(),
    {
        self.results = results;
    }
}

impl Default for LayoutTreeSync {
    fn default() -> (s: LayoutTreeSync)
        ensures
            s.wf(),
            s.engine().registered() == Map::<NodeId, u64>::empty(),
            s.engine().forest() == Forest::empty(),
            s.results_view().len() == 0,
    {
        LayoutTreeSync::new()
    }
}

} // verus!
