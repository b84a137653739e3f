//! The layout engine: one taffy node for each registered scene node, and the
//! text of text nodes, which sizes them when the layout is computed.
//!
//! Every operation keeps the taffy tree a forest (see `forest`), so that no
//! taffy call panics or recurses without end; the computation itself, which
//! works in floating point, runs over `tree_mut`.

use vstd::prelude::*;
use crate::tree::NodeId;
use super::forest::{
    default_style, forest_ok, is_ancestor_or_self, kids, lemma_add_child_keeps_forest,
    lemma_leaf_keeps_forest, lemma_remove_child_keeps_forest, lemma_remove_keeps_forest,
    taffy_nodes, tree_add_child, tree_new, tree_new_leaf, tree_remove, tree_remove_child,
    tree_set_style, with_child, with_leaf, without_child, without_node, Forest, restyled,
    lemma_restyle_keeps_forest,
};
use taffy::{Style, TaffyError, TaffyTree};

verus! {

/// Why a layout could not be computed.
#[derive(Debug)]
pub enum LayoutError {
    /// The node was never registered.
    NodeNotRegistered(NodeId),
    /// Taffy refused the computation.
    TaffyError(TaffyError),
}

/// No key occurs twice.
pub open spec fn keys_unique<V>(s: Seq<(NodeId, V)>) -> bool {
    forall|i: int, j: int| 0 <= i < j < s.len() ==> s[i].0 != s[j].0
}

/// The map of an association list; a later entry wins.
pub open spec fn assoc<V>(s: Seq<(NodeId, V)>) -> Map<NodeId, V>
    decreases s.len(),
{
    if s.len() == 0 {
        Map::empty()
    } else {
        assoc(s.drop_last()).insert(s.last().0, s.last().1)
    }
}

proof fn lemma_assoc_push<V>(s: Seq<(NodeId, V)>, e: (NodeId, V))
    ensures
        assoc(s.push(e)) == assoc(s).insert(e.0, e.1),
{
    assert(s.push(e).drop_last() =~= s);
}

proof fn lemma_assoc_dom<V>(s: Seq<(NodeId, V)>)
    ensures
        assoc(s).dom().finite(),
        forall|k: NodeId| assoc(s).dom().contains(k) <==> exists|i: int| 0 <= i < s.len() && #[trigger] s[i].0 == k,
    decreases s.len(),
{
    if s.len() > 0 {
        let t = s.drop_last();
        lemma_assoc_dom(t);
        assert forall|k: NodeId| assoc(s).dom().contains(k) implies exists|i: int| 0 <= i < s.len() && #[trigger] s[i].0 == k by {
            if k == s.last().0 {
                assert(s[s.len() - 1].0 == k);
            } else {
                let i = choose|i: int| 0 <= i < t.len() && #[trigger] t[i].0 == k;
                assert(s[i].0 == k);
            }
        }
        assert forall|k: NodeId| (exists|i: int| 0 <= i < s.len() && #[trigger] s[i].0 == k) implies assoc(s).dom().contains(k) by {
            let i = choose|i: int| 0 <= i < s.len() && #[trigger] s[i].0 == k;
            if i < s.len() - 1 {
                assert(t[i].0 == k);
            }
        }
    }
}

proof fn lemma_assoc_index<V>(s: Seq<(NodeId, V)>, i: int)
    requires
        keys_unique(s),
        0 <= i < s.len(),
    ensures
        assoc(s).dom().contains(s[i].0),
        assoc(s)[s[i].0] == s[i].1,
    decreases s.len(),
{
    if i < s.len() - 1 {
        let t = s.drop_last();
        lemma_assoc_index(t, i);
        assert(t[i] == s[i]);
    }
}

proof fn lemma_assoc_remove<V>(s: Seq<(NodeId, V)>, i: int)
    requires
        keys_unique(s),
        0 <= i < s.len(),
    ensures
        assoc(s.remove(i)) == assoc(s).remove(s[i].0),
        keys_unique(s.remove(i)),
    decreases s.len(),
{
    let t = s.drop_last();
    if i == s.len() - 1 {
        assert(s.remove(i) =~= t);
        lemma_assoc_dom(t);
        if assoc(t).dom().contains(s[i].0) {
            let j = choose|j: int| 0 <= j < t.len() && #[trigger] t[j].0 == s[i].0;
            assert(s[j].0 == s[i].0);
        }
        assert(assoc(s.remove(i)) =~= assoc(s).remove(s[i].0));
    } else {
        assert(s.remove(i).drop_last() =~= t.remove(i));
        assert(s.remove(i).last() == s.last());
        lemma_assoc_remove(t, i);
        assert(t[i] == s[i]);
        assert(s.last().0 != s[i].0);
        assert(assoc(s.remove(i)) =~= assoc(s).remove(s[i].0));
    }
}

proof fn lemma_assoc_update<V>(s: Seq<(NodeId, V)>, i: int, v: V)
    requires
        keys_unique(s),
        0 <= i < s.len(),
    ensures
        assoc(s.update(i, (s[i].0, v))) == assoc(s).insert(s[i].0, v),
        keys_unique(s.update(i, (s[i].0, v))),
    decreases s.len(),
{
    let u = s.update(i, (s[i].0, v));
    let t = s.drop_last();
    if i == s.len() - 1 {
        assert(u.drop_last() =~= t);
        assert(assoc(u) =~= assoc(s).insert(s[i].0, v));
    } else {
        assert(u.drop_last() =~= t.update(i, (t[i].0, v)));
        lemma_assoc_update(t, i, v);
        assert(assoc(u) =~= assoc(s).insert(s[i].0, v));
    }
}

proof fn lemma_assoc_len<V>(s: Seq<(NodeId, V)>)
    requires
        keys_unique(s),
    ensures
        assoc(s).len() == s.len(),
    decreases s.len(),
{
    if s.len() > 0 {
        let t = s.drop_last();
        lemma_assoc_len(t);
        lemma_assoc_dom(t);
        if assoc(t).dom().contains(s.last().0) {
            let j = choose|j: int| 0 <= j < t.len() && #[trigger] t[j].0 == s.last().0;
            assert(s[j].0 == s[s.len() - 1].0);
        }
    }
}

/// The texts of the registered text nodes, each under its taffy node, in
/// the order of `texts`.
pub open spec fn measured(
    registered: Map<NodeId, u64>,
    texts: Seq<(NodeId, String)>,
) -> Seq<(u64, Seq<char>)>
    decreases texts.len(),
{
    if texts.len() == 0 {
        Seq::empty()
    } else {
        let rest = measured(registered, texts.drop_last());
        let (id, text) = texts.last();
        if registered.dom().contains(id) {
            rest.push((registered[id], text@))
        } else {
            rest
        }
    }
}

/// A layout engine over a taffy tree.
pub struct LayoutEngine {
    tree: TaffyTree<()>,
    nodes: Vec<(NodeId, u64)>,
    texts: Vec<(NodeId, String)>,
}

impl LayoutEngine {
    /// The taffy node of each registered node.
    pub closed spec fn registered(&self) -> Map<NodeId, u64> {
        assoc(self.nodes@)
    }

    /// The text nodes with their texts, in the order they were first given
    /// a text.
    pub closed spec fn text_entries(&self) -> Seq<(NodeId, String)> {
        self.texts@
    }

    /// The text of each text node.
    pub closed spec fn texts(&self) -> Map<NodeId, String> {
        assoc(self.texts@)
    }

    /// The taffy tree's nodes.
    pub closed spec fn forest(&self) -> Forest {
        taffy_nodes(self.tree)
    }

    /// Registrations are one to one and name live taffy nodes, and the
    /// taffy tree is a forest.
    pub closed spec fn wf(&self) -> bool {
        &&& keys_unique(self.nodes@)
        &&& keys_unique(self.texts@)
        &&& forall|i: int, j: int|
            0 <= i < j < self.nodes@.len() ==> self.nodes@[i].1 != self.nodes@[j].1
        &&& forall|i: int|
            0 <= i < self.nodes@.len() ==> #[trigger] taffy_nodes(self.tree).dom().contains(
                self.nodes@[i].1,
            )
        &&& forest_ok(taffy_nodes(self.tree))
    }

    /// Every registered node has a live taffy node, and no two share one.
    pub proof fn lemma_registered_live(&self, id: NodeId)
        requires
            self.wf(),
            self.registered().dom().contains(id),
        ensures
            self.forest().dom().contains(self.registered()[id]),
    {
        lemma_assoc_dom(self.nodes@);
        let i = choose|i: int| 0 <= i < self.nodes@.len() && #[trigger] self.nodes@[i].0 == id;
        lemma_assoc_index(self.nodes@, i);
    }

    /// The taffy tree of a well-formed engine is a forest.
    pub proof fn lemma_wf_forest(&self)
        requires
            self.wf(),
        ensures
            forest_ok(self.forest()),
    {
    }

    /// An engine with nothing registered.
    pub fn new() -> (e: LayoutEngine)
        ensures
            e.wf(),
            e.registered() == Map::<NodeId, u64>::empty(),
            e.texts() == Map::<NodeId, String>::empty(),
            e.forest() == Forest::empty(),
    {
        let e = LayoutEngine { tree: tree_new(), nodes: Vec::new(), texts: Vec::new() };
        proof {
            assert(forest_ok(taffy_nodes(e.tree)));
        }
        e
    }

    fn find_node(&self, id: NodeId) -> (r: Option<usize>)
        ensures
            match r {
                Some(i) => i < self.nodes@.len() && self.nodes@[i as int].0 == id,
                None => forall|i: int| 0 <= i < self.nodes@.len() ==> self.nodes@[i].0 != id,
            },
    {
        let mut i: usize = 0;
        while i < self.nodes.len()
            invariant
                i <= self.nodes@.len(),
                forall|j: int| 0 <= j < i ==> self.nodes@[j].0 != id,
            decreases self.nodes@.len() - i,
        {
            if self.nodes[i].0 == id {
                return Some(i);
            }
            i = i + 1;
        }
        None
    }

    fn find_text(&self, id: NodeId) -> (r: Option<usize>)
        ensures
            match r {
                Some(i) => i < self.texts@.len() && self.texts@[i as int].0 == id,
                None => forall|i: int| 0 <= i < self.texts@.len() ==> self.texts@[i].0 != id,
            },
    {
        let mut i: usize = 0;
        while i < self.texts.len()
            invariant
                i <= self.texts@.len(),
                forall|j: int| 0 <= j < i ==> self.texts@[j].0 != id,
            decreases self.texts@.len() - i,
        {
            if self.texts[i].0 == id {
                return Some(i);
            }
            i = i + 1;
        }
        None
    }

    /// Whether `id` is registered.
    pub fn has_node(&self, id: NodeId) -> (b: bool)
        ensures
            b == self.registered().dom().contains(id),
    {
        proof {
            lemma_assoc_dom(self.nodes@);
        }
        match self.find_node(id) {
            Some(i) => {
                proof {
                    assert(self.nodes@[i as int].0 == id);
                }
                true
            },
            None => false,
        }
    }

    /// How many nodes are registered.
    pub fn node_count(&self) -> (n: usize)
        requires
            self.wf(),
        ensures
            n == self.registered().len(),
    {
        proof {
            lemma_assoc_len(self.nodes@);
        }
        self.nodes.len()
    }

    /// Adds a new taffy leaf with `style` for `id`, which is not registered.
    fn add_leaf(&mut self, id: NodeId, style: Style)
        requires
            old(self).wf(),
            !old(self).registered().dom().contains(id),
        ensures
            final(self).wf(),
            final(self).texts() == old(self).texts(),
            !old(self).forest().dom().contains(final(self).registered()[id]),
            final(self).registered() == old(self).registered().insert(
                id,
                final(self).registered()[id],
            ),
            final(self).forest() == with_leaf(old(self).forest(), final(self).registered()[id], style),
    {
        let ghost f0 = taffy_nodes(self.tree);
        proof {
            lemma_assoc_dom(self.nodes@);
        }
        match tree_new_leaf(&mut self.tree, style) {
            Ok(t) => {
                proof {
                    lemma_leaf_keeps_forest(f0, t, style);
                    lemma_assoc_push(self.nodes@, (id, t));
                    assert forall|i: int| 0 <= i < self.nodes@.len() implies self.nodes@[i].0 != id by {
                        if self.nodes@[i].0 == id {
                            assert(old(self).registered().dom().contains(id));
                        }
                    }
                }
                self.nodes.push((id, t));
                proof {
                    let n = self.nodes@;
                    assert forall|i: int| 0 <= i < n.len() implies #[trigger] taffy_nodes(
                        self.tree,
                    ).dom().contains(n[i].1) by {
                        if i < n.len() - 1 {
                            assert(f0.dom().contains(old(self).nodes@[i].1));
                        }
                    }
                    assert forall|i: int, j: int| 0 <= i < j < n.len() implies n[i].1 != n[j].1 by {
                        if j == n.len() - 1 {
                            assert(f0.dom().contains(old(self).nodes@[i].1));
                        }
                    }
                }
            },
            Err(_) => {},
        }
    }

    /// Registers `id` with the default style; nothing happens when it is
    /// registered already.
    pub fn register_node(&mut self, id: NodeId)
        requires
            old(self).wf(),
        ensures
            final(self).wf(),
            final(self).texts() == old(self).texts(),
            old(self).registered().dom().contains(id) ==> final(self).registered() == old(
                self,
            ).registered() && final(self).forest() == old(self).forest(),
            !old(self).registered().dom().contains(id) ==> {
                &&& !old(self).forest().dom().contains(final(self).registered()[id])
                &&& final(self).registered() == old(self).registered().insert(
                    id,
                    final(self).registered()[id],
                )
                &&& final(self).forest() == with_leaf(
                    old(self).forest(),
                    final(self).registered()[id],
                    final(self).forest()[final(self).registered()[id]].2,
                )
            },
    {
        if self.has_node(id) {
            return;
        }
        let style = default_style();
        self.add_leaf(id, style);
    }

    /// Gives `id`'s taffy node `style`; nothing happens when `id` is not
    /// registered.
    pub fn update_style(&mut self, id: NodeId, style: Style)
        requires
            old(self).wf(),
        ensures
            final(self).wf(),
            final(self).registered() == old(self).registered(),
            final(self).texts() == old(self).texts(),
            old(self).registered().dom().contains(id) ==> final(self).forest() == restyled(
                old(self).forest(),
                old(self).registered()[id],
                style,
            ),
            !old(self).registered().dom().contains(id) ==> final(self).forest() == old(self).forest(),
    {
        proof {
            lemma_assoc_dom(self.nodes@);
        }
        match self.find_node(id) {
            Some(i) => {
                let t = self.nodes[i].1;
                let ghost f0 = taffy_nodes(self.tree);
                proof {
                    assert(f0.dom().contains(self.nodes@[i as int].1));
                    lemma_assoc_index(self.nodes@, i as int);
                    lemma_restyle_keeps_forest(f0, t, style);
                }
                tree_set_style(&mut self.tree, t, style);
                proof {
                    let g = taffy_nodes(self.tree);
                    assert forall|k: int| 0 <= k < self.nodes@.len() implies #[trigger] g.dom().contains(
                        self.nodes@[k].1,
                    ) by {
                        assert(f0.dom().contains(self.nodes@[k].1));
                    }
                }
            },
            None => {},
        }
    }

    /// Registers `id` as a container with `style`; when it is registered
    /// already, its taffy node only takes the style.
    pub fn register_container(&mut self, id: NodeId, style: Style)
        requires
            old(self).wf(),
        ensures
            final(self).wf(),
            final(self).texts() == old(self).texts(),
            old(self).registered().dom().contains(id) ==> final(self).registered() == old(
                self,
            ).registered() && final(self).forest() == restyled(
                old(self).forest(),
                old(self).registered()[id],
                style,
            ),
            !old(self).registered().dom().contains(id) ==> {
                &&& !old(self).forest().dom().contains(final(self).registered()[id])
                &&& final(self).registered() == old(self).registered().insert(
                    id,
                    final(self).registered()[id],
                )
                &&& final(self).forest() == with_leaf(
                    old(self).forest(),
                    final(self).registered()[id],
                    style,
                )
            },
    {
        if self.has_node(id) {
            self.update_style(id, style);
            return;
        }
        self.add_leaf(id, style);
    }

    /// Sets the text that sizes `id` (registered or not).
    pub fn update_text(&mut self, id: NodeId, text: &str)
        requires
            old(self).wf(),
        ensures
            final(self).wf(),
            final(self).registered() == old(self).registered(),
            final(self).forest() == old(self).forest(),
            final(self).texts().dom() == old(self).texts().dom().insert(id),
            final(self).texts()[id]@ == text@,
            forall|k: NodeId|
                k != id && old(self).texts().dom().contains(k) ==> final(self).texts()[k]
                    == old(self).texts()[k],
    {
        let s = text.to_string();
        match self.find_text(id) {
            Some(i) => {
                proof {
                    lemma_assoc_update(self.texts@, i as int, s);
                }
                self.texts.set(i, (id, s));
            },
            None => {
                proof {
                    lemma_assoc_push(self.texts@, (id, s));
                }
                self.texts.push((id, s));
            },
        }
        proof {
            assert(self.texts() == old(self).texts().insert(id, s));
            assert(self.texts().dom() =~= old(self).texts().dom().insert(id));
        }
    }

    /// Registers `id` as a text node with `style` and `text`; when it is
    /// registered already, it takes the style and the text.
    pub fn register_text_node(&mut self, id: NodeId, style: Style, text: &str)
        requires
            old(self).wf(),
        ensures
            final(self).wf(),
            final(self).texts().dom() == old(self).texts().dom().insert(id),
            final(self).texts()[id]@ == text@,
            forall|k: NodeId|
                k != id && old(self).texts().dom().contains(k) ==> final(self).texts()[k]
                    == old(self).texts()[k],
            old(self).registered().dom().contains(id) ==> final(self).registered() == old(
                self,
            ).registered() && final(self).forest() == restyled(
                old(self).forest(),
                old(self).registered()[id],
                style,
            ),
            !old(self).registered().dom().contains(id) ==> {
                &&& !old(self).forest().dom().contains(final(self).registered()[id])
                &&& final(self).registered() == old(self).registered().insert(
                    id,
                    final(self).registered()[id],
                )
                &&& final(self).forest() == with_leaf(
                    old(self).forest(),
                    final(self).registered()[id],
                    style,
                )
            },
    {
        if self.has_node(id) {
            self.update_text(id, text);
            self.update_style(id, style);
            return;
        }
        self.add_leaf(id, style);
        self.update_text(id, text);
    }

    /// Unregisters `id`, drops its text and removes its taffy node; nothing
    /// happens when it is not registered. Taffy clears the parent of each
    /// child of the node, so they must be live.
    pub fn remove_node(&mut self, id: NodeId)
        requires
            old(self).wf(),
            old(self).registered().dom().contains(id) ==> forall|c: u64|
                kids(old(self).forest(), old(self).registered()[id]).contains(c) ==> old(
                    self,
                ).forest().dom().contains(c),
        ensures
            final(self).wf(),
            !old(self).registered().dom().contains(id) ==> final(self).registered() == old(
                self,
            ).registered() && final(self).texts() == old(self).texts() && final(self).forest()
                == old(self).forest(),
            old(self).registered().dom().contains(id) ==> {
                &&& final(self).registered() == old(self).registered().remove(id)
                &&& final(self).texts() == old(self).texts().remove(id)
                &&& final(self).forest() == without_node(
                    old(self).forest(),
                    old(self).registered()[id],
                )
            },
    {
        match self.find_node(id) {
            Some(i) => {
                let ghost f0 = taffy_nodes(self.tree);
                let ghost n0 = self.nodes@;
                let t = self.nodes[i].1;
                proof {
                    lemma_assoc_index(n0, i as int);
                    lemma_assoc_remove(n0, i as int);
                    assert(f0.dom().contains(n0[i as int].1));
                    lemma_remove_keeps_forest(f0, t);
                }
                self.nodes.remove(i);
                match self.find_text(id) {
                    Some(j) => {
                        proof {
                            lemma_assoc_remove(self.texts@, j as int);
                        }
                        self.texts.remove(j);
                    },
                    None => {
                        proof {
                            lemma_assoc_dom(self.texts@);
                            assert(assoc(self.texts@).remove(id) =~= assoc(self.texts@));
                        }
                    },
                }
                proof {
                    assert(old(self).registered()[id] == t);
                    assert(taffy_nodes(self.tree) == old(self).forest());
                    assert(forall|c: u64|
                        kids(f0, t).contains(c) ==> f0.dom().contains(c));
                }
                tree_remove(&mut self.tree, t);
                proof {
                    let n = self.nodes@;
                    let g = taffy_nodes(self.tree);
                    assert forall|k: int| 0 <= k < n.len() implies #[trigger] g.dom().contains(
                        n[k].1,
                    ) by {
                        if k < i {
                            assert(n[k] == n0[k]);
                            assert(f0.dom().contains(n0[k].1));
                            assert(n0[k].1 != n0[i as int].1);
                        } else {
                            assert(n[k] == n0[k + 1]);
                            assert(f0.dom().contains(n0[k + 1].1));
                            assert(n0[k + 1].1 != n0[i as int].1);
                        }
                    }
                    assert forall|a: int, b: int| 0 <= a < b < n.len() implies n[a].1 != n[b].1 by {
                        let a0 = if a < i { a } else { a + 1 };
                        let b0 = if b < i { b } else { b + 1 };
                        assert(n[a] == n0[a0]);
                        assert(n[b] == n0[b0]);
                    }
                }
            },
            None => {
                proof {
                    lemma_assoc_dom(self.nodes@);
                }
            },
        }
    }

    /// Adds `child`'s taffy node at the end of `parent`'s children. Both
    /// must be registered, and `child` must be neither `parent` nor one of
    /// its ancestors (taffy would recurse without end when it marks the
    /// layout dirty).
    pub fn add_child(&mut self, parent: NodeId, child: NodeId)
        requires
            old(self).wf(),
            old(self).registered().dom().contains(parent),
            old(self).registered().dom().contains(child),
            !is_ancestor_or_self(
                old(self).forest(),
                old(self).registered()[parent],
                old(self).registered()[child],
            ),
        ensures
            final(self).wf(),
            final(self).registered() == old(self).registered(),
            final(self).texts() == old(self).texts(),
            final(self).forest() == with_child(
                old(self).forest(),
                old(self).registered()[parent],
                old(self).registered()[child],
            ),
    {
        proof {
            lemma_assoc_dom(self.nodes@);
        }
        let ip = match self.find_node(parent) {
            Some(i) => i,
            None => {
                proof {
                    let k = choose|k: int| 0 <= k < self.nodes@.len() && #[trigger] self.nodes@[k].0 == parent;
                }
                return;
            },
        };
        let ic = match self.find_node(child) {
            Some(i) => i,
            None => {
                proof {
                    let k = choose|k: int| 0 <= k < self.nodes@.len() && #[trigger] self.nodes@[k].0 == child;
                }
                return;
            },
        };
        let p = self.nodes[ip].1;
        let c = self.nodes[ic].1;
        let ghost f0 = taffy_nodes(self.tree);
        proof {
            lemma_assoc_index(self.nodes@, ip as int);
            lemma_assoc_index(self.nodes@, ic as int);
            assert(f0.dom().contains(self.nodes@[ip as int].1));
            assert(f0.dom().contains(self.nodes@[ic as int].1));
            lemma_add_child_keeps_forest(f0, p, c);
        }
        tree_add_child(&mut self.tree, p, c);
        proof {
            let g = taffy_nodes(self.tree);
            assert forall|k: int| 0 <= k < self.nodes@.len() implies #[trigger] g.dom().contains(
                self.nodes@[k].1,
            ) by {
                assert(f0.dom().contains(self.nodes@[k].1));
            }
        }
    }

    /// Takes `child`'s taffy node out of `parent`'s children (its first
    /// occurrence). Both must be registered, and `child` must be among
    /// `parent`'s children (else taffy panics).
    pub fn remove_child(&mut self, parent: NodeId, child: NodeId)
        requires
            old(self).wf(),
            old(self).registered().dom().contains(parent),
            old(self).registered().dom().contains(child),
            kids(old(self).forest(), old(self).registered()[parent]).contains(
                old(self).registered()[child],
            ),
        ensures
            final(self).wf(),
            final(self).registered() == old(self).registered(),
            final(self).texts() == old(self).texts(),
            final(self).forest() == without_child(
                old(self).forest(),
                old(self).registered()[parent],
                old(self).registered()[child],
            ),
    {
        proof {
            lemma_assoc_dom(self.nodes@);
        }
        let ip = match self.find_node(parent) {
            Some(i) => i,
            None => {
                proof {
                    let k = choose|k: int| 0 <= k < self.nodes@.len() && #[trigger] self.nodes@[k].0 == parent;
                }
                return;
            },
        };
        let ic = match self.find_node(child) {
            Some(i) => i,
            None => {
                proof {
                    let k = choose|k: int| 0 <= k < self.nodes@.len() && #[trigger] self.nodes@[k].0 == child;
                }
                return;
            },
        };
        let p = self.nodes[ip].1;
        let c = self.nodes[ic].1;
        let ghost f0 = taffy_nodes(self.tree);
        proof {
            lemma_assoc_index(self.nodes@, ip as int);
            lemma_assoc_index(self.nodes@, ic as int);
            assert(f0.dom().contains(self.nodes@[ip as int].1));
            assert(f0.dom().contains(self.nodes@[ic as int].1));
            lemma_remove_child_keeps_forest(f0, p, c);
        }
        tree_remove_child(&mut self.tree, p, c);
        proof {
            let g = taffy_nodes(self.tree);
            assert forall|k: int| 0 <= k < self.nodes@.len() implies #[trigger] g.dom().contains(
                self.nodes@[k].1,
            ) by {
                assert(f0.dom().contains(self.nodes@[k].1));
            }
        }
    }

    /// The taffy node of `id`, where a layout is computed from.
    pub fn taffy_node(&self, id: NodeId) -> (r: Result<u64, LayoutError>)
        requires
            self.wf(),
        ensures
            self.registered().dom().contains(id) ==> r == Ok::<u64, LayoutError>(
                self.registered()[id],
            ),
            !self.registered().dom().contains(id) ==> (r matches Err(
                LayoutError::NodeNotRegistered(n),
            ) && n == id),
    {
        proof {
            lemma_assoc_dom(self.nodes@);
        }
        match self.find_node(id) {
            Some(i) => {
                proof {
                    lemma_assoc_index(self.nodes@, i as int);
                }
                Ok(self.nodes[i].1)
            },
            None => Err(LayoutError::NodeNotRegistered(id)),
        }
    }

    /// The text of each registered text node, under its taffy node.
    pub fn measured_texts(&self) -> (r: Vec<(u64, String)>)
        requires
            self.wf(),
        ensures
            r@.len() == measured(self.registered(), self.text_entries()).len(),
            forall|i: int|
                0 <= i < r@.len() ==> r@[i].0 == measured(self.registered(), self.text_entries())[i].0
                    && r@[i].1@ == measured(self.registered(), self.text_entries())[i].1,
    {
        let mut r: Vec<(u64, String)> = Vec::new();
        let mut i: usize = 0;
        while i < self.texts.len()
            invariant
                self.wf(),
                i <= self.texts@.len(),
                r@.len() == measured(self.registered(), self.texts@.take(i as int)).len(),
                forall|k: int|
                    0 <= k < r@.len() ==> r@[k].0 == measured(
                        self.registered(),
                        self.texts@.take(i as int),
                    )[k].0 && r@[k].1@ == measured(self.registered(), self.texts@.take(i as int))[k].1,
            decreases self.texts@.len() - i,
        {
            let id = self.texts[i].0;
            proof {
                assert(self.texts@.take(i + 1).drop_last() =~= self.texts@.take(i as int));
                lemma_assoc_dom(self.nodes@);
            }
            match self.find_node(id) {
                Some(j) => {
                    proof {
                        assert(self.nodes@[j as int].0 == id);
                        lemma_assoc_index(self.nodes@, j as int);
                    }
                    let text = self.texts[i].1.clone();
                    r.push((self.nodes[j].1, text));
                },
                None => {},
            }
            i = i + 1;
        }
        proof {
            assert(self.texts@.take(self.texts@.len() as int) =~= self.texts@);
        }
        r
    }

    /// Each registered node with its taffy node, in registration order.
    pub fn registrations(&self) -> (r: &[(NodeId, u64)])
        requires
            self.wf(),
        ensures
            keys_unique(r@),
            assoc(r@) == self.registered(),
    {
        self.nodes.as_slice()
    }

    /// The taffy tree, to read the computed layouts from.
    pub fn tree(&self) -> (t: &TaffyTree<()>)
        ensures
            taffy_nodes(*t) == self.forest(),
    {
        &self.tree
    }

    /// The taffy tree, to compute the layout on. What the caller does to it
    /// is not followed: afterwards the registrations and texts are as they
    /// were, and the tree is whatever the caller left.
    pub fn tree_mut(&mut self) -> (t: &mut TaffyTree<()>)
        ensures
            taffy_nodes(*t) == old(self).forest(),
            final(self).registered() == old(self).registered(),
            final(self).texts() == old(self).texts(),
            final(self).forest() == taffy_nodes(*final(t)),
    {
        &mut self.tree
    }
}

impl Default for LayoutEngine {
    fn default() -> (e: LayoutEngine)
        ensures
            e.wf(),
            e.registered() == Map::<NodeId, u64>::empty(),
            e.texts() == Map::<NodeId, String>::empty(),
            e.forest() == Forest::empty(),
    {
        LayoutEngine::new()
    }
}

} // verus!
