//! The taffy layout tree seen as plain values: for each live node, its
//! children in order and its parent. The tree operations that the layout
//! engine makes are stated over that view, and every one of them keeps the
//! tree a forest: each node's chain of parents is finite and made of live
//! nodes, and each node is among the children of its parent.

use vstd::prelude::*;
use taffy::{Style, TaffyError, TaffyTree};

verus! {

#[verifier::external_type_specification]
#[verifier::external_body]
#[verifier::reject_recursive_types(NodeContext)]
pub struct ExTaffyTree<NodeContext>(TaffyTree<NodeContext>);

#[verifier::external_type_specification]
#[verifier::external_body]
pub struct ExStyle(Style);

#[verifier::external_type_specification]
#[verifier::external_body]
pub struct ExTaffyError(TaffyError);

/// For each live node of a tree: its children in order, its parent, and
/// its style.
pub type Forest = Map<u64, (Seq<u64>, Option<u64>, Style)>;

/// The live nodes of a taffy tree, each with its children in order, its
/// parent and its style, node ids taken as their `u64` values.
pub uninterp spec fn taffy_nodes(tree: TaffyTree<()>) -> Map<u64, (Seq<u64>, Option<u64>, Style)>;

/// The children of `n`.
pub open spec fn kids(f: Forest, n: u64) -> Seq<u64> {
    f[n].0
}

/// The parent of `n`.
pub open spec fn parent(f: Forest, n: u64) -> Option<u64> {
    f[n].1
}

/// Following parents from `n` meets only live nodes and ends within `k`
/// steps.
pub open spec fn chain_ok(f: Forest, n: u64, k: nat) -> bool
    decreases k,
{
    f.dom().contains(n) && match f[n].1 {
        None => true,
        Some(q) => k > 0 && chain_ok(f, q, (k - 1) as nat),
    }
}

/// `n`'s chain of parents is finite and made of live nodes.
pub open spec fn rooted(f: Forest, n: u64) -> bool {
    exists|k: nat| chain_ok(f, n, k)
}

/// `x` is `n` or is met within `k` steps up `n`'s chain of parents.
pub open spec fn reaches(f: Forest, n: u64, x: u64, k: nat) -> bool
    decreases k,
{
    n == x || (f.dom().contains(n) && match f[n].1 {
        None => false,
        Some(q) => k > 0 && reaches(f, q, x, (k - 1) as nat),
    })
}

/// `x` is `n` itself or one of its ancestors.
pub open spec fn is_ancestor_or_self(f: Forest, n: u64, x: u64) -> bool {
    exists|k: nat| reaches(f, n, x, k)
}

/// Every live node's parent chain is finite and live, and every node is
/// among the children of its parent.
pub open spec fn forest_ok(f: Forest) -> bool {
    forall|n: u64| #[trigger]
        f.dom().contains(n) ==> rooted(f, n) && (f[n].1 matches Some(q) ==> f[q].0.contains(n))
}

/// The tree after `new_leaf` made node `t` with `style`.
pub open spec fn with_leaf(f: Forest, t: u64, style: Style) -> Forest {
    f.insert(t, (Seq::<u64>::empty(), None::<u64>, style))
}

/// The tree after `set_style` gave node `n` the style `style`.
pub open spec fn restyled(f: Forest, n: u64, style: Style) -> Forest {
    f.insert(n, (f[n].0, f[n].1, style))
}

/// The tree after `remove(n)`: `n` leaves its parent's children, its
/// children lose their parent, and it is gone.
pub open spec fn without_node(f: Forest, n: u64) -> Forest {
    Map::new(
        |x: u64| f.dom().contains(x) && x != n,
        |x: u64|
            (
                if f[n].1 == Some(x) {
                    f[x].0.filter(|y: u64| y != n)
                } else {
                    f[x].0
                },
                if f[n].0.contains(x) {
                    None
                } else {
                    f[x].1
                },
                f[x].2,
            ),
    )
}

/// The tree after `add_child(p, c)`: `c`'s parent is `p`, and `c` is
/// pushed at the end of `p`'s children.
pub open spec fn with_child(f: Forest, p: u64, c: u64) -> Forest {
    let f1 = f.insert(c, (f[c].0, Some(p), f[c].2));
    f1.insert(p, (f1[p].0.push(c), f1[p].1, f1[p].2))
}

/// The index of the first `x` in `s`, or `s.len()`.
pub open spec fn first_index(s: Seq<u64>, x: u64) -> int
    decreases s.len(),
{
    if s.len() == 0 {
        0
    } else if s[0] == x {
        0
    } else {
        1 + first_index(s.drop_first(), x)
    }
}

/// The tree after `remove_child(p, c)`: the first `c` leaves `p`'s
/// children, and `c` has no parent.
pub open spec fn without_child(f: Forest, p: u64, c: u64) -> Forest {
    let f1 = f.insert(p, (f[p].0.remove(first_index(f[p].0, c)), f[p].1, f[p].2));
    f1.insert(c, (f1[c].0, None::<u64>, f1[c].2))
}

/// `TaffyTree::new`: a tree with no nodes.
#[verifier::external_body]
pub(crate) fn tree_new() -> (t: TaffyTree)
    ensures
        taffy_nodes(t) == Forest::empty(),
{
    TaffyTree::new()
}

/// `Style::default()`; nothing is stated of the style.
#[verifier::external_body]
pub(crate) fn default_style() -> (s: Style) {
    Style::default()
}

/// `TaffyTree::new_leaf`: always `Ok`, with a new node that has no children
/// and no parent, under an id that no live node has. The slot map under the
/// tree panics once it has used 2^32 - 1 slots, a count that the view does
/// not hold (memory runs out long before).
#[verifier::external_body]
pub(crate) fn tree_new_leaf(t: &mut TaffyTree<()>, style: Style) -> (r: Result<u64, TaffyError>)
    ensures
        r matches Ok(id) && !taffy_nodes(*old(t)).dom().contains(id) && taffy_nodes(*final(t))
            == with_leaf(taffy_nodes(*old(t)), id, style),
{
    t.new_leaf(style).map(u64::from)
}

/// `TaffyTree::remove` (its result, always `Ok` with the node, is
/// dropped): see `without_node`. It indexes the node and each of its
/// children, which must be live.
#[verifier::external_body]
pub(crate) fn tree_remove(t: &mut TaffyTree<()>, n: u64)
    requires
        taffy_nodes(*old(t)).dom().contains(n),
        forall|c: u64|
            kids(taffy_nodes(*old(t)), n).contains(c) ==> taffy_nodes(*old(t)).dom().contains(c),
    ensures
        taffy_nodes(*final(t)) == without_node(taffy_nodes(*old(t)), n),
{
    let _ = t.remove(taffy::NodeId::from(n));
}

/// `TaffyTree::add_child` (its result, always `Ok`, is dropped): see
/// `with_child`. Both nodes must be live, and marking the parent dirty
/// walks its new chain of parents, which must be finite and live.
#[verifier::external_body]
pub(crate) fn tree_add_child(t: &mut TaffyTree<()>, p: u64, c: u64)
    requires
        taffy_nodes(*old(t)).dom().contains(p),
        taffy_nodes(*old(t)).dom().contains(c),
        rooted(with_child(taffy_nodes(*old(t)), p, c), p),
    ensures
        taffy_nodes(*final(t)) == with_child(taffy_nodes(*old(t)), p, c),
{
    let _ = t.add_child(taffy::NodeId::from(p), taffy::NodeId::from(c));
}

/// `TaffyTree::remove_child` (its result, always `Ok` with the child, is
/// dropped): see `without_child`. The parent must be live and hold the
/// child (else its `unwrap` panics), the child must be live, and marking
/// the parent dirty walks its chain of parents.
#[verifier::external_body]
pub(crate) fn tree_remove_child(t: &mut TaffyTree<()>, p: u64, c: u64)
    requires
        taffy_nodes(*old(t)).dom().contains(p),
        taffy_nodes(*old(t)).dom().contains(c),
        kids(taffy_nodes(*old(t)), p).contains(c),
        rooted(without_child(taffy_nodes(*old(t)), p, c), p),
    ensures
        taffy_nodes(*final(t)) == without_child(taffy_nodes(*old(t)), p, c),
{
    let _ = t.remove_child(taffy::NodeId::from(p), taffy::NodeId::from(c));
}

/// `TaffyTree::set_style` (its result, always `Ok`, is dropped): the node
/// takes `style`; children and parents stay as they are. The node must be
/// live, and marking it dirty walks its chain of parents.
#[verifier::external_body]
pub(crate) fn tree_set_style(t: &mut TaffyTree<()>, n: u64, style: Style)
    requires
        taffy_nodes(*old(t)).dom().contains(n),
        rooted(taffy_nodes(*old(t)), n),
    ensures
        taffy_nodes(*final(t)) == restyled(taffy_nodes(*old(t)), n, style),
{
    let _ = t.set_style(taffy::NodeId::from(n), style);
}

/// A chain that ends within `a` steps ends within any `b >= a`.
pub proof fn lemma_chain_mono(f: Forest, n: u64, a: nat, b: nat)
    requires
        chain_ok(f, n, a),
        a <= b,
    ensures
        chain_ok(f, n, b),
    decreases a,
{
    if let Some(q) = f[n].1 {
        lemma_chain_mono(f, q, (a - 1) as nat, (b - 1) as nat);
    }
}

proof fn lemma_chain_leaf(f: Forest, t: u64, st: Style, n: u64, k: nat)
    requires
        !f.dom().contains(t),
        chain_ok(f, n, k),
    ensures
        chain_ok(with_leaf(f, t, st), n, k),
    decreases k,
{
    if let Some(q) = f[n].1 {
        lemma_chain_leaf(f, t, st, q, (k - 1) as nat);
    }
}

/// Making a new leaf keeps the tree a forest.
pub proof fn lemma_leaf_keeps_forest(f: Forest, t: u64, st: Style)
    requires
        forest_ok(f),
        !f.dom().contains(t),
    ensures
        forest_ok(with_leaf(f, t, st)),
{
    let g = with_leaf(f, t, st);
    assert forall|n: u64| #[trigger] g.dom().contains(n) implies rooted(g, n) && (g[n].1 matches Some(
        q,
    ) ==> g[q].0.contains(n)) by {
        if n == t {
            assert(chain_ok(g, t, 0));
        } else {
            assert(f.dom().contains(n));
            let k = choose|k: nat| chain_ok(f, n, k);
            lemma_chain_leaf(f, t, st, n, k);
            if let Some(q) = f[n].1 {
                assert(chain_ok(f, q, (k - 1) as nat));
                assert(q != t);
            }
        }
    }
}

proof fn lemma_chain_without(f: Forest, n: u64, m: u64, k: nat)
    requires
        forest_ok(f),
        f.dom().contains(n),
        m != n,
        chain_ok(f, m, k),
    ensures
        chain_ok(without_node(f, n), m, k),
    decreases k,
{
    let g = without_node(f, n);
    assert(f.dom().contains(m));
    assert(g.dom().contains(m));
    if !f[n].0.contains(m) {
        if let Some(q) = f[m].1 {
            if q == n {
                assert(f[q].0.contains(m));
            } else {
                lemma_chain_without(f, n, q, (k - 1) as nat);
            }
        }
    }
}

/// Removing a node whose children are live keeps the tree a forest.
pub proof fn lemma_remove_keeps_forest(f: Forest, n: u64)
    requires
        forest_ok(f),
        f.dom().contains(n),
    ensures
        forest_ok(without_node(f, n)),
{
    let g = without_node(f, n);
    assert forall|m: u64| #[trigger] g.dom().contains(m) implies rooted(g, m) && (g[m].1 matches Some(
        q,
    ) ==> g[q].0.contains(m)) by {
        assert(f.dom().contains(m));
        let k = choose|k: nat| chain_ok(f, m, k);
        lemma_chain_without(f, n, m, k);
        if let Some(q) = g[m].1 {
            assert(!f[n].0.contains(m));
            assert(f[m].1 == Some(q));
            assert(chain_ok(f, q, (k - 1) as nat));
            assert(f[q].0.contains(m));
            if q == n {
                assert(false);
            }
            assert(g.dom().contains(q));
            if f[n].1 == Some(q) {
                let i = choose|i: int| 0 <= i < f[q].0.len() && f[q].0[i] == m;
                let pred = |y: u64| y != n;
                assert(pred(f[q].0[i]));
                f[q].0.lemma_filter_contains(pred, i);
            }
        }
    }
}

proof fn lemma_chain_to_parent(f: Forest, p: u64, c: u64, n: u64, k: nat)
    requires
        chain_ok(f, n, k),
        !reaches(f, n, c, k),
        f.dom().contains(c),
    ensures
        chain_ok(with_child(f, p, c), n, k),
    decreases k,
{
    let g = with_child(f, p, c);
    assert(n != c);
    assert(g[n].1 == f[n].1);
    if let Some(q) = f[n].1 {
        assert(!reaches(f, q, c, (k - 1) as nat));
        lemma_chain_to_parent(f, p, c, q, (k - 1) as nat);
    }
}

proof fn lemma_chain_with_child(f: Forest, p: u64, c: u64, kp: nat, m: u64, k: nat)
    requires
        f.dom().contains(c),
        chain_ok(with_child(f, p, c), c, kp + 1),
        chain_ok(f, m, k),
    ensures
        chain_ok(with_child(f, p, c), m, k + kp + 1),
    decreases k,
{
    let g = with_child(f, p, c);
    if m == c {
        lemma_chain_mono(g, c, kp + 1, k + kp + 1);
    } else {
        assert(g[m].1 == f[m].1);
        if let Some(q) = f[m].1 {
            lemma_chain_with_child(f, p, c, kp, q, (k - 1) as nat);
        }
    }
}

/// Adding as a child a node that is not the parent or one of its
/// ancestors keeps the tree a forest.
pub proof fn lemma_add_child_keeps_forest(f: Forest, p: u64, c: u64)
    requires
        forest_ok(f),
        f.dom().contains(p),
        f.dom().contains(c),
        !is_ancestor_or_self(f, p, c),
    ensures
        forest_ok(with_child(f, p, c)),
        rooted(with_child(f, p, c), p),
{
    let g = with_child(f, p, c);
    let kp = choose|k: nat| chain_ok(f, p, k);
    assert(!reaches(f, p, c, kp));
    lemma_chain_to_parent(f, p, c, p, kp);
    assert(p != c);
    assert(chain_ok(g, c, kp + 1));
    assert forall|m: u64| #[trigger] g.dom().contains(m) implies rooted(g, m) && (g[m].1 matches Some(
        q,
    ) ==> g[q].0.contains(m)) by {
        assert(f.dom().contains(m));
        let k = choose|k: nat| chain_ok(f, m, k);
        lemma_chain_with_child(f, p, c, kp, m, k);
        if let Some(q) = g[m].1 {
            if m == c {
                assert(g[p].0 == f[p].0.push(c));
                assert(g[p].0[f[p].0.len() as int] == c);
            } else {
                assert(f[m].1 == Some(q));
                assert(f[q].0.contains(m));
                if q == p {
                    let i = choose|i: int| 0 <= i < f[p].0.len() && f[p].0[i] == m;
                    assert(g[p].0[i] == m);
                } else if q == c {
                    assert(g[c].0 == f[c].0);
                }
            }
        }
    }
}

proof fn lemma_chain_without_child(f: Forest, p: u64, c: u64, m: u64, k: nat)
    requires
        f.dom().contains(p),
        f.dom().contains(c),
        chain_ok(f, m, k),
    ensures
        chain_ok(without_child(f, p, c), m, k),
    decreases k,
{
    let g = without_child(f, p, c);
    if m != c {
        assert(g[m].1 == f[m].1);
        if let Some(q) = f[m].1 {
            lemma_chain_without_child(f, p, c, q, (k - 1) as nat);
        }
    }
}

proof fn lemma_first_index(s: Seq<u64>, x: u64)
    requires
        s.contains(x),
    ensures
        0 <= first_index(s, x) < s.len(),
        s[first_index(s, x)] == x,
    decreases s.len(),
{
    if s[0] != x {
        let i = choose|i: int| 0 <= i < s.len() && s[i] == x;
        assert(s.drop_first()[i - 1] == x);
        lemma_first_index(s.drop_first(), x);
    }
}

/// Removing a child keeps the tree a forest.
pub proof fn lemma_remove_child_keeps_forest(f: Forest, p: u64, c: u64)
    requires
        forest_ok(f),
        f.dom().contains(p),
        f.dom().contains(c),
        f[p].0.contains(c),
    ensures
        forest_ok(without_child(f, p, c)),
        rooted(without_child(f, p, c), p),
{
    let g = without_child(f, p, c);
    lemma_first_index(f[p].0, c);
    let i = first_index(f[p].0, c);
    assert forall|m: u64| #[trigger] g.dom().contains(m) implies rooted(g, m) && (g[m].1 matches Some(
        q,
    ) ==> g[q].0.contains(m)) by {
        assert(f.dom().contains(m));
        let k = choose|k: nat| chain_ok(f, m, k);
        lemma_chain_without_child(f, p, c, m, k);
        if let Some(q) = g[m].1 {
            assert(m != c);
            assert(f[m].1 == Some(q));
            assert(f[q].0.contains(m));
            if q == p {
                let j = choose|j: int| 0 <= j < f[p].0.len() && f[p].0[j] == m;
                assert(j != i);
                if j < i {
                    assert(g[p].0[j] == m);
                } else {
                    assert(g[p].0[j - 1] == m);
                }
            } else if q == c {
                assert(g[c].0 == f[c].0);
            }
        }
    }
    let kp = choose|k: nat| chain_ok(f, p, k);
    lemma_chain_without_child(f, p, c, p, kp);
}

/// Removing a leaf that was just made gives back the tree as it was.
pub proof fn lemma_leaf_then_remove(f: Forest, t: u64, st: Style)
    requires
        !f.dom().contains(t),
    ensures
        without_node(with_leaf(f, t, st), t) == f,
{
    let g = with_leaf(f, t, st);
    assert(without_node(g, t) =~= f);
}

/// Detaching a child that was just attached gives back the tree as it was,
/// when the child had no parent and was not among the parent's children.
pub proof fn lemma_child_then_detach(f: Forest, p: u64, c: u64)
    requires
        f.dom().contains(p),
        f.dom().contains(c),
        p != c,
        f[c].1 is None,
        !f[p].0.contains(c),
    ensures
        without_child(with_child(f, p, c), p, c) == f,
{
    let g = with_child(f, p, c);
    let s = f[p].0;
    assert(g[p].0 == s.push(c));
    assert forall|i: int| 0 <= i < s.len() implies s.push(c)[i] != c by {
        assert(s[i] != c);
    }
    lemma_first_index_absent_prefix(s, c);
    assert(first_index(s.push(c), c) == s.len());
    assert(s.push(c).remove(s.len() as int) =~= s);
    assert(without_child(g, p, c) =~= f);
}

proof fn lemma_first_index_absent_prefix(s: Seq<u64>, x: u64)
    requires
        !s.contains(x),
    ensures
        first_index(s.push(x), x) == s.len(),
    decreases s.len(),
{
    if s.len() > 0 {
        assert(s.push(x)[0] == s[0]);
        assert(s.push(x).drop_first() =~= s.drop_first().push(x));
        assert(!s.drop_first().contains(x)) by {
            if s.drop_first().contains(x) {
                let i = choose|i: int| 0 <= i < s.drop_first().len() && s.drop_first()[i] == x;
                assert(s[i + 1] == x);
            }
        }
        lemma_first_index_absent_prefix(s.drop_first(), x);
    }
}

/// A new leaf changes no node's chain of parents.
pub proof fn lemma_reaches_with_leaf(f: Forest, t: u64, st: Style, n: u64, x: u64, k: nat)
    requires
        !f.dom().contains(t),
    ensures
        reaches(with_leaf(f, t, st), n, x, k) == reaches(f, n, x, k),
    decreases k,
{
    let g = with_leaf(f, t, st);
    if n != t && f.dom().contains(n) {
        assert(g[n] == f[n]);
        if let Some(q) = f[n].1 {
            if k > 0 {
                lemma_reaches_with_leaf(f, t, st, q, x, (k - 1) as nat);
            }
        }
    }
}

/// In a forest, no live node's chain of parents meets a node that is not
/// live.
pub proof fn lemma_dead_unreached(f: Forest, t: u64, n: u64, k: nat)
    requires
        forest_ok(f),
        !f.dom().contains(t),
        f.dom().contains(n),
    ensures
        !reaches(f, n, t, k),
    decreases k,
{
    if let Some(q) = f[n].1 {
        if k > 0 {
            let kk = choose|kk: nat| chain_ok(f, n, kk);
            assert(chain_ok(f, q, (kk - 1) as nat));
            lemma_dead_unreached(f, t, q, (k - 1) as nat);
        }
    }
}

/// Attaching `c` under `p` changes the chain of no node that does not have
/// `c` on its chain.
pub proof fn lemma_reaches_with_child(f: Forest, p: u64, c: u64, n: u64, x: u64, k: nat)
    requires
        f.dom().contains(p),
        f.dom().contains(c),
        !is_ancestor_or_self(f, n, c),
    ensures
        reaches(with_child(f, p, c), n, x, k) == reaches(f, n, x, k),
    decreases k,
{
    let g = with_child(f, p, c);
    assert(!reaches(f, n, c, 0));
    assert(n != c);
    if f.dom().contains(n) {
        assert(g[n].1 == f[n].1);
        if let Some(q) = f[n].1 {
            if k > 0 {
                assert forall|j: nat| !reaches(f, q, c, j) by {
                    assert(!reaches(f, n, c, j + 1));
                }
                lemma_reaches_with_child(f, p, c, q, x, (k - 1) as nat);
            }
        }
    }
}

proof fn lemma_chain_restyled(f: Forest, n: u64, st: Style, m: u64, k: nat)
    requires
        f.dom().contains(n),
        chain_ok(f, m, k),
    ensures
        chain_ok(restyled(f, n, st), m, k),
    decreases k,
{
    if let Some(q) = f[m].1 {
        lemma_chain_restyled(f, n, st, q, (k - 1) as nat);
    }
}

/// Giving a node a style keeps the tree a forest.
pub proof fn lemma_restyle_keeps_forest(f: Forest, n: u64, st: Style)
    requires
        forest_ok(f),
        f.dom().contains(n),
    ensures
        forest_ok(restyled(f, n, st)),
{
    let g = restyled(f, n, st);
    assert forall|m: u64| #[trigger] g.dom().contains(m) implies rooted(g, m) && (g[m].1 matches Some(
        q,
    ) ==> g[q].0.contains(m)) by {
        let k = choose|k: nat| chain_ok(f, m, k);
        lemma_chain_restyled(f, n, st, m, k);
        if let Some(q) = g[m].1 {
            assert(chain_ok(f, q, (k - 1) as nat));
            assert(g[q].0 == f[q].0);
        }
    }
}

/// `g` has every node of `f` with the same parent, and its other nodes
/// have no parent.
pub open spec fn same_parents(f: Forest, g: Forest) -> bool {
    &&& forall|m: u64| #[trigger] f.dom().contains(m) ==> g.dom().contains(m) && g[m].1 == f[m].1
    &&& forall|m: u64| #[trigger] g.dom().contains(m) && !f.dom().contains(m) ==> g[m].1 is None
}

/// Chains of parents only depend on the parents.
pub proof fn lemma_reaches_same_parents(f: Forest, g: Forest, n: u64, x: u64, k: nat)
    requires
        same_parents(f, g),
    ensures
        reaches(g, n, x, k) == reaches(f, n, x, k),
    decreases k,
{
    if f.dom().contains(n) {
        if let Some(q) = f[n].1 {
            if k > 0 {
                lemma_reaches_same_parents(f, g, q, x, (k - 1) as nat);
            }
        }
    }
}

} // verus!
