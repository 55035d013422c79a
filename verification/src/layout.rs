//! The split tree of a tab: panes are leaves, splits divide their area among children.
//!
//! A split carries one weight per child. Weights are opaque here: the arithmetic on them
//! (halving on a split, renormalising after a removal, turning them into pixel shares) is
//! supplied by the caller as closures, so the tree logic is independent of their number type.

use vstd::prelude::*;

use crate::model::PaneId;
use crate::rect::{as_signed, clamp_i32, offset_coordinate, saturating_mul_u32, PhysicalRect};

verus! {

/// Direction in which a split lays out its children.
#[derive(Clone, Copy, Debug, PartialEq, Eq, Structural)]
pub enum Axis {
    /// Children side by side, left to right.
    Horizontal,
    /// Children stacked, top to bottom.
    Vertical,
}

/// A node of the split tree.
#[derive(Debug, PartialEq)]
pub enum Node<W> {
    Leaf(PaneId),
    Split { axis: Axis, children: Vec<Node<W>>, sizes: Vec<W> },
}

/// Panes of a sequence of subtrees, left to right.
pub open spec fn leaves_of<W>(nodes: Seq<Node<W>>) -> Seq<PaneId>
    decreases nodes,
{
    if nodes.len() == 0 {
        Seq::empty()
    } else {
        nodes[0].leaves() + leaves_of(nodes.drop_first())
    }
}

/// Whether every subtree of the sequence is shaped (see [`Node::shaped`]).
pub open spec fn all_shaped<W>(nodes: Seq<Node<W>>, min_children: nat, weighted: bool) -> bool
    decreases nodes,
{
    if nodes.len() == 0 {
        true
    } else {
        nodes[0].shaped(min_children, weighted) && all_shaped(
            nodes.drop_first(),
            min_children,
            weighted,
        )
    }
}

/// Index of the first occurrence of `p` in `s` (`s.len()` when absent).
pub open spec fn first_index(s: Seq<PaneId>, p: PaneId) -> int
    decreases s.len(),
{
    if s.len() == 0 {
        0
    } else if s[0] == p {
        0
    } else {
        1 + first_index(s.drop_first(), p)
    }
}

impl<W> Node<W> {
    /// Panes of the tree in depth-first, left-to-right order.
    pub open spec fn leaves(self) -> Seq<PaneId>
        decreases self,
    {
        match self {
            Node::Leaf(p) => seq![p],
            Node::Split { children, .. } => {
                proof {
                    assert(decreases_to!(self => children));
                }
                leaves_of(children@)
            },
        }
    }

    /// Every split has at least `min_children` children and, when `weighted`, exactly one
    /// weight per child.
    pub open spec fn shaped(self, min_children: nat, weighted: bool) -> bool
        decreases self,
    {
        match self {
            Node::Leaf(_) => true,
            Node::Split { children, sizes, .. } => {
                proof {
                    assert(decreases_to!(self => children));
                }
                &&& children.len() >= min_children
                &&& (weighted ==> sizes.len() == children.len())
                &&& all_shaped(children@, min_children, weighted)
            },
        }
    }

    /// No split has more children than a `u32` counts.
    pub open spec fn narrow(self) -> bool
        decreases self,
    {
        match self {
            Node::Leaf(_) => true,
            Node::Split { children, .. } => {
                proof {
                    assert(decreases_to!(self => children));
                }
                &&& children@.len() <= u32::MAX
                &&& forall|i: int| 0 <= i < children@.len() ==> (#[trigger] children@[i]).narrow()
            },
        }
    }

    /// Every split carries one weight per child.
    pub open spec fn weighted(self) -> bool {
        self.shaped(0, true)
    }

    /// Every split has a child.
    pub open spec fn nonempty(self) -> bool {
        self.shaped(1, false)
    }

    /// The shape that splitting and removing panes keep: every split has at least two
    /// children and one weight per child.
    pub open spec fn wf(self) -> bool {
        self.shaped(2, true)
    }
}



/// The panes of a nonempty tree form a nonempty sequence.
pub proof fn lemma_nonempty_has_leaf<W>(n: Node<W>)
    requires
        n.nonempty(),
    ensures
        n.leaves().len() >= 1,
    decreases n,
{
    if let Node::Split { children, .. } = n {
        assert(decreases_to!(n => children));
        assert(children@[0].nonempty());
        lemma_nonempty_has_leaf(children@[0]);
    }
}

/// Weaker shapes follow from stronger ones.
pub proof fn lemma_shaped_weaken<W>(n: Node<W>, m: nat, w: bool, m2: nat, w2: bool)
    requires
        n.shaped(m, w),
        m2 <= m,
        w2 ==> w,
    ensures
        n.shaped(m2, w2),
    decreases n,
{
    if let Node::Split { children, .. } = n {
        assert(decreases_to!(n => children));
        assert forall|i: int| 0 <= i < children@.len() implies #[trigger] children@[i].shaped(m2, w2) by {
            lemma_all_shaped_index(children@, i, m, w);
            lemma_shaped_weaken(children@[i], m, w, m2, w2);
        }
        lemma_all_shaped_from_each(children@, m2, w2);
    }
}

/// A sequence whose subtrees are each shaped is shaped.
pub proof fn lemma_all_shaped_from_each<W>(s: Seq<Node<W>>, m: nat, w: bool)
    requires
        forall|i: int| 0 <= i < s.len() ==> #[trigger] s[i].shaped(m, w),
    ensures
        all_shaped(s, m, w),
    decreases s.len(),
{
    if s.len() > 0 {
        assert forall|i: int| 0 <= i < s.drop_first().len() implies #[trigger] s.drop_first()[i].shaped(m, w) by {
            assert(s.drop_first()[i] == s[i + 1]);
        }
        lemma_all_shaped_from_each(s.drop_first(), m, w);
        assert(s[0].shaped(m, w));
    }
}

impl<W> Node<W> {
    /// Whether every split of the tree has a child (see [`Node::nonempty`]).
    #[verifier::loop_isolation(false)]
    pub fn is_nonempty(&self) -> (r: bool)
        ensures
            r == self.nonempty(),
        decreases self,
    {
        match self {
            Node::Leaf(_) => true,
            Node::Split { children, .. } => {
                if children.len() == 0 {
                    return false;
                }
                let mut i: usize = 0;
                while i < children.len()
                    invariant
                        i <= children@.len(),
                        forall|j: int| 0 <= j < i ==> (#[trigger] children@[j]).shaped(1, false),
                    decreases children@.len() - i,
                {
                    proof {
                        assert(decreases_to!(*self => children@[i as int]));
                    }
                    if !children[i].is_nonempty() {
                        proof {
                            if all_shaped(children@, 1, false) {
                                lemma_all_shaped_index(children@, i as int, 1, false);
                            }
                        }
                        return false;
                    }
                    i = i + 1;
                }
                proof {
                    lemma_all_shaped_from_each(children@, 1, false);
                }
                true
            },
        }
    }

    /// The leftmost pane of the tree.
    pub fn first_pane(&self) -> (r: PaneId)
        requires
            self.nonempty(),
        ensures
            self.leaves().len() >= 1,
            r == self.leaves()[0],
        decreases self,
    {
        proof {
            lemma_nonempty_has_leaf(*self);
        }
        match self {
            Node::Leaf(pane_id) => *pane_id,
            Node::Split { children, .. } => {
                proof {
                    lemma_all_shaped_index(children@, 0, 1, false);
                    lemma_nonempty_has_leaf(children@[0]);
                }
                children[0].first_pane()
            },
        }
    }

    /// Whether the pane is one of the tree's leaves.
    pub fn contains(&self, pane_id: PaneId) -> (r: bool)
        ensures
            r == self.leaves().contains(pane_id),
        decreases self,
    {
        match self {
            Node::Leaf(candidate) => {
                let r = candidate.0 == pane_id.0;
                proof {
                    if r {
                        assert(self.leaves()[0] == pane_id);
                    }
                }
                r
            },
            Node::Split { children, .. } => {
                let r = Self::position_containing(children, pane_id).is_some();
                proof {
                    lemma_leaves_of_contains(children@, pane_id);
                }
                r
            },
        }
    }

    /// Index of the first child whose subtree holds the pane.
    fn position_containing(children: &Vec<Node<W>>, pane_id: PaneId) -> (r: Option<usize>)
        ensures
            match r {
                Some(i) => {
                    &&& i < children@.len()
                    &&& children@[i as int].leaves().contains(pane_id)
                    &&& forall|j: int| 0 <= j < i ==> !(#[trigger] children@[j].leaves()).contains(pane_id)
                },
                None => forall|j: int|
                    0 <= j < children@.len() ==> !(#[trigger] children@[j].leaves()).contains(pane_id),
            },
        decreases children@,
    {
        let mut i: usize = 0;
        while i < children.len()
            invariant
                i <= children@.len(),
                forall|j: int| 0 <= j < i ==> !(#[trigger] children@[j].leaves()).contains(pane_id),
            decreases children@.len() - i,
        {
            if children[i].contains(pane_id) {
                return Some(i);
            }
            i = i + 1;
        }
        None
    }
}


/// The tree that splitting pane `p` of `old` along `axis` gives, with `n` the new pane: a
/// leaf `p` becomes a split along `axis` of `p` and `n`, each weighing `even`. In a split
/// along `axis` whose child holding `p` first is the leaf `p` itself, `n` joins right after
/// it and both weigh what `halve` gives for `p`'s former weight. Otherwise the first child
/// holding `p` is split in turn. A tree without `p` stays as it is.
pub open spec fn split_shape<W, F: Fn(W) -> W>(
    old: Node<W>,
    new: Node<W>,
    p: PaneId,
    n: PaneId,
    axis: Axis,
    even: W,
    halve: F,
) -> bool
    decreases old,
{
    match old {
        Node::Leaf(q) => if q == p {
            new matches Node::Split { axis: a2, children: c2, sizes: s2 } && a2 == axis && c2@
                == seq![Node::<W>::Leaf(p), Node::<W>::Leaf(n)] && s2@ == seq![even, even]
        } else {
            new == old
        },
        Node::Split { axis: a, children: c, sizes: s } => {
            let k = first_holding(c@, p);
            if k >= c@.len() {
                new == old
            } else if a == axis && c@[k] == Node::<W>::Leaf(p) {
                new matches Node::Split { axis: a2, children: c2, sizes: s2 } && a2 == a && c2@
                    == c@.insert(k + 1, Node::<W>::Leaf(n)) && exists|h: W|
                    call_ensures(halve, (s@[k],), h) && s2@ == s@.update(k, h).insert(k + 1, h)
            } else {
                proof {
                    lemma_first_holding(c@, p);
                    assert(decreases_to!(old => c));
                    assert(decreases_to!(old => c@[k]));
                }
                new matches Node::Split { axis: a2, children: c2, sizes: s2 } && a2 == a && s2@
                    == s@ && c2@.len() == c@.len() && (forall|j: int|
                    0 <= j < c@.len() && j != k ==> c2@[j] == c@[j]) && split_shape(
                    c@[k],
                    c2@[k],
                    p,
                    n,
                    axis,
                    even,
                    halve,
                )
            }
        },
    }
}

impl<W: Copy> Node<W> {
    /// Split `pane_id` along `axis`, placing `new_pane_id` right after it. When the pane already
    /// sits directly in a split along the same axis, the new pane joins that split and the two
    /// share the old pane's weight (`halve` of it each); otherwise the pane's leaf becomes a new
    /// two-child split whose children each weigh `even`. Returns whether the pane was found;
    /// the tree is unchanged when it was not.
    pub fn split<F: Fn(W) -> W>(
        &mut self,
        pane_id: PaneId,
        new_pane_id: PaneId,
        axis: Axis,
        even: W,
        halve: &F,
    ) -> (r: bool)
        requires
            old(self).weighted(),
            forall|w: W| halve.requires((w,)),
        ensures
            r == old(self).leaves().contains(pane_id),
            r ==> final(self).leaves() == old(self).leaves().insert(
                first_index(old(self).leaves(), pane_id) + 1,
                new_pane_id,
            ),
            !r ==> *final(self) == *old(self),
            split_shape(*old(self), *final(self), pane_id, new_pane_id, axis, even, *halve),
            final(self).weighted(),
            old(self).wf() ==> final(self).wf(),
    {
        let mut node = Node::Leaf(pane_id);
        std::mem::swap(self, &mut node);
        let (result, found) = Self::split_owned(node, pane_id, new_pane_id, axis, even, halve);
        *self = result;
        found
    }

    fn split_owned<F: Fn(W) -> W>(
        node: Node<W>,
        pane_id: PaneId,
        new_pane_id: PaneId,
        axis: Axis,
        even: W,
        halve: &F,
    ) -> (res: (Node<W>, bool))
        requires
            node.weighted(),
            forall|w: W| halve.requires((w,)),
        ensures
            res.1 == node.leaves().contains(pane_id),
            res.1 ==> res.0.leaves() == node.leaves().insert(
                first_index(node.leaves(), pane_id) + 1,
                new_pane_id,
            ),
            !res.1 ==> res.0 == node,
            split_shape(node, res.0, pane_id, new_pane_id, axis, even, *halve),
            res.0.weighted(),
            node.wf() ==> res.0.wf(),
        decreases node,
    {
        let ghost old_node = node;
        match node {
            Node::Leaf(candidate) => {
                if candidate.0 == pane_id.0 {
                    let children = vec![Node::Leaf(pane_id), Node::Leaf(new_pane_id)];
                    let sizes = vec![even, even];
                    let res = Node::Split { axis, children, sizes };
                    proof {
                        lemma_fresh_split(res, pane_id, new_pane_id);
                        assert(old_node.leaves() =~= seq![pane_id]);
                        assert(old_node.leaves()[0] == pane_id);
                    }
                    (res, true)
                } else {
                    proof {
                        assert(old_node.leaves() =~= seq![candidate]);
                    }
                    (Node::Leaf(candidate), false)
                }
            },
            Node::Split { axis: split_axis, mut children, mut sizes } => {
                let ghost c = children@;
                proof {
                    lemma_leaves_of_contains(c, pane_id);
                }
                proof {
                    lemma_first_holding(c, pane_id);
                }
                let found = Self::position_containing(&children, pane_id);
                let index = match found {
                    None => {
                        proof {
                            lemma_first_holding_none(c, pane_id);
                        }
                        return (Node::Split { axis: split_axis, children, sizes }, false);
                    },
                    Some(index) => index,
                };
                proof {
                    lemma_first_in_children(c, index as int, pane_id);
                    lemma_all_shaped_index(c, index as int, 0, true);
                    lemma_first_holding_is(c, pane_id, index as int);
                }
                let ghost s = sizes@;
                let direct = match &children[index] {
                    Node::Leaf(candidate) => candidate.0 == pane_id.0,
                    Node::Split { .. } => false,
                };
                if split_axis == axis && direct {
                    let old_size = sizes[index];
                    let half = halve(old_size);
                    sizes.set(index, half);
                    sizes.insert(index + 1, half);
                    children.insert(index + 1, Node::Leaf(new_pane_id));
                    proof {
                        assert(c[index as int] == Node::<W>::Leaf(pane_id)) by {
                            if let Node::Leaf(q) = c[index as int] {
                                assert(q == pane_id);
                            }
                        }
                        assert(sizes@ == s.update(index as int, half).insert(index + 1, half));
                        assert(call_ensures(*halve, (s[index as int],), half));
                        lemma_direct_insert(c, index as int, pane_id, new_pane_id);
                        assert(children@ == c.insert(index + 1, Node::<W>::Leaf(new_pane_id)));
                        assert(all_shaped(c, 0, true));
                        assert(all_shaped(children@, 0, true));
                        if old_node.wf() {
                            assert(all_shaped(c, 2, true));
                            assert(all_shaped(c.insert(index + 1, Node::<W>::Leaf(new_pane_id)), 2, true));
                        }
                    }
                    (Node::Split { axis: split_axis, children, sizes }, true)
                } else {
                    let child = children.remove(index);
                    proof {
                        assert(child == c[index as int]);
                        assert(decreases_to!(old_node => child));
                    }
                    let (new_child, child_found) = Self::split_owned(
                        child,
                        pane_id,
                        new_pane_id,
                        axis,
                        even,
                        halve,
                    );
                    children.insert(index, new_child);
                    proof {
                        assert(children@ =~= c.update(index as int, new_child));
                        assert(!(split_axis == axis && c[index as int] == Node::<W>::Leaf(pane_id)));
                        assert(sizes@ == s);
                        lemma_nested_update(c, index as int, new_child, pane_id, new_pane_id);
                        assert(all_shaped(c, 0, true));
                        assert(all_shaped(children@, 0, true));
                        if old_node.wf() {
                            lemma_all_shaped_index(c, index as int, 2, true);
                            assert(all_shaped(children@, 2, true));
                        }
                    }
                    (Node::Split { axis: split_axis, children, sizes }, true)
                }
            },
        }
    }
}

/// A fresh two-pane split.
proof fn lemma_fresh_split<W>(n: Node<W>, a: PaneId, b: PaneId)
    requires
        n matches Node::Split { children, sizes, .. } && children@ == seq![
            Node::<W>::Leaf(a),
            Node::<W>::Leaf(b),
        ] && sizes@.len() == 2,
    ensures
        n.leaves() == seq![a, b],
        n.wf(),
        n.weighted(),
{
    if let Node::Split { children, .. } = n {
        let c = children@;
        assert(c =~= seq![Node::Leaf(a)] + seq![Node::<W>::Leaf(b)]);
        lemma_leaves_of_concat(seq![Node::Leaf(a)], seq![Node::<W>::Leaf(b)]);
        lemma_leaves_of_one(Node::<W>::Leaf(a));
        lemma_leaves_of_one(Node::<W>::Leaf(b));
        lemma_all_shaped_concat(seq![Node::Leaf(a)], seq![Node::<W>::Leaf(b)], 2, true);
        lemma_all_shaped_concat(seq![Node::Leaf(a)], seq![Node::<W>::Leaf(b)], 0, true);
        assert(Node::<W>::Leaf(a).shaped(2, true));
        assert(Node::<W>::Leaf(b).shaped(2, true));
        assert(Node::<W>::Leaf(a).shaped(0, true));
        assert(Node::<W>::Leaf(b).shaped(0, true));
        assert(all_shaped(c, 2, true));
        assert(all_shaped(c, 0, true));
        assert(n.leaves() =~= seq![a, b]);
    }
}

/// Where the first occurrence of a pane lies when `k` is the first child holding it.
proof fn lemma_first_in_children<W>(c: Seq<Node<W>>, k: int, p: PaneId)
    requires
        0 <= k < c.len(),
        c[k].leaves().contains(p),
        forall|j: int| 0 <= j < k ==> !(#[trigger] c[j].leaves()).contains(p),
    ensures
        leaves_of(c).contains(p),
        first_index(leaves_of(c), p) == leaves_of(c.subrange(0, k)).len() + first_index(
            c[k].leaves(),
            p,
        ),
        leaves_of(c) == leaves_of(c.subrange(0, k)) + c[k].leaves() + leaves_of(
            c.subrange(k + 1, c.len() as int),
        ),
{
    let a = leaves_of(c.subrange(0, k));
    let x = c[k].leaves();
    let b = leaves_of(c.subrange(k + 1, c.len() as int));
    lemma_prefix_lacks(c, k, p);
    lemma_split_at(c, k);
    let q = choose|q: int| 0 <= q < x.len() && x[q] == p;
    assert((a + x)[a.len() + q] == p);
    assert((a + x + b)[a.len() + q] == p);
    lemma_first_index_concat(a + x, b, p);
    lemma_first_index_concat(a, x, p);
}

/// Inserting a pane right after a direct leaf child.
proof fn lemma_direct_insert<W>(c: Seq<Node<W>>, k: int, p: PaneId, n: PaneId)
    requires
        0 <= k < c.len(),
        c[k] == Node::<W>::Leaf(p),
        forall|j: int| 0 <= j < k ==> !(#[trigger] c[j].leaves()).contains(p),
    ensures
        leaves_of(c.insert(k + 1, Node::<W>::Leaf(n))) == leaves_of(c).insert(
            first_index(leaves_of(c), p) + 1,
            n,
        ),
        forall|m: nat, w: bool|
            all_shaped(c.insert(k + 1, Node::<W>::Leaf(n)), m, w) == all_shaped(c, m, w),
{
    let a = leaves_of(c.subrange(0, k));
    let b = leaves_of(c.subrange(k + 1, c.len() as int));
    assert(c[k].leaves() =~= seq![p]);
    assert(c[k].leaves()[0] == p);
    lemma_first_in_children(c, k, p);
    lemma_leaves_of_insert(c, k + 1, Node::<W>::Leaf(n));
    lemma_split_at(c.subrange(0, k + 1), k);
    assert(c.subrange(0, k + 1).subrange(0, k) =~= c.subrange(0, k));
    assert(c.subrange(0, k + 1).subrange(k + 1, k + 1) =~= Seq::<Node<W>>::empty());
    assert(leaves_of(Seq::<Node<W>>::empty()) =~= Seq::<PaneId>::empty());
    assert(leaves_of(c.subrange(0, k + 1)) =~= a + seq![p]);
    assert(first_index(seq![p], p) == 0);
    assert(leaves_of(c.insert(k + 1, Node::<W>::Leaf(n))) =~= leaves_of(c).insert(
        first_index(leaves_of(c), p) + 1,
        n,
    ));
    assert forall|m: nat, w: bool|
        all_shaped(c.insert(k + 1, Node::<W>::Leaf(n)), m, w) == all_shaped(c, m, w) by {
        assert(Node::<W>::Leaf(n).shaped(m, w));
    }
}

/// Replacing the first child holding a pane by that child with a pane inserted.
proof fn lemma_nested_update<W>(c: Seq<Node<W>>, k: int, x: Node<W>, p: PaneId, n: PaneId)
    requires
        0 <= k < c.len(),
        c[k].leaves().contains(p),
        forall|j: int| 0 <= j < k ==> !(#[trigger] c[j].leaves()).contains(p),
        x.leaves() == c[k].leaves().insert(first_index(c[k].leaves(), p) + 1, n),
    ensures
        leaves_of(c.update(k, x)) == leaves_of(c).insert(first_index(leaves_of(c), p) + 1, n),
        forall|m: nat, w: bool|
            all_shaped(c, m, w) && x.shaped(m, w) ==> all_shaped(c.update(k, x), m, w),
{
    lemma_first_in_children(c, k, p);
    lemma_leaves_of_update(c, k, x);
    lemma_first_index_found(c[k].leaves(), p);
    assert(leaves_of(c.update(k, x)) =~= leaves_of(c).insert(first_index(leaves_of(c), p) + 1, n));
    assert forall|m: nat, w: bool|
        all_shaped(c, m, w) && x.shaped(m, w) implies all_shaped(c.update(k, x), m, w) by {
        lemma_split_at(c, k);
    }
}


/// Index of the first child that is the leaf `p` itself (the length when none is).
pub open spec fn first_leaf_child<W>(children: Seq<Node<W>>, p: PaneId) -> int
    decreases children.len(),
{
    if children.len() == 0 {
        0
    } else if children[0] == Node::<W>::Leaf(p) {
        0
    } else {
        1 + first_leaf_child(children.drop_first(), p)
    }
}

proof fn lemma_first_leaf_child<W>(children: Seq<Node<W>>, p: PaneId, i: int)
    requires
        0 <= i <= children.len(),
        i < children.len() ==> children[i] == Node::<W>::Leaf(p),
        forall|j: int| 0 <= j < i ==> children[j] != Node::<W>::Leaf(p),
    ensures
        first_leaf_child(children, p) == i,
    decreases children.len(),
{
    if children.len() > 0 && i > 0 {
        assert forall|j: int| 0 <= j < i - 1 implies children.drop_first()[j] != Node::<W>::Leaf(p) by {
            assert(children.drop_first()[j] == children[j + 1]);
        }
        if i < children.len() {
            assert(children.drop_first()[i - 1] == children[i]);
        }
        lemma_first_leaf_child(children.drop_first(), p, i - 1);
    }
}

/// A split along `axis` of `children` weighing `sizes`, or the only child when one is left.
pub open spec fn collapsed<W>(axis: Axis, children: Seq<Node<W>>, sizes: Seq<W>, new: Node<W>) -> bool {
    if children.len() == 1 {
        new == children[0]
    } else {
        new matches Node::Split { axis: a2, children: c2, sizes: s2 } && a2 == axis && c2@
            == children && s2@ == sizes
    }
}

/// The tree that removing pane `p` from `old` gives. A split with a child that is the leaf
/// `p` itself loses its first such child and that child's weight, the remaining weights being
/// rescaled by `normalize`; otherwise the first child holding `p` loses it in turn. Either
/// way a split left with one child gives way to that child. A lone leaf, and a tree without
/// `p`, stay as they are.
pub open spec fn remove_shape<W, G: Fn(&Vec<W>) -> Vec<W>>(
    old: Node<W>,
    new: Node<W>,
    p: PaneId,
    normalize: G,
) -> bool
    decreases old,
{
    match old {
        Node::Leaf(_) => new == old,
        Node::Split { axis: a, children: c, sizes: s } => {
            let d = first_leaf_child(c@, p);
            let k = first_holding(c@, p);
            if d < c@.len() {
                exists|before: Vec<W>, after: Vec<W>|
                    before@ == s@.remove(d) && #[trigger] call_ensures(normalize, (&before,), after)
                        && collapsed(a, c@.remove(d), after@, new)
            } else if k >= c@.len() {
                new == old
            } else {
                proof {
                    lemma_first_holding(c@, p);
                    assert(decreases_to!(old => c));
                    assert(decreases_to!(old => c@[k]));
                }
                if c@.len() == 1 {
                    remove_shape(c@[k], new, p, normalize)
                } else {
                    new matches Node::Split { axis: a2, children: c2, sizes: s2 } && a2 == a && s2@
                        == s@ && c2@.len() == c@.len() && (forall|j: int|
                        0 <= j < c@.len() && j != k ==> c2@[j] == c@[j]) && remove_shape(
                        c@[k],
                        c2@[k],
                        p,
                        normalize,
                    )
                }
            }
        },
    }
}

impl<W> Node<W> {
    /// Remove `pane_id` from the tree. A pane that is a direct child of a split leaves that
    /// split, whose remaining weights are then rescaled by `normalize`; otherwise the first
    /// child subtree holding the pane loses it. A split left with one child is replaced by that
    /// child. A lone leaf is never removed. Returns whether a pane was removed; the tree is
    /// unchanged when none was.
    pub fn remove<G: Fn(&Vec<W>) -> Vec<W>>(&mut self, pane_id: PaneId, normalize: &G) -> (r: bool)
        requires
            old(self).weighted(),
            forall|v: &Vec<W>| normalize.requires((v,)),
            forall|v: &Vec<W>, n: Vec<W>| normalize.ensures((v,), n) ==> n.len() == v.len(),
        ensures
            r == (*old(self) is Split && old(self).leaves().contains(pane_id)),
            r ==> exists|i: int|
                0 <= i < old(self).leaves().len() && old(self).leaves()[i] == pane_id
                    && final(self).leaves() == old(self).leaves().remove(i),
            !r ==> *final(self) == *old(self),
            remove_shape(*old(self), *final(self), pane_id, *normalize),
            final(self).weighted(),
            old(self).wf() ==> final(self).wf(),
    {
        let mut node = Node::Leaf(pane_id);
        std::mem::swap(self, &mut node);
        let (result, removed) = Self::remove_owned(node, pane_id, normalize);
        *self = result;
        removed
    }

    /// Index of the first child that is the pane's own leaf.
    fn position_of_leaf(children: &Vec<Node<W>>, pane_id: PaneId) -> (r: Option<usize>)
        ensures
            match r {
                Some(i) => {
                    &&& i < children@.len()
                    &&& children@[i as int] == Node::<W>::Leaf(pane_id)
                    &&& forall|j: int| 0 <= j < i ==> children@[j] != Node::<W>::Leaf(pane_id)
                },
                None => forall|j: int|
                    0 <= j < children@.len() ==> children@[j] != Node::<W>::Leaf(pane_id),
            },
    {
        let mut i: usize = 0;
        while i < children.len()
            invariant
                i <= children@.len(),
                forall|j: int| 0 <= j < i ==> children@[j] != Node::<W>::Leaf(pane_id),
            decreases children@.len() - i,
        {
            match &children[i] {
                Node::Leaf(candidate) => {
                    if candidate.0 == pane_id.0 {
                        return Some(i);
                    }
                },
                Node::Split { .. } => {},
            }
            i = i + 1;
        }
        None
    }

    fn remove_owned<G: Fn(&Vec<W>) -> Vec<W>>(node: Node<W>, pane_id: PaneId, normalize: &G) -> (res: (
        Node<W>,
        bool,
    ))
        requires
            node.weighted(),
            forall|v: &Vec<W>| normalize.requires((v,)),
            forall|v: &Vec<W>, n: Vec<W>| normalize.ensures((v,), n) ==> n.len() == v.len(),
        ensures
            res.1 == (node is Split && node.leaves().contains(pane_id)),
            res.1 ==> exists|i: int|
                0 <= i < node.leaves().len() && node.leaves()[i] == pane_id && res.0.leaves()
                    == node.leaves().remove(i),
            !res.1 ==> res.0 == node,
            remove_shape(node, res.0, pane_id, *normalize),
            res.0.weighted(),
            node.wf() ==> res.0.wf(),
        decreases node,
    {
        let ghost old_node = node;
        match node {
            Node::Leaf(candidate) => (Node::Leaf(candidate), false),
            Node::Split { axis, mut children, mut sizes } => {
                let ghost c = children@;
                let ghost s = sizes@;
                let ghost mut witness: int = 0;
                let ghost mut shape_before: Vec<W> = sizes;
                let ghost mut shape_after: Vec<W> = sizes;
                let ghost mut shape_child: Node<W> = old_node;
                let ghost mut direct = false;
                proof {
                    lemma_first_holding(c, pane_id);
                }
                match Self::position_of_leaf(&children, pane_id) {
                    Some(index) => {
                        proof {
                            lemma_first_leaf_child(c, pane_id, index as int);
                        }
                        children.remove(index);
                        sizes.remove(index);
                        proof {
                            shape_before = sizes;
                        }
                        sizes = normalize(&sizes);
                        proof {
                            shape_after = sizes;
                            direct = true;
                            assert(shape_before@ == s.remove(index as int));
                            assert(children@ == c.remove(index as int));
                            assert(call_ensures(*normalize, (&shape_before,), shape_after));
                            assert(c[index as int].leaves() =~= seq![pane_id]);
                            lemma_removed_child(c, index as int, pane_id);
                            witness = leaves_of(c.subrange(0, index as int)).len() as int;
                            assert(sizes.len() == children.len());
                            assert(all_shaped(c, 0, true));
                            assert(all_shaped(children@, 0, true));
                            if old_node.wf() {
                                assert(all_shaped(c, 2, true));
                                assert(all_shaped(children@, 2, true));
                            }
                            assert(leaves_of(children@) == leaves_of(c).remove(witness));
                        }
                    },
                    None => {
                        proof {
                            lemma_leaves_of_contains(c, pane_id);
                            lemma_first_leaf_child(c, pane_id, c.len() as int);
                        }
                        let index = match Self::position_containing(&children, pane_id) {
                            None => {
                                proof {
                                    lemma_first_holding_none(c, pane_id);
                                }
                                return (Node::Split { axis, children, sizes }, false);
                            },
                            Some(index) => index,
                        };
                        proof {
                            lemma_first_holding_is(c, pane_id, index as int);
                        }
                        let child = children.remove(index);
                        proof {
                            assert(child == c[index as int]);
                            assert(decreases_to!(old_node => child));
                            lemma_all_shaped_index(c, index as int, 0, true);
                            assert(child is Split) by {
                                if let Node::Leaf(q) = child {
                                    assert(child.leaves() =~= seq![q]);
                                    assert(child.leaves()[0] == q);
                                    assert(q == pane_id);
                                }
                            }
                        }
                        let (new_child, child_removed) = Self::remove_owned(child, pane_id, normalize);
                        children.insert(index, new_child);
                        proof {
                            shape_child = new_child;
                            assert(sizes@ == s);
                            assert(children@ =~= c.update(index as int, new_child));
                            let ci = choose|ci: int|
                                0 <= ci < child.leaves().len() && child.leaves()[ci] == pane_id
                                    && new_child.leaves() == child.leaves().remove(ci);
                            lemma_replaced_child(c, index as int, new_child, ci, pane_id);
                            witness = leaves_of(c.subrange(0, index as int)).len() + ci;
                            if old_node.wf() {
                                lemma_all_shaped_index(c, index as int, 2, true);
                            }
                            assert(sizes.len() == children.len());
                            assert(all_shaped(children@, 0, true));
                            assert(leaves_of(children@) == leaves_of(c).remove(witness));
                        }
                    },
                }
                let ghost kids = children@;
                let res = if children.len() == 1 {
                    let only = children.remove(0);
                    proof {
                        lemma_single_child(kids);
                        assert(kids[0] == only);
                    }
                    only
                } else {
                    Node::Split { axis, children, sizes }
                };
                proof {
                    if direct {
                        assert(collapsed(axis, c.remove(first_leaf_child(c, pane_id)), shape_after@, res));
                    } else {
                        let k = first_holding(c, pane_id);
                        assert(kids == c.update(k, shape_child));
                        assert(remove_shape(c[k], shape_child, pane_id, *normalize));
                        if c.len() == 1 {
                            assert(res == shape_child);
                        }
                    }
                    assert(remove_shape(old_node, res, pane_id, *normalize));
                    assert(leaves_of(kids) == leaves_of(c).remove(witness));
                    assert(res.leaves() == leaves_of(kids));
                    assert(0 <= witness < old_node.leaves().len() && old_node.leaves()[witness]
                        == pane_id && res.leaves() == old_node.leaves().remove(witness));
                    assert(old_node.leaves().contains(pane_id));
                }
                (res, true)
            },
        }
    }
}


/// Whether two trees are equal node for node: same axes, weights and panes.
pub open spec fn same_tree<W>(a: Node<W>, b: Node<W>) -> bool
    decreases a,
{
    match (a, b) {
        (Node::Leaf(x), Node::Leaf(y)) => x == y,
        (
            Node::Split { axis: a1, children: c1, sizes: s1 },
            Node::Split { axis: a2, children: c2, sizes: s2 },
        ) => {
            &&& a1 == a2
            &&& s1@ == s2@
            &&& c1@.len() == c2@.len()
            &&& forall|i: int|
                0 <= i < c1@.len() ==> {
                    proof {
                        assert(decreases_to!(a => c1));
                    }
                    #[trigger] same_tree(c1@[i], c2@[i])
                }
        },
        _ => false,
    }
}

impl<W: Copy> Node<W> {
    /// A deep copy with the same panes, shape and weights.
    #[verifier::loop_isolation(false)]
    pub fn duplicate(&self) -> (res: Node<W>)
        ensures
            same_tree(*self, res),
            res.leaves() == self.leaves(),
            forall|m: nat, w: bool| self.shaped(m, w) ==> #[trigger] res.shaped(m, w),
        decreases self,
    {
        match self {
            Node::Leaf(pane_id) => {
                let res = Node::Leaf(*pane_id);
                proof {
                    assert(same_tree(*self, res));
                    assert forall|m: nat, w: bool| self.shaped(m, w) implies #[trigger] res.shaped(m, w) by {}
                }
                res
            },
            Node::Split { axis, children, sizes } => {
                let mut copied: Vec<Node<W>> = Vec::new();
                let mut i: usize = 0;
                while i < children.len()
                    invariant
                        i <= children@.len(),
                        copied@.len() == i,
                        forall|j: int| 0 <= j < i ==> (#[trigger] copied@[j]).leaves() == children@[j].leaves(),
                        forall|j: int| 0 <= j < i ==> same_tree(children@[j], #[trigger] copied@[j]),
                        forall|j: int, m: nat, w: bool|
                            0 <= j < i && children@[j].shaped(m, w) ==> #[trigger] copied@[j].shaped(m, w),
                    decreases children@.len() - i,
                {
                    let child = children[i].duplicate();
                    copied.push(child);
                    i = i + 1;
                }
                let mut weights: Vec<W> = Vec::new();
                let mut k: usize = 0;
                while k < sizes.len()
                    invariant
                        k <= sizes@.len(),
                        weights@ == sizes@.subrange(0, k as int),
                    decreases sizes@.len() - k,
                {
                    weights.push(sizes[k]);
                    k = k + 1;
                }
                proof {
                    assert(weights@ =~= sizes@);
                    lemma_same_leaves_of(children@, copied@);
                }
                let res = Node::Split { axis: *axis, children: copied, sizes: weights };
                proof {
                    assert forall|j: int| 0 <= j < children@.len() implies #[trigger] same_tree(children@[j], copied@[j]) by {}
                    assert(same_tree(*self, res));
                    assert forall|m: nat, w: bool| self.shaped(m, w) implies #[trigger] res.shaped(m, w) by {
                        assert(all_shaped(children@, m, w));
                        assert(all_shaped(copied@, m, w));
                    }
                }
                res
            },
        }
    }
}

impl<W: Copy> Clone for Node<W> {
    fn clone(&self) -> (res: Self)
        ensures
            same_tree(*self, res),
            res.leaves() == self.leaves(),
            forall|m: nat, w: bool| self.shaped(m, w) ==> #[trigger] res.shaped(m, w),
    {
        self.duplicate()
    }
}


// ---------------------------------------------------------------------------------------------
// Pane rectangles
// ---------------------------------------------------------------------------------------------

/// Extent of a rectangle along an axis.
pub open spec fn extent_along(rect: PhysicalRect, axis: Axis) -> u32 {
    match axis {
        Axis::Horizontal => rect.width,
        Axis::Vertical => rect.height,
    }
}

/// Extent of a pane along an axis: its width for a horizontal split, its height otherwise.
pub fn pane_extent(rect: PhysicalRect, axis: Axis) -> (r: u32)
    ensures
        r == extent_along(rect, axis),
{
    match axis {
        Axis::Horizontal => rect.width,
        Axis::Vertical => rect.height,
    }
}

/// The area of a child that starts `cursor` pixels into `area` along `axis` and spans `extent`.
pub open spec fn child_area(area: PhysicalRect, axis: Axis, cursor: u32, extent: u32) -> PhysicalRect {
    match axis {
        Axis::Horizontal => PhysicalRect {
            x: clamp_i32(area.x + as_signed(cursor)) as i32,
            y: area.y,
            width: extent,
            height: area.height,
        },
        Axis::Vertical => PhysicalRect {
            x: area.x,
            y: clamp_i32(area.y + as_signed(cursor)) as i32,
            width: area.width,
            height: extent,
        },
    }
}

pub open spec fn sat_add(a: u32, b: u32) -> u32 {
    if a + b > u32::MAX {
        u32::MAX
    } else {
        (a + b) as u32
    }
}

pub open spec fn sat_sub(a: u32, b: u32) -> u32 {
    if a >= b {
        (a - b) as u32
    } else {
        0
    }
}

pub open spec fn sat_mul(a: u32, b: u32) -> u32 {
    if a * b > u32::MAX {
        u32::MAX
    } else {
        (a * b) as u32
    }
}

/// The pixel share that `share` hands a child: `share` must give one answer per argument.
pub open spec fn share_value<W, S: Fn(u32, &Vec<W>, usize) -> u32>(
    share: S,
    available: u32,
    sizes: Vec<W>,
    index: int,
) -> u32 {
    choose|r: u32| #[trigger] share.ensures((available, &sizes, index as usize), r)
}

/// Whether `share` answers every call, the same way each time.
pub open spec fn share_is_function<W, S: Fn(u32, &Vec<W>, usize) -> u32>(share: S) -> bool {
    &&& forall|a: u32, v: &Vec<W>, i: usize| #[trigger] share.requires((a, v, i))
    &&& forall|a: u32, v: &Vec<W>, i: usize, r1: u32, r2: u32|
        #[trigger] share.ensures((a, v, i), r1) && #[trigger] share.ensures((a, v, i), r2) ==> r1 == r2
}

/// Pixels of a split's extent left to its children once the handles between them are taken.
pub open spec fn available_extent(area: PhysicalRect, axis: Axis, handle: u32, count: int) -> u32 {
    let gaps: u32 = if count >= 1 {
        (count - 1) as usize as u32
    } else {
        0
    };
    sat_sub(extent_along(area, axis), sat_mul(handle, gaps))
}

/// Rectangle of every pane of `node` laid out in `area`, in left-to-right pane order. Each split
/// leaves `handle` pixels between adjacent children; every child but the last receives its
/// `share` of the remaining extent (capped at what remains) and the last child receives the rest.
pub open spec fn node_rects<W, S: Fn(u32, &Vec<W>, usize) -> u32>(
    node: Node<W>,
    area: PhysicalRect,
    handle: u32,
    share: S,
) -> Seq<(PaneId, PhysicalRect)>
    decreases node, 0int,
{
    match node {
        Node::Leaf(p) => seq![(p, area)],
        Node::Split { axis, children, sizes } => {
            proof {
                assert(decreases_to!(node => children));
            }
            let available = available_extent(area, axis, handle, children@.len() as int);
            children_rects(children@, sizes, axis, area, handle, share, available, 0, 0, available)
        },
    }
}

/// Rectangles of the children of a split from child `index` on, with `cursor` pixels of the
/// split's extent already used and `remaining` pixels of the available extent left.
pub open spec fn children_rects<W, S: Fn(u32, &Vec<W>, usize) -> u32>(
    children: Seq<Node<W>>,
    sizes: Vec<W>,
    axis: Axis,
    area: PhysicalRect,
    handle: u32,
    share: S,
    available: u32,
    index: int,
    cursor: u32,
    remaining: u32,
) -> Seq<(PaneId, PhysicalRect)>
    decreases children, children.len() - index,
{
    if index < 0 || index >= children.len() {
        Seq::empty()
    } else {
        let last = index + 1 == children.len();
        let weighted = share_value(share, available, sizes, index);
        let extent = if last {
            remaining
        } else if weighted < remaining {
            weighted
        } else {
            remaining
        };
        let moved = sat_add(cursor, extent);
        let next_cursor = if last {
            moved
        } else {
            sat_add(moved, handle)
        };
        node_rects(children[index], child_area(area, axis, cursor, extent), handle, share)
            + children_rects(
            children,
            sizes,
            axis,
            area,
            handle,
            share,
            available,
            index + 1,
            next_cursor,
            sat_sub(remaining, extent),
        )
    }
}

/// Rectangles of the panes of a tab, keyed by pane.
#[derive(Debug)]
pub struct PaneRects {
    pub entries: Vec<(PaneId, PhysicalRect)>,
}

/// Position of the last entry for `pane` (`-1` when there is none).
pub open spec fn last_entry(entries: Seq<(PaneId, PhysicalRect)>, pane: PaneId) -> int
    decreases entries.len(),
{
    if entries.len() == 0 {
        -1
    } else if entries.last().0 == pane {
        entries.len() - 1
    } else {
        last_entry(entries.drop_last(), pane)
    }
}

impl PaneRects {
    /// The rectangle recorded for `pane` (the latest one, should a pane occur twice).
    pub open spec fn lookup(self, pane: PaneId) -> Option<PhysicalRect> {
        let i = last_entry(self.entries@, pane);
        if i < 0 {
            None
        } else {
            Some(self.entries@[i].1)
        }
    }

    pub fn get(&self, pane: PaneId) -> (r: Option<PhysicalRect>)
        ensures
            r == self.lookup(pane),
    {
        let mut i = self.entries.len();
        proof {
            assert(self.entries@.subrange(0, i as int) =~= self.entries@);
        }
        while i > 0
            invariant
                i <= self.entries@.len(),
                last_entry(self.entries@, pane) == last_entry(self.entries@.subrange(0, i as int), pane),
            decreases i,
        {
            proof {
                assert(self.entries@.subrange(0, i as int).drop_last() =~= self.entries@.subrange(0, i - 1));
            }
            if self.entries[i - 1].0.0 == pane.0 {
                return Some(self.entries[i - 1].1);
            }
            i = i - 1;
        }
        proof {
            assert(self.entries@.subrange(0, 0) =~= Seq::<(PaneId, PhysicalRect)>::empty());
        }
        None
    }

    /// Number of recorded rectangles (one per pane of the laid-out tree).
    pub fn len(&self) -> (r: usize)
        ensures
            r == self.entries@.len(),
    {
        self.entries.len()
    }
}

/// Lay out the panes of `node` in `area`. `handle` is the width in pixels of the gap between
/// adjacent children of a split; `share(available, sizes, index)` is the number of pixels out of
/// `available` that child `index` of a split with weights `sizes` receives.
pub fn compute_rects<W, S: Fn(u32, &Vec<W>, usize) -> u32>(
    node: &Node<W>,
    area: PhysicalRect,
    handle: u32,
    share: &S,
) -> (r: PaneRects)
    requires
        node.weighted(),
        share_is_function(*share),
    ensures
        r.entries@ == node_rects(*node, area, handle, *share),
{
    let mut entries: Vec<(PaneId, PhysicalRect)> = Vec::new();
    compute_node_rects(node, area, handle, share, &mut entries);
    proof {
        assert(entries@ =~= node_rects(*node, area, handle, *share));
    }
    PaneRects { entries }
}

fn compute_node_rects<W, S: Fn(u32, &Vec<W>, usize) -> u32>(
    node: &Node<W>,
    area: PhysicalRect,
    handle: u32,
    share: &S,
    rects: &mut Vec<(PaneId, PhysicalRect)>,
)
    requires
        node.weighted(),
        share_is_function(*share),
    ensures
        final(rects)@ == old(rects)@ + node_rects(*node, area, handle, *share),
    decreases node, 0int,
{
    match node {
        Node::Leaf(pane_id) => {
            rects.push((*pane_id, area));
        },
        Node::Split { axis, children, sizes } => {
            let count = children.len();
            let gaps = count.saturating_sub(1) as u32;
            let handle_total = saturating_mul_u32(handle, gaps);
            let extent = pane_extent(area, *axis);
            let available = extent.saturating_sub(handle_total);
            let mut cursor: u32 = 0;
            let mut remaining = available;
            let mut index: usize = 0;
            let ghost start = rects@;
            proof {
                assert(available == available_extent(area, *axis, handle, children@.len() as int));
            }
            while index < count
                invariant
                    count == children@.len(),
                    sizes@.len() == count,
                    index <= count,
                    all_shaped(children@, 0, true),
                    share_is_function(*share),
                    start + node_rects(*node, area, handle, *share) == rects@ + children_rects(
                        children@,
                        *sizes,
                        *axis,
                        area,
                        handle,
                        *share,
                        available,
                        index as int,
                        cursor,
                        remaining,
                    ),
                    *node == (Node::Split { axis: *axis, children: *children, sizes: *sizes }),
                decreases count - index,
            {
                let last = index + 1 == count;
                let child_extent = if last {
                    remaining
                } else {
                    let weighted = share(available, sizes, index);
                    proof {
                        assert(weighted == share_value(*share, available, *sizes, index as int));
                    }
                    if weighted < remaining {
                        weighted
                    } else {
                        remaining
                    }
                };
                let placed = match axis {
                    Axis::Horizontal => PhysicalRect {
                        x: offset_coordinate(area.x, cursor),
                        y: area.y,
                        width: child_extent,
                        height: area.height,
                    },
                    Axis::Vertical => PhysicalRect {
                        x: area.x,
                        y: offset_coordinate(area.y, cursor),
                        width: area.width,
                        height: child_extent,
                    },
                };
                proof {
                    lemma_all_shaped_index(children@, index as int, 0, true);
                    assert(decreases_to!(*node => children@[index as int]));
                    assert(placed == child_area(area, *axis, cursor, child_extent));
                }
                let ghost before = rects@;
                compute_node_rects(&children[index], placed, handle, share, rects);
                proof {
                    assert(rects@ + children_rects(
                        children@,
                        *sizes,
                        *axis,
                        area,
                        handle,
                        *share,
                        available,
                        index + 1,
                        if last { sat_add(cursor, child_extent) } else { sat_add(sat_add(cursor, child_extent), handle) },
                        sat_sub(remaining, child_extent),
                    ) =~= before + children_rects(
                        children@,
                        *sizes,
                        *axis,
                        area,
                        handle,
                        *share,
                        available,
                        index as int,
                        cursor,
                        remaining,
                    ));
                }
                remaining = remaining.saturating_sub(child_extent);
                cursor = cursor.saturating_add(child_extent);
                if !last {
                    cursor = cursor.saturating_add(handle);
                }
                index = index + 1;
            }
            proof {
                assert(rects@ =~= start + node_rects(*node, area, handle, *share));
            }
        },
    }
}


// ---------------------------------------------------------------------------------------------
// The splits above a pane
// ---------------------------------------------------------------------------------------------

/// Index of the first subtree holding the pane (the length when none does).
pub open spec fn first_holding<W>(children: Seq<Node<W>>, p: PaneId) -> int
    decreases children.len(),
{
    if children.len() == 0 {
        0
    } else if children[0].leaves().contains(p) {
        0
    } else {
        1 + first_holding(children.drop_first(), p)
    }
}

pub proof fn lemma_first_holding<W>(children: Seq<Node<W>>, p: PaneId)
    ensures
        0 <= first_holding(children, p) <= children.len(),
        first_holding(children, p) < children.len() ==> children[first_holding(children, p)].leaves().contains(p),
        forall|j: int| 0 <= j < first_holding(children, p) ==> !(#[trigger] children[j]).leaves().contains(p),
    decreases children.len(),
{
    if children.len() > 0 && !children[0].leaves().contains(p) {
        lemma_first_holding(children.drop_first(), p);
        assert forall|j: int| 0 <= j < first_holding(children, p) implies !(#[trigger] children[j]).leaves().contains(p) by {
            if j > 0 {
                assert(children[j] == children.drop_first()[j - 1]);
            }
        }
    }
}

/// The splits along `axis` on the way from the root to the first occurrence of `p`, outermost
/// first: each as the path of child indices that leads to it and the index of its child that
/// holds the pane.
pub open spec fn split_targets<W>(node: Node<W>, p: PaneId, axis: Axis) -> Seq<(Seq<usize>, usize)>
    decreases node,
{
    match node {
        Node::Leaf(_) => Seq::empty(),
        Node::Split { axis: split_axis, children, .. } => {
            let k = first_holding(children@, p);
            if k >= children@.len() {
                Seq::empty()
            } else {
                proof {
                    lemma_first_holding(children@, p);
                    assert(decreases_to!(node => children));
                    assert(decreases_to!(node => children@[k]));
                }
                let here = if split_axis == axis {
                    seq![(Seq::<usize>::empty(), k as usize)]
                } else {
                    Seq::empty()
                };
                here + split_targets(children@[k], p, axis).map_values(
                    |t: (Seq<usize>, usize)| (seq![k as usize] + t.0, t.1),
                )
            }
        },
    }
}

/// Targets as plain sequences.
pub open spec fn targets_view(t: Seq<(Vec<usize>, usize)>) -> Seq<(Seq<usize>, usize)> {
    t.map_values(|e: (Vec<usize>, usize)| (e.0@, e.1))
}

/// The splits along `axis` above the pane (see [`split_targets`]). Adjusting a pane's extent
/// along an axis starts from the innermost of them.
pub fn collect_split_targets<W>(node: &Node<W>, pane_id: PaneId, axis: Axis) -> (r: Vec<(Vec<usize>, usize)>)
    ensures
        targets_view(r@) == split_targets(*node, pane_id, axis),
    decreases node,
{
    match node {
        Node::Leaf(_) => {
            let r: Vec<(Vec<usize>, usize)> = Vec::new();
            proof {
                assert(targets_view(r@) =~= Seq::<(Seq<usize>, usize)>::empty());
            }
            r
        },
        Node::Split { axis: split_axis, children, .. } => {
            proof {
                lemma_first_holding(children@, pane_id);
            }
            let found = Node::position_containing(children, pane_id);
            let k = match found {
                None => {
                    let r: Vec<(Vec<usize>, usize)> = Vec::new();
                    proof {
                        lemma_first_holding_none(children@, pane_id);
                        assert(targets_view(r@) =~= Seq::<(Seq<usize>, usize)>::empty());
                    }
                    return r;
                },
                Some(k) => k,
            };
            proof {
                lemma_first_holding_is(children@, pane_id, k as int);
                assert(decreases_to!(*node => children@[k as int]));
            }
            let inner = collect_split_targets(&children[k], pane_id, axis);
            let mut targets: Vec<(Vec<usize>, usize)> = Vec::new();
            if *split_axis == axis {
                targets.push((Vec::new(), k));
            }
            let ghost start = targets@.len();
            let mut i: usize = 0;
            while i < inner.len()
                invariant
                    i <= inner@.len(),
                    start <= 1,
                    targets@.len() == start + i,
                    targets_view(targets@).subrange(0, start as int) == (if *split_axis == axis {
                        seq![(Seq::<usize>::empty(), k)]
                    } else {
                        Seq::empty()
                    }),
                    forall|j: int|
                        0 <= j < i ==> (#[trigger] targets@[start + j]).0@ == seq![k] + inner@[j].0@
                            && targets@[start + j].1 == inner@[j].1,
                    start == if *split_axis == axis { 1int } else { 0int },
                decreases inner@.len() - i,
            {
                let mut path: Vec<usize> = Vec::new();
                path.push(k);
                let mut m: usize = 0;
                while m < inner[i].0.len()
                    invariant
                        i < inner@.len(),
                        m <= inner@[i as int].0@.len(),
                        path@ == seq![k] + inner@[i as int].0@.subrange(0, m as int),
                    decreases inner@[i as int].0@.len() - m,
                {
                    path.push(inner[i].0[m]);
                    proof {
                        assert(seq![k] + inner@[i as int].0@.subrange(0, m + 1) =~= (seq![k]
                            + inner@[i as int].0@.subrange(0, m as int)).push(inner@[i as int].0@[m as int]));
                    }
                    m = m + 1;
                }
                proof {
                    assert(inner@[i as int].0@.subrange(0, m as int) =~= inner@[i as int].0@);
                }
                targets.push((path, inner[i].1));
                proof {
                    assert(targets_view(targets@).subrange(0, start as int) =~= targets_view(
                        targets@.drop_last(),
                    ).subrange(0, start as int));
                }
                i = i + 1;
            }
            proof {
                let expected = split_targets(*node, pane_id, axis);
                let below = split_targets(children@[k as int], pane_id, axis);
                assert(targets_view(inner@) == below);
                assert forall|j: int| 0 <= j < inner@.len() implies #[trigger] targets_view(targets@)[start + j] == (seq![k] + below[j].0, below[j].1) by {
                    assert(targets_view(inner@)[j] == (inner@[j].0@, inner@[j].1));
                }
                assert(first_holding(children@, pane_id) == k);
                let here = if *split_axis == axis {
                    seq![(Seq::<usize>::empty(), k)]
                } else {
                    Seq::<(Seq<usize>, usize)>::empty()
                };
                let moved = below.map_values(|t: (Seq<usize>, usize)| (seq![k] + t.0, t.1));
                assert(expected == here + moved);
                assert(targets_view(targets@).len() == here.len() + moved.len());
                assert forall|j: int| 0 <= j < targets_view(targets@).len() implies #[trigger] targets_view(targets@)[j] == (here + moved)[j] by {
                    if j < start {
                        assert(targets_view(targets@)[j] == targets_view(targets@).subrange(0, start as int)[j]);
                    } else {
                        assert(targets_view(targets@)[start + (j - start)] == (seq![k] + below[j - start].0, below[j - start].1));
                    }
                }
                assert(targets_view(targets@) =~= expected);
            }
            targets
        },
    }
}

/// The one-based child positions that lead from the root to the first occurrence of `p`
/// (empty for a leaf root holding it), or `None` when the tree does not hold `p`.
pub open spec fn path_to<W>(node: Node<W>, p: PaneId) -> Option<Seq<usize>>
    decreases node,
{
    match node {
        Node::Leaf(q) => if q == p {
            Some(Seq::empty())
        } else {
            None
        },
        Node::Split { children, .. } => {
            let k = first_holding(children@, p);
            if k >= children@.len() {
                None
            } else {
                proof {
                    lemma_first_holding(children@, p);
                    assert(decreases_to!(node => children));
                    assert(decreases_to!(node => children@[k]));
                }
                match path_to(children@[k], p) {
                    Some(rest) => Some(seq![(k + 1) as usize] + rest),
                    None => None,
                }
            }
        },
    }
}

/// An optional path as a plain sequence.
pub open spec fn path_view(r: Option<Vec<usize>>) -> Option<Seq<usize>> {
    match r {
        Some(v) => Some(v@),
        None => None,
    }
}

impl<W> Node<W> {
    /// The one-based positions of the children that lead from the root to the pane: its split
    /// path. `None` when the tree does not hold the pane.
    pub fn pane_path(&self, pane_id: PaneId) -> (r: Option<Vec<usize>>)
        ensures
            path_view(r) == path_to(*self, pane_id),
        decreases self,
    {
        match self {
            Node::Leaf(q) => {
                if q.0 == pane_id.0 {
                    let path: Vec<usize> = Vec::new();
                    proof {
                        assert(path@ =~= Seq::<usize>::empty());
                    }
                    Some(path)
                } else {
                    None
                }
            },
            Node::Split { children, .. } => {
                proof {
                    lemma_first_holding(children@, pane_id);
                }
                let k = match Node::position_containing(children, pane_id) {
                    None => {
                        proof {
                            lemma_first_holding_none(children@, pane_id);
                        }
                        return None;
                    },
                    Some(k) => k,
                };
                proof {
                    lemma_first_holding_is(children@, pane_id, k as int);
                    assert(decreases_to!(*self => children@[k as int]));
                }
                let rest = match children[k].pane_path(pane_id) {
                    None => return None,
                    Some(rest) => rest,
                };
                let count = children.len();
                assert(k < count);
                let step = k + 1;
                let mut path: Vec<usize> = Vec::new();
                path.push(step);
                let mut i: usize = 0;
                while i < rest.len()
                    invariant
                        i <= rest@.len(),
                        path@ == seq![step] + rest@.subrange(0, i as int),
                    decreases rest@.len() - i,
                {
                    path.push(rest[i]);
                    proof {
                        assert(seq![step] + rest@.subrange(0, i + 1) =~= (seq![step]
                            + rest@.subrange(0, i as int)).push(rest@[i as int]));
                    }
                    i = i + 1;
                }
                proof {
                    assert(rest@.subrange(0, i as int) =~= rest@);
                }
                Some(path)
            },
        }
    }
}

proof fn lemma_first_holding_none<W>(children: Seq<Node<W>>, p: PaneId)
    requires
        forall|j: int| 0 <= j < children.len() ==> !(#[trigger] children[j]).leaves().contains(p),
    ensures
        first_holding(children, p) == children.len(),
    decreases children.len(),
{
    if children.len() > 0 {
        assert forall|j: int| 0 <= j < children.drop_first().len() implies !(#[trigger] children.drop_first()[j]).leaves().contains(p) by {
            assert(children.drop_first()[j] == children[j + 1]);
        }
        lemma_first_holding_none(children.drop_first(), p);
    }
}

proof fn lemma_first_holding_is<W>(children: Seq<Node<W>>, p: PaneId, k: int)
    requires
        0 <= k < children.len(),
        children[k].leaves().contains(p),
        forall|j: int| 0 <= j < k ==> !(#[trigger] children[j]).leaves().contains(p),
    ensures
        first_holding(children, p) == k,
    decreases children.len(),
{
    if k > 0 {
        assert forall|j: int| 0 <= j < k - 1 implies !(#[trigger] children.drop_first()[j]).leaves().contains(p) by {
            assert(children.drop_first()[j] == children[j + 1]);
        }
        assert(children.drop_first()[k - 1] == children[k]);
        assert(!children[0].leaves().contains(p));
        lemma_first_holding_is(children.drop_first(), p, k - 1);
    }
}

// ---------------------------------------------------------------------------------------------
// Lemmas on the left-to-right pane sequence
// ---------------------------------------------------------------------------------------------

/// The panes of concatenated subtree sequences are the concatenated panes.
pub proof fn lemma_leaves_of_concat<W>(a: Seq<Node<W>>, b: Seq<Node<W>>)
    ensures
        leaves_of(a + b) == leaves_of(a) + leaves_of(b),
    decreases a.len(),
{
    if a.len() == 0 {
        assert(a + b =~= b);
    } else {
        assert((a + b).drop_first() =~= a.drop_first() + b);
        lemma_leaves_of_concat(a.drop_first(), b);
        assert(leaves_of(a + b) =~= leaves_of(a) + leaves_of(b));
    }
}

/// Shape of concatenated subtree sequences.
pub proof fn lemma_all_shaped_concat<W>(a: Seq<Node<W>>, b: Seq<Node<W>>, m: nat, w: bool)
    ensures
        all_shaped(a + b, m, w) == (all_shaped(a, m, w) && all_shaped(b, m, w)),
    decreases a.len(),
{
    if a.len() == 0 {
        assert(a + b =~= b);
    } else {
        assert((a + b).drop_first() =~= a.drop_first() + b);
        lemma_all_shaped_concat(a.drop_first(), b, m, w);
    }
}

pub proof fn lemma_leaves_of_one<W>(n: Node<W>)
    ensures
        leaves_of(seq![n]) == n.leaves(),
        forall|m: nat, w: bool| all_shaped(seq![n], m, w) == n.shaped(m, w),
{
    assert(seq![n].drop_first() =~= Seq::<Node<W>>::empty());
    assert(leaves_of(Seq::<Node<W>>::empty()) =~= Seq::<PaneId>::empty());
    assert forall|m: nat, w: bool| all_shaped(seq![n], m, w) == n.shaped(m, w) by {
        assert(all_shaped(Seq::<Node<W>>::empty(), m, w));
    }
    assert(n.leaves() + Seq::<PaneId>::empty() =~= n.leaves());
}

/// A subtree sequence split around position `i`.
pub proof fn lemma_split_at<W>(s: Seq<Node<W>>, i: int)
    requires
        0 <= i < s.len(),
    ensures
        leaves_of(s) == leaves_of(s.subrange(0, i)) + s[i].leaves() + leaves_of(
            s.subrange(i + 1, s.len() as int),
        ),
        forall|m: nat, w: bool|
            all_shaped(s, m, w) == (all_shaped(s.subrange(0, i), m, w) && s[i].shaped(m, w)
                && all_shaped(s.subrange(i + 1, s.len() as int), m, w)),
{
    let pre = s.subrange(0, i);
    let post = s.subrange(i + 1, s.len() as int);
    assert(s =~= pre + seq![s[i]] + post);
    lemma_leaves_of_concat(pre + seq![s[i]], post);
    lemma_leaves_of_concat(pre, seq![s[i]]);
    lemma_leaves_of_one(s[i]);
    assert forall|m: nat, w: bool|
        all_shaped(s, m, w) == (all_shaped(pre, m, w) && s[i].shaped(m, w) && all_shaped(
            post,
            m,
            w,
        )) by {
        lemma_all_shaped_concat(pre + seq![s[i]], post, m, w);
        lemma_all_shaped_concat(pre, seq![s[i]], m, w);
    }
}

/// Every subtree of a shaped sequence is shaped.
pub proof fn lemma_all_shaped_index<W>(s: Seq<Node<W>>, i: int, m: nat, w: bool)
    requires
        0 <= i < s.len(),
        all_shaped(s, m, w),
    ensures
        s[i].shaped(m, w),
{
    lemma_split_at(s, i);
}

/// A pane belongs to a subtree sequence exactly when it belongs to one of its subtrees.
pub proof fn lemma_leaves_of_contains<W>(s: Seq<Node<W>>, p: PaneId)
    ensures
        leaves_of(s).contains(p) <==> exists|i: int| 0 <= i < s.len() && #[trigger] s[i].leaves().contains(p),
    decreases s.len(),
{
    if s.len() > 0 {
        lemma_leaves_of_contains(s.drop_first(), p);
        if leaves_of(s).contains(p) {
            let k = choose|k: int| 0 <= k < leaves_of(s).len() && leaves_of(s)[k] == p;
            if k < s[0].leaves().len() {
                assert(s[0].leaves()[k] == p);
                assert(s[0].leaves().contains(p));
            } else {
                assert(leaves_of(s.drop_first())[k - s[0].leaves().len()] == p);
                let j = choose|j: int| 0 <= j < s.drop_first().len() && #[trigger] s.drop_first()[j].leaves().contains(p);
                assert(s[j + 1] == s.drop_first()[j]);
            }
        }
        if exists|i: int| 0 <= i < s.len() && #[trigger] s[i].leaves().contains(p) {
            let i = choose|i: int| 0 <= i < s.len() && #[trigger] s[i].leaves().contains(p);
            let k = choose|k: int| 0 <= k < s[i].leaves().len() && s[i].leaves()[k] == p;
            if i == 0 {
                assert(leaves_of(s)[k] == p);
            } else {
                assert(s.drop_first()[i - 1] == s[i]);
                assert(leaves_of(s.drop_first()).contains(p));
                let m = choose|m: int| 0 <= m < leaves_of(s.drop_first()).len() && leaves_of(s.drop_first())[m] == p;
                assert(leaves_of(s)[s[0].leaves().len() + m] == p);
            }
        }
    }
}

/// First occurrence in a concatenation.
pub proof fn lemma_first_index_concat(a: Seq<PaneId>, b: Seq<PaneId>, p: PaneId)
    ensures
        first_index(a + b, p) == if a.contains(p) {
            first_index(a, p)
        } else {
            a.len() + first_index(b, p)
        },
    decreases a.len(),
{
    if a.len() == 0 {
        assert(a + b =~= b);
    } else {
        assert((a + b).drop_first() =~= a.drop_first() + b);
        lemma_first_index_concat(a.drop_first(), b, p);
        if a[0] != p {
            assert(a.contains(p) == a.drop_first().contains(p)) by {
                if a.contains(p) {
                    let k = choose|k: int| 0 <= k < a.len() && a[k] == p;
                    assert(a.drop_first()[k - 1] == p);
                }
                if a.drop_first().contains(p) {
                    let k = choose|k: int| 0 <= k < a.drop_first().len() && a.drop_first()[k] == p;
                    assert(a[k + 1] == p);
                }
            }
        }
    }
}

/// The first occurrence of a present pane is a valid index holding it.
pub proof fn lemma_first_index_found(s: Seq<PaneId>, p: PaneId)
    requires
        s.contains(p),
    ensures
        0 <= first_index(s, p) < s.len(),
        s[first_index(s, p)] == p,
        !s.subrange(0, first_index(s, p)).contains(p),
    decreases s.len(),
{
    if s[0] != p {
        let k = choose|k: int| 0 <= k < s.len() && s[k] == p;
        assert(s.drop_first()[k - 1] == p);
        lemma_first_index_found(s.drop_first(), p);
        let f = first_index(s.drop_first(), p);
        assert forall|j: int| 0 <= j < f + 1 implies #[trigger] s.subrange(0, f + 1)[j] != p by {
            if j > 0 {
                assert(s.subrange(0, f + 1)[j] == s.drop_first().subrange(0, f)[j - 1]);
            }
        }
    }
}


/// Panes after inserting a subtree into a sequence.
pub proof fn lemma_leaves_of_insert<W>(s: Seq<Node<W>>, k: int, x: Node<W>)
    requires
        0 <= k <= s.len(),
    ensures
        leaves_of(s.insert(k, x)) == leaves_of(s.subrange(0, k)) + x.leaves() + leaves_of(
            s.subrange(k, s.len() as int),
        ),
        forall|m: nat, w: bool|
            all_shaped(s.insert(k, x), m, w) == (all_shaped(s, m, w) && x.shaped(m, w)),
{
    let pre = s.subrange(0, k);
    let post = s.subrange(k, s.len() as int);
    assert(s.insert(k, x) =~= pre + seq![x] + post);
    assert(s =~= pre + post);
    lemma_leaves_of_concat(pre + seq![x], post);
    lemma_leaves_of_concat(pre, seq![x]);
    lemma_leaves_of_one(x);
    assert forall|m: nat, w: bool|
        all_shaped(s.insert(k, x), m, w) == (all_shaped(s, m, w) && x.shaped(m, w)) by {
        lemma_all_shaped_concat(pre + seq![x], post, m, w);
        lemma_all_shaped_concat(pre, seq![x], m, w);
        lemma_all_shaped_concat(pre, post, m, w);
    }
}

/// Panes after replacing a subtree of a sequence.
pub proof fn lemma_leaves_of_update<W>(s: Seq<Node<W>>, k: int, x: Node<W>)
    requires
        0 <= k < s.len(),
    ensures
        leaves_of(s.update(k, x)) == leaves_of(s.subrange(0, k)) + x.leaves() + leaves_of(
            s.subrange(k + 1, s.len() as int),
        ),
        forall|m: nat, w: bool|
            all_shaped(s.update(k, x), m, w) == (all_shaped(s.subrange(0, k), m, w) && x.shaped(m, w)
                && all_shaped(s.subrange(k + 1, s.len() as int), m, w)),
{
    let t = s.update(k, x);
    lemma_split_at(t, k);
    assert(t.subrange(0, k) =~= s.subrange(0, k));
    assert(t.subrange(k + 1, t.len() as int) =~= s.subrange(k + 1, s.len() as int));
}

/// No child before `k` holds the pane, so neither do their panes.
pub proof fn lemma_prefix_lacks<W>(s: Seq<Node<W>>, k: int, p: PaneId)
    requires
        0 <= k <= s.len(),
        forall|j: int| 0 <= j < k ==> !(#[trigger] s[j].leaves()).contains(p),
    ensures
        !leaves_of(s.subrange(0, k)).contains(p),
{
    lemma_leaves_of_contains(s.subrange(0, k), p);
    assert forall|j: int| 0 <= j < k implies !(#[trigger] s.subrange(0, k)[j].leaves()).contains(p) by {
        assert(s.subrange(0, k)[j] == s[j]);
    }
}


/// A sequence with its `k`-th subtree dropped.
pub proof fn lemma_leaves_of_remove<W>(s: Seq<Node<W>>, k: int)
    requires
        0 <= k < s.len(),
    ensures
        leaves_of(s.remove(k)) == leaves_of(s.subrange(0, k)) + leaves_of(
            s.subrange(k + 1, s.len() as int),
        ),
        forall|m: nat, w: bool| all_shaped(s, m, w) ==> all_shaped(s.remove(k), m, w),
{
    let pre = s.subrange(0, k);
    let post = s.subrange(k + 1, s.len() as int);
    assert(s.remove(k) =~= pre + post);
    lemma_leaves_of_concat(pre, post);
    assert forall|m: nat, w: bool| all_shaped(s, m, w) implies all_shaped(s.remove(k), m, w) by {
        lemma_split_at(s, k);
        lemma_all_shaped_concat(pre, post, m, w);
    }
}

/// Dropping the direct leaf child `k` of a pane drops one occurrence of the pane.
proof fn lemma_removed_child<W>(c: Seq<Node<W>>, k: int, p: PaneId)
    requires
        0 <= k < c.len(),
        c[k].leaves() == seq![p],
    ensures
        leaves_of(c.remove(k)) == leaves_of(c).remove(leaves_of(c.subrange(0, k)).len() as int),
        leaves_of(c)[leaves_of(c.subrange(0, k)).len() as int] == p,
        leaves_of(c.subrange(0, k)).len() < leaves_of(c).len(),
        forall|m: nat, w: bool| all_shaped(c, m, w) ==> all_shaped(c.remove(k), m, w),
{
    lemma_split_at(c, k);
    lemma_leaves_of_remove(c, k);
    let a = leaves_of(c.subrange(0, k));
    let b = leaves_of(c.subrange(k + 1, c.len() as int));
    assert((a + seq![p] + b).remove(a.len() as int) =~= a + b);
    assert((a + seq![p] + b)[a.len() as int] == p);
}

/// Replacing child `k` by a copy that lost one occurrence of the pane.
proof fn lemma_replaced_child<W>(c: Seq<Node<W>>, k: int, x: Node<W>, ci: int, p: PaneId)
    requires
        0 <= k < c.len(),
        0 <= ci < c[k].leaves().len(),
        c[k].leaves()[ci] == p,
        x.leaves() == c[k].leaves().remove(ci),
    ensures
        leaves_of(c.update(k, x)) == leaves_of(c).remove(leaves_of(c.subrange(0, k)).len() + ci),
        leaves_of(c)[leaves_of(c.subrange(0, k)).len() + ci] == p,
        leaves_of(c.subrange(0, k)).len() + ci < leaves_of(c).len(),
        forall|m: nat, w: bool|
            all_shaped(c, m, w) && x.shaped(m, w) ==> all_shaped(c.update(k, x), m, w),
{
    lemma_split_at(c, k);
    lemma_leaves_of_update(c, k, x);
    let a = leaves_of(c.subrange(0, k));
    let b = leaves_of(c.subrange(k + 1, c.len() as int));
    let y = c[k].leaves();
    assert((a + y + b).remove(a.len() + ci) =~= a + y.remove(ci) + b);
    assert((a + y + b)[a.len() + ci] == y[ci]);
}

/// A one-element subtree sequence is its element.
proof fn lemma_single_child<W>(s: Seq<Node<W>>)
    requires
        s.len() == 1,
    ensures
        leaves_of(s) == s[0].leaves(),
        forall|m: nat, w: bool| all_shaped(s, m, w) == s[0].shaped(m, w),
{
    assert(s =~= seq![s[0]]);
    lemma_leaves_of_one(s[0]);
}


/// Sequences of subtrees that agree pointwise on panes and shape.
pub proof fn lemma_same_leaves_of<W>(a: Seq<Node<W>>, b: Seq<Node<W>>)
    requires
        a.len() == b.len(),
        forall|j: int| 0 <= j < a.len() ==> (#[trigger] b[j]).leaves() == a[j].leaves(),
        forall|j: int, m: nat, w: bool| 0 <= j < a.len() && a[j].shaped(m, w) ==> #[trigger] b[j].shaped(m, w),
    ensures
        leaves_of(b) == leaves_of(a),
        forall|m: nat, w: bool| all_shaped(a, m, w) ==> #[trigger] all_shaped(b, m, w),
    decreases a.len(),
{
    if a.len() > 0 {
        assert forall|j: int| 0 <= j < a.drop_first().len() implies (#[trigger] b.drop_first()[j]).leaves() == a.drop_first()[j].leaves() by {
            assert(b.drop_first()[j] == b[j + 1]);
            assert(a.drop_first()[j] == a[j + 1]);
        }
        assert forall|j: int, m: nat, w: bool| 0 <= j < a.drop_first().len() && a.drop_first()[j].shaped(m, w) implies #[trigger] b.drop_first()[j].shaped(m, w) by {
            assert(b.drop_first()[j] == b[j + 1]);
            assert(a.drop_first()[j] == a[j + 1]);
        }
        lemma_same_leaves_of(a.drop_first(), b.drop_first());
        assert(b[0].leaves() == a[0].leaves());
        assert forall|m: nat, w: bool| all_shaped(a, m, w) implies #[trigger] all_shaped(b, m, w) by {
            assert(a[0].shaped(m, w));
            assert(b[0].shaped(m, w));
            assert(all_shaped(a.drop_first(), m, w));
            assert(all_shaped(b.drop_first(), m, w));
        }
    }
}

/// Closing the pane that a split just added gives back the panes from before the split:
/// when `after_split` holds the panes of `before` with `new_pane` inserted after the first
/// occurrence of `pane` (what [`Node::split`] promises) and `new_pane` was not there yet,
/// then removing an occurrence of `new_pane` from it (what [`Node::remove`] promises) leaves
/// exactly the panes of `before`, in order.
pub proof fn lemma_split_then_remove_restores_panes<W>(
    before: Node<W>,
    after_split: Node<W>,
    after_remove: Node<W>,
    pane: PaneId,
    new_pane: PaneId,
)
    requires
        before.leaves().contains(pane),
        !before.leaves().contains(new_pane),
        after_split.leaves() == before.leaves().insert(first_index(before.leaves(), pane) + 1, new_pane),
        exists|i: int|
            0 <= i < after_split.leaves().len() && after_split.leaves()[i] == new_pane
                && after_remove.leaves() == after_split.leaves().remove(i),
    ensures
        after_remove.leaves() == before.leaves(),
{
    let s = before.leaves();
    lemma_first_index_found(s, pane);
    let k = first_index(s, pane) + 1;
    let i = choose|i: int|
        0 <= i < after_split.leaves().len() && after_split.leaves()[i] == new_pane
            && after_remove.leaves() == after_split.leaves().remove(i);
    let t = s.insert(k, new_pane);
    if i < k {
        assert(t[i] == s[i]);
    } else if i > k {
        assert(t[i] == s[i - 1]);
    }
    assert(i == k);
    assert(t.remove(i) =~= s);
}


/// `inner` lies inside `outer`: every point of `inner` is a point of `outer` (an empty
/// rectangle lies inside anything).
pub open spec fn covered_by(inner: PhysicalRect, outer: PhysicalRect) -> bool {
    inner.width == 0 || inner.height == 0 || (outer.x <= inner.x && inner.right_edge()
        <= outer.right_edge() && outer.y <= inner.y && inner.bottom_edge() <= outer.bottom_edge())
}

/// `area` lies in the coordinates that pane rectangles are computed in.
pub open spec fn area_in_range(area: PhysicalRect) -> bool {
    &&& area.width <= i32::MAX
    &&& area.height <= i32::MAX
    &&& area.right_edge() <= i32::MAX
    &&& area.bottom_edge() <= i32::MAX
}

/// The extent still owed to the children of a split from `index` on, with `cursor` pixels of
/// the extent used and `remaining` left to share: it fits the split's extent, unless nothing is
/// left to share.
pub open spec fn room_left(ext: int, handle: int, count: int, index: int, cursor: int, remaining: int) -> bool {
    remaining == 0 || (cursor + remaining + handle * (count - 1 - index) <= ext && 0 <= count - 1 - index)
}

/// Whether a rectangle has no points.
pub open spec fn is_empty_rect(r: PhysicalRect) -> bool {
    r.width == 0 || r.height == 0
}

/// Where a rectangle starts along `axis`.
pub open spec fn axis_start(r: PhysicalRect, axis: Axis) -> int {
    match axis {
        Axis::Horizontal => r.x as int,
        Axis::Vertical => r.y as int,
    }
}

/// Where a rectangle ends along `axis`.
pub open spec fn axis_end(r: PhysicalRect, axis: Axis) -> int {
    match axis {
        Axis::Horizontal => r.right_edge(),
        Axis::Vertical => r.bottom_edge(),
    }
}

/// Two rectangles share no point.
pub open spec fn apart(a: PhysicalRect, b: PhysicalRect) -> bool {
    is_empty_rect(a) || is_empty_rect(b) || a.right_edge() <= b.x || b.right_edge() <= a.x
        || a.bottom_edge() <= b.y || b.bottom_edge() <= a.y
}

proof fn lemma_covered_by_trans(a: PhysicalRect, b: PhysicalRect, c: PhysicalRect)
    requires
        covered_by(a, b),
        covered_by(b, c),
    ensures
        covered_by(a, c),
{
}

/// Every pane of a tree laid out in `area` gets a rectangle inside `area`.
pub proof fn lemma_pane_rects_lie_in_area<W, S: Fn(u32, &Vec<W>, usize) -> u32>(
    node: Node<W>,
    area: PhysicalRect,
    handle: u32,
    share: S,
)
    requires
        area_in_range(area),
        node.narrow(),
    ensures
        forall|k: int|
            0 <= k < node_rects(node, area, handle, share).len() ==> covered_by(
                #[trigger] node_rects(node, area, handle, share)[k].1,
                area,
            ),
    decreases node, 0int,
{
    match node {
        Node::Leaf(p) => {
            assert(node_rects(node, area, handle, share) =~= seq![(p, area)]);
            assert forall|k: int| 0 <= k < node_rects(node, area, handle, share).len() implies covered_by(
                #[trigger] node_rects(node, area, handle, share)[k].1,
                area,
            ) by {
                assert(k == 0);
                assert(node_rects(node, area, handle, share)[k].1 == area);
            }
        },
        Node::Split { axis, children, sizes } => {
            assert(decreases_to!(node => children));
            let n = children@.len() as int;
            let available = available_extent(area, axis, handle, n);
            let ext = extent_along(area, axis) as int;
            if n >= 1 {
                assert(handle * (n - 1) >= 0) by (nonlinear_arith)
                    requires
                        n >= 1,
                ;
                assert((n - 1) as usize as u32 == n - 1);
                assert(room_left(ext, handle as int, n, 0, 0, available as int));
            }
            lemma_children_rects_lie_in_area(children@, sizes, axis, area, handle, share, available, 0, 0, available);
            assert(node_rects(node, area, handle, share) == children_rects(
                children@,
                sizes,
                axis,
                area,
                handle,
                share,
                available,
                0,
                0,
                available,
            ));
        },
    }
}

proof fn lemma_children_rects_lie_in_area<W, S: Fn(u32, &Vec<W>, usize) -> u32>(
    children: Seq<Node<W>>,
    sizes: Vec<W>,
    axis: Axis,
    area: PhysicalRect,
    handle: u32,
    share: S,
    available: u32,
    index: int,
    cursor: u32,
    remaining: u32,
)
    requires
        area_in_range(area),
        forall|i: int| 0 <= i < children.len() ==> (#[trigger] children[i]).narrow(),
        0 <= index,
        index < children.len() ==> room_left(
            extent_along(area, axis) as int,
            handle as int,
            children.len() as int,
            index,
            cursor as int,
            remaining as int,
        ),
    ensures
        forall|k: int|
            0 <= k < children_rects(children, sizes, axis, area, handle, share, available, index, cursor, remaining).len()
                ==> covered_by(
                #[trigger] children_rects(children, sizes, axis, area, handle, share, available, index, cursor, remaining)[k].1,
                area,
            ) && (remaining == 0 ==> is_empty_rect(
                children_rects(children, sizes, axis, area, handle, share, available, index, cursor, remaining)[k].1,
            )) && (is_empty_rect(
                children_rects(children, sizes, axis, area, handle, share, available, index, cursor, remaining)[k].1,
            ) || axis_start(
                children_rects(children, sizes, axis, area, handle, share, available, index, cursor, remaining)[k].1,
                axis,
            ) >= axis_start(area, axis) + cursor),
    decreases children, children.len() - index,
{
    if index < children.len() {
        let last = index + 1 == children.len();
        let weighted = share_value(share, available, sizes, index);
        let extent = if last {
            remaining
        } else if weighted < remaining {
            weighted
        } else {
            remaining
        };
        let moved = sat_add(cursor, extent);
        let next_cursor = if last {
            moved
        } else {
            sat_add(moved, handle)
        };
        let ext = extent_along(area, axis) as int;
        let child = child_area(area, axis, cursor, extent);
        let n = children.len() as int;
        assert(covered_by(child, area)) by {
            if extent > 0 {
                assert(cursor + extent <= ext) by (nonlinear_arith)
                    requires
                        cursor + remaining + handle * (n - 1 - index) <= ext,
                        0 <= n - 1 - index,
                        extent <= remaining,
                        0 <= handle,
                ;
            }
        }
        assert(area_in_range(child)) by {
            if extent > 0 {
                assert(cursor + extent <= ext) by (nonlinear_arith)
                    requires
                        cursor + remaining + handle * (n - 1 - index) <= ext,
                        0 <= n - 1 - index,
                        extent <= remaining,
                        0 <= handle,
                ;
            }
        }
        assert(decreases_to!(children => children[index]));
        lemma_pane_rects_lie_in_area(children[index], child, handle, share);
        if index + 1 < children.len() {
            let rest = sat_sub(remaining, extent);
            if rest > 0 {
                assert(handle * (n - 1 - index) == handle * (n - 2 - index) + handle) by (nonlinear_arith);
                assert(handle * (n - 2 - index) >= 0) by (nonlinear_arith)
                    requires
                        n - 2 - index >= 0,
                        handle >= 0,
                ;
            }
            assert(room_left(ext, handle as int, n, index + 1, next_cursor as int, rest as int));
        }
        lemma_children_rects_lie_in_area(
            children,
            sizes,
            axis,
            area,
            handle,
            share,
            available,
            index + 1,
            next_cursor,
            sat_sub(remaining, extent),
        );
        let head = node_rects(children[index], child, handle, share);
        let tail = children_rects(children, sizes, axis, area, handle, share, available, index + 1, next_cursor, sat_sub(remaining, extent));
        assert forall|k: int|
            0 <= k < (head + tail).len() implies covered_by(#[trigger] (head + tail)[k].1, area) && (
            remaining == 0 ==> is_empty_rect((head + tail)[k].1)) && (is_empty_rect((head + tail)[k].1)
                || axis_start((head + tail)[k].1, axis) >= axis_start(area, axis) + cursor) by {
            if k < head.len() {
                assert((head + tail)[k] == head[k]);
                lemma_covered_by_trans(head[k].1, child, area);
                assert(covered_by(head[k].1, child));
                if remaining > 0 {
                    assert(cursor + remaining <= extent_along(area, axis)) by (nonlinear_arith)
                        requires
                            cursor + remaining + handle * (n - 1 - index) <= ext,
                            0 <= n - 1 - index,
                            0 <= handle,
                            ext == extent_along(area, axis),
                    ;
                }
            } else {
                assert((head + tail)[k] == tail[k - head.len()]);
                if remaining > 0 && !last && sat_sub(remaining, extent) == 0 {
                    assert(is_empty_rect(tail[k - head.len()].1));
                }
            }
        }
    }
}


/// The panes of a tree laid out in `area` get rectangles that share no point.
pub proof fn lemma_pane_rects_are_apart<W, S: Fn(u32, &Vec<W>, usize) -> u32>(
    node: Node<W>,
    area: PhysicalRect,
    handle: u32,
    share: S,
)
    requires
        area_in_range(area),
        node.narrow(),
    ensures
        forall|i: int, j: int|
            0 <= i < j < node_rects(node, area, handle, share).len() ==> apart(
                #[trigger] node_rects(node, area, handle, share)[i].1,
                #[trigger] node_rects(node, area, handle, share)[j].1,
            ),
    decreases node, 0int,
{
    match node {
        Node::Leaf(p) => {
            assert(node_rects(node, area, handle, share) =~= seq![(p, area)]);
        },
        Node::Split { axis, children, sizes } => {
            assert(decreases_to!(node => children));
            let n = children@.len() as int;
            let available = available_extent(area, axis, handle, n);
            let ext = extent_along(area, axis) as int;
            if n >= 1 {
                assert(handle * (n - 1) >= 0) by (nonlinear_arith)
                    requires
                        n >= 1,
                ;
                assert((n - 1) as usize as u32 == n - 1);
                assert(room_left(ext, handle as int, n, 0, 0, available as int));
            }
            lemma_children_rects_are_apart(children@, sizes, axis, area, handle, share, available, 0, 0, available);
            assert(node_rects(node, area, handle, share) == children_rects(
                children@,
                sizes,
                axis,
                area,
                handle,
                share,
                available,
                0,
                0,
                available,
            ));
        },
    }
}

proof fn lemma_children_rects_are_apart<W, S: Fn(u32, &Vec<W>, usize) -> u32>(
    children: Seq<Node<W>>,
    sizes: Vec<W>,
    axis: Axis,
    area: PhysicalRect,
    handle: u32,
    share: S,
    available: u32,
    index: int,
    cursor: u32,
    remaining: u32,
)
    requires
        area_in_range(area),
        forall|i: int| 0 <= i < children.len() ==> (#[trigger] children[i]).narrow(),
        0 <= index,
        index < children.len() ==> room_left(
            extent_along(area, axis) as int,
            handle as int,
            children.len() as int,
            index,
            cursor as int,
            remaining as int,
        ),
    ensures
        forall|i: int, j: int|
            0 <= i < j < children_rects(children, sizes, axis, area, handle, share, available, index, cursor, remaining).len()
                ==> apart(
                #[trigger] children_rects(children, sizes, axis, area, handle, share, available, index, cursor, remaining)[i].1,
                #[trigger] children_rects(children, sizes, axis, area, handle, share, available, index, cursor, remaining)[j].1,
            ),
    decreases children, children.len() - index,
{
    if index < children.len() {
        let last = index + 1 == children.len();
        let weighted = share_value(share, available, sizes, index);
        let extent = if last {
            remaining
        } else if weighted < remaining {
            weighted
        } else {
            remaining
        };
        let moved = sat_add(cursor, extent);
        let next_cursor = if last {
            moved
        } else {
            sat_add(moved, handle)
        };
        let ext = extent_along(area, axis) as int;
        let child = child_area(area, axis, cursor, extent);
        let n = children.len() as int;
        let rest = sat_sub(remaining, extent);
        if remaining > 0 {
            assert(cursor + remaining <= ext) by (nonlinear_arith)
                requires
                    cursor + remaining + handle * (n - 1 - index) <= ext,
                    0 <= n - 1 - index,
                    0 <= handle,
            ;
        }
        assert(area_in_range(child)) by {
            if extent > 0 {
                assert(cursor + extent <= ext) by (nonlinear_arith)
                    requires
                        cursor + remaining + handle * (n - 1 - index) <= ext,
                        0 <= n - 1 - index,
                        extent <= remaining,
                        0 <= handle,
                ;
            }
        }
        assert(decreases_to!(children => children[index]));
        lemma_pane_rects_are_apart(children[index], child, handle, share);
        lemma_pane_rects_lie_in_area(children[index], child, handle, share);
        if index + 1 < children.len() {
            if rest > 0 {
                assert(handle * (n - 1 - index) == handle * (n - 2 - index) + handle) by (nonlinear_arith);
                assert(handle * (n - 2 - index) >= 0) by (nonlinear_arith)
                    requires
                        n - 2 - index >= 0,
                        handle >= 0,
                ;
            }
            assert(room_left(ext, handle as int, n, index + 1, next_cursor as int, rest as int));
        }
        lemma_children_rects_are_apart(children, sizes, axis, area, handle, share, available, index + 1, next_cursor, rest);
        lemma_children_rects_lie_in_area(children, sizes, axis, area, handle, share, available, index + 1, next_cursor, rest);
        let head = node_rects(children[index], child, handle, share);
        let tail = children_rects(children, sizes, axis, area, handle, share, available, index + 1, next_cursor, rest);
        let all = head + tail;
        assert forall|i: int, j: int| 0 <= i < j < all.len() implies apart(#[trigger] all[i].1, #[trigger] all[j].1) by {
            if j < head.len() {
                assert(all[i] == head[i] && all[j] == head[j]);
            } else if i >= head.len() {
                assert(all[i] == tail[i - head.len()] && all[j] == tail[j - head.len()]);
            } else {
                assert(all[i] == head[i] && all[j] == tail[j - head.len()]);
                let a = head[i].1;
                let b = tail[j - head.len()].1;
                assert(covered_by(a, child));
                if !is_empty_rect(a) && !is_empty_rect(b) {
                    // A point of `a` needs a positive extent, hence pixels left to share.
                    assert(extent > 0);
                    assert(rest > 0);
                    assert(axis_end(a, axis) <= axis_start(area, axis) + cursor + extent);
                    assert(axis_start(b, axis) >= axis_start(area, axis) + next_cursor);
                }
            }
        }
    }
}

} // verus!
