//! The adaptive quadtree spatial index. A bounded region is partitioned
//! hierarchically; agent snapshots are stored at the smallest node whose
//! rectangle strictly contains their bounding rectangle, except that a leaf
//! below the split threshold keeps values directly and a node at the maximum
//! depth never splits.

use crate::agent::{seq_has_id, AgentSnapshot};
use crate::rect::{
    partition_rect, partition_rect_spec, rect_contains_rect, rect_contains_rect_spec, Rect,
};
use vstd::multiset::Multiset;
use vstd::prelude::*;

verus! {

broadcast use vstd::seq_lib::group_to_multiset_ensures, vstd::multiset::group_multiset_axioms;

/// The four children of a split node, in the fixed partition order:
/// bottom-left, bottom-right, top-left, top-right.
pub struct Quadrants {
    pub bl: QuadtreeNode,
    pub br: QuadtreeNode,
    pub tl: QuadtreeNode,
    pub tr: QuadtreeNode,
}

/// One node of the quadtree. A node is a leaf iff it has no children; a
/// split node always has exactly four, tiling its rectangle.
pub struct QuadtreeNode {
    pub rect: Rect,
    pub depth: usize,
    pub children: Option<Box<Quadrants>>,
    pub values: Vec<AgentSnapshot>,
}

/// The spatial index: fixed world bounds, the split configuration, and the
/// root node at depth zero.
pub struct Quadtree {
    pub rect: Rect,
    pub threshold: usize,
    pub max_depth: usize,
    pub root: QuadtreeNode,
}

impl QuadtreeNode {
    pub open spec fn is_leaf_spec(self) -> bool {
        self.children is None
    }

    pub open spec fn is_empty_leaf_spec(self) -> bool {
        self.is_leaf_spec() && self.values@.len() == 0
    }

    /// Every value stored at this node or below, own values first, then the
    /// four children in partition order.
    pub open spec fn descendant_values_seq(self) -> Seq<AgentSnapshot>
        decreases self,
    {
        match self.children {
            None => self.values@,
            Some(q) => self.values@ + q.bl.descendant_values_seq() + q.br.descendant_values_seq()
                + q.tl.descendant_values_seq() + q.tr.descendant_values_seq(),
        }
    }

    /// The stored snapshots as a multiset; the index's abstract contents.
    pub open spec fn all_values(self) -> Multiset<AgentSnapshot> {
        self.descendant_values_seq().to_multiset()
    }

    /// A snapshot with this identity is stored at this node or below.
    pub open spec fn contains_id(self, id: u64) -> bool {
        seq_has_id(self.descendant_values_seq(), id)
    }

    /// Well-formedness: ordered, bounded rectangle; every stored value
    /// strictly inside it; children, when present, tile the rectangle in
    /// partition order, sit one level deeper, and exist only above the depth
    /// ceiling.
    pub open spec fn wf(self, max_depth: usize) -> bool
        decreases self,
    {
        &&& self.rect.wf()
        &&& self.rect.bounded()
        &&& self.depth <= max_depth
        &&& forall|i: int|
            0 <= i < self.values@.len() ==> rect_contains_rect_spec(
                self.rect,
                (#[trigger] self.values@[i]).rect,
            )
        &&& match self.children {
            None => true,
            Some(q) => {
                &&& self.depth < max_depth
                &&& q.bl.rect == partition_rect_spec(self.rect)[0]
                &&& q.br.rect == partition_rect_spec(self.rect)[1]
                &&& q.tl.rect == partition_rect_spec(self.rect)[2]
                &&& q.tr.rect == partition_rect_spec(self.rect)[3]
                &&& q.bl.depth == self.depth + 1
                &&& q.br.depth == self.depth + 1
                &&& q.tl.depth == self.depth + 1
                &&& q.tr.depth == self.depth + 1
                &&& q.bl.wf(max_depth)
                &&& q.br.wf(max_depth)
                &&& q.tl.wf(max_depth)
                &&& q.tr.wf(max_depth)
            },
        }
    }

    /// `n` is this node or one of its descendants.
    pub open spec fn node_in_tree(self, n: QuadtreeNode) -> bool
        decreases self,
    {
        n == self || match self.children {
            None => false,
            Some(q) => q.bl.node_in_tree(n) || q.br.node_in_tree(n) || q.tl.node_in_tree(n)
                || q.tr.node_in_tree(n),
        }
    }

    pub fn empty(rect: Rect, depth: usize) -> (n: QuadtreeNode)
        ensures
            n.rect == rect,
            n.depth == depth,
            n.children is None,
            n.values@ == Seq::<AgentSnapshot>::empty(),
            n.descendant_values_seq() == Seq::<AgentSnapshot>::empty(),
            forall|md: usize| rect.wf() && rect.bounded() && depth <= md ==> n.wf(md),
    {
        let n = QuadtreeNode { rect, depth, children: None, values: Vec::new() };
        proof {
            assert(n.descendant_values_seq() =~= Seq::<AgentSnapshot>::empty());
        }
        n
    }

    pub fn is_leaf(&self) -> (r: bool)
        ensures
            r == self.is_leaf_spec(),
    {
        self.children.is_none()
    }

    pub fn contains_rect(&self, rect: &Rect) -> (r: bool)
        ensures
            r == rect_contains_rect_spec(self.rect, *rect),
    {
        rect_contains_rect(&self.rect, rect)
    }

    /// A snapshot with the query's identity is stored directly at this node.
    pub fn contains_value(&self, value: &AgentSnapshot) -> (r: bool)
        ensures
            r == seq_has_id(self.values@, value.id),
    {
        let n = self.values.len();
        let mut i: usize = 0;
        while i < n
            invariant
                0 <= i <= n,
                n == self.values@.len(),
                forall|j: int| 0 <= j < i ==> self.values@[j].id != value.id,
            decreases n - i,
        {
            if self.values[i].id == value.id {
                return true;
            }
            i += 1;
        }
        false
    }

    /// One of the children (if any) strictly contains the rectangle.
    pub open spec fn children_contain_rect_spec(self, rect: Rect) -> bool {
        match self.children {
            None => false,
            Some(q) => rect_contains_rect_spec(q.bl.rect, rect) || rect_contains_rect_spec(
                q.br.rect,
                rect,
            ) || rect_contains_rect_spec(q.tl.rect, rect) || rect_contains_rect_spec(
                q.tr.rect,
                rect,
            ),
        }
    }

    pub fn children_contain_rect(&self, rect: &Rect) -> (r: bool)
        ensures
            r == self.children_contain_rect_spec(*rect),
    {
        match &self.children {
            None => false,
            Some(q) => q.bl.contains_rect(rect) || q.br.contains_rect(rect) || q.tl.contains_rect(
                rect,
            ) || q.tr.contains_rect(rect),
        }
    }

    /// Splits a leaf: installs four empty children tiling this node's
    /// rectangle one level deeper. Stored values are untouched; a separate
    /// redistribution step pushes them down.
    fn create_children(&mut self)
        requires
            old(self).children is None,
            old(self).rect.wf(),
            old(self).rect.bounded(),
            old(self).depth < usize::MAX,
        ensures
            final(self).rect == old(self).rect,
            final(self).depth == old(self).depth,
            final(self).values == old(self).values,
            final(self).descendant_values_seq() == old(self).descendant_values_seq(),
            match final(self).children {
                None => false,
                Some(q) => {
                    &&& q.bl.rect == partition_rect_spec(old(self).rect)[0]
                    &&& q.br.rect == partition_rect_spec(old(self).rect)[1]
                    &&& q.tl.rect == partition_rect_spec(old(self).rect)[2]
                    &&& q.tr.rect == partition_rect_spec(old(self).rect)[3]
                    &&& q.bl.depth == old(self).depth + 1
                    &&& q.br.depth == old(self).depth + 1
                    &&& q.tl.depth == old(self).depth + 1
                    &&& q.tr.depth == old(self).depth + 1
                    &&& q.bl.is_empty_leaf_spec()
                    &&& q.br.is_empty_leaf_spec()
                    &&& q.tl.is_empty_leaf_spec()
                    &&& q.tr.is_empty_leaf_spec()
                },
            },
            forall|md: usize| old(self).wf(md) && old(self).depth < md ==> final(self).wf(md),
    {
        let quads = partition_rect(&self.rect);
        let depth1 = self.depth + 1;
        self.children = Some(
            Box::new(
                Quadrants {
                    bl: QuadtreeNode::empty(quads[0], depth1),
                    br: QuadtreeNode::empty(quads[1], depth1),
                    tl: QuadtreeNode::empty(quads[2], depth1),
                    tr: QuadtreeNode::empty(quads[3], depth1),
                },
            ),
        );
        proof {
            assert(self.descendant_values_seq() =~= old(self).descendant_values_seq());
            assert(quads@[0].wf() && quads@[0].bounded());
            assert(quads@[1].wf() && quads@[1].bounded());
            assert(quads@[2].wf() && quads@[2].bounded());
            assert(quads@[3].wf() && quads@[3].bounded());
            assert forall|md: usize|
                old(self).wf(md) && old(self).depth < md implies self.wf(md) by {
                let q = self.children.unwrap();
                assert(q.bl.wf(md));
                assert(q.br.wf(md));
                assert(q.tl.wf(md));
                assert(q.tr.wf(md));
            }
        }
    }

    /// Pushes each stored value one level down, into the unique child that
    /// strictly contains its rectangle; values straddling a partition
    /// boundary stay at this node. Children must be freshly created (empty
    /// leaves).
    fn distribute_values(&mut self)
        requires
            match old(self).children {
                None => false,
                Some(q) => q.bl.is_empty_leaf_spec() && q.br.is_empty_leaf_spec()
                    && q.tl.is_empty_leaf_spec() && q.tr.is_empty_leaf_spec(),
            },
        ensures
            final(self).rect == old(self).rect,
            final(self).depth == old(self).depth,
            final(self).all_values() == old(self).all_values(),
            match final(self).children {
                None => false,
                Some(q) => {
                    &&& match old(self).children {
                        None => false,
                        Some(q0) => {
                            &&& q.bl.rect == q0.bl.rect
                            &&& q.br.rect == q0.br.rect
                            &&& q.tl.rect == q0.tl.rect
                            &&& q.tr.rect == q0.tr.rect
                            &&& q.bl.depth == q0.bl.depth
                            &&& q.br.depth == q0.br.depth
                            &&& q.tl.depth == q0.tl.depth
                            &&& q.tr.depth == q0.tr.depth
                        },
                    }
                    &&& q.bl.is_leaf_spec()
                    &&& q.br.is_leaf_spec()
                    &&& q.tl.is_leaf_spec()
                    &&& q.tr.is_leaf_spec()
                    &&& forall|i: int|
                        0 <= i < q.bl.values@.len() ==> rect_contains_rect_spec(
                            q.bl.rect,
                            (#[trigger] q.bl.values@[i]).rect,
                        )
                    &&& forall|i: int|
                        0 <= i < q.br.values@.len() ==> rect_contains_rect_spec(
                            q.br.rect,
                            (#[trigger] q.br.values@[i]).rect,
                        )
                    &&& forall|i: int|
                        0 <= i < q.tl.values@.len() ==> rect_contains_rect_spec(
                            q.tl.rect,
                            (#[trigger] q.tl.values@[i]).rect,
                        )
                    &&& forall|i: int|
                        0 <= i < q.tr.values@.len() ==> rect_contains_rect_spec(
                            q.tr.rect,
                            (#[trigger] q.tr.values@[i]).rect,
                        )
                },
            },
            forall|i: int|
                0 <= i < final(self).values@.len() ==> old(self).values@.contains(
                    #[trigger] final(self).values@[i],
                ),
            forall|md: usize| old(self).wf(md) ==> final(self).wf(md),
    {
        let ghost orig = *old(self);
        let mut q = self.children.take().unwrap();
        let n = self.values.len();
        let mut kept: Vec<AgentSnapshot> = Vec::new();
        let mut i: usize = 0;
        while i < n
            invariant
                0 <= i <= n,
                n == orig.values@.len(),
                self.values@ == orig.values@,
                self.children is None,
                self.rect == orig.rect,
                self.depth == orig.depth,
                orig.children matches Some(q0) ==> {
                    &&& q.bl.rect == q0.bl.rect
                    &&& q.br.rect == q0.br.rect
                    &&& q.tl.rect == q0.tl.rect
                    &&& q.tr.rect == q0.tr.rect
                    &&& q.bl.depth == q0.bl.depth
                    &&& q.br.depth == q0.br.depth
                    &&& q.tl.depth == q0.tl.depth
                    &&& q.tr.depth == q0.tr.depth
                },
                q.bl.is_leaf_spec() && q.br.is_leaf_spec() && q.tl.is_leaf_spec()
                    && q.tr.is_leaf_spec(),
                forall|j: int|
                    0 <= j < q.bl.values@.len() ==> rect_contains_rect_spec(
                        q.bl.rect,
                        (#[trigger] q.bl.values@[j]).rect,
                    ),
                forall|j: int|
                    0 <= j < q.br.values@.len() ==> rect_contains_rect_spec(
                        q.br.rect,
                        (#[trigger] q.br.values@[j]).rect,
                    ),
                forall|j: int|
                    0 <= j < q.tl.values@.len() ==> rect_contains_rect_spec(
                        q.tl.rect,
                        (#[trigger] q.tl.values@[j]).rect,
                    ),
                forall|j: int|
                    0 <= j < q.tr.values@.len() ==> rect_contains_rect_spec(
                        q.tr.rect,
                        (#[trigger] q.tr.values@[j]).rect,
                    ),
                forall|j: int| 0 <= j < kept@.len() ==> orig.values@.contains(#[trigger] kept@[j]),
                kept@.to_multiset().add(q.bl.values@.to_multiset()).add(
                    q.br.values@.to_multiset(),
                ).add(q.tl.values@.to_multiset()).add(q.tr.values@.to_multiset())
                    == orig.values@.take(i as int).to_multiset(),
            decreases n - i,
        {
            let v = self.values[i];
            proof {
                assert(orig.values@.take(i + 1) =~= orig.values@.take(i as int).push(v));
            }
            if rect_contains_rect(&q.bl.rect, &v.rect) {
                q.bl.values.push(v);
            } else if rect_contains_rect(&q.br.rect, &v.rect) {
                q.br.values.push(v);
            } else if rect_contains_rect(&q.tl.rect, &v.rect) {
                q.tl.values.push(v);
            } else if rect_contains_rect(&q.tr.rect, &v.rect) {
                q.tr.values.push(v);
            } else {
                kept.push(v);
            }
            proof {
                assert(kept@.to_multiset().add(q.bl.values@.to_multiset()).add(
                    q.br.values@.to_multiset(),
                ).add(q.tl.values@.to_multiset()).add(q.tr.values@.to_multiset()) =~= orig.values@.take(
                    i + 1,
                ).to_multiset());
            }
            i += 1;
        }
        proof {
            assert(orig.values@.take(n as int) =~= orig.values@);
        }
        self.values = kept;
        self.children = Some(q);
        proof {
            lemma_distribute_multiset(*self, orig);
            assert forall|md: usize| orig.wf(md) implies self.wf(md) by {
                let qf = self.children.unwrap();
                let q0 = orig.children.unwrap();
                assert(q0.bl.wf(md));
                assert(q0.br.wf(md));
                assert(q0.tl.wf(md));
                assert(q0.tr.wf(md));
                assert(qf.bl.wf(md));
                assert(qf.br.wf(md));
                assert(qf.tl.wf(md));
                assert(qf.tr.wf(md));
            }
        }
    }
    /// Inserts a value whose rectangle this node strictly contains. A leaf
    /// below both the depth ceiling and the split threshold stores it
    /// directly; a full leaf above the ceiling splits once, redistributes,
    /// and the insert then descends into the unique child strictly
    /// containing the value's rectangle, or keeps the value here if it
    /// straddles a partition boundary. A node at the maximum depth never
    /// splits.
    pub fn add(&mut self, value: AgentSnapshot, threshold: usize, max_depth: usize)
        requires
            old(self).wf(max_depth),
            rect_contains_rect_spec(old(self).rect, value.rect),
        ensures
            final(self).wf(max_depth),
            final(self).rect == old(self).rect,
            final(self).depth == old(self).depth,
            final(self).all_values() == old(self).all_values().insert(value),
            old(self).depth >= max_depth ==> final(self).children == old(self).children
                && final(self).values@ == old(self).values@.push(value),
            old(self).is_leaf_spec() && old(self).depth < max_depth && old(self).values@.len()
                >= threshold ==> !final(self).is_leaf_spec(),
            old(self).is_leaf_spec() && (old(self).depth >= max_depth || old(self).values@.len()
                < threshold) ==> final(self).children == old(self).children && final(self).values@
                == old(self).values@.push(value),
        decreases max_depth - old(self).depth,
    {
        if self.is_leaf() {
            if self.depth >= max_depth || self.values.len() < threshold {
                self.values.push(value);
                proof {
                    assert(self.descendant_values_seq() == old(self).descendant_values_seq().push(
                        value,
                    ));
                    assert(self.all_values() =~= old(self).all_values().insert(value));
                    assert(self.all_values() == old(self).all_values().insert(value));
                }
                return;
            }
            self.create_children();
            self.distribute_values();
        }
        let ghost mid = *self;
        proof {
            assert(mid.wf(max_depth));
            assert(mid.all_values() == old(self).all_values());
            let qm = mid.children.unwrap();
            assert(qm.bl.wf(max_depth) && qm.br.wf(max_depth) && qm.tl.wf(max_depth)
                && qm.tr.wf(max_depth));
            assert(qm.bl.depth == mid.depth + 1 && qm.br.depth == mid.depth + 1 && qm.tl.depth
                == mid.depth + 1 && qm.tr.depth == mid.depth + 1);
            assert(mid.descendant_values_seq() == mid.values@ + qm.bl.descendant_values_seq()
                + qm.br.descendant_values_seq() + qm.tl.descendant_values_seq()
                + qm.tr.descendant_values_seq());
            lemma_concat5_to_multiset(
                mid.values@,
                qm.bl.descendant_values_seq(),
                qm.br.descendant_values_seq(),
                qm.tl.descendant_values_seq(),
                qm.tr.descendant_values_seq(),
            );
        }
        let mut q = self.children.take().unwrap();
        if rect_contains_rect(&q.bl.rect, &value.rect) {
            q.bl.add(value, threshold, max_depth);
        } else if rect_contains_rect(&q.br.rect, &value.rect) {
            q.br.add(value, threshold, max_depth);
        } else if rect_contains_rect(&q.tl.rect, &value.rect) {
            q.tl.add(value, threshold, max_depth);
        } else if rect_contains_rect(&q.tr.rect, &value.rect) {
            q.tr.add(value, threshold, max_depth);
        } else {
            self.values.push(value);
        }
        self.children = Some(q);
        proof {
            let qm = mid.children.unwrap();
            let qf = self.children.unwrap();
            assert(self.descendant_values_seq() == self.values@ + qf.bl.descendant_values_seq()
                + qf.br.descendant_values_seq() + qf.tl.descendant_values_seq()
                + qf.tr.descendant_values_seq());
            lemma_concat5_to_multiset(
                self.values@,
                qf.bl.descendant_values_seq(),
                qf.br.descendant_values_seq(),
                qf.tl.descendant_values_seq(),
                qf.tr.descendant_values_seq(),
            );
            assert(self.all_values() =~= mid.all_values().insert(value));
            assert(self.all_values() == old(self).all_values().insert(value));
            assert(qf.bl.wf(max_depth) && qf.br.wf(max_depth) && qf.tl.wf(max_depth)
                && qf.tr.wf(max_depth));
            assert(self.wf(max_depth));
        }
    }
    /// Removes one stored snapshot matching the query's identity, searching
    /// this node's own values first and then the children in partition
    /// order. Absent identities leave the tree untouched.
    pub fn delete(&mut self, value: &AgentSnapshot) -> (r: Option<AgentSnapshot>)
        ensures
            final(self).rect == old(self).rect,
            final(self).depth == old(self).depth,
            match r {
                Some(w) => w.id == value.id && old(self).all_values().count(w) > 0
                    && final(self).all_values() == old(self).all_values().remove(w),
                None => *final(self) == *old(self) && !old(self).contains_id(value.id),
            },
            forall|md: usize| old(self).wf(md) ==> final(self).wf(md),
        decreases *old(self),
    {
        let n = self.values.len();
        let mut i: usize = 0;
        while i < n
            invariant
                0 <= i <= n,
                n == self.values@.len(),
                *self == *old(self),
                forall|j: int| 0 <= j < i ==> self.values@[j].id != value.id,
            decreases n - i,
        {
            if self.values[i].id == value.id {
                let w = self.values.remove(i);
                proof {
                    lemma_remove_own_value(*self, *old(self), i as int, w);
                }
                return Some(w);
            }
            i += 1;
        }
        let c = self.children.take();
        match c {
            None => {
                proof {
                    assert(*self =~= *old(self));
                }
                None
            },
            Some(mut q) => {
                let ghost mid = *old(self);
                let r0 = q.bl.delete(value);
                if r0.is_some() {
                    self.children = Some(q);
                    proof {
                        lemma_delete_in_child(*self, mid, r0.unwrap());
                    }
                    return r0;
                }
                let r1 = q.br.delete(value);
                if r1.is_some() {
                    self.children = Some(q);
                    proof {
                        lemma_delete_in_child(*self, mid, r1.unwrap());
                    }
                    return r1;
                }
                let r2 = q.tl.delete(value);
                if r2.is_some() {
                    self.children = Some(q);
                    proof {
                        lemma_delete_in_child(*self, mid, r2.unwrap());
                    }
                    return r2;
                }
                let r3 = q.tr.delete(value);
                if r3.is_some() {
                    self.children = Some(q);
                    proof {
                        lemma_delete_in_child(*self, mid, r3.unwrap());
                    }
                    return r3;
                }
                self.children = Some(q);
                proof {
                    assert(*self =~= *old(self));
                    lemma_contains_id_parts(*old(self), value.id);
                }
                None
            },
        }
    }
    /// Locates the node directly holding a snapshot with the query's
    /// identity: membership at this node is checked before the children are
    /// searched, since values may live above the level their rectangle would
    /// allow.
    pub fn find_value(&self, value: &AgentSnapshot) -> (r: Option<&QuadtreeNode>)
        ensures
            match r {
                Some(n) => self.node_in_tree(*n) && seq_has_id(n.values@, value.id)
                    && self.contains_id(value.id),
                None => !self.contains_id(value.id),
            },
        decreases *self,
    {
        if self.contains_value(value) {
            proof {
                if self.children is Some {
                    lemma_contains_id_parts(*self, value.id);
                } else {
                    assert(self.descendant_values_seq() == self.values@);
                }
            }
            return Some(self);
        }
        match &self.children {
            None => {
                proof {
                    assert(self.descendant_values_seq() == self.values@);
                }
                None
            },
            Some(q) => {
                proof {
                    lemma_contains_id_parts(*self, value.id);
                }
                if let Some(n) = q.bl.find_value(value) {
                    return Some(n);
                }
                if let Some(n) = q.br.find_value(value) {
                    return Some(n);
                }
                if let Some(n) = q.tl.find_value(value) {
                    return Some(n);
                }
                if let Some(n) = q.tr.find_value(value) {
                    return Some(n);
                }
                None
            },
        }
    }

    /// The node the region query returns: the deepest node on the
    /// containment path whose rectangle strictly contains the query
    /// rectangle, children probed in partition order.
    pub open spec fn query_rect_spec(self, rect: Rect) -> Option<QuadtreeNode>
        decreases self,
    {
        if !rect_contains_rect_spec(self.rect, rect) {
            None
        } else {
            match self.children {
                None => Some(self),
                Some(q) => if q.bl.query_rect_spec(rect) is Some {
                    q.bl.query_rect_spec(rect)
                } else if q.br.query_rect_spec(rect) is Some {
                    q.br.query_rect_spec(rect)
                } else if q.tl.query_rect_spec(rect) is Some {
                    q.tl.query_rect_spec(rect)
                } else if q.tr.query_rect_spec(rect) is Some {
                    q.tr.query_rect_spec(rect)
                } else {
                    Some(self)
                },
            }
        }
    }

    /// Returns the deepest node whose rectangle strictly contains `rect`,
    /// or nothing when even this node's rectangle does not.
    pub fn query_rect(&self, rect: &Rect) -> (r: Option<&QuadtreeNode>)
        ensures
            match r {
                Some(n) => self.query_rect_spec(*rect) == Some(*n),
                None => self.query_rect_spec(*rect) is None,
            },
            r is Some <==> rect_contains_rect_spec(self.rect, *rect),
        decreases *self,
    {
        if !self.contains_rect(rect) {
            return None;
        }
        match &self.children {
            None => Some(self),
            Some(q) => {
                if let Some(n) = q.bl.query_rect(rect) {
                    return Some(n);
                }
                if let Some(n) = q.br.query_rect(rect) {
                    return Some(n);
                }
                if let Some(n) = q.tl.query_rect(rect) {
                    return Some(n);
                }
                if let Some(n) = q.tr.query_rect(rect) {
                    return Some(n);
                }
                Some(self)
            },
        }
    }

    /// Every value stored at this node or any descendant, own values first,
    /// then the children in partition order; a fresh vector per call.
    pub fn get_all_descendant_values(&self) -> (out: Vec<AgentSnapshot>)
        ensures
            out@ == self.descendant_values_seq(),
        decreases *self,
    {
        let mut out: Vec<AgentSnapshot> = Vec::new();
        let n = self.values.len();
        let mut i: usize = 0;
        while i < n
            invariant
                0 <= i <= n,
                n == self.values@.len(),
                out@ == self.values@.take(i as int),
            decreases n - i,
        {
            let v = self.values[i];
            out.push(v);
            proof {
                assert(self.values@.take(i + 1) =~= self.values@.take(i as int).push(v));
            }
            i += 1;
        }
        proof {
            assert(self.values@.take(n as int) =~= self.values@);
        }
        match &self.children {
            None => {
                proof {
                    assert(self.descendant_values_seq() == self.values@);
                }
                out
            },
            Some(q) => {
                let mut part = q.bl.get_all_descendant_values();
                out.append(&mut part);
                let mut part = q.br.get_all_descendant_values();
                out.append(&mut part);
                let mut part = q.tl.get_all_descendant_values();
                out.append(&mut part);
                let mut part = q.tr.get_all_descendant_values();
                out.append(&mut part);
                out
            },
        }
    }

    /// Whether no subtree of empty leaves is left to collapse.
    pub open spec fn fully_cleaned(self) -> bool
        decreases self,
    {
        match self.children {
            None => true,
            Some(q) => q.bl.fully_cleaned() && q.br.fully_cleaned() && q.tl.fully_cleaned()
                && q.tr.fully_cleaned() && !(q.bl.is_empty_leaf_spec() && q.br.is_empty_leaf_spec()
                && q.tl.is_empty_leaf_spec() && q.tr.is_empty_leaf_spec()),
        }
    }

    fn is_empty_leaf(&self) -> (r: bool)
        ensures
            r == self.is_empty_leaf_spec(),
    {
        self.children.is_none() && self.values.len() == 0
    }

    /// Bottom-up structural cleanup: every subtree whose four children end
    /// up as empty leaves collapses back into a single empty leaf. Stored
    /// values are untouched, and a tree with nothing to collapse comes back
    /// unchanged, so a second pass never changes anything.
    pub fn clean_children(&mut self)
        ensures
            final(self).rect == old(self).rect,
            final(self).depth == old(self).depth,
            final(self).values == old(self).values,
            final(self).descendant_values_seq() == old(self).descendant_values_seq(),
            final(self).fully_cleaned(),
            old(self).fully_cleaned() ==> *final(self) == *old(self),
            forall|md: usize| old(self).wf(md) ==> final(self).wf(md),
        decreases *old(self),
    {
        let c = self.children.take();
        match c {
            None => {
                proof {
                    assert(*self =~= *old(self));
                }
            },
            Some(mut q) => {
                q.bl.clean_children();
                q.br.clean_children();
                q.tl.clean_children();
                q.tr.clean_children();
                let collapse = q.bl.is_empty_leaf() && q.br.is_empty_leaf() && q.tl.is_empty_leaf()
                    && q.tr.is_empty_leaf();
                if collapse {
                    proof {
                        let q0 = old(self).children.unwrap();
                        assert(q0.bl.descendant_values_seq() == q0.bl.values@);
                        assert(old(self).descendant_values_seq() =~= old(self).values@);
                        assert(self.descendant_values_seq() == self.values@);
                    }
                } else {
                    self.children = Some(q);
                    proof {
                        let q0 = old(self).children.unwrap();
                        let qf = self.children.unwrap();
                        assert(self.descendant_values_seq() == self.values@
                            + qf.bl.descendant_values_seq() + qf.br.descendant_values_seq()
                            + qf.tl.descendant_values_seq() + qf.tr.descendant_values_seq());
                        assert(old(self).descendant_values_seq() == old(self).values@
                            + q0.bl.descendant_values_seq() + q0.br.descendant_values_seq()
                            + q0.tl.descendant_values_seq() + q0.tr.descendant_values_seq());
                        if old(self).fully_cleaned() {
                            assert(*self =~= *old(self));
                        }
                        assert forall|md: usize| old(self).wf(md) implies self.wf(md) by {
                            assert(q0.bl.wf(md) && q0.br.wf(md) && q0.tl.wf(md) && q0.tr.wf(md));
                            assert(qf.bl.wf(md) && qf.br.wf(md) && qf.tl.wf(md) && qf.tr.wf(md));
                        }
                    }
                }
            },
        }
    }
}

/// A node with children holds an identity iff its own values do or one of
/// the children does.
proof fn lemma_contains_id_parts(n: QuadtreeNode, id: u64)
    requires
        n.children is Some,
    ensures
        n.contains_id(id) <==> (seq_has_id(n.values@, id) || n.children.unwrap().bl.contains_id(id)
            || n.children.unwrap().br.contains_id(id) || n.children.unwrap().tl.contains_id(id)
            || n.children.unwrap().tr.contains_id(id)),
{
    let q = n.children.unwrap();
    let a = n.values@;
    let b = q.bl.descendant_values_seq();
    let c = q.br.descendant_values_seq();
    let d = q.tl.descendant_values_seq();
    let e = q.tr.descendant_values_seq();
    let s = n.descendant_values_seq();
    assert(s == a + b + c + d + e);
    if seq_has_id(s, id) {
        let i = choose|i: int| 0 <= i < s.len() && s[i].id == id;
        if i < a.len() {
            assert(a[i].id == id);
        } else if i < a.len() + b.len() {
            assert(b[i - a.len()].id == id);
        } else if i < a.len() + b.len() + c.len() {
            assert(c[i - a.len() - b.len()].id == id);
        } else if i < a.len() + b.len() + c.len() + d.len() {
            assert(d[i - a.len() - b.len() - c.len()].id == id);
        } else {
            assert(e[i - a.len() - b.len() - c.len() - d.len()].id == id);
        }
    }
    if seq_has_id(a, id) {
        let i = choose|i: int| 0 <= i < a.len() && a[i].id == id;
        assert(s[i].id == id);
    }
    if seq_has_id(b, id) {
        let i = choose|i: int| 0 <= i < b.len() && b[i].id == id;
        assert(s[a.len() + i].id == id);
    }
    if seq_has_id(c, id) {
        let i = choose|i: int| 0 <= i < c.len() && c[i].id == id;
        assert(s[a.len() + b.len() + i].id == id);
    }
    if seq_has_id(d, id) {
        let i = choose|i: int| 0 <= i < d.len() && d[i].id == id;
        assert(s[a.len() + b.len() + c.len() + i].id == id);
    }
    if seq_has_id(e, id) {
        let i = choose|i: int| 0 <= i < e.len() && e[i].id == id;
        assert(s[a.len() + b.len() + c.len() + d.len() + i].id == id);
    }
}

/// Removing index `i` from a node's own values removes exactly that
/// snapshot from the node's contents and keeps it well-formed.
proof fn lemma_remove_own_value(node: QuadtreeNode, orig: QuadtreeNode, i: int, w: AgentSnapshot)
    requires
        0 <= i < orig.values@.len(),
        w == orig.values@[i],
        node.values@ == orig.values@.remove(i),
        node.children == orig.children,
        node.rect == orig.rect,
        node.depth == orig.depth,
    ensures
        orig.all_values().count(w) > 0,
        node.all_values() == orig.all_values().remove(w),
        forall|md: usize| orig.wf(md) ==> node.wf(md),
{
    match orig.children {
        None => {
            assert(node.all_values() =~= orig.all_values().remove(w));
        },
        Some(q) => {
            let b = q.bl.descendant_values_seq();
            let c = q.br.descendant_values_seq();
            let d = q.tl.descendant_values_seq();
            let e = q.tr.descendant_values_seq();
            assert(orig.descendant_values_seq() == orig.values@ + b + c + d + e);
            assert(node.descendant_values_seq() == node.values@ + b + c + d + e);
            lemma_concat5_to_multiset(orig.values@, b, c, d, e);
            lemma_concat5_to_multiset(node.values@, b, c, d, e);
            assert(node.all_values() =~= orig.all_values().remove(w));
        },
    }
    assert forall|md: usize| orig.wf(md) implies node.wf(md) by {
        assert(forall|j: int|
            0 <= j < node.values@.len() ==> orig.values@.contains(#[trigger] node.values@[j]));
        match orig.children {
            None => {},
            Some(q) => {
                assert(q.bl.wf(md) && q.br.wf(md) && q.tl.wf(md) && q.tr.wf(md));
            },
        }
    }
}

/// Deleting inside one child removes exactly the returned snapshot from the
/// parent's contents and keeps the parent well-formed.
proof fn lemma_delete_in_child(node: QuadtreeNode, orig: QuadtreeNode, w: AgentSnapshot)
    requires
        node.values@ == orig.values@,
        node.rect == orig.rect,
        node.depth == orig.depth,
        orig.children is Some,
        node.children is Some,
        ({
            let q = node.children.unwrap();
            let q0 = orig.children.unwrap();
            ||| {
                &&& q.bl.all_values() == q0.bl.all_values().remove(w)
                &&& q0.bl.all_values().count(w) > 0
                &&& q.br == q0.br
                &&& q.tl == q0.tl
                &&& q.tr == q0.tr
                &&& q.bl.rect == q0.bl.rect
                &&& q.bl.depth == q0.bl.depth
                &&& forall|md: usize| q0.bl.wf(md) ==> q.bl.wf(md)
            }
            ||| {
                &&& q.br.all_values() == q0.br.all_values().remove(w)
                &&& q0.br.all_values().count(w) > 0
                &&& q.bl == q0.bl
                &&& q.tl == q0.tl
                &&& q.tr == q0.tr
                &&& q.br.rect == q0.br.rect
                &&& q.br.depth == q0.br.depth
                &&& forall|md: usize| q0.br.wf(md) ==> q.br.wf(md)
            }
            ||| {
                &&& q.tl.all_values() == q0.tl.all_values().remove(w)
                &&& q0.tl.all_values().count(w) > 0
                &&& q.bl == q0.bl
                &&& q.br == q0.br
                &&& q.tr == q0.tr
                &&& q.tl.rect == q0.tl.rect
                &&& q.tl.depth == q0.tl.depth
                &&& forall|md: usize| q0.tl.wf(md) ==> q.tl.wf(md)
            }
            ||| {
                &&& q.tr.all_values() == q0.tr.all_values().remove(w)
                &&& q0.tr.all_values().count(w) > 0
                &&& q.bl == q0.bl
                &&& q.br == q0.br
                &&& q.tl == q0.tl
                &&& q.tr.rect == q0.tr.rect
                &&& q.tr.depth == q0.tr.depth
                &&& forall|md: usize| q0.tr.wf(md) ==> q.tr.wf(md)
            }
        }),
    ensures
        orig.all_values().count(w) > 0,
        node.all_values() == orig.all_values().remove(w),
        forall|md: usize| orig.wf(md) ==> node.wf(md),
{
    let q = node.children.unwrap();
    let q0 = orig.children.unwrap();
    assert(orig.descendant_values_seq() == orig.values@ + q0.bl.descendant_values_seq()
        + q0.br.descendant_values_seq() + q0.tl.descendant_values_seq()
        + q0.tr.descendant_values_seq());
    assert(node.descendant_values_seq() == node.values@ + q.bl.descendant_values_seq()
        + q.br.descendant_values_seq() + q.tl.descendant_values_seq()
        + q.tr.descendant_values_seq());
    lemma_concat5_to_multiset(
        orig.values@,
        q0.bl.descendant_values_seq(),
        q0.br.descendant_values_seq(),
        q0.tl.descendant_values_seq(),
        q0.tr.descendant_values_seq(),
    );
    lemma_concat5_to_multiset(
        node.values@,
        q.bl.descendant_values_seq(),
        q.br.descendant_values_seq(),
        q.tl.descendant_values_seq(),
        q.tr.descendant_values_seq(),
    );
    assert(node.all_values() =~= orig.all_values().remove(w));
    assert forall|md: usize| orig.wf(md) implies node.wf(md) by {
        assert(q0.bl.wf(md) && q0.br.wf(md) && q0.tl.wf(md) && q0.tr.wf(md));
        assert(q.bl.wf(md) && q.br.wf(md) && q.tl.wf(md) && q.tr.wf(md));
    }
}

/// After redistribution the node's contents are unchanged as a multiset.
proof fn lemma_distribute_multiset(node: QuadtreeNode, orig: QuadtreeNode)
    requires
        node.children matches Some(q) && q.bl.is_leaf_spec() && q.br.is_leaf_spec()
            && q.tl.is_leaf_spec() && q.tr.is_leaf_spec() && node.values@.to_multiset().add(
            q.bl.values@.to_multiset(),
        ).add(q.br.values@.to_multiset()).add(q.tl.values@.to_multiset()).add(
            q.tr.values@.to_multiset(),
        ) == orig.values@.to_multiset(),
        orig.children matches Some(q0) && q0.bl.is_empty_leaf_spec() && q0.br.is_empty_leaf_spec()
            && q0.tl.is_empty_leaf_spec() && q0.tr.is_empty_leaf_spec(),
    ensures
        node.all_values() == orig.all_values(),
{
    let q = node.children.unwrap();
    let q0 = orig.children.unwrap();
    assert(q.bl.descendant_values_seq() == q.bl.values@);
    assert(q.br.descendant_values_seq() == q.br.values@);
    assert(q.tl.descendant_values_seq() == q.tl.values@);
    assert(q.tr.descendant_values_seq() == q.tr.values@);
    assert(q0.bl.descendant_values_seq() == q0.bl.values@);
    assert(q0.br.descendant_values_seq() == q0.br.values@);
    assert(q0.tl.descendant_values_seq() == q0.tl.values@);
    assert(q0.tr.descendant_values_seq() == q0.tr.values@);
    assert(orig.descendant_values_seq() =~= orig.values@);
    assert(node.descendant_values_seq() == node.values@ + q.bl.values@ + q.br.values@
        + q.tl.values@ + q.tr.values@);
    lemma_concat5_to_multiset(node.values@, q.bl.values@, q.br.values@, q.tl.values@, q.tr.values@);
}

impl Quadtree {
    /// The index invariant: well-formed bounds, and a well-formed root tree
    /// covering exactly those bounds at depth zero.
    pub open spec fn wf(self) -> bool {
        &&& self.rect.wf()
        &&& self.rect.bounded()
        &&& self.root.wf(self.max_depth)
        &&& self.root.rect == self.rect
        &&& self.root.depth == 0
    }

    /// The index's abstract contents: the multiset of stored snapshots.
    pub open spec fn all_values(self) -> Multiset<AgentSnapshot> {
        self.root.all_values()
    }

    /// Total number of stored snapshots.
    pub open spec fn total(self) -> nat {
        self.all_values().len()
    }

    pub open spec fn contains_id_spec(self, id: u64) -> bool {
        self.root.contains_id(id)
    }

    /// A fresh, empty index over fixed world bounds with the given split
    /// threshold and depth ceiling.
    pub fn empty(rect: Rect, threshold: usize, max_depth: usize) -> (t: Quadtree)
        requires
            rect.wf(),
            rect.bounded(),
        ensures
            t.wf(),
            t.rect == rect,
            t.threshold == threshold,
            t.max_depth == max_depth,
            t.all_values() == Multiset::<AgentSnapshot>::empty(),
            t.total() == 0,
    {
        let root = QuadtreeNode::empty(rect, 0);
        proof {
            assert(root.descendant_values_seq().to_multiset() =~= Multiset::<
                AgentSnapshot,
            >::empty());
        }
        Quadtree { rect, threshold, max_depth, root }
    }

    /// Inserts a snapshot. A rectangle not strictly inside the world bounds
    /// is silently rejected: the index comes back entirely unchanged.
    /// Otherwise the contents grow by exactly this snapshot.
    pub fn add(&mut self, value: AgentSnapshot)
        requires
            old(self).wf(),
        ensures
            final(self).wf(),
            final(self).rect == old(self).rect,
            final(self).threshold == old(self).threshold,
            final(self).max_depth == old(self).max_depth,
            rect_contains_rect_spec(old(self).rect, value.rect) ==> final(self).all_values()
                == old(self).all_values().insert(value),
            !rect_contains_rect_spec(old(self).rect, value.rect) ==> *final(self) == *old(self),
            rect_contains_rect_spec(old(self).rect, value.rect) ==> final(self).total() == old(
                self,
            ).total() + 1,
    {
        if self.root.contains_rect(&value.rect) {
            let threshold = self.threshold;
            let max_depth = self.max_depth;
            self.root.add(value, threshold, max_depth);
        }
    }

    /// Removes the stored snapshot matching the query's identity, if any,
    /// and returns it; an absent identity leaves the index unchanged and
    /// returns nothing.
    pub fn delete(&mut self, value: &AgentSnapshot) -> (r: Option<AgentSnapshot>)
        ensures
            final(self).rect == old(self).rect,
            final(self).threshold == old(self).threshold,
            final(self).max_depth == old(self).max_depth,
            old(self).wf() ==> final(self).wf(),
            match r {
                Some(w) => w.id == value.id && old(self).all_values().count(w) > 0
                    && final(self).all_values() == old(self).all_values().remove(w)
                    && final(self).total() + 1 == old(self).total(),
                None => *final(self) == *old(self) && !old(self).contains_id_spec(value.id),
            },
    {
        self.root.delete(value)
    }

    /// Locates the node directly holding a snapshot with the query's
    /// identity.
    pub fn query_value(&self, value: &AgentSnapshot) -> (r: Option<&QuadtreeNode>)
        ensures
            match r {
                Some(n) => self.root.node_in_tree(*n) && seq_has_id(n.values@, value.id)
                    && self.contains_id_spec(value.id),
                None => !self.contains_id_spec(value.id),
            },
    {
        self.root.find_value(value)
    }

    /// Returns the deepest node whose rectangle strictly contains `rect`;
    /// nothing when the world bounds themselves do not contain it.
    pub fn query_rect(&self, rect: &Rect) -> (r: Option<&QuadtreeNode>)
        requires
            self.wf(),
        ensures
            match r {
                Some(n) => self.root.query_rect_spec(*rect) == Some(*n),
                None => self.root.query_rect_spec(*rect) is None,
            },
            r is Some <==> rect_contains_rect_spec(self.rect, *rect),
    {
        self.root.query_rect(rect)
    }

    /// Collapses every subtree of empty leaves; idempotent and contents
    /// preserving.
    pub fn clean_structure(&mut self)
        ensures
            final(self).rect == old(self).rect,
            final(self).threshold == old(self).threshold,
            final(self).max_depth == old(self).max_depth,
            final(self).all_values() == old(self).all_values(),
            final(self).root.fully_cleaned(),
            old(self).root.fully_cleaned() ==> *final(self) == *old(self),
            old(self).wf() ==> final(self).wf(),
    {
        self.root.clean_children();
    }
}

/// Containment invariant: in a well-formed tree, a value stored at any node
/// lies strictly inside that node's rectangle, and it is among the values
/// collected from the root.
pub proof fn lemma_containment(
    root: QuadtreeNode,
    n: QuadtreeNode,
    v: AgentSnapshot,
    max_depth: usize,
)
    requires
        root.wf(max_depth),
        root.node_in_tree(n),
        n.values@.contains(v),
    ensures
        rect_contains_rect_spec(n.rect, v.rect),
        root.all_values().contains(v),
    decreases root,
{
    broadcast use vstd::seq_lib::group_to_multiset_ensures, vstd::multiset::group_multiset_axioms;

    if n == root {
        let i = choose|i: int| 0 <= i < n.values@.len() && n.values@[i] == v;
        assert(rect_contains_rect_spec(n.rect, v.rect));
        match root.children {
            None => {
                assert(root.descendant_values_seq() == root.values@);
                assert(root.descendant_values_seq().contains(v));
            },
            Some(q) => {
                assert(root.descendant_values_seq()[i] == v);
                assert(root.descendant_values_seq().contains(v));
            },
        }
    } else {
        let q = root.children.unwrap();
        assert(root.children is Some);
        lemma_concat5_to_multiset(
            root.values@,
            q.bl.descendant_values_seq(),
            q.br.descendant_values_seq(),
            q.tl.descendant_values_seq(),
            q.tr.descendant_values_seq(),
        );
        if q.bl.node_in_tree(n) {
            lemma_containment(q.bl, n, v, max_depth);
        } else if q.br.node_in_tree(n) {
            lemma_containment(q.br, n, v, max_depth);
        } else if q.tl.node_in_tree(n) {
            lemma_containment(q.tl, n, v, max_depth);
        } else {
            lemma_containment(q.tr, n, v, max_depth);
        }
        assert(root.all_values().count(v) > 0);
    }
}

/// A subtree's contents are contained in the whole tree's: no snapshot
/// occurs more often below `n` than below the root, and `n` holds no more
/// values in total.
pub proof fn lemma_subtree_values(root: QuadtreeNode, n: QuadtreeNode)
    requires
        root.node_in_tree(n),
    ensures
        forall|w: AgentSnapshot| #[trigger] n.all_values().count(w) <= root.all_values().count(w),
        n.descendant_values_seq().len() <= root.descendant_values_seq().len(),
    decreases root,
{
    if n == root {
    } else {
        let q = root.children.unwrap();
        lemma_concat5_to_multiset(
            root.values@,
            q.bl.descendant_values_seq(),
            q.br.descendant_values_seq(),
            q.tl.descendant_values_seq(),
            q.tr.descendant_values_seq(),
        );
        if q.bl.node_in_tree(n) {
            lemma_subtree_values(q.bl, n);
        } else if q.br.node_in_tree(n) {
            lemma_subtree_values(q.br, n);
        } else if q.tl.node_in_tree(n) {
            lemma_subtree_values(q.tl, n);
        } else {
            lemma_subtree_values(q.tr, n);
        }
        assert(root.all_values().len() == root.values@.to_multiset().len()
            + q.bl.all_values().len() + q.br.all_values().len() + q.tl.all_values().len()
            + q.tr.all_values().len());
    }
}

/// Round trip: inserting a snapshot and then deleting by its identity hands
/// back a snapshot of that identity and restores the index's total count.
/// The parameters mirror what `Quadtree::add` and `Quadtree::delete` ensure
/// about the contents.
pub proof fn lemma_insert_delete_round_trip(
    before: Multiset<AgentSnapshot>,
    after_insert: Multiset<AgentSnapshot>,
    after_delete: Multiset<AgentSnapshot>,
    v: AgentSnapshot,
    w: AgentSnapshot,
)
    requires
        after_insert == before.insert(v),
        w.id == v.id,
        after_insert.count(w) > 0,
        after_delete == after_insert.remove(w),
    ensures
        after_delete.len() == before.len(),
{
    broadcast use vstd::multiset::group_multiset_axioms;

    assert(after_insert.len() == before.len() + 1);
    assert(Multiset::singleton(w).subset_of(after_insert));
    assert(after_delete.len() == after_insert.len() - 1);
}

/// Depth ceiling: a well-formed node at the maximum depth is a leaf, and
/// `QuadtreeNode::add` leaves its children untouched no matter how many
/// values accumulate there.
pub proof fn lemma_depth_ceiling(n: QuadtreeNode, max_depth: usize)
    requires
        n.wf(max_depth),
        n.depth >= max_depth,
    ensures
        n.is_leaf_spec(),
{
}

/// The region query's result is a node of the tree, its rectangle strictly
/// contains the query rectangle, and it inherits well-formedness.
pub proof fn lemma_query_rect_props(n: QuadtreeNode, rect: Rect, max_depth: usize)
    requires
        n.wf(max_depth),
        n.query_rect_spec(rect) is Some,
    ensures
        n.node_in_tree(n.query_rect_spec(rect).unwrap()),
        rect_contains_rect_spec(n.query_rect_spec(rect).unwrap().rect, rect),
        n.query_rect_spec(rect).unwrap().wf(max_depth),
    decreases n,
{
    match n.children {
        None => {},
        Some(q) => {
            if q.bl.query_rect_spec(rect) is Some {
                lemma_query_rect_props(q.bl, rect, max_depth);
            } else if q.br.query_rect_spec(rect) is Some {
                lemma_query_rect_props(q.br, rect, max_depth);
            } else if q.tl.query_rect_spec(rect) is Some {
                lemma_query_rect_props(q.tl, rect, max_depth);
            } else if q.tr.query_rect_spec(rect) is Some {
                lemma_query_rect_props(q.tr, rect, max_depth);
            }
        },
    }
}

/// `to_multiset` distributes over a five-way concatenation.
proof fn lemma_concat5_to_multiset(
    a: Seq<AgentSnapshot>,
    b: Seq<AgentSnapshot>,
    c: Seq<AgentSnapshot>,
    d: Seq<AgentSnapshot>,
    e: Seq<AgentSnapshot>,
)
    ensures
        (a + b + c + d + e).to_multiset() == a.to_multiset().add(b.to_multiset()).add(
            c.to_multiset(),
        ).add(d.to_multiset()).add(e.to_multiset()),
{
    vstd::seq_lib::lemma_multiset_commutative(a, b);
    vstd::seq_lib::lemma_multiset_commutative(a + b, c);
    vstd::seq_lib::lemma_multiset_commutative(a + b + c, d);
    vstd::seq_lib::lemma_multiset_commutative(a + b + c + d, e);
}

} // verus!
