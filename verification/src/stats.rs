//! Structural statistics over a quadtree: node count, stored value count,
//! and the sum of node depths (callers divide for averages).

use crate::quadtree::{Quadtree, QuadtreeNode};
use vstd::prelude::*;

verus! {

/// Number of nodes of the subtree, the node itself included.
pub open spec fn count_nodes_spec(n: QuadtreeNode) -> nat
    decreases n,
{
    match n.children {
        None => 1,
        Some(q) => 1 + count_nodes_spec(q.bl) + count_nodes_spec(q.br) + count_nodes_spec(q.tl)
            + count_nodes_spec(q.tr),
    }
}

/// Sum of the depths of all nodes of the subtree.
pub open spec fn sum_depth_spec(n: QuadtreeNode) -> nat
    decreases n,
{
    match n.children {
        None => n.depth as nat,
        Some(q) => (n.depth + sum_depth_spec(q.bl) + sum_depth_spec(q.br) + sum_depth_spec(q.tl)
            + sum_depth_spec(q.tr)) as nat,
    }
}

/// Aggregate figures about a quadtree's structure.
#[derive(Clone, Copy, Debug, PartialEq, Eq, Structural)]
pub struct QuadtreeStats {
    pub num_nodes: usize,
    pub num_values: usize,
    pub total_depth: usize,
}

impl QuadtreeStats {
    /// Walks the tree once and reports how many nodes it has, how many
    /// values it stores, and the summed depth of its nodes.
    pub fn calculate(quadtree: &Quadtree) -> (s: QuadtreeStats)
        requires
            count_nodes_spec(quadtree.root) <= usize::MAX,
            sum_depth_spec(quadtree.root) <= usize::MAX,
            quadtree.root.descendant_values_seq().len() <= usize::MAX,
        ensures
            s.num_nodes == count_nodes_spec(quadtree.root),
            s.num_values == quadtree.root.descendant_values_seq().len(),
            s.num_values == quadtree.total(),
            s.total_depth == sum_depth_spec(quadtree.root),
    {
        proof {
            broadcast use vstd::seq_lib::group_to_multiset_ensures;

        }
        QuadtreeStats {
            num_nodes: count_nodes(&quadtree.root),
            num_values: count_values(&quadtree.root),
            total_depth: sum_depths(&quadtree.root),
        }
    }
}

fn count_nodes(n: &QuadtreeNode) -> (c: usize)
    requires
        count_nodes_spec(*n) <= usize::MAX,
    ensures
        c == count_nodes_spec(*n),
    decreases *n,
{
    match &n.children {
        None => 1,
        Some(q) => {
            let c0 = count_nodes(&q.bl);
            let c1 = count_nodes(&q.br);
            let c2 = count_nodes(&q.tl);
            let c3 = count_nodes(&q.tr);
            1 + c0 + c1 + c2 + c3
        },
    }
}

fn count_values(n: &QuadtreeNode) -> (c: usize)
    requires
        n.descendant_values_seq().len() <= usize::MAX,
    ensures
        c == n.descendant_values_seq().len(),
    decreases *n,
{
    match &n.children {
        None => n.values.len(),
        Some(q) => {
            let c0 = count_values(&q.bl);
            let c1 = count_values(&q.br);
            let c2 = count_values(&q.tl);
            let c3 = count_values(&q.tr);
            n.values.len() + c0 + c1 + c2 + c3
        },
    }
}

fn sum_depths(n: &QuadtreeNode) -> (c: usize)
    requires
        sum_depth_spec(*n) <= usize::MAX,
    ensures
        c == sum_depth_spec(*n),
    decreases *n,
{
    match &n.children {
        None => n.depth,
        Some(q) => {
            let c0 = sum_depths(&q.bl);
            let c1 = sum_depths(&q.br);
            let c2 = sum_depths(&q.tl);
            let c3 = sum_depths(&q.tr);
            n.depth + c0 + c1 + c2 + c3
        },
    }
}

} // verus!
