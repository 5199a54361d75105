//! The per-tick value object stored in the spatial index: an agent's stable
//! identity, its bounding rectangle, and its velocity at snapshot time.

use crate::rect::{Rect, Vec2i};
use vstd::prelude::*;

verus! {

/// A snapshot of one agent. Identity alone keys the spatial index: two
/// snapshots with the same `id` stand for the same logical agent even when
/// rectangle and velocity have drifted, which is what lets the index
/// find-and-replace "the same agent at its old location" every tick.
#[derive(Clone, Copy, Debug, PartialEq, Eq, Structural)]
pub struct AgentSnapshot {
    pub id: u64,
    pub rect: Rect,
    pub velocity: Vec2i,
}

impl AgentSnapshot {
    pub fn new(id: u64, rect: Rect, velocity: Vec2i) -> (a: AgentSnapshot)
        ensures
            a == (AgentSnapshot { id, rect, velocity }),
    {
        AgentSnapshot { id, rect, velocity }
    }

    pub fn get_rect(&self) -> (r: &Rect)
        ensures
            *r == self.rect,
    {
        &self.rect
    }

    /// Snapshot equality for indexing purposes: identity alone.
    pub fn same_agent(&self, other: &AgentSnapshot) -> (r: bool)
        ensures
            r == (self.id == other.id),
    {
        self.id == other.id
    }
}

/// Some position of the sequence holds a snapshot with the given identity.
pub open spec fn seq_has_id(s: Seq<AgentSnapshot>, id: u64) -> bool {
    exists|i: int| 0 <= i < s.len() && s[i].id == id
}

} // verus!
