//! Axis-aligned rectangle geometry: containment, subdivision into four
//! quadrants, and scaling about the centre. Pure value types; every
//! transformation returns a new rectangle.

use vstd::prelude::*;

verus! {

/// Largest absolute coordinate the geometry is specified for; keeps every
/// intermediate product of the rectangle and force arithmetic inside `i64`.
pub const COORD_LIMIT: i64 = 1_000_000_000;

/// A two-dimensional integer vector.
#[derive(Clone, Copy, Debug, PartialEq, Eq, Structural)]
pub struct Vec2i {
    pub x: i64,
    pub y: i64,
}

/// An axis-aligned rectangle given by its two extreme corners.
/// Well-formed when `min.x <= max.x` and `min.y <= max.y`.
#[derive(Clone, Copy, Debug, PartialEq, Eq, Structural)]
pub struct Rect {
    pub min: Vec2i,
    pub max: Vec2i,
}

impl Vec2i {
    pub open spec fn bounded(self) -> bool {
        -COORD_LIMIT <= self.x <= COORD_LIMIT && -COORD_LIMIT <= self.y <= COORD_LIMIT
    }

    pub fn new(x: i64, y: i64) -> (v: Vec2i)
        ensures
            v == (Vec2i { x, y }),
    {
        Vec2i { x, y }
    }
}

impl Rect {
    /// The rectangle invariant: the corners are ordered on both axes.
    pub open spec fn wf(self) -> bool {
        self.min.x <= self.max.x && self.min.y <= self.max.y
    }

    pub open spec fn bounded(self) -> bool {
        self.min.bounded() && self.max.bounded()
    }

    /// Signed area (non-negative for a well-formed rectangle).
    pub open spec fn area(self) -> int {
        (self.max.x - self.min.x) * (self.max.y - self.min.y)
    }

    /// Midpoint of the rectangle, rounded toward `min` on each axis.
    pub open spec fn center_spec(self) -> Vec2i
        recommends
            self.wf(),
    {
        Vec2i {
            x: (self.min.x + (self.max.x - self.min.x) / 2) as i64,
            y: (self.min.y + (self.max.y - self.min.y) / 2) as i64,
        }
    }
}

/// A point lies strictly inside a rectangle (boundary points do not count).
pub open spec fn rect_contains_point_spec(rect: Rect, p: Vec2i) -> bool {
    rect.min.x < p.x < rect.max.x && rect.min.y < p.y < rect.max.y
}

/// Strict containment of one rectangle in another: both extreme corners of
/// `other` lie strictly inside `rect`, so rectangles sharing an edge are not
/// contained. The strictness gives each stored rectangle an unambiguous owner
/// when quadrants share edges.
pub open spec fn rect_contains_rect_spec(rect: Rect, other: Rect) -> bool {
    rect_contains_point_spec(rect, other.min) && rect_contains_point_spec(rect, other.max)
}

/// Membership in the half-open box `[min.x, max.x) x [min.y, max.y)`; the
/// partition laws are stated over this point set.
pub open spec fn in_rect_half_open(rect: Rect, px: int, py: int) -> bool {
    rect.min.x <= px < rect.max.x && rect.min.y <= py < rect.max.y
}

pub fn rect_contains_point(rect: &Rect, point: &Vec2i) -> (r: bool)
    ensures
        r == rect_contains_point_spec(*rect, *point),
{
    rect.min.x < point.x && point.x < rect.max.x && rect.min.y < point.y && point.y < rect.max.y
}

pub fn rect_contains_rect(rect: &Rect, other: &Rect) -> (r: bool)
    ensures
        r == rect_contains_rect_spec(*rect, *other),
{
    rect_contains_point(rect, &other.min) && rect_contains_point(rect, &other.max)
}

/// The four quadrants of a rectangle around its midpoint, in a fixed order:
/// bottom-left, bottom-right, top-left, top-right. On each axis the low
/// quadrants end at the midpoint and the high quadrants start there, so the
/// four exactly tile the parent.
pub open spec fn partition_rect_spec(rect: Rect) -> Seq<Rect>
    recommends
        rect.wf(),
{
    let c = rect.center_spec();
    seq![
        Rect { min: rect.min, max: c },
        Rect { min: Vec2i { x: c.x, y: rect.min.y }, max: Vec2i { x: rect.max.x, y: c.y } },
        Rect { min: Vec2i { x: rect.min.x, y: c.y }, max: Vec2i { x: c.x, y: rect.max.y } },
        Rect { min: c, max: rect.max },
    ]
}

pub fn partition_rect(rect: &Rect) -> (quads: [Rect; 4])
    requires
        rect.wf(),
        rect.bounded(),
    ensures
        quads@ == partition_rect_spec(*rect),
        forall|i: int| 0 <= i < 4 ==> (#[trigger] quads@[i]).wf() && quads@[i].bounded(),
{
    let cx = rect.min.x + (rect.max.x - rect.min.x) / 2;
    let cy = rect.min.y + (rect.max.y - rect.min.y) / 2;
    let c = Vec2i { x: cx, y: cy };
    let quads = [
        Rect { min: rect.min, max: c },
        Rect { min: Vec2i { x: cx, y: rect.min.y }, max: Vec2i { x: rect.max.x, y: cy } },
        Rect { min: Vec2i { x: rect.min.x, y: cy }, max: Vec2i { x: cx, y: rect.max.y } },
        Rect { min: c, max: rect.max },
    ];
    proof {
        assert(quads@ =~= partition_rect_spec(*rect));
    }
    quads
}

/// Builds the bounding rectangle of an agent from its position (the low
/// corner) and its size.
pub fn transform_to_rect(translation: Vec2i, scale: Vec2i) -> (r: Rect)
    requires
        translation.bounded(),
        0 <= scale.x <= COORD_LIMIT,
        0 <= scale.y <= COORD_LIMIT,
    ensures
        r.min == translation,
        r.max.x == translation.x + scale.x,
        r.max.y == translation.y + scale.y,
        r.wf(),
{
    Rect {
        min: translation,
        max: Vec2i { x: translation.x + scale.x, y: translation.y + scale.y },
    }
}

/// `magnify_rect` scaled about the centre, with per-mille factors.
pub open spec fn magnify_rect_spec(rect: Rect, scale_milli: Vec2i) -> Rect
    recommends
        rect.wf(),
        scale_milli.x >= 0 && scale_milli.y >= 0,
{
    let c = rect.center_spec();
    let half_x = (rect.max.x - rect.min.x) / 2;
    let half_y = (rect.max.y - rect.min.y) / 2;
    let new_half_x = half_x * scale_milli.x / 1000;
    let new_half_y = half_y * scale_milli.y / 1000;
    Rect {
        min: Vec2i { x: (c.x - new_half_x) as i64, y: (c.y - new_half_y) as i64 },
        max: Vec2i { x: (c.x + new_half_x) as i64, y: (c.y + new_half_y) as i64 },
    }
}

/// Returns a rectangle with the same centre as `rect`, its half-extent on
/// each axis scaled by `scale_milli / 1000`; used to build the detection
/// window around an agent's own bounds.
pub fn magnify_rect(rect: &Rect, scale_milli: Vec2i) -> (r: Rect)
    requires
        rect.wf(),
        rect.bounded(),
        0 <= scale_milli.x <= 1_000_000,
        0 <= scale_milli.y <= 1_000_000,
    ensures
        r == magnify_rect_spec(*rect, scale_milli),
        r.wf(),
{
    let half_x = (rect.max.x - rect.min.x) / 2;
    let half_y = (rect.max.y - rect.min.y) / 2;
    proof {
        assert(0 <= half_x <= COORD_LIMIT);
        assert(0 <= half_y <= COORD_LIMIT);
        assert(half_x * scale_milli.x <= COORD_LIMIT * 1_000_000) by (nonlinear_arith)
            requires
                0 <= half_x <= COORD_LIMIT,
                0 <= scale_milli.x <= 1_000_000,
        ;
        assert(half_y * scale_milli.y <= COORD_LIMIT * 1_000_000) by (nonlinear_arith)
            requires
                0 <= half_y <= COORD_LIMIT,
                0 <= scale_milli.y <= 1_000_000,
        ;
        assert(half_x * scale_milli.x >= 0) by (nonlinear_arith)
            requires
                half_x >= 0 && scale_milli.x >= 0,
        ;
        assert(half_y * scale_milli.y >= 0) by (nonlinear_arith)
            requires
                half_y >= 0 && scale_milli.y >= 0,
        ;
    }
    let cx = rect.min.x + half_x;
    let cy = rect.min.y + half_y;
    let new_half_x = half_x * scale_milli.x / 1000;
    let new_half_y = half_y * scale_milli.y / 1000;
    Rect {
        min: Vec2i { x: cx - new_half_x, y: cy - new_half_y },
        max: Vec2i { x: cx + new_half_x, y: cy + new_half_y },
    }
}

/// The four quadrants cover exactly the parent's half-open point set: a point
/// lies in the parent iff it lies in one of the quadrants.
pub proof fn lemma_partition_covers(rect: Rect, px: int, py: int)
    requires
        rect.wf(),
    ensures
        in_rect_half_open(rect, px, py) <==> exists|i: int|
            0 <= i < 4 && in_rect_half_open(#[trigger] partition_rect_spec(rect)[i], px, py),
{
    let q = partition_rect_spec(rect);
    let c = rect.center_spec();
    if in_rect_half_open(rect, px, py) {
        if px < c.x {
            if py < c.y {
                assert(in_rect_half_open(q[0], px, py));
            } else {
                assert(in_rect_half_open(q[2], px, py));
            }
        } else {
            if py < c.y {
                assert(in_rect_half_open(q[1], px, py));
            } else {
                assert(in_rect_half_open(q[3], px, py));
            }
        }
    }
}

/// No two quadrants share a point of the half-open partition.
pub proof fn lemma_partition_disjoint(rect: Rect, i: int, j: int, px: int, py: int)
    requires
        rect.wf(),
        0 <= i < 4,
        0 <= j < 4,
        i != j,
    ensures
        !(in_rect_half_open(partition_rect_spec(rect)[i], px, py)
            && in_rect_half_open(partition_rect_spec(rect)[j], px, py)),
{
}

/// At most one quadrant strictly contains any given rectangle, so a value
/// pushed down during a split has a unique destination.
pub proof fn lemma_quadrant_containment_unique(rect: Rect, inner: Rect, i: int, j: int)
    requires
        rect.wf(),
        0 <= i < 4,
        0 <= j < 4,
        i != j,
        rect_contains_rect_spec(partition_rect_spec(rect)[i], inner),
    ensures
        !rect_contains_rect_spec(partition_rect_spec(rect)[j], inner),
{
    let qi = partition_rect_spec(rect)[i];
    let qj = partition_rect_spec(rect)[j];
    assert(in_rect_half_open(qi, inner.min.x as int, inner.min.y as int));
    if rect_contains_rect_spec(qj, inner) {
        assert(in_rect_half_open(qj, inner.min.x as int, inner.min.y as int));
        lemma_partition_disjoint(rect, i, j, inner.min.x as int, inner.min.y as int);
    }
}

/// The areas of the four quadrants sum exactly to the parent's area.
pub proof fn lemma_partition_area(rect: Rect)
    requires
        rect.wf(),
    ensures
        partition_rect_spec(rect)[0].area() + partition_rect_spec(rect)[1].area()
            + partition_rect_spec(rect)[2].area() + partition_rect_spec(rect)[3].area()
            == rect.area(),
{
    let c = rect.center_spec();
    let wl = c.x - rect.min.x;
    let wr = rect.max.x - c.x;
    let hb = c.y - rect.min.y;
    let ht = rect.max.y - c.y;
    assert(wl * hb + wr * hb + wl * ht + wr * ht == (wl + wr) * (hb + ht)) by (nonlinear_arith);
}

} // verus!
