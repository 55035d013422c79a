//! Addressing panes: one-based positions and directional neighbours.

use vstd::prelude::*;

use crate::layout::PaneRects;
use crate::model::{PaneId, Tab};
use crate::rect::PhysicalRect;

verus! {

/// A direction of travel between panes.
#[derive(Clone, Copy, Debug, PartialEq, Eq, Structural)]
pub enum PaneDirection {
    Left,
    Right,
    Up,
    Down,
}

/// Index of a one-based position; position 0 has none.
pub fn ordinal_index(ordinal: u64) -> (r: Option<usize>)
    ensures
        r == if ordinal == 0 || ordinal - 1 > usize::MAX {
            None::<usize>
        } else {
            Some((ordinal - 1) as usize)
        },
{
    if ordinal == 0 {
        return None;
    }
    let index = ordinal - 1;
    if index <= usize::MAX as u64 {
        Some(index as usize)
    } else {
        None
    }
}

/// Exclusive right edge of a rectangle.
pub fn rect_right(rect: &PhysicalRect) -> (r: i64)
    ensures
        r == rect.right_edge(),
{
    rect.x as i64 + rect.width as i64
}

/// Exclusive bottom edge of a rectangle.
pub fn rect_bottom(rect: &PhysicalRect) -> (r: i64)
    ensures
        r == rect.bottom_edge(),
{
    rect.y as i64 + rect.height as i64
}

/// Ranking of `candidate` as the neighbour of `source` in `direction`, or `None` when it does
/// not lie wholly on that side. Smaller ranks are better: first whether the two are disjoint
/// across the direction of travel (overlapping first), then the gap between them, then how far
/// apart their centres lie across the direction, then the negated overlap (larger first).
pub open spec fn score(source: PhysicalRect, candidate: PhysicalRect, direction: PaneDirection) -> Option<
    (bool, int, int, int),
> {
    let beside = match direction {
        PaneDirection::Left => candidate.right_edge() <= source.x,
        PaneDirection::Right => candidate.x >= source.right_edge(),
        PaneDirection::Up => candidate.bottom_edge() <= source.y,
        PaneDirection::Down => candidate.y >= source.bottom_edge(),
    };
    if !beside {
        None
    } else {
        let gap = match direction {
            PaneDirection::Left => source.x - candidate.right_edge(),
            PaneDirection::Right => candidate.x - source.right_edge(),
            PaneDirection::Up => source.y - candidate.bottom_edge(),
            PaneDirection::Down => candidate.y - source.bottom_edge(),
        };
        let (s0, s1, c0, c1) = match direction {
            PaneDirection::Left | PaneDirection::Right => (
                source.y as int,
                source.bottom_edge(),
                candidate.y as int,
                candidate.bottom_edge(),
            ),
            PaneDirection::Up | PaneDirection::Down => (
                source.x as int,
                source.right_edge(),
                candidate.x as int,
                candidate.right_edge(),
            ),
        };
        let overlap = (if s1 < c1 {
            s1
        } else {
            c1
        }) - (if s0 > c0 {
            s0
        } else {
            c0
        });
        let centre = s0 + s1 - c0 - c1;
        let distance = if centre < 0 {
            -centre
        } else {
            centre
        };
        Some((overlap <= 0, gap, distance, -(if overlap > 0 {
            overlap
        } else {
            0
        })))
    }
}

/// Rank `candidate` as the neighbour of `source` in `direction` (see [`score`]).
pub fn directional_score(source: &PhysicalRect, candidate: &PhysicalRect, direction: PaneDirection) -> (r:
    Option<(bool, i64, i64, i64)>)
    ensures
        r matches Some(v) ==> score(*source, *candidate, direction) == Some(
            (v.0, v.1 as int, v.2 as int, v.3 as int),
        ),
        r is None ==> score(*source, *candidate, direction) is None,
{
    let source_left = source.x as i64;
    let source_top = source.y as i64;
    let source_right = rect_right(source);
    let source_bottom = rect_bottom(source);
    let left = candidate.x as i64;
    let top = candidate.y as i64;
    let right = rect_right(candidate);
    let bottom = rect_bottom(candidate);
    let (gap, s0, s1, c0, c1) = match direction {
        PaneDirection::Left => {
            if right > source_left {
                return None;
            }
            (source_left - right, source_top, source_bottom, top, bottom)
        },
        PaneDirection::Right => {
            if left < source_right {
                return None;
            }
            (left - source_right, source_top, source_bottom, top, bottom)
        },
        PaneDirection::Up => {
            if bottom > source_top {
                return None;
            }
            (source_top - bottom, source_left, source_right, left, right)
        },
        PaneDirection::Down => {
            if top < source_bottom {
                return None;
            }
            (top - source_bottom, source_left, source_right, left, right)
        },
    };
    let low_end = if s1 < c1 {
        s1
    } else {
        c1
    };
    let high_start = if s0 > c0 {
        s0
    } else {
        c0
    };
    let overlap = low_end - high_start;
    let centre = s0 + s1 - c0 - c1;
    let distance = if centre < 0 {
        -centre
    } else {
        centre
    };
    let covered = if overlap > 0 {
        overlap
    } else {
        0
    };
    Some((overlap <= 0, gap, distance, -covered))
}

/// Rank of a candidate together with its pane, the tie-breaker.
pub open spec fn rank(s: (bool, int, int, int), pane: PaneId) -> (int, int, int, int, int) {
    (if s.0 {
        1int
    } else {
        0int
    }, s.1, s.2, s.3, pane.0 as int)
}

/// Lexicographic order on ranks.
pub open spec fn rank_lt(a: (int, int, int, int, int), b: (int, int, int, int, int)) -> bool {
    a.0 < b.0 || (a.0 == b.0 && (a.1 < b.1 || (a.1 == b.1 && (a.2 < b.2 || (a.2 == b.2 && (a.3
        < b.3 || (a.3 == b.3 && a.4 < b.4)))))))
}

/// The rank of entry `i` of a pane table as a neighbour of `source` in `direction`, when it
/// is a candidate: another pane, laid out, wholly on that side.
pub open spec fn candidate_rank(
    panes: Seq<(PaneId, crate::model::WindowId)>,
    rects: PaneRects,
    source_rect: PhysicalRect,
    source: PaneId,
    direction: PaneDirection,
    i: int,
) -> Option<(int, int, int, int, int)> {
    let pane = panes[i].0;
    if pane == source {
        None
    } else {
        match rects.lookup(pane) {
            None => None,
            Some(rect) => match score(source_rect, rect, direction) {
                None => None,
                Some(s) => Some(rank(s, pane)),
            },
        }
    }
}

/// Whether entry `i` of a pane table is a candidate that no other candidate outranks.
pub open spec fn is_nearest(
    panes: Seq<(PaneId, crate::model::WindowId)>,
    rects: PaneRects,
    source_rect: PhysicalRect,
    source: PaneId,
    direction: PaneDirection,
    i: int,
) -> bool {
    match candidate_rank(panes, rects, source_rect, source, direction, i) {
        None => false,
        Some(best) => forall|j: int|
            0 <= j < panes.len() ==> match #[trigger] candidate_rank(
                panes,
                rects,
                source_rect,
                source,
                direction,
                j,
            ) {
                Some(other) => !rank_lt(other, best),
                None => true,
            },
    }
}

/// Whether `candidate` lies wholly on the `direction` side of `source`.
pub open spec fn lies_beyond(source: PhysicalRect, candidate: PhysicalRect, direction: PaneDirection) -> bool {
    match direction {
        PaneDirection::Left => candidate.right_edge() <= source.x,
        PaneDirection::Right => candidate.x >= source.right_edge(),
        PaneDirection::Up => candidate.bottom_edge() <= source.y,
        PaneDirection::Down => candidate.y >= source.bottom_edge(),
    }
}

/// The empty space between `source` and `candidate` along the direction of travel.
pub open spec fn travel_gap(source: PhysicalRect, candidate: PhysicalRect, direction: PaneDirection) -> int {
    match direction {
        PaneDirection::Left => source.x - candidate.right_edge(),
        PaneDirection::Right => candidate.x - source.right_edge(),
        PaneDirection::Up => source.y - candidate.bottom_edge(),
        PaneDirection::Down => candidate.y - source.bottom_edge(),
    }
}

/// Whether `source` and `candidate` share a stretch of positive length across the direction
/// of travel (rows for left and right, columns for up and down).
pub open spec fn side_by_side(source: PhysicalRect, candidate: PhysicalRect, direction: PaneDirection) -> bool {
    match direction {
        PaneDirection::Left | PaneDirection::Right => {
            &&& candidate.y < source.bottom_edge()
            &&& source.y < candidate.bottom_edge()
            &&& source.height > 0
            &&& candidate.height > 0
        },
        PaneDirection::Up | PaneDirection::Down => {
            &&& candidate.x < source.right_edge()
            &&& source.x < candidate.right_edge()
            &&& source.width > 0
            &&& candidate.width > 0
        },
    }
}

proof fn lemma_score_parts(source: PhysicalRect, candidate: PhysicalRect, direction: PaneDirection)
    requires
        lies_beyond(source, candidate, direction),
    ensures
        score(source, candidate, direction) is Some,
        (score(source, candidate, direction)->0).0 == !side_by_side(source, candidate, direction),
        (score(source, candidate, direction)->0).1 == travel_gap(source, candidate, direction),
{
    let (s0, s1, c0, c1) = match direction {
        PaneDirection::Left | PaneDirection::Right => (
            source.y as int,
            source.bottom_edge(),
            candidate.y as int,
            candidate.bottom_edge(),
        ),
        PaneDirection::Up | PaneDirection::Down => (
            source.x as int,
            source.right_edge(),
            candidate.x as int,
            candidate.right_edge(),
        ),
    };
    let lo = if s1 < c1 {
        s1
    } else {
        c1
    };
    let hi = if s0 > c0 {
        s0
    } else {
        c0
    };
    assert((lo - hi <= 0) == !(c0 < s1 && s0 < c1 && s0 < s1 && c0 < c1));
    assert(side_by_side(source, candidate, direction) == (c0 < s1 && s0 < c1 && s0 < s1 && c0 < c1));
}

/// The nearest neighbour is never farther away than another pane on that side: a pane that is
/// side by side with the source (or not) as the nearest one is, never lies closer along the
/// direction of travel.
pub proof fn lemma_nearest_has_the_least_gap(
    panes: Seq<(PaneId, crate::model::WindowId)>,
    rects: PaneRects,
    source_rect: PhysicalRect,
    source: PaneId,
    direction: PaneDirection,
    i: int,
    j: int,
)
    requires
        0 <= i < panes.len(),
        0 <= j < panes.len(),
        is_nearest(panes, rects, source_rect, source, direction, i),
        panes[j].0 != source,
        rects.lookup(panes[j].0) is Some,
        lies_beyond(source_rect, rects.lookup(panes[j].0)->0, direction),
        side_by_side(source_rect, rects.lookup(panes[i].0)->0, direction) == side_by_side(
            source_rect,
            rects.lookup(panes[j].0)->0,
            direction,
        ),
    ensures
        rects.lookup(panes[i].0) is Some,
        lies_beyond(source_rect, rects.lookup(panes[i].0)->0, direction),
        travel_gap(source_rect, rects.lookup(panes[i].0)->0, direction) <= travel_gap(
            source_rect,
            rects.lookup(panes[j].0)->0,
            direction,
        ),
{
    let ri = rects.lookup(panes[i].0)->0;
    let rj = rects.lookup(panes[j].0)->0;
    assert(candidate_rank(panes, rects, source_rect, source, direction, j) is Some);
    assert(candidate_rank(panes, rects, source_rect, source, direction, i) is Some);
    lemma_score_parts(source_rect, ri, direction);
    lemma_score_parts(source_rect, rj, direction);
    let si = score(source_rect, ri, direction)->0;
    let sj = score(source_rect, rj, direction)->0;
    assert(si.0 == !side_by_side(source_rect, ri, direction));
    assert(sj.0 == !side_by_side(source_rect, rj, direction));
    assert(si.1 == travel_gap(source_rect, ri, direction));
    assert(sj.1 == travel_gap(source_rect, rj, direction));
    assert(!rank_lt(rank(sj, panes[j].0), rank(si, panes[i].0)));
}

/// A pane side by side with the source is always preferred: when any pane on that side shares
/// a stretch with the source across the direction of travel, so does the nearest one.
pub proof fn lemma_nearest_prefers_side_by_side(
    panes: Seq<(PaneId, crate::model::WindowId)>,
    rects: PaneRects,
    source_rect: PhysicalRect,
    source: PaneId,
    direction: PaneDirection,
    i: int,
    j: int,
)
    requires
        0 <= i < panes.len(),
        0 <= j < panes.len(),
        is_nearest(panes, rects, source_rect, source, direction, i),
        panes[j].0 != source,
        rects.lookup(panes[j].0) is Some,
        lies_beyond(source_rect, rects.lookup(panes[j].0)->0, direction),
        side_by_side(source_rect, rects.lookup(panes[j].0)->0, direction),
    ensures
        rects.lookup(panes[i].0) is Some,
        panes[i].0 != source,
        side_by_side(source_rect, rects.lookup(panes[i].0)->0, direction),
{
    let ri = rects.lookup(panes[i].0)->0;
    let rj = rects.lookup(panes[j].0)->0;
    assert(candidate_rank(panes, rects, source_rect, source, direction, j) is Some);
    assert(candidate_rank(panes, rects, source_rect, source, direction, i) is Some);
    lemma_score_parts(source_rect, ri, direction);
    lemma_score_parts(source_rect, rj, direction);
    let si = score(source_rect, ri, direction)->0;
    let sj = score(source_rect, rj, direction)->0;
    assert(!rank_lt(rank(sj, panes[j].0), rank(si, panes[i].0)));
}

/// The pane of `tab` that is the nearest neighbour of `source` in `direction`, using the laid
/// out rectangles `rects`: among the other panes lying wholly on that side, the one of least
/// [`rank`] (overlap first, then gap, centre distance, overlap size and pane number). `None`
/// when `source` has no rectangle or no pane lies on that side.
pub fn directional_neighbor<W>(
    tab: &Tab<W>,
    rects: &PaneRects,
    source: PaneId,
    direction: PaneDirection,
) -> (r: Option<PaneId>)
    ensures
        match rects.lookup(source) {
            None => r is None,
            Some(source_rect) => match r {
                None => forall|i: int|
                    0 <= i < tab.panes@.len() ==> (#[trigger] candidate_rank(
                        tab.panes@,
                        *rects,
                        source_rect,
                        source,
                        direction,
                        i,
                    )) is None,
                Some(p) => exists|i: int|
                    0 <= i < tab.panes@.len() && tab.panes@[i].0 == p && #[trigger] is_nearest(
                        tab.panes@,
                        *rects,
                        source_rect,
                        source,
                        direction,
                        i,
                    ),
            },
        },
{
    let source_rect = match rects.get(source) {
        Some(rect) => rect,
        None => return None,
    };
    let mut best: Option<(bool, i64, i64, i64, PaneId)> = None;
    let ghost mut best_index: int = 0;
    let mut i: usize = 0;
    while i < tab.panes.len()
        invariant
            i <= tab.panes@.len(),
            rects.lookup(source) == Some(source_rect),
            match best {
                None => forall|j: int|
                    0 <= j < i ==> (#[trigger] candidate_rank(tab.panes@, *rects, source_rect, source, direction, j)) is None,
                Some(b) => {
                    &&& 0 <= best_index < i
                    &&& tab.panes@[best_index].0 == b.4
                    &&& candidate_rank(tab.panes@, *rects, source_rect, source, direction, best_index)
                        == Some(rank((b.0, b.1 as int, b.2 as int, b.3 as int), b.4))
                    &&& forall|j: int|
                        0 <= j < i ==> match #[trigger] candidate_rank(
                            tab.panes@,
                            *rects,
                            source_rect,
                            source,
                            direction,
                            j,
                        ) {
                            Some(other) => !rank_lt(
                                other,
                                rank((b.0, b.1 as int, b.2 as int, b.3 as int), b.4),
                            ),
                            None => true,
                        }
                },
            },
        decreases tab.panes@.len() - i,
    {
        let pane = tab.panes[i].0;
        if pane.0 != source.0 {
            if let Some(rect) = rects.get(pane) {
                if let Some(s) = directional_score(&source_rect, &rect, direction) {
                    let better = match best {
                        None => true,
                        Some(b) => (!s.0 && b.0) || (s.0 == b.0 && (s.1 < b.1 || (s.1 == b.1 && (
                        s.2 < b.2 || (s.2 == b.2 && (s.3 < b.3 || (s.3 == b.3 && pane.0 < b.4.0)))))))
                    };
                    if better {
                        best = Some((s.0, s.1, s.2, s.3, pane));
                        proof {
                            best_index = i as int;
                        }
                    }
                }
            }
        }
        i = i + 1;
    }
    match best {
        Some(b) => {
            proof {
                assert(is_nearest(tab.panes@, *rects, source_rect, source, direction, best_index));
            }
            Some(b.4)
        },
        None => None,
    }
}

} // verus!
