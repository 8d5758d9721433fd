//! Corner manipulation on signal lines.
//!
//! A line's corners are a list of offsets, each relative to the previous
//! corner (the first one relative to the source port), so a corner's position
//! is the sum of the offsets up to it.  The operations here keep the
//! positions downstream of the corner they touch.

use crate::model::{Branch, Line, Point};
use vstd::prelude::*;

verus! {

/// Whether `v` fits in an `i32`.
pub open spec fn fits(v: int) -> bool {
    i32::MIN <= v <= i32::MAX
}

/// The x coordinate of the position after the first `k` offsets.
pub open spec fn cum_x(ps: Seq<Point>, k: int) -> int
    decreases k,
{
    if k <= 0 || k > ps.len() {
        0
    } else {
        cum_x(ps, k - 1) + ps[k - 1].x
    }
}

/// The y coordinate of the position after the first `k` offsets.
pub open spec fn cum_y(ps: Seq<Point>, k: int) -> int
    decreases k,
{
    if k <= 0 || k > ps.len() {
        0
    } else {
        cum_y(ps, k - 1) + ps[k - 1].y
    }
}

/// The offsets after a corner `offset` is inserted at `index`: the offset
/// that followed is reduced by it; nothing changes when `index` is past the
/// end.
pub open spec fn inserted(ps: Seq<Point>, index: int, offset: Point) -> Seq<Point> {
    if index > ps.len() {
        ps
    } else if index == ps.len() {
        ps.push(offset)
    } else {
        ps.update(index, Point { x: (ps[index].x - offset.x) as i32, y: (ps[index].y - offset.y) as i32 }).insert(
            index,
            offset,
        )
    }
}

/// Inserts a corner with the given offset at `index`, adjusting the next
/// corner so that every position downstream stays where it was.  Nothing
/// happens when `index` is past the end.
pub fn insert_corner(points: &mut Vec<Point>, index: usize, offset: Point)
    requires
        index < old(points)@.len() ==> fits(old(points)@[index as int].x - offset.x) && fits(
            old(points)@[index as int].y - offset.y,
        ),
    ensures
        final(points)@ == inserted(old(points)@, index as int, offset),
{
    if index > points.len() {
        return;
    }
    if index < points.len() {
        let next = points[index];
        points.set(index, Point { x: next.x - offset.x, y: next.y - offset.y });
    }
    points.insert(index, offset);
}

/// The offsets after the corner at `index` is removed, its offset merged
/// into the next one; nothing changes when `index` is out of range.
pub open spec fn removed(ps: Seq<Point>, index: int) -> Seq<Point> {
    if index < 0 || index >= ps.len() {
        ps
    } else if index + 1 < ps.len() {
        ps.update(
            index + 1,
            Point { x: (ps[index + 1].x + ps[index].x) as i32, y: (ps[index + 1].y + ps[index].y) as i32 },
        ).remove(index)
    } else {
        ps.remove(index)
    }
}

/// Removes the corner at `index`, merging its offset into the next corner so
/// that the positions downstream are kept; returns the removed offset (to
/// undo the removal), or `None` when `index` is out of range.
pub fn remove_corner(points: &mut Vec<Point>, index: usize) -> (r: Option<Point>)
    requires
        index + 1 < old(points)@.len() ==> fits(
            old(points)@[index + 1].x + old(points)@[index as int].x,
        ) && fits(old(points)@[index + 1].y + old(points)@[index as int].y),
    ensures
        r == (if index < old(points)@.len() {
            Some(old(points)@[index as int])
        } else {
            None::<Point>
        }),
        final(points)@ == removed(old(points)@, index as int),
{
    if index >= points.len() {
        return None;
    }
    let ghost start = points@;
    let removed_point = points.remove(index);
    if index < points.len() {
        let next = points[index];
        points.set(index, Point { x: next.x + removed_point.x, y: next.y + removed_point.y });
        assert(points@ =~= removed(start, index as int));
    } else {
        assert(points@ =~= removed(start, index as int));
    }
    Some(removed_point)
}

proof fn lemma_cum_prefix(a: Seq<Point>, b: Seq<Point>, k: int)
    requires
        0 <= k <= a.len(),
        k <= b.len(),
        forall|i: int| 0 <= i < k ==> a[i] == b[i],
    ensures
        cum_x(a, k) == cum_x(b, k),
        cum_y(a, k) == cum_y(b, k),
    decreases k,
{
    if k > 0 {
        lemma_cum_prefix(a, b, k - 1);
    }
}

proof fn lemma_cum_shift(a: Seq<Point>, b: Seq<Point>, k: int, s: int, dx: int, dy: int)
    requires
        s <= k <= a.len(),
        0 <= s,
        k + 1 <= b.len(),
        cum_x(b, s + 1) == cum_x(a, s) + dx,
        cum_y(b, s + 1) == cum_y(a, s) + dy,
        forall|i: int| s <= i < a.len() && i + 1 < b.len() ==> b[i + 1] == a[i],
    ensures
        cum_x(b, k + 1) == cum_x(a, k) + dx,
        cum_y(b, k + 1) == cum_y(a, k) + dy,
    decreases k - s,
{
    if k > s {
        lemma_cum_shift(a, b, k - 1, s, dx, dy);
    }
}

/// Inserting a corner keeps every position before it and every position
/// after it, and puts the new corner at the old position plus its offset.
pub proof fn lemma_insert_keeps_positions(ps: Seq<Point>, index: int, offset: Point)
    requires
        0 <= index < ps.len(),
        fits(ps[index].x - offset.x),
        fits(ps[index].y - offset.y),
    ensures
        inserted(ps, index, offset).len() == ps.len() + 1,
        forall|k: int| 0 <= k <= index ==> cum_x(#[trigger] inserted(ps, index, offset), k) == cum_x(ps, k)
            && cum_y(inserted(ps, index, offset), k) == cum_y(ps, k),
        cum_x(inserted(ps, index, offset), index + 1) == cum_x(ps, index) + offset.x,
        cum_y(inserted(ps, index, offset), index + 1) == cum_y(ps, index) + offset.y,
        forall|k: int| index < k <= ps.len() ==> cum_x(#[trigger] inserted(ps, index, offset), k + 1) == cum_x(ps, k)
            && cum_y(inserted(ps, index, offset), k + 1) == cum_y(ps, k),
{
    let n = inserted(ps, index, offset);
    assert forall|k: int| 0 <= k <= index implies cum_x(n, k) == cum_x(ps, k) && cum_y(n, k) == cum_y(ps, k) by {
        lemma_cum_prefix(n, ps, k);
    }
    lemma_cum_prefix(n, ps, index);
    assert(n[index] == offset);
    assert(n[index + 1].x == ps[index].x - offset.x);
    assert(n[index + 1].y == ps[index].y - offset.y);
    assert(cum_x(n, index + 1) == cum_x(n, index) + n[index].x);
    assert(cum_y(n, index + 1) == cum_y(n, index) + n[index].y);
    assert(cum_x(n, index + 2) == cum_x(n, index + 1) + n[index + 1].x);
    assert(cum_y(n, index + 2) == cum_y(n, index + 1) + n[index + 1].y);
    assert(cum_x(ps, index + 1) == cum_x(ps, index) + ps[index].x);
    assert(cum_y(ps, index + 1) == cum_y(ps, index) + ps[index].y);
    assert(cum_x(n, index + 1) == cum_x(ps, index) + offset.x);
    assert(cum_x(n, index + 2) == cum_x(ps, index + 1));
    assert(cum_y(n, index + 2) == cum_y(ps, index + 1));
    assert forall|k: int| index < k <= ps.len() implies cum_x(n, k + 1) == cum_x(ps, k) && cum_y(n, k + 1) == cum_y(ps, k) by {
        lemma_cum_shift(ps, n, k, index + 1, 0, 0);
    }
}

/// Removing a corner keeps every position before it and every position
/// after it.
pub proof fn lemma_remove_keeps_positions(ps: Seq<Point>, index: int)
    requires
        0 <= index,
        index + 1 < ps.len(),
        fits(ps[index + 1].x + ps[index].x),
        fits(ps[index + 1].y + ps[index].y),
    ensures
        removed(ps, index).len() == ps.len() - 1,
        forall|k: int| 0 <= k <= index ==> cum_x(#[trigger] removed(ps, index), k) == cum_x(ps, k)
            && cum_y(removed(ps, index), k) == cum_y(ps, k),
        forall|k: int| index < k < ps.len() ==> cum_x(#[trigger] removed(ps, index), k) == cum_x(ps, k + 1)
            && cum_y(removed(ps, index), k) == cum_y(ps, k + 1),
{
    let n = removed(ps, index);
    assert forall|k: int| 0 <= k <= index implies cum_x(n, k) == cum_x(ps, k) && cum_y(n, k) == cum_y(ps, k) by {
        lemma_cum_prefix(n, ps, k);
    }
    lemma_cum_prefix(n, ps, index);
    assert(n[index].x == ps[index + 1].x + ps[index].x);
    assert(n[index].y == ps[index + 1].y + ps[index].y);
    assert(cum_x(n, index + 1) == cum_x(n, index) + n[index].x);
    assert(cum_y(n, index + 1) == cum_y(n, index) + n[index].y);
    assert(cum_x(ps, index + 2) == cum_x(ps, index + 1) + ps[index + 1].x);
    assert(cum_y(ps, index + 2) == cum_y(ps, index + 1) + ps[index + 1].y);
    assert(cum_x(ps, index + 1) == cum_x(ps, index) + ps[index].x);
    assert(cum_y(ps, index + 1) == cum_y(ps, index) + ps[index].y);
    assert(cum_x(n, index + 1) == cum_x(ps, index + 2));
    assert(cum_y(n, index + 1) == cum_y(ps, index + 2));
    assert forall|k: int| index < k < ps.len() implies cum_x(n, k) == cum_x(ps, k + 1) && cum_y(n, k) == cum_y(ps, k + 1) by {
        lemma_cum_shift(n, ps, k, index + 1, 0, 0);
    }
}

/// Removing the corner just inserted gives back its offset and the corners
/// as they were before the insertion.
pub proof fn lemma_remove_undoes_insert(ps: Seq<Point>, index: int, offset: Point)
    requires
        0 <= index <= ps.len(),
        index < ps.len() ==> fits(ps[index].x - offset.x) && fits(ps[index].y - offset.y),
    ensures
        removed(inserted(ps, index, offset), index) == ps,
        inserted(ps, index, offset)[index] == offset,
{
    let n = inserted(ps, index, offset);
    assert(removed(n, index) =~= ps);
}

/// Inserting the offset a removal returned undoes the removal.
pub proof fn lemma_insert_undoes_remove(ps: Seq<Point>, index: int)
    requires
        0 <= index < ps.len(),
        index + 1 < ps.len() ==> fits(ps[index + 1].x + ps[index].x) && fits(
            ps[index + 1].y + ps[index].y,
        ),
    ensures
        inserted(removed(ps, index), index, ps[index]) == ps,
{
    assert(inserted(removed(ps, index), index, ps[index]) =~= ps);
}

/// The corners of a line after the block at one of its ends moved by
/// `(dx, dy)`: when the source moved the first offset shrinks by the move
/// (so the first corner stays put), when the destination moved the last
/// offset grows by it (so the line still reaches it); a line without corners
/// gets one that absorbs the move.  A zero move changes nothing.
pub open spec fn adjusted_points(ps: Seq<Point>, is_source: bool, dx: i32, dy: i32) -> Seq<Point> {
    if dx == 0 && dy == 0 {
        ps
    } else if is_source {
        if ps.len() > 0 {
            ps.update(0, Point { x: (ps[0].x - dx) as i32, y: (ps[0].y - dy) as i32 })
        } else {
            seq![Point { x: -dx as i32, y: -dy as i32 }]
        }
    } else {
        if ps.len() > 0 {
            ps.update(
                ps.len() - 1,
                Point { x: (ps.last().x + dx) as i32, y: (ps.last().y + dy) as i32 },
            )
        } else {
            seq![Point { x: dx, y: dy }]
        }
    }
}

/// Whether moving an end of a line with these corners by `(dx, dy)` stays
/// within `i32`.
pub open spec fn adjust_fits(ps: Seq<Point>, is_source: bool, dx: i32, dy: i32) -> bool {
    if is_source {
        if ps.len() > 0 {
            fits(ps[0].x - dx) && fits(ps[0].y - dy)
        } else {
            fits(-dx) && fits(-dy)
        }
    } else {
        ps.len() > 0 ==> fits(ps.last().x + dx) && fits(ps.last().y + dy)
    }
}

/// Adjusts a line's corners after the block at its source (`is_source`) or
/// destination moved by `(dx, dy)`.
pub fn auto_adjust_on_block_move(line: &mut Line, is_source: bool, dx: i32, dy: i32)
    requires
        adjust_fits(old(line).points@, is_source, dx, dy),
    ensures
        final(line).points@ == adjusted_points(old(line).points@, is_source, dx, dy),
        final(line).name == old(line).name,
        final(line).src == old(line).src,
        final(line).dst == old(line).dst,
        final(line).branches == old(line).branches,
        final(line).properties == old(line).properties,
{
    if dx == 0 && dy == 0 {
        return;
    }
    if is_source {
        if line.points.len() > 0 {
            let first = line.points[0];
            line.points.set(0, Point { x: first.x - dx, y: first.y - dy });
        } else {
            line.points.push(Point { x: -dx, y: -dy });
            assert(line.points@ =~= seq![Point { x: -dx as i32, y: -dy as i32 }]);
        }
    } else {
        let n = line.points.len();
        if n > 0 {
            let last = line.points[n - 1];
            line.points.set(n - 1, Point { x: last.x + dx, y: last.y + dy });
        } else {
            line.points.push(Point { x: dx, y: dy });
            assert(line.points@ =~= seq![Point { x: dx, y: dy }]);
        }
    }
}

proof fn lemma_cum_update(ps: Seq<Point>, i: int, p: Point, k: int)
    requires
        0 <= i < ps.len(),
        0 <= k <= ps.len(),
    ensures
        cum_x(ps.update(i, p), k) == cum_x(ps, k) + if k > i {
            p.x - ps[i].x
        } else {
            0
        },
        cum_y(ps.update(i, p), k) == cum_y(ps, k) + if k > i {
            p.y - ps[i].y
        } else {
            0
        },
    decreases k,
{
    if k > 0 {
        lemma_cum_update(ps, i, p, k - 1);
    }
}

/// After its source block moved, a line's corners all stay where they were
/// (each position relative to the moved source shrinks by the move); after
/// its destination moved, the line's end moves with it while every earlier
/// corner stays.
pub proof fn lemma_adjust_tracks_block(ps: Seq<Point>, is_source: bool, dx: i32, dy: i32)
    requires
        ps.len() > 0,
        adjust_fits(ps, is_source, dx, dy),
    ensures
        is_source ==> forall|k: int| 1 <= k <= ps.len() ==> cum_x(#[trigger] adjusted_points(ps, is_source, dx, dy), k) + dx == cum_x(ps, k)
            && cum_y(adjusted_points(ps, is_source, dx, dy), k) + dy == cum_y(ps, k),
        !is_source ==> cum_x(adjusted_points(ps, is_source, dx, dy), ps.len() as int) == cum_x(ps, ps.len() as int) + dx
            && cum_y(adjusted_points(ps, is_source, dx, dy), ps.len() as int) == cum_y(ps, ps.len() as int) + dy,
        !is_source ==> forall|k: int| 0 <= k < ps.len() ==> cum_x(#[trigger] adjusted_points(ps, is_source, dx, dy), k) == cum_x(ps, k)
            && cum_y(adjusted_points(ps, is_source, dx, dy), k) == cum_y(ps, k),
{
    let n = adjusted_points(ps, is_source, dx, dy);
    if dx == 0 && dy == 0 {
        return;
    }
    if is_source {
        let p = Point { x: (ps[0].x - dx) as i32, y: (ps[0].y - dy) as i32 };
        assert forall|k: int| 1 <= k <= ps.len() implies cum_x(n, k) + dx == cum_x(ps, k) && cum_y(n, k) + dy == cum_y(ps, k) by {
            lemma_cum_update(ps, 0, p, k);
        }
    } else {
        let i = ps.len() - 1;
        let p = Point { x: (ps.last().x + dx) as i32, y: (ps.last().y + dy) as i32 };
        lemma_cum_update(ps, i, p, ps.len() as int);
        assert forall|k: int| 0 <= k < ps.len() implies cum_x(n, k) == cum_x(ps, k) && cum_y(n, k) == cum_y(ps, k) by {
            lemma_cum_update(ps, i, p, k);
        }
    }
}

/// The absolute value of an `i32` that is not `i32::MIN`.
pub open spec fn abs_int(v: int) -> int {
    if v < 0 {
        -v
    } else {
        v
    }
}

/// The absolute value of `v`.
pub fn abs_i32(v: i32) -> (r: i32)
    requires
        v != i32::MIN,
    ensures
        r == abs_int(v as int),
{
    if v < 0 {
        -v
    } else {
        v
    }
}

/// A corner offset snapped to its larger axis: a diagonal offset loses its
/// smaller component (the vertical one on a tie).
pub open spec fn snapped(p: Point) -> Point {
    if p.x != 0 && p.y != 0 {
        if abs_int(p.x as int) >= abs_int(p.y as int) {
            Point { x: p.x, y: 0 }
        } else {
            Point { x: 0, y: p.y }
        }
    } else {
        p
    }
}

/// Every offset snapped.
pub open spec fn snapped_all(ps: Seq<Point>) -> Seq<Point> {
    ps.map_values(|p: Point| snapped(p))
}

/// Whether snapping the offsets stays within `i32` (a diagonal offset has
/// no `i32::MIN` component).
pub open spec fn snap_fits(ps: Seq<Point>) -> bool {
    forall|i: int| 0 <= i < ps.len() && ps[i].x != 0 && ps[i].y != 0 ==> #[trigger] ps[i].x != i32::MIN
        && ps[i].y != i32::MIN
}

/// Snaps every corner offset to be purely horizontal or purely vertical.
pub fn enforce_orthogonal(points: &mut Vec<Point>)
    requires
        snap_fits(old(points)@),
    ensures
        final(points)@ == snapped_all(old(points)@),
{
    let ghost start = points@;
    let mut i: usize = 0;
    while i < points.len()
        invariant
            i <= points@.len(),
            points@.len() == start.len(),
            snap_fits(start),
            forall|k: int| 0 <= k < i ==> #[trigger] points@[k] == snapped(start[k]),
            forall|k: int| i <= k < points@.len() ==> #[trigger] points@[k] == start[k],
        decreases points@.len() - i,
    {
        let p = points[i];
        if p.x != 0 && p.y != 0 {
            assert(start[i as int] == p);
            if abs_i32(p.x) >= abs_i32(p.y) {
                points.set(i, Point { x: p.x, y: 0 });
            } else {
                points.set(i, Point { x: 0, y: p.y });
            }
        }
        i = i + 1;
    }
    assert(points@ =~= snapped_all(start));
}

/// After snapping every offset is axis-aligned, and snapping again changes
/// nothing.
pub proof fn lemma_orthogonal_is_final(ps: Seq<Point>)
    ensures
        forall|i: int| 0 <= i < ps.len() ==> (#[trigger] snapped_all(ps)[i]).x == 0
            || snapped_all(ps)[i].y == 0,
        snapped_all(snapped_all(ps)) == snapped_all(ps),
{
    let s = snapped_all(ps);
    assert(snapped_all(s) =~= s);
}

/// The Manhattan length of an offset.
pub open spec fn manhattan(p: Point) -> int {
    abs_int(p.x as int) + abs_int(p.y as int)
}

/// The offsets after merging from position `i` on: an offset no longer
/// than `threshold` is absorbed into the next one (and the merged offset is
/// checked again); a longer one is kept.  The last offset is never merged.
pub open spec fn merge_from(ps: Seq<Point>, i: int, threshold: i32) -> Seq<Point>
    decreases 2 * ps.len() - i,
{
    if i < 0 || i + 1 >= ps.len() {
        ps
    } else if manhattan(ps[i]) <= threshold {
        merge_from(removed(ps, i), i, threshold)
    } else {
        merge_from(ps, i + 1, threshold)
    }
}

/// Whether merging from position `i` on stays within `i32`: each offset
/// measured has no `i32::MIN` component and a length that fits, and each
/// merged offset fits.
pub open spec fn merge_fits(ps: Seq<Point>, i: int, threshold: i32) -> bool
    decreases 2 * ps.len() - i,
{
    if i < 0 || i + 1 >= ps.len() {
        true
    } else {
        &&& ps[i].x != i32::MIN
        &&& ps[i].y != i32::MIN
        &&& fits(manhattan(ps[i]))
        &&& if manhattan(ps[i]) <= threshold {
            fits(ps[i + 1].x + ps[i].x) && fits(ps[i + 1].y + ps[i].y) && merge_fits(
                removed(ps, i),
                i,
                threshold,
            )
        } else {
            merge_fits(ps, i + 1, threshold)
        }
    }
}

/// Merges each corner whose offset is no longer than `threshold` (Manhattan
/// distance) into the next one, keeping the positions downstream.
pub fn merge_adjacent_corners(points: &mut Vec<Point>, threshold: i32)
    requires
        merge_fits(old(points)@, 0, threshold),
    ensures
        final(points)@ == merge_from(old(points)@, 0, threshold),
{
    let mut i: usize = 0;
    while i < points.len() && i + 1 < points.len()
        invariant
            i <= points@.len(),
            merge_from(old(points)@, 0, threshold) == merge_from(points@, i as int, threshold),
            merge_fits(points@, i as int, threshold),
        decreases 2 * points@.len() - i,
    {
        let p = points[i];
        let dist = abs_i32(p.x) + abs_i32(p.y);
        if dist <= threshold {
            let ghost before = points@;
            let q = points[i + 1];
            points.set(i + 1, Point { x: q.x + p.x, y: q.y + p.y });
            points.remove(i);
            assert(points@ =~= removed(before, i as int));
        } else {
            i = i + 1;
        }
    }
}

proof fn lemma_merge_separated_from(ps: Seq<Point>, i: int, threshold: i32)
    requires
        0 <= i,
        forall|k: int| 0 <= k < i && k + 1 < ps.len() ==> manhattan(#[trigger] ps[k]) > threshold,
    ensures
        forall|k: int|
            0 <= k && k + 1 < merge_from(ps, i, threshold).len() ==> manhattan(
                #[trigger] merge_from(ps, i, threshold)[k],
            ) > threshold,
    decreases 2 * ps.len() - i,
{
    if i + 1 >= ps.len() {
        assert(merge_from(ps, i, threshold) == ps);
        assert forall|k: int|
            0 <= k && k + 1 < merge_from(ps, i, threshold).len() implies manhattan(
            #[trigger] merge_from(ps, i, threshold)[k],
        ) > threshold by {
            assert(ps[k] == merge_from(ps, i, threshold)[k]);
        }
    } else if manhattan(ps[i]) <= threshold {
        let n = removed(ps, i);
        assert forall|k: int| 0 <= k < i && k + 1 < n.len() implies manhattan(#[trigger] n[k]) > threshold by {
            assert(n[k] == ps[k]);
        }
        lemma_merge_separated_from(n, i, threshold);
        assert(merge_from(ps, i, threshold) == merge_from(n, i, threshold));
    } else {
        lemma_merge_separated_from(ps, i + 1, threshold);
        assert(merge_from(ps, i, threshold) == merge_from(ps, i + 1, threshold));
    }
}

proof fn lemma_merge_total_from(ps: Seq<Point>, i: int, threshold: i32)
    requires
        0 <= i,
        merge_fits(ps, i, threshold),
    ensures
        cum_x(merge_from(ps, i, threshold), merge_from(ps, i, threshold).len() as int) == cum_x(
            ps,
            ps.len() as int,
        ),
        cum_y(merge_from(ps, i, threshold), merge_from(ps, i, threshold).len() as int) == cum_y(
            ps,
            ps.len() as int,
        ),
    decreases 2 * ps.len() - i,
{
    if i + 1 >= ps.len() {
    } else if manhattan(ps[i]) <= threshold {
        let n = removed(ps, i);
        lemma_remove_keeps_positions(ps, i);
        assert(cum_x(n, n.len() as int) == cum_x(ps, ps.len() as int));
        lemma_merge_total_from(n, i, threshold);
    } else {
        lemma_merge_total_from(ps, i + 1, threshold);
    }
}

proof fn lemma_merge_fixed_from(ps: Seq<Point>, i: int, threshold: i32)
    requires
        0 <= i,
        forall|k: int| i <= k && k + 1 < ps.len() ==> manhattan(#[trigger] ps[k]) > threshold,
    ensures
        merge_from(ps, i, threshold) == ps,
    decreases ps.len() - i,
{
    if i + 1 < ps.len() {
        assert(manhattan(ps[i]) > threshold);
        lemma_merge_fixed_from(ps, i + 1, threshold);
    }
}

/// Whether `(x, y)` is one of the positions that the offsets `ps` pass
/// through (the start included).
pub open spec fn is_position_of(ps: Seq<Point>, x: int, y: int) -> bool {
    exists|j: int| 0 <= j <= ps.len() && #[trigger] cum_x(ps, j) == x && cum_y(ps, j) == y
}

proof fn lemma_merge_positions_from(ps: Seq<Point>, i: int, threshold: i32)
    requires
        0 <= i,
        merge_fits(ps, i, threshold),
    ensures
        forall|k: int|
            0 <= k <= merge_from(ps, i, threshold).len() ==> is_position_of(
                ps,
                #[trigger] cum_x(merge_from(ps, i, threshold), k),
                cum_y(merge_from(ps, i, threshold), k),
            ),
    decreases 2 * ps.len() - i,
{
    let r = merge_from(ps, i, threshold);
    if i + 1 >= ps.len() {
        assert forall|k: int| 0 <= k <= r.len() implies is_position_of(ps, #[trigger] cum_x(r, k), cum_y(r, k)) by {
            assert(r == ps);
            assert(cum_x(ps, k) == cum_x(ps, k));
        }
    } else if manhattan(ps[i]) <= threshold {
        let n = removed(ps, i);
        lemma_merge_positions_from(n, i, threshold);
        lemma_remove_keeps_positions(ps, i);
        assert(r == merge_from(n, i, threshold));
        assert forall|k: int| 0 <= k <= r.len() implies is_position_of(ps, #[trigger] cum_x(r, k), cum_y(r, k)) by {
            assert(is_position_of(n, cum_x(r, k), cum_y(r, k)));
            let j1 = choose|j: int| 0 <= j <= n.len() && #[trigger] cum_x(n, j) == cum_x(r, k) && cum_y(n, j) == cum_y(r, k);
            if j1 <= i {
                assert(cum_x(removed(ps, i), j1) == cum_x(ps, j1));
            } else {
                assert(cum_x(removed(ps, i), j1) == cum_x(ps, j1 + 1));
            }
        }
    } else {
        lemma_merge_positions_from(ps, i + 1, threshold);
        assert(r == merge_from(ps, i + 1, threshold));
    }
}

/// After merging, every corner but the last is longer than the threshold,
/// the line still ends where it did, every corner left stands where a corner
/// stood before, and merging again changes nothing.
pub proof fn lemma_merge_corners(ps: Seq<Point>, threshold: i32)
    requires
        merge_fits(ps, 0, threshold),
    ensures
        forall|k: int|
            0 <= k <= merge_from(ps, 0, threshold).len() ==> is_position_of(
                ps,
                #[trigger] cum_x(merge_from(ps, 0, threshold), k),
                cum_y(merge_from(ps, 0, threshold), k),
            ),
        forall|k: int|
            0 <= k && k + 1 < merge_from(ps, 0, threshold).len() ==> manhattan(
                #[trigger] merge_from(ps, 0, threshold)[k],
            ) > threshold,
        cum_x(merge_from(ps, 0, threshold), merge_from(ps, 0, threshold).len() as int) == cum_x(
            ps,
            ps.len() as int,
        ),
        cum_y(merge_from(ps, 0, threshold), merge_from(ps, 0, threshold).len() as int) == cum_y(
            ps,
            ps.len() as int,
        ),
        merge_from(merge_from(ps, 0, threshold), 0, threshold) == merge_from(ps, 0, threshold),
{
    lemma_merge_separated_from(ps, 0, threshold);
    lemma_merge_total_from(ps, 0, threshold);
    lemma_merge_positions_from(ps, 0, threshold);
    lemma_merge_fixed_from(merge_from(ps, 0, threshold), 0, threshold);
}

/// The offsets of a branch whose destination moved by `(dx, dy)`: the last
/// offset grows by the move, or one is added for it.
pub open spec fn end_moved(ps: Seq<Point>, dx: i32, dy: i32) -> Seq<Point> {
    if ps.len() > 0 {
        ps.update(ps.len() - 1, Point { x: (ps.last().x + dx) as i32, y: (ps.last().y + dy) as i32 })
    } else {
        seq![Point { x: dx, y: dy }]
    }
}

/// Whether the branch ends at the block with SID `sid`.
pub open spec fn ends_at(b: Branch, sid: Seq<char>) -> bool {
    match b.dst {
        Some(d) => d.sid@ == sid,
        None => false,
    }
}

/// `n` is `o` after the block with SID `sid` moved by `(dx, dy)`: a branch
/// ending there has its end moved, and so on through its sub-branches;
/// nothing else changes.
pub open spec fn branch_adjusted(o: Branch, n: Branch, sid: Seq<char>, dx: i32, dy: i32) -> bool
    decreases o,
{
    &&& n.name == o.name
    &&& n.dst == o.dst
    &&& n.points@ == if ends_at(o, sid) {
        end_moved(o.points@, dx, dy)
    } else {
        o.points@
    }
    &&& branches_adjusted(o.branches@, n.branches@, sid, dx, dy)
}

/// [`branch_adjusted`] for each pair of branches.
pub open spec fn branches_adjusted(os: Seq<Branch>, ns: Seq<Branch>, sid: Seq<char>, dx: i32, dy: i32) -> bool
    decreases os,
{
    os.len() == ns.len() && (os.len() == 0 || (branches_adjusted(
        os.drop_last(),
        ns.drop_last(),
        sid,
        dx,
        dy,
    ) && branch_adjusted(os.last(), ns.last(), sid, dx, dy)))
}

/// The branch reached from `bs` by following the indices of `path`, one per
/// level of the branch tree, if they all exist.
pub open spec fn branch_at(bs: Seq<Branch>, path: Seq<int>) -> Option<Branch>
    decreases path.len(),
{
    if path.len() == 0 || path[0] < 0 || path[0] >= bs.len() {
        None
    } else if path.len() == 1 {
        Some(bs[path[0]])
    } else {
        branch_at(bs[path[0]].branches@, path.drop_first())
    }
}

proof fn lemma_adjusted_at(os: Seq<Branch>, ns: Seq<Branch>, sid: Seq<char>, dx: i32, dy: i32, k: int)
    requires
        branches_adjusted(os, ns, sid, dx, dy),
        0 <= k < os.len(),
    ensures
        branch_adjusted(os[k], ns[k], sid, dx, dy),
    decreases os.len(),
{
    if k < os.len() - 1 {
        lemma_adjusted_at(os.drop_last(), ns.drop_last(), sid, dx, dy, k);
        assert(os.drop_last()[k] == os[k]);
        assert(ns.drop_last()[k] == ns[k]);
    }
}

/// Following a moved block reaches every depth of a branch tree: wherever
/// a branch stands, whatever its ancestors end at, if it ends at the moved
/// block its last offset grows by the move (or it gets the move as its one
/// offset), and otherwise its offsets stay; its name, destination and
/// number of sub-branches never change.
pub proof fn lemma_every_branch_follows_block(os: Seq<Branch>, ns: Seq<Branch>, sid: Seq<char>, dx: i32, dy: i32, path: Seq<int>)
    requires
        branches_adjusted(os, ns, sid, dx, dy),
    ensures
        branch_at(os, path) is Some <==> branch_at(ns, path) is Some,
        branch_at(os, path) matches Some(o) ==> {
            let n = branch_at(ns, path).unwrap();
            &&& n.name == o.name
            &&& n.dst == o.dst
            &&& n.branches@.len() == o.branches@.len()
            &&& (o.dst matches Some(d) && d.sid@ == sid) ==> if o.points@.len() > 0 {
                &&& n.points@.len() == o.points@.len()
                &&& n.points@.last() == Point { x: (o.points@.last().x + dx) as i32, y: (o.points@.last().y + dy) as i32 }
                &&& n.points@.drop_last() == o.points@.drop_last()
            } else {
                n.points@ == seq![Point { x: dx, y: dy }]
            }
            &&& !(o.dst matches Some(d) && d.sid@ == sid) ==> n.points@ == o.points@
        },
    decreases path.len(),
{
    if path.len() == 0 || path[0] < 0 || path[0] >= os.len() {
    } else {
        let k = path[0];
        lemma_adjusted_at(os, ns, sid, dx, dy, k);
        let o = os[k];
        let n = ns[k];
        if path.len() == 1 {
            if ends_at(o, sid) && o.points@.len() > 0 {
                assert(n.points@.drop_last() =~= o.points@.drop_last());
            }
        } else {
            lemma_every_branch_follows_block(o.branches@, n.branches@, sid, dx, dy, path.drop_first());
        }
    }
}

/// Whether moving the ends of the branches at `sid` stays within `i32`.
pub open spec fn branch_fits(o: Branch, sid: Seq<char>, dx: i32, dy: i32) -> bool
    decreases o,
{
    &&& (ends_at(o, sid) && o.points@.len() > 0) ==> fits(o.points@.last().x + dx) && fits(
        o.points@.last().y + dy,
    )
    &&& branches_fit(o.branches@, sid, dx, dy)
}

/// [`branch_fits`] for each branch.
pub open spec fn branches_fit(os: Seq<Branch>, sid: Seq<char>, dx: i32, dy: i32) -> bool
    decreases os,
{
    os.len() == 0 || (branches_fit(os.drop_last(), sid, dx, dy) && branch_fits(os.last(), sid, dx, dy))
}

proof fn lemma_branches_fit_each(os: Seq<Branch>, sid: Seq<char>, dx: i32, dy: i32)
    requires
        branches_fit(os, sid, dx, dy),
    ensures
        forall|k: int| 0 <= k < os.len() ==> branch_fits(#[trigger] os[k], sid, dx, dy),
    decreases os.len(),
{
    if os.len() > 0 {
        lemma_branches_fit_each(os.drop_last(), sid, dx, dy);
        assert forall|k: int| 0 <= k < os.len() implies branch_fits(#[trigger] os[k], sid, dx, dy) by {
            if k < os.len() - 1 {
                assert(os[k] == os.drop_last()[k]);
            }
        }
    }
}

proof fn lemma_branches_adjusted_each(os: Seq<Branch>, ns: Seq<Branch>, sid: Seq<char>, dx: i32, dy: i32)
    requires
        os.len() == ns.len(),
        forall|k: int| 0 <= k < os.len() ==> branch_adjusted(#[trigger] os[k], ns[k], sid, dx, dy),
    ensures
        branches_adjusted(os, ns, sid, dx, dy),
    decreases os.len(),
{
    if os.len() > 0 {
        assert forall|k: int| 0 <= k < os.drop_last().len() implies branch_adjusted(
            #[trigger] os.drop_last()[k],
            ns.drop_last()[k],
            sid,
            dx,
            dy,
        ) by {
            assert(os.drop_last()[k] == os[k]);
            assert(ns.drop_last()[k] == ns[k]);
        }
        lemma_branches_adjusted_each(os.drop_last(), ns.drop_last(), sid, dx, dy);
        assert(branch_adjusted(os[os.len() - 1], ns[os.len() - 1], sid, dx, dy));
    }
}

/// Moves the ends of every branch (and sub-branch) that ends at the block
/// with SID `moved_sid` by `(dx, dy)`.
pub fn auto_adjust_branches_on_block_move(branches: &mut Vec<Branch>, moved_sid: &str, dx: i32, dy: i32)
    requires
        branches_fit(old(branches)@, moved_sid@, dx, dy),
    ensures
        branches_adjusted(old(branches)@, final(branches)@, moved_sid@, dx, dy),
    decreases old(branches)@,
{
    let ghost start = branches@;
    proof {
        lemma_branches_fit_each(start, moved_sid@, dx, dy);
    }
    let mut i: usize = 0;
    while i < branches.len()
        invariant
            i <= branches@.len(),
            branches@.len() == start.len(),
            start == old(branches)@,
            forall|k: int| 0 <= k < start.len() ==> branch_fits(#[trigger] start[k], moved_sid@, dx, dy),
            forall|k: int| 0 <= k < i ==> branch_adjusted(#[trigger] start[k], branches@[k], moved_sid@, dx, dy),
            forall|k: int| i <= k < start.len() ==> #[trigger] branches@[k] == start[k],
        decreases start.len() - i,
    {
        assert(branch_fits(start[i as int], moved_sid@, dx, dy));
        assert(decreases_to!(start => start[i as int]));
        assert(decreases_to!(start[i as int] => start[i as int].branches));
        let b = &mut branches[i];
        let hit = match &b.dst {
            Some(d) => crate::text::str_eq(d.sid.as_str(), moved_sid),
            None => false,
        };
        if hit {
            let n = b.points.len();
            if n > 0 {
                let last = b.points[n - 1];
                b.points.set(n - 1, Point { x: last.x + dx, y: last.y + dy });
            } else {
                b.points.push(Point { x: dx, y: dy });
                assert(b.points@ =~= seq![Point { x: dx, y: dy }]);
            }
        }
        auto_adjust_branches_on_block_move(&mut b.branches, moved_sid, dx, dy);
        i = i + 1;
    }
    proof {
        lemma_branches_adjusted_each(start, branches@, moved_sid@, dx, dy);
    }
}

} // verus!
