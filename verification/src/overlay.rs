//! Marks for calibrating a layout by eye: a small cross painted over a
//! snapshot at every pixel of the table.

use vstd::prelude::*;
use crate::color::Color;
use crate::layout::{all_clear_of_border, Layout, Point};
use crate::screen::Snapshot;

verus! {

/// How far a mark reaches from its centre, the centre counted.
pub const PLUS_RADIUS: u32 = 6;

/// The room that a mark needs between its centre and every edge.
pub const PLUS_MARGIN: u32 = 5;

/// The colour of the marks.
pub open spec fn plus_color() -> Color {
    Color { r: 50, g: 50, b: 255, a: 255 }
}

/// Whether the pixel `(x, y)` lies on the cross about `center` whose arms
/// reach less than `radius` pixels from it.
pub open spec fn on_cross(center: Point, radius: int, x: int, y: int) -> bool {
    ||| y == center.y && -radius < x - center.x < radius
    ||| x == center.x && -radius < y - center.y < radius
}

/// Whether the pixel `(x, y)` lies on the mark of one of the points.
pub open spec fn is_marked(points: Seq<Point>, x: int, y: int) -> bool {
    exists|i: int| 0 <= i < points.len() && on_cross(#[trigger] points[i], PLUS_RADIUS as int, x, y)
}

/// A snapshot with marks at the given points: the mark colour on the marks,
/// and elsewhere what was there before.
pub open spec fn is_marking(before: Snapshot, after: Snapshot, points: Seq<Point>) -> bool {
    &&& after.spec_width() == before.spec_width()
    &&& after.spec_height() == before.spec_height()
    &&& forall|x: int, y: int| #[trigger]
        after.color_at(x, y) == if is_marked(points, x, y) {
            plus_color()
        } else {
            before.color_at(x, y)
        }
}

/// One more point marks what was marked before and its own cross.
pub proof fn lemma_marked_push(points: Seq<Point>, p: Point, x: int, y: int)
    ensures
        is_marked(points.push(p), x, y) <==> is_marked(points, x, y) || on_cross(
            p,
            PLUS_RADIUS as int,
            x,
            y,
        ),
{
    let more = points.push(p);
    if is_marked(points, x, y) {
        let i = choose|i: int|
            0 <= i < points.len() && on_cross(#[trigger] points[i], PLUS_RADIUS as int, x, y);
        assert(more[i] == points[i]);
    }
    if on_cross(p, PLUS_RADIUS as int, x, y) {
        assert(more[points.len() as int] == p);
    }
    if is_marked(more, x, y) {
        let i = choose|i: int|
            0 <= i < more.len() && on_cross(#[trigger] more[i], PLUS_RADIUS as int, x, y);
        if i < points.len() {
            assert(more[i] == points[i]);
        }
    }
}

/// Paints a mark about `center`, which must leave the mark room on every
/// side.
pub fn add_plus(snapshot: &mut Snapshot, center: Point)
    requires
        center.clear_of_border(
            old(snapshot).spec_width(),
            old(snapshot).spec_height(),
            PLUS_MARGIN as nat,
        ),
    ensures
        is_marking(*old(snapshot), *final(snapshot), seq![center]),
{
    let color = Color { r: 50, g: 50, b: 255, a: 255 };
    let width = snapshot.width();
    let height = snapshot.height();
    let mut i: u32 = 0;
    while i < PLUS_RADIUS
        invariant
            i <= PLUS_RADIUS,
            width == snapshot.spec_width(),
            height == snapshot.spec_height(),
            snapshot.spec_width() == old(snapshot).spec_width(),
            snapshot.spec_height() == old(snapshot).spec_height(),
            center.clear_of_border(
                snapshot.spec_width(),
                snapshot.spec_height(),
                PLUS_MARGIN as nat,
            ),
            color == plus_color(),
            forall|x: int, y: int| #[trigger]
                snapshot.color_at(x, y) == if on_cross(center, i as int, x, y) {
                    plus_color()
                } else {
                    old(snapshot).color_at(x, y)
                },
        decreases PLUS_RADIUS - i,
    {
        snapshot.set(center.x + i, center.y, color);
        snapshot.set(center.x - i, center.y, color);
        snapshot.set(center.x, center.y + i, color);
        snapshot.set(center.x, center.y - i, color);
        i += 1;
    }
    proof {
        let only = seq![center];
        assert forall|x: int, y: int| is_marked(only, x, y) == on_cross(
            center,
            PLUS_RADIUS as int,
            x,
            y,
        ) by {
            assert(only[0] == center);
        }
    }
}

/// Paints a mark about each of the given points, which must all leave the
/// marks room on every side.
pub fn add_pluses(snapshot: &mut Snapshot, points: &Vec<Point>)
    requires
        all_clear_of_border(
            points@,
            old(snapshot).spec_width(),
            old(snapshot).spec_height(),
            PLUS_MARGIN as nat,
        ),
    ensures
        is_marking(*old(snapshot), *final(snapshot), points@),
{
    let mut i: usize = 0;
    assert forall|x: int, y: int| !is_marked(points@.take(0), x, y) by {}
    while i < points.len()
        invariant
            i <= points.len(),
            all_clear_of_border(
                points@,
                snapshot.spec_width(),
                snapshot.spec_height(),
                PLUS_MARGIN as nat,
            ),
            is_marking(*old(snapshot), *snapshot, points@.take(i as int)),
        decreases points.len() - i,
    {
        let ghost before = *snapshot;
        let center = points[i];
        assert(points@[i as int].clear_of_border(
            snapshot.spec_width(),
            snapshot.spec_height(),
            PLUS_MARGIN as nat,
        ));
        add_plus(snapshot, center);
        proof {
            let done = points@.take(i as int);
            assert(points@.take(i + 1) == done.push(center));
            assert forall|x: int, y: int| #[trigger]
                snapshot.color_at(x, y) == if is_marked(done.push(center), x, y) {
                    plus_color()
                } else {
                    old(snapshot).color_at(x, y)
                } by {
                lemma_marked_push(done, center, x, y);
                lemma_marked_push(Seq::empty(), center, x, y);
                assert(seq![center] == Seq::<Point>::empty().push(center));
                assert(before.color_at(x, y) == if is_marked(done, x, y) {
                    plus_color()
                } else {
                    old(snapshot).color_at(x, y)
                });
            }
        }
        i += 1;
    }
    assert(points@.take(i as int) == points@);
}

/// Paints a mark about every pixel of a layout, which must all leave the
/// marks room on every side.
pub fn mark_poses(snapshot: &mut Snapshot, layout: &Layout)
    requires
        layout.clear_of_border(
            old(snapshot).spec_width(),
            old(snapshot).spec_height(),
            PLUS_MARGIN as nat,
        ),
    ensures
        is_marking(*old(snapshot), *final(snapshot), layout.points()),
{
    let poses = layout.all_points();
    add_pluses(snapshot, &poses);
}

} // verus!
