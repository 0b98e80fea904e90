use vstd::prelude::*;
use crate::canvas::{Canvas, Point};

verus! {

/// The smaller of two coordinates.
pub open spec fn min_of(a: usize, b: usize) -> int {
    if a <= b { a as int } else { b as int }
}

/// The larger of two coordinates.
pub open spec fn max_of(a: usize, b: usize) -> int {
    if a <= b { b as int } else { a as int }
}

/// `(x, y)` lies in the box spanned by `p1` and `p2`, bounds included.
pub open spec fn in_box(p1: Point, p2: Point, x: int, y: int) -> bool {
    &&& min_of(p1.0, p2.0) <= x <= max_of(p1.0, p2.0)
    &&& min_of(p1.1, p2.1) <= y <= max_of(p1.1, p2.1)
}

/// `(x, y)` lies on the border of the box spanned by `p1` and `p2`.
pub open spec fn on_border(p1: Point, p2: Point, x: int, y: int) -> bool {
    &&& in_box(p1, p2, x, y)
    &&& (x == p1.0 || x == p2.0 || y == p1.1 || y == p2.1)
}

/// `(x, y)` lies on the vertical segment from `from` to `to`, which share a column.
pub open spec fn on_column(from: Point, to: Point, x: int, y: int) -> bool {
    &&& x == from.0
    &&& min_of(from.1, to.1) <= y <= max_of(from.1, to.1)
}

/// `(x, y)` is a candidate cell of the circle: within `r + 1` of the center on both axes.
pub open spec fn in_ring_box(center: Point, r: usize, x: int, y: int) -> bool {
    &&& center.0 - r - 1 <= x <= center.0 + r + 1
    &&& center.1 - r - 1 <= y <= center.1 + r + 1
}

/// The distance `d` from `(x, y)` to the ring's reference point
/// `(center.0 - r, center.1 - r)` satisfies `r - 1/2 < d < r + 1/2`,
/// stated exactly over squares: `(2r - 1)^2 < 4 d^2 < (2r + 1)^2`,
/// where the lower bound is void for `r == 0`.
pub open spec fn in_ring(center: Point, r: usize, x: int, y: int) -> bool {
    let dx = x - (center.0 - r);
    let dy = y - (center.1 - r);
    let d2 = dx * dx + dy * dy;
    &&& (r == 0 || 4 * d2 > (2 * r - 1) * (2 * r - 1))
    &&& 4 * d2 < (2 * r + 1) * (2 * r + 1)
}

/// The circle command marks `(x, y)`.
pub open spec fn on_circle(center: Point, r: usize, x: int, y: int) -> bool {
    in_ring_box(center, r, x, y) && in_ring(center, r, x, y)
}

/// The line command marks `(x, y)` whatever its slope test says: an
/// endpoint, or a cell of a vertical segment.
pub open spec fn line_always(from: Point, to: Point, x: int, y: int) -> bool {
    ||| (x == from.0 && y == from.1)
    ||| (x == to.0 && y == to.1)
    ||| (from.0 == to.0 && on_column(from, to, x, y))
}

/// The line command asks its slope test about `(x, y)`: a cell of the
/// bounding box of a line that is not vertical.
pub open spec fn line_asks(from: Point, to: Point, x: int, y: int) -> bool {
    from.0 != to.0 && in_box(from, to, x, y) && !line_always(from, to, x, y)
}

/// `after` is `before` with the border of the box spanned by `p1` and `p2` painted.
pub open spec fn rect_drawn(before: Canvas, after: Canvas, p1: Point, p2: Point, ch: char) -> bool {
    &&& after.wf()
    &&& after.spec_width() == before.spec_width()
    &&& after.spec_height() == before.spec_height()
    &&& forall|x: int, y: int|
        before.in_bounds(x, y) ==> #[trigger] after.cell(x, y) == if on_border(p1, p2, x, y) {
            ch
        } else {
            before.cell(x, y)
        }
}

/// `after` is `before` with the ring of the circle command painted.
pub open spec fn circle_drawn(before: Canvas, after: Canvas, center: Point, r: usize, ch: char) -> bool {
    &&& after.wf()
    &&& after.spec_width() == before.spec_width()
    &&& after.spec_height() == before.spec_height()
    &&& forall|x: int, y: int|
        before.in_bounds(x, y) ==> #[trigger] after.cell(x, y) == if on_circle(center, r, x, y) {
            ch
        } else {
            before.cell(x, y)
        }
}

/// `after` is `before` with the segment from `from` to `to` painted, where
/// `on_line` decided the cells that `line_asks` about.
pub open spec fn line_drawn<F: Fn(usize, usize) -> bool>(
    before: Canvas,
    after: Canvas,
    from: Point,
    to: Point,
    ch: char,
    on_line: F,
) -> bool {
    &&& after.wf()
    &&& after.spec_width() == before.spec_width()
    &&& after.spec_height() == before.spec_height()
    &&& forall|x: int, y: int|
        before.in_bounds(x, y) && line_always(from, to, x, y) ==> #[trigger] after.cell(x, y) == ch
    &&& forall|x: int, y: int|
        before.in_bounds(x, y) && line_asks(from, to, x, y) ==> {
            ||| (#[trigger] after.cell(x, y) == ch && on_line.ensures((x as usize, y as usize), true))
            ||| (after.cell(x, y) == before.cell(x, y) && on_line.ensures(
                (x as usize, y as usize),
                false,
            ))
        }
    &&& forall|x: int, y: int|
        before.in_bounds(x, y) && !line_always(from, to, x, y) && !line_asks(from, to, x, y)
            ==> #[trigger] after.cell(x, y) == before.cell(x, y)
}

/// What a region painter marks.
enum Shape {
    Border(Point, Point),
    Column(Point, Point),
    Ring(Point, usize),
}

/// The cells that a shape covers.
spec fn marks(s: Shape, x: int, y: int) -> bool {
    match s {
        Shape::Border(p1, p2) => on_border(p1, p2, x, y),
        Shape::Column(from, to) => on_column(from, to, x, y),
        Shape::Ring(center, r) => on_circle(center, r, x, y),
    }
}

/// The distance between two integers.
fn abs_diff(a: i128, b: i128) -> (r: u128)
    requires
        -0x1_0000_0000_0000_0000 * 4 <= a <= 0x1_0000_0000_0000_0000 * 4,
        -0x1_0000_0000_0000_0000 * 4 <= b <= 0x1_0000_0000_0000_0000 * 4,
    ensures
        r == if a >= b { a - b } else { b - a },
{
    if a >= b {
        (a - b) as u128
    } else {
        (b - a) as u128
    }
}

/// Decides `in_ring` without overflow: a cell more than `r` away from the
/// reference point on either axis is outside the ring.
fn ring_hit(center: Point, r: usize, x: usize, y: usize) -> (hit: bool)
    ensures
        hit == in_ring(center, r, x as int, y as int),
{
    let a: u128 = abs_diff(x as i128 + r as i128, center.0 as i128);
    let b: u128 = abs_diff(y as i128 + r as i128, center.1 as i128);
    let rr: u128 = r as u128;
    let ghost dx: int = x - (center.0 - r);
    let ghost dy: int = y - (center.1 - r);
    assert(a * a == dx * dx && b * b == dy * dy) by (nonlinear_arith)
        requires
            a == if dx >= 0 { dx } else { -dx },
            b == if dy >= 0 { dy } else { -dy },
    ;
    if a > rr || b > rr {
        assert(!in_ring(center, r, x as int, y as int)) by (nonlinear_arith)
            requires
                a > rr || b > rr,
                a >= 0,
                b >= 0,
                rr == r,
                a * a == dx * dx,
                b * b == dy * dy,
                dx == x - (center.0 - r),
                dy == y - (center.1 - r),
        ;
        return false;
    }
    assert(rr * rr <= 0xffff_ffff_ffff_fffe_0000_0000_0000_0001) by (nonlinear_arith)
        requires
            rr <= 0xffff_ffff_ffff_ffff,
    ;
    assert(a * a <= rr * rr && b * b <= rr * rr) by (nonlinear_arith)
        requires
            a <= rr,
            b <= rr,
    ;
    let r2: u128 = rr * rr;
    let a2: u128 = a * a;
    let b2: u128 = b * b;
    let rest: u128 = r2 - a2;
    let inside: bool = b2 <= rest + rr;
    let outside: bool = rr == 0 || b2 + rr >= rest + 1;
    assert(inside == (4 * (dx * dx + dy * dy) < (2 * r + 1) * (2 * r + 1))) by (nonlinear_arith)
        requires
            inside == (b2 <= rest + rr),
            rest == r2 - a2,
            r2 == rr * rr,
            a2 == dx * dx,
            b2 == dy * dy,
            rr == r,
    ;
    assert(rr > 0 ==> (outside == (4 * (dx * dx + dy * dy) > (2 * r - 1) * (2 * r - 1))))
        by (nonlinear_arith)
        requires
            outside == (rr == 0 || b2 + rr >= rest + 1),
            rest == r2 - a2,
            r2 == rr * rr,
            a2 == dx * dx,
            b2 == dy * dy,
            rr == r,
    ;
    inside && outside
}

/// Decides `marks` for one cell.
fn hits(s: &Shape, x: usize, y: usize) -> (hit: bool)
    ensures
        hit == marks(*s, x as int, y as int),
{
    match s {
        Shape::Border(p1, p2) => {
            let in_x = (p1.0 <= x && x <= p2.0) || (p2.0 <= x && x <= p1.0);
            let in_y = (p1.1 <= y && y <= p2.1) || (p2.1 <= y && y <= p1.1);
            in_x && in_y && (x == p1.0 || x == p2.0 || y == p1.1 || y == p2.1)
        },
        Shape::Column(from, to) => {
            x == from.0 && ((from.1 <= y && y <= to.1) || (to.1 <= y && y <= from.1))
        },
        Shape::Ring(center, r) => {
            let in_x = x as u128 + *r as u128 + 1 >= center.0 as u128 && x as u128 <= center.0
                as u128 + *r as u128 + 1;
            let in_y = y as u128 + *r as u128 + 1 >= center.1 as u128 && y as u128 <= center.1
                as u128 + *r as u128 + 1;
            in_x && in_y && ring_hit(*center, *r, x, y)
        },
    }
}

/// The first index past `hi` that is still below `limit`, without overflow.
fn end_below(hi: usize, limit: usize) -> (e: usize)
    ensures
        e == if hi < limit { hi + 1 } else { limit as int },
{
    if hi < limit {
        hi + 1
    } else {
        limit
    }
}

/// Paints with `ch` every cell of the grid that `s` marks, scanning the
/// columns `x_lo..x_end` and the rows `y_lo..y_end`, which hold all of them.
fn paint(canvas: &mut Canvas, s: Shape, x_lo: usize, x_end: usize, y_lo: usize, y_end: usize, ch: char)
    requires
        old(canvas).wf(),
        x_end <= old(canvas).spec_width(),
        y_end <= old(canvas).spec_height(),
        forall|i: int, j: int|
            old(canvas).in_bounds(i, j) && #[trigger] marks(s, i, j) ==> x_lo <= i < x_end && y_lo
                <= j < y_end,
    ensures
        final(canvas).wf(),
        final(canvas).spec_width() == old(canvas).spec_width(),
        final(canvas).spec_height() == old(canvas).spec_height(),
        forall|i: int, j: int|
            old(canvas).in_bounds(i, j) ==> #[trigger] final(canvas).cell(i, j) == if marks(s, i, j) {
                ch
            } else {
                old(canvas).cell(i, j)
            },
{
    let ghost start = *canvas;
    let mut x: usize = x_lo;
    while x < x_end
        invariant
            canvas.wf(),
            canvas.spec_width() == start.spec_width(),
            canvas.spec_height() == start.spec_height(),
            x_lo <= x || x >= x_end,
            x_end <= start.spec_width(),
            y_end <= start.spec_height(),
            forall|i: int, j: int|
                start.in_bounds(i, j) && #[trigger] marks(s, i, j) ==> x_lo <= i < x_end && y_lo <= j
                    < y_end,
            forall|i: int, j: int|
                start.in_bounds(i, j) ==> #[trigger] canvas.cell(i, j) == if marks(s, i, j) && i < x {
                    ch
                } else {
                    start.cell(i, j)
                },
        decreases x_end - x,
    {
        let mut y: usize = y_lo;
        while y < y_end
            invariant
                canvas.wf(),
                canvas.spec_width() == start.spec_width(),
                canvas.spec_height() == start.spec_height(),
                x < x_end,
                x_end <= start.spec_width(),
                y_end <= start.spec_height(),
                forall|i: int, j: int|
                    start.in_bounds(i, j) && #[trigger] marks(s, i, j) ==> x_lo <= i < x_end && y_lo
                        <= j < y_end,
                forall|i: int, j: int|
                    start.in_bounds(i, j) ==> #[trigger] canvas.cell(i, j) == if marks(s, i, j) && (i
                        < x || (i == x && j < y)) {
                        ch
                    } else {
                        start.cell(i, j)
                    },
            decreases y_end - y,
        {
            if hits(&s, x, y) {
                canvas.set(x, y, ch);
            }
            y = y + 1;
        }
        x = x + 1;
    }
}

/// Paints the border of the box spanned by `p1` and `p2`; the inside and
/// the cells off the grid are left alone.
pub fn draw_rect(canvas: &mut Canvas, p1: Point, p2: Point, ch: char)
    requires
        old(canvas).wf(),
    ensures
        rect_drawn(*old(canvas), *final(canvas), p1, p2, ch),
{
    let x_lo = if p1.0 <= p2.0 { p1.0 } else { p2.0 };
    let x_hi = if p1.0 <= p2.0 { p2.0 } else { p1.0 };
    let y_lo = if p1.1 <= p2.1 { p1.1 } else { p2.1 };
    let y_hi = if p1.1 <= p2.1 { p2.1 } else { p1.1 };
    let x_end = end_below(x_hi, canvas.width());
    let y_end = end_below(y_hi, canvas.height());
    paint(canvas, Shape::Border(p1, p2), x_lo, x_end, y_lo, y_end, ch);
}

/// Paints the ring of radius `r` whose reference point is
/// `(center.0 - r, center.1 - r)`, looking only at the cells within `r + 1`
/// of `center` on both axes; cells off the grid are skipped.
pub fn draw_circle(canvas: &mut Canvas, center: Point, r: usize, ch: char)
    requires
        old(canvas).wf(),
    ensures
        circle_drawn(*old(canvas), *final(canvas), center, r, ch),
{
    let reach: usize = if r < usize::MAX { r + 1 } else { r };
    let x_lo: usize = if center.0 > reach { center.0 - reach } else { 0 };
    let y_lo: usize = if center.1 > reach { center.1 - reach } else { 0 };
    let x_hi: usize = if center.0 <= usize::MAX - reach { center.0 + reach } else { usize::MAX };
    let y_hi: usize = if center.1 <= usize::MAX - reach { center.1 + reach } else { usize::MAX };
    let x_end = end_below(x_hi, canvas.width());
    let y_end = end_below(y_hi, canvas.height());
    paint(canvas, Shape::Ring(center, r), x_lo, x_end, y_lo, y_end, ch);
}

/// Paints the segment from `from` to `to`: both endpoints, every cell
/// between them when they share a column, and otherwise each cell of their
/// bounding box on which `on_line` answers `true`. Cells off the grid are
/// skipped.
pub fn draw_line<F: Fn(usize, usize) -> bool>(
    canvas: &mut Canvas,
    from: Point,
    to: Point,
    ch: char,
    on_line: F,
)
    requires
        old(canvas).wf(),
        forall|x: usize, y: usize| on_line.requires((x, y)),
    ensures
        line_drawn(*old(canvas), *final(canvas), from, to, ch, on_line),
{
    let ghost start = *canvas;
    let w = canvas.width();
    let h = canvas.height();
    if from.0 < w && from.1 < h {
        canvas.setp(from, ch);
    }
    if to.0 < w && to.1 < h {
        canvas.setp(to, ch);
    }
    let x_lo = if from.0 <= to.0 { from.0 } else { to.0 };
    let x_hi = if from.0 <= to.0 { to.0 } else { from.0 };
    let y_lo = if from.1 <= to.1 { from.1 } else { to.1 };
    let y_hi = if from.1 <= to.1 { to.1 } else { from.1 };
    let x_end = end_below(x_hi, w);
    let y_end = end_below(y_hi, h);
    if from.0 == to.0 {
        paint(canvas, Shape::Column(from, to), x_lo, x_end, y_lo, y_end, ch);
        return;
    }
    let ghost ends = *canvas;
    let mut x: usize = x_lo;
    while x < x_end
        invariant
            canvas.wf(),
            canvas.spec_width() == start.spec_width(),
            canvas.spec_height() == start.spec_height(),
            w == start.spec_width(),
            h == start.spec_height(),
            from.0 != to.0,
            x_lo == min_of(from.0, to.0),
            y_lo == min_of(from.1, to.1),
            x_end <= w,
            y_end <= h,
            x_end == if max_of(from.0, to.0) < w { max_of(from.0, to.0) + 1 } else { w as int },
            y_end == if max_of(from.1, to.1) < h { max_of(from.1, to.1) + 1 } else { h as int },
            x_lo <= x || x >= x_end,
            forall|x: usize, y: usize| on_line.requires((x, y)),
            forall|i: int, j: int|
                start.in_bounds(i, j) ==> #[trigger] ends.cell(i, j) == if line_always(
                    from,
                    to,
                    i,
                    j,
                ) {
                    ch
                } else {
                    start.cell(i, j)
                },
            forall|i: int, j: int|
                start.in_bounds(i, j) && !(line_asks(from, to, i, j) && i < x) ==> #[trigger] canvas.cell(
                    i,
                    j,
                ) == ends.cell(i, j),
            forall|i: int, j: int|
                start.in_bounds(i, j) && line_asks(from, to, i, j) && i < x ==> {
                    ||| (#[trigger] canvas.cell(i, j) == ch && on_line.ensures(
                        (i as usize, j as usize),
                        true,
                    ))
                    ||| (canvas.cell(i, j) == start.cell(i, j) && on_line.ensures(
                        (i as usize, j as usize),
                        false,
                    ))
                },
        decreases x_end - x,
    {
        let mut y: usize = y_lo;
        while y < y_end
            invariant
                canvas.wf(),
                canvas.spec_width() == start.spec_width(),
                canvas.spec_height() == start.spec_height(),
                w == start.spec_width(),
                h == start.spec_height(),
                from.0 != to.0,
                x_lo == min_of(from.0, to.0),
                y_lo == min_of(from.1, to.1),
                x_lo <= x < x_end,
                x_end <= w,
                y_end <= h,
                x_end == if max_of(from.0, to.0) < w { max_of(from.0, to.0) + 1 } else { w as int },
                y_end == if max_of(from.1, to.1) < h { max_of(from.1, to.1) + 1 } else { h as int },
                y_lo <= y || y >= y_end,
                forall|x: usize, y: usize| on_line.requires((x, y)),
                forall|i: int, j: int|
                    start.in_bounds(i, j) ==> #[trigger] ends.cell(i, j) == if line_always(
                        from,
                        to,
                        i,
                        j,
                    ) {
                        ch
                    } else {
                        start.cell(i, j)
                    },
                forall|i: int, j: int|
                    start.in_bounds(i, j) && !(line_asks(from, to, i, j) && (i < x || (i == x && j
                        < y))) ==> #[trigger] canvas.cell(i, j) == ends.cell(i, j),
                forall|i: int, j: int|
                    start.in_bounds(i, j) && line_asks(from, to, i, j) && (i < x || (i == x && j
                        < y)) ==> {
                        ||| (#[trigger] canvas.cell(i, j) == ch && on_line.ensures(
                            (i as usize, j as usize),
                            true,
                        ))
                        ||| (canvas.cell(i, j) == start.cell(i, j) && on_line.ensures(
                            (i as usize, j as usize),
                            false,
                        ))
                    },
            decreases y_end - y,
        {
            let endpoint = (x == from.0 && y == from.1) || (x == to.0 && y == to.1);
            if !endpoint {
                let hit = on_line(x, y);
                if hit {
                    canvas.set(x, y, ch);
                }
            }
            y = y + 1;
        }
        x = x + 1;
    }
}

} // verus!
