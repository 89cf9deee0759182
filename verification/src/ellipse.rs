//! Ellipses on the canvas, drawn quadrant by quadrant with the midpoint
//! algorithm.
use crate::art::{lemma_paint_nothing, lemma_paint_union, paint, Cell, Color, Image};
use vstd::prelude::*;

verus! {

/// The largest radius that `draw_ellipse` takes: with it the error term of
/// the walk, which grows with the fourth power of the radii, fits 128 bits.
pub const MAX_RADIUS: usize = 0x7fff_ffff;

/// The ellipse with radii `a` and `b` around the origin, as a function that
/// is negative inside it, zero on it and positive outside.
pub open spec fn ellipse_fn(a: int, b: int, u: int, v: int) -> int {
    (b * b) * (u * u) + (a * a) * (v * v) - (a * a) * (b * b)
}

/// Whether the walk moves one column towards the centre from `(x, y)`. It
/// does when the diagonal neighbour, one column in and one row out, and the
/// neighbour one row out lie outside the ellipse, taken together: when the
/// values of `ellipse_fn` at the two do not add up to less than zero.
pub open spec fn arc_steps_in(a: int, b: int, x: int, y: int) -> bool {
    2 * ellipse_fn(a, b, x - 1, y + 1) >= (1 - 2 * x) * (b * b)
}

/// Whether the walk moves one row away from the centre from `(x, y)`. It
/// does when the diagonal neighbour and the neighbour one column in lie
/// inside the ellipse, taken together: when the values of `ellipse_fn` at
/// the two do not add up to more than zero.
pub open spec fn arc_steps_out(a: int, b: int, x: int, y: int) -> bool {
    2 * ellipse_fn(a, b, x - 1, y + 1) <= (1 + 2 * y) * (a * a)
}

/// The point of the walk that follows `at`.
pub open spec fn arc_next(a: int, b: int, at: (int, int)) -> (int, int) {
    (
        if arc_steps_in(a, b, at.0, at.1) {
            at.0 - 1
        } else {
            at.0
        },
        if arc_steps_out(a, b, at.0, at.1) {
            at.1 + 1
        } else {
            at.1
        },
    )
}

/// The `n`-th point of the walk along one quadrant of the ellipse, as its
/// distance from the centre in columns and in rows. The walk starts at the
/// end of the horizontal radius.
pub open spec fn arc_point(a: int, b: int, n: nat) -> (int, int)
    decreases n,
{
    if n == 0 {
        (a, 0)
    } else {
        arc_next(a, b, arc_point(a, b, (n - 1) as nat))
    }
}

/// Whether point `n` is where the walk ends: the first in the centre's own
/// column.
pub open spec fn is_arc_last(a: int, b: int, n: nat) -> bool {
    arc_point(a, b, n).0 == 0 && forall|k: nat| k < n ==> (#[trigger] arc_point(a, b, k)).0 != 0
}

/// The number of the point where the walk ends.
pub open spec fn arc_last(a: int, b: int) -> nat {
    choose|n: nat| is_arc_last(a, b, n)
}

/// The cell `(x, y)` if it is `wanted`, and nothing otherwise.
pub open spec fn optional_cell(wanted: bool, x: int, y: int) -> Set<(int, int)> {
    if wanted {
        set![(x, y)]
    } else {
        Set::empty()
    }
}

/// The cells that mirror the point `at` of the walk into the quadrants that
/// are switched on. The quadrants count from the top right one, against the
/// clock; rows grow downwards.
pub open spec fn quadrant_cells(center: Cell, quadrants: [bool; 4], at: (int, int)) -> Set<
    (int, int),
> {
    optional_cell(quadrants[0], center.x + at.0, center.y - at.1).union(
        optional_cell(quadrants[1], center.x - at.0, center.y - at.1),
    ).union(optional_cell(quadrants[2], center.x - at.0, center.y + at.1)).union(
        optional_cell(quadrants[3], center.x + at.0, center.y + at.1),
    )
}

/// The cells in the centre's column `y` rows above it, if an upper quadrant
/// is switched on, and `y` rows below it, if a lower one is.
pub open spec fn pole_cells(center: Cell, quadrants: [bool; 4], y: int) -> Set<(int, int)> {
    optional_cell(quadrants[0] || quadrants[1], center.x as int, center.y - y).union(
        optional_cell(quadrants[2] || quadrants[3], center.x as int, center.y + y),
    )
}

/// The cells of the first `n` points of the walk.
pub open spec fn arc_reach(center: Cell, a: int, b: int, quadrants: [bool; 4], n: nat) -> Set<
    (int, int),
>
    decreases n,
{
    if n == 0 {
        Set::empty()
    } else {
        arc_reach(center, a, b, quadrants, (n - 1) as nat).union(
            quadrant_cells(center, quadrants, arc_point(a, b, (n - 1) as nat)),
        )
    }
}

/// The cells in the centre's column more than `from` and at most `to` rows
/// away from it.
pub open spec fn pole_reach(center: Cell, quadrants: [bool; 4], from: int, to: int) -> Set<
    (int, int),
>
    decreases to - from,
{
    if to <= from {
        Set::empty()
    } else {
        pole_reach(center, quadrants, from, to - 1).union(pole_cells(center, quadrants, to))
    }
}

/// All the cells of the ellipse around `center` with radii `a` and `b`: the
/// walk, mirrored, and above and below its end the rest of the centre's
/// column up to the vertical radius, which a very flat ellipse leaves open.
pub open spec fn ellipse_points(center: Cell, a: int, b: int, quadrants: [bool; 4]) -> Set<
    (int, int),
> {
    let last = arc_last(a, b);
    arc_reach(center, a, b, quadrants, last + 1).union(
        pole_reach(center, quadrants, arc_point(a, b, last).1, b),
    )
}

/// What the walk adds to its error term when it moves a column inwards or a
/// row outwards.
proof fn lemma_ellipse_fn_steps(a: int, b: int, u: int, v: int)
    ensures
        ellipse_fn(a, b, u - 1, v) == ellipse_fn(a, b, u, v) + (1 - 2 * u) * (b * b),
        ellipse_fn(a, b, u, v + 1) == ellipse_fn(a, b, u, v) + (1 + 2 * v) * (a * a),
{
    let aa = a * a;
    let bb = b * b;
    assert(bb * ((u - 1) * (u - 1)) == bb * (u * u) + (1 - 2 * u) * bb) by (nonlinear_arith);
    assert(aa * ((v + 1) * (v + 1)) == aa * (v * v) + (1 + 2 * v) * aa) by (nonlinear_arith);
}

/// The two tests of the walk weigh the diagonal neighbour against the
/// neighbour that each step would leave behind.
pub proof fn lemma_arc_steps_weigh_neighbours(a: int, b: int, x: int, y: int)
    ensures
        arc_steps_in(a, b, x, y) <==> ellipse_fn(a, b, x - 1, y + 1) + ellipse_fn(a, b, x, y + 1)
            >= 0,
        arc_steps_out(a, b, x, y) <==> ellipse_fn(a, b, x - 1, y + 1) + ellipse_fn(a, b, x - 1, y)
            <= 0,
{
    lemma_ellipse_fn_steps(a, b, x, y + 1);
    lemma_ellipse_fn_steps(a, b, x - 1, y);
}

/// The size of the terms of the walk while it stays within its radii.
proof fn lemma_ellipse_bounds(a: int, b: int, u: int, v: int)
    requires
        0 <= a <= MAX_RADIUS,
        0 <= b <= MAX_RADIUS,
        -2 <= u <= a,
        0 <= v <= b + 2,
    ensures
        0 <= a * a <= 0x4000_0000_0000_0000,
        0 <= b * b <= 0x4000_0000_0000_0000,
        -0x1_0000_0000_0000_0000_0000_0000 <= (1 - 2 * u) * (b * b)
            <= 0x1_0000_0000_0000_0000_0000_0000,
        0 <= (1 + 2 * v) * (a * a) <= 0x1_0000_0000_0000_0000_0000_0000,
        -0x1000_0000_0000_0000_0000_0000_0000_0000 <= ellipse_fn(a, b, u, v)
            <= 0x3000_0000_0000_0000_0000_0000_0000_0000,
{
    let m: int = 0x8000_0000;
    let aa = a * a;
    let bb = b * b;
    let uu = u * u;
    let vv = v * v;
    assert(0 <= aa <= m * m) by (nonlinear_arith)
        requires
            0 <= a <= m,
            aa == a * a,
    ;
    assert(0 <= bb <= m * m) by (nonlinear_arith)
        requires
            0 <= b <= m,
            bb == b * b,
    ;
    assert(0 <= uu <= m * m) by (nonlinear_arith)
        requires
            -2 <= u <= m,
            uu == u * u,
            m == 0x8000_0000,
    {
        if u >= 0 {
            assert(u * u <= m * m);
        } else {
            assert(u == -1 || u == -2);
        }
    }
    assert(0 <= vv <= (m + 1) * (m + 1)) by (nonlinear_arith)
        requires
            0 <= v <= m + 1,
            vv == v * v,
    ;
    assert((m + 1) * (m + 1) == m * m + 0x1_0000_0001);
    assert(m * m == 0x4000_0000_0000_0000);
    let mm: int = 0x4000_0000_0000_0000;
    assert(0 <= bb * uu <= mm * mm) by (nonlinear_arith)
        requires
            0 <= bb <= mm,
            0 <= uu <= mm,
    ;
    assert(0 <= aa * vv <= mm * (mm + 0x2_0000_0000)) by (nonlinear_arith)
        requires
            0 <= aa <= mm,
            0 <= vv <= mm + 0x2_0000_0000,
    ;
    assert(0 <= aa * bb <= mm * mm) by (nonlinear_arith)
        requires
            0 <= aa <= mm,
            0 <= bb <= mm,
    ;
    assert(mm * mm == 0x1000_0000_0000_0000_0000_0000_0000_0000);
    assert(-0x2_0000_0000 * mm <= (1 - 2 * u) * bb <= 5 * mm) by (nonlinear_arith)
        requires
            -2 <= u <= m,
            m == 0x8000_0000,
            0 <= bb <= mm,
    ;
    assert(0 <= (1 + 2 * v) * aa <= 0x2_0000_0000 * mm) by (nonlinear_arith)
        requires
            0 <= v <= m + 1,
            m == 0x8000_0000,
            0 <= aa <= mm,
    ;
}

/// While the walk is away from the centre's column it moves outwards only
/// below the vertical radius.
proof fn lemma_arc_stays_below(a: int, b: int, x: int, y: int)
    requires
        a >= 1,
        b >= 0,
        y >= 0,
        arc_steps_out(a, b, x, y),
    ensures
        y < b,
{
    let aa = a * a;
    let bb = b * b;
    let uu = (x - 1) * (x - 1);
    let vv = (y + 1) * (y + 1);
    assert(aa >= 1) by (nonlinear_arith)
        requires
            a >= 1,
            aa == a * a,
    ;
    assert(bb * uu >= 0) by (nonlinear_arith)
        requires
            bb == b * b,
            uu == (x - 1) * (x - 1),
    ;
    assert(2 * (aa * vv) - 2 * (aa * bb) <= (1 + 2 * y) * aa);
    assert(aa * (2 * vv - 2 * bb - 1 - 2 * y) <= 0) by (nonlinear_arith)
        requires
            2 * (aa * vv) - 2 * (aa * bb) <= (1 + 2 * y) * aa,
    ;
    assert(2 * vv - 2 * bb - 1 - 2 * y <= 0) by (nonlinear_arith)
        requires
            aa >= 1,
            aa * (2 * vv - 2 * bb - 1 - 2 * y) <= 0,
    ;
    assert(y < b) by (nonlinear_arith)
        requires
            2 * vv - 2 * bb - 1 - 2 * y <= 0,
            vv == (y + 1) * (y + 1),
            bb == b * b,
            y >= 0,
            b >= 0,
    ;
}

/// The walk has one end only.
proof fn lemma_arc_last_is_unique(a: int, b: int, n: nat)
    requires
        is_arc_last(a, b, n),
    ensures
        arc_last(a, b) == n,
{
    let m = arc_last(a, b);
    assert(is_arc_last(a, b, m));
    if m < n {
        assert(arc_point(a, b, m).0 != 0);
    }
    if n < m {
        assert(arc_point(a, b, n).0 != 0);
    }
}

/// The cells of the first `n` points of the walk are the cells that mirror
/// one of those points.
pub proof fn lemma_arc_reach_cells(
    center: Cell,
    a: int,
    b: int,
    quadrants: [bool; 4],
    n: nat,
    cell: (int, int),
)
    ensures
        arc_reach(center, a, b, quadrants, n).contains(cell) <==> exists|k: nat|
            k < n && quadrant_cells(center, quadrants, #[trigger] arc_point(a, b, k)).contains(
                cell,
            ),
    decreases n,
{
    if n > 0 {
        let before = (n - 1) as nat;
        lemma_arc_reach_cells(center, a, b, quadrants, before, cell);
        if arc_reach(center, a, b, quadrants, n).contains(cell) {
            if quadrant_cells(center, quadrants, arc_point(a, b, before)).contains(cell) {
            } else {
                let k = choose|k: nat|
                    k < before && quadrant_cells(
                        center,
                        quadrants,
                        #[trigger] arc_point(a, b, k),
                    ).contains(cell);
                assert(k < n);
            }
        }
    }
}

/// The cells of the centre's column between two distances are the pole
/// cells of the distances between them.
pub proof fn lemma_pole_reach_cells(
    center: Cell,
    quadrants: [bool; 4],
    from: int,
    to: int,
    cell: (int, int),
)
    ensures
        pole_reach(center, quadrants, from, to).contains(cell) <==> exists|v: int|
            from < v <= to && (#[trigger] pole_cells(center, quadrants, v)).contains(cell),
    decreases to - from,
{
    if to > from {
        lemma_pole_reach_cells(center, quadrants, from, to - 1, cell);
        if pole_reach(center, quadrants, from, to).contains(cell) {
            if pole_cells(center, quadrants, to).contains(cell) {
            } else {
                let v = choose|v: int|
                    from < v <= to - 1 && (#[trigger] pole_cells(center, quadrants, v)).contains(
                        cell,
                    );
                assert(from < v <= to);
            }
        }
    }
}

/// Whether the first `n` points of the walk, and point `n` itself, lie
/// within the radii.
spec fn arc_within(a: int, b: int, n: nat) -> bool {
    forall|k: nat|
        k <= n ==> 0 <= (#[trigger] arc_point(a, b, k)).0 <= a && 0 <= arc_point(a, b, k).1 <= b
}

/// From a point within the radii that no earlier point has ended, the walk
/// goes on within the radii until it ends.
proof fn lemma_arc_walk(a: int, b: int, n: nat)
    requires
        a >= 0,
        b >= 0,
        arc_within(a, b, n),
        forall|k: nat| k < n ==> (#[trigger] arc_point(a, b, k)).0 != 0,
    ensures
        is_arc_last(a, b, arc_last(a, b)),
        arc_within(a, b, arc_last(a, b)),
    decreases arc_point(a, b, n).0 + b - arc_point(a, b, n).1,
{
    let (x, y) = arc_point(a, b, n);
    if x == 0 {
        lemma_arc_last_is_unique(a, b, n);
    } else {
        let aa = a * a;
        let bb = b * b;
        assert((1 - 2 * x) * bb <= 0 && (1 + 2 * y) * aa >= 0) by (nonlinear_arith)
            requires
                x >= 1,
                y >= 0,
                aa == a * a,
                bb == b * b,
        ;
        if arc_steps_out(a, b, x, y) {
            lemma_arc_stays_below(a, b, x, y);
        }
        let next = (n + 1) as nat;
        assert(arc_point(a, b, next) == arc_next(a, b, (x, y)));
        assert(arc_steps_in(a, b, x, y) || arc_steps_out(a, b, x, y));
        assert forall|k: nat| k <= next implies 0 <= (#[trigger] arc_point(a, b, k)).0 <= a && 0
            <= arc_point(a, b, k).1 <= b by {
            if k < next {
                assert(k <= n);
            }
        }
        assert forall|k: nat| k < next implies (#[trigger] arc_point(a, b, k)).0 != 0 by {
            if k < n {
            }
        }
        lemma_arc_walk(a, b, next);
    }
}

/// The walk ends, and up to its end it stays within the radii: between
/// the centre's column and `a` columns from it, and between the centre's
/// row and `b` rows from it.
pub proof fn lemma_arc_ends(a: int, b: int)
    requires
        a >= 0,
        b >= 0,
    ensures
        is_arc_last(a, b, arc_last(a, b)),
        forall|k: nat|
            k <= arc_last(a, b) ==> 0 <= (#[trigger] arc_point(a, b, k)).0 <= a && 0 <= arc_point(
                a,
                b,
                k,
            ).1 <= b,
{
    lemma_arc_walk(a, b, 0);
}

/// An ellipse with no quadrant switched on has no cell, so drawing it
/// changes nothing.
pub proof fn lemma_ellipse_without_quadrants(center: Cell, a: int, b: int, quadrants: [bool; 4])
    requires
        !quadrants[0] && !quadrants[1] && !quadrants[2] && !quadrants[3],
    ensures
        ellipse_points(center, a, b, quadrants) == Set::<(int, int)>::empty(),
{
    let points = ellipse_points(center, a, b, quadrants);
    let last = arc_last(a, b);
    assert forall|cell: (int, int)| !points.contains(cell) by {
        lemma_arc_reach_cells(center, a, b, quadrants, last + 1, cell);
        lemma_pole_reach_cells(center, quadrants, arc_point(a, b, last).1, b, cell);
    }
    assert(points =~= Set::<(int, int)>::empty());
}

/// Every cell of an ellipse lies within its radii of the centre. A cell
/// above the centre's row belongs to an upper quadrant that is switched on,
/// and a cell below it to a lower one; a cell left of the centre's column
/// belongs to a left quadrant that is switched on, and a cell right of it
/// to a right one.
pub proof fn lemma_ellipse_within_radii(
    center: Cell,
    a: int,
    b: int,
    quadrants: [bool; 4],
    cell: (int, int),
)
    requires
        a >= 0,
        b >= 0,
        ellipse_points(center, a, b, quadrants).contains(cell),
    ensures
        center.x - a <= cell.0 <= center.x + a,
        center.y - b <= cell.1 <= center.y + b,
        cell.1 < center.y ==> quadrants[0] || quadrants[1],
        cell.1 > center.y ==> quadrants[2] || quadrants[3],
        cell.0 < center.x ==> quadrants[1] || quadrants[2],
        cell.0 > center.x ==> quadrants[0] || quadrants[3],
{
    let last = arc_last(a, b);
    let from = arc_point(a, b, last).1;
    lemma_arc_ends(a, b);
    lemma_arc_reach_cells(center, a, b, quadrants, last + 1, cell);
    lemma_pole_reach_cells(center, quadrants, from, b, cell);
    if arc_reach(center, a, b, quadrants, last + 1).contains(cell) {
        let k = choose|k: nat|
            k < last + 1 && quadrant_cells(center, quadrants, #[trigger] arc_point(a, b, k)).contains(
                cell,
            );
        assert(k <= last);
    } else {
        let v = choose|v: int|
            from < v <= b && (#[trigger] pole_cells(center, quadrants, v)).contains(cell);
        assert(0 <= from);
    }
}

/// An ellipse whose two upper quadrants are both on or both off, and its
/// two lower ones likewise, is its own mirror image in the centre's column.
pub proof fn lemma_ellipse_mirror(
    center: Cell,
    a: int,
    b: int,
    quadrants: [bool; 4],
    across: int,
    row: int,
)
    requires
        quadrants[0] == quadrants[1],
        quadrants[2] == quadrants[3],
    ensures
        ellipse_points(center, a, b, quadrants).contains((center.x + across, row))
            <==> ellipse_points(center, a, b, quadrants).contains((center.x - across, row)),
{
    let points = ellipse_points(center, a, b, quadrants);
    if points.contains((center.x + across, row)) {
        lemma_ellipse_mirror_one_way(center, a, b, quadrants, across, row);
    }
    if points.contains((center.x - across, row)) {
        assert(center.x - across == center.x + (-across));
        lemma_ellipse_mirror_one_way(center, a, b, quadrants, -across, row);
        assert(center.x - (-across) == center.x + across);
    }
}

proof fn lemma_ellipse_mirror_one_way(
    center: Cell,
    a: int,
    b: int,
    quadrants: [bool; 4],
    across: int,
    row: int,
)
    requires
        quadrants[0] == quadrants[1],
        quadrants[2] == quadrants[3],
        ellipse_points(center, a, b, quadrants).contains((center.x + across, row)),
    ensures
        ellipse_points(center, a, b, quadrants).contains((center.x - across, row)),
{
    let last = arc_last(a, b);
    let from = arc_point(a, b, last).1;
    let cell = (center.x + across, row);
    let mirrored = (center.x - across, row);
    lemma_arc_reach_cells(center, a, b, quadrants, last + 1, cell);
    lemma_arc_reach_cells(center, a, b, quadrants, last + 1, mirrored);
    lemma_pole_reach_cells(center, quadrants, from, b, cell);
    lemma_pole_reach_cells(center, quadrants, from, b, mirrored);
    if arc_reach(center, a, b, quadrants, last + 1).contains(cell) {
        let k = choose|k: nat|
            k < last + 1 && quadrant_cells(center, quadrants, #[trigger] arc_point(a, b, k)).contains(
                cell,
            );
        assert(quadrant_cells(center, quadrants, arc_point(a, b, k)).contains(mirrored));
    } else {
        let v = choose|v: int|
            from < v <= b && (#[trigger] pole_cells(center, quadrants, v)).contains(cell);
        assert(pole_cells(center, quadrants, v).contains(mirrored));
    }
}

impl<const R: usize, const C: usize> Image<R, C> {
    /// Writes `color` to the cell `(px, py)` if it is `wanted`. The cell
    /// comes as the outcome of checked arithmetic: a coordinate that does
    /// not fit is absent, and then nothing is written.
    fn plot_checked(
        &mut self,
        wanted: bool,
        x: Option<usize>,
        y: Option<usize>,
        color: Color,
        Ghost(px): Ghost<int>,
        Ghost(py): Ghost<int>,
    )
        requires
            wanted ==> match x {
                Some(x) => x == px,
                None => px < 0 || px > usize::MAX,
            },
            wanted ==> match y {
                Some(y) => y == py,
                None => py < 0 || py > usize::MAX,
            },
        ensures
            final(self)@ == paint(old(self)@, optional_cell(wanted, px, py), color),
    {
        if wanted {
            self.plot(x, y, color);
            assert(self@ =~~= paint(old(self)@, set![(px, py)], color));
        } else {
            proof {
                lemma_paint_nothing(self@, color);
            }
        }
    }

    /// Mirrors the point `(x, y)` of the walk into the quadrants that are
    /// switched on.
    fn plot_quadrants(
        &mut self,
        center: &Cell,
        x: usize,
        y: usize,
        draw_quadrants: &[bool; 4],
        color: Color,
    )
        ensures
            final(self)@ == paint(
                old(self)@,
                quadrant_cells(*center, *draw_quadrants, (x as int, y as int)),
                color,
            ),
    {
        let ghost first = optional_cell(draw_quadrants[0], center.x + x, center.y - y);
        let ghost second = optional_cell(draw_quadrants[1], center.x - x, center.y - y);
        let ghost third = optional_cell(draw_quadrants[2], center.x - x, center.y + y);
        let ghost fourth = optional_cell(draw_quadrants[3], center.x + x, center.y + y);
        // I. Quadrant
        let wanted: bool = draw_quadrants[0];
        let at_x: Option<usize> = if wanted { center.x.checked_add(x) } else { None };
        let at_y: Option<usize> = if wanted { center.y.checked_sub(y) } else { None };
        self.plot_checked(wanted, at_x, at_y, color, Ghost(center.x + x), Ghost(center.y - y));
        // II. Quadrant
        let wanted: bool = draw_quadrants[1];
        let at_x: Option<usize> = if wanted { center.x.checked_sub(x) } else { None };
        let at_y: Option<usize> = if wanted { center.y.checked_sub(y) } else { None };
        self.plot_checked(wanted, at_x, at_y, color, Ghost(center.x - x), Ghost(center.y - y));
        // III. Quadrant
        let wanted: bool = draw_quadrants[2];
        let at_x: Option<usize> = if wanted { center.x.checked_sub(x) } else { None };
        let at_y: Option<usize> = if wanted { center.y.checked_add(y) } else { None };
        self.plot_checked(wanted, at_x, at_y, color, Ghost(center.x - x), Ghost(center.y + y));
        // IV. Quadrant
        let wanted: bool = draw_quadrants[3];
        let at_x: Option<usize> = if wanted { center.x.checked_add(x) } else { None };
        let at_y: Option<usize> = if wanted { center.y.checked_add(y) } else { None };
        self.plot_checked(wanted, at_x, at_y, color, Ghost(center.x + x), Ghost(center.y + y));
        proof {
            lemma_paint_union(old(self)@, first, second, color);
            lemma_paint_union(old(self)@, first.union(second), third, color);
            lemma_paint_union(old(self)@, first.union(second).union(third), fourth, color);
        }
    }

    /// Writes the cells of the centre's column `y` rows above and below it,
    /// for the halves that have a quadrant switched on.
    fn plot_poles(&mut self, center: &Cell, y: usize, draw_quadrants: &[bool; 4], color: Color)
        ensures
            final(self)@ == paint(
                old(self)@,
                pole_cells(*center, *draw_quadrants, y as int),
                color,
            ),
    {
        let ghost above = optional_cell(
            draw_quadrants[0] || draw_quadrants[1],
            center.x as int,
            center.y - y,
        );
        let ghost below = optional_cell(
            draw_quadrants[2] || draw_quadrants[3],
            center.x as int,
            center.y + y,
        );
        let wanted: bool = draw_quadrants[0] || draw_quadrants[1];
        let at_y: Option<usize> = if wanted { center.y.checked_sub(y) } else { None };
        self.plot_checked(wanted, Some(center.x), at_y, color, Ghost(center.x as int), Ghost(center.y - y));
        let wanted: bool = draw_quadrants[2] || draw_quadrants[3];
        let at_y: Option<usize> = if wanted { center.y.checked_add(y) } else { None };
        self.plot_checked(wanted, Some(center.x), at_y, color, Ghost(center.x as int), Ghost(center.y + y));
        proof {
            lemma_paint_union(old(self)@, above, below, color);
        }
    }

    /// Draws an ellipse centered at `center` with width `a` and height `b`.
    /// Only draws the quadrants set to `true` in `draw_quadrants`.
    /// `draw_quadrants` is an array of quadrant I through quadrant IV; i.e.
    /// it starts in the top right and goes counter-clockwise.
    pub fn draw_ellipse(
        &mut self,
        center: Cell,
        a: usize,
        b: usize,
        draw_quadrants: [bool; 4],
        color: Color,
    )
        requires
            a <= MAX_RADIUS,
            b <= MAX_RADIUS,
        ensures
            final(self)@ == paint(
                old(self)@,
                ellipse_points(center, a as int, b as int, draw_quadrants),
                color,
            ),
    {
        proof {
            lemma_ellipse_bounds(a as int, b as int, a as int, 0);
            lemma_ellipse_fn_steps(a as int, b as int, a as int, 0);
            lemma_ellipse_fn_steps(a as int, b as int, a - 1, 0);
            assert(ellipse_fn(a as int, b as int, a as int, 0) == 0) by (nonlinear_arith);
            assert((1 + 2 * 0) * (a * a) == a * a) by (nonlinear_arith);
            lemma_paint_nothing(self@, color);
        }
        let aa: i128 = (a as i128) * (a as i128);
        let bb: i128 = (b as i128) * (b as i128);
        let mut x: usize = a;  // IV. quadrant
        let mut y: usize = 0;
        let mut dx: i128 = (1 - 2 * (x as i128)) * bb;
        let mut dy: i128 = aa;
        let mut error: i128 = dx + dy;
        let ghost mut n: nat = 0;
        loop
            invariant_except_break
                self@ == paint(
                    old(self)@,
                    arc_reach(center, a as int, b as int, draw_quadrants, n),
                    color,
                ),
            invariant
                a <= MAX_RADIUS,
                b <= MAX_RADIUS,
                aa == a * a,
                bb == b * b,
                x <= a,
                y <= b,
                (x as int, y as int) == arc_point(a as int, b as int, n),
                forall|k: nat| k < n ==> (#[trigger] arc_point(a as int, b as int, k)).0 != 0,
                dx == (1 - 2 * x) * bb,
                dy == (1 + 2 * y) * aa,
                error == ellipse_fn(a as int, b as int, x - 1, y + 1),
                x == 0 ==> 2 * error >= dx,
            ensures
                x == 0,
                is_arc_last(a as int, b as int, n),
                self@ == paint(
                    old(self)@,
                    arc_reach(center, a as int, b as int, draw_quadrants, n + 1),
                    color,
                ),
            decreases x + b - y,
        {
            let ghost reach = arc_reach(center, a as int, b as int, draw_quadrants, n);
            self.plot_quadrants(&center, x, y, &draw_quadrants, color);
            proof {
                lemma_paint_union(
                    old(self)@,
                    reach,
                    quadrant_cells(center, draw_quadrants, (x as int, y as int)),
                    color,
                );
                lemma_ellipse_bounds(a as int, b as int, x - 1, y + 1);
                lemma_ellipse_fn_steps(a as int, b as int, x - 1, y + 1);
                lemma_ellipse_fn_steps(a as int, b as int, x - 2, y + 1);
                assert((1 - 2 * (x - 1)) * bb == (1 - 2 * x) * bb + 2 * bb) by (nonlinear_arith);
                assert((1 + 2 * (y + 1)) * aa == (1 + 2 * y) * aa + 2 * aa) by (nonlinear_arith);
                if x == 1 {
                    assert((1 - 2 * x) * bb == -bb) by (nonlinear_arith)
                        requires
                            x == 1,
                    ;
                }
                if x >= 1 {
                    assert((1 - 2 * x) * bb <= 0) by (nonlinear_arith)
                        requires
                            x >= 1,
                            bb >= 0,
                    ;
                    if arc_steps_out(a as int, b as int, x as int, y as int) {
                        lemma_arc_stays_below(a as int, b as int, x as int, y as int);
                    }
                }
            }
            let error2: i128 = error * 2;
            let ghost at = (x as int, y as int);
            if error2 >= dx {
                if x == 0 {
                    break ;
                }
                x -= 1;
                dx += 2 * bb;
                error += dx;
            }
            if error2 <= dy {
                y += 1;
                dy += 2 * aa;
                error += dy;
            }
            proof {
                n = n + 1;
                assert(arc_point(a as int, b as int, n) == arc_next(a as int, b as int, at));
            }
        }
        proof {
            lemma_arc_last_is_unique(a as int, b as int, n);
        }
        let ghost arc = arc_reach(center, a as int, b as int, draw_quadrants, n + 1);
        let ghost from: int = y as int;
        proof {
            assert(arc.union(pole_reach(center, draw_quadrants, from, from)) =~= arc);
        }
        // Handle very flat ellipses (a=1)
        while y < b
            invariant
                from <= y <= b,
                self@ == paint(
                    old(self)@,
                    arc.union(pole_reach(center, draw_quadrants, from, y as int)),
                    color,
                ),
            decreases b - y,
        {
            y += 1;
            let ghost before = arc.union(pole_reach(center, draw_quadrants, from, y - 1));
            self.plot_poles(&center, y, &draw_quadrants, color);
            proof {
                lemma_paint_union(
                    old(self)@,
                    before,
                    pole_cells(center, draw_quadrants, y as int),
                    color,
                );
                assert(before.union(pole_cells(center, draw_quadrants, y as int)) =~= arc.union(
                    pole_reach(center, draw_quadrants, from, y as int),
                ));
            }
        }
    }
}

} // verus!
