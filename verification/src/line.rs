//! Straight lines on the canvas, drawn with Bresenham's algorithm.
use crate::art::{lemma_paint_nothing, lemma_paint_union, paint, Cell, Color, Image};
use vstd::arithmetic::div_mod::{
    lemma_fundamental_div_mod, lemma_fundamental_div_mod_converse, lemma_mod_bound,
};
use vstd::prelude::*;

verus! {

/// If true, never leaves a line connected by just a diagonal
pub const THICK_LINES: bool = false;

/// How far apart `a` and `b` are.
pub open spec fn distance(a: int, b: int) -> int {
    if a >= b {
        a - b
    } else {
        b - a
    }
}

/// The coordinate `steps` steps away from `from`, on the side of `to`.
pub open spec fn toward(from: int, to: int, steps: int) -> int {
    if to > from {
        from + steps
    } else {
        from - steps
    }
}

/// `n * minor / major` rounded to the nearest integer, a half rounding up;
/// 0 where `major` is 0.
pub open spec fn rounded_share(n: int, minor: int, major: int) -> int {
    if major == 0 {
        0
    } else {
        (2 * n * minor + major) / (2 * major)
    }
}

/// The number of steps from `start` to `end`: the longer of the two spans.
pub open spec fn line_steps(start: Cell, end: Cell) -> nat {
    let dx = distance(end.x as int, start.x as int);
    let dy = distance(end.y as int, start.y as int);
    if dx >= dy {
        dx as nat
    } else {
        dy as nat
    }
}

/// The cell of the line after `n` steps, as column and row. Every step
/// moves one cell along the longer span; the position along the shorter
/// one is its share of the way, rounded.
pub open spec fn line_cell(start: Cell, end: Cell, n: int) -> (int, int) {
    let dx = distance(end.x as int, start.x as int);
    let dy = distance(end.y as int, start.y as int);
    if dx >= dy {
        (
            toward(start.x as int, end.x as int, n),
            toward(start.y as int, end.y as int, rounded_share(n, dy, dx)),
        )
    } else {
        (
            toward(start.x as int, end.x as int, rounded_share(n, dx, dy)),
            toward(start.y as int, end.y as int, n),
        )
    }
}

/// The cell beside step `n`: in the column that the line is in after the
/// step and the row that it was in before. Where the step is diagonal this
/// is the cell that closes the corner; where it is not, a cell of the line.
pub open spec fn line_corner(start: Cell, end: Cell, n: int) -> (int, int) {
    (line_cell(start, end, n + 1).0, line_cell(start, end, n).1)
}

/// The cells drawn up to and including step `n`: the cells of the line,
/// and for a thick line the corner of every step taken.
pub open spec fn line_reach(start: Cell, end: Cell, thick: bool, n: nat) -> Set<(int, int)>
    decreases n,
{
    if n == 0 {
        set![line_cell(start, end, 0)]
    } else {
        let line = line_reach(start, end, thick, (n - 1) as nat).insert(
            line_cell(start, end, n as int),
        );
        if thick {
            line.insert(line_corner(start, end, n - 1))
        } else {
            line
        }
    }
}

/// All the cells of the line from `start` to `end`.
pub open spec fn line_points(start: Cell, end: Cell, thick: bool) -> Set<(int, int)> {
    line_reach(start, end, thick, line_steps(start, end))
}

/// Whether position `k` along the shorter span is within half a cell of the
/// ideal line after `n` steps along the longer one (the upper half cell
/// included, the lower one not).
spec fn near_line(n: int, minor: int, major: int, k: int) -> bool {
    -major < 2 * (k * major - n * minor) <= major
}

proof fn lemma_near_line_is_rounded_share(n: int, minor: int, major: int, k: int)
    requires
        major > 0,
        near_line(n, minor, major, k),
    ensures
        k == rounded_share(n, minor, major),
{
    let x = 2 * n * minor + major;
    let d = 2 * major;
    let r = x - k * d;
    assert(k * d == 2 * (k * major)) by (nonlinear_arith)
        requires
            d == 2 * major,
    ;
    assert(2 * n * minor == 2 * (n * minor)) by (nonlinear_arith);
    lemma_fundamental_div_mod_converse(x, d, k, r);
}

proof fn lemma_near_line_bounds(n: int, minor: int, major: int, k: int)
    requires
        major > 0,
        0 <= minor <= major,
        0 <= n <= major,
        near_line(n, minor, major, k),
    ensures
        0 <= k <= minor,
        n == major ==> k == minor,
{
    assert(0 <= k <= minor && (n == major ==> k == minor)) by (nonlinear_arith)
        requires
            major > 0,
            0 <= minor <= major,
            0 <= n <= major,
            -major < 2 * (k * major - n * minor) <= major,
    {
        if k < 0 {
            assert(k * major <= -major);
            assert(n * minor >= 0);
        }
        if k > minor {
            assert(k * major >= (minor + 1) * major);
            assert(n * minor <= major * minor);
        }
        if n == major && k < minor {
            assert(k * major <= (minor - 1) * major);
        }
    }
}

proof fn lemma_mul_succ(k: int, m: int)
    ensures
        (k + 1) * m == k * m + m,
{
    assert((k + 1) * m == k * m + m) by (nonlinear_arith);
}

/// Every step's reach holds the cell of that step.
proof fn lemma_line_reach_has_cell(start: Cell, end: Cell, thick: bool, n: nat)
    ensures
        line_reach(start, end, thick, n).contains(line_cell(start, end, n as int)),
{
}

/// What has been drawn up to step `n`, cell by cell: the cells of the
/// steps so far, and for a thick line the corners of the steps taken; a
/// thin line is its cells and nothing else.
pub proof fn lemma_line_reach_cells(start: Cell, end: Cell, thick: bool, n: nat, cell: (int, int))
    ensures
        line_reach(start, end, thick, n).contains(cell) <==> (exists|k: int|
            0 <= k <= n && cell == #[trigger] line_cell(start, end, k)) || (thick && exists|k: int|
            0 <= k < n && cell == #[trigger] line_corner(start, end, k)),
    decreases n,
{
    if n == 0 {
        assert(line_cell(start, end, 0) == line_cell(start, end, 0));
    } else {
        lemma_line_reach_cells(start, end, thick, (n - 1) as nat, cell);
        if line_reach(start, end, thick, n).contains(cell) {
            if cell == line_cell(start, end, n as int) {
            } else if thick && cell == line_corner(start, end, n - 1) {
            } else if exists|k: int| 0 <= k <= n - 1 && cell == #[trigger] line_cell(start, end, k) {
                let k = choose|k: int| 0 <= k <= n - 1 && cell == #[trigger] line_cell(start, end, k);
                assert(0 <= k <= n && cell == line_cell(start, end, k));
            } else {
                let k = choose|k: int|
                    0 <= k < n - 1 && cell == #[trigger] line_corner(start, end, k);
                assert(0 <= k < n && cell == line_corner(start, end, k));
            }
        }
    }
}

proof fn lemma_rounded_share_is_near_line(n: int, minor: int, major: int)
    requires
        major > 0,
    ensures
        near_line(n, minor, major, rounded_share(n, minor, major)),
{
    let x = 2 * n * minor + major;
    let d = 2 * major;
    let q = x / d;
    lemma_fundamental_div_mod(x, d);
    lemma_mod_bound(x, d);
    assert(d * q == 2 * (q * major)) by (nonlinear_arith)
        requires
            d == 2 * major,
    ;
    assert(2 * n * minor == 2 * (n * minor)) by (nonlinear_arith);
}

/// A line starts in `start` and, after its last step, is in `end`.
pub proof fn lemma_line_ends(start: Cell, end: Cell)
    ensures
        line_cell(start, end, 0) == (start.x as int, start.y as int),
        line_cell(start, end, line_steps(start, end) as int) == (end.x as int, end.y as int),
{
    let dx = distance(end.x as int, start.x as int);
    let dy = distance(end.y as int, start.y as int);
    let major = line_steps(start, end) as int;
    let minor = if dx >= dy {
        dy
    } else {
        dx
    };
    if major > 0 {
        lemma_near_line_is_rounded_share(0, minor, major, 0);
        assert(minor * major == major * minor) by (nonlinear_arith);
        lemma_near_line_is_rounded_share(major, minor, major, minor);
    }
}

/// A line has no gaps: every step moves to a neighbouring cell, by one
/// along the longer span and by one or not at all along the shorter.
pub proof fn lemma_line_is_connected(start: Cell, end: Cell, n: int)
    requires
        0 <= n < line_steps(start, end),
    ensures
        ({
            let from = line_cell(start, end, n);
            let to = line_cell(start, end, n + 1);
            &&& distance(to.0, from.0) <= 1
            &&& distance(to.1, from.1) <= 1
            &&& distance(to.0, from.0) == 1 || distance(to.1, from.1) == 1
        }),
{
    let dx = distance(end.x as int, start.x as int);
    let dy = distance(end.y as int, start.y as int);
    let major = line_steps(start, end) as int;
    let minor = if dx >= dy {
        dy
    } else {
        dx
    };
    let k = rounded_share(n, minor, major);
    lemma_rounded_share_is_near_line(n, minor, major);
    lemma_mul_succ(k, major);
    lemma_mul_succ(n, minor);
    let k_next = if 2 * (k * major - n * minor) <= 2 * minor - major {
        k + 1
    } else {
        k
    };
    assert(near_line(n + 1, minor, major, k_next));
    lemma_near_line_is_rounded_share(n + 1, minor, major, k_next);
}

/// A line from a cell to itself is that one cell, thick or thin.
pub proof fn lemma_line_of_one_cell(start: Cell, end: Cell, thick: bool)
    requires
        start.x == end.x,
        start.y == end.y,
    ensures
        line_points(start, end, thick) == set![(start.x as int, start.y as int)],
{
}

/// Whether `v` lies between `a` and `b`, both included, whichever is larger.
pub open spec fn between(v: int, a: int, b: int) -> bool {
    (a <= v <= b) || (b <= v <= a)
}

proof fn lemma_straight_reach(start: Cell, end: Cell, thick: bool, n: nat, cell: (int, int))
    requires
        start.x == end.x || start.y == end.y,
        n <= line_steps(start, end),
    ensures
        line_reach(start, end, thick, n).contains(cell) <==> if start.x == end.x {
            cell.0 == start.x && between(
                cell.1,
                start.y as int,
                toward(start.y as int, end.y as int, n as int),
            )
        } else {
            cell.1 == start.y && between(
                cell.0,
                start.x as int,
                toward(start.x as int, end.x as int, n as int),
            )
        },
    decreases n,
{
    let major = line_steps(start, end) as int;
    if major > 0 {
        lemma_near_line_is_rounded_share(n as int, 0, major, 0);
        if n > 0 {
            lemma_near_line_is_rounded_share(n - 1, 0, major, 0);
        }
    }
    if n > 0 {
        lemma_straight_reach(start, end, thick, (n - 1) as nat, cell);
        lemma_line_reach_has_cell(start, end, thick, (n - 1) as nat);
    }
}

/// A line along one column or one row is the run of cells from `start` to
/// `end`, thick or thin.
pub proof fn lemma_straight_line(start: Cell, end: Cell, thick: bool, cell: (int, int))
    requires
        start.x == end.x || start.y == end.y,
    ensures
        line_points(start, end, thick).contains(cell) <==> if start.x == end.x {
            cell.0 == start.x && between(cell.1, start.y as int, end.y as int)
        } else {
            cell.1 == start.y && between(cell.0, start.x as int, end.x as int)
        },
{
    lemma_straight_reach(start, end, thick, line_steps(start, end), cell);
}

impl<const R: usize, const C: usize> Image<R, C> {
    /// Draws a line from `start` to `end` with the given `color`
    pub fn draw_line(&mut self, start: Cell, end: Cell, color: Color)
        ensures
            final(self)@ == paint(old(self)@, line_points(start, end, THICK_LINES), color),
    {
        self.draw_line_with(start, end, color, THICK_LINES)
    }

    /// Draws a line from `start` to `end` with the given `color`; a `thick`
    /// line also fills the corner of every diagonal step.
    pub fn draw_line_with(&mut self, start: Cell, end: Cell, color: Color, thick: bool)
        ensures
            final(self)@ == paint(old(self)@, line_points(start, end, thick), color),
    {
        let right: bool = end.x > start.x;
        let down: bool = end.y > start.y;
        let span_x: usize = if right {
            end.x - start.x
        } else {
            start.x - end.x
        };
        let span_y: usize = if down {
            end.y - start.y
        } else {
            start.y - end.y
        };
        let dx: i128 = span_x as i128;
        let dy: i128 = -(span_y as i128);
        let mut error: i128 = dx + dy;
        let mut x: usize = start.x;
        let mut y: usize = start.y;
        self.plot(Some(x), Some(y), color);
        let ghost wide: bool = span_x >= span_y;
        let ghost steps: nat = line_steps(start, end);
        let ghost mut n: int = 0;
        let ghost mut i: int = 0;
        let ghost mut j: int = 0;
        // The products `j * span_x` and `i * span_y`.
        let ghost mut p: int = 0;
        let ghost mut q: int = 0;
        proof {
            if steps > 0 {
                if wide {
                    lemma_near_line_is_rounded_share(0, span_y as int, span_x as int, 0);
                } else {
                    lemma_near_line_is_rounded_share(0, span_x as int, span_y as int, 0);
                }
            }
            assert(line_cell(start, end, 0) == (x as int, y as int));
            lemma_paint_union(old(self)@, Set::empty(), set![(x as int, y as int)], color);
            assert(Set::<(int, int)>::empty().union(set![(x as int, y as int)]) =~= line_reach(
                start,
                end,
                thick,
                0,
            ));
            lemma_paint_nothing(old(self)@, color);
        }
        while x != end.x || y != end.y
            invariant
                right == (end.x > start.x),
                down == (end.y > start.y),
                span_x == distance(end.x as int, start.x as int),
                span_y == distance(end.y as int, start.y as int),
                dx == span_x,
                dy == -span_y,
                wide == (span_x >= span_y),
                steps == line_steps(start, end),
                0 <= n <= steps,
                0 <= i <= span_x,
                0 <= j <= span_y,
                x == toward(start.x as int, end.x as int, i),
                y == toward(start.y as int, end.y as int, j),
                (x as int, y as int) == line_cell(start, end, n),
                p == j * span_x,
                q == i * span_y,
                error == p + dx - q + dy,
                wide ==> i == n && (steps > 0 ==> near_line(i, span_y as int, span_x as int, j)),
                !wide ==> j == n && near_line(j, span_x as int, span_y as int, i),
                self@ == paint(old(self)@, line_reach(start, end, thick, n as nat), color),
            decreases steps - n,
        {
            let ghost major: int = if wide {
                span_x as int
            } else {
                span_y as int
            };
            let ghost minor: int = if wide {
                span_y as int
            } else {
                span_x as int
            };
            // Twice how far the shorter span is ahead of the ideal line.
            let ghost lead: int = if wide {
                2 * (p - q)
            } else {
                2 * (q - p)
            };
            let ghost k: int = if wide {
                j
            } else {
                i
            };
            proof {
                if n == steps {
                    if steps > 0 {
                        lemma_near_line_bounds(n, minor, major, k);
                    }
                    assert(false);
                }
                assert(major > 0 && near_line(n, minor, major, k));
                assert(lead == 2 * (k * major - n * minor));
                assert(-major < lead <= major);
            }
            let error2: i128 = error * 2;
            let ghost steps_minor: bool = lead <= 2 * minor - major;
            let ghost k_next: int = if steps_minor {
                k + 1
            } else {
                k
            };
            let ghost cell = (x as int, y as int);
            let ghost before = self@;
            let ghost reach = line_reach(start, end, thick, n as nat);
            proof {
                lemma_mul_succ(k, major);
                lemma_mul_succ(n, minor);
                assert(near_line(n + 1, minor, major, k_next));
                lemma_near_line_bounds(n + 1, minor, major, k_next);
                lemma_near_line_is_rounded_share(n + 1, minor, major, k_next);
                if wide {
                    assert(error2 >= dy);
                    assert((error2 <= dx) == steps_minor);
                } else {
                    assert(error2 <= dx);
                    assert((error2 >= dy) == steps_minor);
                }
                lemma_line_reach_has_cell(start, end, thick, n as nat);
            }
            let ghost mut drawn: Set<(int, int)> = reach;
            if error2 >= dy {
                error += dy;
                x = if right {
                    x.saturating_add(1)
                } else {
                    x.saturating_sub(1)
                };
                proof {
                    i = i + 1;
                    q = q + span_y;
                }
                if thick {
                    self.plot(Some(x), Some(y), color);
                    proof {
                        lemma_paint_union(old(self)@, drawn, set![(x as int, y as int)], color);
                        drawn = drawn.union(set![(x as int, y as int)]);
                    }
                }
            }
            if error2 <= dx {
                error += dx;
                y = if down {
                    y.saturating_add(1)
                } else {
                    y.saturating_sub(1)
                };
                proof {
                    j = j + 1;
                    p = p + span_x;
                }
                if thick {
                    self.plot(Some(x), Some(y), color);
                    proof {
                        lemma_paint_union(old(self)@, drawn, set![(x as int, y as int)], color);
                        drawn = drawn.union(set![(x as int, y as int)]);
                    }
                }
            }
            if !thick {
                self.plot(Some(x), Some(y), color);
                proof {
                    lemma_paint_union(old(self)@, drawn, set![(x as int, y as int)], color);
                    drawn = drawn.union(set![(x as int, y as int)]);
                }
            }
            proof {
                n = n + 1;
                assert((x as int, y as int) == line_cell(start, end, n));
                assert(line_corner(start, end, n - 1) == (x as int, cell.1));
                assert(drawn =~= line_reach(start, end, thick, n as nat));
            }
        }
        proof {
            assert(n == steps);
        }
    }
}

} // verus!
