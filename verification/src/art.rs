//! The canvas: colors, cells, and an image of a fixed number of rows and
//! columns that is filled and drawn on in place.
use vstd::arithmetic::div_mod::lemma_multiply_divide_lt;
use vstd::prelude::*;

verus! {

/// Represents a cell on the grid.
pub struct Cell {
    pub x: usize,
    pub y: usize,
}

impl Cell {
    /// The cell in column `x` of row `y`. No bound is asked of either: a
    /// cell outside an image is simply never written.
    pub fn new(x: usize, y: usize) -> (cell: Cell)
        ensures
            cell.x == x,
            cell.y == y,
    {
        Cell { x, y }
    }
}

/// Represents an RGB color
#[derive(Debug, Clone, Copy, PartialEq, Eq, Hash, Structural)]
pub struct Color {
    pub red: u8,
    pub green: u8,
    pub blue: u8,
}

impl Default for Color {
    /// Black.
    fn default() -> (color: Self)
        ensures
            color == (Color { red: 0, green: 0, blue: 0 }),
    {
        Color { red: 0, green: 0, blue: 0 }
    }
}

/// The color packed as `0xRRGGBB` in the low 24 bits of `value`; higher
/// bits are ignored.
pub open spec fn color_of_hex(value: int) -> Color {
    Color {
        red: (value / 0x1_0000 % 0x100) as u8,
        green: (value / 0x100 % 0x100) as u8,
        blue: (value % 0x100) as u8,
    }
}

/// `color` packed as `0xRRGGBB`.
pub open spec fn hex_of_color(color: Color) -> int {
    color.red * 0x1_0000 + color.green * 0x100 + color.blue
}

impl Color {
    pub fn from_hex(value: usize) -> (color: Self)
        ensures
            color == color_of_hex(value as int),
    {
        let red = (value >> 16) as u8;
        let green = (value >> 8) as u8;
        let blue = value as u8;
        assert(red == (value / 0x1_0000 % 0x100) as u8 && green == (value / 0x100 % 0x100) as u8
            && blue == (value % 0x100) as u8) by (bit_vector)
            requires
                red == (value >> 16) as u8,
                green == (value >> 8) as u8,
                blue == value as u8,
        ;
        Self { red, green, blue }
    }

    pub fn to_hex(&self) -> (value: usize)
        ensures
            value == hex_of_color(*self),
    {
        let red = self.red;
        let green = self.green;
        let blue = self.blue;
        let value = (red as usize) << 16 | (green as usize) << 8 | blue as usize;
        assert(value == red * 0x1_0000 + green * 0x100 + blue) by (bit_vector)
            requires
                value == (red as usize) << 16 | (green as usize) << 8 | blue as usize,
        ;
        value
    }
}

/// Packing a color and unpacking it again gives the color back; unpacking
/// and packing keeps the low 24 bits.
pub proof fn lemma_hex_round_trip(color: Color, value: int)
    requires
        0 <= value,
    ensures
        color_of_hex(hex_of_color(color)) == color,
        hex_of_color(color_of_hex(value)) == value % 0x100_0000,
{
}

/// A grid of pixels `R` rows by `C` columns.
pub type Pixels<const R: usize, const C: usize> = Box<[[Color; C]; R]>;

/// Represents an image.
pub struct Image<const R: usize, const C: usize> {
    pub pixels: Pixels<R, C>,
}

/// The grid of `rows` rows and `cols` columns that has `color` everywhere.
pub open spec fn solid_grid(rows: nat, cols: nat, color: Color) -> Seq<Seq<Color>> {
    Seq::new(rows, |y: int| Seq::new(cols, |x: int| color))
}

/// `grid` with `color` in every cell of `cells` that lies within it. A cell
/// is a pair of column and row; cells outside the grid change nothing.
pub open spec fn paint(grid: Seq<Seq<Color>>, cells: Set<(int, int)>, color: Color) -> Seq<
    Seq<Color>,
> {
    Seq::new(
        grid.len(),
        |y: int|
            Seq::new(
                grid[y].len(),
                |x: int|
                    if cells.contains((x, y)) {
                        color
                    } else {
                        grid[y][x]
                    },
            ),
    )
}

/// Painting one set of cells and then another, in one color, is painting
/// their union.
pub proof fn lemma_paint_union(
    grid: Seq<Seq<Color>>,
    first: Set<(int, int)>,
    second: Set<(int, int)>,
    color: Color,
)
    ensures
        paint(paint(grid, first, color), second, color) == paint(grid, first.union(second), color),
{
    assert(paint(paint(grid, first, color), second, color) =~~= paint(
        grid,
        first.union(second),
        color,
    ));
}

/// Painting no cell changes nothing.
pub proof fn lemma_paint_nothing(grid: Seq<Seq<Color>>, color: Color)
    ensures
        paint(grid, Set::empty(), color) == grid,
{
    assert(paint(grid, Set::empty(), color) =~~= grid);
}

/// How far along the gradient the cell in column `x` of row `y` lies, in
/// percent, on a grid of `rows` by `cols`.
pub open spec fn blend_percent(x: int, y: int, rows: int, cols: int) -> int {
    100 * (x + y) / (cols + rows)
}

/// One channel of the gradient: `blend` percent of `start` and the rest of
/// `end`, rounded down.
pub open spec fn lerp(start: u8, end: u8, blend: int) -> u8 {
    ((start * blend + end * (100 - blend)) / 100) as u8
}

/// The gradient's color at `blend` percent.
pub open spec fn gradient_color(start: Color, end: Color, blend: int) -> Color {
    Color {
        red: lerp(start.red, end.red, blend),
        green: lerp(start.green, end.green, blend),
        blue: lerp(start.blue, end.blue, blend),
    }
}

/// The whole gradient on a grid of `rows` by `cols`.
pub open spec fn gradient_grid(rows: nat, cols: nat, start: Color, end: Color) -> Seq<Seq<Color>> {
    Seq::new(
        rows,
        |y: int|
            Seq::new(
                cols,
                |x: int| gradient_color(start, end, blend_percent(x, y, rows as int, cols as int)),
            ),
    )
}

/// The bytes of one row of pixels: red, green, blue for each, left to right.
pub open spec fn row_bytes(row: Seq<Color>) -> Seq<u8>
    decreases row.len(),
{
    if row.len() == 0 {
        Seq::empty()
    } else {
        row_bytes(row.drop_last()) + seq![row.last().red, row.last().green, row.last().blue]
    }
}

/// The image data before compression: each row from the top, as a filter
/// byte of 0 ("none") and then the row's bytes.
pub open spec fn raw_pixel_bytes(grid: Seq<Seq<Color>>) -> Seq<u8>
    decreases grid.len(),
{
    if grid.len() == 0 {
        Seq::empty()
    } else {
        raw_pixel_bytes(grid.drop_last()) + seq![0u8] + row_bytes(grid.last())
    }
}

/// The length of the bytes of a row.
pub proof fn lemma_row_bytes_len(row: Seq<Color>)
    ensures
        row_bytes(row).len() == 3 * row.len(),
    decreases row.len(),
{
    if row.len() > 0 {
        lemma_row_bytes_len(row.drop_last());
    }
}

/// The image data of a grid of `rows` rows of `cols` pixels each has one
/// byte for every row and three for every pixel.
pub proof fn lemma_raw_pixel_bytes_len(grid: Seq<Seq<Color>>, cols: nat)
    requires
        forall|y: int| 0 <= y < grid.len() ==> (#[trigger] grid[y]).len() == cols,
    ensures
        raw_pixel_bytes(grid).len() == grid.len() * (1 + 3 * cols),
    decreases grid.len(),
{
    if grid.len() > 0 {
        lemma_raw_pixel_bytes_len(grid.drop_last(), cols);
        lemma_row_bytes_len(grid.last());
        assert(grid.len() * (1 + 3 * cols) == (grid.len() - 1) * (1 + 3 * cols) + (1 + 3 * cols))
            by (nonlinear_arith);
    }
}

/// One channel of the gradient.
fn lerp_channel(start: u8, end: u8, blend: usize) -> (value: u8)
    requires
        blend <= 100,
    ensures
        value == lerp(start, end, blend as int),
{
    proof {
        assert(start * blend + end * (100 - blend) <= 255 * 100) by (nonlinear_arith)
            requires
                0 <= start <= 255,
                0 <= end <= 255,
                0 <= blend <= 100,
        ;
    }
    ((start as usize * blend + end as usize * (100 - blend)) / 100) as u8
}

impl<const R: usize, const C: usize> View for Image<R, C> {
    type V = Seq<Seq<Color>>;

    /// The rows from the top, each from the left.
    open spec fn view(&self) -> Seq<Seq<Color>> {
        Seq::new(R as nat, |y: int| self.pixels@[y]@)
    }
}

// Drawing algorithms are from http://members.chello.at/~easyfilter/Bresenham.pdf
impl<const R: usize, const C: usize> Image<R, C> {
    /// Creates a new image with a default background color.
    pub fn new(bg_color: Color) -> (image: Image<R, C>)
        ensures
            image@ == solid_grid(R as nat, C as nat, bg_color),
    {
        let image = Image { pixels: Box::new([[bg_color;C];R]) };
        assert(image@ =~~= solid_grid(R as nat, C as nat, bg_color));
        image
    }

    /// Writes `color` to the cell in column `x` of row `y` if both are
    /// given and the cell lies within the image; does nothing otherwise.
    pub fn plot(&mut self, x: Option<usize>, y: Option<usize>, color: Color)
        ensures
            final(self)@ == match (x, y) {
                (Some(x), Some(y)) => paint(old(self)@, set![(x as int, y as int)], color),
                _ => old(self)@,
            },
    {
        if let (Some(x), Some(y)) = (x, y) {
            if x < C && y < R {
                self.pixels[y][x] = color;
            }
            assert(self@ =~~= paint(old(self)@, set![(x as int, y as int)], color));
        }
    }

    /// Fills the image with the gradient from `end` in the top left corner
    /// towards `start` in the bottom right one.
    pub fn draw_gradient(&mut self, start: Color, end: Color)
        ensures
            final(self)@ == gradient_grid(R as nat, C as nat, start, end),
    {
        let ghost want = gradient_grid(R as nat, C as nat, start, end);
        let mut x: usize = 0;
        while x < C
            invariant
                x <= C,
                want == gradient_grid(R as nat, C as nat, start, end),
                forall|yy: int, xx: int| 0 <= yy < R && 0 <= xx < x ==> self@[yy][xx] == want[yy][xx],
            decreases C - x,
        {
            let mut y: usize = 0;
            while y < R
                invariant
                    x < C,
                    y <= R,
                    want == gradient_grid(R as nat, C as nat, start, end),
                    forall|yy: int, xx: int|
                        0 <= yy < R && 0 <= xx < x ==> self@[yy][xx] == want[yy][xx],
                    forall|yy: int| 0 <= yy < y ==> self@[yy][x as int] == want[yy][x as int],
                decreases R - y,
            {
                proof {
                    lemma_multiply_divide_lt(100 * (x + y), C + R, 100);
                }
                let blend = (100u128 * (x as u128 + y as u128) / (C as u128 + R as u128)) as usize;
                let color = Color {
                    red: lerp_channel(start.red, end.red, blend),
                    green: lerp_channel(start.green, end.green, blend),
                    blue: lerp_channel(start.blue, end.blue, blend),
                };
                self.pixels[y][x] = color;
                y += 1;
            }
            x += 1;
        }
        assert(self@ =~~= want);
    }

    /// The image data before compression.
    pub fn uncompressed_pixel_data(&self) -> (out: Vec<u8>)
        ensures
            out@ == raw_pixel_bytes(self@),
    {
        let mut out: Vec<u8> = Vec::new();
        let mut y: usize = 0;
        while y < R
            invariant
                y <= R,
                out@ == raw_pixel_bytes(self@.take(y as int)),
            decreases R - y,
        {
            out.push(0);  // Filter type: none
            let ghost row = self@[y as int];
            let ghost before = out@;
            let mut x: usize = 0;
            while x < C
                invariant
                    x <= C,
                    y < R,
                    row == self@[y as int],
                    out@ == before + row_bytes(row.take(x as int)),
                decreases C - x,
            {
                let pixel = self.pixels[y][x];
                proof {
                    assert(row.take(x + 1).drop_last() =~= row.take(x as int));
                    assert(pixel == row[x as int]);
                }
                out.push(pixel.red);
                out.push(pixel.green);
                out.push(pixel.blue);
                x += 1;
            }
            proof {
                assert(row.take(x as int) =~= row);
                assert(self@.take(y + 1).drop_last() =~= self@.take(y as int));
                assert(self@.take(y + 1).last() == row);
            }
            y += 1;
        }
        assert(self@.take(y as int) =~= self@);
        out
    }
}

} // verus!
