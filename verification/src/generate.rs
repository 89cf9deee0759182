//! From a token and its owner to the picture: the seed, the colors, the
//! drawing, and the data URI that carries the PNG file.
use crate::art::{
    color_of_hex, gradient_grid, lemma_raw_pixel_bytes_len, paint, raw_pixel_bytes, Cell, Color,
    Image,
};
use crate::ellipse::ellipse_points;
use crate::line::{line_points, THICK_LINES};
use crate::png::{lemma_png_layout, png_of_grid};
use crate::rng::{drawn_u8, lemma_seed_after_add, Generator};
use crate::utils::{fnv1a, lemma_fnv1a_fold_concat, FnvHasher};
use crate::zlib::{stored_blocks, zlib_stream};
use base64::Engine;
use vstd::prelude::*;
use vstd::string::StringExecFns;

verus! {

/// The rows of a picture.
pub const ART_ROWS: usize = 32;

/// The columns of a picture.
pub const ART_COLUMNS: usize = 32;

/// The seed of a picture: the FNV-1a hash of the token identifier's bytes
/// followed by the address's.
pub open spec fn art_seed(address: Seq<u8>, token_id: Seq<u8>) -> u64 {
    fnv1a(token_id + address)
}

/// The foreground color that `seed` gives: the first three bytes that a
/// generator started with it draws, as red, green and blue.
pub open spec fn foreground(seed: u64) -> Color {
    Color { red: drawn_u8(seed, 0), green: drawn_u8(seed, 1), blue: drawn_u8(seed, 2) }
}

/// The picture drawn in `fg_color`: a gradient from blue in the top left
/// corner towards red, two short upright strokes, and below them the lower
/// half of a circle.
pub open spec fn art_grid_with(fg_color: Color) -> Seq<Seq<Color>> {
    let gradient = gradient_grid(
        ART_ROWS as nat,
        ART_COLUMNS as nat,
        color_of_hex(0xff0000),
        color_of_hex(0x0000ff),
    );
    let left = paint(
        gradient,
        line_points(Cell { x: 4, y: 4 }, Cell { x: 4, y: 6 }, THICK_LINES),
        fg_color,
    );
    let both = paint(
        left,
        line_points(Cell { x: 10, y: 4 }, Cell { x: 10, y: 6 }, THICK_LINES),
        fg_color,
    );
    paint(both, ellipse_points(Cell { x: 7, y: 9 }, 3, 3, [false, false, true, true]), fg_color)
}

/// The picture of the token `token_id` held by `address`.
pub open spec fn art_grid(address: Seq<u8>, token_id: Seq<u8>) -> Seq<Seq<Color>> {
    art_grid_with(foreground(art_seed(address, token_id)))
}

/// The characters of the standard base64 encoding of `bytes`, padded.
pub uninterp spec fn base64_standard(bytes: Seq<u8>) -> Seq<char>;

/// Calls `encode_string` of `base64::Engine` on
/// `base64::engine::general_purpose::STANDARD`. Trusted: that it appends to
/// `out`, and that what it appends depends on `bytes` alone;
/// `base64_standard` is the name of those characters.
#[verifier::external_body]
fn base64_append(bytes: &[u8], out: &mut String)
    ensures
        final(out)@ == old(out)@ + base64_standard(bytes@),
{
    base64::engine::general_purpose::STANDARD.encode_string(bytes, out);
}

/// The data URI that carries the PNG file `png`.
pub open spec fn data_uri(png: Seq<u8>) -> Seq<char> {
    "data:image/png;base64,"@ + base64_standard(png)
}

/// Draws the picture in the foreground color `fg_color`.
pub fn gen_art_with_color(fg_color: Color) -> (image: Image<32, 32>)
    ensures
        image@ == art_grid_with(fg_color),
{
    let bg_color = Color::from_hex(0xe3066e);
    let mut image: Image<32, 32> = Image::new(bg_color);
    image.draw_gradient(Color::from_hex(0xff0000), Color::from_hex(0x0000ff));
    image.draw_line(Cell::new(4, 4), Cell::new(4, 6), fg_color);
    image.draw_line(Cell::new(10, 4), Cell::new(10, 6), fg_color);
    image.draw_ellipse(Cell::new(7, 9), 3, 3, [false, false, true, true], fg_color);
    image
}

/// Generates the image for a given NFT token ID
pub fn gen_art(address: &[u8], token_id: &[u8]) -> (image: Image<32, 32>)
    ensures
        image@ == art_grid(address@, token_id@),
{
    let mut hasher = FnvHasher::new();
    hasher.update(token_id);
    hasher.update(address);
    proof {
        lemma_fnv1a_fold_concat(crate::utils::FNV_OFFSET_BASIS, token_id@, address@);
    }
    let seed = hasher.output();
    let mut rng = Generator::with_seed(seed);
    let red = rng.next_u8();
    let green = rng.next_u8();
    let blue = rng.next_u8();
    proof {
        lemma_seed_after_add(seed, 1, 0);
        lemma_seed_after_add(seed, 1, 1);
        lemma_seed_after_add(seed, 2, 0);
    }
    let fg_color = Color { red, green, blue };
    gen_art_with_color(fg_color)
}

/// Wraps the PNG file `png` in a data URI.
pub fn image_data_uri(png: &[u8]) -> (uri: String)
    ensures
        uri@ == data_uri(png@),
{
    let mut image_str = String::from_str("data:image/png;base64,");
    base64_append(png, &mut image_str);
    image_str
}

/// The data URI of the picture of the token `token_id` held by `owner`.
pub open spec fn art_data_uri(token_id: Seq<u8>, owner: Seq<u8>) -> Seq<char> {
    data_uri(png_of_grid(art_grid(owner, token_id), ART_COLUMNS as int, ART_ROWS as int))
}

/// Generates the art of a specific token_id and a specific address
/// (assuming it's the owner), as a data URI.
pub fn generate_art_data_uri(token_id: &[u8], owner: &[u8]) -> (uri: String)
    ensures
        uri@ == art_data_uri(token_id@, owner@),
{
    let image = gen_art(owner, token_id);
    let image_png = image.make_png();
    image_data_uri(image_png.as_slice())
}

/// Every picture's PNG file has the same length, whatever the token and
/// whoever holds it.
pub proof fn lemma_art_png_len(address: Seq<u8>, token_id: Seq<u8>)
    ensures
        png_of_grid(art_grid(address, token_id), ART_COLUMNS as int, ART_ROWS as int).len()
            == 3172,
{
    let grid = art_grid(address, token_id);
    lemma_raw_pixel_bytes_len(grid, ART_COLUMNS as nat);
    let raw = raw_pixel_bytes(grid);
    assert(grid.len() == 32 && ART_COLUMNS == 32);
    assert(raw.len() == 32 * (1 + 3 * 32));
    assert(stored_blocks(raw).len() == 3109);
    assert(zlib_stream(raw).len() == 3115);
    lemma_png_layout(ART_COLUMNS as int, ART_ROWS as int, zlib_stream(raw));
}

} // verus!
