use nft_art::art::{Cell, Color, Image};
use nft_art::ellipse::MAX_RADIUS;

const PAPER: Color = Color { red: 255, green: 255, blue: 255 };
const PEN: Color = Color { red: 10, green: 20, blue: 30 };

fn penned<const R: usize, const C: usize>(image: &Image<R, C>) -> Vec<(usize, usize)> {
    let mut cells = Vec::new();
    for y in 0..R {
        for x in 0..C {
            if image.pixels[y][x] == PEN {
                cells.push((x, y));
            } else {
                assert_eq!(image.pixels[y][x], PAPER);
            }
        }
    }
    cells.sort();
    cells
}

fn ellipse_on_16(
    center: (usize, usize),
    a: usize,
    b: usize,
    quadrants: [bool; 4],
) -> Vec<(usize, usize)> {
    let mut image: Image<16, 16> = Image::new(PAPER);
    image.draw_ellipse(Cell::new(center.0, center.1), a, b, quadrants, PEN);
    penned(&image)
}

#[test]
fn ellipse_without_quadrants_draws_nothing() {
    for (a, b) in [(0, 0), (3, 3), (1, 4), (6, 2), (40, 40)] {
        assert_eq!(ellipse_on_16((7, 7), a, b, [false; 4]), vec![]);
    }
}

#[test]
fn lower_half_circle_of_radius_three() {
    let cells = ellipse_on_16((7, 9), 3, 3, [false, false, true, true]);
    assert_eq!(
        cells,
        vec![(4, 9), (4, 10), (5, 11), (6, 12), (7, 12), (8, 12), (9, 11), (10, 9), (10, 10)]
    );
    for (x, y) in cells.iter() {
        assert!(*y >= 9);
        assert!(cells.contains(&(14 - x, *y)));
        let (dx, dy) = (*x as i64 - 7, *y as i64 - 9);
        assert!(dx.abs() <= 3 && dy.abs() <= 3);
    }
}

#[test]
fn each_quadrant_of_a_circle_is_the_mirror_of_the_first() {
    let first = ellipse_on_16((8, 8), 3, 3, [true, false, false, false]);
    assert_eq!(first, vec![(8, 5), (9, 5), (10, 6), (11, 7), (11, 8)]);
    let second = ellipse_on_16((8, 8), 3, 3, [false, true, false, false]);
    let third = ellipse_on_16((8, 8), 3, 3, [false, false, true, false]);
    let fourth = ellipse_on_16((8, 8), 3, 3, [false, false, false, true]);
    let mut mirrored: Vec<(usize, usize)> = first.iter().map(|(x, y)| (16 - x, *y)).collect();
    mirrored.sort();
    assert_eq!(second, mirrored);
    let mut mirrored: Vec<(usize, usize)> = first.iter().map(|(x, y)| (16 - x, 16 - y)).collect();
    mirrored.sort();
    assert_eq!(third, mirrored);
    let mut mirrored: Vec<(usize, usize)> = first.iter().map(|(x, y)| (*x, 16 - y)).collect();
    mirrored.sort();
    assert_eq!(fourth, mirrored);
}

#[test]
fn wide_ellipse_in_the_first_quadrant() {
    assert_eq!(
        ellipse_on_16((8, 8), 6, 3, [true, false, false, false]),
        vec![(8, 5), (9, 5), (10, 5), (11, 5), (12, 6), (13, 6), (14, 7), (14, 8)]
    );
}

#[test]
fn tall_ellipse_in_two_opposite_quadrants() {
    assert_eq!(
        ellipse_on_16((8, 8), 2, 6, [false, true, false, true]),
        vec![
            (6, 5),
            (6, 6),
            (6, 7),
            (6, 8),
            (7, 3),
            (7, 4),
            (8, 2),
            (8, 14),
            (9, 12),
            (9, 13),
            (10, 8),
            (10, 9),
            (10, 10),
            (10, 11)
        ]
    );
}

#[test]
fn very_flat_ellipse_gets_its_poles() {
    assert_eq!(
        ellipse_on_16((5, 5), 1, 4, [true; 4]),
        vec![
            (4, 3),
            (4, 4),
            (4, 5),
            (4, 6),
            (4, 7),
            (5, 1),
            (5, 2),
            (5, 8),
            (5, 9),
            (6, 3),
            (6, 4),
            (6, 5),
            (6, 6),
            (6, 7)
        ]
    );
    assert_eq!(
        ellipse_on_16((5, 5), 1, 4, [true, false, false, false]),
        vec![(5, 1), (5, 2), (6, 3), (6, 4), (6, 5)]
    );
}

#[test]
fn ellipse_without_width_is_an_upright_stroke() {
    assert_eq!(
        ellipse_on_16((5, 5), 0, 3, [true; 4]),
        vec![(5, 2), (5, 3), (5, 4), (5, 5), (5, 6), (5, 7), (5, 8)]
    );
    assert_eq!(
        ellipse_on_16((5, 5), 0, 3, [false, false, true, false]),
        vec![(5, 5), (5, 6), (5, 7), (5, 8)]
    );
}

#[test]
fn ellipse_without_height_is_a_level_stroke() {
    assert_eq!(
        ellipse_on_16((5, 5), 4, 0, [true; 4]),
        vec![(1, 5), (2, 5), (3, 5), (4, 5), (5, 5), (6, 5), (7, 5), (8, 5), (9, 5)]
    );
}

#[test]
fn ellipse_without_radii_is_its_centre() {
    assert_eq!(ellipse_on_16((5, 5), 0, 0, [true, false, false, false]), vec![(5, 5)]);
    assert_eq!(ellipse_on_16((5, 5), 0, 0, [false, false, false, true]), vec![(5, 5)]);
}

#[test]
fn ellipse_across_the_edge_is_cut_not_wrapped() {
    assert_eq!(ellipse_on_16((0, 0), 2, 2, [true; 4]), vec![(0, 2), (1, 2), (2, 0), (2, 1)]);
    assert_eq!(
        ellipse_on_16((1, 1), 3, 3, [true; 4]),
        vec![(0, 4), (1, 4), (2, 4), (3, 3), (4, 0), (4, 1), (4, 2)]
    );
    let mut image: Image<8, 8> = Image::new(PAPER);
    image.draw_ellipse(Cell::new(usize::MAX, usize::MAX), 3, 3, [true; 4], PEN);
    assert_eq!(penned(&image), vec![]);
    let mut image: Image<8, 8> = Image::new(PAPER);
    image.draw_ellipse(Cell::new(5, 5), 3, 3, [false, false, false, true], PEN);
    assert_eq!(penned(&image), vec![(7, 7)]);
}

#[test]
fn ellipse_far_larger_than_the_image() {
    let mut image: Image<8, 8> = Image::new(PAPER);
    image.draw_ellipse(Cell::new(0, 0), 1000, 5, [false, false, false, true], PEN);
    // near the lower pole the outline runs level, five rows below the centre
    assert_eq!(
        penned(&image),
        vec![(0, 5), (1, 5), (2, 5), (3, 5), (4, 5), (5, 5), (6, 5), (7, 5)]
    );
    assert!(MAX_RADIUS >= 1000);
}
