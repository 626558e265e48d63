use kitkat::color::{BLACK, WHITE};
use kitkat::ellipse::stroke_arc;
use kitkat::image::Image;

fn picture(image: &Image) -> Vec<String> {
    let mut rows = Vec::new();
    for y in 0..image.height {
        let mut row = String::new();
        for x in 0..image.width {
            row.push(if image.bytes[y * image.width + x] == BLACK { '#' } else { '.' });
        }
        rows.push(row);
    }
    rows
}

#[test]
fn circle_outline_is_thin_and_closed() {
    let mut image = Image::new(13, 13, 0, 0);
    image.plot_ellipse((6, 6), (5, 5), [true, true, true, true], 1);
    let expected: &[&str] = &[
        ".............",
        "....#####....",
        "...#.....#...",
        "..#.......#..",
        ".#.........#.",
        ".#.........#.",
        ".#.........#.",
        ".#.........#.",
        ".#.........#.",
        "..#.......#..",
        "...#.....#...",
        "....#####....",
        ".............",
    ];
    assert_eq!(picture(&image), expected);
}

#[test]
fn lower_half_of_a_flat_ellipse() {
    let mut image = Image::new(15, 9, 0, 0);
    image.plot_ellipse((7, 4), (6, 3), [false, false, true, true], 1);
    let expected: &[&str] = &[
        "...............",
        "...............",
        "...............",
        "...............",
        ".#...........#.",
        ".#...........#.",
        "..##.......##..",
        "....#######....",
        "...............",
    ];
    assert_eq!(picture(&image), expected);
}

#[test]
fn upper_right_quadrant_of_a_tall_ellipse() {
    let mut image = Image::new(7, 13, 0, 0);
    image.plot_ellipse((3, 6), (2, 5), [true, false, false, false], 1);
    let expected: &[&str] = &[
        ".......",
        "...#...",
        "....#..",
        ".....#.",
        ".....#.",
        ".....#.",
        ".....#.",
        ".......",
        ".......",
        ".......",
        ".......",
        ".......",
        ".......",
    ];
    assert_eq!(picture(&image), expected);
}

#[test]
fn upper_left_quadrant() {
    let mut image = Image::new(9, 9, 0, 0);
    image.plot_ellipse((4, 4), (3, 3), [false, true, false, false], 1);
    let expected: &[&str] = &[
        ".........",
        "...##....",
        "..#......",
        ".#.......",
        ".#.......",
        ".........",
        ".........",
        ".........",
        ".........",
    ];
    assert_eq!(picture(&image), expected);
}

#[test]
fn lower_left_quadrant() {
    let mut image = Image::new(9, 9, 0, 0);
    image.plot_ellipse((4, 4), (3, 3), [false, false, true, false], 1);
    let expected: &[&str] = &[
        ".........",
        ".........",
        ".........",
        ".........",
        ".#.......",
        ".#.......",
        "..#......",
        "...##....",
        ".........",
    ];
    assert_eq!(picture(&image), expected);
}

#[test]
fn lower_right_quadrant() {
    let mut image = Image::new(9, 9, 0, 0);
    image.plot_ellipse((4, 4), (3, 3), [false, false, false, true], 1);
    let expected: &[&str] = &[
        ".........",
        ".........",
        ".........",
        ".........",
        ".......#.",
        ".......#.",
        "......#..",
        "....##...",
        ".........",
    ];
    assert_eq!(picture(&image), expected);
}

#[test]
fn no_quadrant_draws_nothing() {
    let mut image = Image::new(9, 9, 0, 0);
    image.plot_ellipse((4, 4), (3, 3), [false, false, false, false], 1);
    let expected: &[&str] = &[
        ".........",
        ".........",
        ".........",
        ".........",
        ".........",
        ".........",
        ".........",
        ".........",
        ".........",
    ];
    assert_eq!(picture(&image), expected);
}

#[test]
fn zero_vertical_radius_is_a_horizontal_segment() {
    let mut image = Image::new(11, 5, 0, 0);
    image.plot_ellipse((5, 2), (4, 0), [true, true, true, true], 1);
    let expected: &[&str] = &[
        "...........",
        "...........",
        ".#########.",
        "...........",
        "...........",
    ];
    assert_eq!(picture(&image), expected);
}

#[test]
fn zero_horizontal_radius_is_a_vertical_segment() {
    let mut image = Image::new(5, 9, 0, 0);
    image.plot_ellipse((2, 4), (0, 3), [true, true, true, true], 1);
    let expected: &[&str] = &[
        ".....",
        "..#..",
        "..#..",
        "..#..",
        "..#..",
        "..#..",
        "..#..",
        "..#..",
        ".....",
    ];
    assert_eq!(picture(&image), expected);
}

#[test]
fn both_radii_zero_is_the_centre() {
    let mut image = Image::new(3, 3, 0, 0);
    image.plot_ellipse((1, 1), (0, 0), [true, true, true, true], 1);
    let expected: &[&str] = &[
        "...",
        ".#.",
        "...",
    ];
    assert_eq!(picture(&image), expected);
}

#[test]
fn negative_radius_draws_nothing() {
    let mut image = Image::new(9, 9, 0, 0);
    image.plot_ellipse((4, 4), (-3, 3), [true, true, true, true], 1);
    let expected: &[&str] = &[
        ".........",
        ".........",
        ".........",
        ".........",
        ".........",
        ".........",
        ".........",
        ".........",
        ".........",
    ];
    assert_eq!(picture(&image), expected);
}

#[test]
fn other_negative_radius_draws_nothing() {
    let mut image = Image::new(9, 9, 0, 0);
    image.plot_ellipse((4, 4), (3, -1), [true, true, true, true], 1);
    let expected: &[&str] = &[
        ".........",
        ".........",
        ".........",
        ".........",
        ".........",
        ".........",
        ".........",
        ".........",
        ".........",
    ];
    assert_eq!(picture(&image), expected);
}

#[test]
fn wide_pen_thickens_the_outline() {
    let mut image = Image::new(13, 13, 0, 0);
    image.plot_ellipse((6, 6), (4, 4), [true, true, true, true], 3);
    let expected: &[&str] = &[
        ".............",
        "....#####....",
        "..#########..",
        "..#########..",
        ".#####.#####.",
        ".####...####.",
        ".###.....###.",
        ".####...####.",
        ".#####.#####.",
        "..#########..",
        "..#########..",
        "....#####....",
        ".............",
    ];
    assert_eq!(picture(&image), expected);
}

#[test]
fn ellipse_is_clipped_at_the_edges() {
    let mut image = Image::new(6, 6, 0, 0);
    image.plot_ellipse((0, 0), (4, 3), [true, true, true, true], 1);
    let expected: &[&str] = &[
        "....#.",
        "....#.",
        "...#..",
        "###...",
        "......",
        "......",
    ];
    assert_eq!(picture(&image), expected);
}

#[test]
fn radius_one_circle() {
    let mut image = Image::new(5, 5, 0, 0);
    image.plot_ellipse((2, 2), (1, 1), [true, true, true, true], 1);
    let expected: &[&str] = &[
        ".....",
        "..#..",
        ".#.#.",
        "..#..",
        ".....",
    ];
    assert_eq!(picture(&image), expected);
}

#[test]
fn arc_on_a_generic_surface_keeps_other_pixels() {
    let mut image = Image::new(3, 3, 0, 0);
    image.bytes[0] = 7;
    stroke_arc(&mut image, (1, 1), (1, 1), [true, true, true, true], 1);
    assert_eq!(image.bytes[0], 7);
    assert_eq!(image.bytes[1], BLACK);
    assert_eq!(image.bytes[4], WHITE);
}
