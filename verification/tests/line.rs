use kitkat::color::{BLACK, WHITE};
use kitkat::image::Image;
use kitkat::line::{fill_block, fill_span, stroke_line};

fn picture(image: &Image) -> Vec<String> {
    let mut rows = Vec::new();
    for y in 0..image.height {
        let mut row = String::new();
        for x in 0..image.width {
            row.push(if image.bytes[y * image.width + x] == BLACK { '#' } else { '.' });
        }
        rows.push(row);
    }
    rows
}

#[test]
fn thin_line_rounds_halves_away_from_the_start() {
    let mut image = Image::new(5, 3, 0, 0);
    image.plot_line_width((0, 0), (4, 2), 1);
    let expected: &[&str] = &[
        "#....",
        ".##..",
        "...##",
    ];
    assert_eq!(picture(&image), expected);
}

#[test]
fn thick_line_reaches_half_the_width_to_either_side() {
    let mut image = Image::new(10, 7, 0, 0);
    image.plot_line_width((1, 1), (8, 4), 3);
    let expected: &[&str] = &[
        ".##.......",
        ".####.....",
        ".######...",
        "...######.",
        ".....####.",
        ".......##.",
        "..........",
    ];
    assert_eq!(picture(&image), expected);
}

#[test]
fn steep_line_drawn_backwards() {
    let mut image = Image::new(9, 7, 0, 0);
    image.plot_line_width((7, 6), (2, 0), 1);
    let expected: &[&str] = &[
        "..#......",
        "...#.....",
        "....#....",
        "....#....",
        ".....#...",
        "......#..",
        ".......#.",
    ];
    assert_eq!(picture(&image), expected);
}

#[test]
fn line_is_clipped_at_the_edges() {
    let mut image = Image::new(8, 5, 0, 0);
    image.plot_line_width((-3, 2), (12, 2), 2);
    let expected: &[&str] = &[
        "........",
        "########",
        "########",
        "########",
        "........",
    ];
    assert_eq!(picture(&image), expected);
}

#[test]
fn horizontal_line() {
    let mut image = Image::new(6, 3, 0, 0);
    image.plot_line_width((1, 1), (4, 1), 1);
    let expected: &[&str] = &[
        "......",
        ".####.",
        "......",
    ];
    assert_eq!(picture(&image), expected);
}

#[test]
fn vertical_line() {
    let mut image = Image::new(3, 6, 0, 0);
    image.plot_line_width((1, 4), (1, 1), 1);
    let expected: &[&str] = &[
        "...",
        ".#.",
        ".#.",
        ".#.",
        ".#.",
        "...",
    ];
    assert_eq!(picture(&image), expected);
}

#[test]
fn diagonal_line() {
    let mut image = Image::new(5, 5, 0, 0);
    image.plot_line_width((4, 0), (0, 4), 1);
    let expected: &[&str] = &[
        "....#",
        "...#.",
        "..#..",
        ".#...",
        "#....",
    ];
    assert_eq!(picture(&image), expected);
}

#[test]
fn width_zero_draws_a_thin_line() {
    let mut image = Image::new(5, 3, 0, 0);
    image.plot_line_width((0, 0), (4, 2), 0);
    let expected: &[&str] = &[
        "#....",
        ".##..",
        "...##",
    ];
    assert_eq!(picture(&image), expected);
}

#[test]
fn degenerate_line_width_five_is_a_square_blob() {
    let mut image = Image::new(7, 7, 0, 0);
    image.plot_line_width((3, 3), (3, 3), 5);
    let expected: &[&str] = &[
        ".......",
        ".#####.",
        ".#####.",
        ".#####.",
        ".#####.",
        ".#####.",
        ".......",
    ];
    assert_eq!(picture(&image), expected);
}

#[test]
fn degenerate_line_in_the_corner_is_clipped() {
    let mut image = Image::new(5, 5, 0, 0);
    image.plot_line_width((0, 0), (0, 0), 4);
    let expected: &[&str] = &[
        "###..",
        "###..",
        "###..",
        ".....",
        ".....",
    ];
    assert_eq!(picture(&image), expected);
}

#[test]
fn degenerate_line_width_zero_is_one_pixel() {
    let mut image = Image::new(3, 3, 0, 0);
    image.plot_line_width((1, 1), (1, 1), 0);
    let expected: &[&str] = &[
        "...",
        ".#.",
        "...",
    ];
    assert_eq!(picture(&image), expected);
}

#[test]
fn degenerate_line_width_one_is_one_pixel() {
    let mut image = Image::new(3, 3, 0, 0);
    image.plot_line_width((1, 1), (1, 1), 1);
    let expected: &[&str] = &[
        "...",
        ".#.",
        "...",
    ];
    assert_eq!(picture(&image), expected);
}

#[test]
fn degenerate_line_width_two_is_three_by_three() {
    let mut image = Image::new(5, 5, 0, 0);
    image.plot_line_width((2, 2), (2, 2), 2);
    let expected: &[&str] = &[
        ".....",
        ".###.",
        ".###.",
        ".###.",
        ".....",
    ];
    assert_eq!(picture(&image), expected);
}

#[test]
fn degenerate_line_outside_leaves_the_image_blank() {
    let mut image = Image::new(4, 4, 0, 0);
    image.plot_line_width((20, 20), (20, 20), 3);
    let expected: &[&str] = &[
        "....",
        "....",
        "....",
        "....",
    ];
    assert_eq!(picture(&image), expected);
}

#[test]
fn tail_pen_on_a_short_segment() {
    let mut image = Image::new(24, 20, 0, 0);
    image.plot_line_width((4, 9), (19, 11), 15);
    let expected: &[&str] = &[
        "........................",
        "........................",
        "....####................",
        "....############........",
        "....################....",
        "....################....",
        "....################....",
        "....################....",
        "....################....",
        "....################....",
        "....################....",
        "....################....",
        "....################....",
        "....################....",
        "....################....",
        "....################....",
        "....################....",
        "........############....",
        "................####....",
        "........................",
    ];
    assert_eq!(picture(&image), expected);
}

#[test]
fn stroke_keeps_ink_that_is_there_and_touches_no_paper_value() {
    let mut image = Image::new(4, 2, 0, 0);
    image.bytes[7] = BLACK;
    image.bytes[4] = 0x123456;
    stroke_line(&mut image, (0, 0), (3, 0), 1);
    assert_eq!(image.bytes, vec![BLACK, BLACK, BLACK, BLACK, 0x123456, WHITE, WHITE, BLACK]);
}

#[test]
fn stroke_with_far_away_end_points_does_not_fail() {
    let mut image = Image::new(3, 3, 0, 0);
    stroke_line(&mut image, (-2_000_000, -2_000_000), (-1_999_000, -1_999_500), 3);
    assert_eq!(image.bytes, vec![WHITE; 9]);
}

#[test]
fn span_fills_a_run_along_either_axis() {
    let mut image = Image::new(4, 4, 0, 0);
    fill_span(&mut image, false, 1, 1, 9);
    fill_span(&mut image, true, 0, -5, 2);
    let expected: &[&str] = &["###.", ".#..", ".#..", ".#.."];
    assert_eq!(picture(&image), expected);
}

#[test]
fn empty_span_and_empty_block_draw_nothing() {
    let mut image = Image::new(3, 3, 0, 0);
    fill_span(&mut image, false, 1, 2, 1);
    fill_block(&mut image, 2, 1, 0, 2);
    fill_block(&mut image, 0, 2, 2, 1);
    assert_eq!(image.bytes, vec![WHITE; 9]);
}

#[test]
fn block_fills_a_rectangle() {
    let mut image = Image::new(5, 4, 0, 0);
    fill_block(&mut image, 1, 3, 2, 7);
    let expected: &[&str] = &[".....", ".....", ".###.", ".###."];
    assert_eq!(picture(&image), expected);
}
