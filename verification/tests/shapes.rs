use kitkat::bitmap::Bitmap;
use kitkat::color::{BLACK, WHITE};
use kitkat::eyes::{
    create_eye_pixmap, draw_eyes, second_pupil, EYES_HEIGHT, EYES_OFFSET_X, EYES_OFFSET_Y,
    EYES_WIDTH,
};
use kitkat::hands::{draw_second, hour_position};
use kitkat::image::Image;
use kitkat::polyline::stroke_polyline;
use kitkat::tail::{center_tail, create_tail_pixmap, draw_cap, draw_tail, tail_frame, TAIL_PEN};

fn picture(image: &Image) -> Vec<String> {
    let mut rows = Vec::new();
    for y in 0..image.height {
        let mut row = String::new();
        for x in 0..image.width {
            row.push(if image.bytes[y * image.width + x] == BLACK { '#' } else { '.' });
        }
        rows.push(row);
    }
    rows
}

#[test]
fn cap_rounds_the_tip_of_a_wide_tail() {
    let mut image = Image::new(21, 12, 0, 0);
    draw_cap(&mut image, (10, 2), 15);
    let expected: &[&str] = &[
        ".....................",
        ".....................",
        ".....................",
        "...###############...",
        "...###############...",
        "...###############...",
        "....#############....",
        ".....###########.....",
        "......#########......",
        "........#####........",
        ".....................",
        ".....................",
    ];
    assert_eq!(picture(&image), expected);
}

#[test]
fn tail_is_strokes_along_the_skeleton_and_a_cap() {
    let mut image = Image::new(18, 18, 0, 0);
    draw_tail(&mut image, &[(5, 1), (5, 9), (9, 13), (14, 13)], 3);
    let expected: &[&str] = &[
        "..................",
        "....###...........",
        "....###...........",
        "....###...........",
        "....###...........",
        "....###...........",
        "....###...........",
        "....###...........",
        "....###...........",
        "....###...........",
        ".....###..........",
        "......###.........",
        ".......########...",
        "........#######...",
        ".........#######..",
        "..............#...",
        "..................",
        "..................",
    ];
    assert_eq!(picture(&image), expected);
}

#[test]
fn tail_without_points_draws_nothing() {
    let mut image = Image::new(4, 4, 0, 0);
    draw_tail(&mut image, &[], 3);
    assert_eq!(image.bytes, vec![WHITE; 16]);
}

#[test]
fn tail_of_one_point_is_its_cap() {
    let mut image = Image::new(7, 6, 0, 0);
    draw_tail(&mut image, &[(3, 1)], 5);
    let expected: &[&str] = &[
        ".......",
        ".......",
        ".#####.",
        ".#####.",
        "..###..",
        ".......",
    ];
    assert_eq!(picture(&image), expected);
}

#[test]
fn polyline_joins_each_point_to_the_next() {
    let mut image = Image::new(8, 7, 0, 0);
    stroke_polyline(&mut image, &[(1, 1), (6, 1), (6, 5), (1, 5), (1, 1)], 1);
    let expected: &[&str] = &[
        "........",
        ".######.",
        ".#....#.",
        ".#....#.",
        ".#....#.",
        ".######.",
        "........",
    ];
    assert_eq!(picture(&image), expected);
}

#[test]
fn polyline_of_fewer_than_two_points_draws_nothing() {
    let mut image = Image::new(3, 3, 0, 0);
    stroke_polyline(&mut image, &[], 5);
    stroke_polyline(&mut image, &[(1, 1)], 5);
    assert_eq!(image.bytes, vec![WHITE; 9]);
}

#[test]
fn eye_picture_holds_the_pupil_twice() {
    let outline = [(2, 2), (6, 1), (10, 4), (6, 8), (2, 2)];
    let image = create_eye_pixmap(&outline);
    assert_eq!(image.width, EYES_WIDTH);
    assert_eq!(image.height, EYES_HEIGHT);
    assert_eq!((image.x_offset, image.y_offset), (EYES_OFFSET_X, EYES_OFFSET_Y));
    assert_eq!((image.width, image.height, image.x_offset, image.y_offset), (60, 30, 47, 30));
    let expected: &[&str] = &[
        "............................................................",
        "....###............................###......................",
        "..##...#.........................##...#.....................",
        "...#....##........................#....##...................",
        "...#......#.......................#......#..................",
        "....#....#.........................#....#...................",
        ".....#..#...........................#..#....................",
        ".....#.#............................#.#.....................",
        "......#..............................#......................",
        "............................................................",
        "............................................................",
        "............................................................",
        "............................................................",
        "............................................................",
        "............................................................",
        "............................................................",
        "............................................................",
        "............................................................",
        "............................................................",
        "............................................................",
        "............................................................",
        "............................................................",
        "............................................................",
        "............................................................",
        "............................................................",
        "............................................................",
        "............................................................",
        "............................................................",
        "............................................................",
        "............................................................",
    ];
    assert_eq!(picture(&image), expected);
}

#[test]
fn second_pupil_lies_thirty_one_pixels_to_the_right() {
    assert_eq!(second_pupil(&[(0, 5), (-40, 7), (12, -3)]), vec![(31, 5), (-9, 7), (43, -3)]);
    assert_eq!(second_pupil(&[]), vec![]);
}

#[test]
fn eyes_can_be_drawn_on_any_picture() {
    let mut image = Image::new(40, 3, 0, 0);
    draw_eyes(&mut image, &[(1, 1), (3, 1)]);
    let expected: &[&str] = &[
        "........................................",
        ".###............................###.....",
        "........................................",
    ];
    assert_eq!(picture(&image), expected);
}

#[test]
fn hand_is_one_stroke_from_start_to_tip() {
    let mut image = Image::new(9, 9, 0, 0);
    draw_second(&mut image, (4, 6), (4, 1), 3);
    let expected: &[&str] = &[
        ".........",
        "...###...",
        "...###...",
        "...###...",
        "...###...",
        "...###...",
        "...###...",
        ".........",
        ".........",
    ];
    assert_eq!(picture(&image), expected);
}

#[test]
fn hour_positions_on_a_dial_of_sixty() {
    assert_eq!(hour_position(0), 0);
    assert_eq!(hour_position(3), 15);
    assert_eq!(hour_position(12), 0);
    assert_eq!(hour_position(16), 20);
    assert_eq!(hour_position(23), 55);
    assert_eq!(hour_position(255), 15);
}

#[test]
fn resting_tail_skeleton() {
    assert_eq!(
        center_tail(),
        [(0, 0), (0, 76), (3, 82), (10, 84), (18, 82), (21, 76), (21, 70)]
    );
    assert_eq!(TAIL_PEN, 15);
}

#[test]
fn tail_pixmap_draws_over_the_resting_tail_and_keeps_padding() {
    let base: Vec<u8> = vec![1, 0, 0, 0, 0, 0, 0, 0, 0, 0, 0, 0, 0, 0, 0, 0, 0, 128, 0, 0, 0, 0, 0, 0, 0, 0, 0, 0, 0, 0, 0, 0, 0, 0, 0, 8];
    let tail = Bitmap { bits: &base, width: 20, height: 12, x_offset: 2, y_offset: 5 };
    let pose = [(3, 0), (3, 2), (4, 3), (5, 3), (6, 3), (7, 2), (8, 1)];
    let bits = create_tail_pixmap(&tail, &pose);
    let expected: Vec<u8> = vec![255, 7, 0, 255, 7, 0, 255, 255, 0, 254, 255, 0, 254, 255, 0, 252, 127, 128, 248, 63, 0, 248, 31, 0, 248, 7, 0, 248, 0, 0, 112, 0, 0, 0, 0, 8];
    assert_eq!(bits, expected);
    let frame = tail_frame(&tail, &pose);
    assert_eq!((frame.width, frame.height, frame.x_offset, frame.y_offset), (20, 12, 2, 5));
    let picture_expected: &[&str] = &[
        "###########.........",
        "###########.........",
        "################....",
        ".###############....",
        ".###############....",
        "..#############.....",
        "...###########......",
        "...##########.......",
        "...########.........",
        "...#####............",
        "....###.............",
        "...................#",
    ];
    assert_eq!(picture(&frame), picture_expected);
    assert_eq!(frame.bytes[19], if picture_expected[0].ends_with('#') { BLACK } else { WHITE });
}
