use kitkat::bitmap::Bitmap;
use kitkat::canvas::Canvas;
use kitkat::color::{AZURE_BLUE, BLACK, RED, WHITE};
use kitkat::image::Image;
use kitkat::surface::Surface;

const B: u32 = BLACK;
const W: u32 = WHITE;

fn image_of(width: usize, height: usize, x_offset: usize, y_offset: usize, rows: &[&str]) -> Image {
    let mut image = Image::new(width, height, x_offset, y_offset);
    for (y, row) in rows.iter().enumerate() {
        for (x, c) in row.chars().enumerate() {
            if c == '#' {
                image.plot((x as i32, y as i32));
            }
        }
    }
    image
}

#[test]
fn new_image_is_paper() {
    let image = Image::new(3, 2, 5, 6);
    assert_eq!(image.bytes, vec![W; 6]);
    assert_eq!((image.width, image.height, image.x_offset, image.y_offset), (3, 2, 5, 6));
    assert_eq!(Image::new(0, 7, 0, 0).bytes.len(), 0);
}

#[test]
fn plot_sets_one_pixel_and_clips() {
    let mut image = Image::new(3, 2, 0, 0);
    image.plot((2, 1));
    assert_eq!(image.bytes, vec![W, W, W, W, W, B]);
    image.plot((3, 0));
    image.plot((0, 2));
    image.plot((-1, 0));
    image.plot((0, -1));
    image.plot((i32::MAX, 0));
    assert_eq!(image.bytes, vec![W, W, W, W, W, B]);
    image.plot_at(0, 0);
    image.plot_at(1 << 40, 0);
    image.plot_at(0, -(1 << 40));
    assert_eq!(image.bytes, vec![B, W, W, W, W, B]);
}

#[test]
fn clear_resets_every_pixel_and_keeps_the_place() {
    let mut image = image_of(3, 2, 4, 5, &["#.#", ".#."]);
    image.bytes[1] = RED;
    image.clear();
    assert_eq!(image.bytes, vec![W; 6]);
    assert_eq!((image.width, image.height, image.x_offset, image.y_offset), (3, 2, 4, 5));
}

#[test]
fn image_from_bitmap_is_ink_on_paper() {
    let bits = [0b0000_0110, 0b0000_0001];
    let bitmap = Bitmap { bits: &bits, width: 3, height: 2, x_offset: 7, y_offset: 8 };
    let image = Image::from_bitmap(&bitmap);
    assert_eq!(image.bytes, vec![W, B, B, B, W, W]);
    assert_eq!((image.width, image.height, image.x_offset, image.y_offset), (3, 2, 7, 8));
}

#[test]
fn new_canvas_is_one_colour() {
    let canvas = Canvas::new(4, 3, AZURE_BLUE);
    assert_eq!(canvas.pixels, vec![AZURE_BLUE; 12]);
    assert_eq!((canvas.width, canvas.height), (4, 3));
}

#[test]
fn transparent_draw_touches_only_where_ink_lands() {
    let image = image_of(2, 2, 1, 1, &["#.", ".#"]);
    let mut canvas = Canvas::new(4, 4, 0);
    for (k, pixel) in canvas.pixels.iter_mut().enumerate() {
        *pixel = 100 + k as u32;
    }
    let before = canvas.pixels.clone();
    image.draw(&mut canvas, RED, None);
    for k in 0..16 {
        if k == 5 || k == 10 {
            assert_eq!(canvas.pixels[k], RED);
        } else {
            assert_eq!(canvas.pixels[k], before[k]);
        }
    }
}

#[test]
fn opaque_draw_paints_clear_pixels_in_the_background() {
    let image = image_of(2, 2, 1, 1, &["#.", ".#"]);
    let mut canvas = Canvas::new(4, 4, 9);
    image.draw(&mut canvas, RED, Some(AZURE_BLUE));
    let r = RED;
    let a = AZURE_BLUE;
    assert_eq!(canvas.pixels, vec![9, 9, 9, 9, 9, r, a, 9, 9, a, r, 9, 9, 9, 9, 9]);
}

#[test]
fn only_black_counts_as_ink() {
    let mut image = Image::new(3, 1, 0, 0);
    image.bytes = vec![BLACK, RED, WHITE];
    let mut canvas = Canvas::new(3, 1, 5);
    image.draw(&mut canvas, 1, None);
    assert_eq!(canvas.pixels, vec![1, 5, 5]);
    image.draw(&mut canvas, 1, Some(2));
    assert_eq!(canvas.pixels, vec![1, 2, 2]);
}

#[test]
fn row_stops_at_the_right_edge() {
    let image = image_of(3, 2, 2, 0, &["###", "###"]);
    let mut canvas = Canvas::new(4, 3, 0);
    image.draw(&mut canvas, 7, None);
    assert_eq!(canvas.pixels, vec![0, 0, 7, 7, 0, 0, 7, 7, 0, 0, 0, 0]);
}

#[test]
fn pixels_below_the_canvas_are_skipped() {
    let image = image_of(2, 3, 0, 1, &["##", "##", "##"]);
    let mut canvas = Canvas::new(2, 2, 0);
    image.draw(&mut canvas, 7, None);
    assert_eq!(canvas.pixels, vec![0, 0, 7, 7]);
}

#[test]
fn image_wholly_outside_changes_nothing() {
    let image = image_of(2, 2, 9, 0, &["##", "##"]);
    let mut canvas = Canvas::new(3, 3, 4);
    image.draw(&mut canvas, 7, Some(8));
    assert_eq!(canvas.pixels, vec![4; 9]);
    let far = image_of(1, 1, usize::MAX, usize::MAX, &["#"]);
    far.draw(&mut canvas, 7, Some(8));
    assert_eq!(canvas.pixels, vec![4; 9]);
    let below = image_of(1, 1, 0, usize::MAX / 2, &["#"]);
    below.draw(&mut canvas, 7, Some(8));
    assert_eq!(canvas.pixels, vec![4; 9]);
}

#[test]
fn canvas_with_an_unfinished_last_row_is_clipped_by_its_length() {
    let image = image_of(3, 2, 0, 0, &["###", "###"]);
    let mut canvas = Canvas { pixels: vec![0; 5], width: 3, height: 2 };
    image.draw(&mut canvas, 7, None);
    assert_eq!(canvas.pixels, vec![7, 7, 7, 7, 7]);
    let mut narrow = Canvas { pixels: vec![0; 4], width: 0, height: 0 };
    image.draw(&mut narrow, 7, Some(1));
    assert_eq!(narrow.pixels, vec![0; 4]);
}

#[test]
fn erase_by_redraw_removes_an_earlier_layer() {
    let old = image_of(3, 1, 0, 0, &["##."]);
    let new = image_of(3, 1, 0, 0, &[".##"]);
    let mut canvas = Canvas::new(3, 1, WHITE);
    old.draw(&mut canvas, BLACK, None);
    assert_eq!(canvas.pixels, vec![B, B, W]);
    old.draw(&mut canvas, WHITE, None);
    new.draw(&mut canvas, BLACK, None);
    assert_eq!(canvas.pixels, vec![W, B, B]);
}
