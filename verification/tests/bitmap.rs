use kitkat::bitmap::{bits_to_bytes, decode, pixel_width_to_bits_width, unpack, Bitmap};
use kitkat::bits::{read_bit, set_bit};
use kitkat::color::{BLACK, TRANSPARENT, WHITE};

const B: u32 = BLACK;
const W: u32 = WHITE;

#[test]
fn row_bytes_round_up_to_whole_bytes() {
    assert_eq!(pixel_width_to_bits_width(0), 0);
    assert_eq!(pixel_width_to_bits_width(1), 1);
    assert_eq!(pixel_width_to_bits_width(7), 1);
    assert_eq!(pixel_width_to_bits_width(8), 1);
    assert_eq!(pixel_width_to_bits_width(9), 2);
    assert_eq!(pixel_width_to_bits_width(16), 2);
    assert_eq!(pixel_width_to_bits_width(150), 19);
    assert_eq!(pixel_width_to_bits_width(usize::MAX), usize::MAX / 8 + 1);
}

#[test]
fn bits_are_read_least_significant_first() {
    assert_eq!(bits_to_bytes(&[0b0000_0001], 8), vec![B, W, W, W, W, W, W, W]);
    assert_eq!(bits_to_bytes(&[0b1000_0000], 8), vec![W, W, W, W, W, W, W, B]);
    assert_eq!(bits_to_bytes(&[0b0001_0110], 8), vec![W, B, B, W, B, W, W, W]);
}

#[test]
fn single_set_bit_comes_back_at_its_position() {
    for n in 0..8 {
        let pixels = bits_to_bytes(&[1u8 << n], 8);
        assert_eq!(pixels.len(), 8);
        for (j, pixel) in pixels.iter().enumerate() {
            assert_eq!(*pixel == BLACK, j == n, "bit {} pixel {}", n, j);
        }
    }
}

#[test]
fn rows_are_cut_at_the_width_and_padding_is_skipped() {
    // two rows of three pixels, one byte each; the upper five bits are padding
    assert_eq!(bits_to_bytes(&[0b1111_1101, 0b0000_0010], 3), vec![B, W, B, W, B, W]);
    // rows of ten pixels take two bytes, of which the second gives two pixels
    assert_eq!(
        bits_to_bytes(&[0x01, 0xFE, 0x80, 0x01], 10),
        vec![B, W, W, W, W, W, W, W, W, B, W, W, W, W, W, W, W, B, B, W]
    );
}

#[test]
fn width_that_fills_its_bytes_has_no_padding() {
    assert_eq!(
        bits_to_bytes(&[0x0F, 0xF0], 16),
        vec![B, B, B, B, W, W, W, W, W, W, W, W, B, B, B, B]
    );
}

#[test]
fn unfinished_last_row_gives_eight_pixels_a_byte() {
    // rows of twelve pixels; the third byte starts a row that never ends
    let pixels = bits_to_bytes(&[0xFF, 0xFF, 0x00], 12);
    assert_eq!(pixels.len(), 12 + 8);
    assert_eq!(&pixels[..12], &[B; 12]);
    assert_eq!(&pixels[12..], &[W; 8]);
}

#[test]
fn width_zero_never_ends_a_row() {
    assert_eq!(bits_to_bytes(&[0x81, 0x00], 0).len(), 16);
    assert_eq!(bits_to_bytes(&[0x81], 0), vec![B, W, W, W, W, W, W, B]);
}

#[test]
fn no_bytes_give_no_pixels() {
    assert_eq!(bits_to_bytes(&[], 5), Vec::<u32>::new());
    assert_eq!(bits_to_bytes(&[], 0), Vec::<u32>::new());
}

#[test]
fn width_beyond_the_data_is_one_unfinished_row() {
    assert_eq!(bits_to_bytes(&[0x03], 100), vec![B, B, W, W, W, W, W, W]);
}

#[test]
fn unpack_uses_the_given_colours() {
    assert_eq!(unpack(&[0b101], 3, 7, 9), vec![7, 9, 7]);
}

#[test]
fn decode_length_is_width_times_height() {
    let bits = [0u8; 3 * 5];
    for width in 17..=24 {
        let bitmap = Bitmap { bits: &bits, width, height: 5, x_offset: 0, y_offset: 0 };
        assert!(bitmap.is_wf());
        assert_eq!(decode(&bitmap, 1, None).len(), width * 5);
        assert_eq!(decode(&bitmap, 1, Some(2)).len(), width * 5);
    }
    let empty = Bitmap { bits: &[], width: 0, height: 9, x_offset: 0, y_offset: 0 };
    assert!(empty.is_wf());
    assert_eq!(decode(&empty, 1, None).len(), 0);
    let flat = Bitmap { bits: &[], width: 9, height: 0, x_offset: 0, y_offset: 0 };
    assert!(flat.is_wf());
    assert_eq!(decode(&flat, 1, None).len(), 0);
}

#[test]
fn decode_paints_set_bits_and_marks_clear_ones() {
    let bits = [0b0000_0101, 0b0000_0010];
    let bitmap = Bitmap { bits: &bits, width: 3, height: 2, x_offset: 4, y_offset: 5 };
    let t = TRANSPARENT;
    assert_eq!(decode(&bitmap, 0xAA, None), vec![0xAA, t, 0xAA, t, 0xAA, t]);
    assert_eq!(decode(&bitmap, 0xAA, Some(0xBB)), vec![0xAA, 0xBB, 0xAA, 0xBB, 0xAA, 0xBB]);
}

#[test]
fn bitmap_validity_is_the_size_of_its_data() {
    let bits = [0u8; 6];
    assert!(Bitmap { bits: &bits, width: 9, height: 3, x_offset: 0, y_offset: 0 }.is_wf());
    assert!(Bitmap { bits: &bits, width: 16, height: 3, x_offset: 0, y_offset: 0 }.is_wf());
    assert!(!Bitmap { bits: &bits, width: 17, height: 3, x_offset: 0, y_offset: 0 }.is_wf());
    assert!(!Bitmap { bits: &bits, width: 8, height: 3, x_offset: 0, y_offset: 0 }.is_wf());
    assert!(!Bitmap { bits: &bits, width: 9, height: 2, x_offset: 0, y_offset: 0 }.is_wf());
    assert!(!Bitmap { bits: &bits, width: usize::MAX, height: usize::MAX, x_offset: 0, y_offset: 0 }
        .is_wf());
}

#[test]
fn single_bits_are_read_and_set() {
    assert!(read_bit(0b0100_0000, 6));
    assert!(!read_bit(0b0100_0000, 5));
    assert!(read_bit(0xFF, 0) && read_bit(0xFF, 7));
    assert_eq!(set_bit(0, 0), 1);
    assert_eq!(set_bit(0, 7), 0x80);
    assert_eq!(set_bit(0b1010, 2), 0b1110);
    assert_eq!(set_bit(0b1010, 1), 0b1010);
}
