use mood::color::Color;
use mood::frame::{average_colors, get_average_colors_from_frame, Frame, StripLayout};

/// A BGRx frame of `width` x `height` where every pixel of column `x` in a row that is not
/// cropped gets `inner(x)` and every pixel of a cropped row gets `edge`.
fn frame(width: usize, height: usize, crop: usize, inner: &dyn Fn(usize) -> [u8; 3], edge: [u8; 3]) -> Vec<u8> {
    let mut data = Vec::new();
    for y in 0..height {
        for x in 0..width {
            let [b, g, r] = if y < crop || y >= height - crop { edge } else { inner(x) };
            data.extend_from_slice(&[b, g, r, 0]);
        }
    }
    data
}

#[test]
fn color_new_keeps_channels() {
    let c = Color::new(1, 2, 65535);
    assert_eq!(c, Color { r: 1, g: 2, b: 65535 });
}

#[test]
fn averages_left_and_right_strips() {
    let data = frame(
        4,
        10,
        1,
        &|x| if x == 0 { [10, 50, 100] } else if x == 3 { [128, 0, 255] } else { [1, 1, 1] },
        [200, 200, 200],
    );
    let layout = StripLayout { crop_rows: 1, left_start: 0, left_end: 1, right_start: 3, right_end: 4 };
    let colors = get_average_colors_from_frame(&data, 4, &layout);
    assert_eq!(colors[0], Color { r: 100 * 257, g: 50 * 257, b: 10 * 257 });
    assert_eq!(colors[1], Color { r: 65535, g: 0, b: 128 * 257 });
}

#[test]
fn cropped_rows_do_not_count() {
    // Only the cropped rows are bright; the averaged rows are black.
    let data = frame(4, 6, 2, &|_| [0, 0, 0], [255, 255, 255]);
    let layout = StripLayout { crop_rows: 2, left_start: 0, left_end: 2, right_start: 2, right_end: 4 };
    let colors = get_average_colors_from_frame(&data, 4, &layout);
    assert_eq!(colors, [Color::new(0, 0, 0), Color::new(0, 0, 0)]);
}

#[test]
fn both_strips_divide_by_the_left_pixel_count() {
    // Left strip is one column wide, right strip two: the right sum is divided by the left
    // strip's pixel count, so it comes out doubled.
    let data = frame(4, 4, 0, &|x| if x == 0 { [0, 0, 30] } else { [0, 0, 30] }, [0, 0, 0]);
    let layout = StripLayout { crop_rows: 0, left_start: 0, left_end: 1, right_start: 2, right_end: 4 };
    let colors = get_average_colors_from_frame(&data, 4, &layout);
    assert_eq!(colors[0].r, 30 * 257);
    assert_eq!(colors[1].r, 60 * 257);
}

#[test]
fn trailing_partial_row_is_ignored() {
    // 3 full rows of width 2 plus 5 stray bytes that do not form a row.
    let mut data = frame(2, 3, 0, &|_| [4, 8, 12], [0, 0, 0]);
    data.extend_from_slice(&[255, 255, 255, 255, 255]);
    let layout = StripLayout { crop_rows: 0, left_start: 0, left_end: 1, right_start: 1, right_end: 2 };
    let colors = get_average_colors_from_frame(&data, 2, &layout);
    assert_eq!(colors[0], Color::new(12 * 257, 8 * 257, 4 * 257));
    assert_eq!(colors[1], Color::new(12 * 257, 8 * 257, 4 * 257));
}

#[test]
fn averages_round_down() {
    // Values 1 and 2 in two rows average to 1.5, kept as 1.
    let mut data = Vec::new();
    data.extend_from_slice(&[0, 0, 1, 0]);
    data.extend_from_slice(&[0, 0, 2, 0]);
    let layout = StripLayout { crop_rows: 0, left_start: 0, left_end: 1, right_start: 0, right_end: 1 };
    let colors = get_average_colors_from_frame(&data, 1, &layout);
    assert_eq!(colors[0].r, 257);
}

#[test]
fn empty_frames_are_dropped() {
    assert!(Frame::from_buffer(&[1, 2, 3, 4], 0, 1, false).is_none());
    assert!(Frame::from_buffer(&[1, 2, 3, 4], 1, 0, true).is_none());
}

#[test]
fn rgba_buffers_are_kept() {
    let f = Frame::from_buffer(&[1, 2, 3, 4, 5, 6, 7, 8], 2, 1, false).unwrap();
    assert_eq!(f.data, vec![1, 2, 3, 4, 5, 6, 7, 8]);
    assert_eq!((f.width, f.height), (2, 1));
}

#[test]
fn bgr_buffers_are_swapped_to_rgba() {
    let f = Frame::from_buffer(&[1, 2, 3, 4, 5, 6, 7, 8, 9, 10, 11], 2, 1, true).unwrap();
    assert_eq!(f.data, vec![3, 2, 1, 4, 7, 6, 5, 8, 11, 10, 9]);
}

#[test]
fn swapping_twice_restores_the_buffer() {
    let raw = [9u8, 8, 7, 6, 5, 4, 3, 2];
    let once = Frame::from_buffer(&raw, 1, 1, true).unwrap();
    let twice = Frame::from_buffer(&once.data, 1, 1, true).unwrap();
    assert_eq!(twice.data, raw.to_vec());
}

#[test]
fn frames_that_cannot_be_averaged() {
    let ok = StripLayout { crop_rows: 0, left_start: 0, left_end: 1, right_start: 1, right_end: 2 };
    // zero width
    assert!(average_colors(&[0; 16], 0, &ok).is_none());
    // no whole row left after cropping: nothing to divide by
    let crop_all = StripLayout { crop_rows: 1, ..ok };
    assert!(average_colors(&[0; 16], 2, &crop_all).is_none());
    // strip beyond the frame's width
    let wide = StripLayout { right_end: 3, ..ok };
    assert!(average_colors(&[0; 16], 2, &wide).is_none());
    // empty left strip
    let empty_left = StripLayout { left_end: 0, ..ok };
    assert!(average_colors(&[0; 16], 2, &empty_left).is_none());
    // right strip four times the left one, all bright: its average exceeds 255
    let data = frame(5, 1, 0, &|_| [255, 255, 255], [0, 0, 0]);
    let bright = StripLayout { crop_rows: 0, left_start: 0, left_end: 1, right_start: 1, right_end: 5 };
    assert!(average_colors(&data, 5, &bright).is_none());
    // the same frame with equal strips is fine
    let equal = StripLayout { right_start: 4, ..bright };
    assert_eq!(average_colors(&data, 5, &equal), Some([Color::new(65535, 65535, 65535); 2]));
}

#[test]
fn bytes_outside_the_strips_do_not_change_the_colors() {
    let layout = StripLayout { crop_rows: 2, left_start: 0, left_end: 2, right_start: 6, right_end: 8 };
    let inner = |x: usize| [(x * 10) as u8, (x * 20) as u8, (x * 30) as u8];
    let a = frame(8, 12, 2, &inner, [0, 0, 0]);
    let mut b = frame(8, 12, 2, &inner, [255, 255, 255]);
    for (i, byte) in b.iter_mut().enumerate() {
        let x = (i / 4) % 8;
        if i % 4 == 3 || (2..6).contains(&x) {
            *byte = 0xAB;
        }
    }
    assert_ne!(a, b);
    let ca = average_colors(&a, 8, &layout).unwrap();
    let cb = average_colors(&b, 8, &layout).unwrap();
    assert_eq!(ca, cb);
    assert_eq!(ca[0], Color { r: 15 * 257, g: 10 * 257, b: 5 * 257 });
}
