use kyberfrog::hud::{draw, glyph, rect, text, text_w, INK, PAPER};

fn px(frame: &[u8], stride: usize, x: usize, y: usize) -> [u8; 4] {
    let o = y * stride + x * 4;
    [frame[o], frame[o + 1], frame[o + 2], frame[o + 3]]
}

const BLANK: [u8; 4] = [0, 0, 0, 0];
const INKED: [u8; 4] = [INK, INK, INK, 255];
const BOXED: [u8; 4] = [PAPER, PAPER, PAPER, 255];

#[test]
fn rect_paints_exactly_its_pixels() {
    let (w, h) = (10usize, 6usize);
    let mut frame = vec![0u8; w * h * 4];
    rect(&mut frame, w * 4, 2, 1, 3, 2, 200);
    for y in 0..h {
        for x in 0..w {
            let inside = (2..5).contains(&x) && (1..3).contains(&y);
            let want = if inside { [200, 200, 200, 255] } else { BLANK };
            assert_eq!(px(&frame, w * 4, x, y), want, "pixel ({x}, {y})");
        }
    }
}

#[test]
fn glyph_widths() {
    assert_eq!(text_w(8, 16), 624);
    assert_eq!(text_w(7, 8), 272);
    assert_eq!(text_w(1, 3), 12);
}

#[test]
fn colon_is_two_dots() {
    let (w, h) = (8usize, 14usize);
    let mut frame = vec![0u8; w * h * 4];
    glyph(&mut frame, w * 4, 0, 0, 2, ':');
    // Unit 2: dots of 2x2 at x 3..5, lines 3..5 and 9..11.
    assert_eq!(px(&frame, w * 4, 3, 3), INKED);
    assert_eq!(px(&frame, w * 4, 4, 10), INKED);
    assert_eq!(px(&frame, w * 4, 3, 6), BLANK);
    assert_eq!(px(&frame, w * 4, 0, 0), BLANK);
}

#[test]
fn digits_light_their_segments() {
    let (w, h) = (8usize, 14usize);
    let mut one = vec![0u8; w * h * 4];
    glyph(&mut one, w * 4, 0, 0, 2, '1');
    // `1`: right strokes only.
    assert_eq!(px(&one, w * 4, 7, 1), INKED);
    assert_eq!(px(&one, w * 4, 7, 12), INKED);
    assert_eq!(px(&one, w * 4, 0, 0), BLANK);
    let mut eight = vec![0u8; w * h * 4];
    glyph(&mut eight, w * 4, 0, 0, 2, '8');
    // `8`: every stroke, the middle one included.
    assert_eq!(px(&eight, w * 4, 3, 6), INKED);
    assert_eq!(px(&eight, w * 4, 0, 0), INKED);
    assert_eq!(px(&eight, w * 4, 3, 13), INKED);
    assert_eq!(px(&eight, w * 4, 3, 3), BLANK);
}

#[test]
fn text_spaces_glyphs_five_units_apart() {
    let (w, h) = (20usize, 7usize);
    let mut frame = vec![0u8; w * h * 4];
    text(&mut frame, w * 4, 0, 0, 1, &vec!['1', '1']);
    assert_eq!(px(&frame, w * 4, 3, 1), INKED);
    assert_eq!(px(&frame, w * 4, 8, 1), INKED);
    assert_eq!(px(&frame, w * 4, 4, 1), BLANK);
}

#[test]
fn overlay_box_and_timecode_for_the_first_frame() {
    let (w, h) = (1920usize, 1080usize);
    let stride = w * 4;
    let mut frame = vec![0u8; stride * h];
    draw(&mut frame, stride, w, h, 0, 60);
    // "00:00:00": box 672 x 232, centred.
    let (x0, y0) = (624usize, 424usize);
    assert_eq!(px(&frame, stride, x0, y0), BOXED);
    assert_eq!(px(&frame, stride, x0 + 671, y0 + 231), BOXED);
    assert_eq!(px(&frame, stride, x0 - 1, y0), BLANK);
    assert_eq!(px(&frame, stride, x0 + 672, y0), BLANK);
    assert_eq!(px(&frame, stride, x0, y0 + 232), BLANK);
    // First `0`: top stroke lit, middle stroke dark.
    assert_eq!(px(&frame, stride, x0 + 24, y0 + 24), INKED);
    assert_eq!(px(&frame, stride, x0 + 24 + 32, y0 + 24 + 56), BOXED);
    // Counter "0000000" in small glyphs, centred under it.
    assert_eq!(px(&frame, stride, 824, 576), INKED);
    assert_eq!(px(&frame, stride, 823, 576), BOXED);
}

#[test]
fn overlay_middle_stroke_shows_an_eight() {
    let (w, h) = (1920usize, 1080usize);
    let stride = w * 4;
    let mut frame = vec![0u8; stride * h];
    // Frame 8 at 60 fps: timecode 00:00:08, the last glyph is an 8.
    draw(&mut frame, stride, w, h, 8, 60);
    let last_x = 624 + 24 + 7 * 80;
    assert_eq!(px(&frame, stride, last_x + 32, 424 + 24 + 56), INKED);
}

#[test]
fn overlay_skipped_on_small_frames() {
    let (w, h) = (600usize, 1080usize);
    let mut frame = vec![0u8; w * h * 4];
    draw(&mut frame, w * 4, w, h, 0, 60);
    assert!(frame.iter().all(|&b| b == 0));
    let (w, h) = (1920usize, 480usize);
    let mut frame = vec![0u8; w * h * 4];
    draw(&mut frame, w * 4, w, h, 0, 60);
    assert!(frame.iter().all(|&b| b == 0));
}
