use kyberfrog::backdrop::Background;

fn xorshift_outputs(seed: u64, n: usize) -> Vec<u64> {
    let mut s = seed | 1;
    (0..n)
        .map(|_| {
            s ^= s << 13;
            s ^= s >> 7;
            s ^= s << 17;
            s
        })
        .collect()
}

fn color(r: u64) -> [u8; 4] {
    [r as u8, (r >> 8) as u8, (r >> 16) as u8, 255]
}

#[test]
fn first_blocks_take_the_first_generator_outputs() {
    let bg = Background::new(4, 2, 1);
    let mut frame = vec![0u8; 4 * 2 * 4];
    bg.compose(0, &mut frame, 4);
    // Seed 1: the first output is 0x40822041.
    assert_eq!(&frame[0..4], &[0x41, 0x20, 0x82, 255]);
    assert_eq!(&frame[12..16], &[0x41, 0x20, 0x82, 255]);
    assert_eq!(&frame[16..20], &[0x41, 0x20, 0x82, 255]);
}

#[test]
fn scrolling_moves_eight_pixels_per_frame() {
    let outs = xorshift_outputs(7, 3);
    let bg = Background::new(16, 1, 7);
    let mut frame = vec![0u8; 16 * 4];
    // Frame 2 starts 16 pixels in: the second block.
    bg.compose(2, &mut frame, 16);
    assert_eq!(&frame[0..4], &color(outs[1]));
    assert_eq!(&frame[60..64], &color(outs[1]));
    // Frame 1 starts 8 pixels in: half of block one, then half of block two.
    bg.compose(1, &mut frame, 16);
    assert_eq!(&frame[0..4], &color(outs[0]));
    assert_eq!(&frame[32..36], &color(outs[1]));
    // 128 frames later the scroll has wrapped.
    let mut wrapped = vec![0u8; 16 * 4];
    bg.compose(130, &mut wrapped, 16);
    bg.compose(2, &mut frame, 16);
    assert_eq!(wrapped, frame);
}

#[test]
fn same_seed_same_background() {
    let a = Background::new(32, 20, 99);
    let b = Background::new(32, 20, 99);
    let c = Background::new(32, 20, 100);
    let (mut fa, mut fb, mut fc) = (vec![0u8; 32 * 20 * 4], vec![0u8; 32 * 20 * 4], vec![0u8; 32 * 20 * 4]);
    a.compose(5, &mut fa, 32);
    b.compose(5, &mut fb, 32);
    c.compose(5, &mut fc, 32);
    assert_eq!(fa, fb);
    assert_ne!(fa, fc);
}

#[test]
fn second_block_row_uses_the_next_row_of_colours() {
    let tile_w = 4 + 1024;
    let blocks_x = (tile_w + 15) / 16;
    let outs = xorshift_outputs(3, blocks_x + 1);
    let bg = Background::new(4, 17, 3);
    let mut frame = vec![0u8; 4 * 17 * 4];
    bg.compose(0, &mut frame, 4);
    let last_line = 16 * 4 * 4;
    assert_eq!(&frame[last_line..last_line + 4], &color(outs[blocks_x]));
}

#[test]
fn partial_trailing_line_is_left_alone() {
    let bg = Background::new(4, 2, 1);
    let mut frame = vec![9u8; 4 * 4 + 3];
    bg.compose(0, &mut frame, 4);
    assert_eq!(&frame[16..19], &[9, 9, 9]);
    assert_eq!(&frame[0..4], &[0x41, 0x20, 0x82, 255]);
}
