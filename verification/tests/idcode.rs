use kyberfrog::idcode::{band_origins, crc8, decode, encode, sample, DecodeError, BAND_H, BAND_W, BLACK, CELL, ID_MASK, REFS, WHITE};

fn band_with(id: u32) -> Vec<u8> {
    let mut band = vec![0u8; BAND_W * BAND_H * 4];
    encode(&mut band, BAND_W * 4, 0, 0, id);
    band
}

#[test]
fn round_trips() {
    for id in [0, 1, 2, 0x5A5A5A, 18_000, ID_MASK] {
        assert_eq!(decode(&band_with(id), BAND_W * 4), Ok(id));
    }
}

#[test]
fn rejects_flat_and_corrupted() {
    assert_eq!(decode(&vec![128u8; BAND_W * BAND_H * 4], BAND_W * 4), Err(DecodeError::NoContrast));
    let mut band = band_with(42);
    // Flip one payload cell (row 0, first bit) to the opposite level.
    let flipped = if sample(&band, BAND_W * 4, 0, REFS) > 128 { BLACK } else { WHITE };
    for y in 0..CELL {
        for x in 0..CELL {
            let o = (y * BAND_W + REFS * CELL + x) * 4;
            band[o..o + 3].fill(flipped);
        }
    }
    assert_eq!(decode(&band, BAND_W * 4), Err(DecodeError::BadCrc));
}

#[test]
fn origins_are_macroblock_aligned() {
    for (w, h) in [(1920, 1080), (2560, 1440), (1280, 720)] {
        for (x, y) in band_origins(w, h) {
            assert_eq!((x % 16, y % 16), (0, 0));
            assert!(x + BAND_W <= w && y + BAND_H <= h);
        }
    }
}

#[test]
fn ids_above_the_mask_are_truncated() {
    // Only the low 24 bits travel in a band.
    assert_eq!(decode(&band_with(0x0100_0005), BAND_W * 4), Ok(5));
}

#[test]
fn band_placed_inside_a_frame_reads_back() {
    let (w, h) = (1280usize, 720usize);
    let mut frame = vec![0u8; w * h * 4];
    let origins = band_origins(w, h);
    for (x, y) in origins {
        encode(&mut frame, w * 4, x, y, 777);
    }
    let (x, y) = origins[1];
    let start = (y * w + x) * 4;
    assert_eq!(decode(&frame[start..], w * 4), Ok(777));
}

#[test]
fn crc8_of_known_bytes() {
    assert_eq!(crc8(&[]), 0);
    assert_eq!(crc8(&[1, 2, 3]), 72);
    // The CRC-8 (poly 0x07) check value.
    assert_eq!(crc8(b"123456789"), 0xF4);
}

#[test]
fn survives_noise_and_limited_range() {
    let mut band = band_with(123_456);
    let mut seed = 7u32;
    for (i, b) in band.iter_mut().enumerate() {
        if i % 4 == 3 {
            continue;
        }
        seed ^= seed << 13;
        seed ^= seed >> 17;
        seed ^= seed << 5;
        // Compress to 32..=200 then add ±24 noise.
        let v = 32 + (*b as i32 * 168 / 255) + (seed % 49) as i32 - 24;
        *b = v.clamp(0, 255) as u8;
    }
    assert_eq!(decode(&band, BAND_W * 4), Ok(123_456));
}

#[test]
fn a_message_followed_by_its_crc_has_residue_zero() {
    for msg in [&[][..], &[0x00][..], &[0x12, 0x34, 0x56][..], &[0xFF, 0x80, 0x01, 0x7F][..]] {
        let mut with_crc = msg.to_vec();
        with_crc.push(crc8(msg));
        assert_eq!(crc8(&with_crc), 0);
    }
    assert_eq!(crc8(b"123456789"), 0xF4);
}
