use kyberfrog::bench::{
    agree, connections_sampled, count_decoded, count_decoded_fields, csv_text, deadline,
    extract_band, fmt, fourcc, frame_id, gen_row, is_wanted_source, ndi_gen_row, ndi_probe_row,
    ndi_summary, needs_texture, new_frame, next_wake, probe_miss_row, probe_row, recv_color,
    binding, Arrival, Relay, pace, raises_priority, sender_name_fits, settled_frame_count, Pace, SETTLE_READS, SPIN_US, registered_names, registry_slot, relay_due, relay_row, render, scheduled, Binding, RegistryError, send_fourcc, should_arm, should_fire, upload_width, wake_at,
    Report, BAND_BYTES, FOURCC_BGRA, FOURCC_BGRX, FOURCC_UYVY, RECV_COLOR_BGRX_BGRA,
    RECV_COLOR_UYVY_BGRA,
};
use kyberfrog::backdrop::Background;
use kyberfrog::idcode::{band_origins, decode, encode, DecodeError, BAND_W};

#[test]
fn fourcc_codes_are_little_endian_tags() {
    assert_eq!(fourcc(b"UYVY"), FOURCC_UYVY);
    assert_eq!(fourcc(b"BGRA"), FOURCC_BGRA);
    assert_eq!(fourcc(b"BGRX"), FOURCC_BGRX);
    assert_eq!(fourcc(&[1, 2, 3, 4]), 0x0403_0201);
    assert_eq!(FOURCC_UYVY.to_le_bytes(), *b"UYVY");
}

#[test]
fn format_choices_and_their_errors() {
    assert_eq!(send_fourcc("BGRX"), Ok(FOURCC_BGRX));
    assert_eq!(send_fourcc("BGRA"), Ok(FOURCC_BGRA));
    assert_eq!(send_fourcc("NV12"), Err("--fourcc NV12: BGRX or BGRA".to_string()));
    assert_eq!(recv_color("uyvy"), Ok(RECV_COLOR_UYVY_BGRA));
    assert_eq!(recv_color("bgra"), Ok(RECV_COLOR_BGRX_BGRA));
    assert_eq!(recv_color("UYVY"), Err("--color UYVY: uyvy or bgra".to_string()));
}

#[test]
fn upload_texture_follows_the_delivered_format() {
    assert_eq!(upload_width(FOURCC_UYVY, 1920), 960);
    assert_eq!(upload_width(FOURCC_BGRA, 1920), 1920);
    assert!(needs_texture(None, 960, 1080));
    assert!(!needs_texture(Some((960, 1080)), 960, 1080));
    assert!(needs_texture(Some((1920, 1080)), 960, 1080));
    assert!(needs_texture(Some((960, 720)), 960, 1080));
}

#[test]
fn decode_results_are_written_as_numbers_or_failure_names() {
    assert_eq!(fmt(&Ok(1234)), "1234");
    assert_eq!(fmt(&Err(DecodeError::NoContrast)), "NoContrast");
    assert_eq!(fmt(&Err(DecodeError::BadCrc)), "BadCrc");
    assert!(agree(&Ok(7), &Ok(7)));
    assert!(!agree(&Ok(7), &Ok(8)));
    assert!(!agree(&Ok(7), &Err(DecodeError::BadCrc)));
    assert!(!agree(&Err(DecodeError::BadCrc), &Err(DecodeError::BadCrc)));
}

#[test]
fn generator_schedule() {
    assert_eq!(deadline(500_000, 0, 60), 500_000);
    assert_eq!(deadline(500_000, 1, 60), 516_666);
    assert_eq!(deadline(0, 60, 60), 1_000_000);
    assert_eq!(scheduled(0, 1_000_000, 59, 60), Some(983_333));
    assert_eq!(scheduled(0, 1_000_000, 60, 60), None);
    assert_eq!(frame_id(5), 5);
    assert_eq!(frame_id(0x0100_0003), 3);
    assert!(connections_sampled(120, 60));
    assert!(!connections_sampled(121, 60));
}

#[test]
fn probe_counts_only_strictly_newer_frames() {
    assert_eq!(new_frame(10, 11), Some(1));
    assert_eq!(new_frame(10, 13), Some(3));
    assert_eq!(new_frame(10, 10), None);
    assert_eq!(new_frame(10, 9), None);
}

#[test]
fn relay_arms_then_fires_on_time() {
    let due = relay_due(1_000, 50_000);
    assert_eq!(due, 51_000);
    // Lead 2 ms, poll 50 µs: arming starts once the next poll would be late.
    assert!(!should_arm(48_000, 50, due, 2_000));
    assert!(should_arm(48_950, 50, due, 2_000));
    assert!(!should_fire(50_900, 50, due));
    assert!(should_fire(50_950, 50, due));
    assert_eq!(next_wake(Some(due), Some(2_000), 50_000, 2_000), due);
    assert_eq!(next_wake(None, Some(2_000), 50_000, 2_000), 50_000);
    assert_eq!(next_wake(None, None, 50_000, 2_000), i64::MAX);
    assert_eq!(wake_at(100, 50, 1_000), 150);
    assert_eq!(wake_at(100, 50, 120), 120);
}

#[test]
fn ndi_sources_are_matched_by_their_parenthesised_name() {
    assert!(is_wanted_source("STUDIO-PC (kybench-ndi)", "kybench-ndi"));
    assert!(!is_wanted_source("STUDIO-PC (kybench-ndi-2)", "kybench-ndi"));
    assert!(!is_wanted_source("kybench-ndi", "kybench-ndi"));
}

#[test]
fn report_rows() {
    assert_eq!(gen_row(7, 516_666, 516_700, true), "7,516666,516700,1");
    assert_eq!(gen_row(7, 516_666, -3, false), "7,516666,-3,0");
    assert_eq!(probe_row(12, 1, 100, 150, &Ok(9), &Ok(9)), "12,1,100,150,9,9,1");
    assert_eq!(
        probe_row(12, 2, 100, 150, &Ok(9), &Err(DecodeError::NoContrast)),
        "12,2,100,150,9,NoContrast,0"
    );
    assert_eq!(probe_miss_row(12, 1, 100, 160), "12,1,100,160,,,0");
    assert_eq!(relay_row(3, 10, 60, 61, true), "3,10,60,61,1");
    assert_eq!(ndi_gen_row(1, 2, 3, 4, 5, -1), "1,2,3,1,4,5,-1");
    assert_eq!(
        ndi_probe_row(4, 10, 20, &Ok(3), &Ok(3), 30, i64::MIN),
        "4,1,10,20,3,3,1,30,-9223372036854775808"
    );
}

#[test]
fn reports_are_a_header_then_one_row_per_line() {
    let rows = vec!["1,2,3,1".to_string(), "2,3,4,0".to_string()];
    let text = csv_text(Report::Gen.header(), &rows);
    assert_eq!(text, "id,t_deadline_us,t_pub_us,published\n1,2,3,1\n2,3,4,0\n");
    assert_eq!(csv_text("h\n", &Vec::new()), "h\n");
    assert_eq!(Report::Probe.header(), "frame_count,step,t_out_us,t_read_us,id_a,id_b,decoded\n");
    assert_eq!(Report::Relay.header(), "frame_count,t_in_us,t_due_us,t_pub_us,published\n");
    assert_eq!(
        Report::NdiGen.header(),
        "id,t_deadline_us,t_pub_us,published,t_read_us,t_sent_us,connections\n"
    );
    assert_eq!(
        Report::NdiProbe.header(),
        "frame_count,step,t_out_us,t_read_us,id_a,id_b,decoded,t_up_us,ndi_timestamp\n"
    );
}

#[test]
fn decoded_frames_are_counted_from_the_rows() {
    let rows = vec![
        probe_row(1, 1, 0, 0, &Ok(1), &Ok(1)),
        probe_row(2, 1, 0, 0, &Ok(1), &Ok(2)),
        probe_miss_row(3, 1, 0, 0),
        probe_row(4, 1, 0, 0, &Ok(4), &Ok(4)),
    ];
    assert_eq!(count_decoded(&rows), 2);
    let ndi = vec![
        ndi_probe_row(1, 0, 0, &Ok(1), &Ok(1), 0, 11),
        ndi_probe_row(2, 0, 0, &Ok(1), &Err(DecodeError::BadCrc), 0, 1),
        "1,1".to_string(),
    ];
    assert_eq!(count_decoded_fields(&ndi), 1);
}

#[test]
fn ndi_summary_escapes_the_source_name() {
    let s = ndi_summary("PC \"A\" \\ (src)", "6.1.0", "uyvy", true, "{(\"UYVY\", 1920, 1080)}", 600, 2);
    assert_eq!(
        s,
        "{\"source\": \"PC 'A' \\\\ (src)\", \"runtime\": \"6.1.0\", \"color\": \"uyvy\", \"upload\": true, \
         \"formats\": \"{('UYVY', 1920, 1080)}\", \"sdk_video_frames\": 600, \"sdk_video_dropped\": 2}\n"
    );
}

#[test]
fn extracted_bgra_band_decodes_to_the_drawn_id() {
    let (w, h) = (800usize, 200usize);
    let mut frame = vec![0u8; w * h * 4];
    encode(&mut frame, w * 4, 32, 40, 0x00AB_CDEF);
    let band = extract_band(&frame, w * 4, FOURCC_BGRA, 32, 40);
    assert_eq!(band.len(), BAND_BYTES);
    assert_eq!(decode(&band, BAND_W * 4), Ok(0x00AB_CDEF));
}

#[test]
fn extracted_uyvy_band_reads_the_luma_samples() {
    let (w, h) = (800usize, 100usize);
    let stride = w * 2;
    let mut frame = vec![0u8; stride * h];
    for y in 0..h {
        for x in 0..w {
            frame[y * stride + 2 * x + 1] = (x % 251) as u8;
            frame[y * stride + 2 * x] = 128;
        }
    }
    let band = extract_band(&frame, stride, FOURCC_UYVY, 10, 5);
    assert_eq!(band.len(), BAND_BYTES);
    assert_eq!(&band[0..4], &[10, 10, 10, 255]);
    let o = (63 * BAND_W + 575) * 4;
    let v = ((10 + 575) % 251) as u8;
    assert_eq!(&band[o..o + 4], &[v, v, v, 255]);
}

#[test]
fn rendered_frames_carry_their_id_in_both_bands() {
    let (w, h) = (1920usize, 1080usize);
    let background = Background::new(w, h, 1);
    let mut frame = vec![0u8; w * h * 4];
    let n = 0x0123_4567u64;
    let id = render(&background, &mut frame, w, h, n, 60);
    assert_eq!(id, 0x23_4567);
    for (x, y) in band_origins(w, h) {
        let band = extract_band(&frame, w * 4, FOURCC_BGRA, x, y);
        assert_eq!(decode(&band, BAND_W * 4), Ok(id));
    }
    // The overlay box sits in the middle, clear of both bands.
    let o = (540 * w + 960) * 4;
    assert_eq!(frame[o + 3], 255);
}

fn registry_with(names: &[&str]) -> Vec<u8> {
    let mut block = vec![0u8; 256 * 256];
    for (i, n) in names.iter().enumerate() {
        block[i * 256..i * 256 + n.len()].copy_from_slice(n.as_bytes());
    }
    block
}

#[test]
fn registry_names_stop_at_the_first_empty_slot() {
    let mut block = registry_with(&["kybench-src", "Arena"]);
    block[3 * 256] = b'x';
    assert_eq!(registered_names(&block), vec!["kybench-src", "Arena"]);
    assert!(registered_names(&[]).is_empty());
    assert!(registered_names(&vec![0u8; 256 * 256]).is_empty());
}

#[test]
fn a_new_sender_takes_the_first_free_slot() {
    let slots: Vec<String> = vec!["a".into(), "".into(), "b".into(), "".into()];
    assert_eq!(registry_slot(&slots, "c"), Ok(1));
    assert_eq!(registry_slot(&slots, "b"), Err(RegistryError::Taken));
    let full: Vec<String> = vec!["a".into(), "b".into()];
    assert_eq!(registry_slot(&full, "c"), Err(RegistryError::Full));
}

#[test]
fn receiver_binds_when_the_shared_texture_appears_or_changes() {
    assert_eq!(binding(None, true, 5), Binding::Lost);
    assert_eq!(binding(Some([0, 1920, 1080, 87]), false, 0), Binding::NotReady);
    assert_eq!(binding(Some([7, 1920, 1080, 87]), false, 0), Binding::Bind { handle: 7, width: 1920, height: 1080 });
    assert_eq!(binding(Some([7, 1920, 1080, 87]), true, 7), Binding::Keep);
    assert_eq!(binding(Some([8, 1280, 720, 87]), true, 7), Binding::Bind { handle: 8, width: 1280, height: 720 });
}

#[test]
fn the_baseline_is_the_largest_read_of_the_burst() {
    let mut reads = vec![Some(41i64); SETTLE_READS];
    reads[7] = Some(40);
    reads[12] = Some(42);
    assert_eq!(settled_frame_count(&reads), Some(42));
    reads[20] = None;
    assert_eq!(settled_frame_count(&reads), None);
    assert_eq!(settled_frame_count(&[]), None);
    assert_eq!(settled_frame_count(&[Some(-3)]), Some(-3));
}

#[test]
fn the_pacer_sleeps_until_a_millisecond_before_then_spins() {
    assert_eq!(pace(1_000, 1_000), Pace::Done);
    assert_eq!(pace(1_000, 2_000), Pace::Done);
    assert_eq!(pace(10_000, 0), Pace::Sleep(-90_000));
    assert_eq!(pace(SPIN_US + 1, 0), Pace::Sleep(-5_010));
    assert_eq!(pace(SPIN_US, 0), Pace::Spin);
    assert_eq!(pace(1, 0), Pace::Spin);
}

#[test]
fn a_sender_name_is_one_to_255_bytes() {
    assert!(!sender_name_fits(""));
    assert!(sender_name_fits("KyBench"));
    assert!(sender_name_fits(&"a".repeat(255)));
    assert!(!sender_name_fits(&"a".repeat(256)));
    // Counted in bytes, not characters: 128 two-byte characters are 256 bytes.
    assert!(!sender_name_fits(&"é".repeat(128)));
    assert!(sender_name_fits(&"é".repeat(127)));
}

#[test]
fn the_pacer_thread_is_raised_unless_asked_not_to() {
    let words = |s: &[&str]| s.iter().map(|w| w.to_string()).collect::<Vec<String>>();
    assert!(raises_priority(&words(&[])));
    assert!(raises_priority(&words(&["--fps", "60"])));
    assert!(!raises_priority(&words(&["--fps", "60", "--priority", "normal"])));
    assert!(raises_priority(&words(&["--priority", "high"])));
    assert!(raises_priority(&words(&["normal", "--priority"])));
    assert!(raises_priority(&words(&["--priority"])));
}

#[test]
fn the_relay_moves_each_slot_between_free_queued_and_armed() {
    let mut relay = Relay::new(3);
    assert_eq!(relay.free, vec![0, 1, 2]);
    assert_eq!(relay.input_slot(), Some(2));
    relay.frame_in(Arrival::Copied, 1_000, 7);
    relay.frame_in(Arrival::Busy, 1_100, 8);
    relay.frame_in(Arrival::Copied, 1_200, 9);
    assert_eq!(relay.free, vec![0]);
    assert_eq!(relay.queue, vec![(2, 1_000, 7), (1, 1_200, 9)]);
    relay.frame_in(Arrival::Dropped, 1_300, 10);
    assert_eq!(relay.overflow, 1);

    assert_eq!(relay.front(), Some((2, 1_000, 7)));
    assert_eq!(relay.arm(true, 49_000, 50_000), None);
    assert_eq!(relay.armed, Some((2, 1_000, 7, 51_000)));
    assert_eq!(relay.front(), None);
    assert_eq!(relay.arm(true, 49_500, 50_000), None);
    assert_eq!(relay.queue.len(), 1);

    assert_eq!(relay.publish(51_003).as_deref(), Some("7,1000,51000,51003,1"));
    assert_eq!(relay.free, vec![0, 2]);
    assert_eq!(relay.armed, None);
    assert_eq!(relay.publish(60_000), None);

    // A busy sender leaves the frame unpublished and frees its slot.
    assert_eq!(relay.arm(false, 50_000, 50_000).as_deref(), Some("9,1200,51200,50000,0"));
    assert_eq!(relay.free, vec![0, 2, 1]);
    assert!(relay.queue.is_empty());

    // With no free slot a copied frame cannot be kept: it counts as lost.
    let mut empty = Relay::new(0);
    empty.frame_in(Arrival::Copied, 1, 1);
    assert_eq!(empty.overflow, 1);
    assert!(empty.queue.is_empty());
}
