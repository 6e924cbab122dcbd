use kyberfrog::encoder::{is_hardware_encoder_failure, resolve, transmitter_encoder, EncoderChoice, EncoderInfo, GpuAdapter, GpuVendor};
use kyberfrog::gpu::adapter_from_desc;

fn gpu(vendor_id: u32) -> GpuAdapter {
    GpuAdapter { name: "GPU".to_string(), vendor_id }
}

#[test]
fn auto_picks_the_hardware_encoder_of_the_primary_gpu() {
    assert_eq!(resolve(EncoderChoice::Auto, Some(&gpu(0x1002))), "amf");
    assert_eq!(resolve(EncoderChoice::Auto, Some(&gpu(0x10DE))), "nvenc");
}

#[test]
fn auto_falls_back_to_x264() {
    // Intel: QSV not validated. Unknown vendor or no GPU info: the CPU works.
    assert_eq!(resolve(EncoderChoice::Auto, Some(&gpu(0x8086))), "x264");
    assert_eq!(resolve(EncoderChoice::Auto, Some(&gpu(0x1414))), "x264");
    assert_eq!(resolve(EncoderChoice::Auto, None), "x264");
}

#[test]
fn an_explicit_choice_is_honoured() {
    assert_eq!(resolve(EncoderChoice::X264, Some(&gpu(0x1002))), "x264");
    assert_eq!(resolve(EncoderChoice::Nvenc, Some(&gpu(0x1002))), "nvenc");
}

#[test]
fn detects_a_hardware_encoder_failure() {
    // Real lines, webcam on a transmitter resolved to AMF.
    assert!(is_hardware_encoder_failure(
        "2026-09-18T11:28:23.727[18588] ERROR txproto::lavc:h264_amf - Could not init hardware frames context: Invalid argument!"
    ));
    assert!(is_hardware_encoder_failure(
        "2026-09-18T11:28:23.727[18588] ERROR txproto::lavc:hevc_nvenc - OpenEncodeSessionEx failed"
    ));
}

#[test]
fn ignores_everything_else() {
    for line in [
        // Same encoder, not an error.
        "2026-09-18T11:33:28.031[4024] INFO txproto::lavc:h264_amf - Force IDR",
        // The line before the encoder's own: not an encoder target.
        "2026-09-18T11:28:23.727[18588] ERROR txproto::AVHWFramesContext - Unsupported pixel format: yuvj422p",
        // Software encoder: falling back to x264 from x264 would loop.
        "2026-09-18T11:28:23.727[18588] ERROR txproto::lavc:libx264 - broken",
        "2026-09-18T11:28:26.197 WARN kycontroller::avservice - Force IDR failed",
        "",
    ] {
        assert!(!is_hardware_encoder_failure(line), "{line}");
    }
}

#[test]
fn only_the_primary_gpu_vendor_is_available() {
    let info = EncoderInfo::new(EncoderChoice::Auto, Some(&gpu(0x1002)));
    let available: Vec<_> = info.options.iter().filter(|o| o.available).map(|o| o.id).collect();
    assert_eq!(available, [EncoderChoice::Auto, EncoderChoice::X264, EncoderChoice::Amf]);
    assert_eq!(info.resolved, "amf");
    assert_eq!(info.gpu, Some("GPU".to_string()));

    let cpu_only = EncoderInfo::new(EncoderChoice::Auto, None);
    let available: Vec<_> = cpu_only.options.iter().filter(|o| o.available).map(|o| o.id).collect();
    assert_eq!(available, [EncoderChoice::Auto, EncoderChoice::X264]);
    assert_eq!(cpu_only.gpu, None);
}

#[test]
fn kyber_names_and_vendors() {
    assert_eq!(EncoderChoice::Auto.kyber_name(), None);
    assert_eq!(EncoderChoice::Qsv.kyber_name(), Some("qsv"));
    assert_eq!(EncoderChoice::Amf.vendor(), Some(GpuVendor::Amd));
    assert_eq!(EncoderChoice::X264.vendor(), None);
    assert_eq!(GpuVendor::from_pci_id(0x8086), Some(GpuVendor::Intel));
    assert_eq!(GpuVendor::from_pci_id(0), None);
    assert_eq!(EncoderChoice::default(), EncoderChoice::Auto);
    assert_eq!(EncoderChoice::all().len(), 5);
}

#[test]
fn whitespace_before_the_codec_is_skipped() {
    assert!(is_hardware_encoder_failure("t ERROR txproto::lavc:  h264_qsv x"));
    assert!(is_hardware_encoder_failure("t ERROR txproto::lavc:vaapi_h264_vaapi"));
    assert!(!is_hardware_encoder_failure("t ERROR txproto::lavc:"));
}

#[test]
fn adapter_description_is_cut_at_nul_and_whitespace_collapsed() {
    let mut desc: Vec<u16> = "  AMD  Radeon RX 7800 XT ".encode_utf16().collect();
    desc.push(0);
    desc.extend("garbage".encode_utf16());
    let a = adapter_from_desc(&desc, 0x1002, 0).unwrap();
    assert_eq!(a.name, "AMD Radeon RX 7800 XT");
    assert_eq!(a.vendor_id, 0x1002);
    assert!(adapter_from_desc(&desc, 0x1414, 2).is_none());
    let full: Vec<u16> = "NVIDIA\tRTX".encode_utf16().collect();
    assert_eq!(adapter_from_desc(&full, 0x10DE, 0).unwrap().name, "NVIDIA RTX");
}

#[test]
fn a_transmitter_starts_on_x264_once_it_fell_back() {
    let nvidia = gpu(0x10DE);
    assert_eq!(transmitter_encoder(EncoderChoice::Auto, Some(&nvidia), false), ("nvenc", true));
    assert_eq!(transmitter_encoder(EncoderChoice::Auto, Some(&nvidia), true), ("x264", false));
    assert_eq!(transmitter_encoder(EncoderChoice::Auto, None, false), ("x264", false));
    assert_eq!(transmitter_encoder(EncoderChoice::Qsv, None, false), ("qsv", true));
    assert_eq!(transmitter_encoder(EncoderChoice::X264, Some(&nvidia), false), ("x264", false));
}

#[test]
fn adapter_names_decode_utf16_with_replacement() {
    // A surrogate pair makes one character; a lone surrogate becomes U+FFFD.
    let desc: Vec<u16> = vec![0x0047, 0xD83D, 0xDE00, 0x0020, 0xDC00, 0x0050, 0xD800, 0x0055, 0, 0x58];
    assert_eq!(adapter_from_desc(&desc, 0x10DE, 0).unwrap().name, "G\u{1F600} \u{FFFD}P\u{FFFD}U");
}
