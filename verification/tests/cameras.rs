use kyberfrog::cameras::{parse_dshow_devices, parse_v4l2_sources};
use kyberfrog::cameras::{camera_names, ffmpeg_path, probe, HostOs, Listing};
use kyberfrog::paths::Platform;

#[test]
fn parses_video_devices_only() {
    let stderr = r#"[dshow @ 0000021a] "Integrated Camera" (video)
[dshow @ 0000021a]   Alternative name "@device_pnp_\\?\usb#vid_04f2"
[dshow @ 0000021a] "OBS Virtual Camera" (video)
[dshow @ 0000021a] "Microphone (Realtek(R) Audio)" (audio)
dummy: Immediate exit requested
"#;
    assert_eq!(
        parse_dshow_devices(stderr),
        vec!["Integrated Camera".to_string(), "OBS Virtual Camera".to_string()]
    );
}

#[test]
fn parses_video_devices_with_in_tag_variant() {
    // Some ffmpeg builds log under "[in#0 @ ...]" instead of "[dshow @ ...]".
    let stderr = r#"[in#0 @ 0000024c84137780] "PC-LM1E" (video)
[in#0 @ 0000024c84137780]   Alternative name "@device_pnp_\\?\usb#vid_0c45"
[in#0 @ 0000024c84137780] "Decklink Video Capture" (none)
[in#0 @ 0000024c84137780]   Alternative name "@device_sw_{860BB310}"
[in#0 @ 0000024c84137780] "OBS Virtual Camera" (video)
[in#0 @ 0000024c84137780] "Microphone (PC-LM1E)" (audio)
Error opening input file dummy.
"#;
    assert_eq!(
        parse_dshow_devices(stderr),
        vec!["PC-LM1E".to_string(), "OBS Virtual Camera".to_string()]
    );
}

#[test]
fn empty_on_no_devices() {
    assert!(parse_dshow_devices("dummy: Immediate exit requested\n").is_empty());
}

#[test]
fn v4l2_parses_card_names_not_nodes() {
    let stdout = "Auto-detected sources for v4l2:
* /dev/video0 [HD Pro Webcam C920] (none)
  /dev/video4 [KF Test Cam] (none)
";
    assert_eq!(
        parse_v4l2_sources(stdout),
        vec!["HD Pro Webcam C920".to_string(), "KF Test Cam".to_string()]
    );
}

#[test]
fn v4l2_lists_a_shared_card_name_once() {
    // Two identical cameras hash to the same source id in the fork.
    let stdout = "Auto-detected sources for v4l2:
* /dev/video0 [USB Video] (none)
  /dev/video2 [USB Video] (none)
  /dev/video4 [C790] (none)
";
    assert_eq!(
        parse_v4l2_sources(stdout),
        vec!["USB Video".to_string(), "C790".to_string()]
    );
}

#[test]
fn v4l2_keeps_brackets_inside_a_card_name() {
    let stdout = "  /dev/video0 [Cam [HDMI] (1080p)] (video)\n";
    assert_eq!(parse_v4l2_sources(stdout), vec!["Cam [HDMI] (1080p)".to_string()]);
}

#[test]
fn v4l2_empty_when_listing_fails() {
    let stdout = "Auto-detected sources for v4l2:
Cannot list sources: No such file or directory
";
    assert!(parse_v4l2_sources(stdout).is_empty());
    assert!(parse_v4l2_sources("").is_empty());
}

#[test]
fn dshow_lines_with_crlf_endings_parse_too() {
    let stderr = "[dshow @ 01] \"Cam A\" (video)\r\n[dshow @ 01] \"Mic\" (audio)\r\n";
    assert_eq!(parse_dshow_devices(stderr), vec!["Cam A".to_string()]);
}

#[test]
fn ffmpeg_is_found_in_the_install_dir() {
    assert_eq!(ffmpeg_path(Platform::Windows, "C:\\Kyber"), "C:\\Kyber\\ffmpeg.exe");
    assert_eq!(ffmpeg_path(Platform::Unix, "/opt/kyber"), "/opt/kyber/ffmpeg");
}

#[test]
fn each_platform_has_its_listing() {
    let w = probe(HostOs::Windows).unwrap();
    assert_eq!(w.listing, Listing::Dshow);
    assert!(!w.stdout);
    assert_eq!(w.args, vec!["-hide_banner", "-f", "dshow", "-list_devices", "true", "-i", "dummy"]);
    let l = probe(HostOs::Linux).unwrap();
    assert_eq!(l.listing, Listing::V4l2);
    assert!(l.stdout);
    assert_eq!(l.args, vec!["-hide_banner", "-sources", "v4l2"]);
    assert!(probe(HostOs::Other).is_none());
}

#[test]
fn camera_names_read_the_listing_stream() {
    let w = probe(HostOs::Windows).unwrap();
    let stderr = b"[dshow @ 01] \"Cam A\" (video)\n[dshow @ 01] \"Mic\" (audio)\n";
    assert_eq!(camera_names(&w, b"* /dev/video0 [X] (none)\n", stderr), vec!["Cam A"]);
    let l = probe(HostOs::Linux).unwrap();
    assert_eq!(camera_names(&l, b"* /dev/video0 [X] (none)\n", stderr), vec!["X"]);
}
