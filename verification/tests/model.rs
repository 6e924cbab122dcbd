use kyberfrog::model::{ScreenBackend, Source, Transmitter};

#[test]
fn session_type_wins_over_stray_sockets() {
    // A Wayland session usually also exposes DISPLAY through XWayland.
    assert_eq!(
        ScreenBackend::detect_from(Some("wayland"), Some("wayland-0"), Some(":0")),
        ScreenBackend::Wlroots
    );
    assert_eq!(ScreenBackend::detect_from(Some("x11"), None, Some(":0")), ScreenBackend::Xcb);
}

#[test]
fn falls_back_to_sockets_when_session_type_is_unset() {
    assert_eq!(ScreenBackend::detect_from(None, Some("wayland-0"), None), ScreenBackend::Wlroots);
    assert_eq!(ScreenBackend::detect_from(None, None, Some(":0")), ScreenBackend::Xcb);
}

#[test]
fn headless_falls_back_to_drm() {
    // The display-box case: autologin on a tty, no display server.
    assert_eq!(ScreenBackend::detect_from(Some("tty"), None, None), ScreenBackend::Drm);
    assert_eq!(ScreenBackend::detect_from(None, None, None), ScreenBackend::Drm);
}

#[test]
fn empty_vars_are_not_a_display_server() {
    assert_eq!(ScreenBackend::detect_from(None, Some(""), Some(":0")), ScreenBackend::Xcb);
    assert_eq!(ScreenBackend::detect_from(None, Some(""), Some("")), ScreenBackend::Drm);
}

#[test]
fn nvfbc_is_never_guessed() {
    for case in [
        ScreenBackend::detect_from(Some("wayland"), None, None),
        ScreenBackend::detect_from(Some("x11"), None, None),
        ScreenBackend::detect_from(None, None, None),
    ] {
        assert_ne!(case, ScreenBackend::NvFbc);
    }
}

#[test]
fn backend_strings_match_the_fork_enum() {
    assert_eq!(ScreenBackend::NvFbc.as_str(), "nvfbc");
    assert_eq!(ScreenBackend::Drm.as_str(), "drm");
    assert_eq!(ScreenBackend::Xcb.as_str(), "xcb");
    assert_eq!(ScreenBackend::Wlroots.as_str(), "wlroots");
}

#[test]
fn session_type_is_trimmed() {
    assert_eq!(ScreenBackend::detect_from(Some(" wayland\n"), None, None), ScreenBackend::Wlroots);
}

#[test]
fn source_labels() {
    assert_eq!(Source::Spout { sender: "Out A".to_string() }.label(), "Spout: Out A");
    assert_eq!(Source::Screen {}.label(), "Screen");
    assert_eq!(Source::Camera { device: "Cam".to_string() }.label(), "Webcam: Cam");
    assert_eq!(Source::All {}.label(), "Toutes les sources");
}

#[test]
fn transmitter_names_must_be_path_safe() {
    let tx = |name: &str| Transmitter { name: name.to_string(), port: 9000, source: Source::Screen {} };
    assert!(tx("stage-left").has_valid_name());
    assert!(!tx("").has_valid_name());
    assert!(!tx("a/b").has_valid_name());
    assert!(!tx("a:b").has_valid_name());
    assert!(!tx("what?").has_valid_name());
}
