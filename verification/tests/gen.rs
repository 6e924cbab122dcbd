use kyberfrog::gen::{render_config, sha256_hex, GenError};
use kyberfrog::model::{ScreenBackend, Source, Transmitter};
use kyberfrog::table::{TomlTable, TomlValue};

fn tx(name: &str, port: u16, source: Source) -> Transmitter {
    Transmitter { name: name.to_string(), port, source }
}

fn text(v: Option<&TomlValue>) -> Option<&str> {
    match v {
        Some(TomlValue::Text(s)) => Some(s.as_str()),
        _ => None,
    }
}

fn section<'a>(t: &'a TomlTable, key: &str) -> &'a TomlTable {
    match t.get(key) {
        Some(TomlValue::Table(s)) => s,
        _ => panic!("no [{key}] table"),
    }
}

fn defaults_with_leftovers() -> TomlTable {
    let mut kya = TomlTable::new();
    kya.insert("spout_sender", TomlValue::Text("Leftover".to_string()));
    kya.insert("camera_device", TomlValue::Text("Leftover".to_string()));
    kya.insert("all_sources", TomlValue::Boolean(true));
    kya.insert("grab_backend", TomlValue::Text("nvfbc".to_string()));
    kya.insert("encoder", TomlValue::Text("amf".to_string()));
    kya.insert("bitrate", TomlValue::Integer(20));
    let mut root = TomlTable::new();
    root.insert("kyavserver", TomlValue::Table(kya));
    root.insert("other", TomlValue::Kept(3));
    root
}

#[test]
fn spout_pins_sender_and_sets_port() {
    let out = render_config(&tx("stage-left", 8080, Source::Spout { sender: "Spout Sender".into() }), TomlTable::new(), None, "x264")
        .unwrap();
    let kya = section(&out.table, "kyavserver");
    assert_eq!(text(kya.get("spout_sender")), Some("Spout Sender"));
    assert_eq!(text(kya.get("encoder")), Some("x264"));
    let kyc = section(&out.table, "kycontroller");
    assert!(matches!(kyc.get("port"), Some(TomlValue::Integer(8080))));
    assert!(matches!(kyc.get("tray"), Some(TomlValue::Boolean(false))));
    assert!(out.header.contains("# Transmitter: stage-left (port 8080)"));
    assert!(out.header.contains("# Source: Spout: Spout Sender"));
}

#[test]
fn sources_drop_inherited_pins() {
    let screen = render_config(&tx("s", 1, Source::Screen {}), defaults_with_leftovers(), Some(ScreenBackend::Xcb), "x264").unwrap();
    let kya = section(&screen.table, "kyavserver");
    assert!(!kya.contains_key("spout_sender"));
    assert!(!kya.contains_key("camera_device"));
    assert!(!kya.contains_key("all_sources"));
    assert_eq!(text(kya.get("grab_backend")), Some("xcb"));
    assert_eq!(text(kya.get("encoder")), Some("x264"));
    assert!(matches!(kya.get("bitrate"), Some(TomlValue::Integer(20))));
    assert!(matches!(screen.table.get("other"), Some(TomlValue::Kept(3))));

    let all = render_config(&tx("a", 1, Source::All {}), defaults_with_leftovers(), None, "x264").unwrap();
    let kya = section(&all.table, "kyavserver");
    assert!(matches!(kya.get("all_sources"), Some(TomlValue::Boolean(true))));
    assert!(!kya.contains_key("spout_sender"));
    assert!(!kya.contains_key("grab_backend"));

    let cam = render_config(&tx("c", 1, Source::Camera { device: "Integrated Camera".into() }), defaults_with_leftovers(), Some(ScreenBackend::Wlroots), "nvenc")
        .unwrap();
    let kya = section(&cam.table, "kyavserver");
    assert_eq!(text(kya.get("camera_device")), Some("Integrated Camera"));
    assert!(!kya.contains_key("grab_backend"));
    assert!(!kya.contains_key("spout_sender"));
    assert_eq!(text(kya.get("encoder")), Some("nvenc"));
}

#[test]
fn default_auth_is_injected_only_when_absent() {
    let out = render_config(&tx("t", 1, Source::Screen {}), TomlTable::new(), None, "x264").unwrap();
    let kyc = section(&out.table, "kycontroller");
    let auth = section(kyc, "auth");
    let basic = section(auth, "basic");
    let logins = match basic.get("logins") {
        Some(TomlValue::Array(v)) => v,
        _ => panic!("no logins"),
    };
    assert_eq!(logins.len(), 1);
    let login = match &logins[0] {
        TomlValue::Table(t) => t,
        _ => panic!("login is not a table"),
    };
    assert_eq!(text(login.get("username")), Some("vj"));
    assert_eq!(
        text(login.get("password")),
        Some("7e295adb24bee6597db2e12b7f498aec74a72aa245f7e5abec1bfb81b1ece8dd")
    );

    let mut own = TomlTable::new();
    own.insert("auth", TomlValue::Kept(9));
    own.insert("tray", TomlValue::Boolean(true));
    let mut root = TomlTable::new();
    root.insert("kycontroller", TomlValue::Table(own));
    let out = render_config(&tx("t", 1, Source::Screen {}), root, None, "x264").unwrap();
    let kyc = section(&out.table, "kycontroller");
    assert!(matches!(kyc.get("auth"), Some(TomlValue::Kept(9))));
    assert!(matches!(kyc.get("tray"), Some(TomlValue::Boolean(true))));
}

#[test]
fn a_section_that_is_not_a_table_is_refused() {
    let mut root = TomlTable::new();
    root.insert("kycontroller", TomlValue::Integer(1));
    root.insert("kyavserver", TomlValue::Integer(1));
    assert!(matches!(render_config(&tx("t", 1, Source::Screen {}), root, None, "x264"), Err(GenError::NotATable("kycontroller"))));
    let mut root = TomlTable::new();
    root.insert("kyavserver", TomlValue::Text("x".into()));
    assert!(matches!(render_config(&tx("t", 1, Source::Screen {}), root, None, "x264"), Err(GenError::NotATable("kyavserver"))));
}

#[test]
fn sha256_hex_matches_a_known_digest() {
    assert_eq!(sha256_hex("kyberfrog"), "7e295adb24bee6597db2e12b7f498aec74a72aa245f7e5abec1bfb81b1ece8dd");
    assert_eq!(sha256_hex(""), "e3b0c44298fc1c149afbf4c8996fb92427ae41e4649b934ca495991b7852b855");
}

#[test]
fn table_insert_remove_read_back() {
    let mut t = TomlTable::new();
    t.insert("a", TomlValue::Integer(1));
    t.insert("b", TomlValue::Integer(2));
    t.insert("a", TomlValue::Integer(3));
    assert_eq!(t.len(), 2);
    assert!(matches!(t.get("a"), Some(TomlValue::Integer(3))));
    assert!(matches!(t.remove("a"), Some(TomlValue::Integer(3))));
    assert!(t.remove("a").is_none());
    assert_eq!(t.len(), 1);
    assert_eq!(t.key_at(0), "b");
}

fn tx_screen() -> Transmitter {
    tx("stage-right", 8081, Source::Screen {})
}

fn tx_spout() -> Transmitter {
    tx("stage-left", 8080, Source::Spout { sender: "Spout Sender".to_string() })
}

fn tx_all() -> Transmitter {
    tx("everything", 8082, Source::All {})
}

fn tx_camera() -> Transmitter {
    tx("webcam", 8083, Source::Camera { device: "Integrated Camera".to_string() })
}

fn defaults_with(entries: Vec<(&str, TomlValue)>) -> TomlTable {
    let mut kya = TomlTable::new();
    for (k, v) in entries {
        kya.insert(k, v);
    }
    let mut defaults = TomlTable::new();
    defaults.insert("kyavserver", TomlValue::Table(kya));
    defaults
}

#[test]
fn screen_drops_inherited_spout_sender() {
    let defaults = defaults_with(vec![("spout_sender", TomlValue::Text("Leftover".to_string()))]);
    let out = render_config(&tx_screen(), defaults, None, "x264").unwrap();
    let kya = section(&out.table, "kyavserver");
    assert!(kya.get("spout_sender").is_none());
}

#[test]
fn all_sets_all_sources_and_drops_inherited_spout() {
    let defaults = defaults_with(vec![("spout_sender", TomlValue::Text("Leftover".to_string()))]);
    let out = render_config(&tx_all(), defaults, None, "x264").unwrap();
    let kya = section(&out.table, "kyavserver");
    assert!(matches!(kya.get("all_sources"), Some(TomlValue::Boolean(true))));
    assert!(kya.get("spout_sender").is_none());
}

#[test]
fn camera_pins_device_and_drops_inherited_keys() {
    let defaults = defaults_with(vec![
        ("spout_sender", TomlValue::Text("Leftover".to_string())),
        ("all_sources", TomlValue::Boolean(true)),
    ]);
    let out = render_config(&tx_camera(), defaults, None, "x264").unwrap();
    let kya = section(&out.table, "kyavserver");
    assert_eq!(text(kya.get("camera_device")), Some("Integrated Camera"));
    assert!(kya.get("spout_sender").is_none());
    assert!(kya.get("all_sources").is_none());
}

#[test]
fn screen_drops_inherited_camera_device() {
    let defaults = defaults_with(vec![("camera_device", TomlValue::Text("Leftover".to_string()))]);
    let out = render_config(&tx_screen(), defaults, None, "x264").unwrap();
    let kya = section(&out.table, "kyavserver");
    assert!(kya.get("camera_device").is_none());
}

#[test]
fn screen_has_no_all_sources_flag() {
    let defaults = defaults_with(vec![("all_sources", TomlValue::Boolean(true))]);
    let out = render_config(&tx_screen(), defaults, None, "x264").unwrap();
    let kya = section(&out.table, "kyavserver");
    assert!(kya.get("all_sources").is_none());
}

#[test]
fn linux_screen_always_gets_an_explicit_grab_backend() {
    let out = render_config(&tx_screen(), TomlTable::new(), Some(ScreenBackend::Xcb), "x264").unwrap();
    let kya = section(&out.table, "kyavserver");
    assert_eq!(
        text(kya.get("grab_backend")),
        Some("xcb"),
        "un transmetteur écran Linux doit toujours porter son backend"
    );
}

#[test]
fn machine_backend_overrides_an_inherited_one() {
    let defaults = defaults_with(vec![("grab_backend", TomlValue::Text("nvfbc".to_string()))]);
    let out = render_config(&tx_screen(), defaults, Some(ScreenBackend::Wlroots), "x264").unwrap();
    let kya = section(&out.table, "kyavserver");
    assert_eq!(text(kya.get("grab_backend")), Some("wlroots"));
}

#[test]
fn off_linux_drops_an_inherited_grab_backend() {
    let defaults = defaults_with(vec![("grab_backend", TomlValue::Text("drm".to_string()))]);
    let out = render_config(&tx_screen(), defaults, None, "x264").unwrap();
    let kya = section(&out.table, "kyavserver");
    assert!(kya.get("grab_backend").is_none());
}

#[test]
fn camera_clears_the_grab_backend_even_on_linux() {
    let out = render_config(&tx_camera(), TomlTable::new(), Some(ScreenBackend::Xcb), "x264").unwrap();
    let kya = section(&out.table, "kyavserver");
    assert!(kya.get("grab_backend").is_none());
    assert!(kya.get("camera_device").is_some());
}

#[test]
fn machine_encoder_overrides_an_inherited_one() {
    let defaults = defaults_with(vec![("encoder", TomlValue::Text("x264".to_string()))]);
    let out = render_config(&tx_spout(), defaults, None, "amf").unwrap();
    let kya = section(&out.table, "kyavserver");
    assert_eq!(text(kya.get("encoder")), Some("amf"));
}

#[test]
fn encoder_is_always_written() {
    let out = render_config(&tx_screen(), TomlTable::new(), None, "nvenc").unwrap();
    let kya = section(&out.table, "kyavserver");
    assert_eq!(text(kya.get("encoder")), Some("nvenc"));
}
