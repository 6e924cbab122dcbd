use kyberfrog::config::{
    is_safe_setup_name, kycontroller_path, sanitize_setup_name, setup_names, validate, Config, ConfigError, Emission, Reception,
    Setup, UserConf, Viewer,
};
use kyberfrog::model::{Source, Transmitter};
use kyberfrog::paths::Platform;

fn viewer(id: &str, server: &str, port: u16) -> Viewer {
    Viewer {
        id: id.to_string(),
        server: server.to_string(),
        port,
        fullscreen: true,
        spout_out: None,
        remote_control: false,
        enabled: true,
    }
}

fn tx(name: &str, port: u16) -> Transmitter {
    Transmitter { name: name.to_string(), port, source: Source::Screen {} }
}

#[test]
fn sanitize_setup_name_is_filesystem_safe() {
    assert_eq!(sanitize_setup_name("  Régie Façade!! "), "R-gie-Fa-ade");
    assert_eq!(sanitize_setup_name("mur_led-2"), "mur_led-2");
    assert!(is_safe_setup_name("setup-default"));
    assert!(!is_safe_setup_name("../evil"));
    assert!(!is_safe_setup_name(""));
}

#[test]
fn unique_viewer_id_avoids_collisions() {
    let reception = Reception { viewers: vec![viewer("viewer-1", "x", 1)], ..Reception::default() };
    assert_eq!(reception.unique_id(), "viewer-2");
}

#[test]
fn unique_viewer_id_takes_the_first_gap() {
    let reception = Reception {
        viewers: vec![viewer("viewer-1", "x", 1), viewer("viewer-3", "x", 1), viewer("viewer-2", "x", 1)],
        ..Reception::default()
    };
    assert_eq!(reception.unique_id(), "viewer-4");
    assert_eq!(Reception::default().unique_id(), "viewer-1");
}

#[test]
fn sanitized_names_are_cut_at_64() {
    let long = "a".repeat(100);
    assert_eq!(sanitize_setup_name(&long), "a".repeat(64));
    assert!(!is_safe_setup_name(&"a".repeat(65)));
    assert!(is_safe_setup_name(&"a".repeat(64)));
    assert_eq!(sanitize_setup_name("---"), "");
}

fn arg_value<'a>(args: &'a [String], flag: &str) -> Option<&'a str> {
    args.iter().position(|a| a == flag).map(|i| args[i + 1].as_str())
}

#[test]
fn kyclient_args_put_server_last_and_carry_flags() {
    let globals = Reception { tls_tofu: true, forward_inputs: false, audio: false, keyboard_grab: false, ..Reception::default() }
        .globals("kyclient".to_string());
    let v = viewer("v1", "10.0.0.5", 8081);
    let args = globals.kyclient_args(&v);
    assert_eq!(args.last().map(String::as_str), Some("10.0.0.5"));
    assert!(args.contains(&"--fullscreen".to_string()));
    assert!(args.contains(&"--tls-tofu".to_string()));
    let port_idx = args.iter().position(|a| a == "--port").unwrap();
    assert_eq!(args[port_idx + 1], "8081");
}

#[test]
fn spout_out_replaces_fullscreen_in_args() {
    let globals = Reception::default().globals("kyclient".to_string());
    let v = Viewer { spout_out: Some("KyberFrog".into()), ..viewer("relay", "10.0.0.9", 8082) };
    let args = globals.kyclient_args(&v);
    let so = args.iter().position(|a| a == "--spout-out").unwrap();
    assert_eq!(args[so + 1], "KyberFrog");
    assert!(!args.contains(&"--fullscreen".to_string()));
    assert_eq!(args.last().map(String::as_str), Some("10.0.0.9"));
}

#[test]
fn remote_control_forces_inputs_and_windowed() {
    let globals = Reception::default().globals("kyclient".to_string());
    let v = Viewer { remote_control: true, ..viewer("takeover", "10.0.0.7", 8083) };
    let args = globals.kyclient_args(&v);
    assert_eq!(arg_value(&args, "--inputs"), Some("true"));
    assert_eq!(arg_value(&args, "--keyboard-grab"), Some("true"));
    assert!(!args.contains(&"--fullscreen".to_string()));
    assert_eq!(args.last().map(String::as_str), Some("10.0.0.7"));
}

#[test]
fn spout_out_wins_over_remote_control() {
    let globals = Reception::default().globals("kyclient".to_string());
    let v = Viewer {
        fullscreen: false,
        spout_out: Some("Relay".into()),
        remote_control: true,
        ..viewer("both", "10.0.0.8", 8084)
    };
    let args = globals.kyclient_args(&v);
    assert!(args.contains(&"--spout-out".to_string()));
    assert_eq!(arg_value(&args, "--inputs"), Some("false"));
    assert_eq!(arg_value(&args, "--keyboard-grab"), Some("false"));
}

#[test]
fn kyclient_args_full_vector() {
    let globals = Reception::default().globals("kyclient".to_string());
    let args = globals.kyclient_args(&viewer("v", "h", 9000));
    assert_eq!(
        args,
        vec![
            "--port", "9000", "--tls-tofu", "--auth-username", "vj", "--auth-password", "kyberfrog", "--fullscreen",
            "--inputs", "false", "--audio", "false", "--keyboard-grab", "false", "h",
        ]
    );
}

#[test]
fn emission_port_allocation_skips_used_ports() {
    let emission = Emission { transmitters: vec![tx("a", 8080), tx("b", 8081)], ..Emission::default() };
    assert_eq!(emission.next_free_port(8080), 8082);
    assert!(emission.port_in_use(8081, None));
    assert!(!emission.port_in_use(8081, Some("b")));
    assert_eq!(emission.get("b").map(|t| t.port), Some(8081));
    assert!(emission.get("c").is_none());
}

#[test]
fn defaults_and_split_merge() {
    let cfg = Config::defaults(Platform::Unix, "/opt/kyber".to_string());
    assert_eq!(cfg.web_port, 7700);
    assert_eq!(cfg.active_setup, "setup-default");
    assert_eq!(cfg.kyclient_path, "kyclient");
    assert_eq!(cfg.emission.base_port, 9000);
    assert_eq!(cfg.ui.theme, "dark");
    let (user, setup) = cfg.split();
    let back = Config::merge(user, setup);
    assert_eq!(back.web_port, 7700);
    assert_eq!(back.active_setup, "setup-default");
    assert_eq!(back.kyber_install_dir, "/opt/kyber");
    let u = UserConf::defaults(Platform::Windows, "C:\\k".to_string());
    assert_eq!(u.kyclient_path, "kyclient.exe");
    assert!(Setup::default().reception.tls_tofu);
}

#[test]
fn kycontroller_path_per_platform() {
    assert_eq!(kycontroller_path(Platform::Unix, "/usr/lib/kyberfrog/bin"), "/usr/lib/kyberfrog/bin/kycontroller");
    assert_eq!(kycontroller_path(Platform::Windows, "C:\\Program Files\\KyberFrog"), "C:\\Program Files\\KyberFrog\\kycontroller.exe");
    assert_eq!(kycontroller_path(Platform::Unix, ""), "kycontroller");
}

#[test]
fn validation_reports_the_first_fault() {
    let mut cfg = Config::defaults(Platform::Unix, "/opt".to_string());
    assert!(validate(&cfg).is_ok());
    cfg.emission.transmitters = vec![tx("a", 9000), tx("b", 9000)];
    match validate(&cfg) {
        Err(ConfigError::PortClash(first, second, port)) => {
            assert_eq!((first.as_str(), second.as_str(), port), ("a", "b", 9000));
        }
        other => panic!("unexpected {other:?}"),
    }
    cfg.emission.transmitters = vec![tx("a", 9000), tx("a", 9001)];
    assert!(matches!(validate(&cfg), Err(ConfigError::DuplicateTransmitterName(n)) if n == "a"));
    cfg.emission.transmitters = vec![tx("a/b", 9000)];
    assert!(matches!(validate(&cfg), Err(ConfigError::InvalidTransmitterName(_))));
    cfg.emission.transmitters = vec![tx("a", 9000)];
    cfg.reception.viewers = vec![viewer("  ", "h", 1)];
    assert!(matches!(validate(&cfg), Err(ConfigError::EmptyViewerId(s)) if s == "setup-default"));
    cfg.reception.viewers = vec![viewer("v", "h", 1), viewer("v", "h", 2)];
    assert!(matches!(validate(&cfg), Err(ConfigError::DuplicateViewerId(s)) if s == "v"));
}

#[test]
fn viewers_are_found_and_edited_by_id() {
    let mut reception = Reception { viewers: vec![viewer("a", "h", 1), viewer("b", "h", 2)], ..Reception::default() };
    assert_eq!(reception.get("b").map(|v| v.port), Some(2));
    if let Some(v) = reception.get_mut("a") {
        v.port = 7;
    }
    assert_eq!(reception.viewers[0].port, 7);
    assert!(reception.get_mut("zz").is_none());
}

#[test]
fn config_split_merge_is_identity() {
    let cfg = Config::defaults(Platform::Unix, "/opt/kyber".to_string());
    let reference = Config::defaults(Platform::Unix, "/opt/kyber".to_string());
    let (user, setup) = cfg.split();
    let back = Config::merge(user, setup);
    assert_eq!(back.web_port, reference.web_port);
    assert_eq!(back.active_setup, reference.active_setup);
    assert_eq!(back.kyclient_path, reference.kyclient_path);
}

#[test]
fn the_setups_directory_lists_toml_stems_sorted() {
    let files: Vec<String> = ["show-b.toml", "notes.txt", "Show-a.toml", ".toml", "archive.toml.bak", "a.b.toml", "show-a.toml", "toml"]
        .iter()
        .map(|s| s.to_string())
        .collect();
    assert_eq!(setup_names(&files), ["Show-a", "a.b", "show-a", "show-b"]);
    assert!(setup_names(&Vec::new()).is_empty());
}
