use kyberfrog::paths::{
    app_data_dir, app_log_file, app_state_dir, config_file, instance_config, instance_dir, instances_dir, kyclient_log_file,
    kycontroller_log_file, log_dir, rooted, setup_file, setups_dir, DataRoots, Platform,
};

fn unix() -> DataRoots {
    DataRoots::from_env(Platform::Unix, None, None, None, Some("/home/vj".to_string()))
}

#[test]
fn xdg_defaults_under_home() {
    let r = unix();
    assert_eq!(app_data_dir(&r), "/home/vj/.config/kyberfrog");
    assert_eq!(config_file(&r), "/home/vj/.config/kyberfrog/kyberfrog.toml");
    assert_eq!(setups_dir(&r), "/home/vj/.config/kyberfrog/setups");
    assert_eq!(setup_file(&r, "regie"), "/home/vj/.config/kyberfrog/setups/regie.toml");
    assert_eq!(app_state_dir(&r), "/home/vj/.local/state/kyberfrog");
    assert_eq!(log_dir(&r), "/home/vj/.local/state/kyberfrog/logs");
    assert_eq!(app_log_file(&r), "/home/vj/.local/state/kyberfrog/logs/kyberfrog.log");
    assert_eq!(kyclient_log_file(&r, "v1"), "/home/vj/.local/state/kyberfrog/logs/kyclient-v1.log");
    assert_eq!(instances_dir(&r), "/home/vj/.local/state/kyberfrog/instances");
    assert_eq!(instance_dir(&r, "tx"), "/home/vj/.local/state/kyberfrog/instances/tx");
    assert_eq!(instance_config(&r, "tx"), "/home/vj/.local/state/kyberfrog/instances/tx/kyber_config.toml");
    assert_eq!(kycontroller_log_file(&r, "tx"), "/home/vj/.local/state/kyberfrog/instances/tx/kycontroller.log");
}

#[test]
fn appdata_wins_and_relative_xdg_is_ignored() {
    let w = DataRoots::from_env(Platform::Windows, Some("C:\\Users\\vj\\AppData\\Roaming".into()), None, None, None);
    assert_eq!(config_file(&w), "C:\\Users\\vj\\AppData\\Roaming\\kyberfrog\\kyberfrog.toml");
    assert_eq!(log_dir(&w), "C:\\Users\\vj\\AppData\\Roaming\\kyberfrog\\logs");
    let r = DataRoots::from_env(Platform::Unix, None, Some("relative/dir".into()), Some("/state".into()), Some("/h".into()));
    assert_eq!(r.config_base, "/h/.config");
    assert_eq!(r.state_base, "/state");
    let none = DataRoots::from_env(Platform::Unix, None, None, None, None);
    assert_eq!(none.config_base, ".");
}

#[test]
fn rooted_names_cannot_be_joined() {
    assert!(rooted(Platform::Unix, "/etc"));
    assert!(!rooted(Platform::Unix, "show"));
    assert!(!rooted(Platform::Unix, "C:show"));
    assert!(rooted(Platform::Windows, "C:show"));
    assert!(rooted(Platform::Windows, "\\\\server"));
    assert!(!rooted(Platform::Windows, "show-a"));
}
