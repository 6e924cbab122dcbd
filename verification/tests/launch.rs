use kyberfrog::launch::{child_dirs, ipc_dir_verdict, redacted, ProbeOutcome, IPC_DIR};
use kyberfrog::paths::Platform;

#[test]
fn unix_children_find_the_bundle_first() {
    let (path, lib) = child_dirs(Platform::Unix, "/opt/kyberfrog/bin", Some("/opt/kyberfrog"), "x86_64");
    assert_eq!(path, vec!["/opt/kyberfrog/bin"]);
    assert_eq!(
        lib,
        vec![
            "/opt/kyberfrog/bin",
            "/opt/kyberfrog/lib/x86_64-linux-gnu",
            "/opt/kyberfrog/lib/vlc",
            "/opt/kyberfrog/lib64",
            "/opt/kyberfrog/lib",
        ]
    );
}

#[test]
fn a_rootless_install_dir_only_adds_itself() {
    let (path, lib) = child_dirs(Platform::Unix, "bin", None, "aarch64");
    assert_eq!(path, vec!["bin"]);
    assert_eq!(lib, vec!["bin"]);
}

#[test]
fn windows_children_get_nothing_extra() {
    let (path, lib) = child_dirs(Platform::Windows, "C:\\Kyber", Some("C:\\"), "x86_64");
    assert!(path.is_empty() && lib.is_empty());
}

#[test]
fn logged_command_lines_hide_the_password() {
    let args: Vec<String> = ["10.0.0.5", "--auth-username", "vj", "--auth-password", "s3cret", "--audio", "true"]
        .iter()
        .map(|s| s.to_string())
        .collect();
    let line = redacted(&args);
    assert_eq!(line, "10.0.0.5 --auth-username vj --auth-password *** --audio true");
    assert!(!line.contains("s3cret"));
    // A trailing flag with no value is kept as it is.
    let tail: Vec<String> = vec!["--auth-password".to_string()];
    assert_eq!(redacted(&tail), "--auth-password");
    assert_eq!(redacted(&[]), "");
}

#[test]
fn only_a_foreign_ipc_folder_stops_a_transmitter() {
    assert_eq!(ipc_dir_verdict(None), Ok(()));
    assert_eq!(ipc_dir_verdict(Some(ProbeOutcome::Created)), Ok(()));
    assert_eq!(ipc_dir_verdict(Some(ProbeOutcome::Failed)), Ok(()));
    let message = ipc_dir_verdict(Some(ProbeOutcome::PermissionDenied)).unwrap_err();
    assert!(message.starts_with("/tmp/kyber exists but belongs to another user"));
    assert!(message.ends_with("\n    sudo rm -rf /tmp/kyber"));
    assert_eq!(IPC_DIR, "/tmp/kyber");
}
