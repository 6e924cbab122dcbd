use kyberfrog::client::{client_log, default_kyclient_path, validate, ClientConfig, ClientError, ClientLog, Instance, DEFAULT_WEB_PORT};
use kyberfrog::paths::Platform;

fn instance(id: &str, server: &str, port: u16, fullscreen: bool) -> Instance {
    Instance { id: id.to_string(), server: server.to_string(), port, fullscreen, enabled: true }
}

#[test]
fn fresh_client_config_is_a_passive_display() {
    let c = ClientConfig::defaults(Platform::Windows);
    assert_eq!(c.kyclient_path, "D:\\soft\\kyber\\kyclient.exe");
    assert_eq!(c.web_port, DEFAULT_WEB_PORT);
    assert_eq!(c.web_port, 7701);
    assert_eq!(c.auth_username, "vj");
    assert_eq!(c.auth_password, "kyberfrog");
    assert!(!c.forward_inputs && !c.audio && !c.keyboard_grab);
    assert!(c.tls_tofu);
    assert!(c.instances.is_empty());
    assert_eq!(default_kyclient_path(Platform::Unix), "kyclient");
    assert!(validate(&c).is_ok());
}

#[test]
fn instance_lookup_and_unique_ids() {
    let mut c = ClientConfig::defaults(Platform::Unix);
    assert_eq!(c.unique_id(), "instance-1");
    c.instances.push(instance("instance-1", "10.0.0.2", 9000, true));
    c.instances.push(instance("instance-3", "10.0.0.2", 9001, false));
    assert_eq!(c.unique_id(), "instance-2");
    assert_eq!(c.get("instance-3").map(|i| i.port), Some(9001));
    assert!(c.get("nope").is_none());
    if let Some(i) = c.get_mut("instance-1") {
        i.enabled = false;
    }
    assert!(!c.instances[0].enabled);
    let g = c.globals();
    assert_eq!(g.kyclient_path, "kyclient");
    assert_eq!(g.auth_password, "kyberfrog");
}

#[test]
fn client_args_put_the_server_first() {
    let mut c = ClientConfig::defaults(Platform::Unix);
    c.audio = true;
    let args = c.globals().kyclient_args(&instance("a", "regie.local", 9002, true));
    assert_eq!(
        args,
        vec![
            "regie.local", "--port", "9002", "--tls-tofu", "--auth-username", "vj", "--auth-password",
            "kyberfrog", "--fullscreen", "--inputs", "false", "--audio", "true", "--keyboard-grab", "false",
        ]
    );
    c.tls_tofu = false;
    let args = c.globals().kyclient_args(&instance("b", "h", 1, false));
    assert_eq!(
        args,
        vec!["h", "--port", "1", "--auth-username", "vj", "--auth-password", "kyberfrog", "--inputs", "false",
            "--audio", "true", "--keyboard-grab", "false"]
    );
}

#[test]
fn client_validation_rejects_blank_and_duplicate_ids() {
    let mut c = ClientConfig::defaults(Platform::Unix);
    c.instances.push(instance("a", "h", 1, true));
    c.instances.push(instance("  ", "h", 2, true));
    assert!(matches!(validate(&c), Err(ClientError::EmptyInstanceId)));
    let mut c = ClientConfig::defaults(Platform::Unix);
    c.instances.push(instance("a", "h", 1, true));
    c.instances.push(instance("b", "h", 2, true));
    c.instances.push(instance("a", "h", 3, true));
    match validate(&c) {
        Err(ClientError::DuplicateInstanceId(id)) => assert_eq!(id, "a"),
        other => panic!("unexpected {other:?}"),
    }
    c.instances.pop();
    assert!(validate(&c).is_ok());
}

#[test]
fn instances_are_added_edited_toggled_and_removed() {
    let mut c = ClientConfig::defaults(Platform::Unix);
    c.instances.push(instance("instance-1", "10.0.0.2", 9000, true));
    let id = c.add_instance("10.0.0.3".to_string(), 9100, false);
    assert_eq!(id, "instance-2");
    let added = &c.instances[1];
    assert_eq!((added.id.as_str(), added.server.as_str(), added.port, added.fullscreen, added.enabled), ("instance-2", "10.0.0.3", 9100, false, true));

    assert!(c.update_instance("instance-2", "10.0.0.4".to_string(), 9200, true));
    let edited = c.get("instance-2").unwrap();
    assert_eq!((edited.server.as_str(), edited.port, edited.fullscreen, edited.enabled), ("10.0.0.4", 9200, true, true));
    assert!(!c.update_instance("nope", "x".to_string(), 1, true));

    assert!(c.set_instance_enabled("instance-2", false));
    assert!(!c.get("instance-2").unwrap().enabled);
    assert!(!c.set_instance_enabled("nope", true));

    c.remove_instance("instance-2");
    assert_eq!(c.instances.len(), 1);
    assert_eq!(c.instances[0].id, "instance-1");
    c.remove_instance("nope");
    assert_eq!(c.instances.len(), 1);
    assert_eq!(c.web_port, DEFAULT_WEB_PORT);
}

#[test]
fn removing_a_just_added_instance_restores_the_list() {
    let mut c = ClientConfig::defaults(Platform::Unix);
    c.instances.push(instance("instance-1", "a", 1, true));
    c.instances.push(instance("instance-3", "b", 2, false));
    let id = c.add_instance("c".to_string(), 3, true);
    assert_eq!(id, "instance-2");
    c.remove_instance(&id);
    let ids: Vec<&str> = c.instances.iter().map(|i| i.id.as_str()).collect();
    assert_eq!(ids, ["instance-1", "instance-3"]);
}

#[test]
fn a_log_request_names_the_client_or_an_instance_never_a_path() {
    assert_eq!(client_log("client"), Some(ClientLog::Client));
    assert_eq!(client_log("instance-2"), Some(ClientLog::Instance));
    assert_eq!(client_log("Stage-A"), Some(ClientLog::Instance));
    assert_eq!(client_log(""), Some(ClientLog::Instance));
    assert_eq!(client_log("../secrets"), None);
    assert_eq!(client_log("a/b"), None);
    assert_eq!(client_log("C:x"), None);
}
