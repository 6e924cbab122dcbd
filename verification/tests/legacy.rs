use kyberfrog::legacy::{is_legacy, split_legacy};
use kyberfrog::table::{TomlTable, TomlValue};

fn table(entries: Vec<(&str, TomlValue)>) -> TomlTable {
    let mut t = TomlTable::new();
    for (k, v) in entries {
        t.insert(k, v);
    }
    t
}

fn text(s: &str) -> TomlValue {
    TomlValue::Text(s.to_string())
}

fn sub<'a>(t: &'a TomlTable, key: &str) -> &'a TomlTable {
    match t.get(key) {
        Some(TomlValue::Table(s)) => s,
        _ => panic!("no table {key}"),
    }
}

fn as_text(v: Option<&TomlValue>) -> Option<&str> {
    match v {
        Some(TomlValue::Text(s)) => Some(s.as_str()),
        _ => None,
    }
}

/// The legacy single-file document: machine keys plus inline
/// `[emission]` / `[reception]`, `kyclient_path` under `[reception]`.
fn legacy_document() -> TomlTable {
    let transmitter = table(vec![
        ("name", text("arena")),
        ("port", TomlValue::Integer(9000)),
        ("source", TomlValue::Table(table(vec![("type", text("screen"))]))),
    ]);
    let emission = table(vec![
        ("base_port", TomlValue::Integer(9000)),
        ("transmitter", TomlValue::Array(vec![TomlValue::Table(transmitter)])),
    ]);
    let viewer = table(vec![
        ("id", text("v1")),
        ("server", text("10.0.0.2")),
        ("port", TomlValue::Integer(9000)),
    ]);
    let reception = table(vec![
        ("kyclient_path", text("kyclient.exe")),
        ("tls_tofu", TomlValue::Boolean(true)),
        ("viewer", TomlValue::Array(vec![TomlValue::Table(viewer)])),
    ]);
    table(vec![
        ("kyber_install_dir", text("D:\\soft\\kyber")),
        ("web_port", TomlValue::Integer(7700)),
        ("emission", TomlValue::Table(emission)),
        ("reception", TomlValue::Table(reception)),
    ])
}

#[test]
fn legacy_table_splits_into_user_and_setup() {
    let raw = legacy_document();
    assert!(is_legacy(&raw));
    let (user, setup) = split_legacy(raw);

    let emission = sub(&setup, "emission");
    match emission.get("transmitter") {
        Some(TomlValue::Array(items)) => assert_eq!(items.len(), 1),
        _ => panic!("no transmitters"),
    }
    let reception = sub(&setup, "reception");
    assert!(!reception.contains_key("kyclient_path"));
    match reception.get("viewer") {
        Some(TomlValue::Array(items)) => match &items[0] {
            TomlValue::Table(v) => assert_eq!(as_text(v.get("server")), Some("10.0.0.2")),
            _ => panic!("viewer is not a table"),
        },
        _ => panic!("no viewers"),
    }

    assert_eq!(as_text(user.get("kyclient_path")), Some("kyclient.exe"));
    assert_eq!(as_text(user.get("active_setup")), Some("setup-default"));
    assert!(!user.contains_key("emission") && !user.contains_key("reception"));
    assert!(matches!(user.get("web_port"), Some(TomlValue::Integer(7700))));
}

#[test]
fn a_machine_kyclient_path_wins_over_the_lifted_one() {
    let mut raw = legacy_document();
    raw.insert("kyclient_path", text("/usr/bin/kyclient"));
    let (user, _) = split_legacy(raw);
    assert_eq!(as_text(user.get("kyclient_path")), Some("/usr/bin/kyclient"));
}

#[test]
fn split_documents_are_not_legacy() {
    let user = table(vec![("web_port", TomlValue::Integer(7700)), ("active_setup", text("setup-default"))]);
    assert!(!is_legacy(&user));
    let only_reception = table(vec![("reception", TomlValue::Table(TomlTable::new()))]);
    assert!(is_legacy(&only_reception));
    let (user, setup) = split_legacy(only_reception);
    assert!(!user.contains_key("kyclient_path"));
    assert!(setup.contains_key("reception") && !setup.contains_key("emission"));
}
