use kyberfrog::discovery::{desired_services, eq_ignore_ascii_case, resolved_instance, sort_by_name_and_host, source_kind, stale_registrations, DiscoveredInstance};
use kyberfrog::text::text_less;
use kyberfrog::model::{Source, Transmitter};
use kyberfrog::strmap::StrMap;

fn tx(name: &str, port: u16, source: Source) -> Transmitter {
    Transmitter { name: name.to_string(), port, source }
}

#[test]
fn desired_services_names_are_collision_safe_across_machines() {
    let txs = vec![
        tx("stage-left", 9000, Source::Spout { sender: "Out A".into() }),
        tx("preview", 9001, Source::Screen {}),
    ];
    let specs = desired_services(&txs, "REGIE", "1.0.0");
    assert_eq!(specs.len(), 2);
    assert_eq!(specs[0].instance, "stage-left@REGIE");
    assert_eq!(specs[0].port, 9000);
    assert_eq!(specs[1].instance, "preview@REGIE");
    // The same transmitter name on another machine yields another instance.
    let other = desired_services(&vec![tx("stage-left", 9000, Source::Spout { sender: "Out A".into() })], "SCENE", "1.0.0");
    assert_ne!(other[0].instance, specs[0].instance);
}

#[test]
fn desired_services_txt_carries_version_name_and_kind() {
    let specs = desired_services(&vec![tx("tout-envoyer", 9000, Source::All {})], "REGIE", "2.3.4");
    let txt: std::collections::HashMap<_, _> = specs[0].txt.iter().map(|(k, v)| (k.as_str(), v.as_str())).collect();
    assert_eq!(txt["tx"], "tout-envoyer");
    assert_eq!(txt["kind"], "all");
    assert_eq!(txt["version"], "2.3.4");
}

#[test]
fn fullname_appends_service_type() {
    let specs = desired_services(&vec![tx("a", 1, Source::Screen {})], "H", "v");
    assert_eq!(specs[0].fullname(), "a@H._kyber._tcp.local.");
}

#[test]
fn kinds() {
    assert_eq!(source_kind(&Source::Camera { device: "c".into() }), "camera");
    assert_eq!(source_kind(&Source::Screen {}), "screen");
}

#[test]
fn stale_registrations_are_gone_or_moved() {
    let specs = desired_services(&vec![tx("a", 9000, Source::Screen {}), tx("b", 9001, Source::Screen {})], "H", "v");
    let mut registered = StrMap::new();
    registered.insert("a@H._kyber._tcp.local.", 9000u16);
    registered.insert("b@H._kyber._tcp.local.", 9005u16);
    registered.insert("c@H._kyber._tcp.local.", 9002u16);
    assert_eq!(
        stale_registrations(&registered, &specs),
        vec!["b@H._kyber._tcp.local.".to_string(), "c@H._kyber._tcp.local.".to_string()]
    );
}

#[test]
fn resolved_announcements_are_shown_bare_and_ipv4_first() {
    let addrs = vec![(false, "fe80::1".to_string()), (true, "10.0.0.2".to_string()), (true, "10.0.0.3".to_string())];
    let i = resolved_instance("stage@REGIE._kyber._tcp.local.", "regie.local.", &addrs, 9000, None, Some("1".into()), None, "REGIE");
    assert_eq!(i.name, "stage@REGIE");
    assert_eq!(i.host, "regie");
    assert_eq!(i.addrs, vec!["10.0.0.2", "10.0.0.3", "fe80::1"]);
    assert!(i.is_self);
    assert_eq!(i.version, Some("1".to_string()));
    let j = resolved_instance("odd", "box", &vec![], 1, Some("tx".into()), None, None, "other");
    assert_eq!(j.name, "tx");
    assert_eq!(j.host, "box");
    assert!(!j.is_self);
    assert!(eq_ignore_ascii_case("ReGie", "regie"));
    assert!(!eq_ignore_ascii_case("regie", "regies"));
}

fn heard(name: &str, host: &str) -> DiscoveredInstance {
    DiscoveredInstance {
        name: name.to_string(),
        host: host.to_string(),
        addrs: vec![],
        port: 9000,
        version: None,
        kind: None,
        is_self: false,
    }
}

#[test]
fn discovered_instances_are_listed_by_name_then_host() {
    let list = vec![heard("stage", "B"), heard("arena", "Z"), heard("stage", "A"), heard("Stage", "C"), heard("ar", "Y")];
    let sorted = sort_by_name_and_host(list);
    let keys: Vec<(String, String)> = sorted.iter().map(|d| (d.name.clone(), d.host.clone())).collect();
    assert_eq!(
        keys,
        vec![
            ("Stage".to_string(), "C".to_string()),
            ("ar".to_string(), "Y".to_string()),
            ("arena".to_string(), "Z".to_string()),
            ("stage".to_string(), "A".to_string()),
            ("stage".to_string(), "B".to_string()),
        ]
    );
    assert!(sort_by_name_and_host(vec![]).is_empty());
}

#[test]
fn text_order_is_the_order_of_str() {
    for (a, b) in [("a", "b"), ("ab", "abc"), ("", "a"), ("Z", "a"), ("é", "z"), ("same", "same")] {
        assert_eq!(text_less(a, b), a < b, "{a:?} < {b:?}");
        assert_eq!(text_less(b, a), b < a, "{b:?} < {a:?}");
    }
}
