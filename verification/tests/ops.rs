use kyberfrog::config::{Emission, Reception, Viewer};
use kyberfrog::model::{Source, Transmitter};
use kyberfrog::ops::{
    allocate_port, import_name, is_valid_viewer_id, normalize_spout, resolve_port, resolve_viewer_id,
    relaunch_after_update, sanitize_tx_name, status_text, unique_name, Relaunch, ViewerView,
};
use kyberfrog::status::{Key, StatusTable};
use kyberfrog::supervisor::State;

fn tx(name: &str, port: u16) -> Transmitter {
    Transmitter { name: name.to_string(), port, source: Source::Screen {} }
}

fn viewer(id: &str) -> Viewer {
    Viewer {
        id: id.to_string(),
        server: "h".to_string(),
        port: 1,
        fullscreen: true,
        spout_out: None,
        remote_control: false,
        enabled: true,
    }
}

#[test]
fn transmitter_names_are_sanitized_and_unique() {
    assert_eq!(sanitize_tx_name("  Output A!! "), "output-a");
    assert_eq!(sanitize_tx_name("***"), "");
    let emission = Emission { transmitters: vec![tx("output-a", 1), tx("output-a-2", 2)], ..Emission::default() };
    assert_eq!(unique_name("Output A", &emission), "output-a-3");
    assert_eq!(unique_name("Other", &emission), "other");
    assert_eq!(unique_name("%%", &emission), "tx");
}

#[test]
fn ports_are_requested_or_allocated() {
    let emission = Emission { base_port: 9000, transmitters: vec![tx("a", 9000), tx("b", 9001)], ..Emission::default() };
    assert_eq!(resolve_port(&emission, Some(9001), &|_| true), None);
    assert_eq!(resolve_port(&emission, Some(9500), &|_| true), Some(9500));
    assert_eq!(resolve_port(&emission, None, &|_| true), Some(9002));
    assert_eq!(resolve_port(&emission, Some(0), &|p| p != 9002), Some(9003));
    assert_eq!(allocate_port(&emission, &|_| false), 9000);
}

#[test]
fn viewer_ids_resolve() {
    let reception = Reception { viewers: vec![viewer("viewer-1"), viewer("cam")], ..Reception::default() };
    assert_eq!(resolve_viewer_id(&reception, Some(" wall ".into()), None), "wall");
    assert_eq!(resolve_viewer_id(&reception, Some("cam".into()), None), "viewer-2");
    assert_eq!(resolve_viewer_id(&reception, Some("cam".into()), Some("cam")), "cam");
    assert_eq!(resolve_viewer_id(&reception, Some("bad id".into()), Some("cam")), "cam");
    assert_eq!(resolve_viewer_id(&reception, None, None), "viewer-2");
    assert!(is_valid_viewer_id("wall-2"));
    assert!(!is_valid_viewer_id("wall_2"));
    assert!(!is_valid_viewer_id(""));
}

#[test]
fn spout_names_are_trimmed_and_empty_means_none() {
    assert_eq!(normalize_spout(Some("  Relay ".into())), Some("Relay".to_string()));
    assert_eq!(normalize_spout(Some("   ".into())), None);
    assert_eq!(normalize_spout(None), None);
}

#[test]
fn viewers_are_added_updated_and_removed() {
    let mut reception = Reception::default();
    reception.add_viewer(None, "10.0.0.2".into(), 9000, true, Some("Relay".into()), true);
    let v = &reception.viewers[0];
    assert_eq!(v.id, "viewer-1");
    assert_eq!(v.spout_out, None);
    assert!(v.enabled);
    assert_eq!(reception.update_viewer("viewer-1", Some("wall".into()), "10.0.0.3".into(), 9001, false, Some(" S ".into()), false), Some(true));
    let v = &reception.viewers[0];
    assert_eq!((v.id.as_str(), v.server.as_str(), v.port), ("wall", "10.0.0.3", 9001));
    assert_eq!(v.spout_out, Some("S".to_string()));
    assert_eq!(reception.update_viewer("nope", None, "x".into(), 1, false, None, false), None);
    assert!(reception.set_viewer_enabled("wall", false));
    assert!(!reception.viewers[0].enabled);
    reception.add_viewer(Some("other".into()), "h".into(), 1, true, None, false);
    reception.remove_viewer("wall");
    assert_eq!(reception.viewers.len(), 1);
    assert_eq!(reception.viewers[0].id, "other");
}

#[test]
fn transmitters_are_removed_by_name() {
    let mut emission = Emission { transmitters: vec![tx("a", 1), tx("b", 2), tx("a", 3)], ..Emission::default() };
    emission.remove_transmitter("a");
    assert_eq!(emission.transmitters.len(), 1);
    assert_eq!(emission.transmitters[0].name, "b");
}

#[test]
fn setup_names_for_import() {
    assert_eq!(import_name(" Show 1 "), Some("Show-1".to_string()));
    assert_eq!(import_name("!!!"), None);
}

#[test]
fn status_text_and_views() {
    let mut table = StatusTable::new();
    table.set(&Key::Vw("v".into()), State::Running);
    assert_eq!(status_text(Some(&table), &Key::Vw("v".into()), "stopped"), "running");
    assert_eq!(status_text(Some(&table), &Key::Tx("v".into()), "unknown"), "stopped");
    assert_eq!(status_text(None, &Key::Tx("v".into()), "unknown"), "unknown");
    let view = ViewerView::of(&viewer("v"), "running");
    assert_eq!((view.id.as_str(), view.status), ("v", "running"));
}

#[test]
fn an_edited_viewer_is_relaunched_as_its_state_asks() {
    assert_eq!(relaunch_after_update(true, true), Relaunch::Replace { start: true });
    assert_eq!(relaunch_after_update(true, false), Relaunch::Replace { start: false });
    assert_eq!(relaunch_after_update(false, true), Relaunch::Restart);
    assert_eq!(relaunch_after_update(false, false), Relaunch::Nothing);
}

#[test]
fn a_transmitter_on_the_last_port_does_not_stop_allocation() {
    let emission = Emission { base_port: 65530, transmitters: vec![tx("top", 65535), tx("a", 65530)], ..Emission::default() };
    assert_eq!(allocate_port(&emission, &|_| true), 65531);
    assert_eq!(allocate_port(&emission, &|p| p == 65534), 65534);
    // Every port left is refused, the last one by a transmitter: the base.
    assert_eq!(allocate_port(&emission, &|_| false), 65530);
    let full = Emission { base_port: 65534, transmitters: vec![tx("x", 65534), tx("y", 65535)], ..Emission::default() };
    assert_eq!(allocate_port(&full, &|_| true), 65534);
    assert_eq!(resolve_port(&full, None, &|_| true), Some(65534));
}
