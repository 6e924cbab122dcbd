use kyberfrog::config::Viewer;
use kyberfrog::model::{Source, Transmitter};
use kyberfrog::spout::{list_senders, SpoutSenders};
use kyberfrog::status::{Key, StatusTable};
use kyberfrog::supervisor::State;
use kyberfrog::tray::{build_menu, flow_of, open_target, parse_command, Flow, MenuEntry, MenuLeaf, OpenTarget, TrayCommand};

#[test]
fn menu_ids_parse_back_to_their_commands() {
    assert!(matches!(parse_command("quit"), Some(TrayCommand::Quit)));
    assert!(matches!(parse_command("add-screen"), Some(TrayCommand::AddScreen)));
    assert!(matches!(parse_command("add-spout\u{1f}Out A"), Some(TrayCommand::AddSpout { sender }) if sender == "Out A"));
    assert!(matches!(parse_command("tx-restart\u{1f}stage"), Some(TrayCommand::RestartTx { name }) if name == "stage"));
    assert!(matches!(parse_command("tx-remove\u{1f}stage"), Some(TrayCommand::RemoveTx { name }) if name == "stage"));
    assert!(matches!(parse_command("vw-start\u{1f}v"), Some(TrayCommand::StartViewer { id }) if id == "v"));
    assert!(matches!(parse_command("vw-stop\u{1f}v"), Some(TrayCommand::StopViewer { id }) if id == "v"));
    assert!(matches!(parse_command("vw-restart\u{1f}v"), Some(TrayCommand::RestartViewer { id }) if id == "v"));
    assert!(matches!(parse_command("vw-remove\u{1f}v"), Some(TrayCommand::RemoveViewer { id }) if id == "v"));
    assert!(parse_command("noop").is_none());
    assert!(parse_command("open-dashboard").is_none());
    assert_eq!(open_target("open-logs"), Some(OpenTarget::Logs));
    assert_eq!(open_target("quit"), None);
}

#[test]
fn flows() {
    assert_eq!(flow_of(&TrayCommand::Quit), Flow::Quit);
    assert_eq!(flow_of(&TrayCommand::OpenDashboard), Flow::OpenDashboard);
    assert_eq!(flow_of(&TrayCommand::AddScreen), Flow::Continue);
}

fn label(e: &MenuEntry) -> String {
    match e {
        MenuEntry::Leaf(MenuLeaf::Item { label, .. }) => label.clone(),
        MenuEntry::Leaf(MenuLeaf::Separator) => "---".to_string(),
        MenuEntry::Submenu { label, .. } => label.clone(),
    }
}

#[test]
fn menu_lists_both_roles() {
    let txs = vec![Transmitter { name: "stage".into(), port: 9000, source: Source::Spout { sender: "Out".into() } }];
    let viewers = vec![Viewer {
        id: "wall".into(),
        server: "10.0.0.2".into(),
        port: 9000,
        fullscreen: true,
        spout_out: None,
        remote_control: false,
        enabled: true,
    }];
    let mut status = StatusTable::new();
    status.set(&Key::Tx("stage".into()), State::Running);
    let senders = SpoutSenders { names: vec!["Out".into(), "Other".into()], active: Some("Out".into()) };
    let menu = build_menu(&txs, &viewers, &status, &senders);
    let labels: Vec<String> = menu.iter().map(label).collect();
    assert_eq!(labels[0], "KyberFrog 🐸");
    assert_eq!(labels[3], "● stage  :9000  ·  Spout: Out");
    assert_eq!(labels[4], "Ajouter un transmetteur");
    assert_eq!(labels[7], "✗ wall  ·  10.0.0.2:9000");
    assert_eq!(labels.last().map(String::as_str), Some("Quitter"));
    match &menu[4] {
        MenuEntry::Submenu { items, .. } => {
            assert!(matches!(&items[0], MenuLeaf::Item { id, label, .. } if id == "add-spout\u{1f}Out" && label == "Spout: Out  (actif)"));
            assert!(matches!(&items[1], MenuLeaf::Item { label, .. } if label == "Spout: Other"));
        }
        _ => panic!("expected the add submenu"),
    }
    let empty = build_menu(&Vec::new(), &Vec::new(), &StatusTable::new(), &SpoutSenders::default());
    let labels: Vec<String> = empty.iter().map(label).collect();
    assert_eq!(labels[3], "(aucun transmetteur)");
    assert_eq!(labels[7], "(aucune réception)");
}

#[test]
fn spout_registry_blocks() {
    let mut block = vec![0u8; 256 * 3];
    block[..3].copy_from_slice(b"One");
    block[512..517].copy_from_slice(b"Three");
    let active = b"Three\0junk".to_vec();
    let s = list_senders(Some(&block), Some(&active));
    assert_eq!(s.names, vec!["One".to_string(), "Three".to_string()]);
    assert_eq!(s.active, Some("Three".to_string()));
    let none = list_senders(None, Some(&[0u8; 4]));
    assert!(none.names.is_empty());
    assert_eq!(none.active, None);
}
