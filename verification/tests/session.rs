use kyberfrog::session::{parse_environment, pick};
use kyberfrog::strmap::StrMap;

fn vars(pairs: &[(&str, &str)]) -> StrMap<String> {
    let mut m = StrMap::new();
    for (k, v) in pairs {
        m.insert(k, v.to_string());
    }
    m
}

fn sorted(m: &StrMap<String>) -> Vec<(String, String)> {
    let mut out: Vec<(String, String)> =
        (0..m.entry_count()).map(|i| (m.key_at(i).to_string(), m.value_at(i).clone())).collect();
    out.sort();
    out
}

#[test]
fn own_environment_wins_when_it_knows_the_display() {
    let own = vars(&[("DISPLAY", ":0"), ("XDG_SESSION_TYPE", "x11"), ("HOME", "/home/vj")]);
    let got = pick(|k: &str| own.get(k).cloned(), || -> StrMap<String> { panic!("systemd must not be asked") });
    assert_eq!(sorted(&got), sorted(&vars(&[("DISPLAY", ":0"), ("XDG_SESSION_TYPE", "x11")])));
}

#[test]
fn started_before_the_desktop_falls_back_to_systemd() {
    // The race this module exists for: the service came up with no display.
    let got = pick(
        |_: &str| None,
        || parse_environment("HOME=/home/vj\nDISPLAY=:0\nXAUTHORITY=/home/vj/.Xauthority\nXDG_SESSION_TYPE=x11\n"),
    );
    assert_eq!(
        sorted(&got),
        sorted(&vars(&[
            ("DISPLAY", ":0"),
            ("XAUTHORITY", "/home/vj/.Xauthority"),
            ("XDG_SESSION_TYPE", "x11"),
        ]))
    );
}

#[test]
fn no_session_anywhere_gives_nothing() {
    // Headless box: Auto then resolves to drm.
    assert!(pick(|_: &str| None, StrMap::new).len() == 0);
}

#[test]
fn empty_values_count_as_absent() {
    let got = pick(
        |k: &str| if k == "DISPLAY" { Some(String::new()) } else { None },
        || vars(&[("WAYLAND_DISPLAY", "wayland-0")]),
    );
    assert_eq!(sorted(&got), sorted(&vars(&[("WAYLAND_DISPLAY", "wayland-0")])));
}

#[test]
fn environment_lines_split_at_the_first_equals() {
    let env = parse_environment("A=1\nB=x=y\nnot a pair\nA=2\r\n");
    assert_eq!(sorted(&env), vec![("A".to_string(), "2".to_string()), ("B".to_string(), "x=y".to_string())]);
}
