use kyberfrog::web::{add_request, dashboard_from, dashboard_url, is_safe, lines_for, machine_name, openable_log_name, tail_text, AddRequest};

#[test]
fn log_names_must_be_plain() {
    assert!(is_safe("stage-left"));
    assert!(!is_safe("../etc"));
    assert!(!is_safe(""));
    assert_eq!(openable_log_name(" kyberfrog.log "), Some("kyberfrog.log".to_string()));
    assert_eq!(openable_log_name("a/b.log"), None);
    assert_eq!(openable_log_name("C:x"), None);
    assert_eq!(openable_log_name("  "), None);
    assert_eq!(openable_log_name("kyclient-v1.log"), Some("kyclient-v1.log".to_string()));
    assert_eq!(openable_log_name("README"), Some("README".to_string()));
    assert_eq!(openable_log_name(".."), None);
    assert_eq!(openable_log_name("a.b.c"), None);
    assert_eq!(openable_log_name("kyberfrog.log.1"), None);
}

#[test]
fn line_counts_default_and_cap() {
    assert_eq!(lines_for(None), 200);
    assert_eq!(lines_for(Some(5)), 5);
    assert_eq!(lines_for(Some(1_000_000)), 2000);
}

#[test]
fn tail_keeps_the_last_lines() {
    assert_eq!(tail_text("a\nb\nc\n", 2), "b\nc");
    assert_eq!(tail_text("a\r\nb", 5), "a\nb");
    assert_eq!(tail_text("", 3), "");
    assert_eq!(tail_text("a\nb", 0), "");
}

#[test]
fn transmitter_forms() {
    assert!(matches!(add_request("spout", Some("Out".into())), AddRequest::Spout(s) if s == "Out"));
    assert!(matches!(add_request("spout", Some("  ".into())), AddRequest::MissingSender));
    assert!(matches!(add_request("spout", None), AddRequest::MissingSender));
    assert!(matches!(add_request("screen", None), AddRequest::Screen));
    assert!(matches!(add_request("camera", None), AddRequest::UnknownKind));
}

#[test]
fn dashboard_points_at_the_embedded_server_unless_overridden() {
    assert_eq!(dashboard_url(7700, None), "http://localhost:7700/");
    assert_eq!(dashboard_url(7700, Some("   ".to_string())), "http://localhost:7700/");
    assert_eq!(dashboard_url(7700, Some("http://localhost:5173/".to_string())), "http://localhost:5173/");
    // An override is taken as the URL parser writes it.
    assert_eq!(dashboard_url(7700, Some("HTTP://LocalHost:5173".to_string())), "http://localhost:5173/");
    // An override that is no URL falls back to the embedded server.
    assert_eq!(dashboard_url(7700, Some("not a url".to_string())), "http://localhost:7700/");
    assert_eq!(dashboard_url(7700, Some("localhost:5173".to_string())), "localhost:5173");
}

#[test]
fn dashboard_choice_prefers_the_parsed_request() {
    assert_eq!(dashboard_from(7700, Some("http://a/".to_string()), Some("http://b/".to_string())), "http://a/");
    assert_eq!(dashboard_from(7700, None, Some("http://localhost:7700/".to_string())), "http://localhost:7700/");
    assert_eq!(dashboard_from(7701, None, None), "http://localhost:7701/");
}

#[test]
fn machine_name_prefers_computername() {
    assert_eq!(machine_name(Some("REGIE".into()), Some("regie".into())), "REGIE");
    assert_eq!(machine_name(None, Some("regie".into())), "regie");
    assert_eq!(machine_name(None, None), "unknown");
}
