use zync::ntfy::{
    latest_message_index, message_events, parse_version_message, poll_status, poll_url,
    publish_url, NtfyMessage, PollStatus,
};

fn msg(id: &str, event: &str, message: &str) -> NtfyMessage {
    NtfyMessage { id: id.to_string(), event: event.to_string(), message: message.to_string() }
}

#[test]
fn parse_version_message_valid() {
    assert_eq!(parse_version_message("7"), Some(7));
    assert_eq!(parse_version_message("  7\n"), Some(7));
}

#[test]
fn parse_version_message_invalid() {
    assert_eq!(parse_version_message("ABC123"), None);
    assert_eq!(parse_version_message(""), None);
    assert_eq!(parse_version_message("4294967296"), None);
    assert_eq!(parse_version_message("4294967295"), Some(u32::MAX));
}

#[test]
fn only_message_events_are_kept() {
    let msgs = vec![msg("x", "open", ""), msg("y", "message", "ABC"), msg("z", "keepalive", "")];
    let kept = message_events(msgs);
    assert_eq!(kept.len(), 1);
    assert_eq!(kept[0].id, "y");
    assert_eq!(kept[0].message, "ABC");
    assert_eq!(message_events(vec![]).len(), 0);
}

#[test]
fn latest_index_is_last_of_greatest() {
    assert_eq!(latest_message_index(&vec![]), None);
    assert_eq!(latest_message_index(&vec![3, 9, 1]), Some(1));
    assert_eq!(latest_message_index(&vec![9, 3, 9]), Some(2));
}

#[test]
fn ntfy_urls() {
    assert_eq!(publish_url("abc"), "https://ntfy.sh/abc");
    assert_eq!(poll_url("abc", Some("id1")), "https://ntfy.sh/abc/json?poll=1&since=id1");
    assert_eq!(poll_url("abc", None), "https://ntfy.sh/abc/json?poll=1&since=all");
}

#[test]
fn poll_status_kinds() {
    assert!(matches!(poll_status(404), PollStatus::NoMessages));
    assert!(matches!(poll_status(200), PollStatus::ReadBody));
    assert!(matches!(poll_status(500), PollStatus::Failed));
}

#[test]
fn http_status_error_text() {
    assert_eq!(
        zync::ntfy::http_status_error("500 Internal Server Error"),
        "ntfy returned HTTP 500 Internal Server Error"
    );
}
