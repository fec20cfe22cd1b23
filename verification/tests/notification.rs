use habits_display::notification::parse_notification;

#[test]
fn reads_task_name() {
    let name = parse_notification(br#"{"event":"TaskDone","task_name":"Read a book"}"#).unwrap();
    assert_eq!(name.as_str(), "Read a book");
}

#[test]
fn reads_first_task_name() {
    let name = parse_notification(br#"{"task_name":"One","task_name":"Two"}"#).unwrap();
    assert_eq!(name.as_str(), "One");
}

#[test]
fn reads_non_ascii_and_empty_names() {
    assert_eq!(parse_notification("{\"task_name\":\"Läsa\"}".as_bytes()).unwrap().as_str(), "Läsa");
    assert_eq!(parse_notification(br#"{"task_name":""}"#).unwrap().as_str(), "");
}

#[test]
fn ignores_messages_without_a_name() {
    assert!(parse_notification(br#"{"event":"UserAuthenticated","user":{"id":1}}"#).is_none());
    assert!(parse_notification(br#"{"task_name":"unterminated"#).is_none());
    assert!(parse_notification(br#"{"task_name": "spaced"}"#).is_none());
    assert!(parse_notification(b"").is_none());
}

#[test]
fn ignores_invalid_utf8() {
    let mut payload = br#"{"task_name":"ok"}"#.to_vec();
    payload.push(0xff);
    assert!(parse_notification(&payload).is_none());
}

#[test]
fn name_must_fit_capacity() {
    let fits = "a".repeat(256);
    let payload = format!("{{\"task_name\":\"{}\"}}", fits);
    assert_eq!(parse_notification(payload.as_bytes()).unwrap().as_str(), fits);
    let too_long = "a".repeat(257);
    let payload = format!("{{\"task_name\":\"{}\"}}", too_long);
    assert!(parse_notification(payload.as_bytes()).is_none());
}

#[test]
fn law_notification_names_task_example() {
    let payload = "\"task_name\":\"Stretch\"}".as_bytes();
    assert_eq!(parse_notification(payload).unwrap().as_str(), "Stretch");
}

#[test]
fn authentication_event_names_no_task() {
    let event = br#"{"event":"UserAuthenticated","user":{"email":"user@example.com","id":1}}"#;
    assert!(parse_notification(event).is_none());
}
