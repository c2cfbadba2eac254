use videoeditor::chrome::{
    close_tab_url, devtools_port, grab_expression, new_tab_url, poll_step, screenshot_bytes, urlencode, PollStep,
};

#[test]
fn urls_are_percent_encoded() {
    assert_eq!(urlencode("a b&c=d/é~"), "a%20b%26c%3Dd%2F%C3%A9~");
    assert_eq!(urlencode("Az09-_.~"), "Az09-_.~");
    assert_eq!(urlencode(""), "");
}

#[test]
fn encoded_urls_hold_only_url_safe_characters() {
    let e = urlencode("https://example.com/a?b=c d#é");
    assert!(e
        .chars()
        .all(|c| c.is_ascii_alphanumeric() || "-_.~%".contains(c)));
}

#[test]
fn the_port_file_names_the_port_on_its_first_line() {
    assert_eq!(devtools_port("9222\n/devtools/browser/abc\n"), Some(9222));
    assert_eq!(devtools_port(" 40123 \n"), Some(40123));
    assert_eq!(devtools_port("70000\n"), None);
    assert_eq!(devtools_port("port\n"), None);
    assert_eq!(devtools_port(""), None);
}

#[test]
fn tabs_are_opened_and_closed_through_the_json_endpoint() {
    assert_eq!(
        new_tab_url(9222, "https://x.com/a b"),
        "http://127.0.0.1:9222/json/new?https%3A%2F%2Fx.com%2Fa%20b"
    );
    assert_eq!(close_tab_url(9222, "ABC123"), "http://127.0.0.1:9222/json/close/ABC123");
}

#[test]
fn grab_reads_the_body_or_the_selected_elements() {
    assert_eq!(grab_expression(None), "document.body.innerText");
    assert_eq!(
        grab_expression(Some("div.post \"x\"")),
        "Array.from(document.querySelectorAll(\"div.post \\\"x\\\"\")).map(e => e.innerText).join('\\n---\\n')"
    );
}

fn percent_decode(t: &str) -> Vec<u8> {
    let b = t.as_bytes();
    let mut out = Vec::new();
    let mut i = 0;
    while i < b.len() {
        if b[i] == b'%' && i + 2 < b.len() {
            let hex = std::str::from_utf8(&b[i + 1..i + 3]).unwrap();
            out.push(u8::from_str_radix(hex, 16).unwrap());
            i += 3;
        } else {
            out.push(b[i]);
            i += 1;
        }
    }
    out
}

#[test]
fn encoded_urls_decode_back_to_the_url() {
    for url in ["https://x.com/a b?q=é&r=1", "", "%", "~plain~"] {
        assert_eq!(percent_decode(&urlencode(url)), url.as_bytes());
    }
}

#[test]
fn waits_end_when_ready_or_past_the_deadline() {
    assert_eq!(poll_step(true, false), PollStep::Done);
    assert_eq!(poll_step(true, true), PollStep::Done);
    assert_eq!(poll_step(false, true), PollStep::GiveUp);
    assert_eq!(poll_step(false, false), PollStep::Wait);
}

#[test]
fn screenshot_replies_decode_to_png_bytes() {
    assert_eq!(
        screenshot_bytes("iVBORw0KGgo=").unwrap(),
        vec![137, 80, 78, 71, 13, 10, 26, 10]
    );
    assert_eq!(screenshot_bytes("").unwrap(), Vec::<u8>::new());
    assert!(screenshot_bytes("iVBORw0KGgo").is_err());
    assert!(screenshot_bytes("not a png").is_err());
}
