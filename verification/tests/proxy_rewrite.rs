use protohackers::proxy::{Relay, RelayStep, TONY_ADDRESS};

fn forward(relay: &Relay, line: &str) -> String {
    match relay.relay(line.as_bytes().to_vec()) {
        RelayStep::Forward(text) => text,
        RelayStep::Close => panic!("expected a forwarded line"),
    }
}

#[test]
fn address_at_start_is_replaced() {
    let relay = Relay::new().unwrap();
    assert_eq!(
        forward(&relay, "7F1u3wSD5RbOHQmupo9nx4TnhQ is mine\n"),
        format!("{} is mine\n", TONY_ADDRESS)
    );
    assert_eq!(
        forward(&relay, " 7F1u3wSD5RbOHQmupo9nx4TnhQ is mine\n"),
        format!("{} is mine\n", TONY_ADDRESS)
    );
}

#[test]
fn address_at_end_is_replaced_with_its_newline() {
    let relay = Relay::new().unwrap();
    assert_eq!(
        forward(&relay, "Send it to 7F1u3wSD5RbOHQmupo9nx4TnhQ\n"),
        format!("Send it to {}", TONY_ADDRESS)
    );
    assert_eq!(
        forward(&relay, "Send it to 7F1u3wSD5RbOHQmupo9nx4TnhQ \n"),
        format!("Send it to {}", TONY_ADDRESS)
    );
}

#[test]
fn lines_without_address_pass_unchanged() {
    let relay = Relay::new().unwrap();
    assert_eq!(forward(&relay, "hello there\n"), "hello there\n");
    assert_eq!(forward(&relay, "7short\n"), "7short\n");
    assert_eq!(forward(&relay, "x7F1u3wSD5RbOHQmupo9nx4TnhQ-x\n"), "x7F1u3wSD5RbOHQmupo9nx4TnhQ-x\n");
}

#[test]
fn address_glued_to_a_word_at_line_end_is_replaced() {
    let relay = Relay::new().unwrap();
    assert_eq!(forward(&relay, "x7F1u3wSD5RbOHQmupo9nx4TnhQx\n"), "x7YWHMfk9JZe0LM0g1ZauHuiSxhI");
}

#[test]
fn empty_or_invalid_lines_close() {
    let relay = Relay::new().unwrap();
    assert!(matches!(relay.relay(Vec::new()), RelayStep::Close));
    assert!(matches!(relay.relay(vec![0xff, b'\n']), RelayStep::Close));
}
