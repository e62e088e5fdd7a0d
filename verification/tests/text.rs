use todero_protocol::base64_text::{base64_text, PIECE_LEN};
use todero_protocol::big_endian::{append_be, read_be};
use todero_protocol::ffi::shown::{client_event_text, consent_text, event_text, turn_text};
use todero_protocol::client_runtime::ClientRuntimeEvent;
use todero_protocol::json::{JsonNumber, JsonValue};
use todero_protocol::session::{Event, TimerId};
use todero_protocol::text::{
    lower_text, same_text, text_after, text_before, text_is_blank, text_without_leading, trim_text,
};
use todero_protocol::timers::TimerQueue;
use todero_protocol::traversal::{ConsentAction, TurnAction};

#[test]
fn base64_has_its_padding() {
    assert_eq!(base64_text(b""), "");
    assert_eq!(base64_text(b"f"), "Zg==");
    assert_eq!(base64_text(b"fo"), "Zm8=");
    assert_eq!(base64_text(b"foo"), "Zm9v");
    assert_eq!(base64_text(b"foobar"), "Zm9vYmFy");
    assert_eq!(base64_text(&[0xfb, 0xff, 0xfe]), "+//+");
}

#[test]
fn base64_pieces_fit_together() {
    let long = vec![0xabu8; PIECE_LEN + 4];
    let text = base64_text(&long);
    assert_eq!(text.len(), (PIECE_LEN + 6) / 3 * 4);
    assert!(text.ends_with("q6urqw=="));
}

#[test]
fn texts_are_taken_apart() {
    assert_eq!(trim_text(" \t a b\u{a0}\n"), "a b");
    assert!(text_is_blank(" \u{3000}\n"));
    assert!(!text_is_blank(" x "));
    assert_eq!(lower_text("AbC1"), "abc1");
    assert_eq!(text_after("a|b|c", "|"), Some("b|c".to_string()));
    assert_eq!(text_after("abc", "|"), None);
    assert_eq!(text_before("a|b|c", "|"), "a");
    assert_eq!(text_before("abc", "|"), "abc");
    assert_eq!(text_without_leading("||a|", '|'), "a|");
    assert!(same_text("a", "a"));
    assert!(!same_text("a", "b"));
}

#[test]
fn big_endian_goes_both_ways() {
    let mut out = vec![9u8];
    append_be(&mut out, 0x0102, 4);
    assert_eq!(out, vec![9, 0, 0, 1, 2]);
    assert_eq!(read_be(&out, 1, 4), 0x0102);
}

#[test]
fn events_are_shown_as_they_are_written() {
    let events = [
        Event::HandshakeStarted,
        Event::QueueAdvertised { next_pending_id: 7 },
        Event::RequestRangeSent { start: 1, end: 2 },
        Event::MessageDelivered { msg_id: 3 },
        Event::MessageReceived { msg_id: 3, payload: vec![1, 22, 255] },
        Event::MessageReceived { msg_id: 3, payload: Vec::new() },
        Event::TimerRenegotiationProposed { proposal_id: 1 },
        Event::TimerRenegotiationCommitted { proposal_id: 1 },
        Event::TimerRenegotiationRejected { proposal_id: 1 },
        Event::TimerRenegotiationRolledBack { proposal_id: 1 },
        Event::ParseError,
        Event::Disconnected,
    ];
    for event in events {
        assert_eq!(event_text(&event), format!("{event:?}"));
        let wrapped = ClientRuntimeEvent::Core(event);
        assert_eq!(client_event_text(&wrapped), format!("{wrapped:?}"));
    }
    let nominated =
        ClientRuntimeEvent::NatPairNominated { local_index: 1, remote_index: 2, path_id: 3 };
    assert_eq!(client_event_text(&nominated), format!("{nominated:?}"));
    let action = TurnAction::RetryAfter { delay_ms: 9 };
    assert_eq!(turn_text(&action), format!("{action:?}"));
    assert_eq!(consent_text(&ConsentAction::PathLost), "PathLost");
}

#[test]
fn json_members_are_found() {
    let value = JsonValue::Object(vec![
        ("a".to_string(), JsonValue::Text("x".to_string())),
        ("n".to_string(), JsonValue::Number(JsonNumber::Positive(4))),
        ("m".to_string(), JsonValue::Number(JsonNumber::Negative(-4))),
        ("l".to_string(), JsonValue::Array(vec![JsonValue::Boolean(true)])),
    ]);
    assert_eq!(value.get_text("a"), Some("x".to_string()));
    assert_eq!(value.get_text("n"), None);
    assert_eq!(value.get_number("n"), Some(4));
    assert_eq!(value.get_number("m"), None);
    assert_eq!(value.get_array("l"), Some(&vec![JsonValue::Boolean(true)]));
    assert!(value.get("z").is_none());
    assert!(JsonValue::Null.get("a").is_none());
}

#[test]
fn timers_come_due_in_order() {
    let mut queue = TimerQueue::new();
    queue.schedule(20, 1, TimerId::ServerMsr);
    queue.schedule(10, 2, TimerId::Disconnect);
    queue.schedule(20, 3, TimerId::ServerMsr);
    queue.schedule_once(20, 3, TimerId::ServerMsr);
    assert_eq!(queue.due(9, 8), vec![]);
    assert_eq!(
        queue.due(20, 8),
        vec![
            (10, 2, TimerId::Disconnect),
            (20, 1, TimerId::ServerMsr),
            (20, 3, TimerId::ServerMsr)
        ]
    );
    assert_eq!(queue.due(20, 1).len(), 1);
    queue.remove(20, 1, TimerId::ServerMsr);
    assert_eq!(queue.due(20, 8).len(), 2);
}
