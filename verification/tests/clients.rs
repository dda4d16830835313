use blemacd::peers::{frame_reply, next_peer_id, write_step, Broker, Reply};
use blemacd::shutting_down_stream::{is_terminated, poll_next, Polled, ShuttingDownStream};
use blemacd::text::{contains_text, format_i32, format_u64, join};
use blemacd::Position;

#[test]
fn peers_come_and_go() {
    let first = next_peer_id(0);
    let second = next_peer_id(first);
    assert_eq!((first, second), (1, 2));

    let mut broker = Broker::new();
    assert!(!broker.has_peer(first));
    assert!(broker.connect(first, "a"));
    assert!(broker.connect(second, "b"));
    assert!(!broker.connect(first, "c"));
    assert_eq!(broker.route(first), Some(&"a"));
    assert_eq!(broker.route(second), Some(&"b"));
    assert_eq!(broker.route(3), None);
    assert_eq!(broker.disconnect(first), 1);
    assert!(!broker.has_peer(first));
    assert_eq!(broker.route(first), None);
    assert_eq!(broker.route(second), Some(&"b"));
}

#[test]
fn replies_are_framed() {
    assert_eq!(frame_reply("done".to_string(), true), "done");
    assert_eq!(frame_reply("done".to_string(), false), "done\n");
    let reply = Reply { message: "hello".to_string(), origin: "peer".to_string() };
    assert_eq!(reply.as_oneliner(), "hello");
    assert_eq!(reply.as_reply(), "[peer]: hello\n");
}

#[test]
fn replies_end_with_the_shutdown() {
    assert_eq!(write_step("a".to_string(), false), ("a\n".to_string(), true));
    assert_eq!(write_step("a".to_string(), true), ("a".to_string(), false));

    let mut text = String::new();
    for (reply, is_shutting_down) in [("a", false), ("b", false), ("c", true), ("d", false)] {
        let (part, goes_on) = write_step(reply.to_string(), is_shutting_down);
        text.push_str(&part);
        if !goes_on {
            break;
        }
    }
    assert_eq!(text, "a\nb\nc");
}

#[test]
fn controlled_stream() {
    let closed: Polled<char> = Polled::Ready(None);
    assert_eq!(poll_next(Polled::Ready(Some(1)), closed), Polled::Ready(Some((1, true))));
    let yields: Polled<char> = Polled::Ready(Some('c'));
    assert_eq!(poll_next(Polled::Ready(Some(1)), yields), Polled::Ready(Some((1, false))));
    let pending: Polled<char> = Polled::Pending;
    assert_eq!(poll_next(Polled::Ready(Some(1)), pending), Polled::Ready(Some((1, false))));

    for item in [Polled::Pending, Polled::Ready(None)] {
        assert_eq!(poll_next::<u8, char>(item, Polled::Ready(None)), Polled::Ready(None));
    }
    for item in [Polled::Pending, Polled::Ready(None)] {
        assert_eq!(poll_next::<u8, char>(item, Polled::Ready(Some('c'))), Polled::Ready(None));
    }
    for item in [Polled::Pending, Polled::Ready(None)] {
        assert_eq!(poll_next::<u8, char>(item, Polled::Pending), Polled::Pending);
    }

    assert!(!is_terminated(false, false));
    assert!(is_terminated(true, false));
    assert!(is_terminated(false, true));

    let controlled = ShuttingDownStream::new(1, "control");
    assert_eq!(controlled.stream, 1);
    assert_eq!(controlled.control_stream, "control");
}

#[test]
fn positions_in_order() {
    let all: Vec<Position> = Position::iter().cloned().collect();
    assert_eq!(
        all,
        vec![
            Position::Init,
            Position::Root,
            Position::Device,
            Position::Service,
            Position::Characteristic,
        ]
    );
    assert_eq!(Position::count(), 5);
}

#[test]
fn numbers_as_text() {
    for n in [0, 9, 10, 907, u64::MAX] {
        assert_eq!(format_u64(n), n.to_string());
    }
    for n in [0, 7, -7, 120, i32::MAX, i32::MIN] {
        assert_eq!(format_i32(n), n.to_string());
    }
}

#[test]
fn texts_are_joined_and_searched() {
    let parts: Vec<String> = vec!["a".to_string(), "".to_string(), "b".to_string()];
    assert_eq!(join(&parts, ", "), "a, , b");
    assert_eq!(join(&parts[..1].to_vec(), ", "), "a");
    assert_eq!(join(&vec![], ", "), "");
    for (whole, part) in [("abcab", "cab"), ("abcab", ""), ("", ""), ("aab", "ab"), ("ä-ö", "ö")] {
        assert!(contains_text(whole, part));
    }
    for (whole, part) in [("abcab", "ac"), ("", "a"), ("ab", "abc"), ("aab", "aba")] {
        assert!(!contains_text(whole, part));
    }
}
