use gossip_nodes::error::NodeError;
use gossip_nodes::message::{handshake, Body, Event, Init, InitPayload, Message, INIT_OK_ID};

fn envelope(src: &str, dst: &str, id: Option<u64>, payload: &str) -> Message<String> {
    Message {
        src: src.to_string(),
        dst: dst.to_string(),
        body: Body { id, in_reply_to: None, payload: payload.to_string() },
    }
}

#[test]
fn into_reply_swaps_addresses_and_correlates() {
    let mut counter: u64 = 7;
    let reply = envelope("c1", "n1", Some(42), "ping").into_reply(Some(&mut counter));
    assert_eq!(reply.src, "n1");
    assert_eq!(reply.dst, "c1");
    assert_eq!(reply.body.in_reply_to, Some(42));
    assert_eq!(reply.body.id, Some(7));
    assert_eq!(reply.body.payload, "ping");
    assert_eq!(counter, 8);
}

#[test]
fn into_reply_without_counter_carries_no_id() {
    let reply = envelope("c1", "n1", Some(3), "ping").into_reply(None);
    assert_eq!(reply.body.id, None);
    assert_eq!(reply.body.in_reply_to, Some(3));
    assert_eq!(reply.src, "n1");
    assert_eq!(reply.dst, "c1");
}

#[test]
fn into_reply_of_a_request_without_id_answers_nothing_by_number() {
    let mut counter: u64 = 1;
    let reply = envelope("a", "b", None, "x").into_reply(Some(&mut counter));
    assert_eq!(reply.body.in_reply_to, None);
    assert_eq!(reply.body.id, Some(1));
}

#[test]
fn into_reply_hands_out_increasing_ids() {
    let mut counter: u64 = 1;
    let first = envelope("a", "b", Some(10), "x").into_reply(Some(&mut counter));
    let second = envelope("a", "b", Some(11), "y").into_reply(Some(&mut counter));
    let third = envelope("c", "b", Some(10), "z").into_reply(Some(&mut counter));
    assert_eq!(first.body.id, Some(1));
    assert_eq!(second.body.id, Some(2));
    assert_eq!(third.body.id, Some(3));
    assert_eq!(counter, 4);
}

#[test]
fn into_reply_works_just_below_the_last_id() {
    let mut counter: u64 = u64::MAX - 1;
    let reply = envelope("a", "b", Some(1), "x").into_reply(Some(&mut counter));
    assert_eq!(reply.body.id, Some(u64::MAX - 1));
    assert_eq!(counter, u64::MAX);
}

#[test]
fn handshake_acknowledges_init() {
    let first = Message {
        src: "c0".to_string(),
        dst: "n1".to_string(),
        body: Body {
            id: Some(1),
            in_reply_to: None,
            payload: InitPayload::Init(Init {
                node_id: "n1".to_string(),
                node_ids: vec!["n1".to_string(), "n2".to_string()],
            }),
        },
    };
    let (init, ack) = handshake(first).unwrap();
    assert_eq!(init.node_id, "n1");
    assert_eq!(init.node_ids, vec!["n1".to_string(), "n2".to_string()]);
    assert_eq!(ack.src, "n1");
    assert_eq!(ack.dst, "c0");
    assert_eq!(ack.body.in_reply_to, Some(1));
    assert_eq!(ack.body.id, Some(INIT_OK_ID));
    assert_eq!(ack.body.id, Some(0));
    assert_eq!(ack.body.payload, InitPayload::InitOk);
}

#[test]
fn handshake_refuses_anything_but_init() {
    let first = Message {
        src: "c0".to_string(),
        dst: "n1".to_string(),
        body: Body { id: Some(1), in_reply_to: None, payload: InitPayload::InitOk },
    };
    assert_eq!(handshake(first), Err(NodeError::ExpectedInit));
}

#[test]
fn only_the_end_of_input_is_the_last_event() {
    let message: Event<String, u8> = Event::Message(envelope("a", "b", None, "x"));
    let injected: Event<String, u8> = Event::Injected(3);
    let end: Event<String, u8> = Event::EOF;
    assert!(!message.is_last());
    assert!(!injected.is_last());
    assert!(end.is_last());
}

#[test]
fn every_error_describes_itself() {
    assert_eq!(NodeError::ExpectedInit.describe(), "first message should be init");
    assert_eq!(NodeError::MalformedNodeId.describe(), "node id is not a letter and an index");
    assert_eq!(NodeError::DuplicateNodeId.describe(), "two node ids share one index");
    assert_eq!(NodeError::MissingTopologyEntry.describe(), "no topology given for this node");
    assert_eq!(NodeError::UnknownPeer.describe(), "gossip with an unknown node");
    assert_eq!(NodeError::CounterOverflow.describe(), "counter overflow");
}
