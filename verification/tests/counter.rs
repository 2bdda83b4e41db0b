use gossip_nodes::counter::{parse_id, CounterNode, InjectedPayload, Payload};
use gossip_nodes::error::NodeError;
use gossip_nodes::message::{Body, Event, Init, Message};
use std::collections::HashMap;

fn names(all: &[&str]) -> Vec<String> {
    all.iter().map(|s| s.to_string()).collect()
}

fn init(me: &str, all: &[&str]) -> Init {
    Init { node_id: me.to_string(), node_ids: names(all) }
}

fn node(me: &str, all: &[&str]) -> CounterNode {
    CounterNode::from_init(init(me, all)).unwrap()
}

fn table(entries: &[(u64, u64)]) -> HashMap<u64, u64> {
    entries.iter().copied().collect()
}

fn request(src: &str, dst: &str, id: u64, payload: Payload) -> Event<Payload, InjectedPayload> {
    Event::Message(Message {
        src: src.to_string(),
        dst: dst.to_string(),
        body: Body { id: Some(id), in_reply_to: None, payload },
    })
}

fn gossip_from(src: &str, dst: &str, entries: &[(u64, u64)]) -> Event<Payload, InjectedPayload> {
    Event::Message(Message {
        src: src.to_string(),
        dst: dst.to_string(),
        body: Body { id: None, in_reply_to: None, payload: Payload::Gossip { vec: table(entries) } },
    })
}

fn read(node: &mut CounterNode) -> u64 {
    let me = node.name().clone();
    let out = node.step(request("c9", &me, 1, Payload::Read)).unwrap();
    assert_eq!(out.len(), 1);
    match out[0].body.payload {
        Payload::ReadOk { value } => value,
        _ => panic!("expected read_ok"),
    }
}

#[test]
fn parse_id_reads_the_index_after_the_first_character() {
    assert_eq!(parse_id("n0"), Some(0));
    assert_eq!(parse_id("n12"), Some(12));
    assert_eq!(parse_id("c3"), Some(3));
    assert_eq!(parse_id("n007"), Some(7));
    assert_eq!(parse_id("n+5"), Some(5));
    assert_eq!(parse_id("12"), Some(2));
    assert_eq!(parse_id("n18446744073709551615"), Some(u64::MAX));
}

#[test]
fn parse_id_refuses_names_without_an_index() {
    assert_eq!(parse_id(""), None);
    assert_eq!(parse_id("n"), None);
    assert_eq!(parse_id("nn1"), None);
    assert_eq!(parse_id("n-1"), None);
    assert_eq!(parse_id("n1x"), None);
    assert_eq!(parse_id("n 1"), None);
    assert_eq!(parse_id("n+"), None);
    assert_eq!(parse_id("\u{e9}1"), None);
    assert_eq!(parse_id("n18446744073709551616"), None);
}

#[test]
fn a_fresh_counter_node_has_counted_nothing() {
    let mut n = node("n1", &["n0", "n1", "n2"]);
    assert_eq!(n.name(), "n1");
    assert_eq!(n.node_id(), 1);
    assert_eq!(n.next_id(), 1);
    assert!(n.counters().is_empty());
    assert_eq!(read(&mut n), 0);
}

#[test]
fn a_counter_node_needs_an_index_for_every_member() {
    let r = CounterNode::from_init(init("n1", &["n1", "two", "n3"]));
    assert_eq!(r.err(), Some(NodeError::MalformedNodeId));
    let r = CounterNode::from_init(init("n1", &["n1", ""]));
    assert_eq!(r.err(), Some(NodeError::MalformedNodeId));
}

#[test]
fn a_counter_node_needs_an_index_of_its_own() {
    let r = CounterNode::from_init(init("me", &["n1", "n2"]));
    assert_eq!(r.err(), Some(NodeError::MalformedNodeId));
}

#[test]
fn a_counter_node_refuses_members_that_share_an_index() {
    let r = CounterNode::from_init(init("n1", &["n1", "n2", "n01"]));
    assert_eq!(r.err(), Some(NodeError::DuplicateNodeId));
    let r = CounterNode::from_init(init("n1", &["n1", "c1"]));
    assert_eq!(r.err(), Some(NodeError::DuplicateNodeId));
    let r = CounterNode::from_init(init("bad", &["n1", "n1"]));
    assert_eq!(r.err(), Some(NodeError::DuplicateNodeId));
}

#[test]
fn add_is_acknowledged_and_gossiped_to_the_others() {
    let mut n = node("n1", &["n0", "n1", "n2"]);
    let out = n.step(request("c1", "n1", 8, Payload::Add { delta: 5 })).unwrap();
    assert_eq!(out.len(), 3);
    assert_eq!(out[0].src, "n1");
    assert_eq!(out[0].dst, "c1");
    assert_eq!(out[0].body.in_reply_to, Some(8));
    assert_eq!(out[0].body.id, Some(1));
    assert_eq!(out[0].body.payload, Payload::AddOk);
    assert_eq!(out[1].dst, "n0");
    assert_eq!(out[2].dst, "n2");
    for gossip in &out[1..] {
        assert_eq!(gossip.src, "n1");
        assert_eq!(gossip.body.id, None);
        assert_eq!(gossip.body.in_reply_to, None);
        assert_eq!(gossip.body.payload, Payload::Gossip { vec: table(&[(1, 5)]) });
    }
    assert_eq!(*n.counters(), table(&[(1, 5)]));
    assert_eq!(n.next_id(), 2);
}

#[test]
fn adds_accumulate_in_the_nodes_own_entry() {
    let mut n = node("n1", &["n0", "n1"]);
    n.step(request("c1", "n1", 1, Payload::Add { delta: 5 })).unwrap();
    n.step(request("c2", "n1", 1, Payload::Add { delta: 0 })).unwrap();
    let out = n.step(request("c3", "n1", 2, Payload::Add { delta: 3 })).unwrap();
    assert_eq!(out.len(), 2);
    assert_eq!(out[1].body.payload, Payload::Gossip { vec: table(&[(1, 8)]) });
    assert_eq!(*n.counters(), table(&[(1, 8)]));
    assert_eq!(read(&mut n), 8);
}

#[test]
fn a_lone_counter_node_gossips_to_nobody() {
    let mut n = node("n0", &["n0"]);
    let out = n.step(request("c1", "n0", 1, Payload::Add { delta: 2 })).unwrap();
    assert_eq!(out.len(), 1);
    assert_eq!(out[0].body.payload, Payload::AddOk);
}

#[test]
fn read_returns_the_sum_over_all_nodes() {
    let mut n = node("n1", &["n0", "n1", "n2"]);
    n.step(request("c1", "n1", 1, Payload::Add { delta: 5 })).unwrap();
    n.step(gossip_from("n0", "n1", &[(0, 4), (1, 2)])).unwrap();
    n.step(gossip_from("n2", "n1", &[(2, 10), (0, 3)])).unwrap();
    assert_eq!(*n.counters(), table(&[(0, 4), (1, 5), (2, 10)]));
    let out = n.step(request("c7", "n1", 33, Payload::Read)).unwrap();
    assert_eq!(out.len(), 1);
    assert_eq!(out[0].src, "n1");
    assert_eq!(out[0].dst, "c7");
    assert_eq!(out[0].body.in_reply_to, Some(33));
    assert_eq!(out[0].body.id, Some(2));
    assert_eq!(out[0].body.payload, Payload::ReadOk { value: 19 });
}

#[test]
fn gossip_is_merged_by_maximum_and_not_answered() {
    let mut n = node("n1", &["n0", "n1"]);
    n.step(request("c1", "n1", 1, Payload::Add { delta: 5 })).unwrap();
    let out = n.step(gossip_from("n0", "n1", &[(0, 4), (1, 9)])).unwrap();
    assert!(out.is_empty());
    assert_eq!(*n.counters(), table(&[(0, 4), (1, 9)]));
    n.step(gossip_from("n0", "n1", &[(0, 1), (1, 1)])).unwrap();
    assert_eq!(*n.counters(), table(&[(0, 4), (1, 9)]));
    assert_eq!(n.next_id(), 2);
}

#[test]
fn the_sum_never_goes_down() {
    let mut n = node("n1", &["n0", "n1", "n2"]);
    let mut last = read(&mut n);
    let events = vec![
        request("c1", "n1", 1, Payload::Add { delta: 5 }),
        gossip_from("n0", "n1", &[(0, 4)]),
        gossip_from("n0", "n1", &[(0, 2), (1, 1)]),
        request("c1", "n1", 2, Payload::Add { delta: 0 }),
        gossip_from("n2", "n1", &[(2, 7), (0, 4), (1, 3)]),
        gossip_from("n2", "n1", &[]),
        request("c1", "n1", 3, Payload::Add { delta: 1 }),
        request("c1", "n1", 3, Payload::AddOk),
        Event::Injected(InjectedPayload::Gossip),
        gossip_from("n0", "n1", &[(0, 100)]),
    ];
    let expected = [5, 9, 9, 9, 16, 16, 17, 17, 17, 113];
    for (event, sum) in events.into_iter().zip(expected) {
        n.step(event).unwrap();
        let now = read(&mut n);
        assert!(now >= last);
        assert_eq!(now, sum);
        last = now;
    }
}

#[test]
fn an_add_that_overflows_is_refused() {
    let mut n = node("n1", &["n0", "n1"]);
    n.step(request("c1", "n1", 1, Payload::Add { delta: u64::MAX })).unwrap();
    let r = n.step(request("c1", "n1", 2, Payload::Add { delta: 1 }));
    assert_eq!(r, Err(NodeError::CounterOverflow));
    assert_eq!(*n.counters(), table(&[(1, u64::MAX)]));
    assert_eq!(n.next_id(), 2);
    assert_eq!(read(&mut n), u64::MAX);
}

#[test]
fn a_read_whose_sum_overflows_is_refused() {
    let mut n = node("n1", &["n0", "n1"]);
    n.step(request("c1", "n1", 1, Payload::Add { delta: u64::MAX })).unwrap();
    n.step(gossip_from("n0", "n1", &[(0, 1)])).unwrap();
    let r = n.step(request("c1", "n1", 2, Payload::Read));
    assert_eq!(r, Err(NodeError::CounterOverflow));
    assert_eq!(n.next_id(), 2);
}

#[test]
fn ticks_acknowledgements_and_end_of_input_change_nothing() {
    let mut n = node("n1", &["n0", "n1"]);
    n.step(request("c1", "n1", 1, Payload::Add { delta: 5 })).unwrap();
    let quiet = vec![
        Event::Injected(InjectedPayload::Gossip),
        Event::EOF,
        request("n0", "n1", 1, Payload::AddOk),
        request("n0", "n1", 1, Payload::ReadOk { value: 77 }),
    ];
    for event in quiet {
        assert_eq!(n.step(event), Ok(vec![]));
    }
    assert_eq!(*n.counters(), table(&[(1, 5)]));
    assert_eq!(n.next_id(), 2);
}
