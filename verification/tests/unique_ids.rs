use gossip_nodes::message::{Body, Init, Message};
use gossip_nodes::unique_ids::{mint, Payload, UniqueNode};
use std::collections::HashSet;

fn node(me: &str) -> UniqueNode {
    UniqueNode::from_init(Init { node_id: me.to_string(), node_ids: vec![me.to_string()] })
}

fn generate(src: &str, dst: &str, id: u64) -> Message<Payload> {
    Message {
        src: src.to_string(),
        dst: dst.to_string(),
        body: Body { id: Some(id), in_reply_to: None, payload: Payload::Generate },
    }
}

fn guid_of(reply: &Message<Payload>) -> String {
    match &reply.body.payload {
        Payload::GenerateOk { guid } => guid.to_string(),
        other => panic!("expected generate_ok, got {:?}", other),
    }
}

#[test]
fn mint_joins_name_and_counter() {
    assert_eq!(mint(&"n1".to_string(), 2), "n1-2");
    assert_eq!(mint(&"n1".to_string(), 0), "n1-0");
    assert_eq!(mint(&"n12".to_string(), 345), "n12-345");
    assert_eq!(mint(&"".to_string(), 5), "-5");
    assert_eq!(mint(&"a-b".to_string(), u64::MAX), "a-b-18446744073709551615");
}

#[test]
fn a_fresh_unique_node_starts_at_one() {
    let n = node("n7");
    assert_eq!(n.node_id(), "n7");
    assert_eq!(n.next_id(), 1);
}

#[test]
fn generate_is_answered_with_name_and_counter() {
    let mut n = node("n1");
    let out = n.step(generate("c1", "n1", 10));
    assert_eq!(out.len(), 1);
    assert_eq!(out[0].src, "n1");
    assert_eq!(out[0].dst, "c1");
    assert_eq!(out[0].body.in_reply_to, Some(10));
    assert_eq!(out[0].body.id, Some(1));
    assert_eq!(out[0].body.payload, Payload::GenerateOk { guid: "n1-2".to_string() });
    assert_eq!(n.next_id(), 2);

    let out = n.step(generate("c2", "n1", 10));
    assert_eq!(out[0].dst, "c2");
    assert_eq!(out[0].body.id, Some(2));
    assert_eq!(guid_of(&out[0]), "n1-3");
    assert_eq!(n.next_id(), 3);
}

#[test]
fn generate_ok_is_ignored_but_uses_up_an_id() {
    let mut n = node("n1");
    let ack = Message {
        src: "n2".to_string(),
        dst: "n1".to_string(),
        body: Body {
            id: Some(4),
            in_reply_to: Some(1),
            payload: Payload::GenerateOk { guid: "n2-2".to_string() },
        },
    };
    assert!(n.step(ack).is_empty());
    assert_eq!(n.next_id(), 2);
    let out = n.step(generate("c1", "n1", 1));
    assert_eq!(out[0].body.id, Some(2));
    assert_eq!(guid_of(&out[0]), "n1-3");
}

#[test]
fn ids_are_distinct_within_and_across_nodes() {
    let mut seen = HashSet::new();
    let names = ["n1", "n2", "n11", "n", "n1-1", "n-1"];
    let mut nodes: Vec<UniqueNode> = names.iter().map(|me| node(me)).collect();
    for round in 0..300u64 {
        for (i, n) in nodes.iter_mut().enumerate() {
            let out = n.step(generate("c1", names[i], round));
            assert!(seen.insert(guid_of(&out[0])));
        }
    }
    assert_eq!(seen.len(), 1800);
}

#[test]
fn ids_of_names_that_hold_hyphens_and_digits_do_not_collide() {
    assert_ne!(mint(&"a".to_string(), 12), mint(&"a-1".to_string(), 2));
    assert_ne!(mint(&"n1".to_string(), 23), mint(&"n12".to_string(), 3));
    assert_ne!(mint(&"n".to_string(), 11), mint(&"n1".to_string(), 1));
    assert_eq!(mint(&"a".to_string(), 12), "a-12");
    assert_eq!(mint(&"a-1".to_string(), 2), "a-1-2");
}
