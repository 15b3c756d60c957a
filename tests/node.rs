use gossip_node::{Message, Node, Payload, ProtocolError, Role};
use gossip_node::decimal::push_decimal;
use gossip_node::seen::SeenSet;
use gossip_node::topology::Topology;

fn msg(src: &str, dest: &str, id: u64, payload: Payload) -> Message {
    Message::new(src.to_string(), dest.to_string(), Some(id), None, payload)
}

fn init(node: &mut Node, id: &str, peers: &[&str]) -> Vec<Message> {
    let node_ids = peers.iter().map(|p| p.to_string()).collect();
    node.handle(msg("c0", id, 100, Payload::Init { node_id: id.to_string(), node_ids }))
        .unwrap()
}

fn strs(v: &[&str]) -> Vec<String> {
    v.iter().map(|s| s.to_string()).collect()
}

#[test]
fn handshake_then_echo() {
    let mut node = Node::new(Role::Echo);
    let out = init(&mut node, "n1", &["n1"]);
    assert_eq!(out.len(), 1);
    assert!(matches!(out[0].body.payload, Payload::InitOk));
    assert_eq!(out[0].src, "n1");
    assert_eq!(out[0].dest, "c0");
    assert_eq!(out[0].body.in_reply_to, Some(100));
    assert!(node.is_ready());
    assert_eq!(node.node_id(), "n1");

    let out = node.handle(msg("c1", "n1", 7, Payload::Echo { echo: "hi".to_string() })).unwrap();
    assert_eq!(out.len(), 1);
    match &out[0].body.payload {
        Payload::EchoOk { echo } => assert_eq!(echo, "hi"),
        _ => panic!("expected echo_ok"),
    }
    assert_eq!(out[0].body.in_reply_to, Some(7));
    assert_eq!(out[0].dest, "c1");
}

#[test]
fn message_ids_increase() {
    let mut node = Node::new(Role::Echo);
    let first = init(&mut node, "n1", &["n1"]);
    let second = node.handle(msg("c1", "n1", 1, Payload::Echo { echo: "a".to_string() })).unwrap();
    let third = node.handle(msg("c1", "n1", 2, Payload::Echo { echo: "b".to_string() })).unwrap();
    assert_eq!(first[0].body.msg_id, Some(0));
    assert_eq!(second[0].body.msg_id, Some(1));
    assert_eq!(third[0].body.msg_id, Some(2));
}

#[test]
fn generate_counts_from_one() {
    let mut node = Node::new(Role::UniqueIds);
    init(&mut node, "n1", &["n1"]);
    let mut ids = Vec::new();
    for k in 0..10u64 {
        let out = node.handle(msg("c1", "n1", k, Payload::Generate)).unwrap();
        assert_eq!(out.len(), 1);
        match &out[0].body.payload {
            Payload::GenerateOk { id } => ids.push(id.clone()),
            _ => panic!("expected generate_ok"),
        }
    }
    assert_eq!(ids[0], "n1-1");
    assert_eq!(ids[1], "n1-2");
    assert_eq!(ids[9], "n1-10");
}

#[test]
fn generate_ignored_by_echo_role() {
    let mut node = Node::new(Role::Echo);
    init(&mut node, "n1", &["n1"]);
    let out = node.handle(msg("c1", "n1", 1, Payload::Generate)).unwrap();
    assert!(out.is_empty());
}

#[test]
fn first_message_must_be_init() {
    let mut node = Node::new(Role::FloodBroadcast);
    let r = node.handle(msg("c1", "n1", 1, Payload::Broadcast { message: 5 }));
    assert!(matches!(r, Err(ProtocolError::NotInitialized)));
    assert!(!node.is_ready());
    assert!(node.seen_values().is_empty());
}

#[test]
fn second_init_is_refused() {
    let mut node = Node::new(Role::Echo);
    init(&mut node, "n1", &["n1"]);
    let r = node.handle(msg("c0", "n1", 2, Payload::Init { node_id: "n1".to_string(), node_ids: strs(&["n1"]) }));
    assert!(matches!(r, Err(ProtocolError::AlreadyInitialized)));
}

#[test]
fn replies_are_not_answered() {
    let mut node = Node::new(Role::GCounter);
    init(&mut node, "n1", &["n1", "n2"]);
    let out = node.handle(msg("n2", "n1", 3, Payload::AddOk)).unwrap();
    assert!(out.is_empty());
    let out = node.handle(msg("n2", "n1", 4, Payload::EchoOk { echo: "x".to_string() })).unwrap();
    assert!(out.is_empty());
}

fn flood_node(id: &str) -> Node {
    let mut node = Node::new(Role::FloodBroadcast);
    init(&mut node, id, &["n1", "n2", "n3"]);
    let topology = vec![
        ("n1".to_string(), strs(&["n2", "n3"])),
        ("n2".to_string(), strs(&["n1"])),
        ("n3".to_string(), strs(&["n1"])),
    ];
    let out = node.handle(msg("c0", id, 200, Payload::Topology { topology })).unwrap();
    assert!(matches!(out[0].body.payload, Payload::TopologyOk));
    node
}

#[test]
fn broadcast_floods_to_neighbours() {
    let mut node = flood_node("n1");
    let out = node.handle(msg("c1", "n1", 9, Payload::Broadcast { message: 5 })).unwrap();
    assert_eq!(out.len(), 3);
    assert!(matches!(out[0].body.payload, Payload::BroadcastOk));
    assert_eq!(out[0].dest, "c1");
    assert_eq!(out[0].body.in_reply_to, Some(9));
    let dests: Vec<&str> = out[1..].iter().map(|m| m.dest.as_str()).collect();
    assert_eq!(dests, vec!["n2", "n3"]);
    for m in &out[1..] {
        assert!(matches!(m.body.payload, Payload::Broadcast { message: 5 }));
        assert_eq!(m.body.in_reply_to, None);
        assert_eq!(m.src, "n1");
    }
    assert_ne!(out[1].body.msg_id, out[2].body.msg_id);
}

#[test]
fn broadcast_not_sent_back_to_sender() {
    let mut node = flood_node("n1");
    let out = node.handle(msg("n2", "n1", 9, Payload::Broadcast { message: 5 })).unwrap();
    assert_eq!(out.len(), 2);
    assert_eq!(out[1].dest, "n3");
}

#[test]
fn broadcast_duplicate_is_acknowledged_only() {
    let mut node = flood_node("n1");
    node.handle(msg("c1", "n1", 1, Payload::Broadcast { message: 5 })).unwrap();
    let out = node.handle(msg("n2", "n1", 2, Payload::Broadcast { message: 5 })).unwrap();
    assert_eq!(out.len(), 1);
    assert!(matches!(out[0].body.payload, Payload::BroadcastOk));
    assert_eq!(node.seen_values(), vec![5]);
}

#[test]
fn broadcast_without_topology_entry_floods_nowhere() {
    let mut node = Node::new(Role::FloodBroadcast);
    init(&mut node, "n9", &["n9"]);
    let out = node.handle(msg("c1", "n9", 1, Payload::Broadcast { message: 4 })).unwrap();
    assert_eq!(out.len(), 1);
}

#[test]
fn single_node_broadcast_does_not_forward() {
    let mut node = Node::new(Role::Broadcast);
    init(&mut node, "n1", &["n1", "n2"]);
    let topology = vec![("n1".to_string(), strs(&["n2"]))];
    node.handle(msg("c0", "n1", 1, Payload::Topology { topology })).unwrap();
    let out = node.handle(msg("c1", "n1", 2, Payload::Broadcast { message: 8 })).unwrap();
    assert_eq!(out.len(), 1);
    let out = node.handle(msg("c1", "n1", 3, Payload::Read)).unwrap();
    match &out[0].body.payload {
        Payload::ReadOk { messages } => assert_eq!(messages, &vec![8]),
        _ => panic!("expected read_ok"),
    }
}

#[test]
fn read_lists_seen_values() {
    let mut node = flood_node("n1");
    let out = node.handle(msg("c1", "n1", 1, Payload::Read)).unwrap();
    match &out[0].body.payload {
        Payload::ReadOk { messages } => assert!(messages.is_empty()),
        _ => panic!("expected read_ok"),
    }
    for v in [3u64, 1, 3, 2] {
        node.handle(msg("c1", "n1", 2, Payload::Broadcast { message: v })).unwrap();
    }
    let out = node.handle(msg("c1", "n1", 3, Payload::Read)).unwrap();
    match &out[0].body.payload {
        Payload::ReadOk { messages } => {
            let mut got = messages.clone();
            got.sort();
            assert_eq!(got, vec![1, 2, 3]);
        }
        _ => panic!("expected read_ok"),
    }
}

/// Delivers every message in flight until none is left.
fn settle(nodes: &mut Vec<Node>, mut in_flight: Vec<Message>) {
    while let Some(m) = in_flight.pop() {
        if let Some(node) = nodes.iter_mut().find(|n| *n.node_id() == m.dest) {
            let out = node.handle(m).unwrap();
            for o in out {
                if matches!(o.body.payload, Payload::Broadcast { .. } | Payload::Add { .. }) {
                    in_flight.push(o);
                }
            }
        }
    }
}

#[test]
fn flood_reaches_every_node() {
    let mut nodes = Vec::new();
    for id in ["n1", "n2", "n3", "n4"] {
        let mut node = Node::new(Role::FloodBroadcast);
        init(&mut node, id, &["n1", "n2", "n3", "n4"]);
        let topology = vec![
            ("n1".to_string(), strs(&["n2"])),
            ("n2".to_string(), strs(&["n1", "n3"])),
            ("n3".to_string(), strs(&["n2", "n4"])),
            ("n4".to_string(), strs(&["n3"])),
        ];
        node.handle(msg("c0", id, 1, Payload::Topology { topology })).unwrap();
        nodes.push(node);
    }
    settle(&mut nodes, vec![msg("c1", "n4", 5, Payload::Broadcast { message: 42 })]);
    for node in &nodes {
        assert_eq!(node.seen_values(), vec![42]);
    }
}

#[test]
fn add_from_clients_replicates() {
    let mut node = Node::new(Role::GCounter);
    init(&mut node, "n1", &["n1", "n2", "n3"]);
    let a = node.handle(msg("c1", "n1", 1, Payload::Add { delta: 3 })).unwrap();
    let b = node.handle(msg("c2", "n1", 2, Payload::Add { delta: 3 })).unwrap();
    assert_eq!(node.counter_value(), 6);
    assert!(matches!(a[0].body.payload, Payload::AddOk));
    assert_eq!(a.len() - 1 + b.len() - 1, 2 * 2);
    let dests: Vec<&str> = a[1..].iter().map(|m| m.dest.as_str()).collect();
    assert_eq!(dests, vec!["n2", "n3"]);
    for m in a[1..].iter().chain(b[1..].iter()) {
        assert!(matches!(m.body.payload, Payload::Add { delta: 3 }));
        assert_eq!(m.body.in_reply_to, None);
    }
}

#[test]
fn add_from_replica_is_not_replicated() {
    let mut node = Node::new(Role::GCounter);
    init(&mut node, "n1", &["n1", "n2", "n3"]);
    node.handle(msg("c1", "n1", 1, Payload::Add { delta: 3 })).unwrap();
    let out = node.handle(msg("n2", "n1", 2, Payload::Add { delta: 3 })).unwrap();
    assert_eq!(out.len(), 1);
    assert!(matches!(out[0].body.payload, Payload::AddOk));
    assert_eq!(node.counter_value(), 6);
    let out = node.handle(msg("c1", "n1", 3, Payload::Read)).unwrap();
    assert!(matches!(out[0].body.payload, Payload::ReadValueOk { value: 6 }));
}

#[test]
fn counter_holds_at_maximum() {
    let mut node = Node::new(Role::GCounter);
    init(&mut node, "n1", &["n1"]);
    node.handle(msg("c1", "n1", 1, Payload::Add { delta: u64::MAX })).unwrap();
    node.handle(msg("c1", "n1", 2, Payload::Add { delta: 1 })).unwrap();
    assert_eq!(node.counter_value(), u64::MAX);
}

#[test]
fn replicas_converge() {
    let peers = ["n1", "n2", "n3"];
    let mut nodes = Vec::new();
    for id in peers {
        let mut node = Node::new(Role::GCounter);
        init(&mut node, id, &peers);
        nodes.push(node);
    }
    let requests = vec![
        msg("c1", "n1", 1, Payload::Add { delta: 4 }),
        msg("c2", "n2", 2, Payload::Add { delta: 10 }),
        msg("c3", "n3", 3, Payload::Add { delta: 1 }),
        msg("c4", "n1", 4, Payload::Add { delta: 7 }),
    ];
    settle(&mut nodes, requests);
    for node in &nodes {
        assert_eq!(node.counter_value(), 22);
    }
}

#[test]
fn counter_order_does_not_matter() {
    let mut a = Node::new(Role::GCounter);
    let mut b = Node::new(Role::GCounter);
    init(&mut a, "n1", &["n1", "n2"]);
    init(&mut b, "n2", &["n1", "n2"]);
    for d in [5u64, 9, 2] {
        a.handle(msg("n9", "n1", 1, Payload::Add { delta: d })).unwrap();
    }
    for d in [2u64, 5, 9] {
        b.handle(msg("n9", "n2", 1, Payload::Add { delta: d })).unwrap();
    }
    assert_eq!(a.counter_value(), b.counter_value());
    assert_eq!(a.counter_value(), 16);
}

#[test]
fn topology_lookup_and_replace() {
    let mut t = Topology::new();
    assert!(t.neighbors_of(&"n1".to_string()).is_empty());
    t.replace(vec![("n1".to_string(), strs(&["n2", "n3"])), ("n2".to_string(), strs(&["n1"]))]);
    assert_eq!(t.neighbors_of(&"n1".to_string()), strs(&["n2", "n3"]));
    assert_eq!(t.flood_targets(&"n1".to_string(), &"n3".to_string()), strs(&["n2"]));
    t.replace(vec![("n2".to_string(), strs(&["n3"]))]);
    assert!(t.neighbors_of(&"n1".to_string()).is_empty());
}

#[test]
fn seen_set_keeps_each_value_once() {
    let mut s = SeenSet::new();
    assert!(s.insert(7));
    assert!(!s.insert(7));
    assert!(s.insert(1));
    assert!(s.contains(1));
    assert!(!s.contains(2));
    assert_eq!(s.to_vec(), vec![7, 1]);
}

#[test]
fn decimal_digits() {
    let mut s = String::from("x");
    push_decimal(&mut s, 0);
    push_decimal(&mut s, 1907);
    push_decimal(&mut s, u64::MAX);
    assert_eq!(s, "x0190718446744073709551615");
}
