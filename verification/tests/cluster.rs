use strom::broadcast::BroadcastNode;
use strom::protocol::{BroadcastPayload, InjectedPayload};
use strom::{Action, Body, Event, Init, Message, Node};

fn client_request(dest: &str, payload: BroadcastPayload) -> Event<BroadcastPayload, InjectedPayload> {
    Event::Message(Message {
        src: "c1".to_string(),
        dest: dest.to_string(),
        body: Body { msg_id: Some(1), in_reply_to: None, payload },
    })
}

/// Starts one node per id and hands each the same topology.
fn start_cluster(topology: &[(&str, &[&str])]) -> Vec<BroadcastNode> {
    let ids: Vec<String> = topology.iter().map(|(n, _)| n.to_string()).collect();
    let adjacency: Vec<(String, Vec<String>)> = topology
        .iter()
        .map(|(n, ns)| (n.to_string(), ns.iter().map(|p| p.to_string()).collect()))
        .collect();
    ids.iter()
        .map(|id| {
            let mut node = BroadcastNode::new();
            node.step(client_request(
                id,
                BroadcastPayload::Init(Init { node_id: id.clone(), node_ids: ids.clone() }),
            ))
            .unwrap();
            node.step(client_request(id, BroadcastPayload::Topology { topology: adjacency.clone() }))
                .unwrap();
            node
        })
        .collect()
}

fn broadcast_at(nodes: &mut Vec<BroadcastNode>, id: &str, value: usize) {
    let at = nodes.iter().position(|n| n.node_id() == Some(&id.to_string())).unwrap();
    nodes[at].step(client_request(id, BroadcastPayload::Broadcast { message: value })).unwrap();
}

fn read_at(nodes: &mut Vec<BroadcastNode>, id: &str) -> Vec<usize> {
    let at = nodes.iter().position(|n| n.node_id() == Some(&id.to_string())).unwrap();
    let out = nodes[at].step(client_request(id, BroadcastPayload::Read)).unwrap();
    match &out[0] {
        Action::Send(m) => match &m.body.payload {
            BroadcastPayload::ReadOk { messages } => messages.clone(),
            other => panic!("not a read reply: {:?}", other),
        },
        other => panic!("not an envelope: {:?}", other),
    }
}

/// One round: every node ticks, then every envelope that `arrives` lets
/// through is handed to the node it is addressed to.
fn gossip_round(nodes: &mut Vec<BroadcastNode>, arrives: &mut dyn FnMut() -> bool) {
    let mut in_flight = Vec::new();
    for node in nodes.iter_mut() {
        for action in node.step(Event::Injected(InjectedPayload::Gossip)).unwrap() {
            match action {
                Action::Send(envelope) => in_flight.push(envelope),
                other => panic!("a tick only sends: {:?}", other),
            }
        }
    }
    for envelope in in_flight {
        if arrives() {
            let at = nodes.iter().position(|n| n.node_id() == Some(&envelope.dest)).unwrap();
            assert_eq!(nodes[at].step(Event::Message(envelope)), Ok(vec![]));
        }
    }
}

fn sorted(mut values: Vec<usize>) -> Vec<usize> {
    values.sort();
    values
}

fn everyone_has(nodes: &mut Vec<BroadcastNode>, ids: &[&str], expected: &[usize]) -> bool {
    ids.iter().all(|id| sorted(read_at(nodes, id)) == expected)
}

/// A generator of coins that come up with `keep` chances in 100, the same on
/// every run.
fn lossy(seed: u64, keep: u64) -> impl FnMut() -> bool {
    let mut state = seed;
    move || {
        state = state.wrapping_mul(6364136223846793005).wrapping_add(1442695040888963407);
        (state >> 33) % 100 < keep
    }
}

#[test]
fn a_broadcast_at_one_end_of_a_line_reaches_the_other_end() {
    let mut nodes = start_cluster(&[("A", &["B"]), ("B", &["A", "C"]), ("C", &["B"])]);
    broadcast_at(&mut nodes, "A", 5);
    assert_eq!(read_at(&mut nodes, "C"), Vec::<usize>::new());
    gossip_round(&mut nodes, &mut || true);
    assert_eq!(read_at(&mut nodes, "B"), vec![5]);
    gossip_round(&mut nodes, &mut || true);
    assert_eq!(read_at(&mut nodes, "C"), vec![5]);
    assert_eq!(read_at(&mut nodes, "A"), vec![5]);
    for _ in 0..5 {
        gossip_round(&mut nodes, &mut || true);
    }
    assert_eq!(read_at(&mut nodes, "A"), vec![5]);
    assert_eq!(read_at(&mut nodes, "B"), vec![5]);
    assert_eq!(read_at(&mut nodes, "C"), vec![5]);
}

#[test]
fn values_from_everywhere_converge_on_a_ring() {
    let ids = ["n0", "n1", "n2", "n3", "n4", "n5"];
    let mut nodes = start_cluster(&[
        ("n0", &["n5", "n1"]),
        ("n1", &["n0", "n2"]),
        ("n2", &["n1", "n3"]),
        ("n3", &["n2", "n4"]),
        ("n4", &["n3", "n5"]),
        ("n5", &["n4", "n0"]),
    ]);
    for (k, id) in ids.iter().enumerate() {
        broadcast_at(&mut nodes, id, 100 + k);
    }
    // No node is more than three steps from any other.
    for _ in 0..3 {
        gossip_round(&mut nodes, &mut || true);
    }
    assert!(everyone_has(&mut nodes, &ids, &[100, 101, 102, 103, 104, 105]));
}

#[test]
fn many_values_converge_on_a_tree_within_its_depth() {
    let ids = ["r", "a", "b", "a1", "a2", "b1"];
    let mut nodes = start_cluster(&[
        ("r", &["a", "b"]),
        ("a", &["r", "a1", "a2"]),
        ("b", &["r", "b1"]),
        ("a1", &["a"]),
        ("a2", &["a"]),
        ("b1", &["b"]),
    ]);
    let values: Vec<usize> = (0..60).collect();
    for v in &values {
        broadcast_at(&mut nodes, ids[*v % ids.len()], *v);
    }
    // The longest way, from one leaf to another, has four steps.
    for _ in 0..4 {
        gossip_round(&mut nodes, &mut || true);
    }
    assert!(everyone_has(&mut nodes, &ids, &values));
}

#[test]
fn a_node_that_nobody_gossips_with_hears_nothing() {
    let mut nodes = start_cluster(&[("A", &["B"]), ("B", &["A"]), ("C", &[])]);
    broadcast_at(&mut nodes, "A", 5);
    for _ in 0..10 {
        gossip_round(&mut nodes, &mut || true);
    }
    assert_eq!(read_at(&mut nodes, "B"), vec![5]);
    assert_eq!(read_at(&mut nodes, "C"), Vec::<usize>::new());
}

#[test]
fn nothing_spreads_while_every_envelope_is_lost() {
    let mut nodes = start_cluster(&[("A", &["B"]), ("B", &["A"])]);
    broadcast_at(&mut nodes, "A", 5);
    for _ in 0..20 {
        gossip_round(&mut nodes, &mut || false);
    }
    assert_eq!(read_at(&mut nodes, "B"), Vec::<usize>::new());
    // The sender has not given up: the first envelope that arrives brings it.
    gossip_round(&mut nodes, &mut || true);
    assert_eq!(read_at(&mut nodes, "B"), vec![5]);
}

#[test]
fn values_converge_although_half_of_the_envelopes_are_lost() {
    let ids = ["n0", "n1", "n2", "n3", "n4"];
    let line: [(&str, &[&str]); 5] = [
        ("n0", &["n1"]),
        ("n1", &["n0", "n2"]),
        ("n2", &["n1", "n3"]),
        ("n3", &["n2", "n4"]),
        ("n4", &["n3"]),
    ];
    for seed in 1..=20u64 {
        let mut nodes = start_cluster(&line);
        let values: Vec<usize> = (0..40).collect();
        for v in &values {
            broadcast_at(&mut nodes, ids[*v % ids.len()], *v);
        }
        let mut arrives = lossy(seed, 50);
        let mut rounds = 0;
        while !everyone_has(&mut nodes, &ids, &values) {
            gossip_round(&mut nodes, &mut arrives);
            rounds += 1;
            assert!(rounds <= 60, "no convergence after {} rounds with seed {}", rounds, seed);
        }
        // Without loss the four steps of the line take four rounds.
        assert!(rounds >= 4);
    }
}

#[test]
fn more_loss_takes_more_rounds_but_still_converges() {
    let ids = ["n0", "n1", "n2", "n3"];
    let line: [(&str, &[&str]); 4] =
        [("n0", &["n1"]), ("n1", &["n0", "n2"]), ("n2", &["n1", "n3"]), ("n3", &["n2"])];
    let mut totals = Vec::new();
    for keep in [100u64, 50, 10] {
        let mut total = 0;
        for seed in 1..=30u64 {
            let mut nodes = start_cluster(&line);
            broadcast_at(&mut nodes, "n0", 7);
            let mut arrives = lossy(seed, keep);
            let mut rounds = 0;
            while !everyone_has(&mut nodes, &ids, &[7]) {
                gossip_round(&mut nodes, &mut arrives);
                rounds += 1;
                assert!(rounds <= 400, "no convergence with {} in 100 arriving", keep);
            }
            total += rounds;
        }
        totals.push(total);
    }
    assert_eq!(totals[0], 30 * 3);
    assert!(totals[0] < totals[1]);
    assert!(totals[1] < totals[2]);
}

#[test]
fn a_neighbour_stops_getting_what_it_is_known_to_hold_once_many_values_are_seen() {
    let mut nodes = start_cluster(&[("A", &["B"]), ("B", &["A"])]);
    for v in 0..200 {
        broadcast_at(&mut nodes, "A", v);
    }
    // First round: B holds nothing that A knows of, so everything goes out.
    let first = nodes[0].step(Event::Injected(InjectedPayload::Gossip)).unwrap();
    let sent = match &first[0] {
        Action::Send(m) => m.clone(),
        other => panic!("not an envelope: {:?}", other),
    };
    match &sent.body.payload {
        BroadcastPayload::Gossip { seen } => assert_eq!(seen.len(), 200),
        other => panic!("not gossip: {:?}", other),
    }
    nodes[1].step(Event::Message(sent)).unwrap();
    // B tells A what it holds; from then on A sends only a small sample.
    let mut acknowledged = false;
    for _ in 0..200 {
        gossip_round(&mut nodes, &mut || true);
        if (0..200).all(|v| nodes[0].knows(&"B".to_string(), v)) {
            acknowledged = true;
            break;
        }
    }
    assert!(acknowledged);
    let later = nodes[0].step(Event::Injected(InjectedPayload::Gossip)).unwrap();
    match &later[0] {
        Action::Send(m) => match &m.body.payload {
            BroadcastPayload::Gossip { seen } => assert!(seen.len() < 60, "{} values", seen.len()),
            other => panic!("not gossip: {:?}", other),
        },
        other => panic!("not an envelope: {:?}", other),
    }
}
