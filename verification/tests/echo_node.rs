use strom::echo::{EchoNode, EchoPayload};
use strom::{Action, Body, Event, Message, Node, NodeError};

fn echo_request(src: &str, dest: &str, id: Option<usize>, payload: EchoPayload) -> Event<EchoPayload> {
    Event::Message(Message {
        src: src.to_string(),
        dest: dest.to_string(),
        body: Body { msg_id: id, in_reply_to: None, payload },
    })
}

fn echo_reply(src: &str, dest: &str, id: usize, to: Option<usize>, payload: EchoPayload) -> Action<EchoPayload> {
    Action::Send(Message {
        src: src.to_string(),
        dest: dest.to_string(),
        body: Body { msg_id: Some(id), in_reply_to: to, payload },
    })
}

#[test]
fn echo_is_answered_with_the_same_text() {
    let mut node = EchoNode::new();
    let out = node.step(echo_request(
        "c1",
        "n1",
        Some(1),
        EchoPayload::Echo { echo: "Please echo 35".to_string() },
    ));
    assert_eq!(
        out,
        Ok(vec![echo_reply(
            "n1",
            "c1",
            0,
            Some(1),
            EchoPayload::EchoOk { echo: "Please echo 35".to_string() }
        )])
    );
    assert_eq!(node.next_id(), 1);
}

#[test]
fn echo_node_answers_init() {
    let mut node = EchoNode::new();
    let out = node.step(echo_request(
        "c1",
        "n1",
        Some(1),
        EchoPayload::Init { node_id: "n1".to_string(), node_ids: vec!["n1".to_string()] },
    ));
    assert_eq!(out, Ok(vec![echo_reply("n1", "c1", 0, Some(1), EchoPayload::InitOk)]));
}

#[test]
fn generate_gives_counter_hyphen_node() {
    let mut node = EchoNode::new();
    let first = node.step(echo_request("c1", "n1", Some(5), EchoPayload::Generate));
    assert_eq!(
        first,
        Ok(vec![echo_reply("n1", "c1", 0, Some(5), EchoPayload::GenerateOk { id: "0-n1".to_string() })])
    );
    let second = node.step(echo_request("c1", "n1", Some(6), EchoPayload::Generate));
    assert_eq!(
        second,
        Ok(vec![echo_reply("n1", "c1", 1, Some(6), EchoPayload::GenerateOk { id: "1-n1".to_string() })])
    );
}

#[test]
fn generate_prints_the_counter_in_decimal() {
    let mut node = EchoNode::starting_at(1907);
    let out = node.step(echo_request("c1", "node-b", None, EchoPayload::Generate));
    assert_eq!(
        out,
        Ok(vec![echo_reply(
            "node-b",
            "c1",
            1907,
            None,
            EchoPayload::GenerateOk { id: "1907-node-b".to_string() }
        )])
    );
    let mut ten = EchoNode::starting_at(10);
    let out = ten.step(echo_request("c1", "", None, EchoPayload::Generate)).unwrap();
    assert_eq!(out, vec![echo_reply("", "c1", 10, None, EchoPayload::GenerateOk { id: "10-".to_string() })]);
}

#[test]
fn echo_node_stores_broadcasts_with_repeats_and_reads_them_back() {
    let mut node = EchoNode::new();
    for v in [4usize, 4, 9] {
        let out = node.step(echo_request("c1", "n1", Some(1), EchoPayload::Broadcast { message: v })).unwrap();
        assert_eq!(out.len(), 1);
    }
    assert_eq!(node.store(), &vec![4, 4, 9]);
    let out = node.step(echo_request("c2", "n1", Some(8), EchoPayload::Read));
    assert_eq!(
        out,
        Ok(vec![echo_reply("n1", "c2", 3, Some(8), EchoPayload::ReadOk { messages: vec![4, 4, 9] })])
    );
}

#[test]
fn echo_node_acknowledges_a_topology() {
    let mut node = EchoNode::new();
    let out = node.step(echo_request(
        "c1",
        "n1",
        Some(1),
        EchoPayload::Topology { topology: vec![("n1".to_string(), vec!["n2".to_string()])] },
    ));
    assert_eq!(out, Ok(vec![echo_reply("n1", "c1", 0, Some(1), EchoPayload::TopologyOk)]));
}

#[test]
fn echo_node_refuses_init_ok() {
    let mut node = EchoNode::new();
    assert_eq!(
        node.step(echo_request("c1", "n1", Some(1), EchoPayload::InitOk)),
        Err(NodeError::UnexpectedPayload)
    );
    assert_eq!(node.next_id(), 0);
}

#[test]
fn echo_node_counts_acknowledgements_without_answering() {
    let acks = vec![
        EchoPayload::TopologyOk,
        EchoPayload::BroadcastOk,
        EchoPayload::EchoOk { echo: "x".to_string() },
        EchoPayload::GenerateOk { id: "x".to_string() },
        EchoPayload::ReadOk { messages: vec![1] },
    ];
    let mut node = EchoNode::new();
    let mut expected = 0;
    for payload in acks {
        assert_eq!(node.step(echo_request("c1", "n1", Some(1), payload)), Ok(vec![]));
        expected += 1;
        assert_eq!(node.next_id(), expected);
    }
    assert!(node.store().is_empty());
}

#[test]
fn echo_node_without_ids_refuses_everything() {
    let mut node = EchoNode::starting_at(usize::MAX);
    assert_eq!(
        node.step(echo_request("c1", "n1", Some(1), EchoPayload::Broadcast { message: 1 })),
        Err(NodeError::MessageIdsExhausted)
    );
    assert_eq!(
        node.step(echo_request("c1", "n1", Some(1), EchoPayload::BroadcastOk)),
        Err(NodeError::MessageIdsExhausted)
    );
    assert_eq!(
        node.step(echo_request("c1", "n1", Some(1), EchoPayload::InitOk)),
        Err(NodeError::UnexpectedPayload)
    );
    assert!(node.store().is_empty());
    assert_eq!(node.next_id(), usize::MAX);
}

#[test]
fn echo_node_ignores_injected_events() {
    let mut node = EchoNode::new();
    assert_eq!(node.step(Event::Injected(())), Ok(vec![]));
    assert_eq!(node.next_id(), 0);
}
