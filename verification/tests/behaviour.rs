use exocore::transport::p2p::behaviour::{
    BehaviourAction, ConnectionDenied, ExocoreBehaviour, ExocoreBehaviourEvent, NotifyHandler, PeerStatus,
    TransportOutEvent, message_per_destination,
};
use exocore::transport::p2p::handler::{OutboundAction, OutboundQueue, SentOutcome};

fn drain(b: &mut ExocoreBehaviour<u32>, now: u64) -> Vec<BehaviourAction<u32>> {
    let mut out = Vec::new();
    while let Some(a) = b.poll(now) {
        out.push(a);
    }
    out
}

fn messages(actions: &[BehaviourAction<u32>]) -> Vec<u32> {
    actions
        .iter()
        .filter_map(|a| match a {
            BehaviourAction::NotifyHandler { event, .. } => Some(*event),
            _ => None,
        })
        .collect()
}

fn dials(actions: &[BehaviourAction<u32>]) -> usize {
    actions.iter().filter(|a| matches!(a, BehaviourAction::Dial { .. })).count()
}

#[test]
fn should_queue_message_until_connected() {
    let mut b: ExocoreBehaviour<u32> = ExocoreBehaviour::new();
    b.add_node(2, vec!["/ip4/127.0.0.1/tcp/3006".to_string()], 1_000);
    let first = drain(&mut b, 1_000);
    assert_eq!(dials(&first), 1);

    // send 1 to 2, but 2 is not yet connected: it gets queued
    b.send_message(2, None, None, 1, 1_000);
    // send 2 to 2 with an expired expiration: it shouldn't be delivered
    b.send_message(2, Some(500), None, 2, 1_000);
    assert!(messages(&drain(&mut b, 1_000)).is_empty());

    // 2 gets connected
    b.mark_peer_connected(2, 1_100);
    let actions = drain(&mut b, 1_100);
    assert!(matches!(
        actions[0],
        BehaviourAction::GenerateEvent(ExocoreBehaviourEvent::PeerStatus(2, PeerStatus::Connected))
    ));
    assert_eq!(messages(&actions), vec![1]);

    // once connected, messages go right away
    b.send_message(2, None, Some(9), 3, 1_200);
    let actions = drain(&mut b, 1_200);
    assert!(matches!(
        actions[0],
        BehaviourAction::NotifyHandler { peer_id: 2, handler: NotifyHandler::One(9), event: 3 }
    ));
}

#[test]
fn queued_messages_expire_after_default_timeout() {
    let mut b: ExocoreBehaviour<u32> = ExocoreBehaviour::new();
    b.add_node(2, vec!["addr".to_string()], 0);
    b.send_message(2, None, None, 1, 0);
    drain(&mut b, 0);
    // 5 seconds later, the message expired
    b.mark_peer_connected(2, 5_000);
    assert!(messages(&drain(&mut b, 5_000)).is_empty());
}

#[test]
fn queue_keeps_last_twenty_messages() {
    let mut b: ExocoreBehaviour<u32> = ExocoreBehaviour::new();
    b.add_node(2, vec!["addr".to_string()], 0);
    for i in 0..25 {
        b.send_message(2, Some(1_000_000), None, i, 0);
    }
    drain(&mut b, 0);
    b.mark_peer_connected(2, 10);
    assert_eq!(messages(&drain(&mut b, 10)), (5..25).collect::<Vec<u32>>());
}

#[test]
fn unknown_peers_are_ignored() {
    let mut b: ExocoreBehaviour<u32> = ExocoreBehaviour::new();
    b.send_message(7, None, None, 1, 0);
    b.mark_peer_connected(7, 0);
    b.on_connection_handler_event(7, 1, 5);
    assert!(drain(&mut b, 0).is_empty());
    assert_eq!(b.handle_pending_outbound_connection(Some(7)), Ok(vec![]));
    assert_eq!(b.handle_pending_outbound_connection(None), Err(ConnectionDenied::MissingPeerId));
}

#[test]
fn adding_node_twice_dials_once() {
    let mut b: ExocoreBehaviour<u32> = ExocoreBehaviour::new();
    b.add_node(3, vec!["a".to_string()], 0);
    b.add_node(3, vec!["a".to_string()], 1);
    assert_eq!(dials(&drain(&mut b, 1)), 1);
    // new addresses get dialed right away
    b.add_node(3, vec!["b".to_string()], 2);
    assert_eq!(dials(&drain(&mut b, 2)), 1);
    assert_eq!(b.handle_pending_outbound_connection(Some(3)), Ok(vec!["b".to_string()]));
}

#[test]
fn disconnected_peer_gets_redialed() {
    let mut b: ExocoreBehaviour<u32> = ExocoreBehaviour::new();
    b.add_node(4, vec!["a".to_string()], 0);
    drain(&mut b, 0);
    b.report_ping_success(4, 10);
    b.on_connection_handler_event(4, 8, 42);
    let actions = drain(&mut b, 10);
    assert!(actions.iter().any(|a| matches!(
        a,
        BehaviourAction::GenerateEvent(ExocoreBehaviourEvent::Message(m)) if m.source == 4 && m.connection == 8 && m.message == 42
    )));
    b.handle_connection_closed(4, 20);
    let actions = drain(&mut b, 20);
    assert!(matches!(
        actions[0],
        BehaviourAction::GenerateEvent(ExocoreBehaviourEvent::PeerStatus(4, PeerStatus::Disconnected))
    ));
    assert_eq!(dials(&actions), 1);
    // a poll soon after doesn't dial again, one more than 30 seconds later does
    assert_eq!(dials(&drain(&mut b, 6_000)), 0);
    assert_eq!(dials(&drain(&mut b, 40_000)), 1);
}

#[test]
fn reset_closes_all_connections() {
    let mut b: ExocoreBehaviour<u32> = ExocoreBehaviour::new();
    b.add_node(1, vec!["a".to_string()], 0);
    b.add_node(2, vec!["b".to_string()], 0);
    drain(&mut b, 0);
    assert!(b.handle_out_event(TransportOutEvent::Reset, 0));
    let actions = drain(&mut b, 0);
    let closed: Vec<u64> = actions
        .iter()
        .filter_map(|a| match a {
            BehaviourAction::CloseConnection { peer_id } => Some(*peer_id),
            _ => None,
        })
        .collect();
    assert_eq!(closed, vec![1, 2]);
    assert!(!b.handle_out_event(
        TransportOutEvent::Message { destination: None, expiration: None, connection: None, data: 1 },
        0
    ));
}

#[test]
fn handler_requests_one_substream_and_sends_in_order() {
    let mut q: OutboundQueue<u32, &'static str> = OutboundQueue::new();
    assert!(matches!(q.poll_outbound(false), OutboundAction::Nothing));
    q.on_behaviour_event(1);
    q.on_behaviour_event(2);
    assert!(matches!(q.poll_outbound(false), OutboundAction::RequestSubstream));
    assert!(matches!(q.poll_outbound(false), OutboundAction::Nothing));
    q.on_fully_negotiated_outbound("s1");
    assert!(matches!(q.poll_outbound(false), OutboundAction::Send("s1", 1)));
    assert!(matches!(q.on_message_sent("s1"), SentOutcome::SendNext("s1", 2)));
    assert!(matches!(q.on_message_sent("s1"), SentOutcome::Idle));
    q.on_fully_negotiated_outbound("s2");
    assert!(matches!(q.on_message_sent("s3"), SentOutcome::Close("s3")));
    q.on_dial_upgrade_error();
}

#[test]
fn message_expanded_per_destination_in_order() {
    let events = message_per_destination(&vec![3, 1, 3], Some(50), Some(7), &vec![9, 8]);
    assert_eq!(events.len(), 3);
    let dests: Vec<u64> = events
        .iter()
        .map(|e| match e {
            TransportOutEvent::Message { destination: Some(d), expiration, connection, data } => {
                assert_eq!(*expiration, Some(50));
                assert_eq!(*connection, Some(7));
                assert_eq!(data, &vec![9, 8]);
                *d
            }
            _ => panic!("expected a message"),
        })
        .collect();
    assert_eq!(dests, vec![3, 1, 3]);
    assert!(message_per_destination(&vec![], None, None, &vec![1]).is_empty());
}
