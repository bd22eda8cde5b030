use exocore::transport::ws::{
    accepts_protocols, incoming_action, WebSocketTransportConfig, WsConnections, WsIncoming, WsMessage,
};

#[test]
fn ws_config_default_channel_sizes() {
    let config = WebSocketTransportConfig::default();
    assert_eq!(config.handle_in_channel_size, 1000);
    assert_eq!(config.handle_out_channel_size, 1000);
    assert_eq!(config.handle_out_to_websocket_channel_size, 1000);
}

#[test]
fn ws_accepts_only_connections_asking_for_its_protocol() {
    assert!(accepts_protocols(&vec!["chat".to_string(), "exocore_websocket".to_string()]));
    assert!(!accepts_protocols(&vec!["chat".to_string(), "exocore".to_string()]));
    assert!(!accepts_protocols(&vec![]));
}

#[test]
fn ws_incoming_messages_by_kind() {
    assert!(matches!(incoming_action(WsMessage::Binary(vec![1, 2])), WsIncoming::Deliver(d) if d == vec![1, 2]));
    assert!(matches!(incoming_action(WsMessage::Close), WsIncoming::Stop));
    assert!(matches!(incoming_action(WsMessage::Text("hello".to_string())), WsIncoming::Unhandled));
    assert!(matches!(incoming_action(WsMessage::Ping(vec![])), WsIncoming::Unhandled));
    assert!(matches!(incoming_action(WsMessage::Pong(vec![])), WsIncoming::Unhandled));
}

#[test]
fn ws_dispatch_only_to_open_connections() {
    let mut conns = WsConnections::new();
    let a = "node_a".to_string();
    let b = "node_b".to_string();
    conns.open(&a);
    conns.open(&b);
    conns.open(&a);
    assert!(conns.contains(&a));
    assert!(conns.contains(&b));

    let to = vec!["node_c".to_string(), b.clone(), a.clone()];
    assert_eq!(conns.dispatch_targets(to), vec![b.clone(), a.clone()]);

    conns.close(&b);
    assert!(!conns.contains(&b));
    assert_eq!(conns.dispatch_targets(vec![b.clone(), a.clone()]), vec![a.clone()]);

    // closing an unknown connection changes nothing
    conns.close(&"node_c".to_string());
    assert!(conns.contains(&a));
}
