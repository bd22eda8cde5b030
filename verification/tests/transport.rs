use exocore::transport::messages::{Envelope, InMessage, OutMessage};
use exocore::transport::either::{EitherError, EitherRouter, Side};
use exocore::transport::http::requests::{RequestTracker, TrackedRequest};
use exocore::transport::http::server::{
    http_reply_target, listen_host_port, read_authorization_token, ConnectionKind, RequestError, RequestType,
};
use exocore::transport::layer::TransportLayer;
use exocore::transport::{str_eq, ServiceType};

#[test]
fn test_send_and_receive() {
    let mut router = EitherRouter::new();
    let node2 = "node2".to_string();

    // since node2 never sent a message, it is reached via the left side
    assert_eq!(router.route(&vec![node2.clone()]), Ok(Side::Left));

    // node2 sends through the left side, then through the right side
    router.maybe_add_node(&node2, Side::Left);
    assert_eq!(router.route(&vec![node2.clone()]), Ok(Side::Left));
    router.maybe_add_node(&node2, Side::Right);

    // messages to node2 now go through the side it last used
    assert_eq!(router.route(&vec![node2.clone()]), Ok(Side::Right));
    assert_eq!(router.get_side(&node2), Some(Side::Right));
}

#[test]
fn either_routes_by_first_destination() {
    let mut router = EitherRouter::new();
    router.maybe_add_node(&"a".to_string(), Side::Right);
    assert_eq!(router.route(&vec!["b".to_string(), "a".to_string()]), Ok(Side::Left));
    assert_eq!(router.route(&vec!["a".to_string(), "b".to_string()]), Ok(Side::Right));
    assert_eq!(router.route(&vec![]), Err(EitherError::NoDestination));
    assert_eq!(router.get_side(&"b".to_string()), None);
}

#[test]
fn request_type_from_path() {
    assert_eq!(RequestType::from_url_path("/entities/query"), Ok(RequestType::EntitiesQuery));
    assert_eq!(RequestType::from_url_path("/entities/mutate"), Ok(RequestType::EntitiesMutation));
    assert_eq!(RequestType::from_url_path("/entities/other"), Err(RequestError::InvalidRequestType));
    assert_eq!(RequestType::from_url_path(""), Err(RequestError::InvalidRequestType));
    assert_eq!(RequestType::EntitiesQuery.service_type(), ServiceType::Store);
    assert_eq!(RequestType::EntitiesMutation.service_type(), ServiceType::Store);
}

#[test]
fn request_error_status() {
    assert_eq!(RequestError::InvalidRequestType.to_response_status(), 404);
    assert_eq!(RequestError::Unauthorized.to_response_status(), 401);
    assert_eq!(RequestError::Query.to_response_status(), 400);
    assert_eq!(RequestError::Server("boom".to_string()).to_response_status(), 500);
    assert_eq!(RequestError::Hyper("boom".to_string()).to_response_status(), 500);
}

#[test]
fn authorization_token_from_query() {
    assert_eq!(read_authorization_token(None), Err(RequestError::Unauthorized));
    assert_eq!(read_authorization_token(Some("a=1&b=2")), Err(RequestError::Unauthorized));
    assert_eq!(read_authorization_token(Some("a=1&token=abc%20d&token=zz")), Ok("abc d".to_string()));
    assert_eq!(read_authorization_token(Some("token=x+y")), Ok("x y".to_string()));
}

#[test]
fn layer_codes() {
    for layer in [TransportLayer::Meta, TransportLayer::Common, TransportLayer::Data] {
        assert_eq!(TransportLayer::from_code(layer.to_code()), Some(layer));
    }
    assert_eq!(TransportLayer::Meta.to_code(), 1);
    assert_eq!(TransportLayer::Data.to_code(), 3);
    assert_eq!(TransportLayer::from_code(0), None);
    assert_eq!(TransportLayer::from_code(4), None);
}

#[test]
fn request_tracker_ids_and_replies() {
    let mut tracker: RequestTracker<&'static str> = RequestTracker::new(5_000);
    assert_eq!(tracker.request_timeout_ms(), 5_000);
    let a = tracker.push("a");
    let b = tracker.push("b");
    assert_eq!((a, b), (0, 1));
    assert_eq!(tracker.reply(b), Some("b"));
    assert_eq!(tracker.reply(b), None);
    tracker.remove(a);
    assert_eq!(tracker.reply(a), None);

    let request = TrackedRequest::new(7, 100);
    assert_eq!(request.id(), 7);
    assert_eq!(request.receive_timeout_ms(), 100);
}

#[test]
fn strings_compare_by_content() {
    assert!(str_eq("abc", "abc"));
    assert!(!str_eq("abc", "abd"));
}

#[test]
fn response_follows_request() {
    let out = OutMessage::from_framed_message(vec![1, 2], "node1".to_string(), TransportLayer::Data, 7, vec![9])
        .unwrap()
        .with_to_node("node2".to_string())
        .with_follow_id(42);
    assert_eq!(out.to, vec!["node2".to_string()]);
    assert_eq!(out.envelope.layer, 3);
    assert_eq!(out.envelope.follow_id, 42);

    let received = InMessage::from_node_and_frame("node1".to_string(), out.envelope.clone()).unwrap();
    assert_eq!(received.follow_id, Some(42));
    assert_eq!(received.layer, TransportLayer::Data);
    assert_eq!(received.get_data(), &vec![9]);

    let response = received.to_response_message(vec![1, 2], "node2".to_string(), 8, vec![10]).unwrap();
    assert_eq!(response.to, vec!["node1".to_string()]);
    assert_eq!(response.envelope.follow_id, 42);
    assert_eq!(response.envelope.message_type, 8);

    let no_follow = Envelope { follow_id: 0, ..out.envelope.clone() };
    let received = InMessage::from_node_and_frame("node1".to_string(), no_follow).unwrap();
    assert_eq!(received.follow_id, None);
    assert!(received.to_response_message(vec![], String::new(), 1, vec![]).is_err());

    let bad_layer = Envelope { layer: 9, ..out.envelope };
    assert!(InMessage::from_node_and_frame("node1".to_string(), bad_layer).is_err());
}

#[test]
fn http_listen_address_defaults() {
    assert_eq!(listen_host_port(None, None), ("0.0.0.0".to_string(), 80));
    assert_eq!(listen_host_port(Some("example.com".to_string()), Some(3007)), ("example.com".to_string(), 3007));
    assert_eq!(listen_host_port(Some("localhost".to_string()), None), ("localhost".to_string(), 80));
}

#[test]
fn http_replies_go_to_their_tracked_request() {
    assert_eq!(http_reply_target(Some(ConnectionKind::HttpServer(42))), Some(42));
    assert_eq!(http_reply_target(Some(ConnectionKind::Libp2p(42))), None);
    assert_eq!(http_reply_target(None), None);
}
