use sabi::oneshot::channel;
use sabi::wire::{ErrorCode, ErrorResponse, PROTOCOL_VERSION};

#[test]
fn test_error_code_display() {
    assert_eq!(ErrorCode::SyntaxError.to_string(), "SYNTAX_ERROR");
    assert_eq!(ErrorCode::Internal.to_string(), "INTERNAL");
}

#[test]
fn test_protocol_version() {
    assert_eq!(PROTOCOL_VERSION, 1);
}

#[test]
fn test_error_response_display() {
    let resp = ErrorResponse {
        code: ErrorCode::SyntaxError,
        message: "Parse error".to_string(),
        details: None,
    };

    let display = resp.to_string();
    assert!(display.contains("SYNTAX_ERROR"));
    assert!(display.contains("Parse error"));
}

#[test]
fn error_response_with_details() {
    let resp = ErrorResponse {
        code: ErrorCode::NotFound,
        message: "gone".to_string(),
        details: Some("{\"position\":42}".to_string()),
    };
    assert_eq!(resp.to_string(), "NOT_FOUND: gone - Details: {\"position\":42}");
    assert_eq!(ErrorCode::RateLimited.to_string(), "RATE_LIMITED");
}

#[test]
fn oneshot_delivers_one_value() {
    let (tx, rx) = channel::<u32>();
    assert!(tx.send(5).is_ok());
    assert_eq!(rx.recv().ok(), Some(5));
    let (tx, rx) = channel::<u32>();
    drop(rx);
    assert_eq!(tx.send(9), Err(9));
}

use sabi::client_tracker::ClientTracker;

#[test]
fn tracker_add_and_remove_clients() {
    let mut t = ClientTracker::new();
    t.add_client(1, 100);
    t.add_client(2, 100);
    assert_eq!(t.client_count(), 2);
    t.add_client(1, 150);
    assert_eq!(t.client_count(), 2);
    assert_eq!(t.get_client(1).unwrap().connected_at, 150);
    t.remove_client(1);
    assert_eq!(t.client_count(), 1);
    assert!(t.get_client(1).is_none());
    t.remove_client(7);
    assert_eq!(t.client_count(), 1);
}

#[test]
fn tracker_subscriptions_and_index() {
    let mut t = ClientTracker::new();
    t.add_client(1, 0);
    t.add_client(2, 0);
    t.add_subscription(1, "s1", "SELECT 1", vec!["1".to_string()], 10);
    t.add_subscription(2, "s1", "SELECT 1", vec![], 11);
    t.add_subscription(2, "s2", "SELECT 2", vec![], 12);
    assert_eq!(t.subscription_count(), 2);
    let c1 = t.get_client(1).unwrap();
    assert_eq!(c1.last_heartbeat, 10);
    assert_eq!(c1.subscriptions.len(), 1);
    let info = c1.subscriptions.get("s1").unwrap();
    assert_eq!(info.query, "SELECT 1");
    assert_eq!(info.args, vec!["1".to_string()]);
    assert_eq!(info.created_at, 10);
    assert_eq!(info.last_update_tx, None);

    // removing client 2 drops s2, which only it had; s1 keeps client 1
    t.remove_client(2);
    assert_eq!(t.subscription_count(), 1);
    t.remove_subscription(1, "s1", 20);
    assert_eq!(t.subscription_count(), 0);
    assert!(t.get_client(1).unwrap().subscriptions.is_empty());
    assert_eq!(t.get_client(1).unwrap().last_heartbeat, 20);
}

#[test]
fn tracker_subscription_of_unknown_client_is_indexed() {
    let mut t = ClientTracker::new();
    t.add_subscription(9, "s", "SELECT 1", vec![], 5);
    assert_eq!(t.client_count(), 0);
    assert_eq!(t.subscription_count(), 1);
    t.remove_subscription(9, "s", 6);
    assert_eq!(t.subscription_count(), 0);
}

#[test]
fn tracker_last_seen_and_clients_for_key() {
    let mut t = ClientTracker::new();
    t.add_client(3, 0);
    t.add_client(4, 0);
    t.update_last_seen_tx(3, Some(42), 30);
    let c = t.get_client(3).unwrap();
    assert_eq!(c.last_seen_tx, Some(42));
    assert_eq!(c.last_heartbeat, 30);
    assert_eq!(c.connected_at, 0);
    let mut ids = t.get_clients_for_key("anything");
    ids.sort();
    assert_eq!(ids, vec![3, 4]);
    let all = t.get_all_clients();
    assert_eq!(all.len(), 2);
}

#[test]
fn tracker_cleanup_removes_only_stale() {
    let mut t = ClientTracker::new();
    t.add_client(1, 0);
    t.add_client(2, 90);
    t.add_client(3, 200);
    t.add_subscription(1, "s", "SELECT 1", vec![], 0);
    // at 100 with a timeout of 50: client 1 (100 ms) is stale, client 2 (10 ms) is not,
    // client 3 has a heartbeat after `now` and counts as 0 ms
    let removed = t.cleanup_stale_clients(50, 100);
    assert_eq!(removed, vec![1]);
    assert_eq!(t.client_count(), 2);
    assert_eq!(t.subscription_count(), 0);
    // exactly the timeout is not stale
    let removed = t.cleanup_stale_clients(10, 100);
    assert!(removed.is_empty());
    let removed = t.cleanup_stale_clients(9, 100);
    assert_eq!(removed, vec![2]);
}

use sabi::service::{
    execution_error_response, no_statement_response, parse_error_response, planning_error_response, select_rows,
};
use sabi::sql_exec::QueryResult;
use sabi::sql_types::Value;
use sabi::wire::{needs_replay, route_message, MessageType, Route};

#[test]
fn messages_are_routed_by_version_and_type() {
    assert!(matches!(route_message(1, MessageType::Hello), Route::Hello));
    assert!(matches!(route_message(1, MessageType::Subscribe), Route::Subscribe));
    assert!(matches!(route_message(1, MessageType::Unsubscribe), Route::Unsubscribe));
    match route_message(2, MessageType::Hello) {
        Route::Reject(e) => {
            assert_eq!(e.code, ErrorCode::Internal);
            assert_eq!(e.message, "Unsupported protocol version: 2");
            assert_eq!(e.details, Some("{\"supported_version\":1}".to_string()));
        },
        other => panic!("unexpected {:?}", other),
    }
    match route_message(1, MessageType::Query) {
        Route::Reject(e) => {
            assert_eq!(e.code, ErrorCode::SyntaxError);
            assert_eq!(e.message, "Unsupported message type: Query");
            assert_eq!(e.details, None);
        },
        other => panic!("unexpected {:?}", other),
    }
}

#[test]
fn replay_only_for_clients_behind() {
    assert!(needs_replay(Some(3), 5));
    assert!(!needs_replay(Some(5), 5));
    assert!(!needs_replay(None, 5));
}

#[test]
fn query_service_answers() {
    assert_eq!(parse_error_response("bad").message, "SQL parsing error: bad");
    assert_eq!(no_statement_response().message, "No SQL statement provided");
    assert_eq!(planning_error_response("x").code, ErrorCode::SyntaxError);
    let e = execution_error_response("boom");
    assert_eq!(e.code, ErrorCode::Internal);
    assert_eq!(e.message, "Query execution error: boom");

    let result = QueryResult::Select {
        columns: vec!["id".to_string(), "name".to_string()],
        rows: vec![
            vec![Value::Integer(1), Value::Text("a".to_string())],
            vec![Value::Integer(2)],
        ],
    };
    let rows = select_rows(result).unwrap();
    assert_eq!(rows.len(), 2);
    assert_eq!(rows[0].len(), 2);
    assert_eq!(rows[0][1].0, "name");
    assert!(rows[0][1].1 == Value::Text("a".to_string()));
    assert_eq!(rows[1].len(), 1);
    match select_rows(QueryResult::Commit) {
        Err(e) => assert_eq!(e.message, "Only SELECT queries are supported via HTTP"),
        Ok(_) => panic!("only SELECT is served"),
    }
}

fn new_client() -> u128 {
    uuid::Uuid::now_v7().as_u128()
}

#[test]
fn test_add_client() {
    let mut tracker = ClientTracker::new();
    let client_id = new_client();
    tracker.add_client(client_id, 0);
    assert_eq!(tracker.client_count(), 1);
    assert!(tracker.get_client(client_id).is_some());
}

#[test]
fn test_remove_client() {
    let mut tracker = ClientTracker::new();
    let client_id = new_client();
    tracker.add_client(client_id, 0);
    assert_eq!(tracker.client_count(), 1);
    tracker.remove_client(client_id);
    assert_eq!(tracker.client_count(), 0);
    assert!(tracker.get_client(client_id).is_none());
}

#[test]
fn test_multiple_clients() {
    let mut tracker = ClientTracker::new();
    let client1 = new_client();
    let client2 = new_client();
    let client3 = new_client();
    tracker.add_client(client1, 0);
    tracker.add_client(client2, 0);
    tracker.add_client(client3, 0);
    assert_eq!(tracker.client_count(), 3);
}

#[test]
fn test_update_last_seen_tx() {
    let mut tracker = ClientTracker::new();
    let client_id = new_client();
    tracker.add_client(client_id, 0);
    tracker.update_last_seen_tx(client_id, Some(100), 1);
    let state = tracker.get_client(client_id).expect("Client should exist");
    assert_eq!(state.last_seen_tx, Some(100));
}

#[test]
fn test_add_subscription() {
    let mut tracker = ClientTracker::new();
    let client_id = new_client();
    tracker.add_client(client_id, 0);
    tracker.add_subscription(client_id, "sub-123", "SELECT * FROM users", vec![], 1);
    assert_eq!(tracker.subscription_count(), 1);
    let state = tracker.get_client(client_id).expect("Client should exist");
    assert_eq!(state.subscriptions.len(), 1);
    assert!(state.subscriptions.contains_key("sub-123"));
}

#[test]
fn test_multiple_subscriptions() {
    let mut tracker = ClientTracker::new();
    let client_id = new_client();
    tracker.add_client(client_id, 0);
    tracker.add_subscription(client_id, "sub-1", "SELECT 1", vec![], 1);
    tracker.add_subscription(client_id, "sub-2", "SELECT 2", vec![], 2);
    tracker.add_subscription(client_id, "sub-3", "SELECT 3", vec![], 3);
    assert_eq!(tracker.subscription_count(), 3);
    let state = tracker.get_client(client_id).expect("Client should exist");
    assert_eq!(state.subscriptions.len(), 3);
}

#[test]
fn test_remove_subscription() {
    let mut tracker = ClientTracker::new();
    let client_id = new_client();
    tracker.add_client(client_id, 0);
    tracker.add_subscription(client_id, "sub-123", "SELECT * FROM users", vec![], 1);
    assert_eq!(tracker.subscription_count(), 1);
    tracker.remove_subscription(client_id, "sub-123", 2);
    assert_eq!(tracker.subscription_count(), 0);
    let state = tracker.get_client(client_id).expect("Client should exist");
    assert!(state.subscriptions.is_empty());
}

#[test]
fn test_remove_client_removes_subscriptions() {
    let mut tracker = ClientTracker::new();
    let client_id = new_client();
    tracker.add_client(client_id, 0);
    tracker.add_subscription(client_id, "sub-1", "SELECT 1", vec![], 1);
    tracker.add_subscription(client_id, "sub-2", "SELECT 2", vec![], 2);
    assert_eq!(tracker.subscription_count(), 2);
    tracker.remove_client(client_id);
    assert_eq!(tracker.subscription_count(), 0);
    assert_eq!(tracker.client_count(), 0);
}

#[test]
fn test_shared_subscription_cleanup() {
    let mut tracker = ClientTracker::new();
    let client1 = new_client();
    let client2 = new_client();
    tracker.add_client(client1, 0);
    tracker.add_client(client2, 0);
    tracker.add_subscription(client1, "shared-sub", "SELECT 1", vec![], 1);
    tracker.add_subscription(client2, "shared-sub", "SELECT 1", vec![], 1);
    assert_eq!(tracker.subscription_count(), 1);
    tracker.remove_client(client1);
    assert_eq!(tracker.subscription_count(), 1);
    tracker.remove_client(client2);
    assert_eq!(tracker.subscription_count(), 0);
}

#[test]
fn test_get_all_clients() {
    let mut tracker = ClientTracker::new();
    let client1 = new_client();
    let client2 = new_client();
    tracker.add_client(client1, 0);
    tracker.add_client(client2, 0);
    let clients = tracker.get_all_clients();
    assert_eq!(clients.len(), 2);
    let client_ids: Vec<u128> = clients.iter().map(|c| c.client_id).collect();
    assert!(client_ids.contains(&client1));
    assert!(client_ids.contains(&client2));
}

#[test]
fn test_get_clients_for_key() {
    let mut tracker = ClientTracker::new();
    let client1 = new_client();
    let client2 = new_client();
    tracker.add_client(client1, 0);
    tracker.add_client(client2, 0);
    let clients = tracker.get_clients_for_key("users:1");
    assert_eq!(clients.len(), 2);
}

#[test]
fn test_cleanup_stale_clients() {
    let mut tracker = ClientTracker::new();
    let client_id = new_client();
    tracker.add_client(client_id, 0);
    // 100 ms later, with a 50 ms timeout
    let stale = tracker.cleanup_stale_clients(50, 100);
    assert_eq!(stale.len(), 1);
    assert_eq!(stale[0], client_id);
    assert_eq!(tracker.client_count(), 0);
}

#[test]
fn test_cleanup_keeps_active_clients() {
    let mut tracker = ClientTracker::new();
    let client_id = new_client();
    tracker.add_client(client_id, 0);
    let stale = tracker.cleanup_stale_clients(60_000, 0);
    assert!(stale.is_empty());
    assert_eq!(tracker.client_count(), 1);
}

#[test]
fn test_client_state_fields() {
    let mut tracker = ClientTracker::new();
    let client_id = new_client();
    tracker.add_client(client_id, 0);
    let state = tracker.get_client(client_id).expect("Client should exist");
    assert_eq!(state.client_id, client_id);
    assert!(state.last_seen_tx.is_none());
    assert!(state.subscriptions.is_empty());
}

#[test]
fn test_subscription_info_fields() {
    let mut tracker = ClientTracker::new();
    let client_id = new_client();
    tracker.add_client(client_id, 0);
    tracker.add_subscription(client_id, "sub-test", "SELECT * FROM events", vec!["true".to_string()], 1);
    let state = tracker.get_client(client_id).expect("Client should exist");
    let sub_info = state.subscriptions.get("sub-test").expect("Sub should exist");
    assert_eq!(sub_info.query, "SELECT * FROM events");
    assert_eq!(sub_info.args.len(), 1);
    assert!(sub_info.last_update_tx.is_none());
}

#[test]
fn test_update_nonexistent_client() {
    let mut tracker = ClientTracker::new();
    let fake_client = new_client();
    tracker.update_last_seen_tx(fake_client, Some(100), 1);
    assert_eq!(tracker.client_count(), 0);
}

#[test]
fn test_remove_nonexistent_client() {
    let mut tracker = ClientTracker::new();
    let fake_client = new_client();
    tracker.remove_client(fake_client);
    assert_eq!(tracker.client_count(), 0);
}
