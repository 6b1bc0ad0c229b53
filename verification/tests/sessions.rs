use castcodes::sessions::{
    auth_header, endpoint_url, remove_session, upsert_session, ws_endpoint_url, CovenSession,
    MessageChunk, SessionStatus,
};
use std::path::PathBuf;

fn session(id: &str, name: &str, status: SessionStatus) -> CovenSession {
    CovenSession { id: id.to_string(), name: name.to_string(), status, last_active: None, cwd: None }
}

fn ids(cache: &[CovenSession]) -> Vec<String> {
    cache.iter().map(|s| s.id.clone()).collect()
}

#[test]
fn opening_a_new_session_appends_it() {
    let mut cache = vec![session("a", "one", SessionStatus::Active)];
    upsert_session(&mut cache, session("b", "two", SessionStatus::Idle));
    assert_eq!(ids(&cache), vec!["a", "b"]);
    assert_eq!(cache[1].status, SessionStatus::Idle);
}

#[test]
fn reopening_a_session_replaces_it_in_place() {
    let mut cache = vec![session("a", "one", SessionStatus::Active), session("b", "two", SessionStatus::Idle)];
    let mut again = session("a", "renamed", SessionStatus::Idle);
    again.cwd = Some(PathBuf::from("/work"));
    upsert_session(&mut cache, again);
    assert_eq!(ids(&cache), vec!["a", "b"]);
    assert_eq!(cache[0].name, "renamed");
    assert_eq!(cache[0].cwd, Some(PathBuf::from("/work")));
}

#[test]
fn closing_removes_every_entry_with_the_id() {
    let mut cache = vec![
        session("a", "one", SessionStatus::Active),
        session("b", "two", SessionStatus::Idle),
        session("a", "dup", SessionStatus::Closed),
    ];
    remove_session(&mut cache, "a");
    assert_eq!(ids(&cache), vec!["b"]);
    remove_session(&mut cache, "missing");
    assert_eq!(ids(&cache), vec!["b"]);
}

#[test]
fn close_undoes_open_of_a_new_session() {
    let mut cache = vec![session("a", "one", SessionStatus::Active)];
    upsert_session(&mut cache, session("n", "new", SessionStatus::Active));
    remove_session(&mut cache, "n");
    assert_eq!(ids(&cache), vec!["a"]);
}

#[test]
fn endpoint_addresses() {
    assert_eq!(endpoint_url("http://localhost:7777/", "/v1/sessions"), "http://localhost:7777/v1/sessions");
    assert_eq!(endpoint_url("http://h//", "/health"), "http://h/health");
    assert_eq!(ws_endpoint_url("https://gw.example/", "/v1/messages/stream"), "wss://gw.example/v1/messages/stream");
    assert_eq!(ws_endpoint_url("http://127.0.0.1:7777", "/s"), "ws://127.0.0.1:7777/s");
    assert_eq!(ws_endpoint_url("wss://already", "/s"), "wss://already/s");
    assert_eq!(ws_endpoint_url("gateway.local", "/s"), "ws://gateway.local/s");
}

#[test]
fn bearer_authorization_header() {
    assert_eq!(auth_header(Some("tok")), Some(("Authorization", "Bearer tok".to_string())));
    assert_eq!(auth_header(None), None);
}

#[test]
fn message_chunks_compare_by_value() {
    let a = MessageChunk::Delta { conversation_id: "c".to_string(), content: "hi".to_string() };
    assert_eq!(a.clone(), a);
    assert_ne!(a, MessageChunk::Done { conversation_id: "c".to_string() });
}
