use rika::providers::ChatMessage;
use rika::session::{encode_session_line, validate_session_id, SessionIndex, SessionManager, SessionRecord};

fn empty_index() -> SessionIndex {
    SessionIndex { version: 1, current_session_id: String::new(), sessions: vec![] }
}

fn record(id: &str, updated_at: &str) -> SessionRecord {
    SessionRecord {
        id: id.to_string(),
        display_name: id.to_string(),
        created_at: updated_at.to_string(),
        updated_at: updated_at.to_string(),
        message_count: 0,
    }
}

const A: &str = "00000000-0000-4000-8000-00000000000a";
const B: &str = "00000000-0000-4000-8000-00000000000b";

#[test]
fn creates_default_session_on_empty_index() {
    let manager = SessionManager::new("/ws", empty_index()).ok().unwrap();
    let sessions = manager.list_sessions();
    assert_eq!(sessions.len(), 1);
    assert_eq!(manager.current_session_id(), sessions[0].id);
    assert!(uuid::Uuid::parse_str(&sessions[0].id).is_ok());
    assert_eq!(manager.sessions_dir_path(), "/ws/sessions");
    assert_eq!(manager.index_path(), "/ws/sessions/sessions.json");
}

#[test]
fn rename_switch_clear_and_delete_fallback_behavior() {
    let mut manager = SessionManager::new("/ws", empty_index()).ok().unwrap();
    let s1 = manager.current_session_id().to_string();

    let s2 = manager.create_session(Some("work thread"));
    assert_eq!(manager.current_session_id(), s2.id);
    assert_eq!(s2.display_name, "work thread");

    let renamed = manager.rename_session(&s2.id, "renamed thread").ok().expect("rename");
    assert_eq!(renamed.display_name, "renamed thread");
    let fetched = manager.get_session(&s2.id).expect("get session");
    assert_eq!(fetched.display_name, "renamed thread");

    manager
        .append_messages(&s2.id, &vec![ChatMessage::user("x"), ChatMessage::assistant("y")])
        .ok()
        .expect("append");
    assert_eq!(manager.get_session(&s2.id).unwrap().message_count, 2);

    manager.switch_session(&s1).ok().expect("switch");
    assert_eq!(manager.current_session_id(), s1);
    manager.switch_session(&s2.id).ok().expect("switch back");

    let (cleared, history) = manager.clear_current_session().ok().expect("clear");
    assert_eq!(cleared.display_name, "renamed thread");
    assert_eq!(cleared.message_count, 0);
    assert!(history.is_empty());

    let deleted = manager.delete_session(&s2.id).ok().expect("delete");
    assert_eq!(deleted.deleted_session_id, s2.id);
    assert_eq!(deleted.current_session_id, s1);
    assert_eq!(manager.current_session_id(), s1);
}

#[test]
fn deleting_last_session_creates_a_new_one() {
    let mut manager = SessionManager::new("/ws", empty_index()).ok().unwrap();
    let only = manager.current_session_id().to_string();
    let deleted = manager.delete_session(&only).ok().unwrap();
    assert_ne!(deleted.current_session_id, only);
    assert_eq!(manager.list_sessions().len(), 1);
}

#[test]
fn invalid_and_unknown_ids_are_refused() {
    let mut manager = SessionManager::new("/ws", empty_index()).ok().unwrap();
    let err = manager.switch_session("../etc").err().unwrap();
    assert!(err.message.contains("invalid session_id"));
    let err = manager.switch_session(B).err().unwrap();
    assert!(err.message.contains("not found"));
    assert!(validate_session_id(A).is_ok());
    assert!(validate_session_id("nope").is_err());
}

#[test]
fn sessions_are_listed_most_recent_first() {
    let index = SessionIndex {
        version: 1,
        current_session_id: A.to_string(),
        sessions: vec![record(A, "2024-01-01T00:00:00Z"), record(B, "2024-06-01T00:00:00Z")],
    };
    let manager = SessionManager::new("/ws", index).ok().unwrap();
    let listed = manager.list_sessions();
    assert_eq!(listed[0].id, B);
    assert_eq!(listed[1].id, A);
    assert_eq!(manager.current_session_id(), A);
}

#[test]
fn reload_from_disk_observes_external_session_updates() {
    let mut manager = SessionManager::new("/ws", empty_index()).ok().unwrap();
    let index = SessionIndex {
        version: 1,
        current_session_id: B.to_string(),
        sessions: vec![record(A, "2024-01-01T00:00:00Z"), record(B, "2024-01-02T00:00:00Z")],
    };
    manager.reload_from_disk(index).ok().unwrap();
    assert_eq!(manager.current_session_id(), B);
    assert_eq!(manager.list_sessions().len(), 2);
}

#[test]
fn history_is_read_back_and_counted() {
    let mut manager = SessionManager::new("/ws", empty_index()).ok().unwrap();
    let sid = manager.current_session_id().to_string();
    let a = rika::session::encode_session_line(&ChatMessage::user("x\"y"), "2024-01-01T00:00:00Z");
    let b = rika::session::encode_session_line(&ChatMessage::assistant("z"), "2024-01-01T00:00:01Z");
    assert_eq!(a, "{\"role\":\"user\",\"content\":\"x\\\"y\",\"timestamp\":\"2024-01-01T00:00:00Z\"}\n");
    let text = format!("{}\n{}", a, b);
    let (history, action) = manager.load_history(&sid, Some(&text)).ok().unwrap();
    assert!(action == rika::session::HistoryFile::Keep);
    assert_eq!(history.len(), 2);
    assert_eq!(history[0].content, "x\"y");
    assert_eq!(manager.get_session(&sid).unwrap().message_count, 2);
}

#[test]
fn malformed_index_or_history_recovers_with_empty_files() {
    let mut manager = SessionManager::new("/ws", empty_index()).ok().unwrap();
    let sid = manager.current_session_id().to_string();
    let (history, action) = manager.load_history(&sid, Some("{\"role\":\"user\"")).ok().unwrap();
    assert!(history.is_empty());
    assert!(action == rika::session::HistoryFile::Truncate);
    let (history, action) = manager.load_history(&sid, None).ok().unwrap();
    assert!(history.is_empty());
    assert!(action == rika::session::HistoryFile::Create);
}

#[test]
fn missing_current_session_is_replaced_by_a_listed_one() {
    let index = SessionIndex {
        version: 1,
        current_session_id: B.to_string(),
        sessions: vec![record(A, "2024-01-01T00:00:00Z")],
    };
    let manager = SessionManager::new("/ws", index).ok().unwrap();
    let listed = manager.list_sessions();
    assert_eq!(listed.len(), 2);
    let current = manager.current_session_id();
    assert_ne!(current, B);
    assert!(listed.iter().any(|r| r.id == current));
}

#[test]
fn append_and_load_history_roundtrips_and_updates_count() {
    let mut manager = SessionManager::new("/ws", empty_index()).ok().unwrap();
    let sid = manager.current_session_id().to_string();
    let to_append = vec![
        ChatMessage::user("hello"),
        ChatMessage::assistant("hi"),
        ChatMessage::tool("{\"tool_call_id\":\"1\",\"content\":\"ok\"}"),
    ];
    assert!(manager.append_messages(&sid, &to_append).is_ok());
    let file: String =
        to_append.iter().map(|m| encode_session_line(m, "2024-01-01T00:00:00Z")).collect();
    let (history, _) = manager.load_history(&sid, Some(&file)).ok().unwrap();
    assert_eq!(history.len(), 3);
    assert_eq!(history[0].role, "user");
    assert_eq!(history[1].role, "assistant");
    assert_eq!(history[2].role, "tool");
    let record = manager.list_sessions().into_iter().find(|s| s.id == sid).unwrap();
    assert_eq!(record.message_count, 3);
}

#[test]
fn lookup_agrees_with_listing() {
    let index = SessionIndex {
        version: 1,
        current_session_id: A.to_string(),
        sessions: vec![record(A, "2024-01-01T00:00:00Z"), record(B, "2024-06-01T00:00:00Z")],
    };
    let manager = SessionManager::new("/ws", index).ok().unwrap();
    for id in [A, B] {
        let got = manager.get_session(id).unwrap();
        let listed = manager.list_sessions().into_iter().find(|r| r.id == id).unwrap();
        assert_eq!(got.updated_at, listed.updated_at);
        assert_eq!(got.display_name, listed.display_name);
    }
    assert!(manager.get_session("00000000-0000-4000-8000-00000000000c").is_none());
}
