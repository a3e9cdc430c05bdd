use codex_frontend::config::from_doc;
use codex_frontend::config::default_overrides;
use codex_frontend::config::Config;
use codex_frontend::errors::BridgeError;
use codex_frontend::facade::compose_input;
use codex_frontend::facade::run_session;
use codex_frontend::facade::send_message;
use codex_frontend::facade::start_conversation;
use codex_frontend::ids::parse_session_id;
use codex_frontend::ids::session_id_text;
use codex_frontend::pump::pump_events;
use codex_frontend::pump::EventSink;
use codex_frontend::session::ConversationHandle;
use codex_frontend::session::Event;
use codex_frontend::session::InputItem;
use codex_frontend::session::Operation;
use codex_frontend::session::SessionRegistry;
use codex_frontend::settings::SettingsDoc;
use codex_frontend::settings::SettingsValue;

fn default_config() -> Config {
    from_doc(&SettingsDoc::new(), &default_overrides()).unwrap()
}

fn delta(s: &str) -> Event {
    Event::AgentMessageDelta { delta: s.to_string() }
}

fn message(s: &str) -> Event {
    Event::AgentMessage { message: s.to_string() }
}

fn user_text_op(s: &str) -> Operation {
    Operation::UserInput { items: vec![InputItem::Text { text: s.to_string() }] }
}

#[test]
fn create_then_lookup_returns_matching_handle() {
    let mut reg = SessionRegistry::new();
    let h = ConversationHandle::new(7, default_config(), Vec::new());
    assert!(reg.insert(h).is_ok());
    let found = reg.lookup(7).unwrap();
    assert_eq!(found.id, 7);
}

#[test]
fn start_conversation_then_lookup_by_returned_identifier() {
    let mut reg = SessionRegistry::new();
    let doc = SettingsDoc::new();
    let id_text = start_conversation(&mut reg, &doc).unwrap();
    let id = parse_session_id(&id_text).unwrap();
    let found = reg.lookup(id).unwrap();
    assert_eq!(found.id, id);
    assert!(!found.closed);
}

#[test]
fn lookup_of_unknown_identifier_fails() {
    let reg = SessionRegistry::new();
    assert!(matches!(reg.lookup(42), Err(BridgeError::UnknownSessionError)));
    let mut reg2 = SessionRegistry::new();
    let h = ConversationHandle::new(1, default_config(), Vec::new());
    reg2.insert(h).unwrap();
    assert!(matches!(reg2.lookup(2), Err(BridgeError::UnknownSessionError)));
}

#[test]
fn duplicate_identifier_is_rejected_not_overwritten() {
    let mut reg = SessionRegistry::new();
    let h1 = ConversationHandle::new(5, default_config(), Vec::new());
    let h2 = ConversationHandle::new(5, default_config(), vec![Event::TaskComplete]);
    reg.insert(h1).unwrap();
    assert!(matches!(reg.insert(h2), Err(BridgeError::EngineStartupError)));
    assert_eq!(reg.sessions.len(), 1);
    assert_eq!(reg.sessions[0].inbox.len(), 0);
}

#[test]
fn submit_to_terminated_session_fails() {
    let mut reg = SessionRegistry::new();
    let mut h = ConversationHandle::new(9, default_config(), Vec::new());
    h.close();
    reg.insert(h).unwrap();
    let r = reg.submit_to(9, user_text_op("hello"));
    assert!(matches!(r, Err(BridgeError::SubmissionError)));
    assert_eq!(reg.sessions[0].outbox.len(), 0);
}

#[test]
fn pump_forwards_payloads_in_production_order() {
    let script = vec![
        delta("a"),
        Event::Other,
        delta("b"),
        message("ab"),
        Event::TaskComplete,
        delta("never"),
    ];
    let mut h = ConversationHandle::new(1, default_config(), script);
    let mut sink = EventSink::new();
    let r = pump_events(&mut h, &mut sink);
    assert!(r.is_ok());
    assert_eq!(sink.received, vec!["a".to_string(), "b".to_string(), "ab".to_string()]);
    // the loop stopped at the completion event: the event after it was
    // never fetched
    assert_eq!(h.cursor, 5);
}

#[test]
fn pump_stops_at_rejected_forward() {
    let script = vec![delta("a"), delta("b"), delta("c"), Event::TaskComplete];
    let mut h = ConversationHandle::new(1, default_config(), script);
    let mut sink = EventSink::with_limit(2);
    let r = pump_events(&mut h, &mut sink);
    assert!(matches!(r, Err(BridgeError::SinkError)));
    assert_eq!(sink.received, vec!["a".to_string(), "b".to_string()]);
    // the third event triggered the rejected forward; nothing past it
    // was fetched
    assert_eq!(h.cursor, 3);
}

#[test]
fn pump_reports_closed_stream_without_completion() {
    let script = vec![delta("a")];
    let mut h = ConversationHandle::new(1, default_config(), script);
    let mut sink = EventSink::new();
    let r = pump_events(&mut h, &mut sink);
    assert!(matches!(r, Err(BridgeError::StreamClosedError)));
    assert_eq!(sink.received, vec!["a".to_string()]);
}

#[test]
fn next_event_returns_delivered_events_then_closes() {
    let mut h = ConversationHandle::new(3, default_config(), Vec::new());
    h.deliver(delta("x"));
    match h.next_event().unwrap() {
        Event::AgentMessageDelta { delta } => assert_eq!(delta, "x"),
        _ => panic!("wrong event kind"),
    }
    assert!(matches!(h.next_event(), Err(BridgeError::StreamClosedError)));
}

#[test]
fn run_session_emits_fragments_then_completes() {
    let mut reg = SessionRegistry::new();
    let doc = SettingsDoc::new();
    let script = vec![delta("he"), delta("llo"), Event::TaskComplete];
    let mut sink = EventSink::new();
    let r = run_session(&mut reg, &doc, "hello".to_string(), None, script, &mut sink);
    assert!(r.is_ok());
    assert_eq!(sink.received, vec!["he".to_string(), "llo".to_string()]);
    assert_eq!(reg.sessions.len(), 1);
    assert_eq!(reg.sessions[0].outbox.len(), 1);
    match &reg.sessions[0].outbox[0] {
        Operation::UserInput { items } => match &items[0] {
            InputItem::Text { text } => assert_eq!(text, "hello"),
        },
    }
}

#[test]
fn run_session_prepends_nonempty_context() {
    let mut reg = SessionRegistry::new();
    let doc = SettingsDoc::new();
    let script = vec![Event::TaskComplete];
    let mut sink = EventSink::new();
    let r = run_session(
        &mut reg,
        &doc,
        "question".to_string(),
        Some("context".to_string()),
        script,
        &mut sink,
    );
    assert!(r.is_ok());
    match &reg.sessions[0].outbox[0] {
        Operation::UserInput { items } => match &items[0] {
            InputItem::Text { text } => assert_eq!(text, "context\nquestion"),
        },
    }
}

#[test]
fn compose_input_rules() {
    assert_eq!(compose_input(&None, "hi".to_string()), "hi");
    assert_eq!(compose_input(&Some("".to_string()), "hi".to_string()), "hi");
    assert_eq!(compose_input(&Some("ctx".to_string()), "hi".to_string()), "ctx\nhi");
}

#[test]
fn send_message_with_malformed_identifier_fails_before_lookup() {
    let mut reg = SessionRegistry::new();
    let h = ConversationHandle::new(11, default_config(), Vec::new());
    reg.insert(h).unwrap();
    let r = send_message(&mut reg, "not-a-uuid", "hello".to_string());
    assert!(matches!(r, Err(BridgeError::IdentifierParseError)));
    assert_eq!(reg.sessions[0].outbox.len(), 0);
}

#[test]
fn send_message_with_unknown_identifier_fails() {
    let mut reg = SessionRegistry::new();
    let r = send_message(
        &mut reg,
        "00000000-0000-0000-0000-000000000000",
        "hello".to_string(),
    );
    assert!(matches!(r, Err(BridgeError::UnknownSessionError)));
}

#[test]
fn send_message_reaches_started_session() {
    let mut reg = SessionRegistry::new();
    let doc = SettingsDoc::new();
    let id_text = start_conversation(&mut reg, &doc).unwrap();
    let r = send_message(&mut reg, &id_text, "hello there".to_string());
    assert!(r.is_ok());
    assert_eq!(reg.sessions.len(), 1);
    assert_eq!(reg.sessions[0].outbox.len(), 1);
    match &reg.sessions[0].outbox[0] {
        Operation::UserInput { items } => {
            assert_eq!(items.len(), 1);
            match &items[0] {
                InputItem::Text { text } => assert_eq!(text, "hello there"),
            }
        }
    }
}

#[test]
fn identifier_text_parses_back_to_the_same_value() {
    let id: u128 = 0x0123456789abcdef0123456789abcdef;
    let text = session_id_text(id);
    // the canonical text form is not the raw value: it is hyphenated hex
    assert_eq!(text.len(), 36);
    assert_eq!(parse_session_id(&text), Some(id));
    assert_eq!(parse_session_id(""), None);
}

#[test]
fn start_conversation_rejects_wrongly_kinded_settings() {
    let mut reg = SessionRegistry::new();
    let mut doc = SettingsDoc::new();
    doc.set("model".to_string(), SettingsValue::Flag(true));
    let r = start_conversation(&mut reg, &doc);
    assert!(matches!(r, Err(BridgeError::ConfigurationError)));
    assert_eq!(reg.sessions.len(), 0);
}
