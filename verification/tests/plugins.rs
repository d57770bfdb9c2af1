use hank::events_ping::{self, fibonacci_reccursive};
use hank::events_pong;
use hank::plugin_wordle::{db_reply, WordleAction};
use hank::transport::{HankEvent, Message, PluginResult};
use hank::{plugin_ping, plugin_wordle};

fn msg(channel: &str, content: &str) -> Message {
    Message { channel_id: channel.to_string(), content: content.to_string() }
}

fn event(name: &str) -> HankEvent {
    HankEvent { name: name.to_string(), payload: String::new() }
}

#[test]
fn ping_metadata() {
    match plugin_ping::get_metadata() {
        PluginResult::GetMetadata(m) => {
            assert_eq!(m.name, "ping");
            assert_eq!(m.description, "A simple plugin that just responds with Pong! when you type !ping");
            assert_eq!(m.version, semver::Version::new(0, 1, 0));
            assert!(m.database);
        },
        other => panic!("unexpected {:?}", other),
    }
}

#[test]
fn wordle_metadata() {
    match plugin_wordle::get_metadata() {
        PluginResult::GetMetadata(m) => {
            assert_eq!(m.name, "wordle");
            assert_eq!(m.description, "A wordle plugin to record daily Wordle puzzles.");
            assert_eq!(m.version, semver::Version::new(0, 1, 0));
            assert!(m.database);
        },
        other => panic!("unexpected {:?}", other),
    }
}

#[test]
fn ping_answers_ping_only() {
    assert_eq!(plugin_ping::handle_message(msg("42", "!ping")), Some(msg("42", "Pong!")));
    assert_eq!(plugin_ping::handle_message(msg("42", "!ping ")), None);
    assert_eq!(plugin_ping::handle_message(msg("42", "!pong")), None);
}

#[test]
fn wordle_records_results() {
    let m = msg("7", "Wordle 10 2/6\n\u{1f7e8}\u{1f7e9}\n\u{1f7e9}\u{1f7e9}");
    match plugin_wordle::handle_message(&m) {
        WordleAction::Record { reply, query } => {
            assert_eq!(reply.channel_id, "7");
            assert_eq!(reply.content, "Puzzle { day_offset: 10, attempts: 2, solved: true, hard_mode: false, board: [[Yellow, Green], [Green, Green]] }");
            assert_eq!(query, "SELECT 'hello world'");
        },
        _ => panic!("expected a record"),
    }
    assert!(matches!(plugin_wordle::handle_message(&msg("7", "good morning")), WordleAction::Ignore));
    assert!(matches!(plugin_wordle::handle_message(&msg("7", "Wordle 10 2/6\nnope")), WordleAction::Unreadable));
}

#[test]
fn wordle_db_reply_quotes_the_answer() {
    let r = db_reply(&msg("7", "x"), "hello \"world\"\n");
    assert_eq!(r.channel_id, "7");
    assert_eq!(r.content, format!("db result: {:?}", "hello \"world\"\n"));
    assert_eq!(r.content, "db result: \"hello \\\"world\\\"\\n\"");
}

#[test]
fn fibonacci_values() {
    let expected = [1u64, 1, 2, 3, 5, 8, 13, 21, 34, 55];
    for (i, e) in expected.iter().enumerate() {
        assert_eq!(fibonacci_reccursive(i as i32 + 1), *e);
    }
    assert_eq!(fibonacci_reccursive(30), 832040);
}

#[test]
fn event_plugins_subscribe_to_new_messages() {
    match events_ping::init() {
        events_ping::PluginResult::Init(e) => assert_eq!(e.0, vec!["MessageCreate".to_string()]),
        other => panic!("unexpected {:?}", other),
    }
    match events_pong::init() {
        events_pong::PluginResult::Init(e) => assert_eq!(e.0, vec!["MessageCreate".to_string()]),
        other => panic!("unexpected {:?}", other),
    }
}

#[test]
fn ping_event_plugin() {
    let e = event("MessageCreate");
    assert_eq!(events_ping::handle_event(&e, Some(msg("3", "!ping"))), Some(msg("3", "Pong!")));
    assert_eq!(events_ping::handle_event(&e, Some(msg("3", "!pong"))), None);
    assert_eq!(events_ping::handle_event(&event("Ready"), None), None);
    assert_eq!(events_ping::handle_event(&event("Ready"), Some(msg("3", "!ping"))), None);
}

#[test]
fn pong_event_plugin() {
    let e = event("MessageCreate");
    match events_pong::handle_event(&e, Some(msg("3", "!pong"))) {
        events_pong::PluginResult::HandleEventResult(r) => assert_eq!(r, Some(msg("3", "Ping!"))),
        other => panic!("unexpected {:?}", other),
    }
    match events_pong::handle_event(&e, Some(msg("3", "!ping"))) {
        events_pong::PluginResult::HandleEventResult(r) => assert_eq!(r, None),
        other => panic!("unexpected {:?}", other),
    }
    match events_pong::handle_event(&event("TypingStart"), None) {
        events_pong::PluginResult::HandleEventResult(r) => assert_eq!(r, None),
        other => panic!("unexpected {:?}", other),
    }
}
