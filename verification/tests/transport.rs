use hank::transport::{Message, PluginCommand, PluginMetadata, PluginResult};

fn msg(channel: &str, content: &str) -> Message {
    Message { channel_id: channel.to_string(), content: content.to_string() }
}

#[test]
fn response_keeps_channel_and_replaces_content() {
    let m = msg("1234", "!ping");
    let r = m.response("Pong!");
    assert_eq!(r.channel_id, "1234");
    assert_eq!(r.content, "Pong!");
}

#[test]
fn response_with_empty_content() {
    let r = msg("9", "hello").response("");
    assert_eq!(r, msg("9", ""));
}

#[test]
fn command_names_are_plugin_functions() {
    assert_eq!(PluginCommand::GetMetadata.name(), "get_metadata");
    assert_eq!(PluginCommand::HandleMessage(msg("1", "x")).name(), "handle_message");
}

#[test]
fn is_none_only_for_nothing() {
    assert!(PluginResult::Nothing.is_none());
    assert!(!PluginResult::FunctionNotFound.is_none());
    let meta = PluginMetadata::new("a", "b", semver::Version::new(1, 2, 3), false);
    assert!(!PluginResult::GetMetadata(meta).is_none());
}

#[test]
fn metadata_keeps_its_fields() {
    let meta = PluginMetadata::new("ping", "a plugin", semver::Version::new(0, 1, 0), true);
    assert_eq!(meta.name, "ping");
    assert_eq!(meta.description, "a plugin");
    assert_eq!(meta.version, semver::Version::new(0, 1, 0));
    assert!(meta.database);
}
