//! The ping plugin: answers `!ping` with `Pong!`.
use crate::text::str_eq;
use crate::transport::{semver_version, version_new, Message, PluginMetadata, PluginResult};
use vstd::prelude::*;

verus! {

/// What the ping plugin says about itself: its name `ping`, its description,
/// version 0.1.0, and that it wants a database.
pub fn get_metadata() -> (r: PluginResult)
    ensures
        r matches PluginResult::GetMetadata(m) && {
            &&& m.name@ == "ping"@
            &&& m.description@ == "A simple plugin that just responds with Pong! when you type !ping"@
            &&& m.version == semver_version(0, 1, 0)
            &&& m.database
        },
{
    let metadata = PluginMetadata::new(
        "ping",
        "A simple plugin that just responds with Pong! when you type !ping",
        version_new(0, 1, 0),
        true,
    );
    PluginResult::GetMetadata(metadata)
}

/// The message the ping plugin sends back for `message`: `Pong!` to the same
/// channel when the message reads exactly `!ping`, nothing otherwise. The
/// plugin answers the host `PluginResult::Nothing` either way.
pub fn handle_message(message: Message) -> (r: Option<Message>)
    ensures
        r is Some <==> message.content@ == "!ping"@,
        r matches Some(m) ==> m.channel_id@ == message.channel_id@ && m.content@ == "Pong!"@,
{
    if str_eq(message.content.as_str(), "!ping") {
        Some(message.response("Pong!"))
    } else {
        None
    }
}

} // verus!
