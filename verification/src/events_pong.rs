//! The event-driven pong plugin: answers `!pong` with `Ping!`.
use crate::events_ping::MESSAGE_CREATE;
use crate::text::str_eq;
use crate::transport::{HankEvent, Message, SubscribedEvents};
use vstd::prelude::*;

verus! {

/// The plugin's answers to the host.
#[derive(Debug)]
pub enum PluginResult {
    Init(SubscribedEvents),
    HandleEventResult(Option<Message>),
}

/// The events the plugin subscribes to: new messages.
pub fn init() -> (r: PluginResult)
    ensures
        r matches PluginResult::Init(events) && events.names() == seq![MESSAGE_CREATE@],
{
    let mut names: Vec<String> = Vec::new();
    names.push(MESSAGE_CREATE.to_owned());
    let events = SubscribedEvents(names);
    assert(events.names() =~= seq![MESSAGE_CREATE@]);
    PluginResult::Init(events)
}

/// The plugin's answer to `event`: `Ping!` to the same channel when the event
/// is a new message reading exactly `!pong`; no message otherwise. `payload`
/// is the event's payload read as a message, which the host hands over for
/// every new-message event.
pub fn handle_event(event: &HankEvent, payload: Option<Message>) -> (r: PluginResult)
    requires
        event.name@ == MESSAGE_CREATE@ ==> payload is Some,
    ensures
        r matches PluginResult::HandleEventResult(reply) && {
            &&& reply is Some <==> event.name@ == MESSAGE_CREATE@ && payload->0.content@ == "!pong"@
            &&& reply matches Some(m) ==> m.channel_id@ == payload->0.channel_id@ && m.content@ == "Ping!"@
        },
{
    if str_eq(event.name.as_str(), MESSAGE_CREATE) {
        match payload {
            Some(p) => {
                if str_eq(p.content.as_str(), "!pong") {
                    let message = Message { channel_id: p.channel_id, content: "Ping!".to_owned() };
                    return PluginResult::HandleEventResult(Some(message));
                }
            },
            None => {},
        }
    }
    PluginResult::HandleEventResult(None)
}

} // verus!
