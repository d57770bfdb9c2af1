//! The event-driven ping plugin: answers `!ping` with `Pong!`. Before it
//! answers, the plugin computes (and logs) `fibonacci_reccursive(44)` as a
//! deliberately slow piece of work; the answer does not depend on it.
use crate::text::str_eq;
use crate::transport::{HankEvent, Message, SubscribedEvents};
use vstd::prelude::*;

verus! {

/// The name of the event that a new chat message raises.
pub const MESSAGE_CREATE: &'static str = "MessageCreate";

/// The plugin's answers to the host.
#[derive(Debug)]
pub enum PluginResult {
    Init(SubscribedEvents),
    HandleEventResult,
}

/// The Fibonacci numbers, counted from `fib(1) == fib(2) == 1`.
pub open spec fn fib(n: nat) -> nat
    decreases n,
{
    if n <= 2 {
        1
    } else {
        fib((n - 1) as nat) + fib((n - 2) as nat)
    }
}

/// The `n`th Fibonacci number, computed by the plain double recursion. There
/// is no Fibonacci number below the first: the plugin stops there.
pub fn fibonacci_reccursive(n: i32) -> (r: u64)
    requires
        n >= 1,
        fib(n as nat) <= u64::MAX,
    ensures
        r == fib(n as nat),
    decreases n,
{
    match n {
        1 | 2 => 1,
        3 => 2,
        _ => fibonacci_reccursive(n - 1) + fibonacci_reccursive(n - 2),
    }
}

/// The events the plugin subscribes to: new messages.
pub fn init() -> (r: PluginResult)
    ensures
        r matches PluginResult::Init(events) && events.names() == seq![MESSAGE_CREATE@],
{
    let mut names: Vec<String> = Vec::new();
    names.push(MESSAGE_CREATE.to_owned());
    let events = SubscribedEvents(names);
    assert(events.names() =~= seq![MESSAGE_CREATE@]);
    PluginResult::Init(events)
}

/// The message the plugin sends for `event`: `Pong!` to the same channel when
/// the event is a new message reading exactly `!ping`; nothing otherwise.
/// `payload` is the event's payload read as a message, which the host hands
/// over for every new-message event. The plugin answers
/// `PluginResult::HandleEventResult` in every case.
pub fn handle_event(event: &HankEvent, payload: Option<Message>) -> (r: Option<Message>)
    requires
        event.name@ == MESSAGE_CREATE@ ==> payload is Some,
    ensures
        r is Some <==> event.name@ == MESSAGE_CREATE@ && payload->0.content@ == "!ping"@,
        r matches Some(m) ==> m.channel_id@ == payload->0.channel_id@ && m.content@ == "Pong!"@,
{
    if str_eq(event.name.as_str(), MESSAGE_CREATE) {
        match payload {
            Some(p) => {
                if str_eq(p.content.as_str(), "!ping") {
                    Some(Message { channel_id: p.channel_id, content: "Pong!".to_owned() })
                } else {
                    None
                }
            },
            None => None,
        }
    } else {
        None
    }
}

} // verus!
