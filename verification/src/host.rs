//! The decisions the host takes between its plugins and the chat service.
use crate::debug_text::nat_text;
use crate::numbers::{parse_u64, parse_u64_spec};
use crate::text::str_eq;
use crate::transport::{
    command_function, HankEvent, Message, PluginCommand, PluginMetadata, PluginResult, SubscribedEvents,
};
use vstd::prelude::*;

verus! {

/// The channel a message names: its id read as a `u64`, which the chat
/// service requires to be non-zero. `None` where the host would stop.
pub fn parse_channel_id(message: &Message) -> (r: Option<u64>)
    ensures
        r == match parse_u64_spec(message.channel_id@) {
            Some(n) => if n != 0 { Some(n) } else { None },
            None => None,
        },
        forall|n: nat| 0 < n <= u64::MAX && message.channel_id@ == #[trigger] nat_text(n) ==> r == Some(n as u64),
{
    match parse_u64(message.channel_id.as_str()) {
        Some(n) => if n != 0 { Some(n) } else { None },
        None => None,
    }
}

/// Whether `events` holds `name`.
pub open spec fn subscribes(events: SubscribedEvents, name: Seq<char>) -> bool {
    events.names().contains(name)
}

fn subscribed(events: &SubscribedEvents, name: &str) -> (r: bool)
    ensures
        r == subscribes(*events, name@),
{
    let n = events.0.len();
    let mut i: usize = 0;
    while i < n
        invariant
            n == events.0@.len() == events.names().len(),
            i <= n,
            forall|k: int| 0 <= k < i ==> events.names()[k] != name@,
        decreases n - i,
    {
        if str_eq(events.0[i].as_str(), name) {
            assert(events.names()[i as int] == name@);
            return true;
        }
        i = i + 1;
    }
    false
}

/// The plugin that handles an event named `event_name`: the first one, in
/// load order, that subscribes to it. Only that one sees the event.
pub fn first_subscriber(subscriptions: &Vec<SubscribedEvents>, event_name: &str) -> (r: Option<usize>)
    ensures
        r matches Some(i) ==> i < subscriptions@.len() && subscribes(subscriptions@[i as int], event_name@),
        r matches Some(i) ==> forall|j: int| 0 <= j < i ==> !subscribes(#[trigger] subscriptions@[j], event_name@),
        r is None ==> forall|j: int| 0 <= j < subscriptions@.len() ==> !subscribes(#[trigger] subscriptions@[j], event_name@),
{
    let n = subscriptions.len();
    let mut i: usize = 0;
    while i < n
        invariant
            n == subscriptions@.len(),
            i <= n,
            forall|j: int| 0 <= j < i ==> !subscribes(#[trigger] subscriptions@[j], event_name@),
        decreases n - i,
    {
        if subscribed(&subscriptions[i], event_name) {
            return Some(i);
        }
        i = i + 1;
    }
    None
}

/// The event that a new chat message raises, with the message as its payload.
pub fn message_create_event(payload: String) -> (r: HankEvent)
    ensures
        r.name@ == crate::events_ping::MESSAGE_CREATE@,
        r.payload@ == payload@,
{
    HankEvent { name: crate::events_ping::MESSAGE_CREATE.to_owned(), payload }
}

/// What a plugin's worker does with a command.
pub enum CommandPlan {
    /// The plugin has no function for the command: answer `FunctionNotFound`.
    FunctionNotFound,
    /// Call the plugin function `function`, with `message` written as JSON as
    /// its input, or with no input when there is no message.
    Call { function: &'static str, message: Option<Message> },
}

impl PluginCommand {
    /// What a plugin's worker does with this command, given whether the plugin
    /// has the function that serves it.
    pub fn plan(self, function_exists: bool) -> (r: CommandPlan)
        ensures
            !function_exists ==> r is FunctionNotFound,
            function_exists ==> (r matches CommandPlan::Call { function, message } && {
                &&& function@ == command_function(self)
                &&& match self {
                    PluginCommand::GetMetadata => message is None,
                    PluginCommand::HandleMessage(m) => message == Some(m),
                }
            }),
    {
        if !function_exists {
            return CommandPlan::FunctionNotFound;
        }
        let function = self.name();
        match self {
            PluginCommand::GetMetadata => CommandPlan::Call { function, message: None },
            PluginCommand::HandleMessage(m) => CommandPlan::Call { function, message: Some(m) },
        }
    }
}

/// The metadata in a plugin's answer to `GetMetadata`; `None` when the answer
/// is anything else, where the host gives up on the plugin.
pub fn metadata_of(result: PluginResult) -> (r: Option<PluginMetadata>)
    ensures
        match result {
            PluginResult::GetMetadata(m) => r == Some(m),
            _ => r is None,
        },
{
    match result {
        PluginResult::GetMetadata(m) => Some(m),
        _ => None,
    }
}

/// How a wait for the next gateway event ended.
pub enum Received {
    /// An event arrived.
    Event,
    /// Receiving failed; `fatal` when the connection cannot go on.
    Error { fatal: bool },
}

/// What the gateway loop does next.
#[derive(Debug, PartialEq, Eq)]
pub enum LoopStep {
    /// Update the cache and hand the event to a task of its own.
    Handle,
    /// Log the error and wait for the next event.
    Continue,
    /// Log the error and leave the loop.
    Stop,
}

/// The step the loop takes after one wait.
pub open spec fn step_for(received: Received) -> LoopStep {
    match received {
        Received::Event => LoopStep::Handle,
        Received::Error { fatal } => if fatal { LoopStep::Stop } else { LoopStep::Continue },
    }
}

/// Whether a wait ended in an error that the connection cannot survive.
pub open spec fn is_fatal(received: Received) -> bool {
    received matches Received::Error { fatal } && fatal
}

/// The steps the loop takes on the outcomes `rs` of its waits, in order: one
/// per outcome, up to and including the first fatal error, after which it
/// waits no more.
pub open spec fn loop_steps(rs: Seq<Received>) -> Seq<LoopStep>
    decreases rs.len(),
{
    if rs.len() == 0 {
        seq![]
    } else if is_fatal(rs[0]) {
        seq![LoopStep::Stop]
    } else {
        seq![step_for(rs[0])] + loop_steps(rs.drop_first())
    }
}

/// The gateway loop's decision after each wait: events are handled, errors
/// are skipped unless they are fatal, which end the loop.
pub fn after_receive(received: Received) -> (r: LoopStep)
    ensures
        r == step_for(received),
{
    match received {
        Received::Event => LoopStep::Handle,
        Received::Error { fatal } => if fatal { LoopStep::Stop } else { LoopStep::Continue },
    }
}

proof fn lemma_loop_steps_push(rs: Seq<Received>, x: Received)
    requires
        forall|j: int| 0 <= j < rs.len() ==> !is_fatal(#[trigger] rs[j]),
    ensures
        loop_steps(rs.push(x)) == loop_steps(rs).push(step_for(x)),
    decreases rs.len(),
{
    if rs.len() == 0 {
        assert(rs =~= Seq::<Received>::empty());
        assert(loop_steps(rs) == Seq::<LoopStep>::empty());
        assert(loop_steps(Seq::<Received>::empty()) == Seq::<LoopStep>::empty());
        assert(rs.push(x) =~= seq![x]);
        assert(seq![x].drop_first() =~= Seq::<Received>::empty());
        assert(seq![x][0] == x);
        if is_fatal(x) {
            assert(step_for(x) == LoopStep::Stop);
        }
        if !is_fatal(x) {
            assert(seq![step_for(x)] + Seq::<LoopStep>::empty() =~= seq![step_for(x)]);
        }
        assert(loop_steps(rs).push(step_for(x)) =~= seq![step_for(x)]);
    } else {
        assert(!is_fatal(rs[0]));
        assert(rs.push(x)[0] == rs[0]);
        assert(rs.push(x).drop_first() =~= rs.drop_first().push(x));
        lemma_loop_steps_push(rs.drop_first(), x);
        assert(seq![step_for(rs[0])] + loop_steps(rs.drop_first()).push(step_for(x))
            =~= (seq![step_for(rs[0])] + loop_steps(rs.drop_first())).push(step_for(x)));
    }
}

/// The gateway loop's state: whether it has stopped, and (for the proof) the
/// outcomes it was handed and the steps it took.
pub struct GatewayLoop {
    stopped: bool,
    received: Ghost<Seq<Received>>,
    steps: Ghost<Seq<LoopStep>>,
}

impl GatewayLoop {
    /// The outcomes of the waits so far.
    pub closed spec fn received(self) -> Seq<Received> {
        self.received@
    }

    /// The steps taken so far.
    pub closed spec fn steps(self) -> Seq<LoopStep> {
        self.steps@
    }

    /// Whether the loop has stopped.
    pub closed spec fn stopped(self) -> bool {
        self.stopped
    }

    /// The steps taken are those that `loop_steps` gives for the outcomes so
    /// far, and the loop has stopped exactly when the last outcome was the
    /// first fatal error.
    pub closed spec fn wf(self) -> bool {
        &&& self.steps@ == loop_steps(self.received@)
        &&& forall|j: int| 0 <= j < self.received@.len() - 1 ==> !is_fatal(#[trigger] self.received@[j])
        &&& self.stopped == (self.received@.len() > 0 && is_fatal(self.received@.last()))
    }

    /// A loop that has waited for nothing yet.
    pub fn new() -> (r: Self)
        ensures
            r.wf(),
            !r.stopped(),
            r.received() == Seq::<Received>::empty(),
            r.steps() == Seq::<LoopStep>::empty(),
    {
        GatewayLoop { stopped: false, received: Ghost(Seq::empty()), steps: Ghost(Seq::empty()) }
    }

    /// Whether the loop has stopped.
    pub fn is_stopped(&self) -> (r: bool)
        ensures
            r == self.stopped(),
    {
        self.stopped
    }

    /// Takes the outcome of one more wait and says what to do with it; a fatal
    /// error stops the loop.
    pub fn receive(&mut self, received: Received) -> (r: LoopStep)
        requires
            old(self).wf(),
            !old(self).stopped(),
        ensures
            final(self).wf(),
            r == step_for(received),
            final(self).received() == old(self).received().push(received),
            final(self).steps() == old(self).steps().push(r),
            final(self).stopped() == is_fatal(received),
    {
        let ghost x = received;
        let ghost rs = self.received@;
        let fatal = match &received {
            Received::Error { fatal } => *fatal,
            Received::Event => false,
        };
        let r = after_receive(received);
        proof {
            assert forall|j: int| 0 <= j < rs.len() implies !is_fatal(#[trigger] rs[j]) by {
                if j == rs.len() - 1 {
                    assert(rs.last() == rs[j]);
                }
            }
            lemma_loop_steps_push(rs, x);
            assert(rs.push(x).last() == x);
            assert forall|j: int| 0 <= j < rs.push(x).len() - 1 implies !is_fatal(#[trigger] rs.push(x)[j]) by {
                assert(rs.push(x)[j] == rs[j]);
            }
        }
        self.received = Ghost(rs.push(x));
        self.steps = Ghost(self.steps@.push(r));
        self.stopped = fatal;
        r
    }
}

/// The gateway loop handles every event that arrives before the first fatal
/// error, in order, skips the other errors, and stops at the first fatal one,
/// waiting for nothing after it.
pub proof fn lemma_loop_stops_at_first_fatal(rs: Seq<Received>, k: int)
    requires
        0 <= k < rs.len(),
        is_fatal(rs[k]),
        forall|j: int| 0 <= j < k ==> !is_fatal(#[trigger] rs[j]),
    ensures
        loop_steps(rs).len() == k + 1,
        loop_steps(rs)[k] == LoopStep::Stop,
        forall|j: int| 0 <= j < k ==> (#[trigger] loop_steps(rs)[j] == LoopStep::Handle <==> rs[j] is Event),
        forall|j: int| 0 <= j < k ==> loop_steps(rs)[j] != LoopStep::Stop,
    decreases k,
{
    if k > 0 {
        let rest = rs.drop_first();
        assert(!is_fatal(rs[0]));
        assert forall|j: int| 0 <= j < k - 1 implies !is_fatal(#[trigger] rest[j]) by {
            assert(rest[j] == rs[j + 1]);
        }
        lemma_loop_stops_at_first_fatal(rest, k - 1);
        let steps = loop_steps(rs);
        assert(steps == seq![step_for(rs[0])] + loop_steps(rest));
        assert forall|j: int| 0 <= j < k implies (#[trigger] steps[j] == LoopStep::Handle <==> rs[j] is Event) by {
            if j > 0 {
                assert(steps[j] == loop_steps(rest)[j - 1]);
                assert(rest[j - 1] == rs[j]);
            }
        }
        assert forall|j: int| 0 <= j < k implies steps[j] != LoopStep::Stop by {
            if j > 0 {
                assert(steps[j] == loop_steps(rest)[j - 1]);
            }
        }
    }
}

/// Without a fatal error the gateway loop never stops: it takes one step per
/// outcome, handling every event and skipping every error.
pub proof fn lemma_loop_runs_without_fatal(rs: Seq<Received>)
    requires
        forall|j: int| 0 <= j < rs.len() ==> !is_fatal(#[trigger] rs[j]),
    ensures
        loop_steps(rs).len() == rs.len(),
        forall|j: int| 0 <= j < rs.len() ==> (#[trigger] loop_steps(rs)[j] == LoopStep::Handle <==> rs[j] is Event),
        forall|j: int| 0 <= j < rs.len() ==> (loop_steps(rs)[j] == LoopStep::Continue <==> !(rs[j] is Event)),
    decreases rs.len(),
{
    if rs.len() > 0 {
        let rest = rs.drop_first();
        assert(!is_fatal(rs[0]));
        assert forall|j: int| 0 <= j < rest.len() implies !is_fatal(#[trigger] rest[j]) by {
            assert(rest[j] == rs[j + 1]);
        }
        lemma_loop_runs_without_fatal(rest);
        let steps = loop_steps(rs);
        assert forall|j: int| 0 <= j < rs.len() implies (#[trigger] steps[j] == LoopStep::Handle <==> rs[j] is Event)
            && (steps[j] == LoopStep::Continue <==> !(rs[j] is Event)) by {
            if j > 0 {
                assert(steps[j] == loop_steps(rest)[j - 1]);
                assert(rest[j - 1] == rs[j]);
                assert(!is_fatal(rs[j]));
            }
        }
    }
}

/// The kinds of gateway event that the host tells apart.
pub enum GatewayEvent {
    MessageCreate,
    Ready,
    Other,
}

/// What the host does with a gateway event.
#[derive(Debug, PartialEq, Eq)]
pub enum EventAction {
    /// Raise a `MessageCreate` event for the plugins and post the reply, if any.
    Dispatch,
    /// Report that the shard is ready.
    AnnounceReady,
    /// Nothing.
    Ignore,
}

/// The host's handling of gateway events: new messages go to the plugins,
/// readiness is reported, everything else is ignored.
pub fn event_action(event: GatewayEvent) -> (r: EventAction)
    ensures
        match event {
            GatewayEvent::MessageCreate => r == EventAction::Dispatch,
            GatewayEvent::Ready => r == EventAction::AnnounceReady,
            GatewayEvent::Other => r == EventAction::Ignore,
        },
{
    match event {
        GatewayEvent::MessageCreate => EventAction::Dispatch,
        GatewayEvent::Ready => EventAction::AnnounceReady,
        GatewayEvent::Other => EventAction::Ignore,
    }
}

} // verus!
