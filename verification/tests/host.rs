use hank::cli::{Cli, Commands, HankArgs, Mode};
use hank::conf::{get_config_path, ConfError, ConfigPath};
use hank::host::{
    after_receive, event_action, first_subscriber, message_create_event, metadata_of, parse_channel_id, CommandPlan,
    EventAction, GatewayEvent, GatewayLoop, LoopStep, Received,
};
use hank::transport::{Message, PluginCommand, PluginMetadata, PluginResult, SubscribedEvents};
use std::path::PathBuf;

fn msg(channel: &str, content: &str) -> Message {
    Message { channel_id: channel.to_string(), content: content.to_string() }
}

fn subs(names: &[&str]) -> SubscribedEvents {
    SubscribedEvents(names.iter().map(|s| s.to_string()).collect())
}

#[test]
fn channel_ids() {
    assert_eq!(parse_channel_id(&msg("1109876543210987654", "")), Some(1109876543210987654));
    assert_eq!(parse_channel_id(&msg("+12", "")), Some(12));
    assert_eq!(parse_channel_id(&msg("0", "")), None);
    assert_eq!(parse_channel_id(&msg("", "")), None);
    assert_eq!(parse_channel_id(&msg("general", "")), None);
    assert_eq!(parse_channel_id(&msg("18446744073709551616", "")), None);
}

#[test]
fn only_the_first_subscriber_handles_an_event() {
    let plugins = vec![subs(&["Ready"]), subs(&["MessageCreate"]), subs(&["Ready", "MessageCreate"])];
    assert_eq!(first_subscriber(&plugins, "MessageCreate"), Some(1));
    assert_eq!(first_subscriber(&plugins, "Ready"), Some(0));
    assert_eq!(first_subscriber(&plugins, "TypingStart"), None);
    assert_eq!(first_subscriber(&vec![], "Ready"), None);
}

#[test]
fn new_message_event() {
    let e = message_create_event("{}".to_string());
    assert_eq!(e.name, "MessageCreate");
    assert_eq!(e.payload, "{}");
}

#[test]
fn command_plans() {
    assert!(matches!(PluginCommand::GetMetadata.plan(false), CommandPlan::FunctionNotFound));
    match PluginCommand::GetMetadata.plan(true) {
        CommandPlan::Call { function, message } => {
            assert_eq!(function, "get_metadata");
            assert!(message.is_none());
        },
        _ => panic!("expected a call"),
    }
    match PluginCommand::HandleMessage(msg("5", "hi")).plan(true) {
        CommandPlan::Call { function, message } => {
            assert_eq!(function, "handle_message");
            assert_eq!(message, Some(msg("5", "hi")));
        },
        _ => panic!("expected a call"),
    }
    assert!(matches!(PluginCommand::HandleMessage(msg("5", "hi")).plan(false), CommandPlan::FunctionNotFound));
}

#[test]
fn metadata_from_answers() {
    let meta = PluginMetadata::new("p", "d", semver::Version::new(1, 0, 0), false);
    let got = metadata_of(PluginResult::GetMetadata(meta)).unwrap();
    assert_eq!(got.name, "p");
    assert!(metadata_of(PluginResult::Nothing).is_none());
    assert!(metadata_of(PluginResult::FunctionNotFound).is_none());
}

#[test]
fn given_config_path_is_used() {
    let p = PathBuf::from("/tmp/somewhere/config.yml");
    match get_config_path(Some(p.clone())) {
        Ok(ConfigPath::Given(q)) => assert_eq!(q, p),
        _ => panic!("expected the given path"),
    }
    assert_eq!(get_config_path(Some(p.clone())).unwrap().into_path(), p);
}

#[test]
fn default_config_path_is_hank_config_yml() {
    match get_config_path(None) {
        Ok(ConfigPath::Default(f)) => {
            assert_eq!(f.prefix_str(), "hank");
            assert_eq!(f.file_str(), "config.yml");
            let path = f.into_path();
            assert!(path.ends_with("hank/config.yml"), "path {:?}", path);
            assert!(path.is_absolute());
        },
        Ok(ConfigPath::Given(_)) => panic!("no path was given"),
        Err(e) => assert_eq!(e, ConfError::NoBaseDirectories),
    }
}

#[test]
fn gateway_loop_steps() {
    assert_eq!(after_receive(Received::Event), LoopStep::Handle);
    assert_eq!(after_receive(Received::Error { fatal: false }), LoopStep::Continue);
    assert_eq!(after_receive(Received::Error { fatal: true }), LoopStep::Stop);
}

#[test]
fn gateway_event_actions() {
    assert_eq!(event_action(GatewayEvent::MessageCreate), EventAction::Dispatch);
    assert_eq!(event_action(GatewayEvent::Ready), EventAction::AnnounceReady);
    assert_eq!(event_action(GatewayEvent::Other), EventAction::Ignore);
}

#[test]
fn command_line_modes() {
    let none = HankArgs { config_path: None };
    assert!(matches!(Cli { args: none.clone(), command: Some(Commands::ConfigTemplate) }.mode(), Mode::PrintTemplate));
    let p = PathBuf::from("/etc/hank.yml");
    match (Cli { args: none.clone(), command: Some(Commands::Init { config_path: Some(p.clone()) }) }).mode() {
        Mode::WriteTemplate(got) => assert_eq!(got, Some(p.clone())),
        other => panic!("unexpected {:?}", other),
    }
    match (Cli { args: HankArgs { config_path: Some(p.clone()) }, command: None }).mode() {
        Mode::Serve(args) => assert_eq!(args.config_path, Some(p)),
        other => panic!("unexpected {:?}", other),
    }
}

#[test]
fn gateway_loop_stops_at_first_fatal_error() {
    let mut g = GatewayLoop::new();
    assert!(!g.is_stopped());
    assert_eq!(g.receive(Received::Event), LoopStep::Handle);
    assert_eq!(g.receive(Received::Error { fatal: false }), LoopStep::Continue);
    assert!(!g.is_stopped());
    assert_eq!(g.receive(Received::Event), LoopStep::Handle);
    assert_eq!(g.receive(Received::Error { fatal: true }), LoopStep::Stop);
    assert!(g.is_stopped());
}
