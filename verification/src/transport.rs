//! The data that the host and its plugins exchange.
use vstd::prelude::*;

verus! {

#[verifier::external_type_specification]
#[verifier::external_body]
pub struct ExVersion(semver::Version);

/// The version that `semver::Version::new(major, minor, patch)` builds: that
/// release number with empty pre-release and build metadata.
pub uninterp spec fn semver_version(major: u64, minor: u64, patch: u64) -> semver::Version;

/// Calls `semver::Version::new`, which builds the version `major.minor.patch`
/// and depends on nothing else; the contract names that result
/// `semver_version(major, minor, patch)` and says nothing of its inside.
#[verifier::external_body]
pub(crate) fn version_new(major: u64, minor: u64, patch: u64) -> (v: semver::Version)
    ensures
        v == semver_version(major, minor, patch),
{
    semver::Version::new(major, minor, patch)
}

/// A chat message: the channel it belongs to and its text.
#[derive(Clone, Debug, PartialEq, Eq)]
pub struct Message {
    pub channel_id: String,
    pub content: String,
}

impl Message {
    /// A message to the same channel holding `content`.
    pub fn response(self, content: &str) -> (r: Self)
        ensures
            r.channel_id@ == self.channel_id@,
            r.content@ == content@,
    {
        Message { channel_id: self.channel_id, content: content.to_owned() }
    }
}

/// An event that the host hands to the plugins: its name and a JSON payload.
#[derive(Clone, Debug, PartialEq, Eq)]
pub struct HankEvent {
    pub name: String,
    pub payload: String,
}

/// The names of the events a plugin wants to receive.
#[derive(Clone, Debug, PartialEq, Eq)]
pub struct SubscribedEvents(pub Vec<String>);

impl SubscribedEvents {
    /// The subscribed names, as character sequences.
    pub open spec fn names(self) -> Seq<Seq<char>> {
        self.0@.map_values(|s: String| s@)
    }
}

/// What a plugin says about itself.
#[derive(Debug)]
pub struct PluginMetadata {
    /// The name of the plugin.
    pub name: String,
    /// A short description of the plugins functionality.
    pub description: String,
    /// The version of the plugin.
    pub version: semver::Version,
    /// Whether or not the plugin asks for a database, to be named after the
    /// plugin. The host records the wish; it creates no database.
    pub database: bool,
}

impl PluginMetadata {
    pub fn new(name: &str, description: &str, version: semver::Version, database: bool) -> (r: Self)
        ensures
            r.name@ == name@,
            r.description@ == description@,
            r.version == version,
            r.database == database,
    {
        PluginMetadata {
            name: name.to_owned(),
            description: description.to_owned(),
            version,
            database,
        }
    }
}

/// A request from the host to a plugin.
#[derive(Clone, Debug)]
pub enum PluginCommand {
    GetMetadata,
    HandleMessage(Message),
}

/// The name of the plugin function that serves `cmd`.
pub open spec fn command_function(cmd: PluginCommand) -> Seq<char> {
    match cmd {
        PluginCommand::GetMetadata => "get_metadata"@,
        PluginCommand::HandleMessage(_) => "handle_message"@,
    }
}

impl PluginCommand {
    /// The name of the plugin function that serves this command; it is also
    /// how the command is written out.
    pub fn name(&self) -> (r: &'static str)
        ensures
            r@ == command_function(*self),
    {
        match self {
            PluginCommand::GetMetadata => "get_metadata",
            PluginCommand::HandleMessage(_) => "handle_message",
        }
    }
}

/// A plugin's answer to a command.
#[derive(Debug)]
pub enum PluginResult {
    /// The command was served and there is nothing to report (written `None`
    /// on the wire).
    Nothing,
    FunctionNotFound,
    GetMetadata(PluginMetadata),
}

impl PluginResult {
    pub fn is_none(self) -> (r: bool)
        ensures
            r == (self is Nothing),
    {
        match self {
            PluginResult::Nothing => true,
            _ => false,
        }
    }
}

} // verus!
