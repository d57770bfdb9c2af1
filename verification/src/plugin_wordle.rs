//! The Wordle plugin: recognises shared Wordle results and answers them.
use crate::transport::{semver_version, version_new, Message, PluginMetadata, PluginResult};
use crate::wordle::{puzzle_defined, puzzle_result, puzzle_text, Puzzle};
use vstd::prelude::*;
use vstd::string::*;

verus! {

/// What the Wordle plugin says about itself: its name `wordle`, its
/// description, version 0.1.0, and that it wants a database.
pub fn get_metadata() -> (r: PluginResult)
    ensures
        r matches PluginResult::GetMetadata(m) && {
            &&& m.name@ == "wordle"@
            &&& m.description@ == "A wordle plugin to record daily Wordle puzzles."@
            &&& m.version == semver_version(0, 1, 0)
            &&& m.database
        },
{
    let metadata = PluginMetadata::new(
        "wordle",
        "A wordle plugin to record daily Wordle puzzles.",
        version_new(0, 1, 0),
        true,
    );
    PluginResult::GetMetadata(metadata)
}

/// The database query that the plugin runs for each result it reads.
pub const DB_QUERY: &'static str = "SELECT 'hello world'";

/// What the Wordle plugin does with a message.
pub enum WordleAction {
    /// The message is no shared result: send nothing.
    Ignore,
    /// The message starts like a shared result but cannot be read (a day
    /// beyond `i32`, or a board line that is no row of tiles); the plugin
    /// stops there.
    Unreadable,
    /// Send `reply`, run `query` on the database, then send what
    /// `db_reply` makes of its answer.
    Record { reply: Message, query: String },
}

/// What the Wordle plugin does with `message`: when its text reads as a
/// puzzle, reply with the puzzle written out and run the database query.
/// The plugin answers the host `PluginResult::Nothing` in every case.
pub fn handle_message(message: &Message) -> (r: WordleAction)
    ensures
        r is Unreadable <==> !puzzle_defined(message.content@),
        r is Ignore <==> puzzle_defined(message.content@) && puzzle_result(message.content@, Err(())),
        r matches WordleAction::Record { reply, query } ==> exists|p: Puzzle| {
            &&& puzzle_result(message.content@, Ok(p))
            &&& reply.channel_id@ == message.channel_id@
            &&& reply.content@ == puzzle_text(p)
            &&& query@ == DB_QUERY@
        },
{
    match Puzzle::parse(message.content.clone()) {
        None => WordleAction::Unreadable,
        Some(Err(())) => WordleAction::Ignore,
        Some(Ok(puzzle)) => {
            let reply = Message { channel_id: message.channel_id.clone(), content: puzzle.debug_text() };
            WordleAction::Record { reply, query: DB_QUERY.to_owned() }
        },
    }
}

/// How `{:?}` writes a string: between double quotes, each character
/// escaped as `char::escape_debug` does.
pub uninterp spec fn debug_quoted(s: Seq<char>) -> Seq<char>;

/// Formats `s` with `format!("{:?}", s)`; the text is a function of `s`
/// alone and is named `debug_quoted`.
#[verifier::external_body]
fn quote_debug(s: &str) -> (r: String)
    ensures
        r@ == debug_quoted(s@),
{
    format!("{:?}", s)
}

/// The message the plugin sends once the database has answered: `db result: `
/// and the answer written out as `{:?}` writes a string.
pub fn db_reply(message: &Message, db_result: &str) -> (r: Message)
    ensures
        r.channel_id@ == message.channel_id@,
        r.content@ == "db result: "@ + debug_quoted(db_result@),
{
    let mut content = "db result: ".to_owned();
    content.append(quote_debug(db_result).as_str());
    Message { channel_id: message.channel_id.clone(), content }
}

} // verus!
