//! Hank: a chat bot whose behaviour comes from plugins.
//!
//! The verified library holds the data exchanged between the host and its
//! plugins, the decisions the host takes, and the logic of the bundled plugins
//! (the ping/pong responders and the Wordle score reader).

pub mod cli;
pub mod conf;
pub mod debug_text;
pub mod events_ping;
pub mod events_pong;
pub mod host;
pub mod lines;
pub mod numbers;
pub mod plugin_ping;
pub mod plugin_wordle;
pub mod text;
pub mod transport;
pub mod wordle;
pub mod wordle_laws;
pub mod xdg_paths;
