//! A small local Markdown viewer: the verified core of command-line parsing,
//! path handling, the history of opened files, Markdown heading anchors,
//! HTML page assembly and the daemon's start and stop protocols.
pub mod cli;
pub mod daemon;
pub mod escape;
pub mod headers;
pub mod history;
pub mod html;
pub mod markdown;
pub mod paths;
pub mod server;
pub mod text;
pub mod url;
