//! A client's view of a chat protocol in the manner of IRC, with tags
//! before each message: the codec for its lines, the cutting of a chat
//! text into plain text and emotes, and the decisions of a connection.
//!
//! The library performs no input or output. What it computes is stated in
//! contracts over character and byte sequences, and proved.
//!
//! - `protocol`: the messages and their views
//! - `parse`, `serialize`: from a line to a message and back
//! - `roundtrip`: what comes back when a written message is read again
//! - `emotes`: the pieces of a chat text
//! - `client`: the state of a connection and the framing of lines
//! - `console`: what a program shows of a message
//! - `utils`: colours
//! - `tags`, `text`, `slices`: the tag map, and searching and cutting text

pub mod client;
pub mod console;
pub mod emotes;
pub mod parse;
pub mod protocol;
pub mod roundtrip;
pub mod serialize;
pub mod slices;
pub mod tags;
pub mod text;
pub mod utils;
