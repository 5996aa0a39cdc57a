//! The logic of an interactive command shell: decoding raw terminal bytes
//! into key events, editing a cursor-addressed line, browsing history,
//! completing commands and paths, and deciding how parsed pipelines are
//! dispatched to the foreground and to a background worker.
//!
//! Nothing here touches a terminal, a file or a process. Every operation
//! takes plain values and returns plain values (the bytes to echo, the record
//! to append, the next action to perform), so that a thin driver can do the
//! input and output around it.
//!
//! - `keycode`: bytes to key events, escape sequences included.
//! - `text`: runs of bytes, and which of them are UTF-8.
//! - `screen`: the terminal row that echoes are proved against.
//! - `line_buffer`: the line under the cursor, its edits and their echoes.
//! - `history`: the submitted lines, their file, and browsing.
//! - `completion`: tokens, fragments and candidates.
//! - `paint`: the listing of candidates, in colour.
//! - `dispatch`: foreground and background, and the order of spawning.
//! - `editor`: the state machine that ties the others to the terminal.

pub mod keycode;
pub mod text;
pub mod screen;
pub mod line_buffer;
pub mod history;
pub mod completion;
pub mod paint;
pub mod dispatch;
pub mod editor;
