//! State engine of a terminal chat client: the channel list and its messages,
//! the scroll window over the channels, and the text cursor of the input line.
//!
//! The engine does no input or output. Its functions take what arrived from
//! the terminal or the messaging service and return what is left to do:
//! whether to save the state, what to send, what to tell the user.

pub mod app;
pub mod content;
pub mod event;
pub mod ident;
pub mod laws;
pub mod list;
pub mod model;
pub mod order;
pub mod signal;
pub mod text;
