//! Wire format and join logic of a uchat.io room client.
//!
//! Lines on the socket are `\n`-terminated frames; each frame holds a header
//! text followed by typed fields (text, binary, boolean, number, float, none).
//! The library packs and unpacks such frames, builds the join request of a
//! room and decides what a client does with every line the server sends.
#![allow(non_camel_case_types)]

pub mod buffer;
pub mod encoding;
pub mod protocol;
pub mod text;
pub mod join;
pub mod room;
pub mod roundtrip;

pub use join::{JoinConfig, UChatAuthLevel};
pub use protocol::{delimit_line, uMessage, Message};
pub use room::{decide_line, handle_frame, CurrentState, Frame, FrameAction, LineAction};
