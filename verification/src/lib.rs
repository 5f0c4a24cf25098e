//! lait: membership replay, authority handover, ceremony retention, store
//! markers, issue documents over Loro, and the small decisions of a
//! local-first issue tracker's sync, spaces picker, command line and
//! terminal client.

pub mod bytes;
pub mod crypto;
pub mod encoding;
pub mod keymap;
pub mod text;
pub mod ids;
pub mod sigdag;
pub mod acl;
pub mod handover;
pub mod marker;
pub mod space;
pub mod doctor;
pub mod serve;
pub mod spaces;
pub mod palette;
pub mod error;
pub mod net;
pub mod cli;
pub mod overlay;
pub mod tui;
pub mod call;
pub mod sync;
pub mod crdt;
pub mod issue;
pub mod ceremony;
