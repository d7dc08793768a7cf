//! atref: the verified core of a global file-reference picker.

pub mod reference;
pub mod text;
pub mod path;
pub mod index;
pub mod search;
pub mod enrich;
pub mod config;
pub mod cli;
pub mod frecency;
pub mod picker;
pub mod win32;
pub mod store;
pub mod watch;
