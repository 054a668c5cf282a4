//! The logic of the Kaku terminal, verified: converting pane text between
//! encodings, reading the macOS proxy settings, the session bookkeeping for
//! restoring windows, the update checks, and the AI chat overlay (its
//! input line and keys, markdown rendering and wrapping, syntax
//! highlighting, the user's identity files, and what its tools decide and
//! report). Reading and writing files, processes and the network is left
//! to the caller.

pub mod pane_encoding;
pub mod text;
pub mod proxy;
pub mod shell;
pub mod session;
pub mod update;
pub mod soul;
pub mod approval;
pub mod markdown;
pub mod width;
pub mod layout;
pub mod tools;
pub mod order;
pub mod paths;
pub mod input;
pub mod syntax;
pub mod search;
