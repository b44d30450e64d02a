//! Core of a small project manager: an ordered store of projects with
//! unique identifiers, a byte codec for persistence that round-trips,
//! per-field form validation, and the message-driven application state
//! machine that mediates every mutation of the store.

pub mod codec;
pub mod form;
pub mod machine;
pub mod project;

pub use codec::decode;
pub use codec::encode;
pub use codec::load;
pub use machine::App;
pub use machine::Command;
pub use machine::Message;
pub use project::Project;
pub use project::ProjectStore;
