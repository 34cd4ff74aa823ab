//! A chat-component document model with an exact JSON wire encoding, plus a
//! compact markup language that turns tag-annotated strings into component
//! trees.

pub mod codec;
pub mod component;
pub mod json;
pub mod message;
pub mod text;

pub use message::{lobster, placeholder_lobster};
