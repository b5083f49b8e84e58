//! A fluent request builder, so that callers never have to hand-write raw JSON
//! payloads, and what is made of the replies.

pub mod builder;
pub mod reply;

pub use builder::{
    BuilderView, ChatBuilder, FormatView, ReasoningEffort, ResponseFormat, ThinkingConfig,
};
