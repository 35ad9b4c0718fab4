//! A renderer that turns a sequence of markdown structure events into
//! formatted text, with its behaviour stated and proved.

pub mod client;
pub mod render;
pub mod style;
pub mod token;
pub mod tldr;
