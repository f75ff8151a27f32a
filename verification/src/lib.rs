//! A small library for rendering short messages inside an ASCII speech
//! bubble, attributed to a mascot character.
//!
//! The modules cover the whole pipeline from a raw reply string to the
//! printable pieces: cleaning the message, wrapping it at a column budget,
//! framing the wrapped lines in a bubble, and looking up the character art.

pub mod text;
pub mod wrap;
pub mod bubble;
pub mod characters;
pub mod message;
