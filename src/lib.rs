//! Draws a message in a speech bubble above an ASCII-art mascot.
//!
//! The message is first normalized (runs of horizontal white space become
//! one space), then word-wrapped, measured in terminal columns and framed.
pub mod whitespace;
pub mod lines;
pub mod measure;
pub mod wrap;
pub mod bubble;
