//! Terminal session rendering: the decisions of recording a session, a
//! terminal emulator that turns asciicast recordings into timed frames, and
//! the SVG rendering of those frames into a template.

pub mod anim;
pub mod asciicast;
pub mod assoc;
pub mod attributes;
pub mod cli;
pub mod config;
pub mod emulator;
pub mod grid;
pub mod listing;
pub mod order;
pub mod recorder;
pub mod render;
pub mod svg;
pub mod template;
pub mod term;
pub mod text;
pub mod tree;
pub mod xml;
