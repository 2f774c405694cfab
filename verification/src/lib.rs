//! Compiles a directory of source files into a single typeset reference
//! document: an outline of sections, subsections and file listings is
//! scanned from a directory tree, serialized as indentation-coded text,
//! and compiled together with a configuration into a markup document.

pub mod codec;
pub mod compiler;
pub mod config;
pub mod escape;
pub mod extensions;
pub mod outline;
pub mod scanner;
pub mod textutil;
pub mod titlecase;
