//! Locale-aware message resolution: parse a POSIX locale tag, pick the best
//! message-pack file from a directory listing, walk a dotted key path into a
//! message tree, substitute named parameters, and render inline `(ansi ...)`
//! style directives into terminal escape sequences.

pub mod locale;
pub mod message;
pub mod pipeline;
pub mod render;
pub mod resolver;
pub mod style;
pub mod substitute;
pub mod text;
