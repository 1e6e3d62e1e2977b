//! A TCP relay core: a chunked copy loop that can rewrite the bytes of one direction
//! in flight, with exact-pattern substitutions and a length marker kept consistent.
pub mod bytes;
pub mod copy;
pub mod matcher;
pub mod rewrite;
pub mod session;
