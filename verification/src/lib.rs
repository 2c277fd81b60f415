//! A multi-repository git dashboard: the parsing of git's output, the
//! ordering and filtering of repositories, and the state machine behind the
//! terminal interface, with their contracts.
pub mod layout;
pub mod text;
pub mod number;
pub mod git;
pub mod order;
pub mod app;

pub use layout::compute_scroll_offset;
