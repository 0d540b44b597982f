//! Stack information for pull requests made from a stack of commits: where a
//! commit stands in its stack, and the text that a pull request description
//! shows about it.

pub mod config;
pub mod decimal;
pub mod message;
pub mod stack_info;
pub mod stack_laws;
pub mod text_laws;
