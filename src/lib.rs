//! Splits one gzip stream into several gzip parts of bounded size, line by line.

pub mod gz;
pub mod lines;
pub mod naming;
pub mod part;
pub mod pipeline;
pub mod rollover;
pub mod source;
pub mod split;
