//! A verified interpreter core for a minimal eight-command tape language:
//! a parser that resolves bracket pairs into direct jump targets, a byte
//! tape with implicit zero cells, and an engine that executes one command
//! at a time.

pub mod engine;
pub mod loops;
pub mod parser;
pub mod tape;
