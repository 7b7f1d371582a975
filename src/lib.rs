//! Text-command resolution and backtracking argument parsing for chat bots.
//!
//! The library strips an invocation prefix from a message (`prefix`),
//! resolves the invoked command through a tree of commands (`command`),
//! decides whether it runs (`dispatch`), and parses the argument text
//! against an ordered list of parameter slots (`args`), one token at a time
//! (`token`).
pub mod text;
pub mod command;
pub mod token;
pub mod args;
pub mod prefix;
pub mod dispatch;
pub mod builder;
pub mod help;
pub mod definitions;
