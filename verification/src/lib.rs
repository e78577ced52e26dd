//! Content filter for a mail transfer agent.
//!
//! The agent hands every mail to the filter line by line, over a protocol
//! of lines whose fields are separated by `|`. The filter gathers the mail
//! of each session in a buffer, hands each line back, and at the commit
//! decides whether the mail may be delivered: it may not where the Subject
//! header matches an entry of the blacklist.
//!
//! * [`protocol`] decodes a line and reacts to it; `handle_line` is the
//!   whole reaction, `respond` and `record` are its two halves.
//! * [`session`] holds the buffers of the open sessions.
//! * [`util`] scans a text against the blacklist and joins fields.
//! * [`cli`] has the blacklist's matchers and loads them from the command
//!   line.
//! * [`fields`] and [`bytes`] cut lines into fields and compare and search
//!   byte strings.
//! * [`cnt_iter`] counts what an iterator hands out.
//! * [`engines`] names what the regular-expression engine and the header
//!   parser compute; they are called, not verified.
//! * [`laws`] proves what holds of the protocol on every input.
//!
//! Nothing here reads or writes: a program around the library brings the
//! lines and the pattern files and writes the answers.

pub mod bytes;
pub mod cli;
pub mod cnt_iter;
pub mod engines;
pub mod fields;
pub mod laws;
pub mod protocol;
pub mod session;
pub mod util;
