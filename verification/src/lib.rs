//! The list engine of a DNS filter: three lists of entries (allowed domains,
//! denied domains, denied patterns), each kept in a text file of one entry per
//! line.
//!
//! - [`dns::common`] says what a list takes as an entry.
//! - [`lines`] is the format of a list file, [`store`] the files in memory.
//! - [`dns::list`] holds the operations on a list: look an entry up, add it,
//!   remove it.
//! - [`dns::change`] leads a change from the request to the resolver's
//!   answer, [`dns::delete_list`] takes up the removals.
//! - [`ftl`] names the commands that tell the resolver of a change, and reads
//!   its answer.
//!
//! Nothing here touches a disk or a socket: the files are handed in as bytes
//! and the resolver's answer as a value, and what is to be written or sent is
//! handed out. Every function is verified against the contract at its head;
//! what is taken on trust of code outside is said where it is used.

pub mod dns;
pub mod ftl;
pub mod lines;
pub mod split;
pub mod store;
pub mod utf8;
pub mod util;
