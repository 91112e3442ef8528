//! A rule engine for initial tagging of indexed mail. Filters are written
//! as rules of regular expressions over message headers and a few virtual
//! fields (`@tags`, `@path`, `@thread-tags`, `@body`, `@attachment`,
//! `@attachment-body`); a message that a filter matches gets the filter's
//! operations: tags removed or added, a program started, the message
//! deleted.
//!
//! The library decides; its caller talks to the mailbox. The caller reads
//! what a filter needs of a message into a `MessageFacts` (see
//! `Filter::wants`), asks `Filter::plan_if_match` what to do, carries the
//! resulting `Action`s out in order, and lets a `MessagePass` say which
//! filter comes next and whether the query tag goes at the end.
pub mod text;
pub mod value;
pub mod error;
pub mod pattern;
pub mod operations;
pub mod mime;
pub mod message;
pub mod filter;
pub mod naming;
pub mod driver;

pub use crate::driver::{dry_run, dry_run_message, validate_query_tag, DryMessage, MessagePass};
pub use crate::error::FilterError;
pub use crate::filter::{compile_filters, Filter, Wants};
pub use crate::message::{HeaderValue, MessageFacts};
pub use crate::operations::{Action, Command, Operations};
pub use crate::value::{Field, Rule, Value};
