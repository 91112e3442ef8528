//! What can go wrong while loading filters or running them.
use vstd::prelude::*;

verus! {

/// `regex::Error`, carried opaquely in `FilterError::RegexError`.
#[verifier::external_type_specification]
#[verifier::external_body]
pub struct ExRegexError(regex::Error);

/// `mailparse::MailParseError`, carried opaquely in
/// `FilterError::MailParseError`.
#[verifier::external_type_specification]
#[verifier::external_body]
pub struct ExMailParseError(mailparse::MailParseError);

/// `serde_json::Error`, carried opaquely in `FilterError::JSONError`.
#[verifier::external_type_specification]
#[verifier::external_body]
pub struct ExJsonError(serde_json::Error);

/// The errors of this library. Failures of the mailbox and of reading a
/// message file are carried as their description: the caller records them
/// in a `MessageFacts` before any rule reaches them, and the matcher
/// reports them from there.
#[derive(Debug)]
pub enum FilterError {
    IoError(String),
    JSONError(serde_json::Error),
    RegexError(regex::Error),
    NotmuchError(String),
    MailParseError(mailparse::MailParseError),
    UnsupportedQuery(String),
    UnsupportedValue(String),
    RegexUncompiled(String),
}

} // verus!
