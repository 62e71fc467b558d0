//! The single flat error kind of the crate: every parse or build failure
//! carries one descriptive message naming the offending token.
use vstd::prelude::*;

use vstd::string::StringExecFns;

verus! {

/// A parse or validation failure.
#[derive(Debug)]
pub struct Error {
    pub msg: String,
}

impl View for Error {
    type V = Seq<char>;

    open spec fn view(&self) -> Seq<char> {
        self.msg@
    }
}

impl Error {
    /// An error with a fixed message.
    pub(crate) fn plain(m: &str) -> (e: Error)
        ensures
            e@ == m@,
    {
        Error { msg: String::from_str(m) }
    }

    /// An error whose message quotes the offending token.
    pub(crate) fn around(pre: &str, tok: &str, post: &str) -> (e: Error)
        ensures
            e@ == pre@ + tok@ + post@,
    {
        Error { msg: String::from_str(pre).concat(tok).concat(post) }
    }
}

/// Message of a line that does not begin with the directive marker.
pub open spec fn msg_entry_prefix() -> Seq<char> {
    "txn config entry must start with //!"@
}

/// Message of an empty `sender:` directive.
pub open spec fn msg_sender_empty() -> Seq<char> {
    "sender cannot be empty"@
}

/// Message of a token that is neither a typed literal nor `{{name}}`.
pub open spec fn msg_bad_argument(t: Seq<char>) -> Seq<char> {
    "failed to parse '"@ + t + "' as argument"@
}

/// Message of an unrecognized stage token.
pub open spec fn msg_bad_stage(t: Seq<char>) -> Seq<char> {
    "unrecognized stage '"@ + t + "'"@
}

/// Message of a token that is not an unsigned decimal literal.
pub open spec fn msg_bad_u64(t: Seq<char>) -> Seq<char> {
    "cannot parse '"@ + t + "' as u64"@
}

/// Message of a directive with an unrecognized keyword.
pub open spec fn msg_not_entry(t: Seq<char>) -> Seq<char> {
    "failed to parse '"@ + t + "' as transaction config entry"@
}

/// Message of a `sender:` or `{{name}}` reference to an unregistered account.
pub open spec fn msg_account_missing(name: Seq<char>) -> Seq<char> {
    "account '"@ + name + "' does not exist"@
}

/// Message of a second `sender:` directive in one block.
pub open spec fn msg_sender_set() -> Seq<char> {
    "sender already set"@
}

/// Message of a second `args:` directive in one block.
pub open spec fn msg_args_set() -> Seq<char> {
    "transaction arguments already set"@
}

/// Message of a stage disabled twice.
pub open spec fn msg_duplicate_stage(t: Seq<char>) -> Seq<char> {
    "duplicate stage '"@ + t + "' in black list"@
}

/// Message of a second `max-gas:` directive in one block.
pub open spec fn msg_max_gas_set() -> Seq<char> {
    "max gas amount already set"@
}

/// Message of a second `sequence-number:` directive in one block.
pub open spec fn msg_sequence_number_set() -> Seq<char> {
    "sequence number already set"@
}

} // verus!
