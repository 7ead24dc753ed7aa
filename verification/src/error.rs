//! What can go wrong in a fetch.

use crate::range::ByteRange;
use crate::text;
use vstd::prelude::*;
use vstd::string::*;

verus! {

/// A fetch error. The variants name the failure modes that must never pass silently: a source that ignores
/// a range, a length that does not match, or a transport failure carried by its causes.
#[derive(Debug)]
pub enum Error {
    /// The source did not serve the exact range requested (for example answered `200` with the whole body
    /// instead of `206` with a matching `Content-Range`).
    RangeNotHonored {
        /// The range the engine asked for.
        requested: ByteRange,
    },
    /// The bytes received did not match the resource's declared length.
    LengthMismatch {
        /// The declared length.
        expected: u64,
        /// The length actually received.
        received: u64,
    },
    /// The underlying transport (HTTP, S3, overlay) failed: the messages of the failure and of its causes,
    /// outermost first.
    Transport(Vec<String>),
}

/// What the user is told of an error.
pub open spec fn message_of(error: Error) -> Seq<char> {
    match error {
        Error::RangeNotHonored { requested } => "source did not honor the requested range ByteRange { start: "@
            + text::model::decimal(requested.start as nat) + ", end: "@ + text::model::decimal(
            requested.end as nat,
        ) + " }"@,
        Error::LengthMismatch { expected, received } => "length mismatch: expected "@
            + text::model::decimal(expected as nat) + " bytes, received "@ + text::model::decimal(
            received as nat,
        ),
        Error::Transport(_) => "fetch failed"@,
    }
}

/// The message of the deepest cause of an error.
pub open spec fn deepest(error: Error) -> Seq<char> {
    match error {
        Error::Transport(causes) => if causes@.len() > 0 {
            causes@.last()@
        } else {
            message_of(error)
        },
        _ => message_of(error),
    }
}

/// Whether an error is a transport failure with one message, `message`.
pub open spec fn is_detail(error: Error, message: Seq<char>) -> bool {
    error matches Error::Transport(causes) && causes@.len() == 1 && causes@[0]@ == message
}

impl Error {
    /// A transport failure that says `message`.
    pub fn detail(message: &str) -> (e: Error)
        ensures
            is_detail(e, message@),
    {
        let mut causes: Vec<String> = Vec::new();
        causes.push(message.to_owned());
        Error::Transport(causes)
    }

    /// What to tell the user.
    pub fn message(&self) -> (s: String)
        ensures
            s@ == message_of(*self),
    {
        let mut out = String::new();
        match self {
            Error::RangeNotHonored { requested } => {
                out.append("source did not honor the requested range ByteRange { start: ");
                text::push_decimal(&mut out, requested.start);
                out.append(", end: ");
                text::push_decimal(&mut out, requested.end);
                out.append(" }");
            },
            Error::LengthMismatch { expected, received } => {
                out.append("length mismatch: expected ");
                text::push_decimal(&mut out, *expected);
                out.append(" bytes, received ");
                text::push_decimal(&mut out, *received);
            },
            Error::Transport(_) => {
                out.append("fetch failed");
            },
        }
        assert(out@ =~= message_of(*self));
        out
    }
}

/// The message of the deepest cause of `error`, so a retry line shows the concrete cause (e.g. "connection
/// reset by peer") rather than the generic top-level wrapper ("fetch failed").
pub fn short_error(error: &Error) -> (s: String)
    ensures
        s@ == deepest(*error),
{
    match error {
        Error::Transport(causes) => if causes.len() > 0 {
            causes[causes.len() - 1].clone()
        } else {
            error.message()
        },
        _ => error.message(),
    }
}

/// The concrete cause of a failure is the innermost that it carries.
pub proof fn law_cause_is_the_innermost(causes: Vec<String>)
    requires
        causes@.len() > 0,
    ensures
        deepest(Error::Transport(causes)) == causes@[causes@.len() - 1]@,
{
}

/// The message of an error names what it is about: the range that was not honored, or the two lengths.
pub proof fn law_message_names_the_numbers(range: ByteRange, expected: u64, received: u64)
    ensures
        message_of(Error::RangeNotHonored { requested: range }) == "source did not honor the requested range "@
            + "ByteRange { start: "@ + text::model::decimal(range.start as nat) + ", end: "@
            + text::model::decimal(range.end as nat) + " }"@,
        message_of(Error::LengthMismatch { expected, received }) == "length mismatch: expected "@
            + text::model::decimal(expected as nat) + " bytes, received "@ + text::model::decimal(
            received as nat,
        ),
{
    reveal_strlit("source did not honor the requested range ");
    reveal_strlit("ByteRange { start: ");
    reveal_strlit("source did not honor the requested range ByteRange { start: ");
    assert("source did not honor the requested range "@ + "ByteRange { start: "@
        =~= "source did not honor the requested range ByteRange { start: "@);
}

} // verus!
