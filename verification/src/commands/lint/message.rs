//! The messages of a run: where a violation is and what it is.

use vstd::prelude::*;
use vstd::string::StringExecFns;

use crate::text::{decimal, push_decimal};
use crate::validators::error::{Error, ErrorView, LineType};

verus! {

/// The line of a file, counted from 1, on which the given line of the
/// record with the given number stands. Records are numbered from 0 and
/// take four lines each.
pub open spec fn line_number(record_counter: nat, line_type: LineType) -> nat {
    record_counter * 4 + line_type.spec_offset() + 1
}

/// The part of a message that gives the column, if there is one.
pub open spec fn column_segment(col_no: Option<usize>) -> Seq<char> {
    match col_no {
        Some(col_no) => decimal(col_no as nat) + ":"@,
        None => Seq::empty(),
    }
}

/// The place of a violation: the file, the line and, if known, the column,
/// each followed by a colon.
pub open spec fn message_place(e: ErrorView, pathname: Seq<char>, record_counter: nat) -> Seq<
    char,
> {
    pathname + ":"@ + decimal(line_number(record_counter, e.line_type)) + ":"@ + column_segment(
        e.col_no,
    )
}

/// What a message says of a violation after its place.
pub open spec fn message_body(e: ErrorView) -> Seq<char> {
    " ["@ + e.code + "] "@ + e.name + ": "@ + e.message
}

/// The message for a violation in the record with the given number of the
/// given file.
pub open spec fn error_message(e: ErrorView, pathname: Seq<char>, record_counter: nat) -> Seq<
    char,
> {
    message_place(e, pathname, record_counter) + message_body(e)
}

/// The texts of a list of strings.
pub open spec fn texts(strings: Seq<String>) -> Seq<Seq<char>> {
    Seq::new(strings.len(), |i: int| strings[i]@)
}

/// The text of a string that may be missing.
pub open spec fn text(string: Option<String>) -> Option<Seq<char>> {
    match string {
        Some(s) => Some(s@),
        None => None,
    }
}

/// Formats the message for a violation: the file, the line, the column if
/// the violation has one, then the code and the name of the validator and
/// what it found.
pub fn build_error_message(error: Error, pathname: &str, record_counter: usize) -> (message: String)
    ensures
        message@ == error_message(error@, pathname@, record_counter as nat),
{
    let line_no: u128 = (record_counter as u128) * 4 + (error.line_type.offset() as u128) + 1;
    let mut message = String::from_str(pathname);
    message.append(":");
    push_decimal(&mut message, line_no);
    message.append(":");
    if let Some(col_no) = error.col_no {
        push_decimal(&mut message, col_no as u128);
        message.append(":");
    }
    message.append(" [");
    message.append(error.code.as_str());
    message.append("] ");
    message.append(error.name.as_str());
    message.append(": ");
    message.append(error.message.as_str());
    proof {
        assert(message@ =~= error_message(error@, pathname@, record_counter as nat));
    }
    message
}

/// The message about a stream that ended before the other.
pub open spec fn unexpected_end_message(ended: Seq<char>, other: Seq<char>) -> Seq<char> {
    ended + " unexpectedly ended before "@ + other
}

/// The message about the stream `ended`, which ended before `other`.
pub fn build_unexpected_end_message(ended: &str, other: &str) -> (message: String)
    ensures
        message@ == unexpected_end_message(ended@, other@),
{
    let mut message = String::from_str(ended);
    message.append(" unexpectedly ended before ");
    message.append(other);
    message
}

} // verus!
