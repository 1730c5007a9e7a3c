use vstd::prelude::*;

use crate::inmem::{answer_view, run, InMem};
use crate::parser::message;

verus! {

broadcast use vstd::string::group_string_axioms;

/// The line sent back for an answer: `OK: ` or `ERR: ` before it, a newline after it.
pub open spec fn response_text(answer: Result<Seq<char>, Seq<char>>) -> Seq<char> {
    match answer {
        Ok(m) => "OK: "@ + m + "\n"@,
        Err(m) => "ERR: "@ + m + "\n"@,
    }
}

/// Formats an answer of the store as the line sent back to the client.
pub fn format_response(answer: Result<String, String>) -> (r: String)
    ensures
        r@ == response_text(answer_view(answer)),
{
    match answer {
        Ok(m) => message("OK: ").concat(m.as_str()).concat("\n"),
        Err(m) => message("ERR: ").concat(m.as_str()).concat("\n"),
    }
}

/// The message for a read whose bytes are not UTF-8 text.
pub open spec fn msg_undecodable() -> Seq<char> {
    "Invalid UTF-8"@
}

/// The line sent back for a read whose bytes are not UTF-8 text; the
/// connection stays open.
pub fn undecodable_response() -> (r: String)
    ensures
        r@ == response_text(Err(msg_undecodable())),
{
    format_response(Err(message("Invalid UTF-8")))
}

/// Runs the text of one read as a command line and returns the line to send back.
pub fn respond(store: &mut InMem, received: &str) -> (r: String)
    requires
        old(store).wf(),
    ensures
        final(store).wf(),
        final(store)@ == run(old(store)@, received@).0,
        r@ == response_text(run(old(store)@, received@).1),
{
    let answer = store.execute(received);
    format_response(answer)
}

} // verus!
