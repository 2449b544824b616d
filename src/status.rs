use crate::text::{chars_of, contains, contains_seq};
use vstd::prelude::*;

verus! {

/// Whether the message `m` holds the text `pat`.
pub open spec fn mentions(m: Seq<char>, pat: &str) -> bool {
    contains(m, pat@)
}

/// The HTTP status that an error message of the client points to, by the
/// first of these that it holds: `400` or `Invalid`; `401` or `Unauthorized`;
/// `409` or `exists`; `404`; `500` or `Server error`. Zero where it holds none.
pub open spec fn status_of_message(m: Seq<char>) -> u16 {
    if mentions(m, "400") || mentions(m, "Invalid") {
        400
    } else if mentions(m, "401") || mentions(m, "Unauthorized") {
        401
    } else if mentions(m, "409") || mentions(m, "exists") {
        409
    } else if mentions(m, "404") {
        404
    } else if mentions(m, "500") || mentions(m, "Server error") {
        500
    } else {
        0
    }
}

fn mentions_exec(m: &Vec<char>, pat: &str) -> (r: bool)
    ensures
        r == mentions(m@, pat),
{
    let p = chars_of(pat);
    contains_seq(m, &p)
}

/// Reads the HTTP status out of an error message, case-sensitively.
pub fn extract_status_code(error_msg: &str) -> (r: u16)
    ensures
        r == status_of_message(error_msg@),
{
    let m = chars_of(error_msg);
    if mentions_exec(&m, "400") || mentions_exec(&m, "Invalid") {
        400
    } else if mentions_exec(&m, "401") || mentions_exec(&m, "Unauthorized") {
        401
    } else if mentions_exec(&m, "409") || mentions_exec(&m, "exists") {
        409
    } else if mentions_exec(&m, "404") {
        404
    } else if mentions_exec(&m, "500") || mentions_exec(&m, "Server error") {
        500
    } else {
        0
    }
}

} // verus!
