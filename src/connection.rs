use crate::http::{
    after_space, first_line, has_space, parse_request, request_fields, wire_text, Response,
};
use crate::router::{route, route_of};
use vstd::prelude::*;
use vstd::utf8::{decode_utf8, encode_utf8, valid_utf8};

verus! {

/// How many bytes one read of a connection takes at most; the rest of a longer request is
/// not looked at.
pub const READ_CAPACITY: usize = 8192;

/// Status, reason phrase and body of the reply to the bytes `b` of a request: the route's
/// answer when the request line reads, and an internal error when it does not.
pub open spec fn reply_of(b: Seq<u8>) -> (u16, Seq<char>, Seq<char>) {
    match request_fields(b) {
        Ok((m, p, v)) => route_of(decode_utf8(m), decode_utf8(p)),
        Err(_) => (500, "Internal Server Error"@, "Internal Server Error"@),
    }
}

/// The bytes written back for the request bytes `b`.
pub open spec fn reply_bytes(b: Seq<u8>) -> Seq<u8> {
    encode_utf8(wire_text(reply_of(b).0, reply_of(b).1, reply_of(b).2))
}

/// What a connection that sent `received` gets back: nothing when it sent nothing, else the
/// encoded reply. A request that cannot be read is answered, never reported.
pub fn respond(received: &[u8]) -> (r: Option<Vec<u8>>)
    ensures
        r is None <==> received@.len() == 0,
        r matches Some(out) ==> out@ == reply_bytes(received@),
{
    if received.len() == 0 {
        return None;
    }
    let response = match parse_request(received) {
        Ok(request) => route(&request),
        Err(_) => Response::new(500, "Internal Server Error", "Internal Server Error"),
    };
    Some(response.to_bytes())
}

/// A request whose bytes are not UTF-8 text, or whose first line has fewer than two spaces
/// to part three fields, is answered with status 500.
pub proof fn lemma_unreadable_is_internal_error(b: Seq<u8>)
    requires
        !valid_utf8(b) || !has_space(first_line(b)) || !has_space(after_space(first_line(b))),
    ensures
        reply_of(b).0 == 500,
        reply_of(b).1 == "Internal Server Error"@,
{
}

/// A request that reads, for anything but `GET /` and `GET /health`, is answered with
/// status 404, "Not Found".
pub proof fn lemma_unknown_route_is_not_found(b: Seq<u8>)
    requires
        request_fields(b) matches Ok((m, p, v)) && !(decode_utf8(m) == "GET"@ && (decode_utf8(p)
            == "/"@ || decode_utf8(p) == "/health"@)),
    ensures
        reply_of(b).0 == 404,
        reply_of(b).1 == "Not Found"@,
{
}

/// A request that reads as `GET /` with any version is answered with status 200, "OK", and
/// the body "Hello, World!", whose byte length is what `Content-Length` carries.
pub proof fn lemma_root_is_greeted(b: Seq<u8>)
    requires
        request_fields(b) matches Ok((m, p, v)) && decode_utf8(m) == "GET"@ && decode_utf8(p)
            == "/"@,
    ensures
        reply_of(b) == (200u16, "OK"@, "Hello, World!"@),
{
}

} // verus!
