use crate::http::{Request, Response};
use vstd::prelude::*;
use vstd::string::StringSliceAdditionalSpecFns;
use vstd::utf8::{decode_utf8, encode_utf8};

verus! {

broadcast use vstd::utf8::group_utf8_lib;

/// Whether `s` and `lit` are the same text, compared byte by byte.
fn same_text(s: &str, lit: &str) -> (r: bool)
    ensures
        r == (s@ == lit@),
{
    let a = s.as_bytes();
    let b = lit.as_bytes();
    proof {
        assert(decode_utf8(encode_utf8(s@)) == s@);
        assert(decode_utf8(encode_utf8(lit@)) == lit@);
        assert(a@ == encode_utf8(s@));
        assert(b@ == encode_utf8(lit@));
    }
    if a.len() != b.len() {
        assert(a@ != b@);
        return false;
    }
    let mut i: usize = 0;
    while i < a.len()
        invariant
            a@.len() == b@.len(),
            a@ == encode_utf8(s@),
            b@ == encode_utf8(lit@),
            i <= a@.len(),
            forall|j: int| 0 <= j < i ==> a@[j] == b@[j],
        decreases a@.len() - i,
    {
        if a[i] != b[i] {
            assert(a@ != b@);
            return false;
        }
        i = i + 1;
    }
    assert(a@ =~= b@);
    true
}

/// Status, reason phrase and body that a request for `path` with `method` is answered with.
pub open spec fn route_of(method: Seq<char>, path: Seq<char>) -> (u16, Seq<char>, Seq<char>) {
    if method == "GET"@ && path == "/"@ {
        (200, "OK"@, "Hello, World!"@)
    } else if method == "GET"@ && path == "/health"@ {
        (200, "OK"@, "OK"@)
    } else {
        (404, "Not Found"@, "Not Found"@)
    }
}

/// Answers a request: `GET /` and `GET /health` are served, anything else is not found.
pub fn route(request: &Request) -> (r: Response)
    ensures
        (r.status, r.reason@, r.body@) == route_of(request.method@, request.path@),
{
    let get = same_text(request.method.as_str(), "GET");
    if get && same_text(request.path.as_str(), "/") {
        Response::new(200, "OK", "Hello, World!")
    } else if get && same_text(request.path.as_str(), "/health") {
        Response::new(200, "OK", "OK")
    } else {
        Response::new(404, "Not Found", "Not Found")
    }
}

} // verus!
