use vstd::prelude::*;
use vstd::string::StringSliceAdditionalSpecFns;
use vstd::utf8::*;

verus! {

broadcast use vstd::utf8::group_utf8_lib;

/// Relies on std::str::from_utf8: it accepts exactly the well-formed UTF-8 byte strings
/// and lends them back unchanged as text.
#[verifier::external_body]
fn utf8_text(b: &[u8]) -> (r: Option<&str>)
    ensures
        r is Some <==> valid_utf8(b@),
        r matches Some(s) ==> s.spec_bytes() == b@,
{
    std::str::from_utf8(b).ok()
}

/// Index of the first CR LF pair at or after `i`, or the length when there is none.
pub open spec fn crlf_from(b: Seq<u8>, i: int) -> int
    decreases b.len() - i,
{
    if i < 0 || i + 1 >= b.len() {
        b.len() as int
    } else if b[i] == 13 && b[i + 1] == 10 {
        i
    } else {
        crlf_from(b, i + 1)
    }
}

proof fn lemma_crlf_from(b: Seq<u8>, i: int)
    requires
        0 <= i,
    ensures
        crlf_from(b, i) <= b.len(),
        crlf_from(b, i) < b.len() ==> b[crlf_from(b, i)] == 13,
    decreases b.len() - i,
{
    if i + 1 < b.len() && !(b[i] == 13 && b[i + 1] == 10) {
        lemma_crlf_from(b, i + 1);
    }
}

fn find_crlf(b: &[u8]) -> (r: usize)
    ensures
        r == crlf_from(b@, 0),
        r <= b@.len(),
        r < b@.len() ==> b@[r as int] == 13,
{
    proof {
        lemma_crlf_from(b@, 0);
    }
    let n = b.len();
    let mut i: usize = 0;
    while i < n && i + 1 < n && !(b[i] == 13 && b[i + 1] == 10)
        invariant
            n == b@.len(),
            i <= n,
            crlf_from(b@, i as int) == crlf_from(b@, 0),
        decreases n - i,
    {
        i = i + 1;
    }
    if i < n && i + 1 < n {
        i
    } else {
        n
    }
}

/// Index of the first space at or after `i`, or the length when there is none.
pub open spec fn space_from(b: Seq<u8>, i: int) -> int
    decreases b.len() - i,
{
    if i < 0 || i >= b.len() {
        b.len() as int
    } else if b[i] == 32 {
        i
    } else {
        space_from(b, i + 1)
    }
}

proof fn lemma_space_from(b: Seq<u8>, i: int)
    requires
        0 <= i,
    ensures
        i <= b.len() ==> i <= space_from(b, i),
        space_from(b, i) <= b.len(),
        space_from(b, i) < b.len() ==> b[space_from(b, i)] == 32,
    decreases b.len() - i,
{
    if i < b.len() && b[i] != 32 {
        lemma_space_from(b, i + 1);
    }
}

fn find_space(b: &[u8]) -> (r: usize)
    ensures
        r == space_from(b@, 0),
        r <= b@.len(),
        r < b@.len() ==> b@[r as int] == 32,
{
    proof {
        lemma_space_from(b@, 0);
    }
    let n = b.len();
    let mut i: usize = 0;
    while i < n && b[i] != 32
        invariant
            n == b@.len(),
            i <= n,
            space_from(b@, i as int) == space_from(b@, 0),
        decreases n - i,
    {
        i = i + 1;
    }
    i
}

/// Why a request could not be read.
#[derive(Clone, Copy, Debug, PartialEq, Eq, Structural)]
pub enum ParseError {
    Empty,
    MalformedRequestLine,
    InvalidUtf8,
}

/// The request line of a request: method, target path and protocol version.
pub struct Request {
    pub method: String,
    pub path: String,
    pub version: String,
}

/// The bytes of the first line: everything before the first CR LF, or all of it.
pub open spec fn first_line(b: Seq<u8>) -> Seq<u8> {
    b.subrange(0, crlf_from(b, 0))
}

/// The bytes before the first space of `b`, or all of `b`.
pub open spec fn before_space(b: Seq<u8>) -> Seq<u8> {
    b.subrange(0, space_from(b, 0))
}

/// The bytes after the first space of `b`, when there is one.
pub open spec fn after_space(b: Seq<u8>) -> Seq<u8> {
    b.subrange(space_from(b, 0) + 1, b.len() as int)
}

/// Whether `b` holds a space.
pub open spec fn has_space(b: Seq<u8>) -> bool {
    space_from(b, 0) < b.len()
}

/// What a request reads as, as the three byte strings of its fields: the first line is cut at
/// its first two spaces, and the third field keeps any further spaces. An empty first line, or
/// an empty field, is `Empty`.
pub open spec fn request_fields(b: Seq<u8>) -> Result<(Seq<u8>, Seq<u8>, Seq<u8>), ParseError> {
    let line = first_line(b);
    let rest = after_space(line);
    if !valid_utf8(b) {
        Err(ParseError::InvalidUtf8)
    } else if line.len() == 0 {
        Err(ParseError::Empty)
    } else if !has_space(line) || !has_space(rest) {
        Err(ParseError::MalformedRequestLine)
    } else {
        let method = before_space(line);
        let path = before_space(rest);
        let version = after_space(rest);
        if method.len() == 0 || path.len() == 0 || version.len() == 0 {
            Err(ParseError::Empty)
        } else {
            Ok((method, path, version))
        }
    }
}

/// A position after a one-byte character at the front of valid text is a character boundary.
proof fn lemma_boundary_after_ascii(b: Seq<u8>)
    requires
        valid_utf8(b),
        b.len() > 0,
        b[0] < 128,
    ensures
        is_char_boundary(b, 1),
{
    reveal_with_fuel(is_char_boundary, 2);
    assert(is_leading_byte_width_1(b[0]));
}

/// Splits `s` at byte `at`, which is the end or a byte that opens no multi-byte character.
fn split_text(s: &str, at: usize) -> (r: (&str, &str))
    requires
        at <= s.spec_bytes().len(),
        at == s.spec_bytes().len() || s.spec_bytes()[at as int] < 128,
    ensures
        r.0.spec_bytes() == s.spec_bytes().subrange(0, at as int),
        r.1.spec_bytes() == s.spec_bytes().subrange(at as int, s.spec_bytes().len() as int),
{
    proof {
        let b = s.spec_bytes();
        assert(valid_utf8(b));
        if at < b.len() {
            assert(!is_continuation_byte(b[at as int]));
        }
        assert(is_char_boundary(b, at as int));
    }
    s.split_at(at)
}

/// Drops the first byte of `s`, which is a one-byte character.
fn skip_ascii(s: &str) -> (r: &str)
    requires
        s.spec_bytes().len() > 0,
        s.spec_bytes()[0] < 128,
    ensures
        r.spec_bytes() == s.spec_bytes().subrange(1, s.spec_bytes().len() as int),
{
    proof {
        lemma_boundary_after_ascii(s.spec_bytes());
    }
    s.split_at(1).1
}

/// Reads the request line of `buf`: method, path and version are its first three
/// space-separated fields, the last one running to the end of the line.
pub fn parse_request(buf: &[u8]) -> (r: Result<Request, ParseError>)
    ensures
        match (r, request_fields(buf@)) {
            (Ok(req), Ok((m, p, v))) => {
                &&& req.method@ == decode_utf8(m)
                &&& req.path@ == decode_utf8(p)
                &&& req.version@ == decode_utf8(v)
            },
            (Err(e), Err(f)) => e == f,
            _ => false,
        },
{
    let raw = match utf8_text(buf) {
        Some(t) => t,
        None => return Err(ParseError::InvalidUtf8),
    };
    let e = find_crlf(raw.as_bytes());
    let line = split_text(raw, e).0;
    assert(line.spec_bytes() =~= first_line(buf@));
    if line.as_bytes().len() == 0 {
        return Err(ParseError::Empty);
    }
    let s1 = find_space(line.as_bytes());
    if s1 == line.as_bytes().len() {
        return Err(ParseError::MalformedRequestLine);
    }
    let (method, tail) = split_text(line, s1);
    let rest = skip_ascii(tail);
    assert(method.spec_bytes() =~= before_space(first_line(buf@)));
    assert(rest.spec_bytes() =~= after_space(first_line(buf@)));
    let s2 = find_space(rest.as_bytes());
    if s2 == rest.as_bytes().len() {
        return Err(ParseError::MalformedRequestLine);
    }
    let (path, tail2) = split_text(rest, s2);
    let version = skip_ascii(tail2);
    assert(path.spec_bytes() =~= before_space(after_space(first_line(buf@))));
    assert(version.spec_bytes() =~= after_space(after_space(first_line(buf@))));
    if method.len() == 0 || path.len() == 0 || version.len() == 0 {
        return Err(ParseError::Empty);
    }
    Ok(Request { method: method.to_string(), path: path.to_string(), version: version.to_string() })
}

/// A response: status code, its fixed reason phrase, and a text body.
pub struct Response {
    pub status: u16,
    pub reason: &'static str,
    pub body: String,
}

/// The decimal digit `d` as a character.
pub open spec fn digit_char(d: int) -> char {
    ((48 + d) as u8) as char
}

/// The decimal numeral of `n`, without leading zeros.
pub open spec fn decimal(n: nat) -> Seq<char>
    decreases n,
{
    if n < 10 {
        seq![digit_char(n as int)]
    } else {
        decimal(n / 10).push(digit_char((n % 10) as int))
    }
}

/// The whole response as text: status line, the three headers, a blank line, then the body.
/// `Content-Length` is the byte length of the body's UTF-8 encoding.
pub open spec fn wire_text(status: u16, reason: Seq<char>, body: Seq<char>) -> Seq<char> {
    "HTTP/1.1 "@ + decimal(status as nat) + " "@ + reason + "\r\n"@
        + "Content-Type: text/plain; charset=utf-8\r\n"@ + "Content-Length: "@
        + decimal(encode_utf8(body).len()) + "\r\n"@ + "Connection: close\r\n\r\n"@ + body
}

/// The UTF-8 encoding of joined text is the joined encodings.
pub proof fn lemma_encode_concat(a: Seq<char>, b: Seq<char>)
    ensures
        encode_utf8(a + b) == encode_utf8(a) + encode_utf8(b),
    decreases a.len(),
{
    if a.len() == 0 {
        assert(a + b =~= b);
        assert(encode_utf8(a) =~= Seq::<u8>::empty());
        assert(encode_utf8(a) + encode_utf8(b) =~= encode_utf8(b));
    } else {
        assert((a + b)[0] == a[0]);
        assert((a + b).drop_first() =~= a.drop_first() + b);
        lemma_encode_concat(a.drop_first(), b);
        assert(encode_utf8(a + b) =~= encode_utf8(a) + encode_utf8(b));
    }
}

/// Appends the bytes of `s` to `out`.
fn push_text(out: &mut Vec<u8>, s: &str)
    ensures
        final(out)@ == old(out)@ + s.spec_bytes(),
{
    let b = s.as_bytes();
    let n = b.len();
    let mut i: usize = 0;
    while i < n
        invariant
            n == b@.len(),
            b@ == s.spec_bytes(),
            i <= n,
            out@ == old(out)@ + b@.subrange(0, i as int),
        decreases n - i,
    {
        out.push(b[i]);
        i = i + 1;
        assert(out@ =~= old(out)@ + b@.subrange(0, i as int));
    }
    assert(b@.subrange(0, n as int) =~= b@);
}

/// Appends the decimal numeral of `n` to `out`.
fn push_decimal(out: &mut Vec<u8>, n: usize)
    ensures
        final(out)@ == old(out)@ + encode_utf8(decimal(n as nat)),
    decreases n,
{
    if n >= 10 {
        push_decimal(out, n / 10);
    }
    let d: u8 = (n % 10) as u8;
    out.push(48 + d);
    proof {
        let c = digit_char(d as int);
        let one = seq![c];
        assert(is_ascii_chars(one));
        assert(encode_utf8(one) =~= seq![(48 + d) as u8]);
        if n >= 10 {
            assert(decimal(n as nat) =~= decimal((n / 10) as nat) + one);
            lemma_encode_concat(decimal((n / 10) as nat), one);
        } else {
            assert(decimal(n as nat) =~= one);
        }
        assert(out@ =~= old(out)@ + encode_utf8(decimal(n as nat)));
    }
}

/// Appends the bytes of `s` to `out`, which holds the encoding of `t`.
fn push_piece(out: &mut Vec<u8>, s: &str, Ghost(t): Ghost<Seq<char>>)
    requires
        old(out)@ == encode_utf8(t),
    ensures
        final(out)@ == encode_utf8(t + s@),
{
    push_text(out, s);
    proof {
        lemma_encode_concat(t, s@);
    }
}

/// Appends the numeral of `n` to `out`, which holds the encoding of `t`.
fn push_number(out: &mut Vec<u8>, n: usize, Ghost(t): Ghost<Seq<char>>)
    requires
        old(out)@ == encode_utf8(t),
    ensures
        final(out)@ == encode_utf8(t + decimal(n as nat)),
{
    push_decimal(out, n);
    proof {
        lemma_encode_concat(t, decimal(n as nat));
    }
}

impl Response {
    /// A response with the given status, reason phrase and body.
    pub fn new(status: u16, reason: &'static str, body: &str) -> (r: Response)
        ensures
            r.status == status,
            r.reason == reason,
            r.body@ == body@,
    {
        Response { status, reason, body: body.to_string() }
    }

    /// The response as it goes on the wire: the UTF-8 encoding of its text.
    pub fn to_bytes(&self) -> (r: Vec<u8>)
        ensures
            r@ == encode_utf8(wire_text(self.status, self.reason@, self.body@)),
    {
        let body = self.body.as_str();
        let mut out: Vec<u8> = Vec::new();
        let ghost mut t: Seq<char> = Seq::empty();
        assert(encode_utf8(t) =~= out@);
        push_piece(&mut out, "HTTP/1.1 ", Ghost(t));
        proof { t = t + "HTTP/1.1 "@; }
        push_number(&mut out, self.status as usize, Ghost(t));
        proof { t = t + decimal(self.status as nat); }
        push_piece(&mut out, " ", Ghost(t));
        proof { t = t + " "@; }
        push_piece(&mut out, self.reason, Ghost(t));
        proof { t = t + self.reason@; }
        push_piece(&mut out, "\r\n", Ghost(t));
        proof { t = t + "\r\n"@; }
        push_piece(&mut out, "Content-Type: text/plain; charset=utf-8\r\n", Ghost(t));
        proof { t = t + "Content-Type: text/plain; charset=utf-8\r\n"@; }
        push_piece(&mut out, "Content-Length: ", Ghost(t));
        proof { t = t + "Content-Length: "@; }
        let length = body.as_bytes().len();
        assert(body@ == self.body@);
        assert(length as nat == encode_utf8(self.body@).len());
        push_number(&mut out, length, Ghost(t));
        proof { t = t + decimal(encode_utf8(self.body@).len()); }
        push_piece(&mut out, "\r\n", Ghost(t));
        proof { t = t + "\r\n"@; }
        push_piece(&mut out, "Connection: close\r\n\r\n", Ghost(t));
        proof { t = t + "Connection: close\r\n\r\n"@; }
        push_piece(&mut out, body, Ghost(t));
        proof { t = t + self.body@; }
        assert(t == wire_text(self.status, self.reason@, self.body@));
        out
    }
}

} // verus!
