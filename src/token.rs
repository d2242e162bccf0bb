//! The authentication token frame: a username and a password carried as two
//! short strings behind a header of kind `KIND_TOKEN`.

use vstd::prelude::*;
use vstd::string::*;
use vstd::utf8::*;

use crate::codec::{
    header_bytes, lemma_header_round_trip, read_short_string, short_string_bytes,
    spec_decode_header, spec_read_short_string, write_short_string, ProtError, ProtFrameHeader,
    ProxyResult, HEADER_LEN, KIND_TOKEN, SHORT_STRING_MAX,
};

verus! {

/// Credentials presented by a connecting client.
#[derive(Debug)]
pub struct ProtToken {
    username: String,
    password: String,
}

/// The body of a token frame for the given credentials.
pub open spec fn token_body(username: Seq<char>, password: Seq<char>) -> Seq<u8> {
    short_string_bytes(encode_utf8(username)) + short_string_bytes(encode_utf8(password))
}

/// The header of a token frame whose body has `len` bytes.
pub open spec fn token_header(len: int) -> ProtFrameHeader {
    ProtFrameHeader { kind: KIND_TOKEN, flag: 0, length: len as u32 }
}

/// The whole token frame, header then body.
pub open spec fn token_frame(username: Seq<char>, password: Seq<char>) -> Seq<u8> {
    let body = token_body(username, password);
    header_bytes(token_header(body.len() as int)) + body
}

/// Both fields fit a short string.
pub open spec fn fits_short_strings(username: Seq<char>, password: Seq<char>) -> bool {
    encode_utf8(username).len() <= SHORT_STRING_MAX && encode_utf8(password).len()
        <= SHORT_STRING_MAX
}

/// Parsing a token body: `header.length` bytes are taken from `b` and must
/// hold exactly two short strings, username first.
pub open spec fn spec_parse_token(header: ProtFrameHeader, b: Seq<u8>) -> Option<
    (Seq<char>, Seq<char>),
> {
    let len = header.length as int;
    if b.len() < len {
        None
    } else {
        let body = b.subrange(0, len);
        match spec_read_short_string(body) {
            None => None,
            Some((u, n)) => match spec_read_short_string(body.subrange(n, len)) {
                None => None,
                Some((p, m)) => if n + m == len {
                    Some((u, p))
                } else {
                    None
                },
            },
        }
    }
}

/// Whether an expectation accepts a value: an absent one accepts any.
pub open spec fn accepts(expected: Option<String>, actual: Seq<char>) -> bool {
    match expected {
        None => true,
        Some(e) => e@ == actual,
    }
}

impl View for ProtToken {
    type V = (Seq<char>, Seq<char>);

    closed spec fn view(&self) -> (Seq<char>, Seq<char>) {
        (self.username@, self.password@)
    }
}

impl ProtToken {
    pub fn new(username: String, password: String) -> (r: ProtToken)
        ensures
            r@ == (username@, password@),
    {
        ProtToken { username, password }
    }

    /// Reads the token from the body that follows `header` in `buf`.
    pub fn parse(header: ProtFrameHeader, buf: &[u8]) -> (r: ProxyResult<ProtToken>)
        ensures
            match spec_parse_token(header, buf@) {
                None => r == Err::<ProtToken, ProtError>(ProtError::Malformed),
                Some(v) => r matches Ok(t) && t@ == v,
            },
    {
        let len = header.length as usize;
        if buf.len() < len {
            return Err(ProtError::Malformed);
        }
        let body = slice_prefix(buf, len);
        let (username, n) = match read_short_string(body, 0) {
            Ok(v) => v,
            Err(e) => return Err(e),
        };
        proof {
            assert(body@.subrange(0, body@.len() as int) == body@);
        }
        let (password, m) = match read_short_string(body, n) {
            Ok(v) => v,
            Err(e) => return Err(e),
        };
        if m != len {
            return Err(ProtError::Malformed);
        }
        Ok(ProtToken { username, password })
    }

    /// Appends the whole frame, header then body, to `buf` and returns the
    /// number of bytes written. A field too long for a short string is
    /// refused before anything is written.
    pub fn encode(self, buf: &mut Vec<u8>) -> (r: ProxyResult<usize>)
        ensures
            r is Ok <==> fits_short_strings(self@.0, self@.1),
            r matches Ok(n) ==> n == token_frame(self@.0, self@.1).len() && final(buf)@ == old(
                buf,
            )@ + token_frame(self@.0, self@.1),
            r matches Err(e) ==> e == ProtError::TooLong && final(buf)@ == old(buf)@,
    {
        let ulen = self.username.as_str().as_bytes().len();
        let plen = self.password.as_str().as_bytes().len();
        if ulen > SHORT_STRING_MAX || plen > SHORT_STRING_MAX {
            return Err(ProtError::TooLong);
        }
        let head = ProtFrameHeader::new(KIND_TOKEN, 0, (ulen + 1 + plen + 1) as u32);
        let ghost start = buf@;
        let mut size = head.encode(buf);
        match write_short_string(buf, self.username.as_str()) {
            Ok(k) => size += k,
            Err(e) => return Err(e),
        }
        match write_short_string(buf, self.password.as_str()) {
            Ok(k) => size += k,
            Err(e) => return Err(e),
        }
        proof {
            assert(buf@ == start + token_frame(self@.0, self@.1));
        }
        Ok(size)
    }

    pub fn username(&self) -> (r: &String)
        ensures
            r@ == self@.0,
    {
        &self.username
    }

    pub fn password(&self) -> (r: &String)
        ensures
            r@ == self@.1,
    {
        &self.password
    }

    /// Whether the credentials meet both expectations; an absent expectation
    /// accepts any value.
    pub fn is_check_succ(&self, username: &Option<String>, password: &Option<String>) -> (r: bool)
        ensures
            r == (accepts(*username, self@.0) && accepts(*password, self@.1)),
    {
        match username {
            Some(u) => {
                if !u.eq(&self.username) {
                    return false;
                }
            },
            None => {},
        }
        match password {
            Some(p) => {
                if !p.eq(&self.password) {
                    return false;
                }
            },
            None => {},
        }
        true
    }

    /// Token frames always travel on the control stream, id 0.
    pub fn sock_map(&self) -> (r: u64)
        ensures
            r == 0,
    {
        0
    }
}

/// The first `len` bytes of `buf`.
fn slice_prefix(buf: &[u8], len: usize) -> (r: &[u8])
    requires
        len <= buf@.len(),
    ensures
        r@ == buf@.subrange(0, len as int),
{
    buf.split_at(len).0
}

/// Encoding a token and decoding the frame gives back the same credentials,
/// for any pair whose fields fit a short string.
pub proof fn lemma_token_round_trip(username: Seq<char>, password: Seq<char>)
    requires
        fits_short_strings(username, password),
    ensures
        ({
            let frame = token_frame(username, password);
            &&& spec_decode_header(frame) == Some(
                token_header(token_body(username, password).len() as int),
            )
            &&& spec_parse_token(
                token_header(token_body(username, password).len() as int),
                frame.subrange(HEADER_LEN as int, frame.len() as int),
            ) == Some((username, password))
        }),
{
    let body = token_body(username, password);
    let h = token_header(body.len() as int);
    lemma_header_round_trip(h, body);
    lemma_token_length(username, password);
    let frame = token_frame(username, password);
    assert(frame.subrange(HEADER_LEN as int, frame.len() as int) == body);
    assert(body.subrange(0, body.len() as int) == body);
}

/// The `length` that encoding writes into the header is exactly the number
/// of bytes that decoding the two fields of the body consumes.
pub proof fn lemma_token_length(username: Seq<char>, password: Seq<char>)
    requires
        fits_short_strings(username, password),
    ensures
        ({
            let body = token_body(username, password);
            let len = token_header(body.len() as int).length as int;
            let n = encode_utf8(username).len() + 1int;
            let m = encode_utf8(password).len() + 1int;
            &&& len == body.len()
            &&& spec_read_short_string(body) == Some((username, n))
            &&& spec_read_short_string(body.subrange(n, len)) == Some((password, m))
            &&& n + m == len
        }),
{
    let ub = encode_utf8(username);
    let pb = encode_utf8(password);
    let body = token_body(username, password);
    encode_utf8_valid_utf8(username);
    encode_utf8_valid_utf8(password);
    encode_utf8_decode_utf8(username);
    encode_utf8_decode_utf8(password);
    let n = ub.len() + 1int;
    assert(body.subrange(1, n) == ub);
    assert(body.subrange(n, body.len() as int) == short_string_bytes(pb));
    assert(short_string_bytes(pb).subrange(1, pb.len() + 1int) == pb);
}

} // verus!
