//! The HTTP probe that tells whether a dbx server answers: the request it
//! sends, when it stops reading the reply, and how it judges the reply.
use vstd::prelude::*;
use vstd::utf8::{decode_utf8, valid_utf8};

use crate::numbers::{decimal, parse_u16, parse_u16_spec, push_decimal};
use crate::text::{chars_of, lines_of, split_lines, split_words, views, words_of};

verus! {

/// The port dbx serves on.
pub const DBX_PORT: u16 = 4224;

/// A reply is read no further than this many bytes.
pub const MAX_REPLY_BYTES: usize = 16384;

/// Once the header is complete, this many bytes of body are enough.
pub const BODY_SAMPLE_BYTES: usize = 1024;

/// The status code on the status line of an HTTP reply head: the second
/// white-space separated word of the first line, read as a `u16`.
pub open spec fn status_of(head: Seq<char>) -> Option<u16> {
    let ls = lines_of(head);
    if ls.len() == 0 {
        None
    } else {
        let w = words_of(ls[0]);
        if w.len() < 2 {
            None
        } else {
            parse_u16_spec(w[1], 10)
        }
    }
}

/// The status code of an HTTP reply head, such as 200 for `HTTP/1.0 200 OK`.
pub fn parse_status(head: &str) -> (r: Option<u16>)
    ensures
        r == status_of(head@),
{
    let text = chars_of(head);
    let lines = split_lines(&text);
    if lines.len() == 0 {
        return None;
    }
    assert(views(lines@)[0] == lines@[0]@);
    let words = split_words(&lines[0]);
    if words.len() < 2 {
        return None;
    }
    assert(views(words@)[1] == words@[1]@);
    parse_u16(&words[1])
}

/// The four bytes `\r\n\r\n` that end an HTTP header start at `k`.
pub open spec fn header_end_at(b: Seq<u8>, k: int) -> bool {
    0 <= k && k + 4 <= b.len() && b[k] == 13 && b[k + 1] == 10 && b[k + 2] == 13 && b[k + 3] == 10
}

/// The first `k >= i` where the header ends.
pub open spec fn header_end_from(b: Seq<u8>, i: int) -> Option<int>
    decreases b.len() + 1 - i,
{
    if i < 0 || i + 4 > b.len() {
        None
    } else if header_end_at(b, i) {
        Some(i)
    } else {
        header_end_from(b, i + 1)
    }
}

/// Enough of a reply has arrived: the read limit is reached, or the header
/// is complete and at least `BODY_SAMPLE_BYTES` of body follow it.
pub open spec fn reply_complete(b: Seq<u8>) -> bool {
    ||| b.len() >= MAX_REPLY_BYTES
    ||| (header_end_from(b, 0) matches Some(pos) && b.len() - pos - 4 >= BODY_SAMPLE_BYTES)
}

/// The position of the first `\r\n\r\n` in `buf`.
pub fn find_header_end(buf: &Vec<u8>) -> (r: Option<usize>)
    ensures
        match r {
            Some(pos) => header_end_from(buf@, 0) == Some(pos as int) && pos + 4 <= buf.len(),
            None => header_end_from(buf@, 0) is None,
        },
{
    if buf.len() < 4 {
        return None;
    }
    let last = buf.len() - 4;
    let mut k: usize = 0;
    loop
        invariant
            last + 4 == buf.len(),
            0 <= k <= last,
            header_end_from(buf@, k as int) == header_end_from(buf@, 0),
        decreases last - k,
    {
        if buf[k] == 13 && buf[k + 1] == 10 && buf[k + 2] == 13 && buf[k + 3] == 10 {
            return Some(k);
        }
        if k == last {
            assert(header_end_from(buf@, k + 1) is None);
            return None;
        }
        k = k + 1;
    }
}

/// Whether the probe may stop reading, given the bytes read so far.
pub fn response_complete(buf: &Vec<u8>) -> (r: bool)
    ensures
        r == reply_complete(buf@),
{
    if buf.len() >= MAX_REPLY_BYTES {
        return true;
    }
    match find_header_end(buf) {
        Some(pos) => buf.len() - pos - 4 >= BODY_SAMPLE_BYTES,
        None => false,
    }
}

/// What `String::from_utf8_lossy` makes of `bytes`.
pub uninterp spec fn utf8_lossy(bytes: Seq<u8>) -> Seq<char>;

/// Calls `String::from_utf8_lossy`. Its result is named `utf8_lossy`; as
/// std documents, valid UTF-8 is decoded unchanged. How invalid sequences
/// are replaced is left unstated.
#[verifier::external_body]
fn decode_lossy(bytes: &[u8]) -> (r: String)
    ensures
        r@ == utf8_lossy(bytes@),
        valid_utf8(bytes@) ==> r@ == decode_utf8(bytes@),
{
    String::from_utf8_lossy(bytes).into_owned()
}

/// The status code the probe reads from the bytes it received: none when
/// nothing arrived or the status line does not parse.
pub open spec fn reply_head(buf: Seq<u8>) -> Option<u16> {
    if buf.len() == 0 {
        None
    } else {
        status_of(utf8_lossy(buf))
    }
}

/// The body bytes received: those after the first `\r\n\r\n`, none when
/// the header is not complete.
pub open spec fn reply_body(buf: Seq<u8>) -> Seq<u8> {
    match header_end_from(buf, 0) {
        Some(pos) => buf.subrange(pos + 4, buf.len() as int),
        None => seq![],
    }
}

/// The status code of a reply and the first bytes of its body, the reply
/// read as text the way `String::from_utf8_lossy` reads it.
pub fn response_head(buf: Vec<u8>) -> (r: Option<(u16, Vec<u8>)>)
    ensures
        match r {
            Some((code, body)) => reply_head(buf@) == Some(code) && body@ == reply_body(buf@),
            None => reply_head(buf@) is None,
        },
{
    if buf.len() == 0 {
        return None;
    }
    let text = decode_lossy(buf.as_slice());
    match parse_status(text.as_str()) {
        Some(code) => {
            let body = match find_header_end(&buf) {
                Some(pos) => {
                    let mut body: Vec<u8> = Vec::new();
                    let mut k = pos + 4;
                    while k < buf.len()
                        invariant
                            pos + 4 <= k <= buf.len(),
                            body@ == buf@.subrange(pos + 4, k as int),
                        decreases buf.len() - k,
                    {
                        body.push(buf[k]);
                        k = k + 1;
                        assert(body@ =~= buf@.subrange(pos + 4, k as int));
                    }
                    body
                },
                None => Vec::new(),
            };
            Some((code, body))
        },
        None => None,
    }
}

/// A status code of success or redirection (200 to 399).
pub open spec fn serving_code(code: u16) -> bool {
    200 <= code < 400
}

/// Whether a probe result shows a serving dbx: an HTTP 2xx or 3xx reply.
pub fn is_dbx_server(reply: &Option<(u16, Vec<u8>)>) -> (r: bool)
    ensures
        r == (*reply matches Some((code, _)) && serving_code(code)),
{
    match reply {
        Some((code, _)) => 200 <= *code && *code < 400,
        None => false,
    }
}

/// The port dbx serves on, when the probe of its fixed port found it.
pub fn discover_dbx(reply: &Option<(u16, Vec<u8>)>) -> (r: Option<u16>)
    ensures
        r == (if *reply matches Some((code, _)) && serving_code(code) {
            Some(DBX_PORT)
        } else {
            None
        }),
{
    if is_dbx_server(reply) {
        Some(DBX_PORT)
    } else {
        None
    }
}

/// The request the probe sends: `GET /` over HTTP/1.0 with a `Host` header.
pub open spec fn probe_request_text(host: Seq<char>, port: u16) -> Seq<char> {
    "GET / HTTP/1.0\r\nHost: "@ + host + ":"@ + decimal(port as nat) + "\r\n\r\n"@
}

/// The request the probe sends to `host:port`.
pub fn probe_request(host: &str, port: u16) -> (r: String)
    ensures
        r@ == probe_request_text(host@, port),
{
    let mut req = "GET / HTTP/1.0\r\nHost: ".to_owned();
    req.append(host);
    req.append(":");
    push_decimal(&mut req, port);
    req.append("\r\n\r\n");
    req
}

} // verus!
