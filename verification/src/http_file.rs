//! A minimal HTTP file server and client: the file a request asks for, the
//! responses the server sends, the request the client sends, and the parts
//! of the response it shows.
use vstd::prelude::*;
use vstd::string::StringSliceAdditionalSpecFns;
use crate::text::{chars_of, decimal, push_decimal, push_str, skip_char, skip_while_eq, string_from_range, string_of};

verus! {

/// The request target of an HTTP request, when the request head parses
/// completely (`None` otherwise); the target itself may be absent.
pub uninterp spec fn http_request_path(buf: Seq<u8>) -> Option<Option<Seq<char>>>;

/// Parses a request head with room for 64 headers
/// (`httparse::Request::parse`) and gives its target when the head is
/// complete. What counts as a complete, valid head is httparse's and is
/// not restated.
#[verifier::external_body]
fn parse_request_path(buf: &[u8]) -> (res: Option<Option<String>>)
    ensures
        match res {
            None => http_request_path(buf@) is None,
            Some(None) => http_request_path(buf@) == Some(None::<Seq<char>>),
            Some(Some(p)) => http_request_path(buf@) == Some(Some(p@)),
        },
{
    let mut headers = [httparse::EMPTY_HEADER; 64];
    let mut req = httparse::Request::new(&mut headers);
    match req.parse(buf) {
        Ok(httparse::Status::Complete(_)) => Some(req.path.map(|p| p.to_string())),
        Ok(httparse::Status::Partial) => None,
        Err(_) => None,
    }
}

/// The file a complete request asks for: its target (or "/") without the
/// leading slashes.
pub open spec fn requested_name(target: Option<Seq<char>>) -> Seq<char> {
    let p = match target {
        Some(p) => p,
        None => seq!['/'],
    };
    p.subrange(skip_char(p, '/', 0), p.len() as int)
}

/// The file the request in `buffer` asks for, or `None` when the request
/// is incomplete or invalid.
pub fn requested_file(buffer: &[u8]) -> (res: Option<String>)
    ensures
        match http_request_path(buffer@) {
            None => res is None,
            Some(target) => res matches Some(name) && name@ == requested_name(target),
        },
{
    match parse_request_path(buffer) {
        None => None,
        Some(target) => Some(file_name_for_target(target)),
    }
}

/// The file a complete request with request target `target` asks for.
pub fn file_name_for_target(target: Option<String>) -> (res: String)
    ensures
        res@ == requested_name(match target {
            Some(p) => Some(p@),
            None => None,
        }),
{
    let ghost tv = match &target {
        Some(p) => Some(p@),
        None => None,
    };
    let p = match target {
        Some(p) => p,
        None => string_of("/"),
    };
    proof {
        reveal_strlit("/");
        assert("/"@ =~= seq!['/']);
        assert(p@ == match tv {
            Some(x) => x,
            None => seq!['/'],
        });
    }
    let cs = chars_of(p.as_str());
    let start = skip_while_eq(cs.as_slice(), '/', 0);
    string_from_range(cs.as_slice(), start, cs.len())
}

/// The head of a response that carries a file of `len` bytes.
pub open spec fn ok_head(len: nat) -> Seq<char> {
    "HTTP/1.1 200 OK\r\nContent-Length: "@ + decimal(len) + "\r\nConnection: close\r\n\r\n"@
}

/// The head sent before a file of `content_length` bytes.
pub fn ok_response_head(content_length: usize) -> (res: String)
    ensures
        res@ == ok_head(content_length as nat),
{
    let mut s = string_of("HTTP/1.1 200 OK\r\nContent-Length: ");
    push_decimal(&mut s, content_length as u64);
    push_str(&mut s, "\r\nConnection: close\r\n\r\n");
    s
}

/// The page sent for a missing file.
pub open spec fn not_found_body() -> Seq<char> {
    "<meta charset='UTF-8'><h1>404 Not Found</h1><p>The requested file was not found ¯\\_(ツ)_/¯.</p>"@
}

/// The whole response for a missing file; its length header counts the
/// page's UTF-8 bytes.
pub fn not_found_response() -> (res: String)
    ensures
        res@ == "HTTP/1.1 404 Not Found\r\nContent-Type: text/html\r\nContent-Length: "@ + decimal(
            vstd::utf8::encode_utf8(not_found_body()).len(),
        ) + "\r\nConnection: close\r\n\r\n"@ + not_found_body(),
{
    let body = "<meta charset='UTF-8'><h1>404 Not Found</h1><p>The requested file was not found ¯\\_(ツ)_/¯.</p>";
    let len = body.as_bytes().len();
    let mut s = string_of("HTTP/1.1 404 Not Found\r\nContent-Type: text/html\r\nContent-Length: ");
    push_decimal(&mut s, len as u64);
    push_str(&mut s, "\r\nConnection: close\r\n\r\n");
    push_str(&mut s, body);
    s
}

/// The request target for a file name: the name itself when it starts
/// with a slash, otherwise the name after a slash.
pub open spec fn target_of(filename: Seq<char>) -> Seq<char> {
    if filename.len() > 0 && filename[0] == '/' {
        filename
    } else {
        seq!['/'] + filename
    }
}

/// The request the client sends for `filename` to `server_address`.
pub fn get_request(filename: &str, server_address: &str) -> (res: String)
    ensures
        res@ == "GET "@ + target_of(filename@) + " HTTP/1.1\r\nHost: "@ + server_address@
            + "\r\nConnection: close\r\n\r\n"@,
{
    let cs = chars_of(filename);
    let mut s = string_of("GET ");
    if !(cs.len() > 0 && cs[0] == '/') {
        push_str(&mut s, "/");
        proof {
            reveal_strlit("/");
        }
    }
    push_str(&mut s, filename);
    push_str(&mut s, " HTTP/1.1\r\nHost: ");
    push_str(&mut s, server_address);
    push_str(&mut s, "\r\nConnection: close\r\n\r\n");
    s
}

/// The parsed head of a response.
pub struct ResponseHead {
    pub version: Option<u8>,
    pub code: Option<u16>,
    pub reason: Option<String>,
    pub headers: Vec<(String, Vec<u8>)>,
    pub body_offset: usize,
}

/// A response head as plain values.
pub type HeadModel = (Option<u8>, Option<u16>, Option<Seq<char>>, Seq<(Seq<char>, Seq<u8>)>, nat);

impl ResponseHead {
    pub open spec fn model(&self) -> HeadModel {
        (
            self.version,
            self.code,
            match self.reason {
                Some(r) => Some(r@),
                None => None,
            },
            self.headers@.map_values(|h: (String, Vec<u8>)| (h.0@, h.1@)),
            self.body_offset as nat,
        )
    }
}

/// The head of an HTTP response when it parses completely.
pub uninterp spec fn http_response_head(buf: Seq<u8>) -> Option<HeadModel>;

/// Parses a response head with room for 64 headers
/// (`httparse::Response::parse`); when complete, gives version, code,
/// reason, headers and where the body starts, which is within the buffer.
#[verifier::external_body]
fn parse_response_head(buf: &[u8]) -> (res: Option<ResponseHead>)
    ensures
        match res {
            None => http_response_head(buf@) is None,
            Some(h) => http_response_head(buf@) == Some(h.model()) && h.body_offset <= buf@.len(),
        },
{
    let mut headers = [httparse::EMPTY_HEADER; 64];
    let mut res = httparse::Response::new(&mut headers);
    match res.parse(buf) {
        Ok(httparse::Status::Complete(offset)) => Some(ResponseHead {
            version: res.version,
            code: res.code,
            reason: res.reason.map(|r| r.to_string()),
            headers: res.headers.iter().map(|h| (h.name.to_string(), h.value.to_vec())).collect(),
            body_offset: offset,
        }),
        Ok(httparse::Status::Partial) => None,
        Err(_) => None,
    }
}

/// Splits a response into its parsed head and its body (the bytes after
/// the head), or `None` when the head is incomplete or invalid.
pub fn split_response(response: &[u8]) -> (res: Option<(ResponseHead, Vec<u8>)>)
    ensures
        match http_response_head(response@) {
            None => res is None,
            Some(h) => res matches Some((head, body)) && head.model() == h && body@
                == response@.subrange(h.4 as int, response@.len() as int),
        },
{
    match parse_response_head(response) {
        None => None,
        Some(head) => Some(split_with_head(response, head)),
    }
}

/// A response split after its parsed head: the head, and the bytes from
/// where the body starts.
pub fn split_with_head(response: &[u8], head: ResponseHead) -> (res: (ResponseHead, Vec<u8>))
    requires
        head.body_offset <= response@.len(),
    ensures
        res.0 == head,
        res.1@ == response@.subrange(head.body_offset as int, response@.len() as int),
{
    let body = crate::bytes::copy_range(response, head.body_offset, response.len());
    (head, body)
}

} // verus!
