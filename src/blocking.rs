//! The header check of the simple synchronous client: what an `api` reply declares about itself.
use vstd::prelude::*;
use vstd::string::StringSliceAdditionalSpecFns;
use crate::error::EslError;
use crate::parser::whole_length;
use crate::text::text_of;

verus! {

/// The two fields of the content header of an `api` reply.
pub uninterp spec fn header_fields(text: Seq<char>) -> Option<(Seq<char>, Seq<char>)>;

/// Relies on `regex::Regex::captures` with the pattern
/// `Content-Type: ([a-z/]+)\nContent-Length: (\d+)`: the two groups of the first match, which
/// depend on the text alone.
#[verifier::external_body]
fn capture_header_fields(text: &str) -> (r: Option<(String, String)>)
    ensures
        match r {
            Some((t, l)) => header_fields(text@) == Some((t@, l@)),
            None => header_fields(text@) is None,
        },
{
    let re = regex::Regex::new("Content-Type: ([a-z//]+)\\nContent-Length: (\\d+)").ok()?;
    let cap = re.captures(text)?;
    Some((cap.get(1)?.as_str().to_owned(), cap.get(2)?.as_str().to_owned()))
}

/// The content type and length that a reply declares.
#[derive(Debug, Clone)]
pub struct ResponseHeaders {
    content_type: String,
    content_length: usize,
}

pub struct ResponseHeadersView {
    pub content_type: Seq<char>,
    pub content_length: usize,
}

impl View for ResponseHeaders {
    type V = ResponseHeadersView;

    closed spec fn view(&self) -> ResponseHeadersView {
        ResponseHeadersView { content_type: self.content_type@, content_length: self.content_length }
    }
}

impl View for ApiResponse {
    type V = (ResponseHeadersView, Seq<char>);

    closed spec fn view(&self) -> (ResponseHeadersView, Seq<char>) {
        (self.headers@, self.body@)
    }
}

impl ResponseHeaders {
    pub fn new(content_type: String, content_length: usize) -> (r: ResponseHeaders)
        ensures
            r@ == (ResponseHeadersView { content_type: content_type@, content_length }),
    {
        ResponseHeaders { content_type, content_length }
    }

    pub fn content_type(&self) -> (r: &String)
        ensures
            r@ == self@.content_type,
    {
        &self.content_type
    }

    pub fn content_length(&self) -> (r: usize)
        ensures
            r == self@.content_length,
    {
        self.content_length
    }
}

/// A reply: its content header and its body.
#[derive(Debug, Clone)]
pub struct ApiResponse {
    headers: ResponseHeaders,
    body: String,
}

impl ApiResponse {
    pub fn new(headers: ResponseHeaders, body: String) -> (r: ApiResponse)
        ensures
            r@ == (headers@, body@),
    {
        ApiResponse { headers, body }
    }

    pub fn headers(&self) -> (r: &ResponseHeaders)
        ensures
            r@ == self@.0,
    {
        &self.headers
    }

    pub fn body(&self) -> (r: &String)
        ensures
            r@ == self@.1,
    {
        &self.body
    }
}

/// The text of received bytes.
pub fn parse(buf: &[u8]) -> (r: String)
    ensures
        crate::text::text_is(r@, buf@),
{
    text_of(buf)
}

/// The content header made of the two captured fields: the length must be decimal digits.
pub fn headers_from_fields(content_type: String, content_length: &str) -> (r: Result<
    ResponseHeaders,
    EslError,
>)
    ensures
        match whole_length(content_length.spec_bytes()) {
            Some(n) => r matches Ok(h) && h@ == (ResponseHeadersView {
                content_type: content_type@,
                content_length: n as usize,
            }),
            None => r matches Err(EslError::InternalError(_)),
        },
{
    match crate::parser::parse_whole_length(content_length.as_bytes()) {
        Some(n) => Ok(ResponseHeaders::new(content_type, n as usize)),
        None => Err(EslError::InternalError("Content-Length is not a decimal length".to_owned())),
    }
}

/// Finds the content header in the start of a reply.
pub fn response_headers(text: &str) -> (r: Result<ResponseHeaders, EslError>)
    ensures
        match header_fields(text@) {
            None => r matches Err(EslError::InternalError(_)),
            Some((t, l)) => match whole_length(vstd::utf8::encode_utf8(l)) {
                Some(n) => r matches Ok(h) && h@ == (ResponseHeadersView {
                    content_type: t,
                    content_length: n as usize,
                }),
                None => r matches Err(EslError::InternalError(_)),
            },
        },
{
    match capture_header_fields(text) {
        Some((t, l)) => headers_from_fields(t, l.as_str()),
        None => Err(EslError::InternalError("no content header in the reply".to_owned())),
    }
}

} // verus!
