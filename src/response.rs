//! Responses and their encoding into the bytes sent on the wire.
use vstd::prelude::*;
use crate::config::HttpProtocol;
use crate::header::HttpHeader;
use crate::request::{AcceptedEncoding, Request};
use crate::text::{decimal, digits_of};
use crate::text_map::TextMap;
use vstd::string::StringExecFns;
use vstd::slice::slice_to_vec;
use vstd::utf8::encode_utf8;

verus! {

/// The status codes the server sends.
#[derive(Debug, Clone, Copy, PartialEq, Eq, Structural)]
pub enum HttpResponseCode {
    R200,
    R201,
    R400,
    R404,
}

/// The three digits of a status code.
pub open spec fn code_text(c: HttpResponseCode) -> Seq<char> {
    match c {
        HttpResponseCode::R200 => "200"@,
        HttpResponseCode::R201 => "201"@,
        HttpResponseCode::R400 => "400"@,
        HttpResponseCode::R404 => "404"@,
    }
}

/// The fixed reason phrase of a status code.
pub open spec fn reason_text(c: HttpResponseCode) -> Seq<char> {
    match c {
        HttpResponseCode::R200 => "OK"@,
        HttpResponseCode::R201 => "Created"@,
        HttpResponseCode::R400 => "Bad Request"@,
        HttpResponseCode::R404 => "Not Found"@,
    }
}

impl HttpResponseCode {
    /// The reason phrase sent with the code.
    pub fn default_message(&self) -> (r: &'static str)
        ensures
            r@ == reason_text(*self),
    {
        match self {
            HttpResponseCode::R200 => "OK",
            HttpResponseCode::R201 => "Created",
            HttpResponseCode::R400 => "Bad Request",
            HttpResponseCode::R404 => "Not Found",
        }
    }

    /// The code's digits.
    pub fn to_string(&self) -> (r: String)
        ensures
            r@ == code_text(*self),
    {
        match self {
            HttpResponseCode::R200 => String::from_str("200"),
            HttpResponseCode::R201 => String::from_str("201"),
            HttpResponseCode::R400 => String::from_str("400"),
            HttpResponseCode::R404 => String::from_str("404"),
        }
    }
}

/// The media types of a response body.
#[derive(Debug, Clone, Copy, PartialEq, Eq, Structural)]
pub enum ContentType {
    TextPlain,
    ApplicationOctectStream,
}

/// The media type's name.
pub open spec fn content_type_text(c: ContentType) -> Seq<char> {
    match c {
        ContentType::TextPlain => "text/plain"@,
        ContentType::ApplicationOctectStream => "application/octet-stream"@,
    }
}

impl ContentType {
    /// The media type's name.
    pub fn to_string(&self) -> (r: String)
        ensures
            r@ == content_type_text(*self),
    {
        match self {
            ContentType::TextPlain => String::from_str("text/plain"),
            ContentType::ApplicationOctectStream => String::from_str("application/octet-stream"),
        }
    }
}

impl HttpHeader for ContentType {
    open spec fn key_text(&self) -> Seq<char> {
        "Content-Type"@
    }

    open spec fn val_text(&self) -> Seq<char> {
        content_type_text(*self)
    }

    fn key(&self) -> (r: &str) {
        "Content-Type"
    }

    fn val(&self) -> (r: String) {
        self.to_string()
    }
}

/// What flate2's gzip writer yields for `b` at the default level, or `None`
/// when it reports an error.
pub uninterp spec fn gzip_of(b: Seq<u8>) -> Option<Seq<u8>>;

/// Relies on `flate2::write::GzEncoder` over a `Vec<u8>` with
/// `Compression::default()`: the gzip stream of `b`, whose header carries no
/// time stamp and a fixed system byte, so that it depends on `b` alone.
#[verifier::external_body]
fn gzip(b: &[u8]) -> (r: Option<Vec<u8>>)
    ensures
        match gzip_of(b@) {
            Some(c) => r matches Some(v) && v@ == c,
            None => r is None,
        },
{
    let mut encoder = flate2::write::GzEncoder::new(Vec::new(), flate2::Compression::default());
    match std::io::Write::write_all(&mut encoder, b) {
        Ok(()) => encoder.finish().ok(),
        Err(_) => None,
    }
}

/// A response, as values.
pub struct ResponseView {
    pub protocol: HttpProtocol,
    pub code: HttpResponseCode,
    pub headers: Seq<(Seq<char>, Seq<char>)>,
    pub body: Option<Seq<char>>,
    pub content_encoding: Option<AcceptedEncoding>,
    pub content_type: ContentType,
}

/// The extra header fields, one line each, in order.
pub open spec fn fields_text(ps: Seq<(Seq<char>, Seq<char>)>) -> Seq<char>
    decreases ps.len(),
{
    if ps.len() == 0 {
        Seq::empty()
    } else {
        fields_text(ps.drop_last()) + ps.last().0 + ": "@ + ps.last().1 + "\r\n"@
    }
}

/// The body bytes sent: the body's UTF-8 bytes, gzip-compressed when gzip
/// was negotiated and compression succeeds; nothing without a body.
pub open spec fn body_bytes(v: ResponseView) -> Seq<u8> {
    match v.body {
        None => Seq::empty(),
        Some(b) => match v.content_encoding {
            Some(AcceptedEncoding::Gzip) => match gzip_of(encode_utf8(b)) {
                Some(c) => c,
                None => encode_utf8(b),
            },
            None => encode_utf8(b),
        },
    }
}

/// The message head: status line, extra fields, `Content-Type`,
/// `Content-Encoding` when set, `Content-Length`, blank line.
pub open spec fn head_text(v: ResponseView, body_len: nat) -> Seq<char> {
    "HTTP/1.1 "@ + code_text(v.code) + " "@ + reason_text(v.code) + "\r\n"@ + fields_text(v.headers)
        + "Content-Type: "@ + content_type_text(v.content_type) + "\r\n"@ + (
    if v.content_encoding is Some {
        "Content-Encoding: "@ + "gzip"@ + "\r\n"@
    } else {
        Seq::empty()
    }) + "Content-Length: "@ + digits_of(body_len) + "\r\n"@ + "\r\n"@
}

/// The bytes a response is sent as.
pub open spec fn wire(v: ResponseView) -> Seq<u8> {
    encode_utf8(head_text(v, body_bytes(v).len())) + body_bytes(v)
}

/// Encoding is a function of the response alone: the same response encoded
/// twice gives the same bytes.
pub proof fn lemma_encoding_idempotent(v: ResponseView, first: Seq<u8>, second: Seq<u8>)
    requires
        first == wire(v),
        second == wire(v),
    ensures
        first == second,
{
}

fn append_bytes(out: &mut Vec<u8>, b: &[u8])
    ensures
        final(out)@ == old(out)@ + b@,
{
    let mut i: usize = 0;
    while i < b.len()
        invariant
            i <= b@.len(),
            out@ == old(out)@ + b@.take(i as int),
        decreases b@.len() - i,
    {
        out.push(b[i]);
        assert(b@.take(i + 1) =~= b@.take(i as int).push(b@[i as int]));
        i = i + 1;
    }
    assert(b@.take(b@.len() as int) =~= b@);
}

/// A response to send.
pub struct Response {
    protocol: HttpProtocol,
    code: HttpResponseCode,
    headers: TextMap,
    body: Option<String>,
    content_encoding: Option<AcceptedEncoding>,
    content_type: ContentType,
}

impl View for Response {
    type V = ResponseView;

    closed spec fn view(&self) -> ResponseView {
        ResponseView {
            protocol: self.protocol,
            code: self.code,
            headers: self.headers.pairs(),
            body: match self.body {
                Some(b) => Some(b@),
                None => None,
            },
            content_encoding: self.content_encoding,
            content_type: self.content_type,
        }
    }
}

/// A bodiless plain-text response with the given code.
pub open spec fn default_view(code: HttpResponseCode) -> ResponseView {
    ResponseView {
        protocol: HttpProtocol::Http11,
        code,
        headers: Seq::empty(),
        body: None,
        content_encoding: None,
        content_type: ContentType::TextPlain,
    }
}

impl Response {
    /// `200 OK` without a body.
    pub fn success() -> (r: Response)
        ensures
            r@ == default_view(HttpResponseCode::R200),
    {
        Response::default_message(HttpResponseCode::R200)
    }

    /// `400 Bad Request` without a body.
    pub fn bad_request() -> (r: Response)
        ensures
            r@ == default_view(HttpResponseCode::R400),
    {
        Response::default_message(HttpResponseCode::R400)
    }

    /// `404 Not Found` without a body.
    pub fn not_found() -> (r: Response)
        ensures
            r@ == default_view(HttpResponseCode::R404),
    {
        Response::default_message(HttpResponseCode::R404)
    }

    /// A bodiless plain-text response with the given code and no encoding.
    pub fn default_message(code: HttpResponseCode) -> (r: Response)
        ensures
            r@ == default_view(code),
    {
        let r = Response {
            body: None,
            code,
            content_encoding: None,
            headers: TextMap::new(),
            protocol: HttpProtocol::Http11,
            content_type: ContentType::TextPlain,
        };
        assert(r@ == default_view(code));
        r
    }

    /// A response to `req`, encoded with the first encoding the request
    /// negotiated, if any.
    pub fn new(
        req: &Request,
        code: HttpResponseCode,
        body: Option<String>,
        content_type: ContentType,
        protocol: HttpProtocol,
    ) -> (r: Response)
        ensures
            r@ == (ResponseView {
                protocol,
                code,
                headers: Seq::empty(),
                body: match body {
                    Some(b) => Some(b@),
                    None => None,
                },
                content_encoding: if req@.encodings.len() == 0 {
                    None
                } else {
                    Some(req@.encodings[0])
                },
                content_type,
            }),
    {
        Response {
            protocol,
            code,
            headers: TextMap::new(),
            body,
            content_type,
            content_encoding: if req.accept_encodings.len() == 0 {
                None
            } else {
                Some(req.accept_encodings[0])
            },
        }
    }

    /// The status code.
    pub fn code(&self) -> (r: HttpResponseCode)
        ensures
            r == self@.code,
    {
        self.code
    }

    /// The body, before any compression.
    pub fn body(&self) -> (r: Option<&String>)
        ensures
            match r {
                Some(b) => self@.body == Some(b@),
                None => self@.body is None,
            },
    {
        match &self.body {
            Some(b) => Some(b),
            None => None,
        }
    }

    /// The media type of the body.
    pub fn content_type(&self) -> (r: ContentType)
        ensures
            r == self@.content_type,
    {
        self.content_type
    }

    /// The encoding applied to the body, if any.
    pub fn content_encoding(&self) -> (r: Option<AcceptedEncoding>)
        ensures
            r == self@.content_encoding,
    {
        self.content_encoding
    }

    /// The body bytes to send.
    fn encoded_body(&self) -> (r: Vec<u8>)
        ensures
            r@ == body_bytes(self@),
    {
        match &self.body {
            None => Vec::new(),
            Some(b) => {
                let raw = b.as_str().as_bytes();
                match self.content_encoding {
                    Some(AcceptedEncoding::Gzip) => match gzip(raw) {
                        Some(c) => c,
                        None => slice_to_vec(raw),
                    },
                    None => slice_to_vec(raw),
                }
            },
        }
    }

    /// The bytes the response is sent as: its head, then its body.
    pub fn to_bytes(&self) -> (r: Vec<u8>)
        ensures
            r@ == wire(self@),
    {
        let body = self.encoded_body();
        let mut head = String::from_str("HTTP/1.1 ");
        let code = self.code.to_string();
        head.append(code.as_str());
        head.append(" ");
        head.append(self.code.default_message());
        head.append("\r\n");
        let ghost before_fields = head@;
        let mut i: usize = 0;
        while i < self.headers.len()
            invariant
                i <= self.headers.pairs().len(),
                head@ == before_fields + fields_text(self.headers.pairs().take(i as int)),
            decreases self.headers.pairs().len() - i,
        {
            let (k, v) = self.headers.pair_at(i);
            let ghost prev = head@;
            head.append(k.as_str());
            head.append(": ");
            head.append(v.as_str());
            head.append("\r\n");
            let ghost t = self.headers.pairs().take(i + 1);
            assert(t.last() == (k@, v@));
            assert(t.drop_last() =~= self.headers.pairs().take(i as int));
            assert(head@ =~= before_fields + fields_text(t));
            i = i + 1;
        }
        assert(self.headers.pairs().take(self.headers.pairs().len() as int) =~= self.headers.pairs());
        head.append("Content-Type: ");
        let ct = self.content_type.to_string();
        head.append(ct.as_str());
        head.append("\r\n");
        if let Some(e) = self.content_encoding {
            head.append("Content-Encoding: ");
            let ev = e.to_string();
            head.append(ev.as_str());
            head.append("\r\n");
        }
        head.append("Content-Length: ");
        let len = decimal(body.len() as u64);
        head.append(len.as_str());
        head.append("\r\n");
        head.append("\r\n");
        let mut out: Vec<u8> = Vec::new();
        append_bytes(&mut out, head.as_str().as_bytes());
        append_bytes(&mut out, body.as_slice());
        assert(head@ =~= head_text(self@, body_bytes(self@).len()));
        assert(out@ =~= wire(self@));
        out
    }
}

} // verus!
