//! Parsing a request message: request line, header fields, negotiated
//! encodings and body.
use vstd::prelude::*;
use crate::config::HttpProtocol;
use crate::header::HttpHeader;
use crate::path::{parse_path, PartView, Path};
use crate::text::{
    chars_eq, chars_of, contains, contains_exec, eq_ignore_ascii_case, eq_ignoring_ascii_case,
    find, find_first, lemma_find_first_bounds, lemma_split_lines, lemma_split_none,
    lemma_split_prefix, lemma_no_match_in_pair, lemma_no_match_in_chars, lemma_find_first_shift,
    lines_text, lower_of, occurs_at, lowercase, lowercase_chars, split, split_seq, starts_with,
    starts_with_exec, string_of, trimmed, trimmed_chars, views,
};
use crate::text_map::{lemma_map_of_push, map_of, TextMap};
use vstd::string::StringExecFns;

verus! {

/// The request methods the server knows.
#[derive(Debug, Clone, Copy, PartialEq, Eq, Structural)]
pub enum ReqType {
    Get,
    Post,
    Options,
    Connect,
}

/// A method token the server does not know.
#[derive(Debug)]
pub struct ReqTypeParseError;

/// The method a token names.
pub open spec fn method_of(s: Seq<char>) -> Option<ReqType> {
    if s == "GET"@ {
        Some(ReqType::Get)
    } else if s == "POST"@ {
        Some(ReqType::Post)
    } else if s == "OPTIONS"@ {
        Some(ReqType::Options)
    } else if s == "CONNECT"@ {
        Some(ReqType::Connect)
    } else {
        None
    }
}

impl ReqTypeParseError {
    /// The error's message.
    pub fn to_string(&self) -> (r: String)
        ensures
            r@ == "Unsupported Request Type"@,
    {
        String::from_str("Unsupported Request Type")
    }
}

impl ReqType {
    /// The method that the token `s` names.
    pub fn parse_chars(s: &[char]) -> (r: Result<ReqType, ReqTypeParseError>)
        ensures
            match method_of(s@) {
                Some(m) => r matches Ok(x) && x == m,
                None => r is Err,
            },
    {
        if chars_eq(s, chars_of("GET").as_slice()) {
            Ok(ReqType::Get)
        } else if chars_eq(s, chars_of("POST").as_slice()) {
            Ok(ReqType::Post)
        } else if chars_eq(s, chars_of("OPTIONS").as_slice()) {
            Ok(ReqType::Options)
        } else if chars_eq(s, chars_of("CONNECT").as_slice()) {
            Ok(ReqType::Connect)
        } else {
            Err(ReqTypeParseError)
        }
    }
}

impl std::str::FromStr for ReqType {
    type Err = ReqTypeParseError;

    fn from_str(s: &str) -> Result<ReqType, ReqTypeParseError> {
        ReqType::parse_chars(chars_of(s).as_slice())
    }
}

/// The content encodings the server can apply.
#[derive(Debug, Clone, Copy, PartialEq, Eq, Structural)]
pub enum AcceptedEncoding {
    Gzip,
}

/// An encoding token the server does not support.
#[derive(Debug)]
pub struct MessageEncodingParseError;

impl MessageEncodingParseError {
    /// The error's message.
    pub fn to_string(&self) -> (r: String)
        ensures
            r@ == "Accept Encoding Parse Error"@,
    {
        String::from_str("Accept Encoding Parse Error")
    }
}

impl AcceptedEncoding {
    /// The encoding that the token `s` names.
    pub fn parse_chars(s: &[char]) -> (r: Result<AcceptedEncoding, MessageEncodingParseError>)
        ensures
            r is Ok <==> s@ == "gzip"@,
            r matches Ok(e) ==> e == AcceptedEncoding::Gzip,
    {
        if chars_eq(s, chars_of("gzip").as_slice()) {
            Ok(AcceptedEncoding::Gzip)
        } else {
            Err(MessageEncodingParseError)
        }
    }

    /// The encoding's token.
    pub fn to_string(&self) -> (r: String)
        ensures
            r@ == "gzip"@,
    {
        String::from_str("gzip")
    }
}

impl std::str::FromStr for AcceptedEncoding {
    type Err = MessageEncodingParseError;

    fn from_str(s: &str) -> Result<AcceptedEncoding, MessageEncodingParseError> {
        AcceptedEncoding::parse_chars(chars_of(s).as_slice())
    }
}

impl HttpHeader for AcceptedEncoding {
    open spec fn key_text(&self) -> Seq<char> {
        "Accept-Encoding"@
    }

    open spec fn val_text(&self) -> Seq<char> {
        "gzip"@
    }

    fn key(&self) -> (r: &str) {
        "Accept-Encoding"
    }

    fn val(&self) -> (r: String) {
        self.to_string()
    }
}

/// Line end.
pub open spec fn crlf() -> Seq<char> {
    seq!['\r', '\n']
}

/// The blank line that ends a message head.
pub open spec fn blank_line() -> Seq<char> {
    seq!['\r', '\n', '\r', '\n']
}

/// Separator between a header field's name and value.
pub open spec fn field_sep() -> Seq<char> {
    seq![':', ' ']
}

/// How many pieces come before the first empty one.
pub open spec fn nonempty_prefix_len(ps: Seq<Seq<char>>) -> int
    decreases ps.len(),
{
    if ps.len() == 0 || ps[0].len() == 0 {
        0
    } else {
        1 + nonempty_prefix_len(ps.skip(1))
    }
}

/// `/` followed by each piece, the pieces separated by `/`.
pub open spec fn slash_join(ps: Seq<Seq<char>>) -> Seq<char>
    decreases ps.len(),
{
    if ps.len() == 0 {
        Seq::empty()
    } else {
        slash_join(ps.drop_last()) + seq!['/'] + ps.last()
    }
}

/// The path of an absolute-form or authority-form target: its space-separated
/// tokens up to the first empty one, of which the first `min` are consumed.
pub open spec fn form_path(t: Seq<char>, min: int) -> Result<Seq<char>, Seq<char>> {
    let ps = split_seq(t, seq![' ']);
    let n = nonempty_prefix_len(ps);
    if n < min {
        Err("Invalid Request Form Target"@)
    } else if n == min {
        Ok(seq!['/'])
    } else {
        Ok(slash_join(ps.subrange(min, n)))
    }
}

/// The path text that a request target denotes.
pub open spec fn target_path(t: Seq<char>) -> Result<Seq<char>, Seq<char>> {
    if t == seq!['*'] {
        Ok(seq!['*'])
    } else if starts_with(t, "http"@) {
        form_path(t, 3)
    } else if starts_with(t, seq!['/']) {
        Ok(t)
    } else if contains(t, seq![':']) && !contains(t, seq!['/']) {
        form_path(t, 2)
    } else {
        Err("Malformed request target form"@)
    }
}

fn nonempty_prefix(ps: &Vec<Vec<char>>) -> (r: usize)
    ensures
        r == nonempty_prefix_len(views(ps@)),
        r <= ps@.len(),
{
    let ghost pv = views(ps@);
    let mut i: usize = 0;
    assert(pv.skip(0) =~= pv);
    while i < ps.len() && ps[i].len() > 0
        invariant
            pv == views(ps@),
            i <= ps@.len(),
            nonempty_prefix_len(pv) == i + nonempty_prefix_len(pv.skip(i as int)),
        decreases ps@.len() - i,
    {
        assert(pv.skip(i as int).skip(1) =~= pv.skip(i + 1));
        i = i + 1;
    }
    i
}

/// The path text that the request target `req_target` denotes.
pub fn extract_path_from_req_target(req_target: &str) -> (r: Result<String, String>)
    ensures
        match target_path(req_target@) {
            Ok(p) => r matches Ok(x) && x@ == p,
            Err(e) => r matches Err(x) && x@ == e,
        },
{
    let t = chars_of(req_target);
    let star: [char; 1] = ['*'];
    let slash: [char; 1] = ['/'];
    let colon: [char; 1] = [':'];
    assert(star@ =~= seq!['*'] && slash@ =~= seq!['/'] && colon@ =~= seq![':']);
    if chars_eq(t.as_slice(), &star) {
        let r = String::from_str("*");
        proof {
            reveal_strlit("*");
        }
        assert(r@ =~= seq!['*']);
        return Ok(r);
    }
    let min: usize = if starts_with_exec(t.as_slice(), chars_of("http").as_slice()) {
        3
    } else if starts_with_exec(t.as_slice(), &slash) {
        return Ok(String::from_str(req_target));
    } else if contains_exec(t.as_slice(), &colon) && !contains_exec(t.as_slice(), &slash) {
        2
    } else {
        return Err(String::from_str("Malformed request target form"));
    };
    let space: [char; 1] = [' '];
    assert(space@ =~= seq![' ']);
    let parts = split(t.as_slice(), &space);
    let n = nonempty_prefix(&parts);
    if n < min {
        return Err(String::from_str("Invalid Request Form Target"));
    }
    if n == min {
        let r = String::from_str("/");
        proof {
            reveal_strlit("/");
        }
        assert(r@ =~= seq!['/']);
        return Ok(r);
    }
    let ghost pv = views(parts@);
    let mut out = String::new();
    let mut i: usize = min;
    assert(pv.subrange(min as int, min as int) =~= Seq::<Seq<char>>::empty());
    while i < n
        invariant
            pv == views(parts@),
            pv.len() == parts@.len(),
            min <= i <= n <= parts@.len(),
            out@ == slash_join(pv.subrange(min as int, i as int)),
        decreases n - i,
    {
        let ghost before = out@;
        let piece = string_of(parts[i].as_slice(), 0, parts[i].len());
        assert(parts[i as int]@.subrange(0, parts[i as int]@.len() as int) =~= pv[i as int]);
        out.append("/");
        proof {
            reveal_strlit("/");
        }
        out.append(piece.as_str());
        assert(pv.subrange(min as int, i + 1).drop_last() =~= pv.subrange(min as int, i as int));
        assert(out@ =~= before + seq!['/'] + pv[i as int]);
        i = i + 1;
    }
    Ok(out)
}


/// The name and value of a header line, when it splits on `": "` into
/// exactly two pieces.
pub open spec fn header_entry(line: Seq<char>) -> Option<(Seq<char>, Seq<char>)> {
    let p = split_seq(line, field_sep());
    if p.len() == 2 {
        Some((p[0], p[1]))
    } else {
        None
    }
}

/// The stored (lower-cased name, value) pairs of the header lines `ls`.
pub open spec fn header_pairs(ls: Seq<Seq<char>>) -> Seq<(Seq<char>, Seq<char>)>
    decreases ls.len(),
{
    if ls.len() == 0 {
        Seq::empty()
    } else {
        match header_entry(ls.last()) {
            Some(e) => header_pairs(ls.drop_last()).push((lower_of(e.0), e.1)),
            None => header_pairs(ls.drop_last()),
        }
    }
}

/// The supported encodings among the comma-separated tokens `ts`, in order.
pub open spec fn token_encodings(ts: Seq<Seq<char>>) -> Seq<AcceptedEncoding>
    decreases ts.len(),
{
    if ts.len() == 0 {
        Seq::empty()
    } else if trimmed(ts.last()) == "gzip"@ {
        token_encodings(ts.drop_last()).push(AcceptedEncoding::Gzip)
    } else {
        token_encodings(ts.drop_last())
    }
}

/// The supported encodings that the `Accept-Encoding` lines among `ls` list.
pub open spec fn line_encodings(ls: Seq<Seq<char>>) -> Seq<AcceptedEncoding>
    decreases ls.len(),
{
    if ls.len() == 0 {
        Seq::empty()
    } else {
        match header_entry(ls.last()) {
            Some(e) => if eq_ignoring_ascii_case(e.0, "accept-encoding"@) {
                line_encodings(ls.drop_last()) + token_encodings(split_seq(e.1, seq![',']))
            } else {
                line_encodings(ls.drop_last())
            },
            None => line_encodings(ls.drop_last()),
        }
    }
}

/// The header lines among the lines of a message: all after the first but
/// the last two.
pub open spec fn header_lines(lines: Seq<Seq<char>>) -> Seq<Seq<char>> {
    if lines.len() >= 3 {
        lines.subrange(1, lines.len() - 2)
    } else {
        Seq::empty()
    }
}

/// Everything after the first blank line; empty when there is none.
pub open spec fn body_of(d: Seq<char>) -> Seq<char> {
    match find_first(d, blank_line()) {
        Some(i) => d.skip(i + 4),
        None => Seq::empty(),
    }
}

/// A parsed request, as values.
pub struct RequestView {
    pub method: ReqType,
    pub path: Seq<PartView>,
    pub protocol: HttpProtocol,
    pub headers: Map<Seq<char>, Seq<char>>,
    pub body: Seq<char>,
    pub encodings: Seq<AcceptedEncoding>,
}

/// The request that the text `d` holds, or the message of the first check
/// it fails.
pub open spec fn parse_request(d: Seq<char>) -> Result<RequestView, Seq<char>> {
    let lines = split_seq(d, crlf());
    if lines.len() == 0 {
        Err("Empty Request Metadata"@)
    } else {
        let first = split_seq(lines[0], seq![' ']);
        if first.len() != 3 {
            Err("Malformed Request Metadata"@)
        } else {
            match method_of(first[0]) {
                None => Err("Unsupported Request Type"@),
                Some(m) => if first[2] != "HTTP/1.1"@ {
                    Err("Unsupported HTTP Protocol"@)
                } else {
                    match target_path(first[1]) {
                        Err(e) => Err(e),
                        Ok(t) => match parse_path(t) {
                            None => Err("Failed to Parse str to a Path\n"@),
                            Some(p) => Ok(
                                RequestView {
                                    method: m,
                                    path: p,
                                    protocol: HttpProtocol::Http11,
                                    headers: map_of(header_pairs(header_lines(lines))),
                                    body: body_of(d),
                                    encodings: line_encodings(header_lines(lines)),
                                },
                            ),
                        },
                    }
                },
            }
        }
    }
}

/// A parsed request.
#[derive(Debug)]
pub struct Request {
    pub req_type: ReqType,
    pub path: Path,
    pub protocol: HttpProtocol,
    pub headers: TextMap,
    pub body: String,
    pub accept_encodings: Vec<AcceptedEncoding>,
}

impl View for Request {
    type V = RequestView;

    open spec fn view(&self) -> RequestView {
        RequestView {
            method: self.req_type,
            path: self.path@,
            protocol: self.protocol,
            headers: self.headers@,
            body: self.body@,
            encodings: self.accept_encodings@,
        }
    }
}

/// The supported encodings among the comma-separated `value`, appended.
fn push_encodings(value: &[char], out: &mut Vec<AcceptedEncoding>)
    ensures
        final(out)@ == old(out)@ + token_encodings(split_seq(value@, seq![','])),
{
    let comma: [char; 1] = [','];
    assert(comma@ =~= seq![',']);
    let tokens = split(value, &comma);
    let ghost tv = views(tokens@);
    let ghost start = out@;
    let mut i: usize = 0;
    assert(tv.take(0) =~= Seq::<Seq<char>>::empty());
    assert(out@ =~= start + token_encodings(tv.take(0)));
    while i < tokens.len()
        invariant
            tv == views(tokens@),
            tv.len() == tokens@.len(),
            i <= tokens@.len(),
            out@ == start + token_encodings(tv.take(i as int)),
        decreases tokens@.len() - i,
    {
        let t = trimmed_chars(tokens[i].as_slice());
        assert(tv.take(i + 1).drop_last() =~= tv.take(i as int));
        assert(tv.take(i + 1).last() == tokens@[i as int]@);
        if let Ok(e) = AcceptedEncoding::parse_chars(t.as_slice()) {
            out.push(e);
            assert(out@ =~= start + token_encodings(tv.take(i + 1)));
        }
        i = i + 1;
    }
    assert(tv.take(tokens@.len() as int) =~= tv);
}

/// The header map and the negotiated encodings of the lines `lines[1..end]`.
fn parse_header_lines(lines: &Vec<Vec<char>>, end: usize) -> (r: (TextMap, Vec<AcceptedEncoding>))
    requires
        1 <= end <= lines@.len(),
    ensures
        r.0@ == map_of(header_pairs(views(lines@).subrange(1, end as int))),
        r.1@ == line_encodings(views(lines@).subrange(1, end as int)),
{
    let ghost lv = views(lines@);
    let mut headers = TextMap::new();
    let mut encodings: Vec<AcceptedEncoding> = Vec::new();
    let sep: [char; 2] = [':', ' '];
    assert(sep@ =~= field_sep());
    let accept = chars_of("accept-encoding");
    let mut i: usize = 1;
    assert(lv.subrange(1, 1) =~= Seq::<Seq<char>>::empty());
    while i < end
        invariant
            lv == views(lines@),
            lv.len() == lines@.len(),
            1 <= i <= end <= lines@.len(),
            sep@ == field_sep(),
            accept@ == "accept-encoding"@,
            headers@ == map_of(header_pairs(lv.subrange(1, i as int))),
            encodings@ == line_encodings(lv.subrange(1, i as int)),
        decreases end - i,
    {
        let ghost prev = lv.subrange(1, i as int);
        let ghost next = lv.subrange(1, i + 1);
        assert(next.drop_last() =~= prev);
        assert(next.last() == lines@[i as int]@);
        let parts = split(lines[i].as_slice(), &sep);
        if parts.len() == 2 {
            assert(views(parts@)[0] == parts@[0]@ && views(parts@)[1] == parts@[1]@);
            if eq_ignore_ascii_case(parts[0].as_slice(), accept.as_slice()) {
                push_encodings(parts[1].as_slice(), &mut encodings);
            }
            let key = lowercase_chars(parts[0].as_slice());
            let value = string_of(parts[1].as_slice(), 0, parts[1].len());
            assert(parts@[1]@.subrange(0, parts@[1]@.len() as int) =~= parts@[1]@);
            proof {
                lemma_map_of_push(header_pairs(prev), key@, value@);
            }
            headers.insert(key, value);
        }
        i = i + 1;
    }
    (headers, encodings)
}

impl Request {
    /// Parses the request text `data`: the request line, then the header
    /// lines, then the body after the first blank line.
    pub fn new(data: &str) -> (r: Result<Request, String>)
        ensures
            match parse_request(data@) {
                Ok(v) => r matches Ok(req) && req@ == v,
                Err(e) => r matches Err(msg) && msg@ == e,
            },
    {
        let d = chars_of(data);
        let crlf_chars: [char; 2] = ['\r', '\n'];
        assert(crlf_chars@ =~= crlf());
        let lines = split(d.as_slice(), &crlf_chars);
        let ghost lv = views(lines@);
        if lines.len() == 0 {
            return Err(String::from_str("Empty Request Metadata"));
        }
        let space: [char; 1] = [' '];
        assert(space@ =~= seq![' ']);
        assert(lv[0] == lines@[0]@);
        let first = split(lines[0].as_slice(), &space);
        if first.len() != 3 {
            return Err(String::from_str("Malformed Request Metadata"));
        }
        assert(views(first@)[0] == first@[0]@ && views(first@)[1] == first@[1]@ && views(first@)[2] == first@[2]@);
        let req_type = match ReqType::parse_chars(first[0].as_slice()) {
            Ok(m) => m,
            Err(e) => return Err(e.to_string()),
        };
        let protocol = match HttpProtocol::parse_chars(first[2].as_slice()) {
            Ok(p) => p,
            Err(e) => return Err(e.to_string()),
        };
        let target_text = string_of(first[1].as_slice(), 0, first[1].len());
        assert(first@[1]@.subrange(0, first@[1]@.len() as int) =~= first@[1]@);
        let target = match extract_path_from_req_target(target_text.as_str()) {
            Ok(t) => t,
            Err(e) => return Err(e),
        };
        let path = match Path::parse(target.as_str()) {
            Ok(p) => p,
            Err(e) => return Err(e.to_string()),
        };
        let end: usize = if lines.len() >= 3 {
            lines.len() - 2
        } else {
            1
        };
        let (headers, accept_encodings) = parse_header_lines(&lines, end);
        proof {
            if lines@.len() < 3 {
                assert(lv.subrange(1, 1) =~= Seq::<Seq<char>>::empty());
            }
        }
        let blank: [char; 4] = ['\r', '\n', '\r', '\n'];
        assert(blank@ =~= blank_line());
        let dlen = d.len();
        let body = match find(d.as_slice(), &blank) {
            Some(i) => string_of(d.as_slice(), i + 4, dlen),
            None => String::new(),
        };
        proof {
            lemma_find_first_bounds(d@, blank_line());
            if let Some(i) = find_first(d@, blank_line()) {
                assert(d@.subrange(i + 4, d@.len() as int) =~= d@.skip(i + 4));
            }
        }
        Ok(Request { req_type, path, protocol, headers, body, accept_encodings })
    }

    /// The value of the header field named `header_key`, in any case.
    pub fn header_val(&self, header_key: &str) -> (r: Option<&String>)
        ensures
            match r {
                Some(v) => self@.headers.contains_key(lower_of(header_key@))
                    && self@.headers[lower_of(header_key@)] == v@,
                None => !self@.headers.contains_key(lower_of(header_key@)),
            },
    {
        let key = lowercase(header_key);
        self.headers.get(&key)
    }

    /// Whether the request asks for the connection to be closed: its
    /// `Connection` field is exactly `close`.
    pub fn has_connection_close_header(&self) -> (r: bool)
        ensures
            r == (self@.headers.contains_key(lower_of("Connection"@))
                && self@.headers[lower_of("Connection"@)] == "close"@),
    {
        match self.header_val("Connection") {
            Some(v) => *v == String::from_str("close"),
            None => false,
        }
    }
}


/// The token of a method.
pub open spec fn method_text(m: ReqType) -> Seq<char> {
    match m {
        ReqType::Get => "GET"@,
        ReqType::Post => "POST"@,
        ReqType::Options => "OPTIONS"@,
        ReqType::Connect => "CONNECT"@,
    }
}

/// A header field as one line.
pub open spec fn field_line(f: (Seq<char>, Seq<char>)) -> Seq<char> {
    f.0 + field_sep() + f.1
}

/// The request line of method `m` and target `target`.
pub open spec fn request_line(m: ReqType, target: Seq<char>) -> Seq<char> {
    method_text(m) + seq![' '] + target + seq![' '] + "HTTP/1.1"@
}

/// A bodiless request written out: request line, one line per header field,
/// blank line.
pub open spec fn request_text(m: ReqType, target: Seq<char>, fields: Seq<(Seq<char>, Seq<char>)>) -> Seq<char> {
    lines_text(
        seq![request_line(m, target)] + fields.map_values(|f: (Seq<char>, Seq<char>)| field_line(f))
            + seq![Seq::<char>::empty()],
        crlf(),
    )
}

/// Header fields as stored: names lower-cased.
pub open spec fn stored_fields(fields: Seq<(Seq<char>, Seq<char>)>) -> Seq<(Seq<char>, Seq<char>)> {
    fields.map_values(|f: (Seq<char>, Seq<char>)| (lower_of(f.0), f.1))
}

/// A header field that a request can carry: no carriage return and no
/// `": "` in its name or its value.
pub open spec fn writable_field(f: (Seq<char>, Seq<char>)) -> bool {
    &&& forall|j: int| 0 <= j < f.0.len() ==> f.0[j] != '\r'
    &&& forall|j: int| 0 <= j < f.1.len() ==> f.1[j] != '\r'
    &&& forall|j: int| !occurs_at(f.0, field_sep(), j)
    &&& forall|j: int| !occurs_at(f.1, field_sep(), j)
}

/// An origin-form target that a request line can carry and that denotes a
/// path.
pub open spec fn writable_target(t: Seq<char>) -> bool {
    &&& t.len() > 0 && t[0] == '/'
    &&& forall|j: int| 0 <= j < t.len() ==> t[j] != ' ' && t[j] != '\r'
    &&& parse_path(t) is Some
}

proof fn lemma_method_text(m: ReqType)
    ensures
        method_of(method_text(m)) == Some(m),
        forall|j: int| 0 <= j < method_text(m).len() ==> method_text(m)[j] != ' ' && method_text(m)[j] != '\r',
{
    reveal_strlit("GET");
    reveal_strlit("POST");
    reveal_strlit("OPTIONS");
    reveal_strlit("CONNECT");
    assert("GET"@.len() != "POST"@.len());
    assert("GET"@.len() != "OPTIONS"@.len());
    assert("GET"@.len() != "CONNECT"@.len());
    assert("POST"@.len() != "OPTIONS"@.len());
    assert("POST"@.len() != "CONNECT"@.len());
    assert("OPTIONS"@[0] != "CONNECT"@[0]);
}

proof fn lemma_field_lines(fields: Seq<(Seq<char>, Seq<char>)>)
    requires
        forall|i: int| 0 <= i < fields.len() ==> writable_field(#[trigger] fields[i]),
    ensures
        header_pairs(fields.map_values(|f: (Seq<char>, Seq<char>)| field_line(f))) == stored_fields(fields),
    decreases fields.len(),
{
    let ls = fields.map_values(|f: (Seq<char>, Seq<char>)| field_line(f));
    if fields.len() > 0 {
        let init = fields.drop_last();
        assert forall|i: int| 0 <= i < init.len() implies writable_field(#[trigger] init[i]) by {
            assert(init[i] == fields[i]);
        }
        lemma_field_lines(init);
        assert(ls.drop_last() =~= init.map_values(|f: (Seq<char>, Seq<char>)| field_line(f)));
        let f = fields.last();
        assert(writable_field(fields[fields.len() - 1]));
        reveal_strlit(": ");
        lemma_split_none(f.1, field_sep());
        lemma_no_match_in_pair(f.0, f.1, field_sep());
        lemma_split_prefix(f.0, f.1, field_sep());
        assert(ls.last() == f.0 + field_sep() + f.1);
        assert(stored_fields(fields) =~= stored_fields(init).push((lower_of(f.0), f.1)));
    } else {
        assert(stored_fields(fields) =~= Seq::<(Seq<char>, Seq<char>)>::empty());
    }
}

/// Lines without carriage returns, all but the last non-empty and the last
/// empty, hold their first blank line at the very end.
proof fn lemma_blank_line_at_end(ls: Seq<Seq<char>>)
    requires
        ls.len() >= 2,
        ls.last().len() == 0,
        forall|i: int| 0 <= i < ls.len() - 1 ==> (#[trigger] ls[i]).len() > 0,
        forall|i: int, j: int| 0 <= i < ls.len() && 0 <= j < ls[i].len() ==> ls[i][j] != '\r',
    ensures
        find_first(lines_text(ls, crlf()), blank_line()) == Some(lines_text(ls, crlf()).len() - 4),
    decreases ls.len(),
{
    let l0 = ls[0];
    let rest = ls.skip(1);
    let r = lines_text(rest, crlf());
    let text = lines_text(ls, crlf());
    assert(text == l0 + crlf() + r);
    assert forall|j: int| 0 <= j < l0.len() implies l0[j] != blank_line()[0] by {
        assert(l0[j] == ls[0][j]);
    }
    if ls.len() == 2 {
        assert(rest[0] =~= Seq::<char>::empty());
        assert(rest.skip(1) =~= Seq::<Seq<char>>::empty());
        assert(lines_text(rest.skip(1), crlf()) == Seq::<char>::empty());
        assert(r == rest[0] + crlf() + lines_text(rest.skip(1), crlf()));
        assert(r =~= crlf());
        assert(text =~= l0 + blank_line());
        lemma_no_match_in_chars(l0, blank_line(), blank_line());
        assert(blank_line().take(4) =~= blank_line());
        lemma_find_first_shift(l0, blank_line(), blank_line());
    } else {
        assert forall|i: int| 0 <= i < rest.len() - 1 implies (#[trigger] rest[i]).len() > 0 by {
            assert(rest[i] == ls[i + 1]);
        }
        assert forall|i: int, j: int| 0 <= i < rest.len() && 0 <= j < rest[i].len() implies rest[i][j] != '\r' by {
            assert(rest[i] == ls[i + 1]);
        }
        assert(rest.last() == ls.last());
        lemma_blank_line_at_end(rest);
        let p = l0 + crlf();
        assert(text =~= p + r);
        assert(rest[0] == ls[1] && ls[1].len() > 0);
        assert(r == rest[0] + crlf() + lines_text(rest.skip(1), crlf()));
        assert(r[0] == ls[1][0]);
        assert forall|j: int| 0 <= j < p.len() implies !occurs_at(p + r, blank_line(), j) by {
            if occurs_at(p + r, blank_line(), j) {
                let w = (p + r).subrange(j, j + 4);
                assert(w == blank_line());
                if j < l0.len() {
                    assert(w[0] == l0[j]);
                } else if j == l0.len() {
                    assert(w[2] == r[0]);
                } else {
                    assert(w[0] == p[j]);
                }
            }
        }
        lemma_find_first_shift(p, r, blank_line());
    }
}

/// Writing out a bodiless request and parsing the text gives back its
/// method, its path, its protocol and its header fields, names lower-cased,
/// values as written, a later field overriding an earlier one of the same
/// lower-cased name; the body is empty.
pub proof fn lemma_request_round_trip(m: ReqType, target: Seq<char>, fields: Seq<(Seq<char>, Seq<char>)>)
    requires
        writable_target(target),
        forall|i: int| 0 <= i < fields.len() ==> writable_field(#[trigger] fields[i]),
    ensures
        parse_request(request_text(m, target, fields)) matches Ok(v) && v.method == m && v.path
            == parse_path(target)->Some_0 && v.protocol == HttpProtocol::Http11 && v.headers == map_of(
            stored_fields(fields),
        ) && v.body == Seq::<char>::empty(),
{
    let mt = method_text(m);
    let line = request_line(m, target);
    let fls = fields.map_values(|f: (Seq<char>, Seq<char>)| field_line(f));
    let ls = seq![line] + fls + seq![Seq::<char>::empty()];
    reveal_strlit("HTTP/1.1");
    reveal_strlit("http");
    lemma_method_text(m);
    assert forall|i: int, j: int| 0 <= i < ls.len() && 0 <= j < ls[i].len() implies ls[i][j] != crlf()[0] by {
        if i == 0 {
            assert(ls[0] == line);
            if j < mt.len() {
                assert(line[j] == mt[j]);
            } else if j == mt.len() {
            } else if j < mt.len() + 1 + target.len() {
                assert(line[j] == target[j - mt.len() - 1]);
            } else if j == mt.len() + 1 + target.len() {
            } else {
                assert(line[j] == "HTTP/1.1"@[j - mt.len() - 2 - target.len()]);
            }
        } else if i < ls.len() - 1 {
            let f = fields[i - 1];
            assert(ls[i] == fls[i - 1]);
            assert(writable_field(f));
            reveal_strlit(": ");
            if j < f.0.len() {
                assert(ls[i][j] == f.0[j]);
            } else if j >= f.0.len() + 2 {
                assert(ls[i][j] == f.1[j - f.0.len() - 2]);
            }
        }
    }
    lemma_split_lines(ls, crlf(), Seq::empty());
    assert(split_seq(Seq::<char>::empty(), crlf()) == seq![Seq::<char>::empty()]);
    assert(lines_text(ls, crlf()) + Seq::<char>::empty() =~= request_text(m, target, fields));
    let lines = split_seq(request_text(m, target, fields), crlf());
    assert(lines =~= ls + seq![Seq::<char>::empty()]);
    assert(lines[0] == line);
    // The request line.
    assert(forall|j: int| 0 <= j < mt.len() ==> mt[j] != seq![' '][0]);
    assert(line =~= mt + seq![' '] + (target + seq![' '] + "HTTP/1.1"@));
    lemma_split_prefix(mt, target + seq![' '] + "HTTP/1.1"@, seq![' ']);
    lemma_split_prefix(target, "HTTP/1.1"@, seq![' ']);
    assert forall|j: int| !occurs_at("HTTP/1.1"@, seq![' '], j) by {
        if occurs_at("HTTP/1.1"@, seq![' '], j) {
            assert("HTTP/1.1"@.subrange(j, j + 1)[0] == "HTTP/1.1"@[j]);
        }
    }
    lemma_split_none("HTTP/1.1"@, seq![' ']);
    let first = split_seq(lines[0], seq![' ']);
    assert(first =~= seq![mt, target, "HTTP/1.1"@]);
    // The target.
    assert(target != seq!['*']);
    assert(!starts_with(target, "http"@)) by {
        if starts_with(target, "http"@) {
            assert(target.take(4)[0] == target[0]);
        }
    }
    assert(target.take(1) =~= seq!['/']);
    assert(target_path(target) == Ok::<Seq<char>, Seq<char>>(target));
    // The header lines.
    assert(header_lines(lines) =~= fls);
    lemma_field_lines(fields);
    // The body.
    assert forall|i: int| 0 <= i < ls.len() - 1 implies (#[trigger] ls[i]).len() > 0 by {
        if i == 0 {
            assert(ls[0] == line);
            assert(line.len() >= 10);
        } else {
            assert(ls[i] == fls[i - 1]);
            assert(fls[i - 1] == field_line(fields[i - 1]));
        }
    }
    assert(ls.last() == Seq::<char>::empty());
    lemma_blank_line_at_end(ls);
    let text = request_text(m, target, fields);
    assert(text.skip(text.len() as int) =~= Seq::<char>::empty());
}

} // verus!
