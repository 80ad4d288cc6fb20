//! Server configuration and the protocol version the server speaks.
use vstd::prelude::*;
use crate::text::{chars_eq, chars_of, int_decimal, int_text};
use vstd::string::StringExecFns;

verus! {

/// What a server is started with: its port, the application's context and
/// how long an idle connection waits for its next request.
#[derive(Debug)]
pub struct Config<Ctx> {
    pub port: i32,
    pub ctx: Ctx,
    pub persist_connection_for: std::time::Duration,
}

impl<Ctx> Config<Ctx> {
    /// The loopback address with the configured port.
    pub fn addr(&self) -> (r: String)
        ensures
            r@ == "127.0.0.1:"@ + int_text(self.port as int),
    {
        let mut r = String::from_str("127.0.0.1:");
        let port = int_decimal(self.port);
        r.append(port.as_str());
        r
    }
}

/// The protocol versions the server accepts.
#[derive(Debug, Clone, Copy, PartialEq, Eq, Structural)]
pub enum HttpProtocol {
    Http11,
}

/// A protocol token other than `HTTP/1.1`.
#[derive(Debug)]
pub struct HttpProtocolParseError;

impl HttpProtocolParseError {
    /// The error's message.
    pub fn to_string(&self) -> (r: String)
        ensures
            r@ == "Unsupported HTTP Protocol"@,
    {
        String::from_str("Unsupported HTTP Protocol")
    }
}

impl HttpProtocol {
    /// The version that the token `s` names.
    pub fn parse_chars(s: &[char]) -> (r: Result<HttpProtocol, HttpProtocolParseError>)
        ensures
            r is Ok <==> s@ == "HTTP/1.1"@,
            r matches Ok(p) ==> p == HttpProtocol::Http11,
    {
        let word = chars_of("HTTP/1.1");
        if chars_eq(s, word.as_slice()) {
            Ok(HttpProtocol::Http11)
        } else {
            Err(HttpProtocolParseError)
        }
    }

    /// The name of the version, as `Debug` shows it.
    pub fn to_string(&self) -> (r: String)
        ensures
            r@ == "Http11"@,
    {
        String::from_str("Http11")
    }
}

impl std::str::FromStr for HttpProtocol {
    type Err = HttpProtocolParseError;

    fn from_str(s: &str) -> Result<HttpProtocol, HttpProtocolParseError> {
        HttpProtocol::parse_chars(chars_of(s).as_slice())
    }
}

} // verus!
