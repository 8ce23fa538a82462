//! The connection to a server: how it is asked for, read and kept up.

use vstd::prelude::*;
use vstd::string::*;
use vstd::utf8::{decode_utf8, encode_utf8, valid_utf8};

use crate::address::{address_parts, split_address};
use crate::config::ServerConfig;
use crate::domain::event::{Event, EventModel};
use crate::domain::laws::source;
use crate::domain::model::NotificationData;
use crate::logging::Level;
use crate::runtime::{EventLogLine, LineModel};
use crate::text::{chars_of, code_point, contains_char, debug_text, decimal, decimal_text, joined,
    parse_unsigned, quoted, trim, trimmed, unsigned_value, Text};
use crate::timestamp::Timestamp;

verus! {

/// A length of time, in nanoseconds.
pub type Span = u128;

/// How long a message may be.
pub const MAX_MESSAGE_BYTES: usize = 1_048_576;

/// How long an attempt to connect may take.
pub const CONNECT_TIMEOUT: u128 = 30_000_000_000;

/// How long a connection may be silent.
pub const READ_TIMEOUT: u128 = 30_000_000_000;

/// By how much each failure lengthens the pause before the next attempt.
pub const RECONNECT_STEP: u128 = 1_000_000_000;

/// The longest pause between attempts.
pub const MAX_RECONNECT_DELAY: u128 = 10_000_000_000;

const NANOSECONDS_PER_SECOND: u128 = 1_000_000_000;

/// The limits of a connection.
#[derive(Clone, Copy, Debug, PartialEq, Eq, Structural)]
pub struct ClientOptions {
    pub max_message_bytes: usize,
    pub connect_timeout: Span,
    pub read_timeout: Span,
    pub reconnect_step: Span,
    pub max_reconnect_delay: Span,
}

impl Default for ClientOptions {
    fn default() -> (options: Self)
        ensures
            options == (ClientOptions {
                max_message_bytes: MAX_MESSAGE_BYTES,
                connect_timeout: CONNECT_TIMEOUT,
                read_timeout: READ_TIMEOUT,
                reconnect_step: RECONNECT_STEP,
                max_reconnect_delay: MAX_RECONNECT_DELAY,
            }),
    {
        ClientOptions {
            max_message_bytes: MAX_MESSAGE_BYTES,
            connect_timeout: CONNECT_TIMEOUT,
            read_timeout: READ_TIMEOUT,
            reconnect_step: RECONNECT_STEP,
            max_reconnect_delay: MAX_RECONNECT_DELAY,
        }
    }
}

// ---------------------------------------------------------------------------------------------
// Addresses
// ---------------------------------------------------------------------------------------------

/// Why a text is no port number, in the words of `u16`.
pub uninterp spec fn port_refusal_words(text: Seq<char>) -> Seq<char>;

/// Asks `u16::from_str` why a text is no port number. It takes digits after an optional plus sign
/// that denote a number up to 65535, and nothing else.
#[verifier::external_body]
fn port_refusal(text: &str) -> (words: Option<String>)
    ensures
        words is None <==> unsigned_value(text@, 65535) is Some,
        words matches Some(refusal) ==> refusal@ == port_refusal_words(text@),
{
    text.parse::<u16>().err().map(|error| error.to_string())
}

/// Why an address cannot be taken apart.
#[derive(Debug, PartialEq, Eq)]
pub enum SplitError {
    NotHostPort,
    /// The port is no number; with the words for why.
    Port(String),
}

/// The words for why an address cannot be taken apart; `None` where it can.
pub open spec fn split_refusal(address: Text) -> Option<Text> {
    match address_parts(address) {
        None => Some("address must be host:port"@),
        Some((host, port)) => if unsigned_value(port, 65535) is Some {
            None
        } else {
            Some("address port is invalid: "@ + port_refusal_words(port))
        },
    }
}

impl SplitError {
    /// The words for why an address cannot be taken apart.
    pub open spec fn words(self) -> Text {
        match self {
            SplitError::NotHostPort => "address must be host:port"@,
            SplitError::Port(words) => "address port is invalid: "@ + words@,
        }
    }

    /// The words for why an address cannot be taken apart.
    pub fn message(&self) -> (message: String)
        ensures
            message@ == self.words(),
    {
        match self {
            SplitError::NotHostPort => "address must be host:port".to_owned(),
            SplitError::Port(words) => joined("address port is invalid: ", words.as_str()),
        }
    }
}

/// Takes an address apart. A host in brackets loses them.
pub fn split_host_port(address: &str) -> (outcome: Result<(String, u16), SplitError>)
    ensures
        outcome is Ok <==> split_refusal(address@) is None,
        outcome matches Ok((host, port)) ==> (address_parts(address@) matches Some(parts) && host@
            == parts.0 && unsigned_value(parts.1, 65535) == Some(port as nat)),
        outcome matches Err(error) ==> split_refusal(address@) == Some(error.words()),
{
    match split_address(address) {
        None => Err(SplitError::NotHostPort),
        Some((host, port)) => match port_refusal(port.as_str()) {
            Some(words) => Err(SplitError::Port(words)),
            None => match parse_unsigned(port.as_str(), 65535) {
                Some(number) => Ok((host, number as u16)),
                None => Err(SplitError::NotHostPort),
            },
        },
    }
}

/// A host as it stands in a URI: IPv6 addresses in brackets.
pub open spec fn host_in_uri(host: Text) -> Text {
    if host.contains(':') && !(host.len() > 0 && host[0] == '[') {
        "["@ + host + "]"@
    } else {
        host
    }
}

/// Puts an IPv6 address in brackets and leaves any other host as it is.
pub fn uri_host(host: &str) -> (text: String)
    ensures
        text@ == host_in_uri(host@),
{
    let chars = chars_of(host);
    if contains_char(host, ':') && !(chars.len() > 0 && chars[0] == '[') {
        joined("[", host).concat("]")
    } else {
        host.to_owned()
    }
}

// ---------------------------------------------------------------------------------------------
// The bearer token
// ---------------------------------------------------------------------------------------------

/// The characters that may stand in the value of an HTTP header.
pub open spec fn is_header_char(ch: char) -> bool {
    (ch as int) == 9 || ((ch as int) >= 32 && (ch as int) != 127)
}

/// Whether a text can be the value of an HTTP header.
pub open spec fn is_header_text(text: Text) -> bool {
    forall|i: int| 0 <= i < text.len() ==> is_header_char(#[trigger] text[i])
}

/// Asks `http::HeaderValue::from_str`, which refuses the control characters of ASCII other than
/// the tab.
#[verifier::external_body]
fn is_header_value(text: &str) -> (accepted: bool)
    ensures
        accepted == is_header_text(text@),
{
    tokio_tungstenite::tungstenite::http::HeaderValue::from_str(text).is_ok()
}

/// The white space of ASCII.
pub open spec fn is_ascii_space(ch: char) -> bool {
    ch == ' ' || ch == '\t' || ch == '\n' || ch == '\u{c}' || ch == '\r'
}

/// Why the contents of a token file are no token.
#[derive(Clone, Copy, Debug, PartialEq, Eq, Structural)]
pub enum TokenProblem {
    Empty,
    WhiteSpace,
    NotAHeader,
}

/// Why the contents of a token file are no token; `None` where they are one.
pub open spec fn token_problem(contents: Text) -> Option<TokenProblem> {
    let token = trimmed(contents);
    if token.len() == 0 {
        Some(TokenProblem::Empty)
    } else if exists|i: int| 0 <= i < token.len() && is_ascii_space(#[trigger] token[i]) {
        Some(TokenProblem::WhiteSpace)
    } else if !is_header_text("Bearer "@ + token) {
        Some(TokenProblem::NotAHeader)
    } else {
        None
    }
}

impl TokenProblem {
    /// The words for a problem with a token file. They do not hold its contents.
    pub open spec fn words(self, file: Text) -> Text {
        let place = "bearer token file "@ + debug_text(file);
        match self {
            TokenProblem::Empty => place + " is empty"@,
            TokenProblem::WhiteSpace => place + " contains whitespace inside the token"@,
            TokenProblem::NotAHeader => place
                + " is not a valid HTTP token: failed to parse header value"@,
        }
    }

    /// The words for a problem with a token file.
    pub fn message(self, file: &str) -> (message: String)
        ensures
            message@ == self.words(file@),
    {
        let place = joined("bearer token file ", quoted(file).as_str());
        match self {
            TokenProblem::Empty => place.concat(" is empty"),
            TokenProblem::WhiteSpace => place.concat(" contains whitespace inside the token"),
            TokenProblem::NotAHeader => place.concat(
                " is not a valid HTTP token: failed to parse header value",
            ),
        }
    }
}

/// Makes the `Authorization` header from the contents of a token file.
pub fn bearer_header(contents: &str) -> (outcome: Result<String, TokenProblem>)
    ensures
        outcome is Ok <==> token_problem(contents@) is None,
        outcome matches Ok(header) ==> header@ == "Bearer "@ + trimmed(contents@),
        outcome matches Err(problem) ==> token_problem(contents@) == Some(problem),
{
    let token = trim(contents);
    if token.as_str().is_empty() {
        return Err(TokenProblem::Empty);
    }
    let chars = chars_of(token.as_str());
    let mut i: usize = 0;
    while i < chars.len()
        invariant
            chars@ == token@,
            token@ == trimmed(contents@),
            token@.len() > 0,
            i <= chars.len(),
            forall|j: int| 0 <= j < i ==> !is_ascii_space(#[trigger] token@[j]),
        decreases chars.len() - i,
    {
        let code: u32 = code_point(chars[i]);
        if code == 32 || code == 9 || code == 10 || code == 12 || code == 13 {
            assert(is_ascii_space(token@[i as int]));
            return Err(TokenProblem::WhiteSpace);
        }
        i += 1;
    }
    let header = joined("Bearer ", token.as_str());
    if is_header_value(header.as_str()) {
        Ok(header)
    } else {
        Err(TokenProblem::NotAHeader)
    }
}

// ---------------------------------------------------------------------------------------------
// The request
// ---------------------------------------------------------------------------------------------

/// Why `tungstenite` makes no request of a URL, with its causes; `None` where it makes one.
pub uninterp spec fn request_refusal_words(url: Seq<char>) -> Option<Seq<char>>;

/// Asks `tungstenite::client::IntoClientRequest` whether a URL makes a request. What is claimed
/// is that the answer depends on the URL alone; the words are those of the error and its causes.
#[verifier::external_body]
fn request_refusal(url: &str) -> (words: Option<String>)
    ensures
        words.deep_view() == request_refusal_words(url@),
{
    tokio_tungstenite::tungstenite::client::IntoClientRequest::into_client_request(
        url,
    ).err().map(|error| format!("{:#}", anyhow::Error::from(error)))
}

/// What is prepared once before the first attempt to connect.
#[derive(Debug)]
pub struct ConnectionSetup {
    pub scheme: &'static str,
    /// The complete `Authorization` header.
    pub bearer: Option<String>,
    /// Name that is verified in place of the host of the address.
    pub tls_server_name: Option<String>,
}

/// What a handshake asks for.
#[derive(Debug, PartialEq, Eq)]
pub struct HandshakeRequest {
    /// Its host is the one whose certificate is verified.
    pub url: String,
    /// The `Host` header, which stays the configured address.
    pub host: String,
    /// The `Authorization` header.
    pub authorization: Option<String>,
}

/// The host and port of the URL; `None` where the address cannot be taken apart.
pub open spec fn url_authority(setup: ConnectionSetup, addr: Text) -> Option<Text> {
    match setup.tls_server_name {
        None => Some(addr),
        Some(name) => match address_parts(addr) {
            Some(parts) => match unsigned_value(parts.1, 65535) {
                Some(port) => Some(host_in_uri(name@) + ":"@ + decimal(port)),
                None => None,
            },
            None => None,
        },
    }
}

/// The URL of a request.
pub open spec fn request_url(setup: ConnectionSetup, authority: Text) -> Text {
    setup.scheme@ + "://"@ + authority + "/api/v1/wsconnect"@
}

/// The words for why no request can be made; `None` where one can.
pub open spec fn handshake_refusal(setup: ConnectionSetup, addr: Text) -> Option<Text> {
    match url_authority(setup, addr) {
        None => split_refusal(addr),
        Some(authority) => {
            let url = request_url(setup, authority);
            match request_refusal_words(url) {
                Some(words) => Some("build WebSocket request for "@ + url + ": "@ + words),
                None => if is_header_text(addr) {
                    None
                } else {
                    Some("invalid WebSocket Host header: failed to parse header value"@)
                },
            }
        },
    }
}

impl ConnectionSetup {
    /// Prepares the connection to a server, with the `Authorization` header that its token file
    /// makes.
    pub fn for_server(server: &ServerConfig, bearer: Option<String>) -> (setup: Self)
        ensures
            setup.scheme@ == (if server.tls is Some {
                "wss"@
            } else {
                "ws"@
            }),
            setup.bearer == bearer,
            setup.tls_server_name.deep_view() == (match server.tls {
                Some(tls) => if tls.server_name@.len() > 0 {
                    Some(tls.server_name@)
                } else {
                    None
                },
                None => None,
            }),
    {
        let tls_server_name = match &server.tls {
            Some(tls) => if tls.server_name.as_str().is_empty() {
                None
            } else {
                Some(tls.server_name.clone())
            },
            None => None,
        };
        ConnectionSetup {
            scheme: if server.tls.is_some() {
                "wss"
            } else {
                "ws"
            },
            bearer,
            tls_server_name,
        }
    }

    /// Makes the request for a handshake. The verified name goes into the URL, while the `Host`
    /// header stays the configured address. Refuses with the words for why.
    pub fn request(&self, server: &ServerConfig) -> (outcome: Result<HandshakeRequest, String>)
        ensures
            outcome is Ok <==> handshake_refusal(*self, server.addr@) is None,
            outcome matches Ok(request) ==> (url_authority(*self, server.addr@) matches Some(
                authority,
            ) && request.url@ == request_url(*self, authority)) && request.host@ == server.addr@
                && request.authorization.deep_view() == self.bearer.deep_view(),
            outcome matches Err(words) ==> handshake_refusal(*self, server.addr@) == Some(words@),
    {
        let authority = match &self.tls_server_name {
            Some(name) => match split_host_port(server.addr.as_str()) {
                Ok((_, port)) => {
                    let number = decimal_text(port as u128);
                    uri_host(name.as_str()).concat(":").concat(number.as_str())
                },
                Err(error) => {
                    return Err(error.message());
                },
            },
            None => server.addr.clone(),
        };
        let url = joined(self.scheme, "://").concat(authority.as_str()).concat("/api/v1/wsconnect");
        match request_refusal(url.as_str()) {
            Some(words) => {
                return Err(
                    joined("build WebSocket request for ", url.as_str()).concat(": ").concat(
                        words.as_str(),
                    ),
                );
            },
            None => {},
        }
        if !is_header_value(server.addr.as_str()) {
            return Err(
                "invalid WebSocket Host header: failed to parse header value".to_owned(),
            );
        }
        let authorization = match &self.bearer {
            Some(bearer) => Some(bearer.clone()),
            None => None,
        };
        Ok(HandshakeRequest { url, host: server.addr.clone(), authorization })
    }
}

/// Why a handshake failed.
#[derive(Debug, PartialEq, Eq)]
pub enum HandshakeFailure {
    /// The server answered with an HTTP status.
    Http(u16),
    /// Anything else, in words.
    Other(String),
}

/// The status code and its usual phrase, as the `http` crate writes them.
pub uninterp spec fn status_words(code: u16) -> Seq<char>;

/// Writes a status with the `Display` of `http::StatusCode`, which has three digits.
#[verifier::external_body]
fn status_text(code: u16) -> (text: String)
    requires
        100 <= code <= 999,
    ensures
        text@ == status_words(code),
{
    tokio_tungstenite::tungstenite::http::StatusCode::from_u16(code).map(
        |status| status.to_string(),
    ).unwrap_or_default()
}

/// The words for a handshake that failed. They hold neither the token nor the answer's body.
pub open spec fn handshake_words(failure: HandshakeFailure, bearer_provided: bool) -> Text {
    match failure {
        HandshakeFailure::Http(code) => if code == 401 {
            if bearer_provided {
                "server rejected the configured bearer token"@
            } else {
                "server requires authentication, but no bearer token is configured"@
            }
        } else {
            "WebSocket handshake failed: "@ + status_words(code)
        },
        HandshakeFailure::Other(words) => words@,
    }
}

/// The words for a handshake that failed.
pub fn websocket_connection_error(failure: &HandshakeFailure, bearer_provided: bool) -> (words:
    String)
    requires
        *failure matches HandshakeFailure::Http(code) ==> 100 <= code <= 999,
    ensures
        words@ == handshake_words(*failure, bearer_provided),
{
    match failure {
        HandshakeFailure::Http(code) => {
            if *code == 401 {
                if bearer_provided {
                    "server rejected the configured bearer token".to_owned()
                } else {
                    "server requires authentication, but no bearer token is configured".to_owned()
                }
            } else {
                joined("WebSocket handshake failed: ", status_text(*code).as_str())
            }
        },
        HandshakeFailure::Other(words) => words.clone(),
    }
}

// ---------------------------------------------------------------------------------------------
// Certificates
// ---------------------------------------------------------------------------------------------

/// The certificates in a PEM file, in order, or the words for why it cannot be read.
pub uninterp spec fn pem_reading(bytes: Seq<u8>) -> Result<Seq<Seq<u8>>, Seq<char>>;

/// Reads the certificates of a PEM file with `rustls_pemfile::certs`, which passes over sections
/// of other kinds and stops at the first that is broken. What is claimed is that the certificates,
/// and the words for why there are none, depend on the bytes alone.
#[verifier::external_body]
fn read_certificates(contents: &[u8]) -> (reading: Result<Vec<Vec<u8>>, String>)
    ensures
        reading is Ok <==> pem_reading(contents@) is Ok,
        reading matches Ok(found) ==> found.deep_view() == pem_reading(contents@)->Ok_0,
        reading matches Err(words) ==> words@ == pem_reading(contents@)->Err_0,
{
    let mut reader = contents;
    let found: Result<Vec<_>, _> = rustls_pemfile::certs(&mut reader).collect();
    found.map(|found| found.iter().map(|certificate| certificate.to_vec()).collect()).map_err(
        |error| format!("{:#}", anyhow::Error::from(error)),
    )
}

/// How many of these certificates can vouch for a server.
pub uninterp spec fn usable_count(certificates: Seq<Seq<u8>>) -> nat;

/// Counts the certificates that `rustls::RootCertStore::add_parsable_certificates` takes. It takes
/// or leaves each, and whether it takes one depends on that certificate alone.
#[verifier::external_body]
fn count_usable(certificates: &Vec<Vec<u8>>) -> (count: usize)
    ensures
        count == usable_count(certificates.deep_view()),
        count <= certificates@.len(),
{
    let given = certificates.iter().map(|bytes| bytes.clone().into());
    rustls::RootCertStore::empty().add_parsable_certificates(given).0
}

/// The words for why a file of certificates is refused, given what was read from it and how many
/// of its certificates are usable; `None` where it is taken.
pub open spec fn ca_refusal(
    ca_file: Text,
    reading: Result<Seq<Seq<u8>>, Text>,
    usable: nat,
) -> Option<Text> {
    match reading {
        Err(words) => Some("read TLS CA file "@ + debug_text(ca_file) + ": "@ + words),
        Ok(_) => if usable == 0 {
            Some("TLS CA file "@ + debug_text(ca_file) + " contains no valid certificates"@)
        } else {
            None
        },
    }
}

/// What a reading of certificates says.
pub open spec fn reading_view(reading: Result<Vec<Vec<u8>>, String>) -> Result<
    Seq<Seq<u8>>,
    Text,
> {
    match reading {
        Ok(found) => Ok(found.deep_view()),
        Err(words) => Err(words@),
    }
}

/// Decides about a file of certificates, given what was read from it and how many of its
/// certificates are usable. A file must give at least one.
pub fn ca_outcome(
    ca_file: &str,
    reading: Result<Vec<Vec<u8>>, String>,
    usable: usize,
) -> (outcome: Result<Vec<Vec<u8>>, String>)
    ensures
        outcome is Ok <==> ca_refusal(ca_file@, reading_view(reading), usable as nat) is None,
        outcome matches Ok(found) ==> reading_view(reading) == Ok::<Seq<Seq<u8>>, Text>(
            found.deep_view(),
        ),
        outcome matches Err(words) ==> ca_refusal(ca_file@, reading_view(reading), usable as nat)
            == Some(words@),
{
    match reading {
        Err(words) => Err(
            joined("read TLS CA file ", quoted(ca_file).as_str()).concat(": ").concat(
                words.as_str(),
            ),
        ),
        Ok(found) => if usable == 0 {
            Err(
                joined("TLS CA file ", quoted(ca_file).as_str()).concat(
                    " contains no valid certificates",
                ),
            )
        } else {
            Ok(found)
        },
    }
}

/// How many usable certificates a reading has.
pub open spec fn usable_in(reading: Result<Seq<Seq<u8>>, Text>) -> nat {
    match reading {
        Ok(found) => usable_count(found),
        Err(_) => 0,
    }
}

/// Takes the certificates out of the contents of a file.
pub fn ca_certificates(ca_file: &str, contents: &[u8]) -> (outcome: Result<Vec<Vec<u8>>, String>)
    ensures
        outcome is Ok <==> pem_reading(contents@) is Ok && usable_count(
            pem_reading(contents@)->Ok_0,
        ) > 0,
        outcome matches Ok(found) ==> found.deep_view() == pem_reading(contents@)->Ok_0,
        outcome matches Err(words) ==> ca_refusal(
            ca_file@,
            pem_reading(contents@),
            usable_in(pem_reading(contents@)),
        ) == Some(words@),
{
    let reading = read_certificates(contents);
    let usable: usize = match &reading {
        Ok(found) => count_usable(found),
        Err(_) => 0,
    };
    assert(reading_view(reading) == pem_reading(contents@));
    ca_outcome(ca_file, reading, usable)
}

/// The words for why no server can be trusted; `None` where some can. Without a file of their own
/// the certificates of the system must do.
pub open spec fn trust_refusal(
    ca_file: Text,
    reading: Result<Seq<Seq<u8>>, Text>,
    usable_of_file: nat,
    usable_of_system: nat,
) -> Option<Text> {
    if ca_file.len() > 0 {
        ca_refusal(ca_file, reading, usable_of_file)
    } else if usable_of_system == 0 {
        Some("load system CA certificates: no trusted certificates were found"@)
    } else {
        None
    }
}

/// The certificates to trust: those of the system, then those of the configured file, if there is
/// one. Not all of them need be usable.
pub fn trusted_certificates(ca_file: &str, contents: &[u8], system: Vec<Vec<u8>>) -> (outcome:
    Result<Vec<Vec<u8>>, String>)
    ensures
        outcome is Ok <==> trust_refusal(
            ca_file@,
            pem_reading(contents@),
            usable_in(pem_reading(contents@)),
            usable_count(system.deep_view()),
        ) is None,
        outcome matches Ok(found) ==> found.deep_view() == (if ca_file@.len() > 0 {
            system.deep_view() + pem_reading(contents@)->Ok_0
        } else {
            system.deep_view()
        }),
        outcome matches Err(words) ==> trust_refusal(
            ca_file@,
            pem_reading(contents@),
            usable_in(pem_reading(contents@)),
            usable_count(system.deep_view()),
        ) == Some(words@),
{
    if ca_file.is_empty() {
        if count_usable(&system) == 0 {
            return Err(
                "load system CA certificates: no trusted certificates were found".to_owned(),
            );
        }
        return Ok(system);
    }
    match ca_certificates(ca_file, contents) {
        Ok(of_file) => {
            let ghost before = system.deep_view();
            let ghost added = of_file.deep_view();
            let mut found = system;
            let mut of_file = of_file;
            found.append(&mut of_file);
            assert(found.deep_view() =~= before + added);
            Ok(found)
        },
        Err(words) => Err(words),
    }
}

// ---------------------------------------------------------------------------------------------
// Keeping the connection up
// ---------------------------------------------------------------------------------------------

/// Why bytes are no UTF-8, in the words of `std::str::Utf8Error`.
pub uninterp spec fn utf8_refusal_words(bytes: Seq<u8>) -> Seq<char>;

/// Reads bytes as a text with `std::str::from_utf8`.
#[verifier::external_body]
fn utf8_text(bytes: &[u8]) -> (text: Result<String, String>)
    ensures
        text is Ok <==> valid_utf8(bytes@),
        text matches Ok(read) ==> read@ == decode_utf8(bytes@),
        text matches Err(words) ==> words@ == utf8_refusal_words(bytes@),
{
    std::str::from_utf8(bytes).map(|read| read.to_owned()).map_err(|error| error.to_string())
}

/// A frame from the server.
#[derive(Debug)]
pub enum Frame {
    Binary(Vec<u8>),
    Text(String),
    Close,
    /// A frame that carries no message.
    Other,
}

/// What happened.
#[derive(Debug)]
pub enum Signal {
    /// The connection could not be prepared, in words.
    SetupFailed(String),
    /// The pause is over.
    PauseOver,
    /// No request could be made, in words.
    RequestFailed(String),
    /// The request for this URL is made.
    RequestReady(String),
    Opened,
    /// The attempt failed, in words.
    OpenFailed(String),
    OpenTimedOut,
    ReadTimedOut,
    /// There is nothing more to read.
    Ended,
    /// Reading failed, in words.
    ReadFailed(String),
    Received(Frame),
    /// The text was a message with these incidents, or one to ignore.
    Decoded(Option<NotificationData>),
    /// The text was no message, in words.
    DecodeFailed(String),
    /// Whether the tunnel under the connection stopped.
    Settled(bool),
    ShutDown,
}

/// Where the connection stands.
#[derive(Debug)]
pub enum Phase {
    Pausing,
    Preparing,
    Connecting,
    Reading,
    Decoding,
    /// A failure waits to be blamed on the tunnel; with its words and whether a connection was
    /// lost.
    Settling(String, bool),
    Stopped,
}

/// What a phase says.
pub enum PhaseModel {
    Pausing,
    Preparing,
    Connecting,
    Reading,
    Decoding,
    Settling(Text, bool),
    Stopped,
}

impl View for Phase {
    type V = PhaseModel;

    open spec fn view(&self) -> PhaseModel {
        match self {
            Phase::Pausing => PhaseModel::Pausing,
            Phase::Preparing => PhaseModel::Preparing,
            Phase::Connecting => PhaseModel::Connecting,
            Phase::Reading => PhaseModel::Reading,
            Phase::Decoding => PhaseModel::Decoding,
            Phase::Settling(error, lost) => PhaseModel::Settling(error@, *lost),
            Phase::Stopped => PhaseModel::Stopped,
        }
    }
}

/// What to do next.
#[derive(Debug, PartialEq, Eq)]
pub enum Action {
    /// Wait so long, or until the shutdown.
    Pause(Span),
    /// Make a request.
    Prepare,
    /// Connect, or stop trying after the time that the options give.
    Connect,
    /// Wait for a frame, or stop waiting after the time that the options give.
    Read,
    /// Take the incidents out of this text.
    Decode(String),
    /// Wait a moment for news of the tunnel.
    Settle,
    Stop,
}

/// What an [`Action`] says.
pub enum ActionModel {
    Pause(Span),
    Prepare,
    Connect,
    Read,
    Decode(Text),
    Settle,
    Stop,
}

impl View for Action {
    type V = ActionModel;

    open spec fn view(&self) -> ActionModel {
        match self {
            Action::Pause(span) => ActionModel::Pause(*span),
            Action::Prepare => ActionModel::Prepare,
            Action::Connect => ActionModel::Connect,
            Action::Read => ActionModel::Read,
            Action::Decode(text) => ActionModel::Decode(text@),
            Action::Settle => ActionModel::Settle,
            Action::Stop => ActionModel::Stop,
        }
    }
}

/// What came of a signal.
pub struct Step {
    pub lines: Vec<EventLogLine>,
    /// The event to send. Where nobody takes one that must be delivered, the connection ends.
    pub event: Option<Event>,
    pub must_deliver: bool,
    pub action: Action,
}

/// What a [`Step`] says.
#[verifier::ext_equal]
pub struct StepModel {
    pub lines: Seq<LineModel>,
    pub event: Option<EventModel>,
    pub must_deliver: bool,
    pub action: ActionModel,
}

impl View for Step {
    type V = StepModel;

    open spec fn view(&self) -> StepModel {
        StepModel {
            lines: self.lines.deep_view(),
            event: match self.event {
                Some(event) => Some(event@),
                None => None,
            },
            must_deliver: self.must_deliver,
            action: self.action@,
        }
    }
}

/// Keeps one connection up: it tells what to do, and what comes of it.
pub struct ConnectionLoop {
    server_id: String,
    tunneled: bool,
    options: ClientOptions,
    reconnect_delay: Span,
    phase: Phase,
}

/// What a [`ConnectionLoop`] says.
#[verifier::ext_equal]
pub struct LoopModel {
    pub server_id: Text,
    pub tunneled: bool,
    pub options: ClientOptions,
    pub reconnect_delay: Span,
    pub phase: PhaseModel,
}

impl View for ConnectionLoop {
    type V = LoopModel;

    closed spec fn view(&self) -> LoopModel {
        LoopModel {
            server_id: self.server_id@,
            tunneled: self.tunneled,
            options: self.options,
            reconnect_delay: self.reconnect_delay,
            phase: self.phase@,
        }
    }
}

/// The options whose pauses can be added up.
pub open spec fn are_sound(options: ClientOptions) -> bool {
    options.max_reconnect_delay + options.reconnect_step <= u128::MAX
}

/// A pause after one more failure.
pub open spec fn longer_delay(options: ClientOptions, delay: Span) -> Span {
    if delay + options.reconnect_step > options.max_reconnect_delay {
        options.max_reconnect_delay
    } else {
        (delay + options.reconnect_step) as u128
    }
}

/// A line about a server.
pub open spec fn server_line(level: Level, server_id: Text, words: Text) -> LineModel {
    LineModel { level, message: "server "@ + server_id + " "@ + words }
}

/// A step that only goes on.
pub open spec fn quiet(action: ActionModel) -> StepModel {
    StepModel { lines: Seq::empty(), event: None, must_deliver: false, action }
}

/// The step that tells of a disconnection.
pub open spec fn disconnection(
    state: LoopModel,
    lines: Seq<LineModel>,
    error: Text,
    at: Timestamp,
    action: ActionModel,
) -> StepModel {
    StepModel {
        lines,
        event: Some(EventModel::Disconnected { server_id: state.server_id, at, error }),
        must_deliver: false,
        action,
    }
}

/// The state before the next attempt, and what to do until then.
pub open spec fn retried(state: LoopModel) -> (LoopModel, ActionModel) {
    let delay = longer_delay(state.options, state.reconnect_delay);
    if delay == 0 {
        (
            LoopModel { reconnect_delay: delay, phase: PhaseModel::Preparing, ..state },
            ActionModel::Prepare,
        )
    } else {
        (
            LoopModel { reconnect_delay: delay, phase: PhaseModel::Pausing, ..state },
            ActionModel::Pause(delay),
        )
    }
}

/// The end of the connection.
pub open spec fn stopped(state: LoopModel) -> LoopModel {
    LoopModel { phase: PhaseModel::Stopped, ..state }
}

/// The connection cannot be prepared: there is no use in trying again.
pub open spec fn unprepared(state: LoopModel, words: Text, at: Timestamp) -> (LoopModel, StepModel) {
    let error = "preparing connection: "@ + words;
    (
        stopped(state),
        disconnection(
            state,
            seq![server_line(Level::Error, state.server_id, error)],
            error,
            at,
            ActionModel::Stop,
        ),
    )
}

/// An attempt failed.
pub open spec fn attempt_failed(state: LoopModel, error: Text, at: Timestamp) -> (
    LoopModel,
    StepModel,
) {
    let (next, action) = retried(state);
    (
        next,
        disconnection(
            state,
            seq![
                server_line(Level::Warn, state.server_id, "connection failed: "@ + error),
            ],
            error,
            at,
            action,
        ),
    )
}

/// An attempt failed. Over a tunnel it waits for news of the tunnel first.
pub open spec fn open_failed(state: LoopModel, error: Text, at: Timestamp) -> (LoopModel, StepModel) {
    if state.tunneled {
        (
            LoopModel { phase: PhaseModel::Settling(error, false), ..state },
            quiet(ActionModel::Settle),
        )
    } else {
        attempt_failed(state, error, at)
    }
}

/// A connection is lost. Over a tunnel it waits for news of the tunnel first.
pub open spec fn lost(state: LoopModel, error: Text, at: Timestamp) -> (LoopModel, StepModel) {
    let lines = seq![server_line(Level::Warn, state.server_id, "connection lost: "@ + error)];
    if state.tunneled {
        (
            LoopModel { phase: PhaseModel::Settling(error, true), ..state },
            StepModel { lines, ..quiet(ActionModel::Settle) },
        )
    } else {
        let (next, action) = retried(state);
        (next, disconnection(state, lines, error, at, action))
    }
}

/// A frame is read.
pub open spec fn received(state: LoopModel, frame: Frame, at: Timestamp) -> (LoopModel, StepModel) {
    let decoding = LoopModel { phase: PhaseModel::Decoding, ..state };
    match frame {
        Frame::Binary(bytes) => if bytes@ == seq![0u8] {
            (
                state,
                StepModel {
                    event: Some(EventModel::Heartbeat { server_id: state.server_id, at }),
                    must_deliver: true,
                    ..quiet(ActionModel::Read)
                },
            )
        } else if valid_utf8(bytes@) {
            (decoding, quiet(ActionModel::Decode(decode_utf8(bytes@))))
        } else {
            lost(state, "decoding server message: "@ + utf8_refusal_words(bytes@), at)
        },
        Frame::Text(text) => if encode_utf8(text@).len() > state.options.max_message_bytes {
            lost(state, "server message exceeds 1 MiB"@, at)
        } else {
            (decoding, quiet(ActionModel::Decode(text@)))
        },
        Frame::Close => lost(state, "WebSocket connection closed"@, at),
        Frame::Other => (state, quiet(ActionModel::Read)),
    }
}

/// Whole seconds of a length of time, in words.
pub open spec fn seconds_words(span: Span) -> Text {
    decimal((span / 1_000_000_000) as nat)
}

/// The words for an attempt that took too long.
pub open spec fn open_timeout_words(options: ClientOptions) -> Text {
    "connection attempt timed out after "@ + seconds_words(options.connect_timeout) + " seconds"@
}

/// The words for a connection that was silent for too long.
pub open spec fn read_timeout_words(options: ClientOptions) -> Text {
    "no server data received for "@ + seconds_words(options.read_timeout)
        + " seconds; reconnecting"@
}

/// What to do in a phase.
pub open spec fn pending(state: LoopModel) -> ActionModel {
    match state.phase {
        PhaseModel::Pausing => ActionModel::Pause(state.reconnect_delay),
        PhaseModel::Preparing => ActionModel::Prepare,
        PhaseModel::Connecting => ActionModel::Connect,
        PhaseModel::Reading => ActionModel::Read,
        PhaseModel::Decoding => ActionModel::Read,
        PhaseModel::Settling(_, _) => ActionModel::Settle,
        PhaseModel::Stopped => ActionModel::Stop,
    }
}

/// The state and the step after a signal. One that does not belong to the phase changes nothing.
pub open spec fn after_signal(state: LoopModel, signal: Signal, at: Timestamp) -> (
    LoopModel,
    StepModel,
) {
    let reading = LoopModel { phase: PhaseModel::Reading, ..state };
    match (state.phase, signal) {
        (_, Signal::ShutDown) => (stopped(state), quiet(ActionModel::Stop)),
        (PhaseModel::Pausing, Signal::PauseOver) => (
            LoopModel { phase: PhaseModel::Preparing, ..state },
            quiet(ActionModel::Prepare),
        ),
        (PhaseModel::Preparing, Signal::SetupFailed(words)) => unprepared(state, words@, at),
        (PhaseModel::Preparing, Signal::RequestFailed(words)) => unprepared(state, words@, at),
        (PhaseModel::Preparing, Signal::RequestReady(url)) => (
            LoopModel { phase: PhaseModel::Connecting, ..state },
            StepModel {
                lines: seq![
                    server_line(Level::Info, state.server_id, "connecting to "@ + url@),
                ],
                ..quiet(ActionModel::Connect)
            },
        ),
        (PhaseModel::Connecting, Signal::Opened) => (
            LoopModel { reconnect_delay: 0, ..reading },
            StepModel {
                lines: seq![server_line(Level::Info, state.server_id, "connected"@)],
                event: Some(EventModel::Connected { server_id: state.server_id, at }),
                must_deliver: true,
                action: ActionModel::Read,
            },
        ),
        (PhaseModel::Connecting, Signal::OpenFailed(words)) => open_failed(state, words@, at),
        (PhaseModel::Connecting, Signal::OpenTimedOut) => open_failed(
            state,
            open_timeout_words(state.options),
            at,
        ),
        (PhaseModel::Reading, Signal::ReadTimedOut) => lost(
            state,
            read_timeout_words(state.options),
            at,
        ),
        (PhaseModel::Reading, Signal::Ended) => lost(state, "WebSocket connection closed"@, at),
        (PhaseModel::Reading, Signal::ReadFailed(words)) => lost(state, words@, at),
        (PhaseModel::Reading, Signal::Received(frame)) => received(state, frame, at),
        (PhaseModel::Decoding, Signal::Decoded(Some(data))) => (
            reading,
            StepModel {
                event: Some(
                    EventModel::Notification { server_id: state.server_id, data: data@, at },
                ),
                must_deliver: true,
                ..quiet(ActionModel::Read)
            },
        ),
        (PhaseModel::Decoding, Signal::Decoded(None)) => (reading, quiet(ActionModel::Read)),
        (PhaseModel::Decoding, Signal::DecodeFailed(words)) => lost(state, words@, at),
        (PhaseModel::Settling(_, _), Signal::Settled(true)) => (
            stopped(state),
            quiet(ActionModel::Stop),
        ),
        (PhaseModel::Settling(error, false), Signal::Settled(false)) => attempt_failed(
            state,
            error,
            at,
        ),
        (PhaseModel::Settling(error, true), Signal::Settled(false)) => {
            let (next, action) = retried(state);
            (next, disconnection(state, Seq::empty(), error, at, action))
        },
        _ => (state, quiet(pending(state))),
    }
}

fn no_lines() -> (lines: Vec<EventLogLine>)
    ensures
        lines.deep_view() == Seq::<LineModel>::empty(),
{
    let lines: Vec<EventLogLine> = Vec::new();
    assert(lines.deep_view() =~= Seq::<LineModel>::empty());
    lines
}

fn quiet_step(action: Action) -> (step: Step)
    ensures
        step@ == quiet(action@),
{
    Step { lines: no_lines(), event: None, must_deliver: false, action }
}

impl ConnectionLoop {
    #[verifier::type_invariant]
    spec fn bounded(self) -> bool {
        are_sound(self.options) && self.reconnect_delay <= self.options.max_reconnect_delay
    }

    /// A connection that is about to be prepared.
    pub fn new(server_id: String, tunneled: bool, options: ClientOptions) -> (state: Self)
        requires
            are_sound(options),
        ensures
            state@ == (LoopModel {
                server_id: server_id@,
                tunneled,
                options,
                reconnect_delay: 0,
                phase: PhaseModel::Preparing,
            }),
    {
        ConnectionLoop { server_id, tunneled, options, reconnect_delay: 0, phase: Phase::Preparing }
    }

    /// What to do next.
    pub fn action(&self) -> (action: Action)
        ensures
            action@ == pending(self@),
    {
        match &self.phase {
            Phase::Pausing => Action::Pause(self.reconnect_delay),
            Phase::Preparing => Action::Prepare,
            Phase::Connecting => Action::Connect,
            Phase::Reading => Action::Read,
            Phase::Decoding => Action::Read,
            Phase::Settling(_, _) => Action::Settle,
            Phase::Stopped => Action::Stop,
        }
    }

    fn line(&self, level: Level, words: &str) -> (lines: Vec<EventLogLine>)
        ensures
            lines.deep_view() == seq![server_line(level, self@.server_id, words@)],
    {
        let message = joined("server ", self.server_id.as_str()).concat(" ").concat(words);
        let mut lines: Vec<EventLogLine> = Vec::new();
        lines.push(EventLogLine { level, message });
        assert(lines.deep_view() =~= seq![server_line(level, self@.server_id, words@)]);
        lines
    }

    fn retry(&mut self) -> (action: Action)
        ensures
            final(self)@ == retried(old(self)@).0,
            action@ == retried(old(self)@).1,
    {
        proof {
            use_type_invariant(&*self);
        }
        let longer: u128 = self.reconnect_delay + self.options.reconnect_step;
        let delay: u128 = if longer > self.options.max_reconnect_delay {
            self.options.max_reconnect_delay
        } else {
            longer
        };
        self.reconnect_delay = delay;
        if delay == 0 {
            self.phase = Phase::Preparing;
            Action::Prepare
        } else {
            self.phase = Phase::Pausing;
            Action::Pause(delay)
        }
    }

    fn disconnected(&self, error: String, at: Timestamp) -> (event: Event)
        ensures
            event@ == (EventModel::Disconnected {
                server_id: self@.server_id,
                at,
                error: error@,
            }),
    {
        Event::Disconnected { server_id: self.server_id.clone(), at, error }
    }

    fn give_up(&mut self, words: String, at: Timestamp) -> (step: Step)
        ensures
            final(self)@ == unprepared(old(self)@, words@, at).0,
            step@ == unprepared(old(self)@, words@, at).1,
    {
        proof {
            use_type_invariant(&*self);
        }
        let error = joined("preparing connection: ", words.as_str());
        let lines = self.line(Level::Error, error.as_str());
        let event = self.disconnected(error, at);
        self.phase = Phase::Stopped;
        Step { lines, event: Some(event), must_deliver: false, action: Action::Stop }
    }

    fn fail_attempt(&mut self, error: String, at: Timestamp) -> (step: Step)
        ensures
            final(self)@ == attempt_failed(old(self)@, error@, at).0,
            step@ == attempt_failed(old(self)@, error@, at).1,
    {
        proof {
            use_type_invariant(&*self);
        }
        let lines = self.line(Level::Warn, joined("connection failed: ", error.as_str()).as_str());
        let event = self.disconnected(error, at);
        let action = self.retry();
        Step { lines, event: Some(event), must_deliver: false, action }
    }

    fn fail_open(&mut self, error: String, at: Timestamp) -> (step: Step)
        ensures
            final(self)@ == open_failed(old(self)@, error@, at).0,
            step@ == open_failed(old(self)@, error@, at).1,
    {
        proof {
            use_type_invariant(&*self);
        }
        if self.tunneled {
            self.phase = Phase::Settling(error, false);
            quiet_step(Action::Settle)
        } else {
            self.fail_attempt(error, at)
        }
    }

    fn lose(&mut self, error: String, at: Timestamp) -> (step: Step)
        ensures
            final(self)@ == lost(old(self)@, error@, at).0,
            step@ == lost(old(self)@, error@, at).1,
    {
        proof {
            use_type_invariant(&*self);
        }
        let lines = self.line(Level::Warn, joined("connection lost: ", error.as_str()).as_str());
        if self.tunneled {
            self.phase = Phase::Settling(error, true);
            Step { lines, event: None, must_deliver: false, action: Action::Settle }
        } else {
            let event = self.disconnected(error, at);
            let action = self.retry();
            Step { lines, event: Some(event), must_deliver: false, action }
        }
    }

    fn receive(&mut self, frame: Frame, at: Timestamp) -> (step: Step)
        ensures
            final(self)@ == received(old(self)@, frame, at).0,
            step@ == received(old(self)@, frame, at).1,
    {
        proof {
            use_type_invariant(&*self);
        }
        match frame {
            Frame::Binary(bytes) => {
                let beat = bytes.len() == 1 && bytes[0] == 0;
                proof {
                    if beat {
                        assert(bytes@ =~= seq![0u8]);
                    } else if bytes@ == seq![0u8] {
                        assert(bytes@[0] == 0u8);
                    }
                }
                if beat {
                    let event = Event::Heartbeat { server_id: self.server_id.clone(), at };
                    return Step {
                        lines: no_lines(),
                        event: Some(event),
                        must_deliver: true,
                        action: Action::Read,
                    };
                }
                match utf8_text(bytes.as_slice()) {
                    Ok(text) => {
                        self.phase = Phase::Decoding;
                        quiet_step(Action::Decode(text))
                    },
                    Err(words) => self.lose(
                        joined("decoding server message: ", words.as_str()),
                        at,
                    ),
                }
            },
            Frame::Text(text) => {
                if text.as_str().as_bytes().len() > self.options.max_message_bytes {
                    self.lose("server message exceeds 1 MiB".to_owned(), at)
                } else {
                    self.phase = Phase::Decoding;
                    quiet_step(Action::Decode(text))
                }
            },
            Frame::Close => self.lose("WebSocket connection closed".to_owned(), at),
            Frame::Other => quiet_step(Action::Read),
        }
    }

    /// Takes a signal. `at` is the instant at which it came.
    pub fn advance(&mut self, signal: Signal, at: Timestamp) -> (step: Step)
        ensures
            final(self)@ == after_signal(old(self)@, signal, at).0,
            step@ == after_signal(old(self)@, signal, at).1,
    {
        proof {
            use_type_invariant(&*self);
        }
        let mut settling: Option<(String, bool)> = None;
        let phase: u8 = match &self.phase {
            Phase::Pausing => 0,
            Phase::Preparing => 1,
            Phase::Connecting => 2,
            Phase::Reading => 3,
            Phase::Decoding => 4,
            Phase::Settling(error, was_connected) => {
                settling = Some((error.clone(), *was_connected));
                5
            },
            Phase::Stopped => 6,
        };
        match signal {
            Signal::ShutDown => {
                self.phase = Phase::Stopped;
                quiet_step(Action::Stop)
            },
            Signal::PauseOver => if phase == 0 {
                self.phase = Phase::Preparing;
                quiet_step(Action::Prepare)
            } else {
                quiet_step(self.action())
            },
            Signal::SetupFailed(words) => if phase == 1 {
                self.give_up(words, at)
            } else {
                quiet_step(self.action())
            },
            Signal::RequestFailed(words) => if phase == 1 {
                self.give_up(words, at)
            } else {
                quiet_step(self.action())
            },
            Signal::RequestReady(url) => if phase == 1 {
                let lines = self.line(Level::Info, joined("connecting to ", url.as_str()).as_str());
                self.phase = Phase::Connecting;
                Step { lines, event: None, must_deliver: false, action: Action::Connect }
            } else {
                quiet_step(self.action())
            },
            Signal::Opened => if phase == 2 {
                let lines = self.line(Level::Info, "connected");
                let event = Event::Connected { server_id: self.server_id.clone(), at };
                self.reconnect_delay = 0;
                self.phase = Phase::Reading;
                Step { lines, event: Some(event), must_deliver: true, action: Action::Read }
            } else {
                quiet_step(self.action())
            },
            Signal::OpenFailed(words) => if phase == 2 {
                self.fail_open(words, at)
            } else {
                quiet_step(self.action())
            },
            Signal::OpenTimedOut => if phase == 2 {
                let seconds = decimal_text(self.options.connect_timeout / NANOSECONDS_PER_SECOND);
                let words = joined("connection attempt timed out after ", seconds.as_str()).concat(
                    " seconds",
                );
                self.fail_open(words, at)
            } else {
                quiet_step(self.action())
            },
            Signal::ReadTimedOut => if phase == 3 {
                let seconds = decimal_text(self.options.read_timeout / NANOSECONDS_PER_SECOND);
                let words = joined("no server data received for ", seconds.as_str()).concat(
                    " seconds; reconnecting",
                );
                self.lose(words, at)
            } else {
                quiet_step(self.action())
            },
            Signal::Ended => if phase == 3 {
                self.lose("WebSocket connection closed".to_owned(), at)
            } else {
                quiet_step(self.action())
            },
            Signal::ReadFailed(words) => if phase == 3 {
                self.lose(words, at)
            } else {
                quiet_step(self.action())
            },
            Signal::Received(frame) => if phase == 3 {
                self.receive(frame, at)
            } else {
                quiet_step(self.action())
            },
            Signal::Decoded(decoded) => if phase == 4 {
                self.phase = Phase::Reading;
                match decoded {
                    Some(data) => {
                        let event = Event::Notification {
                            server_id: self.server_id.clone(),
                            data,
                            at,
                        };
                        Step {
                            lines: no_lines(),
                            event: Some(event),
                            must_deliver: true,
                            action: Action::Read,
                        }
                    },
                    None => quiet_step(Action::Read),
                }
            } else {
                quiet_step(self.action())
            },
            Signal::DecodeFailed(words) => if phase == 4 {
                self.lose(words, at)
            } else {
                quiet_step(self.action())
            },
            Signal::Settled(tunnel_stopped) => match settling {
                Some((error, was_connected)) => if tunnel_stopped {
                    self.phase = Phase::Stopped;
                    quiet_step(Action::Stop)
                } else if was_connected {
                    let event = self.disconnected(error, at);
                    let action = self.retry();
                    Step { lines: no_lines(), event: Some(event), must_deliver: false, action }
                } else {
                    self.fail_attempt(error, at)
                },
                None => quiet_step(self.action()),
            },
        }
    }
}

/// The shutdown ends a connection in any phase, without an event.
pub proof fn shutdown_is_quiet(state: LoopModel, at: Timestamp)
    ensures
        after_signal(state, Signal::ShutDown, at) == (stopped(state), quiet(ActionModel::Stop)),
{
}

/// Every event of a connection is about its own server, and nothing about the connection itself
/// changes but its phase and its pause.
pub proof fn events_are_about_the_own_server(state: LoopModel, signal: Signal, at: Timestamp)
    ensures
        after_signal(state, signal, at).1.event matches Some(event) ==> source(event) == Some(
            state.server_id,
        ),
        ({
            let next = after_signal(state, signal, at).0;
            &&& next.server_id == state.server_id
            &&& next.tunneled == state.tunneled
            &&& next.options == state.options
        }),
{
}

/// Over a tunnel no failure is reported before there was time for news of the tunnel, and none at
/// all where the tunnel stopped: then the connection ends without an event.
pub proof fn failures_over_a_tunnel_wait_for_its_news(state: LoopModel, signal: Signal, at: Timestamp)
    requires
        state.tunneled,
        after_signal(state, signal, at).1.event matches Some(event) && event is Disconnected,
    ensures
        state.phase is Preparing || (state.phase is Settling && signal == Signal::Settled(false)),
{
}

/// The pause after a number of failures in a row.
pub open spec fn delay_after(options: ClientOptions, failures: nat) -> int {
    if failures * options.reconnect_step > options.max_reconnect_delay {
        options.max_reconnect_delay as int
    } else {
        failures * options.reconnect_step
    }
}

/// The pauses grow by one step with each failure in a row, up to the longest, and start over once
/// a connection was made.
pub proof fn pauses_grow_step_by_step(state: LoopModel, failures: nat, at: Timestamp)
    requires
        state.reconnect_delay == delay_after(state.options, failures),
    ensures
        retried(state).0.reconnect_delay == delay_after(state.options, failures + 1),
        state.phase is Connecting ==> after_signal(state, Signal::Opened, at).0.reconnect_delay
            == delay_after(state.options, 0),
{
    let step = state.options.reconnect_step as int;
    assert((failures + 1) * step == failures * step + step) by (nonlinear_arith);
    assert(failures * step >= 0) by (nonlinear_arith)
        requires
            step >= 0,
    ;
    assert(0 * step == 0);
}

} // verus!
