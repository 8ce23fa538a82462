//! Secrets by which a client proves to a server who it is.

use base64::Engine;
use ring::rand::SecureRandom;
use vstd::prelude::*;
use vstd::string::*;

use crate::config::{id_problem, id_words, validate_server_id, IdProblem};
use crate::network::client::{is_ascii_space, is_header_char, is_header_text, token_problem};
use crate::text::{copy_of, is_space, joined, push_char, trim_end, trim_start, trimmed, Text};

verus! {

/// How many random bytes a token has.
pub const TOKEN_BYTES: usize = 32;

// ---------------------------------------------------------------------------------------------
// Outside functions
// ---------------------------------------------------------------------------------------------

/// Bytes in the URL-safe alphabet of base64, without padding.
pub uninterp spec fn url_safe_text(bytes: Seq<u8>) -> Seq<char>;

/// The characters of the URL-safe alphabet of base64.
pub open spec fn is_url_safe(ch: char) -> bool {
    ||| 'a' <= ch <= 'z'
    ||| 'A' <= ch <= 'Z'
    ||| '0' <= ch <= '9'
    ||| ch == '-'
    ||| ch == '_'
}

/// Writes bytes with `base64::engine::general_purpose::URL_SAFE_NO_PAD`. Each three bytes make
/// four characters of the URL-safe alphabet, and the two that are left make three.
#[verifier::external_body]
fn encode(bytes: &[u8; TOKEN_BYTES]) -> (text: String)
    ensures
        text@ == url_safe_text(bytes@),
        text@.len() == 43,
        forall|i: int| 0 <= i < text@.len() ==> is_url_safe(#[trigger] text@[i]),
{
    base64::engine::general_purpose::URL_SAFE_NO_PAD.encode(bytes)
}

/// The SHA-256 digest of a text.
pub uninterp spec fn sha256_digest(text: Seq<char>) -> Seq<u8>;

/// Computes a digest of the UTF-8 bytes of a text with `ring::digest::digest` and
/// `ring::digest::SHA256`, which gives 32 bytes. Texts whose length in bits has more than 64 bits
/// are left out.
#[verifier::external_body]
fn digest(text: &str) -> (digest: Vec<u8>)
    requires
        text@.len() <= 0x7ff_ffff_ffff_ffff,
    ensures
        digest@ == sha256_digest(text@),
        digest@.len() == 32,
{
    ring::digest::digest(&ring::digest::SHA256, text.as_bytes()).as_ref().to_vec()
}

/// Asks the operating system for random bytes with `ring::rand::SystemRandom`. It may have none,
/// and which they are is left to chance.
#[verifier::external_body]
fn random_bytes() -> (bytes: Option<[u8; TOKEN_BYTES]>) {
    let mut bytes = [0; TOKEN_BYTES];
    ring::rand::SystemRandom::new().fill(&mut bytes).ok().map(|()| bytes)
}

/// A text as a JSON string.
pub uninterp spec fn json_string(text: Seq<char>) -> Seq<char>;

/// Writes a text as a JSON string with `serde_json::to_string`, which fails for no text.
#[verifier::external_body]
fn json_quoted(text: &str) -> (quoted: String)
    ensures
        quoted@ == json_string(text@),
{
    serde_json::to_string(text).expect("a text is a JSON string")
}

// ---------------------------------------------------------------------------------------------
// Tokens
// ---------------------------------------------------------------------------------------------

/// A hexadecimal digit.
pub open spec fn hex_digit(value: int) -> char {
    if value < 10 {
        (48 + value) as char
    } else {
        (87 + value) as char
    }
}

/// Bytes in hexadecimal, two digits each.
pub open spec fn hex(bytes: Seq<u8>) -> Text
    decreases bytes.len(),
{
    if bytes.len() == 0 {
        Seq::empty()
    } else {
        hex(bytes.drop_last()).push(hex_digit(bytes.last() as int / 16)).push(
            hex_digit(bytes.last() as int % 16),
        )
    }
}

fn hex_char(value: u8) -> (ch: char)
    requires
        value < 16,
    ensures
        ch == hex_digit(value as int),
{
    if value < 10 {
        (48 + value) as char
    } else {
        (87 + value) as char
    }
}

/// Writes bytes in hexadecimal.
pub fn hex_text(bytes: &Vec<u8>) -> (text: String)
    ensures
        text@ == hex(bytes@),
{
    let mut text = String::new();
    let mut i: usize = 0;
    assert(bytes@.take(0) =~= Seq::<u8>::empty());
    while i < bytes.len()
        invariant
            i <= bytes.len(),
            text@ == hex(bytes@.take(i as int)),
        decreases bytes.len() - i,
    {
        let byte: u8 = bytes[i];
        push_char(&mut text, hex_char(byte / 16));
        push_char(&mut text, hex_char(byte % 16));
        assert(bytes@.take(i + 1).drop_last() =~= bytes@.take(i as int));
        i += 1;
    }
    assert(bytes@.take(i as int) =~= bytes@);
    text
}

/// A secret and what a server needs to recognise it.
#[derive(Debug, PartialEq, Eq)]
pub struct Credential {
    /// The secret. It is written to a file of the owner only, and told to nobody.
    pub token: String,
    /// The SHA-256 digest of the token, in hexadecimal.
    pub hash: String,
}

impl Credential {
    /// Whether a credential is the one that bytes make.
    pub open spec fn is_made_of(self, bytes: Seq<u8>) -> bool {
        &&& self.token@ == url_safe_text(bytes)
        &&& self.hash@ == hex(sha256_digest(url_safe_text(bytes)))
    }

    /// Whether the token can stand in a header as it is.
    pub open spec fn is_usable(self) -> bool {
        token_problem(self.token@) is None && trimmed(self.token@) == self.token@
    }
}

/// The credential that bytes make. Its token can stand in a header as it is.
pub fn credential_of(bytes: &[u8; TOKEN_BYTES]) -> (credential: Credential)
    ensures
        credential.is_made_of(bytes@),
        credential.is_usable(),
{
    let token = encode(bytes);
    proof {
        lemma_usable(token@);
    }
    let hash = hex_text(&digest(token.as_str()));
    Credential { token, hash }
}

/// Why there is no token.
#[derive(Debug, PartialEq, Eq)]
pub enum TokenError {
    /// The ID of the server is none.
    ServerId { id: String, problem: IdProblem },
    /// The operating system has no random bytes.
    Randomness,
    /// The file exists already.
    Exists(String),
}

impl TokenError {
    /// The words for why there is no token.
    pub open spec fn words(self) -> Text {
        match self {
            TokenError::ServerId { id, problem } => "invalid server ID: "@ + id_words(
                problem,
                id@,
            ),
            TokenError::Randomness =>
                "generate bearer token: operating system randomness failed"@,
            TokenError::Exists(path) => "bearer token file already exists at "@ + path@
                + "; refusing to overwrite it"@,
        }
    }

    /// The words for why there is no token.
    pub fn message(&self) -> (message: String)
        ensures
            message@ == self.words(),
    {
        match self {
            TokenError::ServerId { id, problem } => joined(
                "invalid server ID: ",
                problem.message(id.as_str()).as_str(),
            ),
            TokenError::Randomness =>
                "generate bearer token: operating system randomness failed".to_owned(),
            TokenError::Exists(path) => joined(
                "bearer token file already exists at ",
                path.as_str(),
            ).concat("; refusing to overwrite it"),
        }
    }
}

/// Makes a new credential for a server, from random bytes.
pub fn new_credential(server_id: &str) -> (outcome: Result<Credential, TokenError>)
    ensures
        id_problem(server_id@) matches Some(problem) ==> (outcome matches Err(
            TokenError::ServerId { id, problem: found },
        ) && id@ == server_id@ && found == problem),
        id_problem(server_id@) is None ==> match outcome {
            Ok(credential) => credential.is_usable() && exists|bytes: Seq<u8>|
                bytes.len() == TOKEN_BYTES && #[trigger] credential.is_made_of(bytes),
            Err(error) => error is Randomness,
        },
{
    match validate_server_id(server_id) {
        Err(problem) => Err(TokenError::ServerId { id: copy_of(server_id), problem }),
        Ok(()) => match random_bytes() {
            Some(bytes) => {
                let credential = credential_of(&bytes);
                assert(bytes@.len() == TOKEN_BYTES);
                assert(credential.is_made_of(bytes@));
                Ok(credential)
            },
            None => Err(TokenError::Randomness),
        },
    }
}

/// The name of the file for the token of a server.
pub fn default_token_name(server_id: &str) -> (name: String)
    ensures
        name@ == server_id@ + ".token"@,
{
    joined(server_id, ".token")
}

// ---------------------------------------------------------------------------------------------
// Instructions
// ---------------------------------------------------------------------------------------------

/// What the user is told once a token was written. Of the token itself only the digest is told.
pub open spec fn instruction_words(
    token_file: Text,
    config_file: Text,
    server_id: Text,
    hash: Text,
) -> Text {
    "Created bearer token file:\n\n    "@ + token_file + "\n\nIn "@ + config_file
        + ", find:\n\nwsClient:\n  servers:\n    - id: "@ + server_id
        + "\n\nAnd add this block inside that server entry, alongside id and addr:\n\n      auth:\n        bearerTokenFile: "@
        + json_string(token_file)
        + "\n\nIn the corresponding Salmon's configuration, find:\n\ncore:\n  messengers:\n    - webserver:\n\nAnd add this block inside the webserver messenger, alongside listenAddress:\n\n        auth:\n          - id: my-laptop # Identifies this credential; adjust as needed.\n            bearerTokenHash: \"sha256:"@
        + hash
        + "\"\n\nIf auth already exists in the webserver messenger, add only the new list entry to it."@
}

/// What the user is told once a token was written.
pub fn instructions(token_file: &str, config_file: &str, server_id: &str, hash: &str) -> (text:
    String)
    ensures
        text@ == instruction_words(token_file@, config_file@, server_id@, hash@),
{
    let quoted_file = json_quoted(token_file);
    joined("Created bearer token file:\n\n    ", token_file).concat("\n\nIn ").concat(
        config_file,
    ).concat(", find:\n\nwsClient:\n  servers:\n    - id: ").concat(server_id).concat(
        "\n\nAnd add this block inside that server entry, alongside id and addr:\n\n      auth:\n        bearerTokenFile: ",
    ).concat(quoted_file.as_str()).concat(
        "\n\nIn the corresponding Salmon's configuration, find:\n\ncore:\n  messengers:\n    - webserver:\n\nAnd add this block inside the webserver messenger, alongside listenAddress:\n\n        auth:\n          - id: my-laptop # Identifies this credential; adjust as needed.\n            bearerTokenHash: \"sha256:",
    ).concat(hash).concat(
        "\"\n\nIf auth already exists in the webserver messenger, add only the new list entry to it.",
    )
}

// ---------------------------------------------------------------------------------------------
// Proofs
// ---------------------------------------------------------------------------------------------

/// A text in the URL-safe alphabet can stand in a header as it is.
proof fn lemma_usable(token: Text)
    requires
        token.len() > 0,
        forall|i: int| 0 <= i < token.len() ==> is_url_safe(#[trigger] token[i]),
    ensures
        token_problem(token) is None,
        trimmed(token) == token,
{
    assert(is_url_safe(token[0]));
    assert(is_url_safe(token[token.len() - 1]));
    assert(!is_space(token[0]));
    assert(trim_start(token) == token);
    assert(trim_end(token) == token);
    assert forall|i: int| 0 <= i < token.len() implies !is_ascii_space(#[trigger] token[i]) by {
        assert(is_url_safe(token[i]));
    }
    let header = "Bearer "@ + token;
    reveal_strlit("Bearer ");
    assert forall|i: int| 0 <= i < header.len() implies is_header_char(#[trigger] header[i]) by {
        if i >= 7 {
            assert(header[i] == token[i - 7]);
            assert(is_url_safe(token[i - 7]));
        }
    }
    assert(is_header_text(header));
}

// ---------------------------------------------------------------------------------------------
// Laws
// ---------------------------------------------------------------------------------------------

/// The value of a hexadecimal digit in lower case.
pub open spec fn hex_value(ch: char) -> int {
    if '0' <= ch <= '9' {
        ch as int - '0' as int
    } else if 'a' <= ch <= 'f' {
        ch as int - 'a' as int + 10
    } else {
        16
    }
}

/// Whether two digits, the higher one first, are those of a byte.
pub open spec fn are_digits_of(byte: u8, high: char, low: char) -> bool {
    &&& hex_value(high) < 16
    &&& hex_value(low) < 16
    &&& byte == 16 * hex_value(high) + hex_value(low)
}

/// Bytes can be read back from their hexadecimal text: it has two digits in lower case for each
/// byte, in their order, the higher one first.
pub proof fn bytes_are_read_back_from_hex(bytes: Seq<u8>)
    ensures
        hex(bytes).len() == 2 * bytes.len(),
        forall|i: int|
            0 <= i < bytes.len() ==> are_digits_of(
                #[trigger] bytes[i],
                hex(bytes)[2 * i],
                hex(bytes)[2 * i + 1],
            ),
    decreases bytes.len(),
{
    if bytes.len() > 0 {
        let front = bytes.drop_last();
        bytes_are_read_back_from_hex(front);
        let text = hex(bytes);
        assert forall|i: int| 0 <= i < bytes.len() implies are_digits_of(
            #[trigger] bytes[i],
            text[2 * i],
            text[2 * i + 1],
        ) by {
            if i < front.len() {
                assert(front[i] == bytes[i]);
                assert(text[2 * i] == hex(front)[2 * i]);
                assert(text[2 * i + 1] == hex(front)[2 * i + 1]);
            } else {
                let byte = bytes[i];
                assert(text[2 * i] == hex_digit(byte as int / 16));
                assert(text[2 * i + 1] == hex_digit(byte as int % 16));
            }
        }
    }
}

} // verus!
