use base64::Engine;
use salmon_watch::bearer_token::{
    credential_of, default_token_name, hex_text, instructions, new_credential, TokenError,
    TOKEN_BYTES,
};
use salmon_watch::config::IdProblem;
use salmon_watch::network::client::bearer_header;

#[test]
fn credentials_are_made_of_random_bytes() {
    let first = new_credential("my-server").unwrap();
    let second = new_credential("my-server").unwrap();
    assert_ne!(first.token, second.token);
    let decoded =
        base64::engine::general_purpose::URL_SAFE_NO_PAD.decode(&first.token).unwrap();
    assert_eq!(decoded.len(), TOKEN_BYTES);
    let digest = ring::digest::digest(&ring::digest::SHA256, first.token.as_bytes());
    let expected: String =
        digest.as_ref().iter().map(|byte| format!("{byte:02x}")).collect();
    assert_eq!(first.hash, expected);
}

#[test]
fn the_same_bytes_make_the_same_credential() {
    let credential = credential_of(&[0; TOKEN_BYTES]);
    assert_eq!(credential.token, "AAAAAAAAAAAAAAAAAAAAAAAAAAAAAAAAAAAAAAAAAAA");
    assert_eq!(credential.hash.len(), 64);
    assert_eq!(bearer_header(&credential.token).unwrap(), format!("Bearer {}", credential.token));
    assert_eq!(credential, credential_of(&[0; TOKEN_BYTES]));
}

#[test]
fn bytes_are_written_in_hexadecimal() {
    assert_eq!(hex_text(&vec![0, 9, 10, 255]), "00090aff");
}

#[test]
fn refusals_of_tokens_are_told() {
    let error = new_credential("../escape").unwrap_err();
    assert_eq!(
        error,
        TokenError::ServerId { id: "../escape".into(), problem: IdProblem::Characters }
    );
    assert_eq!(
        error.message(),
        "invalid server ID: \"../escape\" must contain only letters, digits, underscores, or hyphens"
    );
    assert_eq!(
        TokenError::Randomness.message(),
        "generate bearer token: operating system randomness failed"
    );
    assert_eq!(
        TokenError::Exists("/t".into()).message(),
        "bearer token file already exists at /t; refusing to overwrite it"
    );
}

#[test]
fn instructions_tell_the_digest_and_not_the_token() {
    let credential = credential_of(&[7; TOKEN_BYTES]);
    let told = instructions("/a \"b\".token", "/c.yml", "my-server", &credential.hash);
    let expected = format!(
        r#"Created bearer token file:

    /a "b".token

In /c.yml, find:

wsClient:
  servers:
    - id: my-server

And add this block inside that server entry, alongside id and addr:

      auth:
        bearerTokenFile: "/a \"b\".token"

In the corresponding Salmon's configuration, find:

core:
  messengers:
    - webserver:

And add this block inside the webserver messenger, alongside listenAddress:

        auth:
          - id: my-laptop # Identifies this credential; adjust as needed.
            bearerTokenHash: "sha256:{}"

If auth already exists in the webserver messenger, add only the new list entry to it."#,
        credential.hash
    );
    assert_eq!(told, expected);
    assert!(!told.contains(&credential.token));
    assert_eq!(default_token_name("my-server"), "my-server.token");
}
