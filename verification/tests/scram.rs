use base64::engine::general_purpose::STANDARD;
use base64::Engine;
use oxidedb::memcached::scram::{
    compute_server_signature_sha256, compute_server_signature_sha512, ScramState, ScramVariant,
};

const CLIENT_NONCE: &str = "rOprNGfwEbeRWgbNEkqO";
const SERVER_NONCE: &str = "%hvYDpWUa2RaTCAfuxFIlj)hNlF$k0";
const SALT: &str = "W22ZaJ0SNY7soEsUEjb6gQ==";

fn auth_message() -> String {
    let nonce = format!("{}{}", CLIENT_NONCE, SERVER_NONCE);
    format!("n=user,r={},r={},s={},i=4096,c=biws,r={}", CLIENT_NONCE, nonce, SALT, nonce)
}

#[test]
fn signatures_have_their_known_values() {
    let salt = STANDARD.decode(SALT).unwrap();
    let short = compute_server_signature_sha256("pencil", &salt, 4096, &auth_message());
    assert_eq!(STANDARD.encode(short), "6rriTRBi23WpRR/wtup+mMhUZUn/dB5nLTJRsjl95G4=");
    let long = compute_server_signature_sha512("pencil", &salt, 4096, &auth_message());
    assert_eq!(
        STANDARD.encode(long),
        "ZQnYEgWQMFmmsM8aQMF0nDDCy/AgCzkwk8CmMZYcMg0vSVlKDanekLtifDSeVGT4+5ZxXnJq199RVG2rR7N7Zw=="
    );
}

#[test]
fn an_exchange_ends_with_the_signature() {
    let first = format!("n,,n=user,r={}", CLIENT_NONCE);
    let salt = STANDARD.decode(SALT).unwrap();
    let (state, reply) = ScramState::from_client_first_with(
        ScramVariant::Sha256,
        first.as_bytes(),
        SERVER_NONCE,
        salt,
    )
    .unwrap();
    assert_eq!(state.username, "user");
    let nonce = format!("{}{}", CLIENT_NONCE, SERVER_NONCE);
    assert_eq!(reply, format!("r={},s={},i=4096", nonce, SALT).into_bytes());
    let last = format!("c=biws,r={},p=dHzbZapWIk4jUhN+Ute9ytag9zjfMHgsqmmiz7AndVQ=", nonce);
    assert_eq!(
        state.process_client_final(last.as_bytes(), "pencil").unwrap(),
        b"v=6rriTRBi23WpRR/wtup+mMhUZUn/dB5nLTJRsjl95G4=".to_vec()
    );
}

#[test]
fn another_nonce_is_refused() {
    let first = format!("n,,n=user,r={}", CLIENT_NONCE);
    let (state, _) = ScramState::from_client_first(ScramVariant::Sha512, first.as_bytes()).unwrap();
    assert!(state.process_client_final(b"c=biws,r=somethingelse,p=AAAA", "pencil").is_none());
    assert!(state.combined_nonce.starts_with(CLIENT_NONCE));
    assert!(state.combined_nonce.len() > CLIENT_NONCE.len());
}

#[test]
fn first_messages_without_user_or_nonce_are_refused() {
    for bad in ["n,,n=user", "n,,r=abc", "nonsense"] {
        assert!(ScramState::from_client_first(ScramVariant::Sha256, bad.as_bytes()).is_none());
    }
    assert!(ScramState::from_client_first(ScramVariant::Sha256, &[0xff, 0xfe]).is_none());
}
