use node_bridge::base64::{base64_decode, base64_encode};
use node_bridge::exec::Platform;
use node_bridge::json::Json;
use node_bridge::signature::{
    home, identity_path, join_path, openssl_bin, openssl_output, parse_sign_command, sign_outcome,
    step_error, stored_keys, temp_file_name, verify_outcome, with_keys, SignCommand,
};

fn s(t: &str) -> Json {
    Json::Str(t.to_string())
}

fn obj(members: Vec<(&str, Json)>) -> Json {
    Json::Object(members.into_iter().map(|(k, v)| (k.to_string(), v)).collect())
}

fn str_member<'a>(j: &'a Json, key: &str) -> Option<&'a str> {
    match j.get(key) {
        Some(Json::Str(t)) => Some(t.as_str()),
        _ => None,
    }
}

fn args(list: &[&str]) -> Vec<String> {
    list.iter().map(|a| a.to_string()).collect()
}

#[test]
fn base64_known_vectors() {
    assert_eq!(base64_encode(b""), "");
    assert_eq!(base64_encode(b"f"), "Zg==");
    assert_eq!(base64_encode(b"fo"), "Zm8=");
    assert_eq!(base64_encode(b"foo"), "Zm9v");
    assert_eq!(base64_encode(b"foobar"), "Zm9vYmFy");
    assert_eq!(base64_encode(&[0xff, 0xfe]), "//4=");
}

#[test]
fn base64_decoding() {
    assert_eq!(base64_decode("Zm9vYmFy"), Some(b"foobar".to_vec()));
    assert_eq!(base64_decode("Zm9v\nYmFy=="), Some(b"foobar".to_vec()));
    assert_eq!(base64_decode("Zg=="), Some(b"f".to_vec()));
    assert_eq!(base64_decode(""), Some(Vec::new()));
    assert_eq!(base64_decode("Zm9v!"), None);
}

#[test]
fn base64_round_trip() {
    let data: Vec<u8> = (0..=255u8).collect();
    assert_eq!(base64_decode(&base64_encode(&data)), Some(data.clone()));
    for n in 0..7 {
        let part = &data[..n];
        assert_eq!(base64_decode(&base64_encode(part)), Some(part.to_vec()));
    }
}

#[test]
fn identity_location() {
    assert_eq!(home(Some("/home/u".to_string())), "/home/u");
    assert_eq!(home(None), "/Users/unknown");
    assert_eq!(identity_path(Platform::Linux, "/home/u"), "/home/u/.dsh/identity.json");
    assert_eq!(identity_path(Platform::Linux, "/home/u/"), "/home/u/.dsh/identity.json");
    assert_eq!(join_path(Platform::Windows, "C:\\u", "x"), "C:\\u\\x");
    assert_eq!(join_path(Platform::Linux, "", "x"), "x");
    assert_eq!(openssl_bin(true, true), "/opt/homebrew/opt/openssl@3/bin/openssl");
    assert_eq!(openssl_bin(false, true), "/usr/local/opt/openssl@3/bin/openssl");
    assert_eq!(openssl_bin(false, false), "openssl");
}

#[test]
fn keys_in_identity() {
    let id = obj(vec![
        ("device_id", s("d")),
        ("ed25519_private", s("PRIV")),
        ("ed25519_public", s("PUB")),
    ]);
    assert_eq!(stored_keys(&id), Some(("PRIV".to_string(), "PUB".to_string())));
    assert_eq!(stored_keys(&obj(vec![("ed25519_private", s("PRIV"))])), None);
    let updated = with_keys(Some(obj(vec![("device_id", s("d"))])), "P1", "Q1");
    assert_eq!(str_member(&updated, "device_id"), Some("d"));
    assert_eq!(str_member(&updated, "ed25519_private"), Some("P1"));
    assert_eq!(str_member(&updated, "ed25519_public"), Some("Q1"));
    assert_eq!(str_member(&updated, "signature_scheme"), Some("ed25519"));
    let fresh = with_keys(None, "P", "Q");
    assert_eq!(stored_keys(&fresh), Some(("P".to_string(), "Q".to_string())));
    let from_null = with_keys(Some(Json::Null), "P", "Q");
    assert_eq!(str_member(&from_null, "signature_scheme"), Some("ed25519"));
    for odd in [Json::Array(vec![s("x")]), Json::PosInt(3), s("text"), Json::Bool(true)] {
        let fresh = with_keys(Some(odd), "P", "Q");
        assert_eq!(stored_keys(&fresh), Some(("P".to_string(), "Q".to_string())));
        match fresh {
            Json::Object(f) => assert_eq!(f.len(), 3),
            _ => panic!("keys are stored in an object"),
        }
    }
}

#[test]
fn command_outcomes() {
    assert_eq!(openssl_output("genpkey", true, b"PEM", b""), Ok("PEM".to_string()));
    assert_eq!(
        openssl_output("pkey", false, b"", b"bad"),
        Err("openssl pkey failed: bad".to_string())
    );
    assert_eq!(sign_outcome(true, b"foo", b""), Ok("Zm9v".to_string()));
    assert_eq!(sign_outcome(false, b"", b"no key"), Err("openssl sign failed: no key".to_string()));
    assert_eq!(step_error("write key", "denied"), "write key: denied");
    assert!(verify_outcome(true, b"Signature Verified Successfully"));
    assert!(!verify_outcome(false, b"Signature Verified Successfully"));
    assert!(!verify_outcome(true, b"Signature Verification Failure"));
    assert_eq!(temp_file_name("dsh-sign", 42, "pem"), "dsh-sign-42.pem");
}

#[test]
fn sign_subcommands() {
    assert!(matches!(parse_sign_command(&args(&[])), SignCommand::Help));
    match parse_sign_command(&args(&["gen", "--identity", "/a", "--identity", "/b"])) {
        SignCommand::Gen { identity } => assert_eq!(identity, Some("/b".to_string())),
        _ => panic!("gen"),
    }
    assert!(matches!(parse_sign_command(&args(&["gen"])), SignCommand::Gen { identity: None }));
    match parse_sign_command(&args(&["verify", "PUB", "body", "sig"])) {
        SignCommand::Verify { public_pem, body, signature } => {
            assert_eq!(public_pem, "PUB");
            assert_eq!(body, "body");
            assert_eq!(signature, "sig");
        }
        _ => panic!("verify"),
    }
    match parse_sign_command(&args(&["verify", "PUB"])) {
        SignCommand::Sign { body } => assert_eq!(body, "verify"),
        _ => panic!("a short verify is a body to sign"),
    }
    match parse_sign_command(&args(&["hello world"])) {
        SignCommand::Sign { body } => assert_eq!(body, "hello world"),
        _ => panic!("sign"),
    }
}
