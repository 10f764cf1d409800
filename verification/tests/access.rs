use fugue::config::{AuthConfig, BackendConfig, Config, ServerConfig, UserCredential};
use fugue::health::probe::{record_probe, HealthRegistry};
use fugue::json::Json;
use fugue::proxy::backend::{build_backends, BackendClient};
use fugue::proxy::fanout::fan_out;
use fugue::error::FugueError;
use fugue::like::is_like;
use fugue::subsonic::auth::{
    api_key_from_bytes, api_key_hash, authenticate, create_api_key, list_api_keys, revoke_api_key,
    store_api_key, token_for, validate_auth, verify_api_key, ApiKey, AuthDecision,
};
use fugue::subsonic::params::Params;

fn users() -> AuthConfig {
    AuthConfig {
        users: vec![UserCredential { username: "joe".into(), password: "sesame".into() }],
    }
}

fn params(list: &[(&str, &str)]) -> Params {
    Params {
        fields: list.iter().map(|(k, v)| (k.to_string(), v.to_string())).collect(),
    }
}

#[test]
fn the_documented_token_is_right() {
    // The example of the Subsonic protocol.
    assert_eq!(token_for("sesame", "c19b2d"), "26719a1196d2a940705a59634eb18eab");
    let t = Some("26719A1196D2A940705A59634EB18EAB");
    assert!(validate_auth(&users(), "joe", t, Some("c19b2d"), None).is_ok());
    assert!(validate_auth(&users(), "joe", t, Some("other"), None).is_err());
}

#[test]
fn passwords_may_be_hexadecimal() {
    assert!(validate_auth(&users(), "joe", None, None, Some("sesame")).is_ok());
    assert!(validate_auth(&users(), "joe", None, None, Some("enc:736573616d65")).is_ok());
    assert!(validate_auth(&users(), "joe", None, None, Some("enc:zz")).is_err());
    assert!(validate_auth(&users(), "joe", None, None, None).is_err());
    assert!(validate_auth(&users(), "eve", None, None, Some("sesame")).is_err());
}

#[test]
fn api_keys_are_looked_up_by_digest() {
    // SHA-256 of "abc".
    let digest = "ba7816bf8f01cfea414140de5dae2223b00361a396177a9cb410ff61f20015ad";
    assert_eq!(api_key_hash("abc"), digest);
    match authenticate(&params(&[("apiKey", "abc")]), &users()) {
        AuthDecision::LookUpKey(d) => assert_eq!(d, digest),
        _ => panic!("not looked up"),
    }
    let mut keys = vec![ApiKey {
        key_hash: digest.into(),
        username: "joe".into(),
        label: "phone".into(),
        created_at: "2024".into(),
        last_used: None,
    }];
    assert_eq!(verify_api_key(&mut keys, digest, "2025").unwrap().username, "joe");
    assert_eq!(keys[0].last_used.as_deref(), Some("2025"));
    assert!(matches!(verify_api_key(&mut keys, "ba78", "2026"), Err(FugueError::AuthFailed)));
    assert_eq!(keys[0].last_used.as_deref(), Some("2025"));
}

#[test]
fn new_keys_come_with_their_digest() {
    let (key, hash) = api_key_from_bytes(&vec![1u8; 32]);
    assert_eq!(api_key_hash(&key), hash);
    let mut keys = Vec::new();
    let a = create_api_key(&mut keys, "joe", "phone", "2024-02").unwrap();
    let b = create_api_key(&mut keys, "joe", "desk", "2024-01").unwrap();
    assert_eq!(a.len(), 64);
    assert_eq!(api_key_hash(&a), keys[0].key_hash);
    assert_ne!(a, b);
    let twice = store_api_key(&mut keys, &vec![1u8; 32], "eve", "x", "2024");
    assert_eq!(twice.unwrap(), key);
    assert!(store_api_key(&mut keys, &vec![1u8; 32], "eve", "x", "2024").is_err());
    assert_eq!(keys.len(), 3);
}

#[test]
fn api_keys_are_listed_and_revoked() {
    let mut keys = Vec::new();
    let a = create_api_key(&mut keys, "joe", "phone", "2024-02").unwrap();
    create_api_key(&mut keys, "joe", "desk", "2024-01").unwrap();
    create_api_key(&mut keys, "eve", "", "2024-03").unwrap();
    let labels: Vec<String> =
        list_api_keys(&keys, "joe").into_iter().map(|k| k.label).collect();
    assert_eq!(labels, ["desk", "phone"]);
    let hash = api_key_hash(&a);
    assert!(revoke_api_key(&mut keys, &hash[..16].to_uppercase()));
    assert_eq!(keys.len(), 2);
    assert!(verify_api_key(&mut keys, &hash, "2025").is_err());
    assert!(!revoke_api_key(&mut keys, &hash[..16]));
    assert!(revoke_api_key(&mut keys, ""));
    assert!(keys.is_empty());
}

#[test]
fn patterns_have_wildcards() {
    assert!(is_like("%b_d%", "aBcDe"));
    assert!(is_like("", ""));
    assert!(!is_like("", "a"));
    assert!(!is_like("_", ""));
    assert!(is_like("a%b%c", "a--b--b-c"));
    assert!(!is_like("a%b%c", "a--b--b-"));
    assert!(is_like("100%", "100%"));
    assert!(!is_like("\u{c4}", "\u{e4}"));
}

#[test]
fn requests_are_let_in_or_refused() {
    match authenticate(&params(&[("u", "joe"), ("p", "sesame")]), &users()) {
        AuthDecision::Authenticated(u) => assert_eq!(u.username, "joe"),
        _ => panic!("refused"),
    }
    assert!(matches!(
        authenticate(&params(&[]), &users()),
        AuthDecision::Refused(FugueError::AuthFailed)
    ));
}

fn config() -> Config {
    Config {
        server: ServerConfig {
            host: "h".into(),
            port: 1,
            log_level: "info".into(),
        },
        backends: vec![
            BackendConfig {
                name: "a".into(),
                url: "http://a//".into(),
                username: "u".into(),
                password: "p".into(),
                weight: 3,
            },
            BackendConfig {
                name: "b".into(),
                url: "http://b".into(),
                username: "u".into(),
                password: "p".into(),
                weight: 1,
            },
        ],
        auth: users(),
        cache: Default::default(),
        social: Default::default(),
    }
}

#[test]
fn backends_are_numbered_in_order() {
    let b = build_backends(&config());
    assert_eq!(b.len(), 2);
    assert_eq!((b[0].index, b[0].base_url.as_str(), b[0].weight), (0, "http://a", 3));
    assert_eq!((b[1].index, b[1].name.as_str()), (1, "b"));
}

fn client() -> BackendClient {
    BackendClient::new(0, "a".into(), "http://a/".into(), "joe".into(), "sesame".into(), 1)
}

#[test]
fn urls_carry_a_token_and_no_password() {
    let url = client().url_with_salt(
        "getSong",
        &vec![("id".to_string(), "a b&c".to_string())],
        "c19b2d",
    );
    assert_eq!(
        url,
        "http://a/rest/getSong?u=joe&t=26719a1196d2a940705a59634eb18eab&s=c19b2d&v=1.16.1&c=fugue&f=json&id=a+b%26c"
    );
    let one = client().build_url("ping", &vec![]);
    let two = client().build_url("ping", &vec![]);
    assert_ne!(one, two);
    assert!(!one.contains("sesame"));
}

#[test]
fn answers_are_unwrapped() {
    let c = client();
    let ok = Json::object().with(
        "subsonic-response",
        Json::object().with_text("status", "ok").with_text("x", "y"),
    );
    assert_eq!(c.request_json(&ok).unwrap().str_or("x", ""), "y");
    let failed = Json::object().with(
        "subsonic-response",
        Json::object().with_text("status", "failed").with(
            "error",
            Json::object().with("code", Json::integer(70)).with_text("message", "gone"),
        ),
    );
    let e = c.request_json(&failed).unwrap_err();
    assert_eq!((e.subsonic_code(), e.subsonic_message()), (70, "gone".to_string()));
    let bare = Json::object().with_text("x", "z");
    assert_eq!(c.request_json(&bare).unwrap().str_or("x", ""), "z");
}

#[test]
fn one_answer_is_enough() {
    let failed = || Err(FugueError::Backend("down".into()));
    let r = fan_out(vec![(0, failed()), (1, Ok(Json::object()))]).unwrap();
    assert_eq!(r.len(), 1);
    assert_eq!(r[0].0, 1);
    let e = fan_out(vec![(0, failed()), (1, Err(FugueError::Backend("off".into())))]).unwrap_err();
    assert_eq!(e.subsonic_message(), "Backend error: off");
    let e = fan_out(vec![]).unwrap_err();
    assert_eq!(e.subsonic_message(), "Backend error: No backends configured");
}

#[test]
fn three_failures_make_a_backend_unavailable() {
    let mut h = HealthRegistry::new();
    assert!(h.is_available(0));
    record_probe(&mut h, 0, None);
    record_probe(&mut h, 0, None);
    assert!(h.is_available(0));
    record_probe(&mut h, 0, None);
    assert!(!h.is_available(0));
    record_probe(&mut h, 0, Some(25));
    assert!(h.is_available(0));
    assert_eq!(h.latency_ms(0), 25);
    assert_eq!(h.latency_ms(1), 0);
}
