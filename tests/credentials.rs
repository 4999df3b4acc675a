use converza::config::HashConfig;
use converza::credentials::{hash_password, verify_password};
use converza::error::Error;

fn cheap() -> HashConfig {
    HashConfig {
        memory_cost: 64,
        time_cost: 1,
        length: 32,
        lanes: 1,
        salt_length: 16,
        secret: String::from("pepper"),
    }
}

#[test]
fn hash_then_verify_round_trips() {
    let cfg = cheap();
    let h = hash_password("Str0ng!Pass", &cfg).unwrap();
    assert_eq!(h.hash.len(), 32);
    assert_eq!(h.salt.len(), 16);
    assert!(h.salt.chars().all(|c| c.is_ascii_alphanumeric()));
    assert_eq!(verify_password("Str0ng!Pass", &h.hash, &h.salt, &cfg), Ok(true));
}

#[test]
fn wrong_password_does_not_verify() {
    let cfg = cheap();
    let h = hash_password("Str0ng!Pass", &cfg).unwrap();
    assert_eq!(verify_password("Wr0ng!Pass", &h.hash, &h.salt, &cfg), Ok(false));
}

#[test]
fn hash_is_not_the_password() {
    let cfg = cheap();
    let h = hash_password("Str0ng!Pass", &cfg).unwrap();
    assert_ne!(h.hash, b"Str0ng!Pass".to_vec());
}

#[test]
fn salts_differ_between_hashes() {
    let cfg = cheap();
    let a = hash_password("Str0ng!Pass", &cfg).unwrap();
    let b = hash_password("Str0ng!Pass", &cfg).unwrap();
    assert_ne!(a.salt, b.salt);
    assert_ne!(a.hash, b.hash);
}

#[test]
fn other_secret_does_not_verify() {
    let cfg = cheap();
    let h = hash_password("Str0ng!Pass", &cfg).unwrap();
    let mut other = cheap();
    other.secret = String::from("salt and pepper");
    assert_eq!(verify_password("Str0ng!Pass", &h.hash, &h.salt, &other), Ok(false));
}

#[test]
fn refused_parameters_are_a_server_error() {
    let mut cfg = cheap();
    cfg.lanes = 0;
    assert!(matches!(hash_password("Str0ng!Pass", &cfg), Err(Error::Server(_))));
    let mut short_salt = cheap();
    short_salt.salt_length = 4;
    assert!(matches!(hash_password("Str0ng!Pass", &short_salt), Err(Error::Server(_))));
}

#[test]
fn short_digest_is_refused_at_check() {
    let cfg = cheap();
    assert!(matches!(
        verify_password("Str0ng!Pass", &[1, 2, 3], "abcdefghabcdefgh", &cfg),
        Err(Error::Server(_))
    ));
}
