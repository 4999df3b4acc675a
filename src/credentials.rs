use rand::Rng;
use vstd::prelude::*;
use vstd::utf8::encode_utf8;

use crate::config::{is_alphanumeric, HashConfig};
use crate::error::Error;

verus! {

/// Cost parameters of one Argon2id run: memory cost, time cost, lanes and
/// output length.
pub type Argon2Cost = (u32, u32, u32, u32);

/// The Argon2id (version 0x13) digest of a password under a salt, a secret
/// and cost parameters, with no associated data.
pub uninterp spec fn argon2id_digest(
    password: Seq<u8>,
    salt: Seq<u8>,
    secret: Seq<u8>,
    cost: Argon2Cost,
) -> Seq<u8>;

/// The ranges that the Argon2 crate checks before it hashes, on a 64-bit
/// machine.
pub open spec fn argon2_accepts(
    password_len: nat,
    salt_len: nat,
    secret_len: nat,
    cost: Argon2Cost,
) -> bool {
    &&& 1 <= cost.2 <= 0xFF_FFFF
    &&& cost.0 >= 8 && cost.0 >= 8 * cost.2
    &&& cost.1 >= 1
    &&& cost.3 >= 4
    &&& password_len <= u32::MAX
    &&& 8 <= salt_len <= u32::MAX
    &&& secret_len <= u32::MAX
}

/// Relies on `argon2::hash_raw` with `Variant::Argon2id` and
/// `Version::Version13`: it fails exactly when `Context::new` refuses the
/// parameters, and otherwise returns `length` bytes that depend on the inputs
/// alone. A refusal is handed back as `None`.
#[verifier::external_body]
fn argon2id_hash(
    password: &[u8],
    salt: &[u8],
    secret: &[u8],
    cost: Argon2Cost,
) -> (r: Option<Vec<u8>>)
    ensures
        r is Some <==> argon2_accepts(password@.len(), salt@.len(), secret@.len(), cost),
        r is Some ==> r->Some_0@ == argon2id_digest(password@, salt@, secret@, cost),
        r is Some ==> r->Some_0@.len() == cost.3,
{
    let config = argon2::Config {
        ad: &[],
        hash_length: cost.3,
        lanes: cost.2,
        mem_cost: cost.0,
        secret,
        thread_mode: argon2::ThreadMode::Parallel,
        time_cost: cost.1,
        variant: argon2::Variant::Argon2id,
        version: argon2::Version::Version13,
    };
    argon2::hash_raw(password, salt, &config).ok()
}

/// Relies on `argon2::verify_raw` with `Variant::Argon2id` and
/// `Version::Version13`: it recomputes the digest with the output length set
/// to the length of `hash`, fails where `argon2::hash_raw` would, and
/// otherwise compares the two in constant time. A refusal is handed back as
/// `None`.
#[verifier::external_body]
fn argon2id_verify(
    password: &[u8],
    salt: &[u8],
    hash: &[u8],
    secret: &[u8],
    cost: (u32, u32, u32),
) -> (r: Option<bool>)
    requires
        hash@.len() <= u32::MAX,
    ensures
        r is Some <==> argon2_accepts(
            password@.len(),
            salt@.len(),
            secret@.len(),
            (cost.0, cost.1, cost.2, hash@.len() as u32),
        ),
        r is Some ==> r->Some_0 == (hash@ == argon2id_digest(
            password@,
            salt@,
            secret@,
            (cost.0, cost.1, cost.2, hash@.len() as u32),
        )),
{
    let config = argon2::Config {
        ad: &[],
        hash_length: 0,
        lanes: cost.2,
        mem_cost: cost.0,
        secret,
        thread_mode: argon2::ThreadMode::Parallel,
        time_cost: cost.1,
        variant: argon2::Variant::Argon2id,
        version: argon2::Version::Version13,
    };
    argon2::verify_raw(password, salt, hash, &config).ok()
}

/// Relies on `rand::thread_rng` sampled with `Alphanumeric`: `n` characters,
/// each drawn from `[A-Za-z0-9]` by a cryptographically secure generator.
#[verifier::external_body]
fn random_alphanumeric(n: usize) -> (r: String)
    ensures
        r@.len() == n,
        forall|i: int| 0 <= i < n ==> is_alphanumeric(#[trigger] r@[i]),
{
    rand::thread_rng().sample_iter(&rand::distributions::Alphanumeric).take(n).map(char::from).collect()
}

/// The cost parameters that a hashing configuration asks for.
pub open spec fn cost_of(config: HashConfig) -> Argon2Cost {
    (config.memory_cost, config.time_cost as u32, config.lanes as u32, config.length as u32)
}

/// What hashing a password under a given salt yields: the digest, or
/// nothing where the parameters are refused.
pub open spec fn hash_outcome(password: Seq<u8>, salt: Seq<u8>, config: HashConfig) -> Option<
    Seq<u8>,
> {
    if argon2_accepts(password.len(), salt.len(), encode_utf8(config.secret@).len(), cost_of(config)) {
        Some(argon2id_digest(password, salt, encode_utf8(config.secret@), cost_of(config)))
    } else {
        None
    }
}

/// What checking a password against a stored digest yields: whether the
/// digest matches, or nothing where the parameters are refused.
pub open spec fn verify_outcome(
    password: Seq<u8>,
    hash: Seq<u8>,
    salt: Seq<u8>,
    config: HashConfig,
) -> Option<bool> {
    let cost = (config.memory_cost, config.time_cost as u32, config.lanes as u32, hash.len() as u32);
    if argon2_accepts(password.len(), salt.len(), encode_utf8(config.secret@).len(), cost) {
        Some(hash == argon2id_digest(password, salt, encode_utf8(config.secret@), cost))
    } else {
        None
    }
}

/// A salted password digest, as stored with an account.
pub struct PasswordHash {
    pub hash: Vec<u8>,
    pub salt: String,
}

fn hashing_failed() -> (e: Error)
    ensures
        e is Server,
{
    Error::Server("Unable to hash the password".to_string())
}

/// Hashes a password under a fresh random salt of `salt_length`
/// alphanumeric characters. A refusal of the hashing parameters is reported
/// as a server error that carries no detail.
pub fn hash_password(password: &str, config: &HashConfig) -> (r: Result<PasswordHash, Error>)
    ensures
        r is Ok <==> argon2_accepts(
            encode_utf8(password@).len(),
            config.salt_length as nat,
            encode_utf8(config.secret@).len(),
            cost_of(*config),
        ),
        r is Err ==> r->Err_0 is Server,
        r is Ok ==> r->Ok_0.salt@.len() == config.salt_length,
        r is Ok ==> r->Ok_0.hash@.len() == config.length,
        r is Ok ==> forall|i: int|
            0 <= i < config.salt_length ==> is_alphanumeric(#[trigger] r->Ok_0.salt@[i]),
        r is Ok ==> hash_outcome(encode_utf8(password@), encode_utf8(r->Ok_0.salt@), *config) == Some(
            r->Ok_0.hash@,
        ),
{
    let salt = random_alphanumeric(config.salt_length as usize);
    let salt_bytes = salt.as_str().as_bytes();
    proof {
        lemma_ascii_bytes(salt@);
    }
    let cost = (config.memory_cost, config.time_cost as u32, config.lanes as u32, config.length as u32);
    match argon2id_hash(password.as_bytes(), salt_bytes, config.secret.as_str().as_bytes(), cost) {
        Some(hash) => Ok(PasswordHash { hash, salt }),
        None => Err(hashing_failed()),
    }
}

/// Checks a password against a stored digest and salt, under the same cost
/// parameters that made the digest. A refusal of the parameters is reported
/// as a server error that carries no detail.
pub fn verify_password(password: &str, hash: &[u8], salt: &str, config: &HashConfig) -> (r: Result<
    bool,
    Error,
>)
    requires
        hash@.len() <= u32::MAX,
    ensures
        r is Ok <==> verify_outcome(encode_utf8(password@), hash@, encode_utf8(salt@), *config) is Some,
        r is Ok ==> verify_outcome(encode_utf8(password@), hash@, encode_utf8(salt@), *config) == Some(
            r->Ok_0,
        ),
        r is Err ==> r->Err_0 is Server,
{
    let cost = (config.memory_cost, config.time_cost as u32, config.lanes as u32);
    match argon2id_verify(
        password.as_bytes(),
        salt.as_bytes(),
        hash,
        config.secret.as_str().as_bytes(),
        cost,
    ) {
        Some(matches) => Ok(matches),
        None => Err(hashing_failed()),
    }
}

/// A string of ASCII characters takes one byte per character.
pub proof fn lemma_ascii_bytes(s: Seq<char>)
    requires
        forall|i: int| 0 <= i < s.len() ==> is_alphanumeric(#[trigger] s[i]),
    ensures
        encode_utf8(s).len() == s.len(),
    decreases s.len(),
{
    if s.len() > 0 {
        let c = s[0];
        assert(is_alphanumeric(s[0]));
        assert((c as u32) <= 0x7F);
        assert(vstd::utf8::encode_scalar(c as u32).len() == 1);
        lemma_ascii_bytes(s.drop_first());
    }
}

/// A digest made by hashing a password verifies against that same password,
/// salt and configuration.
pub proof fn lemma_hash_then_verify(
    password: Seq<u8>,
    salt: Seq<u8>,
    config: HashConfig,
    hash: Seq<u8>,
)
    requires
        hash_outcome(password, salt, config) == Some(hash),
        hash.len() == config.length,
    ensures
        verify_outcome(password, hash, salt, config) == Some(true),
{
}

} // verus!
