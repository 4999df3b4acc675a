use base64::Engine;
use vstd::prelude::*;

use vstd::utf8::{decode_utf8, encode_utf8, valid_utf8};

use crate::config::AuthConfig;
use crate::directory::fresh_id;
use crate::error::Error;

verus! {

#[verifier::external_type_specification]
#[verifier::external_body]
pub struct ExEncodingKey(jsonwebtoken::EncodingKey);

/// Seconds in one day.
pub const SECONDS_PER_DAY: u64 = 86400;

pub open spec fn digit_char(d: nat) -> char {
    seq!['0', '1', '2', '3', '4', '5', '6', '7', '8', '9'][d as int]
}

pub open spec fn is_digit_char(c: char) -> bool {
    '0' <= c && c <= '9'
}

pub open spec fn digit_value(c: char) -> nat {
    ((c as u32) - 48) as nat
}

/// The decimal writing of a number, without leading zeros.
pub open spec fn decimal(n: nat) -> Seq<char>
    decreases n,
{
    if n < 10 {
        seq![digit_char(n)]
    } else {
        decimal(n / 10).push(digit_char(n % 10))
    }
}

/// The number that a non-empty run of decimal digits writes.
pub open spec fn parse_decimal(s: Seq<char>) -> Option<nat>
    decreases s.len(),
{
    if s.len() == 0 || !is_digit_char(s.last()) {
        None
    } else if s.len() == 1 {
        Some(digit_value(s.last()))
    } else {
        match parse_decimal(s.drop_last()) {
            Some(p) => Some(p * 10 + digit_value(s.last())),
            None => None,
        }
    }
}

/// The first place of `c` in `s`, or -1.
pub open spec fn first_index(s: Seq<char>, c: char) -> int
    decreases s.len(),
{
    if s.len() == 0 {
        -1
    } else if s[0] == c {
        0
    } else {
        let r = first_index(s.drop_first(), c);
        if r < 0 {
            -1
        } else {
            r + 1
        }
    }
}

/// `s` cut at the first `c`, which belongs to neither part.
pub open spec fn split_first(s: Seq<char>, c: char) -> Option<(Seq<char>, Seq<char>)> {
    let i = first_index(s, c);
    if i < 0 {
        None
    } else {
        Some((s.subrange(0, i), s.subrange(i + 1, s.len() as int)))
    }
}

/// What a token's claims say: the account, the session and the expiry
/// time, written `account:session:expiry` with the expiry in decimal seconds.
pub open spec fn claims_text(subject: Seq<char>, session: Seq<char>, expires_at: nat) -> Seq<char> {
    subject + seq![':'] + session + seq![':'] + decimal(expires_at)
}

/// The three fields of a claims text, where it has that shape.
pub open spec fn parse_claims(text: Seq<char>) -> Option<(Seq<char>, Seq<char>, nat)> {
    match split_first(text, ':') {
        None => None,
        Some((subject, rest)) => match split_first(rest, ':') {
            None => None,
            Some((session, expiry)) => match parse_decimal(expiry) {
                None => None,
                Some(e) => Some((subject, session, e)),
            },
        },
    }
}

/// A token: the claims text, a dot, and the signature of the claims.
pub open spec fn token_text(claims: Seq<char>, signature: Seq<char>) -> Seq<char> {
    claims + seq!['.'] + signature
}

/// An authenticated session, as a verified token states it.
pub struct Session {
    pub subject_account_id: String,
    pub session_id: String,
    pub expires_at: u64,
}

fn digit_to_char(d: u64) -> (c: char)
    requires
        d < 10,
    ensures
        c == digit_char(d as nat),
        is_digit_char(c),
        digit_value(c) == d,
{
    if d == 0 {
        '0'
    } else if d == 1 {
        '1'
    } else if d == 2 {
        '2'
    } else if d == 3 {
        '3'
    } else if d == 4 {
        '4'
    } else if d == 5 {
        '5'
    } else if d == 6 {
        '6'
    } else if d == 7 {
        '7'
    } else if d == 8 {
        '8'
    } else {
        '9'
    }
}


/// Appends the decimal writing of `n`.
fn write_decimal(out: &mut Vec<char>, n: u64)
    ensures
        final(out)@ == old(out)@ + decimal(n as nat),
    decreases n,
{
    if n >= 10 {
        write_decimal(out, n / 10);
    }
    out.push(digit_to_char(n % 10));
    proof {
        if n >= 10 {
            assert(decimal(n as nat) == decimal((n / 10) as nat).push(digit_char((n % 10) as nat)));
        }
        assert(final(out)@ =~= old(out)@ + decimal(n as nat));
    }
}

/// Appends every character of `s`.
fn write_str(out: &mut Vec<char>, s: &str)
    ensures
        final(out)@ == old(out)@ + s@,
{
    let n = s.unicode_len();
    let mut i: usize = 0;
    let ghost start = out@;
    while i < n
        invariant
            n == s@.len(),
            i <= n,
            out@ == start + s@.subrange(0, i as int),
        decreases n - i,
    {
        out.push(s.get_char(i));
        i = i + 1;
        assert(out@ =~= start + s@.subrange(0, i as int));
    }
    assert(s@.subrange(0, n as int) =~= s@);
}

/// Relies on `String`'s `FromIterator<char>`: the characters in order.
#[verifier::external_body]
pub(crate) fn chars_to_string(v: &Vec<char>) -> (r: String)
    ensures
        r@ == v@,
{
    v.iter().collect()
}

pub proof fn lemma_parse_decimal(n: nat)
    ensures
        parse_decimal(decimal(n)) == Some(n),
    decreases n,
{
    if n >= 10 {
        lemma_parse_decimal(n / 10);
        assert(decimal(n).drop_last() =~= decimal(n / 10));
        assert(digit_value(digit_char(n % 10)) == n % 10) by {
            assert(seq!['0', '1', '2', '3', '4', '5', '6', '7', '8', '9'][(n % 10) as int]
                == digit_char(n % 10));
        }
    } else {
        assert(digit_value(digit_char(n)) == n);
    }
}

/// Where every character before `i` differs from `c` and the one at `i` is
/// `c` (or `i` is the end), `i` is the first place of `c` (or there is none).
pub proof fn lemma_first_index(s: Seq<char>, c: char, i: int)
    requires
        0 <= i <= s.len(),
        forall|j: int| 0 <= j < i ==> s[j] != c,
        i < s.len() ==> s[i] == c,
    ensures
        first_index(s, c) == if i < s.len() {
            i
        } else {
            -1
        },
    decreases s.len(),
{
    if s.len() > 0 && i > 0 {
        lemma_first_index(s.drop_first(), c, i - 1);
    }
}

/// The first place of `c` in `s`.
fn find_char(s: &str, c: char) -> (r: Option<usize>)
    ensures
        r is Some ==> first_index(s@, c) == r->Some_0 as int && r->Some_0 < s@.len(),
        r is None ==> first_index(s@, c) == -1,
{
    let n = s.unicode_len();
    let mut i: usize = 0;
    while i < n
        invariant
            n == s@.len(),
            i <= n,
            forall|j: int| 0 <= j < i ==> s@[j] != c,
        decreases n - i,
    {
        if s.get_char(i) == c {
            proof {
                lemma_first_index(s@, c, i as int);
            }
            return Some(i);
        }
        i = i + 1;
    }
    proof {
        lemma_first_index(s@, c, n as int);
    }
    None
}

/// Reads a run of decimal digits into a machine word.
fn read_decimal(s: &str) -> (r: Option<u64>)
    ensures
        r is Some <==> parse_decimal(s@) is Some && parse_decimal(s@)->Some_0 <= u64::MAX,
        r is Some ==> r->Some_0 == parse_decimal(s@)->Some_0,
{
    let n = s.unicode_len();
    if n == 0 {
        return None;
    }
    let mut acc: u64 = 0;
    let mut big = false;
    let ghost mut value: nat = 0;
    let mut i: usize = 0;
    while i < n
        invariant
            n == s@.len(),
            0 < n,
            i <= n,
            i > 0 ==> parse_decimal(s@.subrange(0, i as int)) == Some(value),
            i == 0 ==> value == 0 && !big && acc == 0,
            !big ==> acc == value,
            big ==> value > u64::MAX,
        decreases n - i,
    {
        let c = s.get_char(i);
        if !('0' <= c && c <= '9') {
            proof {
                lemma_parse_needs_digits(s@, i as int);
            }
            return None;
        }
        let d = (c as u32 - 48) as u64;
        proof {
            let prefix = s@.subrange(0, i as int + 1);
            assert(prefix.drop_last() =~= s@.subrange(0, i as int));
            assert(prefix.last() == c);
            value = value * 10 + digit_value(c);
        }
        if !big {
            if acc > (u64::MAX - d) / 10 {
                big = true;
            } else {
                acc = acc * 10 + d;
            }
        }
        i = i + 1;
    }
    assert(s@.subrange(0, n as int) =~= s@);
    if big {
        None
    } else {
        Some(acc)
    }
}

/// A run that parses holds only digits.
pub proof fn lemma_parse_needs_digits(s: Seq<char>, i: int)
    requires
        0 <= i < s.len(),
        !is_digit_char(s[i]),
    ensures
        parse_decimal(s) is None,
    decreases s.len(),
{
    if i < s.len() - 1 {
        assert(s.drop_last()[i] == s[i]);
        lemma_parse_needs_digits(s.drop_last(), i);
    }
}


/// The three fields that a token states, where it has the shape of one.
pub open spec fn token_claims(token: Seq<char>) -> Option<(Seq<char>, Seq<char>, nat)> {
    match split_first(token, '.') {
        None => None,
        Some((claims, _)) => parse_claims(claims),
    }
}

/// The session that a claims text grants at time `now`: none where the
/// signature failed, the text is malformed, the expiry does not fit a
/// machine word, or the expiry has come.
pub open spec fn session_outcome(claims: Seq<char>, signature_valid: bool, now: nat) -> Option<
    (Seq<char>, Seq<char>, nat),
> {
    match parse_claims(claims) {
        Some((subject, session, expires_at)) => if signature_valid && expires_at <= u64::MAX && now
            < expires_at {
            Some((subject, session, expires_at))
        } else {
            None
        },
        None => None,
    }
}

/// Cuts `s` at its first `c`.
fn split_at_char(s: &str, c: char) -> (r: Option<(String, String)>)
    ensures
        r is Some <==> split_first(s@, c) is Some,
        r is Some ==> r->Some_0.0@ == split_first(s@, c)->Some_0.0 && r->Some_0.1@ == split_first(
            s@,
            c,
        )->Some_0.1,
{
    match find_char(s, c) {
        None => None,
        Some(i) => {
            let n = s.unicode_len();
            let head = s.substring_char(0, i).to_owned();
            let tail = s.substring_char(i + 1, n).to_owned();
            Some((head, tail))
        },
    }
}

/// Splits a token into its claims text and its signature.
pub fn split_token(token: &str) -> (r: Option<(String, String)>)
    ensures
        r is Some <==> split_first(token@, '.') is Some,
        r is Some ==> r->Some_0.0@ == split_first(token@, '.')->Some_0.0 && r->Some_0.1@
            == split_first(token@, '.')->Some_0.1,
{
    split_at_char(token, '.')
}

/// Reads the account, the session and the expiry out of a claims text.
pub fn read_claims(claims: &str) -> (r: Option<(String, String, u64)>)
    ensures
        r is Some <==> parse_claims(claims@) is Some && parse_claims(claims@)->Some_0.2 <= u64::MAX,
        r is Some ==> parse_claims(claims@) == Some(
            (r->Some_0.0@, r->Some_0.1@, r->Some_0.2 as nat),
        ),
{
    let (subject, rest) = match split_at_char(claims, ':') {
        Some(parts) => parts,
        None => return None,
    };
    let (session, expiry) = match split_at_char(rest.as_str(), ':') {
        Some(parts) => parts,
        None => return None,
    };
    match read_decimal(expiry.as_str()) {
        Some(e) => Some((subject, session, e)),
        None => None,
    }
}

fn unauthorized() -> (e: Error)
    ensures
        e is Unauthorized,
{
    Error::Unauthorized("Unauthorized".to_owned())
}

/// The session that a claims text grants at time `now` (in seconds since
/// the Unix epoch), given whether its signature was found valid. Every
/// refusal is `Unauthorized`.
pub fn session_from_claims(claims: &str, signature_valid: bool, now: u64) -> (r: Result<
    Session,
    Error,
>)
    ensures
        r is Ok <==> session_outcome(claims@, signature_valid, now as nat) is Some,
        r is Ok ==> session_outcome(claims@, signature_valid, now as nat) == Some(
            (r->Ok_0.subject_account_id@, r->Ok_0.session_id@, r->Ok_0.expires_at as nat),
        ),
        r is Err ==> r->Err_0 is Unauthorized,
{
    if !signature_valid {
        return Err(unauthorized());
    }
    match read_claims(claims) {
        None => Err(unauthorized()),
        Some((subject, session, expires_at)) => {
            if now >= expires_at {
                Err(unauthorized())
            } else {
                Ok(Session { subject_account_id: subject, session_id: session, expires_at })
            }
        },
    }
}

/// Relies on `jsonwebtoken::crypto::sign` with `Algorithm::RS256`: an RSA
/// signature of the message, in base64 URL-safe form, or `None` where
/// signing failed.
#[verifier::external_body]
fn sign_rs256(message: &[u8], key: &jsonwebtoken::EncodingKey) -> (r: Option<String>) {
    jsonwebtoken::crypto::sign(message, key, jsonwebtoken::Algorithm::RS256).ok()
}

/// Whether `signature` is a valid RS256 signature of `message` under the
/// RSA public key in the PEM text `public_pem`.
pub uninterp spec fn rs256_valid(signature: Seq<char>, message: Seq<u8>, public_pem: Seq<u8>) -> bool;

/// Relies on `jsonwebtoken::DecodingKey::from_rsa_pem` and
/// `jsonwebtoken::crypto::verify` with `Algorithm::RS256`: whether the
/// signature checks out under the public key. A key or signature that cannot
/// be read counts as a failed check.
#[verifier::external_body]
fn verify_rs256(signature: &str, message: &[u8], public_pem: &[u8]) -> (r: bool)
    ensures
        r == rs256_valid(signature@, message@, public_pem@),
{
    match jsonwebtoken::DecodingKey::from_rsa_pem(public_pem) {
        Ok(key) => jsonwebtoken::crypto::verify(signature, message, &key, jsonwebtoken::Algorithm::RS256)
            .unwrap_or(false),
        Err(_) => false,
    }
}

/// Whether an id can stand in a token's claims: it holds no separator.
pub open spec fn plain_id(s: Seq<char>) -> bool {
    forall|i: int| 0 <= i < s.len() ==> #[trigger] s[i] != ':' && s[i] != '.'
}

fn check_plain_id(s: &str) -> (r: bool)
    ensures
        r == plain_id(s@),
{
    let n = s.unicode_len();
    let mut i: usize = 0;
    while i < n
        invariant
            n == s@.len(),
            i <= n,
            forall|j: int| 0 <= j < i ==> #[trigger] s@[j] != ':' && s@[j] != '.',
        decreases n - i,
    {
        let c = s.get_char(i);
        if c == ':' || c == '.' {
            return false;
        }
        i = i + 1;
    }
    true
}

/// Issues a signed token for an account: a fresh session id, and an expiry
/// `lifetime_days` days after `now` (in seconds since the Unix epoch).
/// An id holding `:` or `.` is refused as a bad request; an expiry past the
/// largest machine word, or a failure to sign, is a server error.
pub fn issue_token(
    subject: &str,
    lifetime_days: u8,
    now: u64,
    key: &jsonwebtoken::EncodingKey,
) -> (r: Result<String, Error>)
    ensures
        !plain_id(subject@) ==> r matches Err(Error::BadRequest(_)),
        (r matches Err(Error::BadRequest(_))) ==> !plain_id(subject@),
        plain_id(subject@) && now + lifetime_days * SECONDS_PER_DAY > u64::MAX ==> r matches Err(
            Error::Server(_),
        ),
        r is Err ==> r->Err_0 is BadRequest || r->Err_0 is Server,
        r is Ok ==> exists|session: Seq<char>, signature: Seq<char>|
            plain_id(session) && #[trigger] token_text(
                claims_text(subject@, session, (now + lifetime_days * SECONDS_PER_DAY) as nat),
                signature,
            ) == r->Ok_0@,
{
    if !check_plain_id(subject) {
        return Err(Error::BadRequest("The account id cannot stand in a token".to_owned()));
    }
    let lifetime = (lifetime_days as u64) * SECONDS_PER_DAY;
    if now > u64::MAX - lifetime {
        return Err(Error::Server("The session expiry is out of range".to_owned()));
    }
    let expires_at = now + lifetime;
    let session = fresh_id();
    let mut text: Vec<char> = Vec::new();
    write_str(&mut text, subject);
    text.push(':');
    write_str(&mut text, session.as_str());
    text.push(':');
    write_decimal(&mut text, expires_at);
    let claims = chars_to_string(&text);
    assert(claims@ =~= claims_text(subject@, session@, expires_at as nat));
    let signature = match sign_rs256(claims.as_str().as_bytes(), key) {
        Some(signature) => signature,
        None => return Err(Error::Server("Unable to sign the session".to_owned())),
    };
    text.push('.');
    write_str(&mut text, signature.as_str());
    let token = chars_to_string(&text);
    assert(token@ =~= token_text(claims@, signature@));
    assert(plain_id(session@));
    assert(expires_at as nat == (now + lifetime_days * SECONDS_PER_DAY) as nat);
    assert(token_text(
        claims_text(subject@, session@, (now + lifetime_days * SECONDS_PER_DAY) as nat),
        signature@,
    ) == token@);
    Ok(token)
}

/// Checks a token at time `now` (in seconds since the Unix epoch): its
/// signature under the public key given as PEM text, its shape and its
/// expiry. Every refusal is `Unauthorized`.
pub fn verify_token(token: &str, now: u64, public_pem: &str) -> (r: Result<Session, Error>)
    ensures
        r is Err ==> r->Err_0 is Unauthorized,
        split_first(token@, '.') is None ==> r is Err,
        split_first(token@, '.') matches Some((c, s)) ==> {
            let outcome = session_outcome(c, rs256_valid(s, encode_utf8(c), encode_utf8(public_pem@)), now as nat);
            &&& r is Ok <==> outcome is Some
            &&& r is Ok ==> outcome == Some(
                (r->Ok_0.subject_account_id@, r->Ok_0.session_id@, r->Ok_0.expires_at as nat),
            )
        },
{
    let (claims, signature) = match split_token(token) {
        Some(parts) => parts,
        None => return Err(unauthorized()),
    };
    let valid = verify_rs256(signature.as_str(), claims.as_str().as_bytes(), public_pem.as_bytes());
    session_from_claims(claims.as_str(), valid, now)
}

/// Cutting `prefix + [c] + rest` at its first `c`, where `prefix` holds no
/// `c`, gives back `prefix` and `rest`.
pub proof fn lemma_split_first(prefix: Seq<char>, c: char, rest: Seq<char>)
    requires
        forall|i: int| 0 <= i < prefix.len() ==> prefix[i] != c,
    ensures
        split_first(prefix + seq![c] + rest, c) == Some((prefix, rest)),
{
    let s = prefix + seq![c] + rest;
    lemma_first_index(s, c, prefix.len() as int);
    assert(s.subrange(0, prefix.len() as int) =~= prefix);
    assert(s.subrange(prefix.len() as int + 1, s.len() as int) =~= rest);
}

/// A token that this library issues states the account, session and expiry
/// it was issued with, and a valid signature on its claims grants exactly
/// that session at any time before the expiry.
pub proof fn lemma_issue_then_verify(
    subject: Seq<char>,
    session: Seq<char>,
    expires_at: nat,
    signature: Seq<char>,
    now: nat,
)
    requires
        plain_id(subject),
        plain_id(session),
        expires_at <= u64::MAX,
        now < expires_at,
    ensures
        split_first(token_text(claims_text(subject, session, expires_at), signature), '.') == Some(
            (claims_text(subject, session, expires_at), signature),
        ),
        token_claims(token_text(claims_text(subject, session, expires_at), signature)) == Some(
            (subject, session, expires_at),
        ),
        session_outcome(claims_text(subject, session, expires_at), true, now) == Some(
            (subject, session, expires_at),
        ),
{
    let claims = claims_text(subject, session, expires_at);
    lemma_parse_decimal(expires_at);
    assert forall|i: int| 0 <= i < decimal(expires_at).len() implies is_digit_char(
        #[trigger] decimal(expires_at)[i],
    ) by {
        lemma_decimal_digits(expires_at, i);
    }
    assert(claims =~= subject + seq![':'] + (session + seq![':'] + decimal(expires_at)));
    lemma_split_first(subject, ':', session + seq![':'] + decimal(expires_at));
    lemma_split_first(session, ':', decimal(expires_at));
    assert forall|i: int| 0 <= i < claims.len() implies claims[i] != '.' by {
        if i < subject.len() {
            assert(claims[i] == subject[i]);
        } else if i == subject.len() {
        } else if i < subject.len() + 1 + session.len() {
            assert(claims[i] == session[i - subject.len() - 1]);
        } else if i == subject.len() + 1 + session.len() {
        } else {
            assert(claims[i] == decimal(expires_at)[i - subject.len() - 2 - session.len()]);
        }
    }
    lemma_split_first(claims, '.', signature);
}

/// Every character of a decimal writing is a digit.
pub proof fn lemma_decimal_digits(n: nat, i: int)
    requires
        0 <= i < decimal(n).len(),
    ensures
        is_digit_char(decimal(n)[i]),
    decreases n,
{
    if n >= 10 {
        if i < decimal(n / 10).len() {
            lemma_decimal_digits(n / 10, i);
        }
    }
}

/// A token whose expiry has come grants no session, whatever its signature.
pub proof fn lemma_expired_rejected(claims: Seq<char>, signature_valid: bool, now: nat)
    requires
        parse_claims(claims) is Some,
        parse_claims(claims)->Some_0.2 <= now,
    ensures
        session_outcome(claims, signature_valid, now) is None,
{
}


/// The bytes that a text in standard, padded base64 stands for, where it is
/// one.
pub uninterp spec fn base64_standard_decoded(s: Seq<char>) -> Option<Seq<u8>>;

/// Relies on `base64::engine::general_purpose::STANDARD.decode`: the bytes
/// of a padded base64 text in the standard alphabet, or `None` where the text
/// is not one.
#[verifier::external_body]
fn decode_base64(s: &str) -> (r: Option<Vec<u8>>)
    ensures
        r is Some <==> base64_standard_decoded(s@) is Some,
        r is Some ==> r->Some_0@ == base64_standard_decoded(s@)->Some_0,
{
    base64::engine::general_purpose::STANDARD.decode(s).ok()
}

/// Relies on `String::from_utf8`: the text that valid UTF-8 bytes encode,
/// or `None` where the bytes are not valid UTF-8.
#[verifier::external_body]
fn string_from_utf8(bytes: Vec<u8>) -> (r: Option<String>)
    ensures
        r is Some <==> valid_utf8(bytes@),
        r is Some ==> r->Some_0@ == decode_utf8(bytes@),
{
    String::from_utf8(bytes).ok()
}

/// Whether PEM text holds an RSA key block that jsonwebtoken reads as a
/// signing key.
pub uninterp spec fn rsa_pem_accepted(pem: Seq<u8>) -> bool;

/// Relies on `jsonwebtoken::EncodingKey::from_rsa_pem`: a signing key read
/// from an RSA key block in PEM text, or `None` where the text holds none.
/// The result depends on the text alone.
#[verifier::external_body]
fn encoding_key_from_rsa_pem(pem: &[u8]) -> (r: Option<jsonwebtoken::EncodingKey>)
    ensures
        r is Some <==> rsa_pem_accepted(pem@),
{
    jsonwebtoken::EncodingKey::from_rsa_pem(pem).ok()
}

/// The PEM text that a configured key stands for: base64 of UTF-8 text.
pub open spec fn pem_text(configured: Seq<char>) -> Option<Seq<char>> {
    match base64_standard_decoded(configured) {
        Some(bytes) => if valid_utf8(bytes) {
            Some(decode_utf8(bytes))
        } else {
            None
        },
        None => None,
    }
}

fn decode_key_text(configured: &String) -> (r: Result<String, Error>)
    ensures
        r is Ok <==> pem_text(configured@) is Some,
        r is Ok ==> r->Ok_0@ == pem_text(configured@)->Some_0,
        r is Err ==> r->Err_0 is Server,
{
    match decode_base64(configured.as_str()) {
        Some(bytes) => match string_from_utf8(bytes) {
            Some(text) => Ok(text),
            None => Err(Error::Server("A configured key is not UTF-8 text".to_owned())),
        },
        None => Err(Error::Server("A configured key is not base64".to_owned())),
    }
}

impl AuthConfig {
    /// The PEM text of the private key that signs tokens.
    pub fn decode_private_key(&self) -> (r: Result<String, Error>)
        ensures
            r is Ok <==> pem_text(self.private_key@) is Some,
            r is Ok ==> r->Ok_0@ == pem_text(self.private_key@)->Some_0,
            r is Err ==> r->Err_0 is Server,
    {
        decode_key_text(&self.private_key)
    }

    /// The PEM text of the public key that checks tokens.
    pub fn decode_public_key(&self) -> (r: Result<String, Error>)
        ensures
            r is Ok <==> pem_text(self.public_key@) is Some,
            r is Ok ==> r->Ok_0@ == pem_text(self.public_key@)->Some_0,
            r is Err ==> r->Err_0 is Server,
    {
        decode_key_text(&self.public_key)
    }

    /// The private key, ready to sign tokens.
    pub fn signing_key(&self) -> (r: Result<jsonwebtoken::EncodingKey, Error>)
        ensures
            r is Ok <==> pem_text(self.private_key@) is Some && rsa_pem_accepted(
                encode_utf8(pem_text(self.private_key@)->Some_0),
            ),
            r is Err ==> r->Err_0 is Server,
    {
        let pem = self.decode_private_key()?;
        match encoding_key_from_rsa_pem(pem.as_str().as_bytes()) {
            Some(key) => Ok(key),
            None => Err(Error::Server("The private key is not an RSA key block".to_owned())),
        }
    }
}

} // verus!
