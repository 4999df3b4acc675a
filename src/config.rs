use vstd::prelude::*;
use vstd::utf8::encode_utf8;

verus! {

/// The whole configuration that the service reads at start.
pub struct GeneralConfig {
    pub hashing: HashConfig,
    pub password: PasswordConfig,
    pub auth: AuthConfig,
}

/// Keys that sign and check session tokens, as base64 text of PEM blocks,
/// and the lifetime of a session in days.
pub struct AuthConfig {
    pub private_key: String,
    pub public_key: String,
    pub session_lifetime: u8,
}

/// Cost parameters of the password hash.
pub struct HashConfig {
    pub memory_cost: u32,
    pub time_cost: u8,
    pub length: u8,
    pub lanes: u8,
    pub salt_length: u8,
    pub secret: String,
}

/// Composition rules for new passwords.
pub struct PasswordConfig {
    pub min_length: u8,
    pub max_length: u8,
    pub lowercase: bool,
    pub uppercase: bool,
    pub numbers: bool,
    pub special: bool,
    pub check_hibp: bool,
}

pub open spec fn is_lower(c: char) -> bool {
    'a' <= c && c <= 'z'
}

pub open spec fn is_upper(c: char) -> bool {
    'A' <= c && c <= 'Z'
}

pub open spec fn is_digit(c: char) -> bool {
    '0' <= c && c <= '9'
}

pub open spec fn is_alphanumeric(c: char) -> bool {
    is_lower(c) || is_upper(c) || is_digit(c)
}

/// Whether `c` has Unicode's `White_Space` property.
pub open spec fn unicode_white_space(c: char) -> bool {
    let u = c as u32;
    ||| 0x09 <= u <= 0x0D
    ||| u == 0x20
    ||| u == 0x85
    ||| u == 0xA0
    ||| u == 0x1680
    ||| 0x2000 <= u <= 0x200A
    ||| u == 0x2028
    ||| u == 0x2029
    ||| u == 0x202F
    ||| u == 0x205F
    ||| u == 0x3000
}

/// Relies on `char::is_whitespace`: true exactly for characters with the
/// Unicode `White_Space` property.
#[verifier::external_body]
fn is_white_space(c: char) -> (r: bool)
    ensures
        r == unicode_white_space(c),
{
    c.is_whitespace()
}

pub open spec fn has_in_range(s: Seq<char>, lo: char, hi: char) -> bool {
    exists|i: int| 0 <= i < s.len() && lo <= #[trigger] s[i] && s[i] <= hi
}

pub open spec fn has_lowercase(s: Seq<char>) -> bool {
    has_in_range(s, 'a', 'z')
}

pub open spec fn has_uppercase(s: Seq<char>) -> bool {
    has_in_range(s, 'A', 'Z')
}

pub open spec fn has_number(s: Seq<char>) -> bool {
    has_in_range(s, '0', '9')
}

/// A character other than an ASCII letter or digit, once white space at
/// both ends is cut away: it lies between two characters that are not
/// white space (or is one itself).
pub open spec fn has_special(s: Seq<char>) -> bool {
    exists|i: int, j: int, k: int|
        0 <= j <= i && i <= k < s.len() && !unicode_white_space(#[trigger] s[j])
            && !is_alphanumeric(#[trigger] s[i]) && !unicode_white_space(#[trigger] s[k])
}

/// The length of a password, counted in bytes of UTF-8 (as a machine word,
/// which every string in memory fits).
pub open spec fn byte_len(s: Seq<char>) -> nat {
    (encode_utf8(s).len() as usize) as nat
}

pub open spec fn too_short(cfg: PasswordConfig, s: Seq<char>) -> bool {
    (cfg.min_length as nat) > byte_len(s)
}

pub open spec fn too_long(cfg: PasswordConfig, s: Seq<char>) -> bool {
    (cfg.max_length as nat) < byte_len(s)
}

pub open spec fn lacks_lowercase(cfg: PasswordConfig, s: Seq<char>) -> bool {
    cfg.lowercase && !has_lowercase(s)
}

pub open spec fn lacks_uppercase(cfg: PasswordConfig, s: Seq<char>) -> bool {
    cfg.uppercase && !has_uppercase(s)
}

pub open spec fn lacks_number(cfg: PasswordConfig, s: Seq<char>) -> bool {
    cfg.numbers && !has_number(s)
}

pub open spec fn lacks_special(cfg: PasswordConfig, s: Seq<char>) -> bool {
    cfg.special && !has_special(s)
}

/// Whether the password meets every rule of the policy.
pub open spec fn password_accepted(cfg: PasswordConfig, s: Seq<char>) -> bool {
    !too_short(cfg, s) && !too_long(cfg, s) && !lacks_lowercase(cfg, s) && !lacks_uppercase(cfg, s)
        && !lacks_number(cfg, s) && !lacks_special(cfg, s)
}

fn contains_in_range(s: &str, lo: char, hi: char) -> (r: bool)
    ensures
        r == has_in_range(s@, lo, hi),
{
    let n = s.unicode_len();
    let mut i: usize = 0;
    while i < n
        invariant
            n == s@.len(),
            i <= n,
            forall|j: int| 0 <= j < i ==> !(lo <= #[trigger] s@[j] && s@[j] <= hi),
        decreases n - i,
    {
        let c = s.get_char(i);
        if lo <= c && c <= hi {
            return true;
        }
        i = i + 1;
    }
    false
}

fn is_alphanumeric_char(c: char) -> (r: bool)
    ensures
        r == is_alphanumeric(c),
{
    ('a' <= c && c <= 'z') || ('A' <= c && c <= 'Z') || ('0' <= c && c <= '9')
}

fn contains_special(s: &str) -> (r: bool)
    ensures
        r == has_special(s@),
{
    let n = s.unicode_len();
    // first character that is not white space
    let mut lo: usize = 0;
    while lo < n
        invariant
            n == s@.len(),
            lo <= n,
            forall|j: int| 0 <= j < lo ==> unicode_white_space(#[trigger] s@[j]),
        ensures
            lo <= n,
            lo < n ==> !unicode_white_space(s@[lo as int]),
            forall|j: int| 0 <= j < lo ==> unicode_white_space(#[trigger] s@[j]),
        decreases n - lo,
    {
        if !is_white_space(s.get_char(lo)) {
            break;
        }
        lo = lo + 1;
    }
    if lo == n {
        assert(!has_special(s@)) by {
            assert forall|i: int, j: int, k: int|
                0 <= j <= i && i <= k < s@.len() implies !(!unicode_white_space(#[trigger] s@[j])
                    && !is_alphanumeric(#[trigger] s@[i]) && !unicode_white_space(
                    #[trigger] s@[k],
                )) by {}
        }
        return false;
    }
    // last character that is not white space
    let mut hi: usize = n - 1;
    while hi > lo
        invariant
            n == s@.len(),
            lo < n,
            lo <= hi < n,
            !unicode_white_space(s@[lo as int]),
            forall|j: int| hi < j < n ==> unicode_white_space(#[trigger] s@[j]),
        ensures
            lo <= hi < n,
            !unicode_white_space(s@[hi as int]),
            forall|j: int| hi < j < n ==> unicode_white_space(#[trigger] s@[j]),
        decreases hi,
    {
        if !is_white_space(s.get_char(hi)) {
            break;
        }
        hi = hi - 1;
    }
    assert(!unicode_white_space(s@[hi as int]));
    let mut i: usize = lo;
    while i <= hi
        invariant
            n == s@.len(),
            lo <= hi < n,
            lo <= i <= hi + 1,
            !unicode_white_space(s@[lo as int]),
            !unicode_white_space(s@[hi as int]),
            forall|j: int| 0 <= j < lo ==> unicode_white_space(#[trigger] s@[j]),
            forall|j: int| hi < j < n ==> unicode_white_space(#[trigger] s@[j]),
            forall|j: int| lo <= j < i ==> is_alphanumeric(#[trigger] s@[j]),
        decreases hi + 1 - i,
    {
        if !is_alphanumeric_char(s.get_char(i)) {
            assert(!is_alphanumeric(s@[i as int]));
            return true;
        }
        i = i + 1;
    }
    assert(!has_special(s@)) by {
        assert forall|i: int, j: int, k: int|
            0 <= j <= i && i <= k < s@.len() && !unicode_white_space(#[trigger] s@[j])
                && !unicode_white_space(#[trigger] s@[k]) implies is_alphanumeric(
            #[trigger] s@[i],
        ) by {
            assert(lo <= j);
            assert(k <= hi);
        }
    }
    false
}

/// The message for the first rule of the policy that the password breaks,
/// in the order the rules are checked.
pub open spec fn violation_message(cfg: PasswordConfig, s: Seq<char>) -> Seq<char> {
    if too_short(cfg, s) {
        "Password is too short!"@
    } else if too_long(cfg, s) {
        "Password is too long!"@
    } else if lacks_lowercase(cfg, s) {
        "Please use lowercase characters in your password!"@
    } else if lacks_uppercase(cfg, s) {
        "Please use uppercase characters in your password!"@
    } else if lacks_number(cfg, s) {
        "Please use numbers in your password!"@
    } else {
        "Please use special characters in your password!"@
    }
}

impl PasswordConfig {
    /// Checks a candidate password against the policy. The rules are tried
    /// in a fixed order (shortest length, longest length, lowercase,
    /// uppercase, digits, special characters) and the first one broken is
    /// reported.
    pub fn check_password(&self, password: &str) -> (r: Result<(), &'static str>)
        ensures
            r is Ok <==> password_accepted(*self, password@),
            r is Err ==> r->Err_0@ == violation_message(*self, password@),
            too_short(*self, password@) ==> r == Err::<(), &str>("Password is too short!"),
            !too_short(*self, password@) && too_long(*self, password@) ==> r == Err::<(), &str>(
                "Password is too long!",
            ),
            !too_short(*self, password@) && !too_long(*self, password@) && lacks_lowercase(
                *self,
                password@,
            ) ==> r == Err::<(), &str>("Please use lowercase characters in your password!"),
            !too_short(*self, password@) && !too_long(*self, password@) && !lacks_lowercase(
                *self,
                password@,
            ) && lacks_uppercase(*self, password@) ==> r == Err::<(), &str>(
                "Please use uppercase characters in your password!",
            ),
            !too_short(*self, password@) && !too_long(*self, password@) && !lacks_lowercase(
                *self,
                password@,
            ) && !lacks_uppercase(*self, password@) && lacks_number(*self, password@) ==> r
                == Err::<(), &str>("Please use numbers in your password!"),
            !too_short(*self, password@) && !too_long(*self, password@) && !lacks_lowercase(
                *self,
                password@,
            ) && !lacks_uppercase(*self, password@) && !lacks_number(*self, password@)
                && lacks_special(*self, password@) ==> r == Err::<(), &str>(
                "Please use special characters in your password!",
            ),
    {
        let len = password.len();
        if (self.min_length as usize) > len {
            return Err("Password is too short!");
        }
        if (self.max_length as usize) < len {
            return Err("Password is too long!");
        }
        if self.lowercase && !contains_in_range(password, 'a', 'z') {
            return Err("Please use lowercase characters in your password!");
        }
        if self.uppercase && !contains_in_range(password, 'A', 'Z') {
            return Err("Please use uppercase characters in your password!");
        }
        if self.numbers && !contains_in_range(password, '0', '9') {
            return Err("Please use numbers in your password!");
        }
        if self.special && !contains_special(password) {
            return Err("Please use special characters in your password!");
        }
        Ok(())
    }
}

} // verus!
