use vstd::prelude::*;

use vstd::utf8::encode_utf8;

use crate::config::{is_alphanumeric, password_accepted, violation_message, HashConfig, PasswordConfig};
use crate::credentials::{
    lemma_hash_then_verify, argon2_accepts, cost_of, hash_outcome, hash_password, verify_outcome, verify_password,
};
use crate::session::{chars_to_string, issue_token, claims_text, token_text, SECONDS_PER_DAY};
use crate::error::Error;
use crate::events::{new_channel, send_event, subscribe_to, Event, EventView, CHANNEL_CAPACITY};

verus! {

/// What a client sends to open an account.
pub struct RegistrationRequest {
    pub email: String,
    pub username: String,
    pub password: String,
}

/// What a client sends to log in.
pub struct LoginRequest {
    pub email: String,
    pub password: String,
}

/// Per-account state beside the identity record: the event channel, made on
/// the first subscription.
pub struct AccountProperties {
    pub event_sender: Option<tokio::sync::broadcast::Sender<Event>>,
}

/// An identity record.
pub struct Account {
    pub id: String,
    pub email: String,
    /// Every username the account has had; the last one is the current one.
    pub username_history: Vec<String>,
    pub password_hash: Vec<u8>,
    pub salt: String,
    pub friends: Vec<String>,
    /// Accounts that asked for friendship and were not answered yet.
    pub friend_requests: Vec<String>,
    pub properties: AccountProperties,
}

/// The character sequences held by a vector of strings.
pub open spec fn texts(v: Seq<String>) -> Seq<Seq<char>> {
    v.map_values(|s: String| s@)
}

impl Account {
    pub open spec fn current_name(&self) -> Seq<char> {
        self.username_history@.last()@
    }

    pub open spec fn friend_ids(&self) -> Seq<Seq<char>> {
        texts(self.friends@)
    }

    pub open spec fn request_ids(&self) -> Seq<Seq<char>> {
        texts(self.friend_requests@)
    }

    /// The rules that one record keeps on its own: a current username, no
    /// link to itself, no repeated link, and no friend still pending.
    pub open spec fn wf(&self) -> bool {
        &&& self.username_history@.len() > 0
        &&& !self.friend_ids().contains(self.id@)
        &&& !self.request_ids().contains(self.id@)
        &&& self.friend_ids().no_duplicates()
        &&& self.request_ids().no_duplicates()
        &&& forall|x: Seq<char>| #[trigger]
            self.friend_ids().contains(x) ==> !self.request_ids().contains(x)
    }

    /// The username the account goes by now.
    pub fn current_username(&self) -> (r: &String)
        requires
            self.username_history@.len() > 0,
        ensures
            r@ == self.current_name(),
    {
        &self.username_history[self.username_history.len() - 1]
    }
}

/// One event handed to an account's channel, with the id of that account.
pub type Notice = (Seq<char>, EventView);

/// The account directory, held in memory.
pub struct InMemoryDatabase {
    pub accounts: Vec<Account>,
    /// Every event published so far, in order, with the account it was for.
    pub published: Ghost<Seq<Notice>>,
}

pub open spec fn account_ids(accounts: Seq<Account>) -> Seq<Seq<char>> {
    accounts.map_values(|a: Account| a.id@)
}

impl InMemoryDatabase {
    /// Identity is unique, every record is well formed, and friendship is
    /// symmetric.
    pub open spec fn wf(&self) -> bool {
        &&& forall|i: int| 0 <= i < self.accounts@.len() ==> (#[trigger] self.accounts@[i]).wf()
        &&& forall|i: int, j: int|
            0 <= i < self.accounts@.len() && 0 <= j < self.accounts@.len() && i != j ==> {
                &&& (#[trigger] self.accounts@[i]).id@ != (#[trigger] self.accounts@[j]).id@
                &&& self.accounts@[i].email@ != self.accounts@[j].email@
                &&& self.accounts@[i].current_name() != self.accounts@[j].current_name()
            }
        &&& forall|i: int, j: int|
            0 <= i < self.accounts@.len() && 0 <= j < self.accounts@.len() ==> ((
            #[trigger] self.accounts@[i]).friend_ids().contains(self.accounts@[j].id@)
                <==> (#[trigger] self.accounts@[j]).friend_ids().contains(self.accounts@[i].id@))
        &&& forall|i: int, x: Seq<char>|
            0 <= i < self.accounts@.len() && #[trigger] self.accounts@[i].friend_ids().contains(x)
                ==> account_ids(self.accounts@).contains(x)
    }

    pub open spec fn has_id(&self, id: Seq<char>) -> bool {
        account_ids(self.accounts@).contains(id)
    }

    pub open spec fn has_email(&self, email: Seq<char>) -> bool {
        exists|i: int| 0 <= i < self.accounts@.len() && (#[trigger] self.accounts@[i]).email@ == email
    }

    pub open spec fn has_name(&self, name: Seq<char>) -> bool {
        exists|i: int|
            0 <= i < self.accounts@.len() && (#[trigger] self.accounts@[i]).current_name() == name
    }

    /// An empty directory.
    pub fn new() -> (r: Self)
        ensures
            r.wf(),
            r.accounts@.len() == 0,
            r.published@.len() == 0,
    {
        InMemoryDatabase { accounts: Vec::new(), published: Ghost(Seq::empty()) }
    }

    /// The place of the account with this id.
    pub fn index_of_id(&self, id: &str) -> (r: Option<usize>)
        ensures
            r is Some ==> r->Some_0 < self.accounts@.len() && self.accounts@[r->Some_0 as int].id@
                == id@,
            r is Some ==> account_ids(self.accounts@)[r->Some_0 as int] == id@,
            r is None <==> !self.has_id(id@),
    {
        let key = id.to_owned();
        let mut i: usize = 0;
        while i < self.accounts.len()
            invariant
                key@ == id@,
                i <= self.accounts@.len(),
                forall|j: int| 0 <= j < i ==> (#[trigger] self.accounts@[j]).id@ != id@,
            decreases self.accounts@.len() - i,
        {
            if self.accounts[i].id == key {
                assert(account_ids(self.accounts@)[i as int] == id@);
                return Some(i);
            }
            i = i + 1;
        }
        assert(!account_ids(self.accounts@).contains(id@)) by {
            if account_ids(self.accounts@).contains(id@) {
                let k = choose|k: int|
                    0 <= k < account_ids(self.accounts@).len() && account_ids(self.accounts@)[k]
                        == id@;
                assert(self.accounts@[k].id@ == id@);
            }
        }
        None
    }

    /// The place of the account with this email address.
    pub fn index_of_email(&self, email: &str) -> (r: Option<usize>)
        ensures
            r is Some ==> r->Some_0 < self.accounts@.len() && self.accounts@[r->Some_0 as int].email@
                == email@,
            r is None <==> !self.has_email(email@),
    {
        let key = email.to_owned();
        let mut i: usize = 0;
        while i < self.accounts.len()
            invariant
                key@ == email@,
                i <= self.accounts@.len(),
                forall|j: int| 0 <= j < i ==> (#[trigger] self.accounts@[j]).email@ != email@,
            decreases self.accounts@.len() - i,
        {
            if self.accounts[i].email == key {
                return Some(i);
            }
            i = i + 1;
        }
        None
    }

    /// The place of the account whose current username is this one.
    pub fn index_of_name(&self, username: &str) -> (r: Option<usize>)
        requires
            self.wf(),
        ensures
            r is Some ==> r->Some_0 < self.accounts@.len() && self.accounts@[r->Some_0 as int].current_name()
                == username@,
            r is None <==> !self.has_name(username@),
    {
        let key = username.to_owned();
        let mut i: usize = 0;
        while i < self.accounts.len()
            invariant
                self.wf(),
                key@ == username@,
                i <= self.accounts@.len(),
                forall|j: int|
                    0 <= j < i ==> (#[trigger] self.accounts@[j]).current_name() != username@,
            decreases self.accounts@.len() - i,
        {
            assert(self.accounts@[i as int].wf());
            if *self.accounts[i].current_username() == key {
                return Some(i);
            }
            i = i + 1;
        }
        None
    }

    /// The account with this id.
    pub fn find_account_by_id(&self, id: &str) -> (r: Result<&Account, Error>)
        ensures
            r is Ok <==> self.has_id(id@),
            r is Ok ==> r->Ok_0.id@ == id@ && self.accounts@.contains(*r->Ok_0),
            r is Err ==> (r matches Err(Error::NotFound(m)) && m@ == "User"@),
    {
        match self.index_of_id(id) {
            Some(i) => Ok(&self.accounts[i]),
            None => Err(Error::NotFound("User".to_owned())),
        }
    }

    /// The account with this email address.
    pub fn find_account_by_email(&self, email: &str) -> (r: Result<&Account, Error>)
        ensures
            r is Ok <==> self.has_email(email@),
            r is Ok ==> r->Ok_0.email@ == email@ && self.accounts@.contains(*r->Ok_0),
            r is Err ==> (r matches Err(Error::NotFound(m)) && m@ == "User"@),
    {
        match self.index_of_email(email) {
            Some(i) => Ok(&self.accounts[i]),
            None => Err(Error::NotFound("User".to_owned())),
        }
    }

    /// The account whose current username is this one.
    pub fn find_account_by_name(&self, username: &str) -> (r: Result<&Account, Error>)
        requires
            self.wf(),
        ensures
            r is Ok <==> self.has_name(username@),
            r is Ok ==> r->Ok_0.current_name() == username@ && self.accounts@.contains(*r->Ok_0),
            r is Err ==> (r matches Err(Error::NotFound(m)) && m@ == "User"@),
    {
        match self.index_of_name(username) {
            Some(i) => Ok(&self.accounts[i]),
            None => Err(Error::NotFound("User".to_owned())),
        }
    }
}


/// Relies on `uuid::Uuid::new_v4` and its hyphenated `to_string`: a random
/// version 4 UUID written as 36 characters, lowercase hex digits and hyphens.
#[verifier::external_body]
pub(crate) fn fresh_id() -> (r: String)
    ensures
        r@.len() == 36,
        forall|i: int|
            0 <= i < r@.len() ==> #[trigger] r@[i] == '-' || ('0' <= r@[i] && r@[i] <= '9') || (
            'a' <= r@[i] && r@[i] <= 'f'),
{
    uuid::Uuid::new_v4().to_string()
}

pub proof fn lemma_texts_push(s: Seq<String>, x: String)
    ensures
        texts(s.push(x)) == texts(s).push(x@),
{
    assert(texts(s.push(x)) =~= texts(s).push(x@));
}

pub proof fn lemma_texts_remove(s: Seq<String>, i: int)
    requires
        0 <= i < s.len(),
    ensures
        texts(s.remove(i)) == texts(s).remove(i),
{
    assert(texts(s.remove(i)) =~= texts(s).remove(i));
}

/// Taking one element out of a sequence without repeats leaves every other
/// element, and no repeat.
pub proof fn lemma_remove_distinct(s: Seq<Seq<char>>, i: int)
    requires
        0 <= i < s.len(),
        s.no_duplicates(),
    ensures
        s.remove(i).no_duplicates(),
        forall|x: Seq<char>| #[trigger] s.remove(i).contains(x) <==> (s.contains(x) && x != s[i]),
{
    let r = s.remove(i);
    assert forall|x: Seq<char>| #[trigger] r.contains(x) <==> (s.contains(x) && x != s[i]) by {
        if r.contains(x) {
            let k = choose|k: int| 0 <= k < r.len() && r[k] == x;
            if k < i {
                assert(s[k] == x);
            } else {
                assert(s[k + 1] == x);
            }
        }
        if s.contains(x) && x != s[i] {
            let k = choose|k: int| 0 <= k < s.len() && s[k] == x;
            if k < i {
                assert(r[k] == x);
            } else {
                assert(r[k - 1] == x);
            }
        }
    }
}

/// The place of a string in a vector of strings.
fn position_of(v: &Vec<String>, x: &String) -> (r: Option<usize>)
    ensures
        r is Some ==> r->Some_0 < v@.len() && texts(v@)[r->Some_0 as int] == x@,
        r is None <==> !texts(v@).contains(x@),
{
    let mut i: usize = 0;
    while i < v.len()
        invariant
            i <= v@.len(),
            forall|j: int| 0 <= j < i ==> (#[trigger] v@[j])@ != x@,
        decreases v@.len() - i,
    {
        if v[i] == *x {
            assert(texts(v@)[i as int] == x@);
            return Some(i);
        }
        i = i + 1;
    }
    assert(!texts(v@).contains(x@)) by {
        if texts(v@).contains(x@) {
            let k = choose|k: int| 0 <= k < texts(v@).len() && texts(v@)[k] == x@;
            assert(v@[k]@ == x@);
        }
    }
    None
}

impl InMemoryDatabase {
    /// Hands an event to the channel of the account at `idx`, if it has one,
    /// and records it as published.
    fn publish(&mut self, idx: usize, event: Event)
        requires
            idx < old(self).accounts@.len(),
        ensures
            final(self).accounts@ == old(self).accounts@,
            final(self).published@ == old(self).published@.push((old(self).accounts@[idx as int].id@, event@)),
    {
        let ghost notice = (self.accounts@[idx as int].id@, event@);
        match &self.accounts[idx].properties.event_sender {
            Some(sender) => send_event(sender, event),
            None => {},
        }
        self.published = Ghost(self.published@.push(notice));
    }

    /// Whether a record may join the directory as it is: a username and no
    /// links yet.
    pub open spec fn fresh(account: Account) -> bool {
        &&& account.username_history@.len() > 0
        &&& account.friends@.len() == 0
        &&& account.friend_requests@.len() == 0
    }

    /// Adds a new record. It must have a username and no links yet, and its
    /// id, email and username must be free.
    pub fn register_account(&mut self, account: Account) -> (r: Result<(), Error>)
        requires
            old(self).wf(),
        ensures
            final(self).wf(),
            final(self).published@ == old(self).published@,
            !Self::fresh(account) ==> r matches Err(Error::BadRequest(_)),
            Self::fresh(account) && (old(self).has_id(account.id@) || old(self).has_email(account.email@)
                || old(self).has_name(account.current_name())) ==> r matches Err(Error::AlreadyExisting(_)),
            r is Ok <==> Self::fresh(account) && !old(self).has_id(account.id@) && !old(self).has_email(
                account.email@,
            ) && !old(self).has_name(account.current_name()),
            r is Ok ==> final(self).accounts@ == old(self).accounts@.push(account),
            r is Err ==> final(self).accounts@ == old(self).accounts@,
    {
        if account.username_history.len() == 0 || account.friends.len() > 0
            || account.friend_requests.len() > 0 {
            return Err(Error::BadRequest("A new account cannot hold links".to_owned()));
        }
        if self.index_of_id(account.id.as_str()).is_some() || self.index_of_email(account.email.as_str()).is_some()
            || self.index_of_name(account.current_username().as_str()).is_some() {
            return Err(Error::AlreadyExisting("User".to_owned()));
        }
        let ghost before = self.accounts@;
        self.accounts.push(account);
        proof {
            let after = self.accounts@;
            let n = before.len() as int;
            assert(account_ids(after) =~= account_ids(before).push(account.id@));
            assert(account.friend_ids() =~= Seq::<Seq<char>>::empty());
            assert(account.request_ids() =~= Seq::<Seq<char>>::empty());
            assert forall|i: int, j: int|
                0 <= i < after.len() && 0 <= j < after.len() && i != j implies {
                &&& (#[trigger] after[i]).id@ != (#[trigger] after[j]).id@
                &&& after[i].email@ != after[j].email@
                &&& after[i].current_name() != after[j].current_name()
            } by {
                if i == n {
                    assert(account_ids(before)[j] == before[j].id@);
                    assert(before[j].email@ != account.email@);
                    assert(before[j].current_name() != account.current_name());
                } else if j == n {
                    assert(account_ids(before)[i] == before[i].id@);
                    assert(before[i].email@ != account.email@);
                    assert(before[i].current_name() != account.current_name());
                }
            }
            assert forall|i: int, j: int| 0 <= i < after.len() && 0 <= j < after.len() implies ((
            #[trigger] after[i]).friend_ids().contains(after[j].id@) <==> (
            #[trigger] after[j]).friend_ids().contains(after[i].id@)) by {
                if i == n && j < n {
                    if after[j].friend_ids().contains(account.id@) {
                        assert(before[j].friend_ids().contains(account.id@));
                    }
                } else if j == n && i < n {
                    if after[i].friend_ids().contains(account.id@) {
                        assert(before[i].friend_ids().contains(account.id@));
                    }
                }
            }
            assert forall|i: int, x: Seq<char>|
                0 <= i < after.len() && #[trigger] after[i].friend_ids().contains(x) implies account_ids(
                after,
            ).contains(x) by {
                assert(i < n);
                assert(account_ids(before).contains(x));
                let k = choose|k: int| 0 <= k < account_ids(before).len() && account_ids(before)[k] == x;
                assert(account_ids(after)[k] == x);
            }
        }
        Ok(())
    }
}

impl InMemoryDatabase {
    /// Whether `after` is `before` with one new account for `request`, with
    /// the given id, a salt of the configured length and the digest of the
    /// password under it.
    pub open spec fn registered(
        before: Seq<Account>,
        after: Seq<Account>,
        request: &RegistrationRequest,
        hashing: &HashConfig,
        id: Seq<char>,
    ) -> bool {
        let a = after.last();
        &&& after == before.push(a)
        &&& a.id@ == id
        &&& a.email@ == request.email@
        &&& texts(a.username_history@) == seq![request.username@]
        &&& a.friends@.len() == 0
        &&& a.friend_requests@.len() == 0
        &&& a.salt@.len() == hashing.salt_length
        &&& forall|i: int| 0 <= i < a.salt@.len() ==> is_alphanumeric(#[trigger] a.salt@[i])
        &&& a.password_hash@.len() == hashing.length
        &&& hash_outcome(encode_utf8(request.password@), encode_utf8(a.salt@), *hashing) == Some(
            a.password_hash@,
        )
        &&& a.properties.event_sender is None
    }

    /// Whether the hashing parameters would be accepted for this password.
    pub open spec fn hashing_accepts(request: &RegistrationRequest, hashing: &HashConfig) -> bool {
        argon2_accepts(
            encode_utf8(request.password@).len(),
            hashing.salt_length as nat,
            encode_utf8(hashing.secret@).len(),
            cost_of(*hashing),
        )
    }

    /// An id that no account has: its character at place `i` differs from
    /// that of the `i`-th account's id, and it is longer than the number of
    /// accounts.
    fn diagonal_id(&self) -> (r: String)
        ensures
            !self.has_id(r@),
    {
        let n = self.accounts.len();
        let mut text: Vec<char> = Vec::new();
        let mut i: usize = 0;
        while i < n
            invariant
                n == self.accounts@.len(),
                i <= n,
                text@.len() == i,
                forall|j: int|
                    0 <= j < i ==> (self.accounts@[j].id@.len() <= j || #[trigger] text@[j]
                        != self.accounts@[j].id@[j]),
            decreases n - i,
        {
            let id = &self.accounts[i].id;
            let c = if id.as_str().unicode_len() > i && id.as_str().get_char(i) == 'a' {
                'b'
            } else {
                'a'
            };
            text.push(c);
            i = i + 1;
        }
        text.push('a');
        let r = chars_to_string(&text);
        assert(!account_ids(self.accounts@).contains(r@)) by {
            if account_ids(self.accounts@).contains(r@) {
                let k = choose|k: int|
                    0 <= k < account_ids(self.accounts@).len() && account_ids(self.accounts@)[k]
                        == r@;
                assert(self.accounts@[k].id@ == r@);
                assert(text@[k] == r@[k]);
            }
        }
        r
    }

    /// Opens an account under the given id: the email address and the
    /// username must be free, the password must meet the policy, and the id
    /// must be unused. The password is hashed under a fresh salt; the id is
    /// returned.
    pub fn register_with_id(
        &mut self,
        request: &RegistrationRequest,
        policy: &PasswordConfig,
        hashing: &HashConfig,
        id: String,
    ) -> (r: Result<String, Error>)
        requires
            old(self).wf(),
        ensures
            final(self).wf(),
            final(self).published@ == old(self).published@,
            old(self).has_email(request.email@) ==> (r matches Err(Error::AlreadyExisting(m)) && m@
                == "User"@),
            !old(self).has_email(request.email@) && old(self).has_name(request.username@) ==> (r matches Err(
                Error::AlreadyExisting(m),
            ) && m@ == "User"@),
            !old(self).has_email(request.email@) && !old(self).has_name(request.username@)
                && !password_accepted(*policy, request.password@) ==> (r matches Err(
                Error::WeakPassword(m),
            ) && m@ == violation_message(*policy, request.password@)),
            !old(self).has_email(request.email@) && !old(self).has_name(request.username@)
                && password_accepted(*policy, request.password@) && (!Self::hashing_accepts(
                request,
                hashing,
            ) || old(self).has_id(id@)) ==> r matches Err(Error::Server(_)),
            r is Ok <==> !old(self).has_email(request.email@) && !old(self).has_name(request.username@)
                && password_accepted(*policy, request.password@) && Self::hashing_accepts(
                request,
                hashing,
            ) && !old(self).has_id(id@),
            r is Err ==> final(self).accounts@ == old(self).accounts@,
            r is Ok ==> r->Ok_0@ == id@ && Self::registered(
                old(self).accounts@,
                final(self).accounts@,
                request,
                hashing,
                id@,
            ),
    {
        if self.index_of_email(request.email.as_str()).is_some() {
            return Err(Error::AlreadyExisting("User".to_owned()));
        }
        if self.index_of_name(request.username.as_str()).is_some() {
            return Err(Error::AlreadyExisting("User".to_owned()));
        }
        if let Err(reason) = policy.check_password(request.password.as_str()) {
            return Err(Error::WeakPassword(reason.to_owned()));
        }
        if self.index_of_id(id.as_str()).is_some() {
            return Err(Error::Server("Unable to allocate an account id".to_owned()));
        }
        let digest = hash_password(request.password.as_str(), hashing)?;
        let mut usernames: Vec<String> = Vec::new();
        usernames.push(request.username.clone());
        proof {
            assert(texts(usernames@) =~= seq![request.username@]);
        }
        let account = Account {
            id: id.clone(),
            email: request.email.clone(),
            username_history: usernames,
            password_hash: digest.hash,
            salt: digest.salt,
            friends: Vec::new(),
            friend_requests: Vec::new(),
            properties: AccountProperties { event_sender: None },
        };
        match self.register_account(account) {
            Ok(()) => Ok(id),
            Err(e) => Err(e),
        }
    }

    /// Opens an account under a fresh random id, as `register_with_id` does.
    /// Should the random id be taken already, an id that no account has is
    /// derived from the existing ones instead.
    pub fn register(
        &mut self,
        request: &RegistrationRequest,
        policy: &PasswordConfig,
        hashing: &HashConfig,
    ) -> (r: Result<String, Error>)
        requires
            old(self).wf(),
        ensures
            final(self).wf(),
            final(self).published@ == old(self).published@,
            old(self).has_email(request.email@) ==> (r matches Err(Error::AlreadyExisting(m)) && m@
                == "User"@),
            !old(self).has_email(request.email@) && old(self).has_name(request.username@) ==> (r matches Err(
                Error::AlreadyExisting(m),
            ) && m@ == "User"@),
            !old(self).has_email(request.email@) && !old(self).has_name(request.username@)
                && !password_accepted(*policy, request.password@) ==> (r matches Err(
                Error::WeakPassword(m),
            ) && m@ == violation_message(*policy, request.password@)),
            !old(self).has_email(request.email@) && !old(self).has_name(request.username@)
                && password_accepted(*policy, request.password@) && !Self::hashing_accepts(
                request,
                hashing,
            ) ==> r matches Err(Error::Server(_)),
            r is Ok <==> !old(self).has_email(request.email@) && !old(self).has_name(request.username@)
                && password_accepted(*policy, request.password@) && Self::hashing_accepts(
                request,
                hashing,
            ),
            (r matches Err(Error::AlreadyExisting(_))) ==> old(self).has_email(request.email@) || old(
                self).has_name(request.username@),
            (r matches Err(Error::WeakPassword(_))) ==> !old(self).has_email(request.email@) && !old(
                self).has_name(request.username@) && !password_accepted(*policy, request.password@),
            (r matches Err(Error::Server(_))) ==> !old(self).has_email(request.email@) && !old(
                self).has_name(request.username@) && password_accepted(*policy, request.password@)
                && !Self::hashing_accepts(request, hashing),
            r is Err ==> r->Err_0 is AlreadyExisting || r->Err_0 is WeakPassword || r->Err_0 is Server,
            r is Err ==> final(self).accounts@ == old(self).accounts@,
            r is Ok ==> !old(self).has_email(request.email@) && !old(self).has_name(request.username@)
                && password_accepted(*policy, request.password@) && !old(self).has_id(r->Ok_0@)
                && Self::registered(old(self).accounts@, final(self).accounts@, request, hashing, r->Ok_0@),
    {
        let candidate = fresh_id();
        let id = if self.index_of_id(candidate.as_str()).is_some() {
            self.diagonal_id()
        } else {
            candidate
        };
        self.register_with_id(request, policy, hashing, id)
    }

    /// Appends a username to an account's history, which makes it the
    /// current one. It may not be the current username of another account.
    pub fn change_username(&mut self, id: &str, username: String) -> (r: Result<(), Error>)
        requires
            old(self).wf(),
        ensures
            final(self).wf(),
            final(self).published@ == old(self).published@,
            !old(self).has_id(id@) ==> (r matches Err(Error::NotFound(m)) && m@ == "User"@),
            r is Ok <==> old(self).has_id(id@) && forall|j: int|
                0 <= j < old(self).accounts@.len() && (#[trigger] old(self).accounts@[j]).current_name()
                    == username@ ==> old(self).accounts@[j].id@ == id@,
            r is Err ==> final(self).accounts@ == old(self).accounts@,
            r is Ok ==> exists|i: int|
                0 <= i < old(self).accounts@.len() && (#[trigger] old(self).accounts@[i]).id@ == id@
                    && final(self).accounts@ == old(self).accounts@.update(
                    i,
                    Account {
                        username_history: final(self).accounts@[i].username_history,
                        ..old(self).accounts@[i]
                    },
                ) && final(self).accounts@[i].username_history@ == old(self).accounts@[i].username_history@.push(username),
            r is Err && old(self).has_id(id@) ==> r matches Err(Error::AlreadyExisting(_)),
    {
        let i = match self.index_of_id(id) {
            Some(i) => i,
            None => return Err(Error::NotFound("User".to_owned())),
        };
        match self.index_of_name(username.as_str()) {
            Some(j) => {
                if j != i {
                    assert(self.accounts@[j as int].id@ != id@);
                    return Err(Error::AlreadyExisting("Username".to_owned()));
                }
            },
            None => {},
        }
        proof {
            assert forall|j: int|
                0 <= j < self.accounts@.len() && (#[trigger] self.accounts@[j]).current_name()
                    == username@ implies self.accounts@[j].id@ == id@ by {
                if j != i {
                    assert(self.has_name(username@));
                }
            }
        }
        let ghost before = self.accounts@;
        self.accounts[i].username_history.push(username);
        proof {
            let after = self.accounts@;
            assert(after == before.update(
                i as int,
                Account { username_history: after[i as int].username_history, ..before[i as int] },
            ));
            assert(account_ids(after) =~= account_ids(before));
            assert(after[i as int].current_name() == username@);
            assert forall|k: int| 0 <= k < after.len() implies (#[trigger] after[k]).wf() by {
                assert(before[k].wf());
                if k == i {
                    assert(after[k].friend_ids() == before[k].friend_ids());
                    assert(after[k].request_ids() == before[k].request_ids());
                }
            }
            assert forall|a: int, b: int|
                0 <= a < after.len() && 0 <= b < after.len() && a != b implies {
                &&& (#[trigger] after[a]).id@ != (#[trigger] after[b]).id@
                &&& after[a].email@ != after[b].email@
                &&& after[a].current_name() != after[b].current_name()
            } by {
                assert(before[a].id@ != before[b].id@);
                if a == i {
                    assert(before[b].current_name() != username@ || before[b].id@ == id@);
                } else if b == i {
                    assert(before[a].current_name() != username@ || before[a].id@ == id@);
                }
            }
            assert forall|a: int, b: int| 0 <= a < after.len() && 0 <= b < after.len() implies ((
            #[trigger] after[a]).friend_ids().contains(after[b].id@) <==> (
            #[trigger] after[b]).friend_ids().contains(after[a].id@)) by {
                assert(before[a].friend_ids().contains(before[b].id@) <==> before[b].friend_ids().contains(
                    before[a].id@,
                ));
            }
            assert forall|a: int, x: Seq<char>|
                0 <= a < after.len() && #[trigger] after[a].friend_ids().contains(x) implies account_ids(
                after,
            ).contains(x) by {
                assert(before[a].friend_ids().contains(x));
            }
        }
        Ok(())
    }

    /// The friends of an account.
    pub fn list_friends(&self, id: &str) -> (r: Result<Vec<String>, Error>)
        ensures
            r is Ok <==> self.has_id(id@),
            r is Err ==> (r matches Err(Error::NotFound(m)) && m@ == "User"@),
            r is Ok ==> exists|i: int|
                0 <= i < self.accounts@.len() && (#[trigger] self.accounts@[i]).id@ == id@
                    && texts(r->Ok_0@) == self.accounts@[i].friend_ids(),
    {
        let i = match self.index_of_id(id) {
            Some(i) => i,
            None => return Err(Error::NotFound("User".to_owned())),
        };
        let friends = &self.accounts[i].friends;
        let mut out: Vec<String> = Vec::new();
        let mut k: usize = 0;
        while k < friends.len()
            invariant
                k <= friends@.len(),
                texts(out@) == texts(friends@).take(k as int),
            decreases friends@.len() - k,
        {
            let f = friends[k].clone();
            proof {
                lemma_texts_push(out@, f);
                assert(texts(friends@).take(k + 1) =~= texts(friends@).take(k as int).push(f@));
            }
            out.push(f);
            k = k + 1;
        }
        assert(texts(friends@).take(k as int) =~= texts(friends@));
        Ok(out)
    }

    /// Subscribes to an account's events, making its channel on the first
    /// subscription. An account has at most one channel: later subscriptions
    /// share it.
    pub fn subscribe(&mut self, id: &str) -> (r: Result<tokio::sync::broadcast::Receiver<Event>, Error>)
        requires
            old(self).wf(),
        ensures
            final(self).wf(),
            final(self).published@ == old(self).published@,
            r is Ok <==> old(self).has_id(id@),
            r is Err ==> (r matches Err(Error::NotFound(m)) && m@ == "User"@) && final(self).accounts@ == old(self).accounts@,
            r is Ok ==> exists|i: int|
                0 <= i < old(self).accounts@.len() && (#[trigger] old(self).accounts@[i]).id@ == id@
                    && final(self).accounts@[i].properties.event_sender is Some && (old(self).accounts@[i].properties.event_sender is Some ==> final(self).accounts@ == old(self).accounts@) && final(self).accounts@ == old(self).accounts@.update(
                    i,
                    Account { properties: final(self).accounts@[i].properties, ..old(self).accounts@[i] },
                ),
    {
        let i = match self.index_of_id(id) {
            Some(i) => i,
            None => return Err(Error::NotFound("User".to_owned())),
        };
        let ghost before = self.accounts@;
        if self.accounts[i].properties.event_sender.is_none() {
            self.accounts[i].properties.event_sender = Some(new_channel(CHANNEL_CAPACITY));
        }
        proof {
            let after = self.accounts@;
            assert(after == before.update(
                i as int,
                Account { properties: after[i as int].properties, ..before[i as int] },
            ));
            assert(account_ids(after) =~= account_ids(before));
            assert forall|k: int| 0 <= k < after.len() implies (#[trigger] after[k]).wf() by {
                assert(before[k].wf());
            }
            assert forall|a: int, b: int|
                0 <= a < after.len() && 0 <= b < after.len() && a != b implies {
                &&& (#[trigger] after[a]).id@ != (#[trigger] after[b]).id@
                &&& after[a].email@ != after[b].email@
                &&& after[a].current_name() != after[b].current_name()
            } by {
                assert(before[a].id@ != before[b].id@);
            }
            assert forall|a: int, b: int| 0 <= a < after.len() && 0 <= b < after.len() implies ((
            #[trigger] after[a]).friend_ids().contains(after[b].id@) <==> (
            #[trigger] after[b]).friend_ids().contains(after[a].id@)) by {
                assert(before[a].friend_ids().contains(before[b].id@) <==> before[b].friend_ids().contains(
                    before[a].id@,
                ));
            }
            assert forall|a: int, x: Seq<char>|
                0 <= a < after.len() && #[trigger] after[a].friend_ids().contains(x) implies account_ids(
                after,
            ).contains(x) by {
                assert(before[a].friend_ids().contains(x));
            }
        }
        match &self.accounts[i].properties.event_sender {
            Some(sender) => Ok(subscribe_to(sender)),
            None => Err(Error::Server("No event channel".to_owned())),
        }
    }
}

impl InMemoryDatabase {
    /// The change that a successful friend request makes: the target's
    /// pending requests gain the requester, nothing else in the directory
    /// changes, and one `FriendRequest` event is published to the target.
    pub open spec fn request_applied(
        before: &Self,
        after: &Self,
        requester: Seq<char>,
        target: Seq<char>,
    ) -> bool {
        let t = before.index_of(target);
        &&& after.accounts@.len() == before.accounts@.len()
        &&& forall|k: int|
            0 <= k < before.accounts@.len() && k != t ==> #[trigger] after.accounts@[k]
                == before.accounts@[k]
        &&& after.accounts@[t] == Account {
            friend_requests: after.accounts@[t].friend_requests,
            ..before.accounts@[t]
        }
        &&& after.accounts@[t].request_ids() == before.accounts@[t].request_ids().push(requester)
        &&& after.published@ == before.published@.push(
            (target, EventView::FriendRequest(requester)),
        )
    }
}

impl InMemoryDatabase {
    /// The place of the account with this id, where there is one.
    pub open spec fn index_of(&self, id: Seq<char>) -> int
        recommends
            self.has_id(id),
    {
        choose|i: int| 0 <= i < self.accounts@.len() && self.accounts@[i].id@ == id
    }

    /// `requester` asks `target` for friendship: the request is added to the
    /// target's pending requests and the target's channel gets a
    /// `FriendRequest` event carrying the requester's id.
    pub fn request_friend(&mut self, requester: &str, target: &str) -> (r: Result<(), Error>)
        requires
            old(self).wf(),
        ensures
            final(self).wf(),
            !old(self).has_id(requester@) || !old(self).has_id(target@) ==> (r matches Err(
                Error::NotFound(m),
            ) && m@ == "User"@),
            r is Err ==> final(self).accounts@ == old(self).accounts@ && final(self).published@ == old(self).published@,
            r is Ok <==> old(self).has_id(requester@) && old(self).has_id(target@) && requester@
                != target@ && !old(self).accounts@[old(self).index_of(target@)].request_ids().contains(
                requester@,
            ) && !old(self).accounts@[old(self).index_of(requester@)].friend_ids().contains(target@),
            old(self).already_requested(requester@, target@) ==> r matches Err(
                Error::AlreadyExisting(_),
            ),
            old(self).has_id(requester@) && old(self).has_id(target@) && requester@ != target@ && !old(self).accounts@[old(self).index_of(target@)].request_ids().contains(requester@) && old(self).accounts@[old(self).index_of(requester@)].friend_ids().contains(target@) ==> r matches Err(
                Error::BadRequest(_),
            ),
            old(self).has_id(requester@) && requester@ == target@ ==> r matches Err(
                Error::BadRequest(_),
            ),
            r is Ok ==> Self::request_applied(&*old(self), &*final(self), requester@, target@),
    {
        let a = match self.index_of_id(requester) {
            Some(a) => a,
            None => return Err(Error::NotFound("User".to_owned())),
        };
        let b = match self.index_of_id(target) {
            Some(b) => b,
            None => return Err(Error::NotFound("User".to_owned())),
        };
        proof {
            lemma_index_of(self, a as int);
            lemma_index_of(self, b as int);
        }
        if a == b {
            return Err(Error::BadRequest("You cannot befriend yourself".to_owned()));
        }
        let requester_id = self.accounts[a].id.clone();
        let target_id = self.accounts[b].id.clone();
        if position_of(&self.accounts[b].friend_requests, &requester_id).is_some() {
            return Err(Error::AlreadyExisting("Friend Request".to_owned()));
        }
        if position_of(&self.accounts[a].friends, &target_id).is_some() {
            return Err(Error::BadRequest("That account is already your friend".to_owned()));
        }
        let ghost before = self.accounts@;
        let event = Event::FriendRequest(requester_id.clone());
        self.accounts[b].friend_requests.push(requester_id);
        proof {
            let after = self.accounts@;
            let bi = b as int;
            let ai = a as int;
            lemma_texts_push(before[bi].friend_requests@, requester_id);
            assert(account_ids(after) =~= account_ids(before));
            assert(before[bi].wf());
            assert(before[ai].id@ != before[bi].id@);
            assert(before[bi].friend_ids().contains(before[ai].id@) <==> before[ai].friend_ids().contains(
                before[bi].id@,
            ));
            assert forall|k: int| 0 <= k < after.len() implies (#[trigger] after[k]).wf() by {
                assert(before[k].wf());
                if k == bi {
                    assert forall|x: Seq<char>| #[trigger]
                        after[k].friend_ids().contains(x) implies !after[k].request_ids().contains(x) by {
                        assert(before[k].friend_ids().contains(x));
                        assert(x != requester@);
                    }
                }
            }
            assert forall|i: int, j: int|
                0 <= i < after.len() && 0 <= j < after.len() && i != j implies {
                &&& (#[trigger] after[i]).id@ != (#[trigger] after[j]).id@
                &&& after[i].email@ != after[j].email@
                &&& after[i].current_name() != after[j].current_name()
            } by {
                assert(before[i].id@ != before[j].id@);
            }
            assert forall|i: int, j: int| 0 <= i < after.len() && 0 <= j < after.len() implies ((
            #[trigger] after[i]).friend_ids().contains(after[j].id@) <==> (
            #[trigger] after[j]).friend_ids().contains(after[i].id@)) by {
                assert(before[i].friend_ids().contains(before[j].id@) <==> before[j].friend_ids().contains(
                    before[i].id@,
                ));
            }
            assert forall|i: int, x: Seq<char>|
                0 <= i < after.len() && #[trigger] after[i].friend_ids().contains(x) implies account_ids(
                after,
            ).contains(x) by {
                assert(before[i].friend_ids().contains(x));
            }
        }
        self.publish(b, event);
        Ok(())
    }
}

/// The chosen place of an id is the place where it stands.
pub proof fn lemma_index_of(db: &InMemoryDatabase, i: int)
    requires
        db.wf(),
        0 <= i < db.accounts@.len(),
    ensures
        db.has_id(db.accounts@[i].id@),
        db.index_of(db.accounts@[i].id@) == i,
{
    assert(account_ids(db.accounts@)[i] == db.accounts@[i].id@);
    let k = db.index_of(db.accounts@[i].id@);
    assert(db.accounts@[k].id@ == db.accounts@[i].id@);
}

impl InMemoryDatabase {
    /// Whether `target` already has a pending request from `requester`.
    pub open spec fn already_requested(&self, requester: Seq<char>, target: Seq<char>) -> bool {
        &&& self.has_id(requester)
        &&& self.has_id(target)
        &&& requester != target
        &&& self.accounts@[self.index_of(target)].request_ids().contains(requester)
    }

    /// Whether the record at `k` of `new` is the one of `old` with other
    /// links, and both directories hold the same records elsewhere.
    pub open spec fn links_changed_at(old: Seq<Account>, new: Seq<Account>, k: int) -> bool {
        new[k] == Account { friends: new[k].friends, friend_requests: new[k].friend_requests, ..old[k] }
    }

    /// `acceptor` accepts the pending request of `requester`: each becomes a
    /// friend of the other, the request leaves the acceptor's pending set (and
    /// a crossing request, if any, leaves the requester's), and both channels
    /// get a `FriendRequestAccepted` event carrying the acceptor's id.
    pub fn accept_request(&mut self, acceptor: &str, requester: &str) -> (r: Result<(), Error>)
        requires
            old(self).wf(),
        ensures
            final(self).wf(),
            r is Err ==> r->Err_0 is NotFound && final(self).accounts@ == old(self).accounts@ && final(self).published@ == old(self).published@,
            !old(self).has_id(acceptor@) || !old(self).has_id(requester@) ==> (r matches Err(
                Error::NotFound(m),
            ) && m@ == "User"@),
            old(self).has_id(acceptor@) && old(self).has_id(requester@) && !old(self).accounts@[old(self).index_of(acceptor@)].request_ids().contains(requester@) ==> (r matches Err(
                Error::NotFound(m),
            ) && m@ == "Friend Request"@),
            r is Ok <==> old(self).has_id(acceptor@) && old(self).has_id(requester@) && old(self).accounts@[old(self).index_of(acceptor@)].request_ids().contains(requester@),
            r is Ok ==> {
                let a = old(self).index_of(acceptor@);
                let b = old(self).index_of(requester@);
                let before = old(self).accounts@;
                let after = final(self).accounts@;
                &&& a != b
                &&& after.len() == before.len()
                &&& forall|k: int|
                    0 <= k < before.len() && k != a && k != b ==> #[trigger] after[k] == before[k]
                &&& Self::links_changed_at(before, after, a)
                &&& Self::links_changed_at(before, after, b)
                &&& after[a].friend_ids() == before[a].friend_ids().push(requester@)
                &&& after[b].friend_ids() == before[b].friend_ids().push(acceptor@)
                &&& forall|x: Seq<char>| #[trigger]
                    after[a].request_ids().contains(x) <==> before[a].request_ids().contains(x) && x
                        != requester@
                &&& forall|x: Seq<char>| #[trigger]
                    after[b].request_ids().contains(x) <==> before[b].request_ids().contains(x) && x
                        != acceptor@
                &&& after[a].friend_ids().contains(requester@)
                &&& after[b].friend_ids().contains(acceptor@)
                &&& !after[a].request_ids().contains(requester@)
                &&& final(self).published@ == old(self).published@.push(
                    (acceptor@, EventView::FriendRequestAccepted(acceptor@)),
                ).push((requester@, EventView::FriendRequestAccepted(acceptor@)))
            },
    {
        let a = match self.index_of_id(acceptor) {
            Some(a) => a,
            None => return Err(Error::NotFound("User".to_owned())),
        };
        let b = match self.index_of_id(requester) {
            Some(b) => b,
            None => return Err(Error::NotFound("User".to_owned())),
        };
        proof {
            lemma_index_of(self, a as int);
            lemma_index_of(self, b as int);
        }
        let acceptor_id = self.accounts[a].id.clone();
        let requester_id = self.accounts[b].id.clone();
        let pos = match position_of(&self.accounts[a].friend_requests, &requester_id) {
            Some(pos) => pos,
            None => return Err(Error::NotFound("Friend Request".to_owned())),
        };
        let ghost before = self.accounts@;
        let ghost ai = a as int;
        let ghost bi = b as int;
        proof {
            assert(before[ai].wf());
            assert(before[bi].wf());
            assert(before[ai].request_ids().contains(requester@));
            assert(ai != bi);
            assert(!before[ai].friend_ids().contains(requester@));
            assert(before[ai].friend_ids().contains(before[bi].id@) <==> before[bi].friend_ids().contains(
                before[ai].id@,
            ));
            assert(!before[bi].friend_ids().contains(acceptor@));
            lemma_texts_remove(before[ai].friend_requests@, pos as int);
            lemma_remove_distinct(before[ai].request_ids(), pos as int);
            lemma_texts_push(before[ai].friends@, requester_id);
            lemma_texts_push(before[bi].friends@, acceptor_id);
        }
        self.accounts[a].friend_requests.remove(pos);
        self.accounts[a].friends.push(requester_id.clone());
        match position_of(&self.accounts[b].friend_requests, &acceptor_id) {
            Some(q) => {
                proof {
                    lemma_texts_remove(before[bi].friend_requests@, q as int);
                    lemma_remove_distinct(before[bi].request_ids(), q as int);
                }
                self.accounts[b].friend_requests.remove(q);
            },
            None => {},
        }
        self.accounts[b].friends.push(acceptor_id.clone());
        proof {
            let after = self.accounts@;
            assert(after[ai].friend_ids() == before[ai].friend_ids().push(requester@));
            assert(after[bi].friend_ids() == before[bi].friend_ids().push(acceptor@));
            assert(forall|x: Seq<char>| #[trigger]
                after[ai].request_ids().contains(x) <==> before[ai].request_ids().contains(x) && x
                    != requester@);
            assert(forall|x: Seq<char>| #[trigger]
                after[bi].request_ids().contains(x) <==> before[bi].request_ids().contains(x) && x
                    != acceptor@);
            assert(after[ai].friend_ids().contains(requester@)) by {
                assert(after[ai].friend_ids().last() == requester@);
            }
            assert(after[bi].friend_ids().contains(acceptor@)) by {
                assert(after[bi].friend_ids().last() == acceptor@);
            }
            assert(account_ids(after) =~= account_ids(before));
            assert(account_ids(before)[ai] == acceptor@);
            assert(account_ids(before)[bi] == requester@);
            assert forall|k: int| 0 <= k < after.len() implies (#[trigger] after[k]).wf() by {
                assert(before[k].wf());
                if k == ai || k == bi {
                    let other = if k == ai { requester@ } else { acceptor@ };
                    assert(after[k].friend_ids() == before[k].friend_ids().push(other));
                    assert forall|x: Seq<char>| #[trigger]
                        after[k].friend_ids().contains(x) implies before[k].friend_ids().contains(x)
                        || x == other by {
                        let m = choose|m: int|
                            0 <= m < after[k].friend_ids().len() && after[k].friend_ids()[m] == x;
                        if m < before[k].friend_ids().len() {
                            assert(before[k].friend_ids()[m] == x);
                        }
                    }
                    assert(!after[k].friend_ids().contains(after[k].id@));
                    assert(after[k].friend_ids().no_duplicates()) by {
                        assert forall|m: int, n: int|
                            0 <= m < after[k].friend_ids().len() && 0 <= n < after[k].friend_ids().len()
                                && m != n implies after[k].friend_ids()[m] != after[k].friend_ids()[n] by {
                            let len = before[k].friend_ids().len() as int;
                            if m == len {
                                assert(before[k].friend_ids().contains(before[k].friend_ids()[n]));
                            } else if n == len {
                                assert(before[k].friend_ids().contains(before[k].friend_ids()[m]));
                            }
                        }
                    }
                }
            }
            assert forall|i: int, j: int|
                0 <= i < after.len() && 0 <= j < after.len() && i != j implies {
                &&& (#[trigger] after[i]).id@ != (#[trigger] after[j]).id@
                &&& after[i].email@ != after[j].email@
                &&& after[i].current_name() != after[j].current_name()
            } by {
                assert(before[i].id@ != before[j].id@);
            }
            assert forall|i: int, j: int| 0 <= i < after.len() && 0 <= j < after.len() implies ((
            #[trigger] after[i]).friend_ids().contains(after[j].id@) <==> (
            #[trigger] after[j]).friend_ids().contains(after[i].id@)) by {
                assert(before[i].friend_ids().contains(before[j].id@) <==> before[j].friend_ids().contains(
                    before[i].id@,
                ));
                if i != j {
                    assert(before[i].id@ != before[j].id@);
                }
                if i == ai || i == bi {
                    let other = if i == ai { requester@ } else { acceptor@ };
                    assert(after[i].friend_ids().contains(after[j].id@) <==> (before[i].friend_ids().contains(
                        after[j].id@,
                    ) || after[j].id@ == other)) by {
                        if after[i].friend_ids().contains(after[j].id@) && !before[i].friend_ids().contains(after[j].id@) {
                            let m = choose|m: int|
                                0 <= m < after[i].friend_ids().len() && after[i].friend_ids()[m] == after[j].id@;
                            if m < before[i].friend_ids().len() {
                                assert(before[i].friend_ids()[m] == after[j].id@);
                            }
                        }
                        if before[i].friend_ids().contains(after[j].id@) {
                            let m = choose|m: int|
                                0 <= m < before[i].friend_ids().len() && before[i].friend_ids()[m] == after[j].id@;
                            assert(after[i].friend_ids()[m] == after[j].id@);
                        }
                    }
                }
                if j == ai || j == bi {
                    let other = if j == ai { requester@ } else { acceptor@ };
                    assert(after[j].friend_ids().contains(after[i].id@) <==> (before[j].friend_ids().contains(
                        after[i].id@,
                    ) || after[i].id@ == other)) by {
                        if after[j].friend_ids().contains(after[i].id@) && !before[j].friend_ids().contains(after[i].id@) {
                            let m = choose|m: int|
                                0 <= m < after[j].friend_ids().len() && after[j].friend_ids()[m] == after[i].id@;
                            if m < before[j].friend_ids().len() {
                                assert(before[j].friend_ids()[m] == after[i].id@);
                            }
                        }
                        if before[j].friend_ids().contains(after[i].id@) {
                            let m = choose|m: int|
                                0 <= m < before[j].friend_ids().len() && before[j].friend_ids()[m] == after[i].id@;
                            assert(after[j].friend_ids()[m] == after[i].id@);
                        }
                    }
                }
            }
            assert forall|i: int, x: Seq<char>|
                0 <= i < after.len() && #[trigger] after[i].friend_ids().contains(x) implies account_ids(
                after,
            ).contains(x) by {
                if i == ai || i == bi {
                    let other = if i == ai { requester@ } else { acceptor@ };
                    let m = choose|m: int|
                        0 <= m < after[i].friend_ids().len() && after[i].friend_ids()[m] == x;
                    if m < before[i].friend_ids().len() {
                        assert(before[i].friend_ids()[m] == x);
                        assert(before[i].friend_ids().contains(x));
                    } else {
                        assert(x == other);
                    }
                } else {
                    assert(before[i].friend_ids().contains(x));
                }
            }
        }
        self.publish(a, Event::FriendRequestAccepted(acceptor_id.clone()));
        self.publish(b, Event::FriendRequestAccepted(acceptor_id));
        Ok(())
    }
}

impl InMemoryDatabase {
    /// Logs in with an email address and a password, at time `now` (in
    /// seconds since the Unix epoch), and returns a signed session token for
    /// the account. An unknown email address and a wrong password both give
    /// `InvalidCredentials`, so that a caller cannot tell them apart.
    pub fn login(
        &self,
        request: &LoginRequest,
        hashing: &HashConfig,
        lifetime_days: u8,
        now: u64,
        key: &jsonwebtoken::EncodingKey,
    ) -> (r: Result<String, Error>)
        requires
            self.wf(),
        ensures
            !self.has_email(request.email@) ==> r matches Err(Error::InvalidCredentials),
            forall|i: int|
                0 <= i < self.accounts@.len() && (#[trigger] self.accounts@[i]).email@
                    == request.email@ ==> {
                    let a = self.accounts@[i];
                    let outcome = verify_outcome(
                        encode_utf8(request.password@),
                        a.password_hash@,
                        encode_utf8(a.salt@),
                        *hashing,
                    );
                    &&& a.password_hash@.len() <= u32::MAX && outcome == Some(false) ==> (r matches Err(
                        Error::InvalidCredentials,
                    ))
                    &&& a.password_hash@.len() > u32::MAX ==> (r matches Err(Error::Server(_)))
                    &&& a.password_hash@.len() <= u32::MAX && outcome is None ==> (r matches Err(
                        Error::Server(_),
                    ))
                    &&& r is Ok ==> a.password_hash@.len() <= u32::MAX && outcome == Some(true)
                        && exists|session: Seq<char>, signature: Seq<char>| #[trigger]
                        token_text(
                            claims_text(a.id@, session, (now + lifetime_days * SECONDS_PER_DAY) as nat),
                            signature,
                        ) == r->Ok_0@
                },
            r is Err ==> r->Err_0 is InvalidCredentials || r->Err_0 is Server || r->Err_0 is BadRequest,
            (r matches Err(Error::InvalidCredentials)) ==> !self.has_email(request.email@) || exists|
                i: int,
            |
                0 <= i < self.accounts@.len() && (#[trigger] self.accounts@[i]).email@
                    == request.email@ && verify_outcome(
                    encode_utf8(request.password@),
                    self.accounts@[i].password_hash@,
                    encode_utf8(self.accounts@[i].salt@),
                    *hashing,
                ) == Some(false),
    {
        let i = match self.index_of_email(request.email.as_str()) {
            Some(i) => i,
            None => return Err(Error::InvalidCredentials),
        };
        let account = &self.accounts[i];
        proof {
            assert forall|j: int|
                0 <= j < self.accounts@.len() && (#[trigger] self.accounts@[j]).email@
                    == request.email@ implies j == i as int by {
                if j != i {
                    assert(self.accounts@[j].email@ != self.accounts@[i as int].email@);
                }
            }
        }
        if account.password_hash.len() > u32::MAX as usize {
            return Err(Error::Server("The stored password hash is malformed".to_owned()));
        }
        let matches = verify_password(
            request.password.as_str(),
            account.password_hash.as_slice(),
            account.salt.as_str(),
            hashing,
        )?;
        if !matches {
            return Err(Error::InvalidCredentials);
        }
        issue_token(account.id.as_str(), lifetime_days, now, key)
    }
}

/// No two accounts of a well-formed directory share an id, an email address
/// or a current username.
pub proof fn lemma_identity_unique(db: &InMemoryDatabase, i: int, j: int)
    requires
        db.wf(),
        0 <= i < db.accounts@.len(),
        0 <= j < db.accounts@.len(),
        i != j,
    ensures
        db.accounts@[i].id@ != db.accounts@[j].id@,
        db.accounts@[i].email@ != db.accounts@[j].email@,
        db.accounts@[i].current_name() != db.accounts@[j].current_name(),
{
}

/// Once a friend request has gone through, the same request is already
/// pending, so asking again (with no acceptance between) fails with
/// `AlreadyExisting`.
pub proof fn lemma_request_twice(
    before: &InMemoryDatabase,
    after: &InMemoryDatabase,
    requester: Seq<char>,
    target: Seq<char>,
)
    requires
        before.wf(),
        after.wf(),
        before.has_id(requester),
        before.has_id(target),
        requester != target,
        InMemoryDatabase::request_applied(before, after, requester, target),
    ensures
        after.already_requested(requester, target),
{
    let t = before.index_of(target);
    let q = before.index_of(requester);
    assert(after.accounts@[t].id@ == target);
    assert(after.accounts@[q].id@ == requester);
    assert(account_ids(after.accounts@)[t] == target);
    assert(account_ids(after.accounts@)[q] == requester);
    lemma_index_of(after, t);
    assert(after.accounts@[t].request_ids().last() == requester);
}

/// The account that a registration adds verifies its own password: the
/// stored digest and salt check out under the same hashing parameters, so a
/// login with that password passes the password check.
pub proof fn lemma_registered_password_verifies(
    before: Seq<Account>,
    after: Seq<Account>,
    request: &RegistrationRequest,
    hashing: &HashConfig,
    id: Seq<char>,
)
    requires
        InMemoryDatabase::registered(before, after, request, hashing, id),
    ensures
        after.last().password_hash@.len() <= u32::MAX,
        verify_outcome(
            encode_utf8(request.password@),
            after.last().password_hash@,
            encode_utf8(after.last().salt@),
            *hashing,
        ) == Some(true),
{
    lemma_hash_then_verify(
        encode_utf8(request.password@),
        encode_utf8(after.last().salt@),
        *hashing,
        after.last().password_hash@,
    );
}
} // verus!
