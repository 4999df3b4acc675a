use converza::config::{HashConfig, PasswordConfig};
use converza::directory::{InMemoryDatabase, RegistrationRequest};
use converza::error::Error;
use converza::events::Event;

fn policy() -> PasswordConfig {
    PasswordConfig {
        min_length: 8,
        max_length: 64,
        lowercase: true,
        uppercase: true,
        numbers: true,
        special: true,
        check_hibp: false,
    }
}

fn hashing() -> HashConfig {
    HashConfig {
        memory_cost: 64,
        time_cost: 1,
        length: 32,
        lanes: 1,
        salt_length: 16,
        secret: String::new(),
    }
}

fn request(email: &str, username: &str, password: &str) -> RegistrationRequest {
    RegistrationRequest {
        email: String::from(email),
        username: String::from(username),
        password: String::from(password),
    }
}

fn register(db: &mut InMemoryDatabase, email: &str, username: &str) -> String {
    db.register(&request(email, username, "Str0ng!Pass"), &policy(), &hashing()).unwrap()
}

#[test]
fn friendship_scenario() {
    let mut db = InMemoryDatabase::new();
    let alice = register(&mut db, "alice@example.com", "alice");
    let bob = register(&mut db, "bob@example.com", "bob");
    assert_ne!(alice, bob);
    db.request_friend(&alice, &bob).unwrap();
    let b = db.find_account_by_id(&bob).unwrap();
    assert_eq!(b.friend_requests, vec![alice.clone()]);
    db.accept_request(&bob, &alice).unwrap();
    let a = db.find_account_by_id(&alice).unwrap();
    let b = db.find_account_by_id(&bob).unwrap();
    assert_eq!(a.friends, vec![bob.clone()]);
    assert_eq!(b.friends, vec![alice.clone()]);
    assert!(b.friend_requests.is_empty());
    assert_eq!(db.list_friends(&alice).unwrap(), vec![bob.clone()]);
    assert_eq!(db.list_friends(&bob).unwrap(), vec![alice.clone()]);
}

#[test]
fn weak_password_is_refused_at_registration() {
    let mut db = InMemoryDatabase::new();
    let r = db.register(&request("a@example.com", "a", "abc"), &policy(), &hashing());
    assert!(matches!(r, Err(Error::WeakPassword(_))));
    assert!(db.accounts.is_empty());
}

#[test]
fn weak_password_reason_is_the_first_rule_broken() {
    let mut db = InMemoryDatabase::new();
    let r = db.register(&request("a@example.com", "a", "abc"), &policy(), &hashing());
    assert_eq!(r, Err(Error::WeakPassword(String::from("Password is too short!"))));
}

#[test]
fn registration_keeps_the_account_fields() {
    let mut db = InMemoryDatabase::new();
    let id = register(&mut db, "alice@example.com", "alice");
    let a = db.find_account_by_email("alice@example.com").unwrap();
    assert_eq!(a.id, id);
    assert_eq!(a.username_history, vec![String::from("alice")]);
    assert_eq!(a.password_hash.len(), 32);
    assert_eq!(a.salt.len(), 16);
    assert!(a.friends.is_empty());
    assert!(a.properties.event_sender.is_none());
    assert_eq!(db.find_account_by_name("alice").unwrap().id, id);
}

#[test]
fn taken_email_is_refused() {
    let mut db = InMemoryDatabase::new();
    register(&mut db, "alice@example.com", "alice");
    let r = db.register(&request("alice@example.com", "other", "Str0ng!Pass"), &policy(), &hashing());
    assert!(matches!(r, Err(Error::AlreadyExisting(_))));
    assert_eq!(db.accounts.len(), 1);
}

#[test]
fn taken_username_is_refused() {
    let mut db = InMemoryDatabase::new();
    register(&mut db, "alice@example.com", "alice");
    let r = db.register(&request("other@example.com", "alice", "Str0ng!Pass"), &policy(), &hashing());
    assert!(matches!(r, Err(Error::AlreadyExisting(_))));
}

#[test]
fn email_is_case_sensitive() {
    let mut db = InMemoryDatabase::new();
    register(&mut db, "alice@example.com", "alice");
    register(&mut db, "Alice@example.com", "alice2");
    assert_eq!(db.accounts.len(), 2);
}

#[test]
fn refused_hash_parameters_are_a_server_error() {
    let mut db = InMemoryDatabase::new();
    let mut cfg = hashing();
    cfg.time_cost = 0;
    let r = db.register(&request("a@example.com", "a", "Str0ng!Pass"), &policy(), &cfg);
    assert!(matches!(r, Err(Error::Server(_))));
    assert!(db.accounts.is_empty());
}

#[test]
fn lookups_of_unknown_accounts_fail() {
    let db = InMemoryDatabase::new();
    assert_eq!(db.find_account_by_id("x").err(), Some(Error::NotFound(String::from("User"))));
    assert_eq!(db.find_account_by_email("x").err(), Some(Error::NotFound(String::from("User"))));
    assert_eq!(db.find_account_by_name("x").err(), Some(Error::NotFound(String::from("User"))));
    assert_eq!(db.list_friends("x"), Err(Error::NotFound(String::from("User"))));
}

#[test]
fn second_request_is_already_existing() {
    let mut db = InMemoryDatabase::new();
    let a = register(&mut db, "a@example.com", "a");
    let b = register(&mut db, "b@example.com", "b");
    assert_eq!(db.request_friend(&a, &b), Ok(()));
    assert!(matches!(db.request_friend(&a, &b), Err(Error::AlreadyExisting(_))));
    assert_eq!(db.find_account_by_id(&b).unwrap().friend_requests.len(), 1);
}

#[test]
fn request_to_a_friend_is_a_bad_request() {
    let mut db = InMemoryDatabase::new();
    let a = register(&mut db, "a@example.com", "a");
    let b = register(&mut db, "b@example.com", "b");
    db.request_friend(&a, &b).unwrap();
    db.accept_request(&b, &a).unwrap();
    assert!(matches!(db.request_friend(&a, &b), Err(Error::BadRequest(_))));
    assert!(matches!(db.request_friend(&b, &a), Err(Error::BadRequest(_))));
}

#[test]
fn request_to_oneself_is_a_bad_request() {
    let mut db = InMemoryDatabase::new();
    let a = register(&mut db, "a@example.com", "a");
    assert!(matches!(db.request_friend(&a, &a), Err(Error::BadRequest(_))));
}

#[test]
fn request_with_unknown_account_is_not_found() {
    let mut db = InMemoryDatabase::new();
    let a = register(&mut db, "a@example.com", "a");
    assert!(matches!(db.request_friend(&a, "nobody"), Err(Error::NotFound(_))));
    assert!(matches!(db.request_friend("nobody", &a), Err(Error::NotFound(_))));
}

#[test]
fn accept_without_request_is_not_found() {
    let mut db = InMemoryDatabase::new();
    let a = register(&mut db, "a@example.com", "a");
    let b = register(&mut db, "b@example.com", "b");
    assert!(matches!(db.accept_request(&b, &a), Err(Error::NotFound(_))));
    db.request_friend(&a, &b).unwrap();
    // only the target may accept
    assert!(matches!(db.accept_request(&a, &b), Err(Error::NotFound(_))));
    assert!(db.find_account_by_id(&a).unwrap().friends.is_empty());
}

#[test]
fn crossing_requests_leave_no_pending_friend() {
    let mut db = InMemoryDatabase::new();
    let a = register(&mut db, "a@example.com", "a");
    let b = register(&mut db, "b@example.com", "b");
    db.request_friend(&a, &b).unwrap();
    db.request_friend(&b, &a).unwrap();
    db.accept_request(&b, &a).unwrap();
    assert!(db.find_account_by_id(&a).unwrap().friend_requests.is_empty());
    assert!(db.find_account_by_id(&b).unwrap().friend_requests.is_empty());
}

#[test]
fn subscriber_receives_friend_request() {
    let mut db = InMemoryDatabase::new();
    let x = register(&mut db, "x@example.com", "x");
    let y = register(&mut db, "y@example.com", "y");
    let mut rx = db.subscribe(&x).unwrap();
    db.request_friend(&y, &x).unwrap();
    assert_eq!(rx.try_recv().unwrap(), Event::FriendRequest(y.clone()));
    assert!(rx.try_recv().is_err());
}

#[test]
fn both_sides_hear_of_acceptance() {
    let mut db = InMemoryDatabase::new();
    let x = register(&mut db, "x@example.com", "x");
    let y = register(&mut db, "y@example.com", "y");
    let mut rx_x = db.subscribe(&x).unwrap();
    let mut rx_y = db.subscribe(&y).unwrap();
    db.request_friend(&y, &x).unwrap();
    db.accept_request(&x, &y).unwrap();
    assert_eq!(rx_x.try_recv().unwrap(), Event::FriendRequest(y.clone()));
    assert_eq!(rx_x.try_recv().unwrap(), Event::FriendRequestAccepted(x.clone()));
    assert_eq!(rx_y.try_recv().unwrap(), Event::FriendRequestAccepted(x.clone()));
}

#[test]
fn one_channel_per_account() {
    let mut db = InMemoryDatabase::new();
    let x = register(&mut db, "x@example.com", "x");
    let y = register(&mut db, "y@example.com", "y");
    let mut first = db.subscribe(&x).unwrap();
    let mut second = db.subscribe(&x).unwrap();
    db.request_friend(&y, &x).unwrap();
    assert_eq!(first.try_recv().unwrap(), Event::FriendRequest(y.clone()));
    assert_eq!(second.try_recv().unwrap(), Event::FriendRequest(y.clone()));
    assert!(matches!(db.subscribe("nobody"), Err(Error::NotFound(_))));
}

#[test]
fn publishing_without_subscriber_is_harmless() {
    let mut db = InMemoryDatabase::new();
    let x = register(&mut db, "x@example.com", "x");
    let y = register(&mut db, "y@example.com", "y");
    assert_eq!(db.request_friend(&y, &x), Ok(()));
    let mut rx = db.subscribe(&x).unwrap();
    assert!(rx.try_recv().is_err());
}

#[test]
fn username_change_appends_to_history() {
    let mut db = InMemoryDatabase::new();
    let a = register(&mut db, "a@example.com", "alice");
    db.change_username(&a, String::from("alicia")).unwrap();
    let acc = db.find_account_by_id(&a).unwrap();
    assert_eq!(acc.username_history, vec![String::from("alice"), String::from("alicia")]);
    assert_eq!(acc.current_username(), "alicia");
    assert_eq!(db.find_account_by_name("alicia").unwrap().id, a);
    assert!(db.find_account_by_name("alice").is_err());
}

#[test]
fn username_of_another_account_is_refused() {
    let mut db = InMemoryDatabase::new();
    let a = register(&mut db, "a@example.com", "alice");
    register(&mut db, "b@example.com", "bob");
    assert!(matches!(db.change_username(&a, String::from("bob")), Err(Error::AlreadyExisting(_))));
    assert!(matches!(db.change_username("nobody", String::from("z")), Err(Error::NotFound(_))));
    assert_eq!(db.find_account_by_id(&a).unwrap().username_history.len(), 1);
}

#[test]
fn released_username_can_be_registered_again() {
    let mut db = InMemoryDatabase::new();
    let a = register(&mut db, "a@example.com", "alice");
    db.change_username(&a, String::from("alicia")).unwrap();
    register(&mut db, "b@example.com", "alice");
    assert_eq!(db.accounts.len(), 2);
}

#[test]
fn registration_under_a_given_id() {
    let mut db = InMemoryDatabase::new();
    let r = db.register_with_id(&request("a@example.com", "a", "Str0ng!Pass"), &policy(), &hashing(), String::from("id-1"));
    assert_eq!(r, Ok(String::from("id-1")));
    assert_eq!(db.find_account_by_id("id-1").unwrap().email, "a@example.com");
}

#[test]
fn taken_id_is_a_server_error() {
    let mut db = InMemoryDatabase::new();
    db.register_with_id(&request("a@example.com", "a", "Str0ng!Pass"), &policy(), &hashing(), String::from("id-1"))
        .unwrap();
    let r = db.register_with_id(&request("b@example.com", "b", "Str0ng!Pass"), &policy(), &hashing(), String::from("id-1"));
    assert!(matches!(r, Err(Error::Server(_))));
    assert_eq!(db.accounts.len(), 1);
}

#[test]
fn taken_email_carries_the_entity() {
    let mut db = InMemoryDatabase::new();
    register(&mut db, "alice@example.com", "alice");
    let r = db.register(&request("alice@example.com", "other", "Str0ng!Pass"), &policy(), &hashing());
    assert_eq!(r, Err(Error::AlreadyExisting(String::from("User"))));
}

#[test]
fn unknown_account_texts() {
    let mut db = InMemoryDatabase::new();
    let a = register(&mut db, "a@example.com", "a");
    assert_eq!(db.change_username("nobody", String::from("z")), Err(Error::NotFound(String::from("User"))));
    assert_eq!(db.request_friend(&a, "nobody"), Err(Error::NotFound(String::from("User"))));
    let b = register(&mut db, "b@example.com", "b");
    assert_eq!(db.accept_request(&a, &b), Err(Error::NotFound(String::from("Friend Request"))));
}

#[test]
fn error_status_codes() {
    assert_eq!(Error::NotFound(String::new()).status_code(), 404);
    assert_eq!(Error::Unauthorized(String::new()).status_code(), 401);
    assert_eq!(Error::Server(String::new()).status_code(), 500);
    assert_eq!(Error::AlreadyExisting(String::new()).status_code(), 400);
    assert_eq!(Error::WeakPassword(String::new()).status_code(), 400);
    assert_eq!(Error::InvalidCredentials.status_code(), 400);
    assert_eq!(Error::BadRequest(String::new()).status_code(), 400);
}
