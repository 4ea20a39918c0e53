use stories::identity::{
    after_cache_read, cache_key_for, get_identity_with, CacheDecision, IdentityError,
    IdentityStore,
};
use stories::schema::Me;

fn me(id: u64, name: &str) -> Me {
    Me {
        id,
        name: name.to_string(),
        initials: "XX".to_string(),
        username: name.to_lowercase(),
        email: format!("{}@example.com", name.to_lowercase()),
    }
}

#[test]
fn cache_key_is_prefixed_digest() {
    // sha256 of "hello" in hex, per the digest crate's own documentation.
    assert_eq!(
        cache_key_for("hello"),
        "identity::2cf24dba5fb0a30e26e83b2ac5b9e29e1b161e5c1fa7425e73043362938b9824"
    );
}

#[test]
fn cache_keys_never_echo_the_credential() {
    let key = cache_key_for("token-A");
    assert!(key.starts_with("identity::"));
    assert_eq!(key.len(), "identity::".len() + 64);
    assert!(!key.contains("token-A"));
}

#[test]
fn distinct_credentials_get_distinct_keys() {
    let tokens = ["token-A", "token-B", "token-a", "", "t", "token-A "];
    for (i, a) in tokens.iter().enumerate() {
        for b in tokens.iter().skip(i + 1) {
            assert_ne!(cache_key_for(a), cache_key_for(b), "{} vs {}", a, b);
        }
    }
}

#[test]
fn second_call_skips_the_remote() {
    let mut store = IdentityStore::new();
    let mut remote_calls: u64 = 0;

    let (first, fetched) = get_identity_with(&mut store, "token-A", me(7, "Ada"));
    if fetched {
        remote_calls += 1;
    }
    let (second, fetched_again) = get_identity_with(&mut store, "token-A", me(7, "Ada"));
    if fetched_again {
        remote_calls += 1;
    }

    assert_eq!(remote_calls, 1);
    assert_eq!(first.id, second.id);
    assert_eq!(first.name, second.name);
    assert_eq!(first.initials, second.initials);
    assert_eq!(first.username, second.username);
    assert_eq!(first.email, second.email);
}

#[test]
fn a_stale_entry_stays() {
    let mut store = IdentityStore::new();
    let (_, _) = get_identity_with(&mut store, "token-A", me(7, "Ada"));
    // The remote now answers differently; the cache never notices.
    let (answer, fetched) = get_identity_with(&mut store, "token-A", me(8, "Bob"));
    assert!(!fetched);
    assert_eq!(answer.id, 7);
    assert_eq!(answer.name, "Ada");
}

#[test]
fn different_credentials_do_not_share_entries() {
    let mut store = IdentityStore::new();
    let (_, first_fetched) = get_identity_with(&mut store, "token-A", me(7, "Ada"));
    let (other, other_fetched) = get_identity_with(&mut store, "token-B", me(8, "Bob"));
    assert!(first_fetched);
    assert!(other_fetched);
    assert_eq!(other.id, 8);
    let (back, refetched) = get_identity_with(&mut store, "token-A", me(9, "Eve"));
    assert!(!refetched);
    assert_eq!(back.id, 7);
}

#[test]
fn failures_carry_their_cause() {
    let remote = IdentityError::RemoteLookupFailure("connection refused".to_string());
    assert_eq!(remote.message(), "identity lookup failed: connection refused");
    let write = IdentityError::CacheWriteFailure("disk full".to_string());
    assert_eq!(write.message(), "could not store the fetched identity: disk full");
}

#[test]
fn cache_read_decides_the_fetch() {
    match after_cache_read(Some(me(7, "Ada"))) {
        CacheDecision::UseCached(m) => assert_eq!(m.id, 7),
        CacheDecision::FetchRemote => panic!("a cached record was ignored"),
    }
    match after_cache_read(None) {
        CacheDecision::UseCached(_) => panic!("an absent record was used"),
        CacheDecision::FetchRemote => {}
    }
}
