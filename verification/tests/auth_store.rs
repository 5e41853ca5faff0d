//! The auth store.

use localdb_core::auth::rows::OAuthClientRow;
use localdb_core::auth::{
    AccessRequestRow, AccessRequestState, AuthStore, AuthTokenRow, FakeAuthStore, InviteMode,
    InviteRow, Role, StoreGrantRow, TokenKind, UserRow,
};
use localdb_core::Error;

fn user(id: &str, name: &str) -> UserRow {
    UserRow {
        id: id.to_string(),
        name: name.to_string(),
        role: Role::Member,
        created_at: "2026-06-10T12:00:00Z".to_string(),
    }
}

fn admin(id: &str, name: &str) -> UserRow {
    UserRow {
        role: Role::Admin,
        ..user(id, name)
    }
}

#[test]
fn create_user_rejects_duplicate_name() {
    let mut store = FakeAuthStore::new();
    store.create_user(&user("u1", "alice")).unwrap();
    let err = store.create_user(&user("u2", "alice")).unwrap_err();
    assert!(matches!(err, Error::InvalidRequest { .. }));
}

#[test]
fn poison_next_revoke_makes_revoke_token_report_false_once() {
    let mut store = FakeAuthStore::new();
    let token = AuthTokenRow {
        id: "t1".to_string(),
        user_id: "u1".to_string(),
        kind: TokenKind::Refresh,
        secret_hash: "hash-1".to_string(),
        expires_at: None,
        last_used_at: None,
        revoked_at: None,
        created_at: "2026-06-10T12:00:00Z".to_string(),
        family_id: None,
        rotated_from: None,
    };
    store.insert_token(&token).unwrap();

    store.poison_next_revoke("t1");
    assert!(!store.revoke_token("t1", "2026-06-10T12:00:00Z").unwrap());
    let stored = store.find_token("t1").unwrap().unwrap();
    assert!(stored.revoked_at.is_none());

    assert!(store.revoke_token("t1", "2026-06-10T12:00:00Z").unwrap());
}

#[test]
fn try_delete_user_unless_last_admin_refuses_the_sole_admin() {
    let mut store = FakeAuthStore::new();
    store.create_user(&admin("a1", "only-admin")).unwrap();

    assert!(!store.try_delete_user_unless_last_admin("a1").unwrap());
    assert!(store.get_user("a1").unwrap().is_some());
}

#[test]
fn try_delete_user_unless_last_admin_succeeds_with_another_admin() {
    let mut store = FakeAuthStore::new();
    store.create_user(&admin("a1", "admin1")).unwrap();
    store.create_user(&admin("a2", "admin2")).unwrap();

    assert!(store.try_delete_user_unless_last_admin("a1").unwrap());
    assert!(store.get_user("a1").unwrap().is_none());
    assert!(store.get_user("a2").unwrap().is_some());
}

#[test]
fn try_delete_user_unless_last_admin_allows_deleting_a_member() {
    let mut store = FakeAuthStore::new();
    store.create_user(&admin("a1", "solo-admin")).unwrap();
    store.create_user(&user("m1", "some-member")).unwrap();

    assert!(store.try_delete_user_unless_last_admin("m1").unwrap());
    assert!(store.get_user("m1").unwrap().is_none());
}

#[test]
fn try_delete_user_unless_last_admin_cascades_tokens_and_grants() {
    let mut store = FakeAuthStore::new();
    store.create_user(&admin("a1", "admin1")).unwrap();
    store.create_user(&admin("a2", "admin2")).unwrap();
    store
        .insert_token(&AuthTokenRow {
            id: "t1".to_string(),
            user_id: "a1".to_string(),
            kind: TokenKind::ApiKey,
            secret_hash: "hash-1".to_string(),
            expires_at: None,
            last_used_at: None,
            revoked_at: None,
            created_at: "2026-06-10T12:00:00Z".to_string(),
            family_id: None,
            rotated_from: None,
        })
        .unwrap();
    store
        .grant_store(&StoreGrantRow {
            store_name: "docs".to_string(),
            user_id: "a1".to_string(),
            granted_by: "a2".to_string(),
            created_at: "2026-06-10T12:00:00Z".to_string(),
        })
        .unwrap();

    assert!(store.try_delete_user_unless_last_admin("a1").unwrap());
    assert!(store.list_tokens_for_user("a1").unwrap().is_empty());
    assert!(store.list_grants_for_user("a1").unwrap().is_empty());
}

#[test]
fn try_demote_user_unless_last_admin_refuses_the_sole_admin() {
    let mut store = FakeAuthStore::new();
    store.create_user(&admin("a1", "only-admin")).unwrap();

    assert!(!store.try_demote_user_unless_last_admin("a1").unwrap());
    let reloaded = store.get_user("a1").unwrap().unwrap();
    assert_eq!(reloaded.role, Role::Admin);
}

#[test]
fn try_demote_user_unless_last_admin_succeeds_with_another_admin() {
    let mut store = FakeAuthStore::new();
    store.create_user(&admin("a1", "admin1")).unwrap();
    store.create_user(&admin("a2", "admin2")).unwrap();

    assert!(store.try_demote_user_unless_last_admin("a1").unwrap());
    let reloaded = store.get_user("a1").unwrap().unwrap();
    assert_eq!(reloaded.role, Role::Member);
    let a2 = store.get_user("a2").unwrap().unwrap();
    assert_eq!(a2.role, Role::Admin);
}

#[test]
fn try_demote_user_unless_last_admin_is_a_noop_on_a_member() {
    let mut store = FakeAuthStore::new();
    store.create_user(&admin("a1", "solo-admin")).unwrap();
    store.create_user(&user("m1", "some-member")).unwrap();

    assert!(!store.try_demote_user_unless_last_admin("m1").unwrap());
}

#[test]
fn count_users_reflects_inserts() {
    let mut store = FakeAuthStore::new();
    assert_eq!(store.count_users().unwrap(), 0);
    store.create_user(&user("u1", "alice")).unwrap();
    assert_eq!(store.count_users().unwrap(), 1);
}

fn access_request(id: &str, invite_id: &str) -> AccessRequestRow {
    AccessRequestRow {
        id: id.to_string(),
        invite_id: invite_id.to_string(),
        requested_name: "someone".to_string(),
        secret_hash: "req-hash".to_string(),
        state: AccessRequestState::Pending,
        resulting_user_id: None,
        created_at: "2026-06-10T12:00:00Z".to_string(),
        decided_at: None,
        collected_at: None,
    }
}

#[test]
fn try_decide_access_request_transitions_pending_once() {
    let mut store = FakeAuthStore::new();
    store
        .create_access_request(&access_request("ar1", "i1"))
        .unwrap();

    assert!(store
        .try_decide_access_request(
            "ar1",
            AccessRequestState::Approved,
            Some("u1"),
            "2026-06-11T00:00:00Z",
        )
        .unwrap());
    let found = store.find_access_request("ar1").unwrap().unwrap();
    assert_eq!(found.state, AccessRequestState::Approved);
    assert_eq!(found.resulting_user_id.as_deref(), Some("u1"));

    assert!(!store
        .try_decide_access_request(
            "ar1",
            AccessRequestState::Denied,
            None,
            "2026-06-11T00:00:01Z",
        )
        .unwrap());
    let unchanged = store.find_access_request("ar1").unwrap().unwrap();
    assert_eq!(unchanged.state, AccessRequestState::Approved);
}

#[test]
fn poison_next_decide_makes_try_decide_report_false_once() {
    let mut store = FakeAuthStore::new();
    store
        .create_access_request(&access_request("ar1", "i1"))
        .unwrap();

    store.poison_next_decide("ar1");
    assert!(!store
        .try_decide_access_request(
            "ar1",
            AccessRequestState::Approved,
            Some("u1"),
            "2026-06-11T00:00:00Z",
        )
        .unwrap());
    let untouched = store.find_access_request("ar1").unwrap().unwrap();
    assert_eq!(untouched.state, AccessRequestState::Pending);

    assert!(store
        .try_decide_access_request(
            "ar1",
            AccessRequestState::Approved,
            Some("u1"),
            "2026-06-11T00:00:01Z",
        )
        .unwrap());
}

#[test]
fn poison_next_collect_makes_mark_collected_report_false_once() {
    let mut store = FakeAuthStore::new();
    store
        .create_access_request(&access_request("ar1", "i1"))
        .unwrap();
    store
        .try_decide_access_request(
            "ar1",
            AccessRequestState::Approved,
            Some("u1"),
            "2026-06-11T00:00:00Z",
        )
        .unwrap();

    store.poison_next_collect("ar1");
    assert!(!store
        .mark_access_request_collected("ar1", "2026-06-11T00:00:01Z")
        .unwrap());
    let untouched = store.find_access_request("ar1").unwrap().unwrap();
    assert!(untouched.collected_at.is_none());

    assert!(store
        .mark_access_request_collected("ar1", "2026-06-11T00:00:02Z")
        .unwrap());
}

#[test]
fn poison_next_insert_token_fails_the_next_insert_only() {
    let mut store = FakeAuthStore::new();
    let token = AuthTokenRow {
        id: "t1".to_string(),
        user_id: "u1".to_string(),
        kind: TokenKind::ApiKey,
        secret_hash: "hash-1".to_string(),
        expires_at: None,
        last_used_at: None,
        revoked_at: None,
        created_at: "2026-06-10T12:00:00Z".to_string(),
        family_id: None,
        rotated_from: None,
    };

    store.poison_next_insert_token();
    assert!(store.insert_token(&token).is_err());
    assert!(store.find_token("t1").unwrap().is_none());

    store.insert_token(&token).unwrap();
    assert!(store.find_token("t1").unwrap().is_some());
}

#[test]
fn revoke_store_grant_returns_false_when_absent() {
    let mut store = FakeAuthStore::new();
    assert!(!store.revoke_store_grant("docs", "u1").unwrap());
}

#[test]
fn grant_store_is_idempotent_per_store_user_pair() {
    let mut store = FakeAuthStore::new();
    let grant = StoreGrantRow {
        store_name: "docs".to_string(),
        user_id: "u1".to_string(),
        granted_by: "admin".to_string(),
        created_at: "2026-06-10T12:00:00Z".to_string(),
    };
    store.grant_store(&grant).unwrap();
    store.grant_store(&grant).unwrap();
    let grants = store.list_grants_for_user("u1").unwrap();
    assert_eq!(grants.len(), 1, "re-granting must not duplicate the row");
}
