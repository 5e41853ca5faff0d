//! The policy over the auth store.

use localdb_core::auth::client::LOCALDB_CLI_CLIENT_ID;
use localdb_core::auth::rows::AuthCodeRow;
use localdb_core::auth::service::{PollOutcome, RedeemOutcome};
use localdb_core::auth::token::generate_pkce_pair;
use localdb_core::auth::{
    mint_secret, rfc3339_from_now, AuthService, AuthStore, AuthTokenRow, FakeAuthStore,
    InviteMode, InviteRow, IssuedInvite, Principal, Role, StoreAccess, TokenKind, TOKEN_PREFIX,
};
use localdb_core::clock::now_rfc3339;
use localdb_core::ids::new_ulid;
use localdb_core::types::StoreVisibility;
use localdb_core::Error;

fn service() -> AuthService<FakeAuthStore> {
    AuthService::new(FakeAuthStore::new())
}

#[test]
fn create_user_then_issue_api_key_authenticates() {
    let mut svc = service();
    let user = svc.create_user("alice", Role::Admin).unwrap();
    let issued = svc.issue_api_key(&user.id).unwrap();
    let principal = svc.authenticate(&issued.secret).unwrap();
    assert_eq!(principal.user_id, user.id);
    assert_eq!(principal.role, Role::Admin);
    assert_eq!(principal.access, StoreAccess::All);
}

#[test]
fn duplicate_user_name_rejected() {
    let mut svc = service();
    svc.create_user("alice", Role::Admin).unwrap();
    let err = svc.create_user("alice", Role::Member).unwrap_err();
    assert!(matches!(err, Error::InvalidRequest { .. }));
}

#[test]
fn wrong_secret_fails_authenticate() {
    let mut svc = service();
    let user = svc.create_user("bob", Role::Member).unwrap();
    svc.issue_api_key(&user.id).unwrap();
    let err = svc.authenticate("ldb_not-a-real-secret").unwrap_err();
    assert!(matches!(err, Error::Unauthorized { .. }));
}

#[test]
fn expired_token_rejected() {
    let mut svc = service();
    let user = svc.create_user("carol", Role::Member).unwrap();
    let minted = mint_secret();
    let row = AuthTokenRow {
        id: new_ulid(),
        user_id: user.id.clone(),
        kind: TokenKind::Access,
        secret_hash: minted.hash.clone(),
        expires_at: Some(rfc3339_from_now(-10)),
        last_used_at: None,
        revoked_at: None,
        created_at: now_rfc3339(),
        family_id: None,
        rotated_from: None,
    };
    svc.store.insert_token(&row).unwrap();
    let err = svc.authenticate(&minted.secret).unwrap_err();
    assert!(matches!(err, Error::Unauthorized { .. }));
}

#[test]
fn revoked_token_rejected() {
    let mut svc = service();
    let user = svc.create_user("dave", Role::Member).unwrap();
    let issued = svc.issue_api_key(&user.id).unwrap();
    svc.store.revoke_token(&issued.row.id, "2026-06-10T12:00:00Z").unwrap();
    let err = svc.authenticate(&issued.secret).unwrap_err();
    assert!(matches!(err, Error::Unauthorized { .. }));
}

#[test]
fn api_key_last_used_updated_on_authenticate() {
    let mut svc = service();
    let user = svc.create_user("erin", Role::Admin).unwrap();
    let issued = svc.issue_api_key(&user.id).unwrap();
    assert!(issued.row.last_used_at.is_none());
    svc.authenticate(&issued.secret).unwrap();
    let stored = svc
        .store
        .find_token_by_hash(&issued.row.secret_hash)
        .unwrap()
        .unwrap();
    assert!(stored.last_used_at.is_some());
}

#[test]
fn access_token_last_used_not_touched() {
    let mut svc = service();
    let user = svc.create_user("felix", Role::Admin).unwrap();
    let issued = svc.issue_access_token(&user.id).unwrap();
    svc.authenticate(&issued.secret).unwrap();
    let stored = svc
        .store
        .find_token_by_hash(&issued.row.secret_hash)
        .unwrap()
        .unwrap();
    assert!(stored.last_used_at.is_none());
}

#[test]
fn refresh_rotation_happy_path() {
    let mut svc = service();
    let user = svc.create_user("frank", Role::Admin).unwrap();
    let refresh = svc.issue_refresh_token(&user.id).unwrap();

    let (new_access, new_refresh) = svc.rotate_refresh_token(&refresh.secret).unwrap();

    assert_eq!(new_refresh.row.family_id, refresh.row.family_id);
    assert_eq!(new_refresh.row.rotated_from, Some(refresh.row.id.clone()));

    let principal = svc.authenticate(&new_access.secret).unwrap();
    assert_eq!(principal.user_id, user.id);

    let old = svc
        .store
        .find_token_by_hash(&refresh.row.secret_hash)
        .unwrap()
        .unwrap();
    assert!(old.revoked_at.is_some());
}

#[test]
fn reused_rotated_refresh_token_revokes_family_and_fails() {
    let mut svc = service();
    let user = svc.create_user("gina", Role::Admin).unwrap();
    let refresh = svc.issue_refresh_token(&user.id).unwrap();

    let (_new_access, new_refresh) = svc.rotate_refresh_token(&refresh.secret).unwrap();

    let err = svc.rotate_refresh_token(&refresh.secret).unwrap_err();
    assert!(matches!(err, Error::Unauthorized { .. }));

    let rotated = svc
        .store
        .find_token_by_hash(&new_refresh.row.secret_hash)
        .unwrap()
        .unwrap();
    assert!(
        rotated.revoked_at.is_some(),
        "reuse must revoke the entire family"
    );

    let err = svc.authenticate(&new_refresh.secret).unwrap_err();
    assert!(matches!(err, Error::Unauthorized { .. }));
}

#[test]
fn grant_policy_matrix() {
    let mut svc = service();
    let admin = Principal {
        user_id: "admin-1".into(),
        name: "admin".into(),
        role: Role::Admin,
        access: StoreAccess::All,
    };
    let member_with_grant = Principal {
        user_id: "m1".into(),
        name: "member1".into(),
        role: Role::Member,
        access: StoreAccess::Granted(["docs".to_string()].into_iter().collect()),
    };
    let member_no_grant = Principal {
        user_id: "m2".into(),
        name: "member2".into(),
        role: Role::Member,
        access: StoreAccess::Granted(Default::default()),
    };

    assert!(svc.can_read_store(&admin, "docs", StoreVisibility::Shared));
    assert!(svc.can_read_store(&admin, "secret", StoreVisibility::Private));

    assert!(svc.can_read_store(&member_with_grant, "docs", StoreVisibility::Shared));
    assert!(!svc.can_read_store(&member_no_grant, "docs", StoreVisibility::Shared));
    assert!(!svc.can_read_store(&member_with_grant, "docs", StoreVisibility::Private));
}

#[test]
fn grant_store_rejects_private_visibility() {
    let mut svc = service();
    let err = svc
        .grant_store(
            "secret-store",
            StoreVisibility::Private,
            "user-1",
            "admin-1",
        )
        .unwrap_err();
    assert!(matches!(err, Error::Forbidden { .. }));
}

#[test]
fn grant_store_allows_shared_visibility() {
    let mut svc = service();
    svc.grant_store("docs", StoreVisibility::Shared, "user-1", "admin-1")
        .unwrap();
    let grants = svc.store.list_grants_for_user("user-1").unwrap();
    assert_eq!(grants.len(), 1);
    assert_eq!(grants[0].store_name, "docs");
}

#[test]
fn revoke_store_removes_grant() {
    let mut svc = service();
    svc.grant_store("docs", StoreVisibility::Shared, "user-1", "admin-1")
        .unwrap();
    let removed = svc.revoke_store("docs", "user-1").unwrap();
    assert!(removed);
    let grants = svc.store.list_grants_for_user("user-1").unwrap();
    assert!(grants.is_empty());
}

#[test]
fn member_principal_reflects_grants_after_authenticate() {
    let mut svc = service();
    let user = svc.create_user("hank", Role::Member).unwrap();
    svc.grant_store("docs", StoreVisibility::Shared, &user.id, "admin-1")
        .unwrap();
    let issued = svc.issue_api_key(&user.id).unwrap();
    let principal = svc.authenticate(&issued.secret).unwrap();
    assert!(principal.can_read_store("docs", StoreVisibility::Shared));
    assert!(!principal.can_read_store("other", StoreVisibility::Shared));
}

#[test]
fn issue_and_redeem_auth_code_happy_path() {
    let mut svc = service();
    let user = svc.create_user("ivy", Role::Admin).unwrap();
    let (verifier, challenge) = generate_pkce_pair();

    let issued = svc
        .issue_auth_code(
            "localdb-cli",
            &user.id,
            "http://127.0.0.1:1234/cb",
            &challenge,
        )
        .unwrap();

    let redeemed = svc
        .redeem_auth_code(
            &issued.secret,
            "localdb-cli",
            "http://127.0.0.1:1234/cb",
            &verifier,
        )
        .unwrap();
    assert_eq!(redeemed.id, user.id);
}

#[test]
fn redeem_auth_code_wrong_verifier_fails() {
    let mut svc = service();
    let user = svc.create_user("jack", Role::Admin).unwrap();
    let (_verifier, challenge) = generate_pkce_pair();
    let issued = svc
        .issue_auth_code("localdb-cli", &user.id, "http://127.0.0.1:1/cb", &challenge)
        .unwrap();

    let err = svc
        .redeem_auth_code(
            &issued.secret,
            "localdb-cli",
            "http://127.0.0.1:1/cb",
            "wrong-verifier",
        )
        .unwrap_err();
    assert!(matches!(err, Error::Unauthorized { .. }));
}

#[test]
fn redeem_auth_code_is_single_use() {
    let mut svc = service();
    let user = svc.create_user("kim", Role::Admin).unwrap();
    let (verifier, challenge) = generate_pkce_pair();
    let issued = svc
        .issue_auth_code("localdb-cli", &user.id, "http://127.0.0.1:1/cb", &challenge)
        .unwrap();

    svc.redeem_auth_code(
        &issued.secret,
        "localdb-cli",
        "http://127.0.0.1:1/cb",
        &verifier,
    )
    .unwrap();

    let err = svc
        .redeem_auth_code(
            &issued.secret,
            "localdb-cli",
            "http://127.0.0.1:1/cb",
            &verifier,
        )
        .unwrap_err();
    assert!(matches!(err, Error::Unauthorized { .. }));
}

#[test]
fn redeem_auth_code_expired_fails() {
    let mut svc = service();
    let user = svc.create_user("liam", Role::Admin).unwrap();
    let (verifier, challenge) = generate_pkce_pair();
    let minted = mint_secret();
    let row = AuthCodeRow {
        id: new_ulid(),
        client_id: "localdb-cli".to_string(),
        user_id: user.id.clone(),
        code_hash: minted.hash.clone(),
        code_challenge: challenge,
        code_challenge_method: "S256".to_string(),
        redirect_uri: "http://127.0.0.1:1/cb".to_string(),
        expires_at: rfc3339_from_now(-10),
        consumed_at: None,
        created_at: now_rfc3339(),
    };
    svc.store.create_auth_code(&row).unwrap();

    let err = svc
        .redeem_auth_code(
            &minted.secret,
            "localdb-cli",
            "http://127.0.0.1:1/cb",
            &verifier,
        )
        .unwrap_err();
    assert!(matches!(err, Error::Unauthorized { .. }));
}

#[test]
fn redeem_auth_code_client_id_mismatch_fails() {
    let mut svc = service();
    let user = svc.create_user("mona", Role::Admin).unwrap();
    let (verifier, challenge) = generate_pkce_pair();
    let issued = svc
        .issue_auth_code("localdb-cli", &user.id, "http://127.0.0.1:1/cb", &challenge)
        .unwrap();

    let err = svc
        .redeem_auth_code(
            &issued.secret,
            "some-other-client",
            "http://127.0.0.1:1/cb",
            &verifier,
        )
        .unwrap_err();
    assert!(matches!(err, Error::Unauthorized { .. }));
}

#[test]
fn redeem_auth_code_redirect_uri_mismatch_fails() {
    let mut svc = service();
    let user = svc.create_user("nora", Role::Admin).unwrap();
    let (verifier, challenge) = generate_pkce_pair();
    let issued = svc
        .issue_auth_code("localdb-cli", &user.id, "http://127.0.0.1:1/cb", &challenge)
        .unwrap();

    let err = svc
        .redeem_auth_code(
            &issued.secret,
            "localdb-cli",
            "http://127.0.0.1:9999/cb",
            &verifier,
        )
        .unwrap_err();
    assert!(matches!(err, Error::Unauthorized { .. }));
}

#[test]
fn redeem_auth_code_unknown_code_fails() {
    let mut svc = service();
    let err = svc
        .redeem_auth_code(
            "ldb_not-a-real-code",
            "localdb-cli",
            "http://127.0.0.1:1/cb",
            "v",
        )
        .unwrap_err();
    assert!(matches!(err, Error::Unauthorized { .. }));
}

#[test]
fn revoke_by_secret_revokes_api_key() {
    let mut svc = service();
    let user = svc.create_user("oscar", Role::Admin).unwrap();
    let issued = svc.issue_api_key(&user.id).unwrap();

    assert!(svc.revoke_by_secret(&issued.secret).unwrap());
    let err = svc.authenticate(&issued.secret).unwrap_err();
    assert!(matches!(err, Error::Unauthorized { .. }));
}

#[test]
fn revoke_by_secret_revokes_whole_refresh_family() {
    let mut svc = service();
    let user = svc.create_user("pia", Role::Admin).unwrap();
    let refresh = svc.issue_refresh_token(&user.id).unwrap();
    let (_new_access, new_refresh) = svc.rotate_refresh_token(&refresh.secret).unwrap();

    assert!(svc.revoke_by_secret(&new_refresh.secret).unwrap());

    let err = svc
        .rotate_refresh_token(&new_refresh.secret)
        .unwrap_err();
    assert!(matches!(err, Error::Unauthorized { .. }));
}

#[test]
fn revoke_by_secret_unknown_token_returns_false() {
    let mut svc = service();
    assert!(!svc.revoke_by_secret("ldb_unknown").unwrap());
}

#[test]
fn revoke_by_secret_already_revoked_returns_false() {
    let mut svc = service();
    let user = svc.create_user("quinn", Role::Admin).unwrap();
    let issued = svc.issue_api_key(&user.id).unwrap();
    assert!(svc.revoke_by_secret(&issued.secret).unwrap());
    assert!(!svc.revoke_by_secret(&issued.secret).unwrap());
}

#[test]
fn delete_user_refuses_the_last_admin() {
    let mut svc = service();
    let admin = svc.create_user("only-admin", Role::Admin).unwrap();

    let err = svc.delete_user(&admin.id).unwrap_err();
    assert!(matches!(err, Error::InvalidRequest { .. }));
    assert!(svc.store.get_user(&admin.id).unwrap().is_some());
}

#[test]
fn delete_user_allows_a_non_last_admin() {
    let mut svc = service();
    let admin1 = svc.create_user("admin1", Role::Admin).unwrap();
    let admin2 = svc.create_user("admin2", Role::Admin).unwrap();

    assert!(svc.delete_user(&admin1.id).unwrap());
    assert!(svc.store.get_user(&admin2.id).unwrap().is_some());
}

#[test]
fn delete_user_allows_deleting_a_member() {
    let mut svc = service();
    let admin = svc.create_user("solo-admin", Role::Admin).unwrap();
    let member = svc.create_user("some-member", Role::Member).unwrap();

    assert!(svc.delete_user(&member.id).unwrap());
    assert!(svc.store.get_user(&admin.id).unwrap().is_some());
}

#[test]
fn set_user_role_refuses_to_demote_the_last_admin() {
    let mut svc = service();
    let admin = svc.create_user("only-admin2", Role::Admin).unwrap();

    let err = svc
        .set_user_role(&admin.id, Role::Member)
        .unwrap_err();
    assert!(matches!(err, Error::InvalidRequest { .. }));
    let reloaded = svc.store.get_user(&admin.id).unwrap().unwrap();
    assert_eq!(reloaded.role, Role::Admin, "role must be unchanged");
}

#[test]
fn set_user_role_allows_demoting_a_non_last_admin() {
    let mut svc = service();
    let admin1 = svc.create_user("admin1b", Role::Admin).unwrap();
    let admin2 = svc.create_user("admin2b", Role::Admin).unwrap();

    svc.set_user_role(&admin1.id, Role::Member).unwrap();
    let reloaded = svc.store.get_user(&admin1.id).unwrap().unwrap();
    assert_eq!(reloaded.role, Role::Member);
    let admin2_reloaded = svc.store.get_user(&admin2.id).unwrap().unwrap();
    assert_eq!(admin2_reloaded.role, Role::Admin);
}

#[test]
fn set_user_role_allows_promoting_a_member_to_admin() {
    let mut svc = service();
    svc.create_user("solo-admin2", Role::Admin).unwrap();
    let member = svc.create_user("promotable", Role::Member).unwrap();

    svc.set_user_role(&member.id, Role::Admin).unwrap();
    let reloaded = svc.store.get_user(&member.id).unwrap().unwrap();
    assert_eq!(reloaded.role, Role::Admin);
}

#[test]
fn create_invite_mints_a_show_once_secret() {
    let mut svc = service();
    let issued = svc
        .create_invite(
            InviteMode::Open,
            &[("docs".to_string(), StoreVisibility::Shared)],
            1,
            None,
            "admin-1",
        )
        .unwrap();
    assert!(issued.secret.starts_with(TOKEN_PREFIX));
    assert_eq!(issued.row.uses, 0);
    assert_eq!(issued.row.max_uses, 1);
    assert_eq!(issued.row.store_grants, vec!["docs".to_string()]);
}

#[test]
fn create_invite_rejects_private_store_grant() {
    let mut svc = service();
    let err = svc
        .create_invite(
            InviteMode::Open,
            &[("secret-store".to_string(), StoreVisibility::Private)],
            1,
            None,
            "admin-1",
        )
        .unwrap_err();
    assert!(matches!(err, Error::Forbidden { .. }));
}

#[test]
fn create_invite_rejects_zero_max_uses() {
    let mut svc = service();
    let err = svc
        .create_invite(InviteMode::Open, &[], 0, None, "admin-1")
        .unwrap_err();
    assert!(matches!(err, Error::InvalidRequest { .. }));
}

fn make_open_invite(svc: &mut AuthService<FakeAuthStore>, max_uses: u32) -> IssuedInvite {
    svc.create_invite(
        InviteMode::Open,
        &[("docs".to_string(), StoreVisibility::Shared)],
        max_uses,
        None,
        "admin-1",
    )
    .unwrap()
}

fn make_closed_invite(svc: &mut AuthService<FakeAuthStore>, max_uses: u32) -> IssuedInvite {
    svc.create_invite(
        InviteMode::Closed,
        &[("docs".to_string(), StoreVisibility::Shared)],
        max_uses,
        None,
        "admin-1",
    )
    .unwrap()
}

#[test]
fn redeem_open_invite_happy_path_creates_user_grants_and_credential() {
    let mut svc = service();
    let issued = make_open_invite(&mut svc, 1);

    let outcome = svc.redeem_invite(&issued.secret, "newbie").unwrap();
    let RedeemOutcome::Open {
        user,
        grants,
        credential,
    } = outcome
    else {
        panic!("expected Open outcome");
    };
    assert_eq!(user.name, "newbie");
    assert_eq!(user.role, Role::Member);
    assert_eq!(grants, vec!["docs".to_string()]);
    assert!(credential.secret.starts_with(TOKEN_PREFIX));

    let principal = svc.authenticate(&credential.secret).unwrap();
    assert_eq!(principal.user_id, user.id);
    assert!(principal.can_read_store("docs", StoreVisibility::Shared));

    let invite = svc
        .store
        .find_invite(&issued.row.id)
        .unwrap()
        .unwrap();
    assert_eq!(invite.uses, 1);
}

#[test]
fn redeem_open_invite_max_uses_one_double_redeem_fails() {
    let mut svc = service();
    let issued = make_open_invite(&mut svc, 1);

    svc.redeem_invite(&issued.secret, "first").unwrap();
    let err = svc
        .redeem_invite(&issued.secret, "second")
        .unwrap_err();
    assert!(matches!(err, Error::Unauthorized { .. }));
}

#[test]
fn redeem_open_invite_max_uses_two_allows_two_distinct_names() {
    let mut svc = service();
    let issued = make_open_invite(&mut svc, 2);

    svc.redeem_invite(&issued.secret, "first").unwrap();
    svc.redeem_invite(&issued.secret, "second").unwrap();
    let invite = svc
        .store
        .find_invite(&issued.row.id)
        .unwrap()
        .unwrap();
    assert_eq!(invite.uses, 2);
}

#[test]
fn redeem_invite_rejects_duplicate_requested_name() {
    let mut svc = service();
    svc.create_user("taken", Role::Member).unwrap();
    let issued = make_open_invite(&mut svc, 5);

    let err = svc
        .redeem_invite(&issued.secret, "taken")
        .unwrap_err();
    assert!(matches!(err, Error::InvalidRequest { .. }));
}

#[test]
fn redeem_invite_unknown_token_fails() {
    let mut svc = service();
    let err = svc
        .redeem_invite("ldb_not-a-real-invite", "someone")
        .unwrap_err();
    assert!(matches!(err, Error::Unauthorized { .. }));
}

#[test]
fn redeem_invite_revoked_fails() {
    let mut svc = service();
    let issued = make_open_invite(&mut svc, 1);
    svc.store.revoke_invite(&issued.row.id, "2026-06-10T12:00:00Z").unwrap();

    let err = svc
        .redeem_invite(&issued.secret, "someone")
        .unwrap_err();
    assert!(matches!(err, Error::Unauthorized { .. }));
}

#[test]
fn redeem_invite_expired_fails() {
    let mut svc = service();
    let minted = mint_secret();
    let invite = InviteRow {
        id: new_ulid(),
        token_hash: minted.hash,
        mode: InviteMode::Open,
        store_grants: vec![],
        max_uses: 1,
        uses: 0,
        expires_at: Some(rfc3339_from_now(-10)),
        revoked_at: None,
        created_by: "admin-1".to_string(),
        created_at: now_rfc3339(),
    };
    svc.store.create_invite(&invite).unwrap();

    let err = svc
        .redeem_invite(&minted.secret, "someone")
        .unwrap_err();
    assert!(matches!(err, Error::Unauthorized { .. }));
}

#[test]
fn redeem_closed_invite_happy_path_files_pending_request() {
    let mut svc = service();
    let issued = make_closed_invite(&mut svc, 1);

    let outcome = svc
        .redeem_invite(&issued.secret, "requester")
        .unwrap();
    let RedeemOutcome::Closed {
        request_id,
        request_secret,
    } = outcome
    else {
        panic!("expected Closed outcome");
    };
    assert!(request_secret.starts_with(TOKEN_PREFIX));

    let poll = svc
        .poll_request(&request_id, &request_secret)
        .unwrap();
    assert_eq!(poll, PollOutcome::Pending);
}

#[test]
fn closed_invite_approve_then_poll_once_then_already_collected() {
    let mut svc = service();
    let issued = make_closed_invite(&mut svc, 1);
    let RedeemOutcome::Closed {
        request_id,
        request_secret,
    } = svc
        .redeem_invite(&issued.secret, "requester")
        .unwrap()
    else {
        panic!("expected Closed outcome");
    };

    let user = svc.approve_request(&request_id).unwrap();
    assert_eq!(user.name, "requester");
    assert_eq!(user.role, Role::Member);
    assert!(svc.store.get_user(&user.id).unwrap().is_some());

    let first = svc
        .poll_request(&request_id, &request_secret)
        .unwrap();
    let PollOutcome::Approved { credential } = first else {
        panic!("expected Approved on first post-approval poll, got {first:?}");
    };
    assert_ne!(
        credential, request_secret,
        "the poll-only request secret must never become the live credential"
    );

    let principal = svc.authenticate(&credential).unwrap();
    assert_eq!(principal.user_id, user.id);
    assert!(principal.can_read_store("docs", StoreVisibility::Shared));

    let second = svc
        .poll_request(&request_id, &request_secret)
        .unwrap();
    assert_eq!(second, PollOutcome::AlreadyCollected);
}

#[test]
fn closed_invite_request_secret_never_authenticates() {
    let mut svc = service();
    let issued = make_closed_invite(&mut svc, 1);
    let RedeemOutcome::Closed {
        request_id,
        request_secret,
    } = svc
        .redeem_invite(&issued.secret, "requester")
        .unwrap()
    else {
        panic!("expected Closed outcome");
    };

    let err = svc.authenticate(&request_secret).unwrap_err();
    assert!(matches!(err, Error::Unauthorized { .. }));

    svc.approve_request(&request_id).unwrap();

    let err = svc.authenticate(&request_secret).unwrap_err();
    assert!(matches!(err, Error::Unauthorized { .. }));

    svc.poll_request(&request_id, &request_secret)
        .unwrap();

    let err = svc.authenticate(&request_secret).unwrap_err();
    assert!(matches!(err, Error::Unauthorized { .. }));
}

#[test]
fn closed_invite_approve_without_poll_mints_no_api_key_token() {
    let mut svc = service();
    let issued = make_closed_invite(&mut svc, 1);
    let RedeemOutcome::Closed { request_id, .. } = svc
        .redeem_invite(&issued.secret, "requester")
        .unwrap()
    else {
        panic!("expected Closed outcome");
    };

    let user = svc.approve_request(&request_id).unwrap();

    let tokens = svc.store.list_tokens_for_user(&user.id).unwrap();
    assert!(
        tokens.is_empty(),
        "approval alone must not mint any credential for the new user"
    );
}

#[test]
fn closed_invite_deny_then_poll_denied() {
    let mut svc = service();
    let issued = make_closed_invite(&mut svc, 1);
    let RedeemOutcome::Closed {
        request_id,
        request_secret,
    } = svc
        .redeem_invite(&issued.secret, "requester")
        .unwrap()
    else {
        panic!("expected Closed outcome");
    };

    svc.deny_request(&request_id).unwrap();
    let poll = svc
        .poll_request(&request_id, &request_secret)
        .unwrap();
    assert_eq!(poll, PollOutcome::Denied);

    assert!(svc
        .store
        .get_user_by_name("requester")
        .unwrap()
        .is_none());
}

#[test]
fn approve_request_twice_fails() {
    let mut svc = service();
    let issued = make_closed_invite(&mut svc, 1);
    let RedeemOutcome::Closed { request_id, .. } = svc
        .redeem_invite(&issued.secret, "requester")
        .unwrap()
    else {
        panic!("expected Closed outcome");
    };

    svc.approve_request(&request_id).unwrap();
    let err = svc.approve_request(&request_id).unwrap_err();
    assert!(matches!(err, Error::InvalidRequest { .. }));
}

#[test]
fn deny_request_unknown_id_fails() {
    let mut svc = service();
    let err = svc.deny_request("nonexistent").unwrap_err();
    assert!(matches!(err, Error::InvalidRequest { .. }));
}

#[test]
fn poll_request_wrong_secret_fails() {
    let mut svc = service();
    let issued = make_closed_invite(&mut svc, 1);
    let RedeemOutcome::Closed { request_id, .. } = svc
        .redeem_invite(&issued.secret, "requester")
        .unwrap()
    else {
        panic!("expected Closed outcome");
    };

    let err = svc
        .poll_request(&request_id, "ldb_wrong-secret")
        .unwrap_err();
    assert!(matches!(err, Error::Unauthorized { .. }));
}

#[test]
fn poll_request_unknown_id_and_wrong_secret_are_indistinguishable() {
    let mut svc = service();
    let issued = make_closed_invite(&mut svc, 1);
    let RedeemOutcome::Closed { request_id, .. } = svc
        .redeem_invite(&issued.secret, "requester")
        .unwrap()
    else {
        panic!("expected Closed outcome");
    };

    let unknown_id_err = svc
        .poll_request("totally-unknown-id", "ldb_whatever")
        .unwrap_err();
    let wrong_secret_err = svc
        .poll_request(&request_id, "ldb_wrong-secret")
        .unwrap_err();

    assert!(matches!(unknown_id_err, Error::Unauthorized { .. }));
    assert!(matches!(wrong_secret_err, Error::Unauthorized { .. }));
    assert_eq!(unknown_id_err.to_string(), wrong_secret_err.to_string());
}

#[test]
fn create_invite_with_grants_on_shared_store_then_redeem_grants_access() {
    let mut svc = service();
    let issued = svc
        .create_invite(
            InviteMode::Open,
            &[("docs".to_string(), StoreVisibility::Shared)],
            1,
            None,
            "admin-1",
        )
        .unwrap();
    let RedeemOutcome::Open { user, .. } =
        svc.redeem_invite(&issued.secret, "grantee").unwrap()
    else {
        panic!("expected Open outcome");
    };
    let grants = svc.store.list_grants_for_user(&user.id).unwrap();
    assert_eq!(grants.len(), 1);
    assert_eq!(grants[0].store_name, "docs");
}

#[test]
fn is_known_client_recognizes_builtin_and_registered() {
    let mut svc = service();
    assert!(svc.is_known_client(LOCALDB_CLI_CLIENT_ID).unwrap());
    assert!(!svc.is_known_client("nonexistent").unwrap());

    let registered = svc
        .register_client(
            vec!["http://127.0.0.1:4000/cb".to_string()],
            Some("Test Client".to_string()),
        )
        .unwrap();
    assert!(svc.is_known_client(&registered.id).unwrap());
}

#[test]
fn register_client_rejects_empty_redirect_uris() {
    let mut svc = service();
    let err = svc.register_client(vec![], None).unwrap_err();
    assert!(matches!(err, Error::InvalidRequest { .. }));
}

#[test]
fn register_client_rejects_invalid_redirect_uri() {
    let mut svc = service();
    let err = svc
        .register_client(vec!["http://evil.com/cb".to_string()], None)
        .unwrap_err();
    assert!(matches!(err, Error::InvalidRequest { .. }));
}

#[test]
fn register_client_accepts_https_and_loopback() {
    let mut svc = service();
    let row = svc
        .register_client(
            vec![
                "https://app.example.com/cb".to_string(),
                "http://127.0.0.1:9999/cb".to_string(),
            ],
            Some("Multi Redirect Client".to_string()),
        )
        .unwrap();
    assert_eq!(row.redirect_uris.len(), 2);
    assert!(!row.id.is_empty());
}

#[test]
fn validate_client_redirect_uri_registered_client_exact_match_only() {
    let mut svc = service();
    let row = svc
        .register_client(vec!["https://app.example.com/cb".to_string()], None)
        .unwrap();

    assert!(svc
        .validate_client_redirect_uri(&row.id, "https://app.example.com/cb")
        .unwrap());
    assert!(!svc
        .validate_client_redirect_uri(&row.id, "https://app.example.com/other")
        .unwrap());
}

#[test]
fn validate_client_redirect_uri_unknown_client_is_false_not_error() {
    let mut svc = service();
    assert!(!svc
        .validate_client_redirect_uri("unknown-client", "https://app.example.com/cb")
        .unwrap());
}

#[test]
fn validate_client_redirect_uri_builtin_keeps_loopback_any_port() {
    let mut svc = service();
    assert!(svc
        .validate_client_redirect_uri(LOCALDB_CLI_CLIENT_ID, "http://127.0.0.1:1/cb")
        .unwrap());
    assert!(svc
        .validate_client_redirect_uri(LOCALDB_CLI_CLIENT_ID, "http://127.0.0.1:65535/cb")
        .unwrap());
}

#[test]
fn failed_redemptions_leave_nothing_behind() {
    let mut svc = service();
    svc.create_user("admin", Role::Admin).unwrap();
    let issued = make_open_invite(&mut svc, 1);
    let users = svc.store.list_users().unwrap();
    svc.store.poison_next_insert_token();
    let err = svc.redeem_invite(&issued.secret, "newbie").unwrap_err();
    assert!(matches!(err, Error::Internal { .. }));
    assert_eq!(svc.store.list_users().unwrap(), users);
    assert!(svc.store.list_grants_for_store("docs").unwrap().is_empty());
    assert_eq!(svc.store.list_invites().unwrap()[0].uses, 0);
    assert!(matches!(
        svc.redeem_invite(&issued.secret, "newbie").unwrap(),
        RedeemOutcome::Open { .. }
    ));
}

#[test]
fn lost_approvals_leave_nothing_behind() {
    let mut svc = service();
    svc.create_user("admin", Role::Admin).unwrap();
    let issued = make_closed_invite(&mut svc, 1);
    let request_id = match svc.redeem_invite(&issued.secret, "newbie").unwrap() {
        RedeemOutcome::Closed { request_id, .. } => request_id,
        RedeemOutcome::Open { .. } => panic!("the invite is closed"),
    };
    let users = svc.store.list_users().unwrap();
    let requests = svc.store.list_access_requests().unwrap();
    svc.store.poison_next_decide(&request_id);
    let err = svc.approve_request(&request_id).unwrap_err();
    assert!(matches!(err, Error::InvalidRequest { .. }));
    assert_eq!(svc.store.list_users().unwrap(), users);
    assert_eq!(svc.store.list_access_requests().unwrap(), requests);
    assert!(svc.store.list_grants_for_store("docs").unwrap().is_empty());
    assert_eq!(svc.approve_request(&request_id).unwrap().name, "newbie");
}

#[test]
fn failed_rotations_leave_the_token_revoked() {
    let mut svc = service();
    let user = svc.create_user("member", Role::Member).unwrap();
    let first = svc.issue_refresh_token(&user.id).unwrap();
    svc.store.poison_next_insert_token();
    assert!(svc.rotate_refresh_token(&first.secret).is_err());
    let tokens = svc.store.list_tokens_for_user(&user.id).unwrap();
    assert_eq!(tokens.len(), 1);
    assert!(tokens[0].revoked_at.is_some());
}
