use ingest_gateway::auth::{
    admission, rejection_reply, require_key, validate_api_key, AuthError, RejectionKind,
};
use ingest_gateway::keys::{
    api_key_from_indices, creation_response, generate_api_key, key_info, KeyStore, StorageFault,
    KEY_LEN,
};
use ingest_gateway::models::ApiKey;

fn row(id: u128, key: &str, active: bool, usage: i32) -> ApiKey {
    ApiKey {
        id,
        key: key.to_string(),
        name: format!("tenant {}", id),
        usage_count: usage,
        is_active: active,
        created_at: 1_000,
        updated_at: 1_000,
    }
}

fn store_with(rows: Vec<ApiKey>) -> KeyStore {
    let mut store = KeyStore::new();
    for r in rows {
        assert!(store.provision(r));
    }
    store
}

#[test]
fn two_authentications_with_one_key_count_twice() {
    let mut store = store_with(vec![row(1, "sk_live", true, 7), row(2, "sk_other", true, 0)]);
    let first = validate_api_key(Some("sk_live".to_string()), &mut store, 2_000).unwrap();
    let second = validate_api_key(Some("sk_live".to_string()), &mut store, 3_000).unwrap();
    assert_eq!(first.usage_count, 8);
    assert_eq!(second.usage_count, 9);
    assert_eq!(second.updated_at, 3_000);
    assert_eq!(store.find("sk_live").unwrap().usage_count, 9);
    assert_eq!(store.find("sk_other").unwrap().usage_count, 0);
}

#[test]
fn missing_key_is_refused_without_touching_store() {
    let mut store = store_with(vec![row(1, "sk_live", true, 0)]);
    assert_eq!(validate_api_key(None, &mut store, 5), Err(AuthError::Missing));
    assert_eq!(store.find("sk_live").unwrap().usage_count, 0);
}

#[test]
fn unknown_or_inactive_key_is_invalid() {
    let mut store = store_with(vec![row(1, "sk_off", false, 4)]);
    assert_eq!(validate_api_key(Some("sk_nope".to_string()), &mut store, 5), Err(AuthError::Invalid));
    assert_eq!(validate_api_key(Some("sk_off".to_string()), &mut store, 5), Err(AuthError::Invalid));
    let off = store.find("sk_off").unwrap();
    assert_eq!(off.usage_count, 4);
    assert_eq!(off.updated_at, 1_000);
}

#[test]
fn saturated_counter_is_a_storage_failure() {
    let mut store = store_with(vec![row(1, "sk_full", true, i32::MAX)]);
    assert_eq!(validate_api_key(Some("sk_full".to_string()), &mut store, 5), Err(AuthError::Storage));
    assert_eq!(store.find("sk_full").unwrap().usage_count, i32::MAX);
}

#[test]
fn duplicate_secret_is_not_provisioned() {
    let mut store = store_with(vec![row(1, "sk_a", true, 0)]);
    assert!(!store.provision(row(2, "sk_a", true, 0)));
    assert_eq!(store.find("sk_a").unwrap().id, 1);
}

#[test]
fn admission_decisions() {
    assert_eq!(require_key(None), Err(AuthError::Missing));
    assert_eq!(require_key(Some("k".to_string())), Ok("k".to_string()));
    assert_eq!(admission(Ok(None)), Err(AuthError::Invalid));
    assert_eq!(admission(Err(StorageFault)), Err(AuthError::Storage));
    assert_eq!(admission(Ok(Some(row(3, "sk_c", true, 1)))), Ok(row(3, "sk_c", true, 1)));
}

#[test]
fn rejection_replies() {
    assert_eq!(rejection_reply(RejectionKind::NotFound), (404, "Requested resource was not found.".to_string()));
    assert_eq!(
        rejection_reply(RejectionKind::Unauthorized),
        (401, "Authentication error: API key is invalid or missing.".to_string())
    );
    assert_eq!(rejection_reply(RejectionKind::QuotaExceeded).0, 403);
    assert_eq!(
        rejection_reply(RejectionKind::RateLimited),
        (429, "Rate limit exceeded. Please slow down.".to_string())
    );
    assert_eq!(rejection_reply(RejectionKind::MethodNotAllowed).0, 405);
    assert_eq!(rejection_reply(RejectionKind::Other), (500, "Internal Server Error.".to_string()));
}

#[test]
fn generated_secrets_have_prefix_and_alphabet() {
    let a = generate_api_key();
    let b = generate_api_key();
    assert_eq!(a.len(), 3 + KEY_LEN);
    assert!(a.starts_with("sk_"));
    assert!(a[3..].chars().all(|c| c.is_ascii_alphanumeric()));
    assert_ne!(a, b);
}

#[test]
fn listing_and_creation_views() {
    let k = row(9, "sk_secret", true, 12);
    let info = key_info(&k);
    assert_eq!(info.id, 9);
    assert_eq!(info.name, "tenant 9");
    assert_eq!(info.usage_count, 12);
    let resp = creation_response(&k);
    assert_eq!(resp.key, "sk_secret");
    assert_eq!(resp.name, "tenant 9");
}

#[test]
fn secret_from_drawn_indices() {
    let mut idx: Vec<usize> = vec![0, 25, 26, 51, 52, 61];
    idx.extend(std::iter::repeat(1).take(26));
    let key = api_key_from_indices(&idx);
    assert_eq!(key, format!("sk_AZaz09{}", "B".repeat(26)));
}
