//! What is configured at run time, and the stores of a running system.

use localdb_core::config::effective::{build_effective_config, check_yaml_owned, ConfigOwnership};
use localdb_core::config::runtime_state::{find_source_by_root_or_url, RuntimeSource, RuntimeStore};
use localdb_core::config::schema::{
    DefaultsConfig, EmbeddingPolicy, IndexingPolicyConfig, PathsConfig, RawConfig, ServerConfig,
    StoreConfig,
};
use localdb_core::Error;

fn make_runtime_store(name: &str) -> RuntimeStore {
    RuntimeStore {
        name: name.to_string(),
        id: format!("ulid-{}", name),
        visibility: "private".to_string(),
        backend: "lancedb".to_string(),
        indexing: None,
    }
}

fn make_runtime_source(id: &str, store_name: &str, root: &str) -> RuntimeSource {
    RuntimeSource {
        id: id.to_string(),
        store_name: store_name.to_string(),
        kind: "path".to_string(),
        root: Some(root.to_string()),
        url: None,
        include_globs: vec![],
        exclude_globs: vec![],
        preset: "prose".to_string(),
    }
}

fn make_yaml_config_with_stores(names: &[&str]) -> RawConfig {
    RawConfig {
        version: 1,
        server: ServerConfig::default(),
        paths: PathsConfig::default(),
        defaults: DefaultsConfig::default(),
        stores: names
            .iter()
            .map(|n| StoreConfig {
                name: n.to_string(),
                visibility: "private".to_string(),
                backend: "lancedb".to_string(),
                indexing: None,
                sources: vec![],
            })
            .collect(),
        providers: vec![],
    }
}

#[test]
fn runtime_state_locked_exit_code_is_4() {
    assert_eq!(Error::RuntimeStateLocked.exit_code(), 4);
    assert_eq!(Error::RuntimeStateLocked.code(), "runtime_state_locked");
}

#[test]
fn find_source_by_root_or_url_found() {
    let mut db: Vec<RuntimeSource> = Vec::new();
    db.push(make_runtime_source("s1", "store-x", "/docs/notes"));
    let found = find_source_by_root_or_url(&db, "/docs/notes", None);
    assert!(found.is_some());
    assert_eq!(db[found.unwrap()].id, "s1");
}

#[test]
fn find_source_by_root_or_url_scoped_to_store() {
    let mut db: Vec<RuntimeSource> = Vec::new();
    db.push(make_runtime_source("s1", "store-a", "/shared"));
    db.push(make_runtime_source("s2", "store-b", "/shared"));

    let found_a = find_source_by_root_or_url(&db, "/shared", Some("store-a"));
    assert_eq!(db[found_a.unwrap()].id, "s1");

    let found_b = find_source_by_root_or_url(&db, "/shared", Some("store-b"));
    assert_eq!(db[found_b.unwrap()].id, "s2");

    let not_found = find_source_by_root_or_url(&db, "/shared", Some("store-c"));
    assert!(not_found.is_none());
}

#[test]
fn find_source_by_url() {
    let mut db: Vec<RuntimeSource> = Vec::new();
    let src = RuntimeSource {
        id: "url-src".to_string(),
        store_name: "mystore".to_string(),
        kind: "url".to_string(),
        root: None,
        url: Some("https://example.com/docs".to_string()),
        include_globs: vec![],
        exclude_globs: vec![],
        preset: "prose".to_string(),
    };
    db.push(src);
    let found = find_source_by_root_or_url(&db, "https://example.com/docs", None);
    assert!(found.is_some());
    assert_eq!(db[found.unwrap()].id, "url-src");
}

#[test]
fn effective_config_yaml_only() {
    let db: Vec<RuntimeStore> = Vec::new();
    let yaml = make_yaml_config_with_stores(&["notes", "code"]);
    let default_policy = IndexingPolicyConfig::default();
    let effective = build_effective_config(&yaml, &db, &default_policy);
    assert_eq!(effective.stores.len(), 2);
    assert!(effective
        .stores
        .iter()
        .all(|s| s.ownership == ConfigOwnership::Yaml));
}

#[test]
fn effective_config_runtime_only() {
    let mut db: Vec<RuntimeStore> = Vec::new();
    db.push(make_runtime_store("runtime-store"));

    let yaml = make_yaml_config_with_stores(&[]);
    let default_policy = IndexingPolicyConfig::default();
    let effective = build_effective_config(&yaml, &db, &default_policy);
    assert_eq!(effective.stores.len(), 1);
    assert_eq!(effective.stores[0].ownership, ConfigOwnership::Runtime);
    assert_eq!(effective.stores[0].name, "runtime-store");
}

#[test]
fn effective_config_yaml_takes_precedence_over_runtime() {
    let mut db: Vec<RuntimeStore> = Vec::new();

    db.push(RuntimeStore {
        name: "notes".to_string(),
        id: "rt-id".to_string(),
        visibility: "shared".to_string(),
        backend: "lancedb".to_string(),
        indexing: None,
    });

    let yaml = make_yaml_config_with_stores(&["notes"]);

    let default_policy = IndexingPolicyConfig::default();
    let effective = build_effective_config(&yaml, &db, &default_policy);

    assert_eq!(effective.stores.len(), 1);
    assert_eq!(effective.stores[0].ownership, ConfigOwnership::Yaml);
    assert_eq!(effective.stores[0].visibility, "private");
}

#[test]
fn effective_config_mixed_ownership() {
    let mut db: Vec<RuntimeStore> = Vec::new();
    db.push(make_runtime_store("runtime-notes"));

    let yaml = make_yaml_config_with_stores(&["yaml-notes"]);
    let default_policy = IndexingPolicyConfig::default();
    let effective = build_effective_config(&yaml, &db, &default_policy);

    assert_eq!(effective.stores.len(), 2);
    let yaml_store = effective
        .stores
        .iter()
        .find(|s| s.name == "yaml-notes")
        .unwrap();
    let rt_store = effective
        .stores
        .iter()
        .find(|s| s.name == "runtime-notes")
        .unwrap();
    assert_eq!(yaml_store.ownership, ConfigOwnership::Yaml);
    assert_eq!(rt_store.ownership, ConfigOwnership::Runtime);
}

#[test]
fn effective_config_store_inherits_global_default() {
    let db: Vec<RuntimeStore> = Vec::new();

    let custom_default = IndexingPolicyConfig {
        embedding: EmbeddingPolicy {
            model: "custom-model".to_string(),
            provider: "openai-compatible".to_string(),
        },
        ..Default::default()
    };

    let yaml = make_yaml_config_with_stores(&["my-store"]);
    let effective = build_effective_config(&yaml, &db, &custom_default);

    assert_eq!(effective.stores[0].indexing.embedding.model, "custom-model");
}

#[test]
fn effective_config_store_uses_own_policy_over_default() {
    let db: Vec<RuntimeStore> = Vec::new();

    let yaml = RawConfig {
        version: 1,
        server: ServerConfig::default(),
        paths: PathsConfig::default(),
        defaults: DefaultsConfig::default(),
        stores: vec![StoreConfig {
            name: "special".to_string(),
            visibility: "private".to_string(),
            backend: "lancedb".to_string(),
            indexing: Some(IndexingPolicyConfig {
                embedding: EmbeddingPolicy {
                    model: "store-specific-model".to_string(),
                    provider: "local-onnx".to_string(),
                },
                ..Default::default()
            }),
            sources: vec![],
        }],
        providers: vec![],
    };

    let global_default = IndexingPolicyConfig::default();
    let effective = build_effective_config(&yaml, &db, &global_default);

    assert_eq!(
        effective.stores[0].indexing.embedding.model,
        "store-specific-model"
    );
}

#[test]
fn check_yaml_owned_returns_true_for_yaml_store() {
    let yaml = make_yaml_config_with_stores(&["notes", "code"]);
    assert!(check_yaml_owned("notes", &yaml));
    assert!(check_yaml_owned("code", &yaml));
}

#[test]
fn check_yaml_owned_returns_false_for_unknown() {
    let yaml = make_yaml_config_with_stores(&["notes"]);
    assert!(!check_yaml_owned("other-store", &yaml));
    assert!(!check_yaml_owned("", &yaml));
}

#[test]
fn yaml_owned_mutation_returns_config_readonly() {
    let yaml = make_yaml_config_with_stores(&["notes"]);
    let is_yaml_owned = check_yaml_owned("notes", &yaml);
    assert!(is_yaml_owned);

    let err = if is_yaml_owned {
        Some(Error::ConfigReadonly)
    } else {
        None
    };
    assert_eq!(err, Some(Error::ConfigReadonly));
}

#[test]
fn runtime_owned_mutation_does_not_return_config_readonly() {
    let yaml = make_yaml_config_with_stores(&["notes"]);
    let is_yaml_owned = check_yaml_owned("api-created", &yaml);
    assert!(!is_yaml_owned);

    let err: Option<Error> = if is_yaml_owned {
        Some(Error::ConfigReadonly)
    } else {
        None
    };
    assert!(err.is_none());
}
