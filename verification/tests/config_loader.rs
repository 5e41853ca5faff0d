//! What is accepted as a configuration, and which paths it comes to.

use localdb_core::config::loader::{
    accept_config, choose_config_path, expand_path, expand_path_in, parse_duration,
    resolve_config_path, resolve_paths, resolve_paths_in, validate_config,
};
use localdb_core::config::schema::{SourceConfig, StoreConfig};
use localdb_core::config::{
    EmbeddingPolicy, IndexingPolicyConfig, LoadOptions, PathsConfig, PlatformPaths,
    ProviderConfig, RawConfig, ServerConfig,
};
use localdb_core::os_path::OsPath;
use localdb_core::Error;
use std::path::{Path, PathBuf};

fn at(path: &str) -> OsPath {
    OsPath::from_text(path)
}

fn text(path: &OsPath) -> String {
    String::from_utf8(path.bytes.clone()).expect("should be UTF-8 here")
}

fn config(version: u32, stores: Vec<StoreConfig>) -> RawConfig {
    RawConfig {
        version,
        server: ServerConfig::default(),
        paths: PathsConfig::default(),
        defaults: Default::default(),
        stores,
        providers: vec![],
    }
}

fn store(name: &str, sources: Vec<SourceConfig>) -> StoreConfig {
    StoreConfig {
        name: name.to_string(),
        visibility: "private".to_string(),
        backend: "lancedb".to_string(),
        indexing: None,
        sources,
    }
}

fn source(kind: &str) -> SourceConfig {
    SourceConfig {
        kind: kind.to_string(),
        root: None,
        include_globs: vec![],
        exclude_globs: vec![],
        preset: "prose".to_string(),
        url: None,
        refresh: None,
    }
}

fn message_of(r: Result<RawConfig, Error>) -> String {
    match r {
        Err(Error::InvalidConfig { message }) => message,
        other => panic!("expected InvalidConfig, got {:?}", other),
    }
}

#[test]
fn parse_duration_hours() {
    assert_eq!(parse_duration("24h").unwrap(), 24 * 3600);
    assert_eq!(parse_duration("1h").unwrap(), 3600);
}

#[test]
fn parse_duration_minutes() {
    assert_eq!(parse_duration("30m").unwrap(), 30 * 60);
    assert_eq!(parse_duration("1m").unwrap(), 60);
}

#[test]
fn parse_duration_seconds() {
    assert_eq!(parse_duration("90s").unwrap(), 90);
    assert_eq!(parse_duration("1s").unwrap(), 1);
}

#[test]
fn parse_duration_days() {
    assert_eq!(parse_duration("7d").unwrap(), 7 * 86400);
}

#[test]
fn parse_duration_rejects_invalid() {
    assert!(parse_duration("not-a-duration").is_err());
    assert!(parse_duration("1x").is_err());
    assert!(parse_duration("").is_err());
    assert!(parse_duration("abc").is_err());
}

#[test]
fn parse_duration_rejects_zero() {
    assert!(parse_duration("0h").is_err());
    assert!(parse_duration("0m").is_err());
}

#[test]
fn durations_report_what_is_wrong() {
    assert_eq!(parse_duration("").unwrap_err(), "duration string is empty");
    assert_eq!(
        parse_duration("1x").unwrap_err(),
        "invalid duration '1x': expected a number followed by 'd', 'h', 'm', or 's' (e.g. '24h', '30m', '90s')"
    );
    assert_eq!(
        parse_duration("not-h").unwrap_err(),
        "invalid duration 'not-h': 'not-' is not a valid number"
    );
    assert_eq!(
        parse_duration("0h").unwrap_err(),
        "invalid duration '0h': duration must be greater than zero"
    );
    assert!(parse_duration("18446744073709551615d").is_err());
    assert_eq!(parse_duration("18446744073709551615s").unwrap(), u64::MAX);
    assert_eq!(parse_duration("+5m").unwrap(), 300);
}

#[test]
fn load_valid_minimal_config() {
    let cfg = accept_config(Ok(config(1, vec![]))).expect("valid minimal config should load");
    assert_eq!(cfg.version, 1);
}

#[test]
fn load_rejects_missing_version() {
    let err = accept_config(Err("missing field `version`".to_string())).unwrap_err();
    assert!(matches!(err, Error::InvalidConfig { .. }));
}

#[test]
fn load_rejects_unknown_version() {
    let message = message_of(accept_config(Ok(config(99, vec![]))));
    assert!(message.contains("99"), "error should mention the version number");
    assert!(message.contains("version 1"), "error should mention supported version");
}

#[test]
fn load_rejects_unversioned_with_hint() {
    let message = message_of(accept_config(Err("missing field `version`".to_string())));
    assert!(
        message.contains("version: 1") || message.contains("version"),
        "error for unversioned config should contain a hint, got: {}",
        message
    );
    assert_eq!(
        message,
        "missing field `version`. Hint: add `version: 1` at the top of your config file."
    );
}

#[test]
fn load_rejects_typo_key() {
    let message = message_of(accept_config(Err("unknown field `servre`".to_string())));
    assert!(
        message.contains("servre") || message.contains("unknown"),
        "error message '{}' should mention the typo'd key",
        message
    );
    assert_eq!(message, "unknown field `servre`");
}

#[test]
fn load_rejects_bad_duration() {
    let mut s = source("url");
    s.url = Some("https://example.com".to_string());
    s.refresh = Some("not-a-duration".to_string());
    let message = message_of(accept_config(Ok(config(1, vec![store("web", vec![s])]))));
    assert!(message.contains("refresh"), "error should mention 'refresh', got: {}", message);
}

#[test]
fn load_rejects_path_source_without_root() {
    let mut s = source("path");
    s.include_globs = vec!["**/*.md".to_string()];
    let message = message_of(accept_config(Ok(config(1, vec![store("mystore", vec![s])]))));
    assert!(message.contains("root"), "error should mention 'root', got: {}", message);
    assert_eq!(message, "stores[0].sources[0].root: required for kind 'path'");
}

#[test]
fn load_rejects_url_source_without_url() {
    let mut s = source("url");
    s.refresh = Some("24h".to_string());
    let message = message_of(accept_config(Ok(config(1, vec![store("mystore", vec![s])]))));
    assert!(message.contains("url"), "error should mention 'url', got: {}", message);
}

#[test]
fn load_valid_full_config() {
    let mut path = source("path");
    path.root = Some("~/Documents/notes".to_string());
    path.include_globs = vec!["**/*.md".to_string(), "**/*.pdf".to_string()];
    path.exclude_globs = vec!["**/node_modules/**".to_string()];
    let mut url = source("url");
    url.url = Some("https://example.com/handbook".to_string());
    url.refresh = Some("24h".to_string());
    let mut c = config(1, vec![store("notes", vec![path, url])]);
    c.providers = vec![ProviderConfig {
        name: "my-ollama".to_string(),
        kind: "openai-compatible".to_string(),
        base_url: Some("http://localhost:11434/v1".to_string()),
        api_key_env: Some("OLLAMA_KEY".to_string()),
    }];
    let cfg = accept_config(Ok(c)).expect("valid full config should load");
    assert_eq!(cfg.version, 1);
    assert_eq!(cfg.stores.len(), 1);
    assert_eq!(cfg.stores[0].name, "notes");
    assert_eq!(cfg.stores[0].sources.len(), 2);
    assert_eq!(cfg.providers.len(), 1);
    assert_eq!(cfg.providers[0].name, "my-ollama");
}

#[test]
fn load_valid_config_with_store_indexing_override() {
    let mut s = source("path");
    s.root = Some("~/src".to_string());
    s.preset = "code".to_string();
    let mut code = store("code-store", vec![s]);
    code.indexing = Some(IndexingPolicyConfig {
        embedding: EmbeddingPolicy {
            model: "bge-small".to_string(),
            provider: "local-onnx".to_string(),
        },
        ..Default::default()
    });
    let cfg = accept_config(Ok(config(1, vec![code])))
        .expect("config with store indexing override should load");
    let store = &cfg.stores[0];
    assert!(store.indexing.is_some());
    let indexing = store.indexing.as_ref().unwrap();
    assert_eq!(indexing.embedding.model, "bge-small");
}

#[test]
fn load_error_has_path_context_for_store_source() {
    let mut first = source("path");
    first.root = Some("/tmp".to_string());
    let mut good = source("url");
    good.url = Some("https://example.com".to_string());
    let mut bad = source("url");
    bad.refresh = Some("5h".to_string());
    let stores = vec![store("s1", vec![first]), store("s2", vec![good, bad])];
    let message = message_of(accept_config(Ok(config(1, stores))));
    assert!(
        message.contains("stores[1]") || message.contains("sources[1]"),
        "error '{}' should include location context",
        message
    );
    assert_eq!(message, "stores[1].sources[1].url: required for kind 'url'");
}

#[test]
fn unknown_source_kind_rejected() {
    let mut s = source("imap");
    s.url = Some("imap://mail.example.com".to_string());
    let message = message_of(accept_config(Ok(config(1, vec![store("mystore", vec![s])]))));
    assert!(message.contains("imap"), "error should mention the unknown kind, got: {}", message);
}

#[test]
fn unknown_presets_visibilities_and_backends_are_rejected() {
    let mut s = source("path");
    s.root = Some("/data".to_string());
    s.preset = "poetry".to_string();
    assert_eq!(
        message_of(accept_config(Ok(config(1, vec![store("a", vec![s])])))),
        "stores[0].sources[0].preset: unknown preset 'poetry'; supported: prose, code, messages"
    );
    let mut open = store("a", vec![]);
    open.visibility = "public".to_string();
    assert_eq!(
        message_of(accept_config(Ok(config(1, vec![open])))),
        "stores[0].visibility: must be 'private' or 'shared', got 'public'"
    );
    let mut other = store("b", vec![]);
    other.backend = "sqlite".to_string();
    assert!(validate_config(&config(1, vec![store("a", vec![])])).is_ok());
    assert_eq!(
        message_of(accept_config(Ok(config(1, vec![store("a", vec![]), other])))),
        "stores[1].backend: unknown backend 'sqlite'; supported: lancedb"
    );
}

#[test]
fn unknown_parsers_are_rejected() {
    let mut c = config(1, vec![]);
    c.defaults.indexing.parsers = vec!["pdf".to_string(), "bogus".to_string()];
    assert_eq!(
        message_of(accept_config(Ok(c))),
        "defaults.indexing.parsers[1]: unknown parser 'bogus'; supported: pdf, office, html, markdown, plaintext"
    );
    let mut own = store("a", vec![]);
    own.indexing = Some(IndexingPolicyConfig {
        parsers: vec!["docx".to_string()],
        ..Default::default()
    });
    assert_eq!(
        message_of(accept_config(Ok(config(1, vec![store("b", vec![]), own])))),
        "stores[1].indexing.parsers[0]: unknown parser 'docx'; supported: pdf, office, html, markdown, plaintext"
    );
}

#[test]
fn no_parsers_means_the_standard_ones() {
    let standard = IndexingPolicyConfig::default().parsers;
    assert_eq!(standard, vec!["pdf", "office", "html", "markdown", "plaintext"]);
    let none = IndexingPolicyConfig { parsers: vec![], ..Default::default() };
    let html = IndexingPolicyConfig { parsers: vec!["html".to_string()], ..Default::default() };
    let mut c = config(1, vec![store("a", vec![]), store("b", vec![]), store("c", vec![])]);
    c.defaults.indexing = none.clone();
    c.stores[1].indexing = Some(none);
    c.stores[2].indexing = Some(html.clone());
    let c = accept_config(Ok(c)).unwrap();
    assert_eq!(c.defaults.indexing.parsers, standard);
    assert_eq!(c.stores.len(), 3);
    assert_eq!(c.stores[0].name, "a");
    assert!(c.stores[0].indexing.is_none());
    assert_eq!(c.stores[1].indexing.as_ref().unwrap().parsers, standard);
    assert_eq!(c.stores[2].indexing, Some(html));
}

#[test]
fn expand_path_expands_tilde() {
    if let Some(home) = dirs::home_dir() {
        let expanded = PathBuf::from(text(&expand_path("~/Documents/notes")));
        assert!(
            expanded.starts_with(&home),
            "expanded path {:?} should start with home dir {:?}",
            expanded,
            home
        );
        assert!(
            expanded.ends_with("Documents/notes"),
            "expanded path {:?} should end with Documents/notes",
            expanded
        );
    }
}

#[test]
fn expand_path_passes_through_absolute_path() {
    let p = expand_path("/absolute/path");
    assert_eq!(Path::new(&text(&p)), Path::new("/absolute/path"));
}

#[test]
fn tildes_are_expanded_in_front_only() {
    assert_eq!(expand_path_in("~/a/b", &Some(at("/home/me"))), at("/home/me/a/b"));
    assert_eq!(expand_path_in("~/a/b", &None), at("~/a/b"));
    assert_eq!(expand_path_in("/x/~/b", &Some(at("/home/me"))), at("/x/~/b"));
    assert_eq!(expand_path_in("~other/b", &Some(at("/home/me"))), at("~other/b"));
}

fn platform() -> PlatformPaths {
    PlatformPaths {
        config_file: at("/etc/app/config.yaml"),
        data_dir: at("/var/app"),
        models_dir: at("/var/cache/app/models"),
        logs_dir: at("/var/log/app"),
    }
}

#[test]
fn choices_go_before_the_environment_and_the_platform() {
    let mut options = LoadOptions::default();
    assert_eq!(
        choose_config_path(&options, &None, Some(platform())).unwrap(),
        at("/etc/app/config.yaml")
    );
    assert_eq!(
        choose_config_path(&options, &None, None).unwrap_err().to_string(),
        Error::InvalidConfig {
            message: "cannot determine platform config path (no home directory?)".to_string()
        }
        .to_string()
    );
    assert_eq!(resolve_config_path(&options, &Some(at("/env.yaml"))).unwrap(), at("/env.yaml"));
    options.config_path = Some(at("/chosen.yaml"));
    assert_eq!(resolve_config_path(&options, &Some(at("/env.yaml"))).unwrap(), at("/chosen.yaml"));
}

#[test]
fn configured_directories_go_before_those_of_the_platform() {
    let configured = PathsConfig {
        data: Some("~/data".to_string()),
        models: Some("/models".to_string()),
        logs: None,
    };
    let mut options = LoadOptions::default();
    options.models_dir = Some(at("/chosen"));
    let home = Some(at("/home/me"));
    let paths = resolve_paths_in(&configured, &at("/c.yaml"), &options, &home, &platform());
    assert_eq!(paths.config_file, at("/c.yaml"));
    assert_eq!(paths.data_dir, at("/home/me/data"));
    assert_eq!(paths.models_dir, at("/chosen"));
    assert_eq!(paths.logs_dir, at("/var/log/app"));
    assert_eq!(paths.socket_path(), at("/home/me/data/daemon.sock"));
    assert_eq!(paths.write_lock_path(), at("/home/me/data/.write.lock"));
    assert_eq!(paths.runtime_state_db_path(), at("/home/me/data/runtime-state.db"));
}

#[test]
fn paths_are_resolved_on_this_machine() {
    let mut options = LoadOptions::default();
    options.data_dir = Some(at("/chosen"));
    let c = config(1, vec![]);
    let platform = PlatformPaths::resolve().unwrap();
    let paths = resolve_paths(&c, &at("/c.yaml"), &options).unwrap();
    assert_eq!(paths.data_dir, at("/chosen"));
    assert_eq!(paths.models_dir, platform.models_dir);
    assert_eq!(
        resolve_config_path(&LoadOptions::default(), &None).unwrap(),
        platform.config_file
    );
}

#[test]
fn paths_need_not_be_unicode() {
    let home = OsPath { bytes: b"/home/\xff\xfe".to_vec() };
    let expanded = expand_path_in("~/a/\u{e9}", &Some(home.clone()));
    assert_eq!(expanded.bytes, b"/home/\xff\xfe/a/\xc3\xa9".to_vec());
    let configured = PathsConfig { data: Some("~/data".to_string()), models: None, logs: None };
    let mut options = LoadOptions::default();
    options.logs_dir = Some(OsPath { bytes: b"/logs\x80/".to_vec() });
    let config_path = OsPath { bytes: b"/c\xff.yaml".to_vec() };
    assert_eq!(
        resolve_config_path(&options, &Some(config_path.clone())).unwrap(),
        config_path
    );
    let paths = resolve_paths_in(&configured, &config_path, &options, &Some(home), &platform());
    assert_eq!(paths.config_file, config_path);
    assert_eq!(paths.data_dir.bytes, b"/home/\xff\xfe/data".to_vec());
    assert_eq!(paths.logs_dir.join("x").bytes, b"/logs\x80/x".to_vec());
    assert_eq!(paths.logs_dir.join("/x"), at("/x"));
    assert_eq!(at("").join("x"), at("x"));
}

#[test]
fn embedding_policy_defaults() {
    let p = EmbeddingPolicy::default();
    assert_eq!(p.model, "pplx-embed-context-v1-0.6b");
    assert_eq!(p.provider, "local-onnx");
}

#[test]
fn server_config_defaults() {
    let s = ServerConfig::default();
    assert_eq!(s.bind, "127.0.0.1");
    assert_eq!(s.port, 7700);
}
