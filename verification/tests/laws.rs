//! Exact values of formulas and of what outside crates compute, and the laws on examples.

use localdb_core::auth::client::{
    redirect_uri_registrable, SUPPORTED_GRANT_TYPES, SUPPORTED_RESPONSE_TYPES,
};
use localdb_core::auth::token::{
    base64url_encode, challenge_of, hash_secret, is_expired_at, now_unix, rfc3339_after,
    secret_from_bytes, secs_from_reading,
};
use localdb_core::calendar::{civil_from_days, format_unix};
use localdb_core::chunker::{chunk_code, preset_for, ChunkerConfig};
use localdb_core::config::overrides::PresetOverrides;
use localdb_core::config::platform::HostDirs;
use localdb_core::config::runtime_state::{after_failed_open, database_error, OpenStep};
use localdb_core::config::{
    compute_policy_version, ChunkingPolicy, IndexingPolicyConfig, PlatformPaths,
};
use localdb_core::dates::{bound_of, parse_date_or_datetime, widen_date_upper_bound};
use localdb_core::ids::{chunk_id, content_hash, encode_optional_field, resource_id};
use localdb_core::ingestion::{format_secs_rfc3339, now_rfc3339};
use localdb_core::os_path::OsPath;
use localdb_core::urls::UrlParts;
use localdb_core::{backend, Error};

#[test]
fn digests_have_their_known_values() {
    assert_eq!(
        content_hash(""),
        "af1349b9f5f9a1a6a0404dea36dcc9499bcb25c9adc112b7cc9a93cae41f3262"
    );
    assert_eq!(
        content_hash("abc"),
        "6437b3ac38465133ffb63b75273a8db548c558465d79db03fd359c6cd5bd9d85"
    );
    assert_eq!(hash_secret("abc"), content_hash("abc"));
    assert_eq!(resource_id("a", "bc"), content_hash("abc"));
    assert_eq!(
        challenge_of(""),
        "47DEQpj8HBSa-_TImW-5JCeuQeRkm5NMpJWZG3hSuFU"
    );
}

#[test]
fn chunk_ids_tell_their_parts_apart() {
    let base = chunk_id("doc", 1, "text", 2);
    assert_ne!(base, chunk_id("doc", 2, "text", 1));
    assert_ne!(base, chunk_id("do", 1, "ctext", 2));
    assert_ne!(base, chunk_id("doc", 1, "tex", 2));
}

#[test]
fn absent_fields_differ_from_empty_ones() {
    assert_eq!(encode_optional_field(None), "");
    assert_eq!(encode_optional_field(Some("")), "\u{1}");
    assert_eq!(encode_optional_field(Some("x")), "\u{1}x");
}

#[test]
fn base64_has_no_padding() {
    assert_eq!(base64url_encode(&[]), "");
    assert_eq!(base64url_encode(&[0xff]), "_w");
    assert_eq!(base64url_encode(&[0xff, 0xfe]), "__4");
    assert_eq!(base64url_encode(b"Man"), "TWFu");
    assert_eq!(secret_from_bytes(b"Man").secret, "ldb_TWFu");
}

#[test]
fn instants_are_written_in_order() {
    assert_eq!(format_unix(0), "1970-01-01T00:00:00Z");
    assert_eq!(format_unix(951_782_400), "2000-02-29T00:00:00Z");
    assert_eq!(format_unix(253_402_300_799), "9999-12-31T23:59:59Z");
    assert_eq!(civil_from_days(11_016), (2000, 2, 29));
    for t in [0u64, 86_399, 86_400, 951_782_399, 1_781_092_800, 253_402_300_799] {
        assert_eq!(format_secs_rfc3339(t), format_unix(t as i64));
        if t > 0 {
            assert!(format_secs_rfc3339(t - 1) < format_secs_rfc3339(t));
        }
    }
    assert_eq!(format_secs_rfc3339(253_402_300_800), "1970-01-01T00:00:00Z");
    let now = now_rfc3339();
    assert!(now.as_str() > "2024-01-01T00:00:00Z");
    assert_eq!(now.len(), 20);
}

#[test]
fn clocks_before_1970_read_zero() {
    assert_eq!(secs_from_reading(None), 0);
    assert_eq!(secs_from_reading(Some(0)), 0);
    assert_eq!(secs_from_reading(Some(1_781_092_800)), 1_781_092_800);
    assert_eq!(secs_from_reading(Some(i64::MAX as u64)), i64::MAX);
    assert_eq!(secs_from_reading(Some(u64::MAX)), -1);
    assert!(now_unix() > 1_700_000_000);
}

#[test]
fn expiry_is_at_the_end_of_the_lifetime() {
    let end = rfc3339_after(1_000, 600);
    assert_eq!(end, format_unix(1_600));
    assert!(!is_expired_at(&end, &format_unix(1_599)));
    assert!(is_expired_at(&end, &format_unix(1_601)));
}

#[test]
fn bounds_are_widened_to_the_end_of_their_precision() {
    assert_eq!(widen_date_upper_bound("2026"), "2026-12-31T23:59:59Z");
    assert_eq!(widen_date_upper_bound("2026-06"), "2026-06-31T23:59:59Z");
    assert_eq!(widen_date_upper_bound("2026-06-10"), "2026-06-10T23:59:59Z");
    assert_eq!(widen_date_upper_bound("2026-06-10T09:00:00Z"), "2026-06-10T09:00:00Z");
    let instant = format_unix(1_781_092_800);
    for date in ["2026", "2026-06", "2026-06-10"] {
        assert!(date < instant.as_str());
        assert!(instant <= widen_date_upper_bound(date));
    }
    assert!(widen_date_upper_bound("2026-06-09") < instant);
}

#[test]
fn shifted_years_are_refused() {
    assert_eq!(parse_date_or_datetime("9999-12-31T23:30:00-01:00"), None);
    assert_eq!(parse_date_or_datetime("0000-01-01T00:30:00+01:00"), None);
    assert_eq!(bound_of(Some("+10000-01-01T00:30:00Z".to_string())), None);
    assert_eq!(bound_of(None), None);
    let kept = format_unix(1_781_092_800);
    assert_eq!(parse_date_or_datetime(&kept), Some(kept.clone()));
    assert_eq!(bound_of(Some(kept.clone())), Some(kept));
}

#[test]
fn policies_are_hashed_as_canonical_json() {
    let mut overrides = PresetOverrides::new();
    overrides.insert("b".to_string(), "x\"y\\\n\u{1}".to_string());
    overrides.insert("a".to_string(), "old".to_string());
    overrides.insert("a".to_string(), "new".to_string());
    assert_eq!(overrides.len(), 2);
    assert_eq!(overrides.entry(0), ("a", "new"));
    let policy = IndexingPolicyConfig {
        chunking: ChunkingPolicy { preset_overrides: overrides },
        parsers: vec!["p".to_string(), "q".to_string()],
        ..Default::default()
    };
    assert_eq!(
        compute_policy_version(&policy),
        content_hash(concat_json())
    );
    assert_eq!(
        compute_policy_version(&IndexingPolicyConfig::default()),
        content_hash(
            r#"{"chunking":{"preset_overrides":{}},"embedding":{"model":"pplx-embed-context-v1-0.6b","provider":"local-onnx"},"parsers":["pdf","office","html","markdown","plaintext"]}"#
        )
    );
}

fn concat_json() -> &'static str {
    r#"{"chunking":{"preset_overrides":{"a":"new","b":"x\"y\\\n\u0001"}},"embedding":{"model":"pplx-embed-context-v1-0.6b","provider":"local-onnx"},"parsers":["p","q"]}"#
}

#[test]
fn names_are_compared_in_lower_case() {
    assert_eq!(preset_for(Some("LIB.RS"), None), "code");
    assert_eq!(preset_for(Some("dir/Main.Py"), None), "code");
    assert_eq!(preset_for(None, None), "prose");
}

#[test]
fn presets_have_their_own_targets() {
    let unset = |preset: &str| ChunkerConfig {
        preset: preset.to_string(),
        target_tokens: None,
        overlap_tokens: None,
        window_turns: None,
        stride_turns: None,
    };
    assert_eq!(unset("prose").resolved_target_tokens(), 256);
    assert_eq!(unset("code").resolved_target_tokens(), 3000);
    assert_eq!(unset("messages").resolved_target_tokens(), 512);
    assert_eq!(unset("code").resolved_overlap_tokens(), 0);
    assert_eq!(unset("messages").resolved_window_turns(), 6);
    assert_eq!(unset("messages").resolved_stride_turns(), 3);
}

#[test]
fn code_chunks_are_lossless() {
    let text = "fn a() {}\n\nfn b() {}\n".repeat(400);
    let chunks = chunk_code("doc", &text, &ChunkerConfig::code(), 0).unwrap();
    assert!(chunks.len() > 1);
    let joined: String = chunks.iter().map(|c| c.text.as_str()).collect();
    assert_eq!(joined, text);
    for (i, c) in chunks.iter().enumerate() {
        assert_eq!(c.id, chunk_id("doc", c.block_seq, &c.text, c.seq_in_block));
        assert_eq!(c.seq_in_block as usize, i);
    }
}

#[test]
fn platforms_differ_in_where_logs_and_data_go() {
    let home = Some(OsPath::from_text("/h"));
    let dirs = HostDirs {
        qualifier: String::new(),
        organization: String::new(),
        application: "app".to_string(),
        config_dir: OsPath::from_text("/h/.config/app"),
        data_dir: OsPath::from_text("/h/.local/share/app"),
        cache_dir: OsPath::from_text("/h/.cache/app"),
        state_dir: Some(OsPath::from_text("/h/.local/state/app")),
    };
    let linux = PlatformPaths::within(&dirs, &home, false, "app").unwrap();
    assert_eq!(linux.config_file, OsPath::from_text("/h/.config/app/config.yaml"));
    assert_eq!(linux.data_dir, OsPath::from_text("/h/.local/share/app"));
    assert_eq!(linux.models_dir, OsPath::from_text("/h/.cache/app/models"));
    assert_eq!(linux.logs_dir, OsPath::from_text("/h/.local/state/app/logs"));
    assert_eq!(linux.unified_db_path(), OsPath::from_text("/h/.local/share/app/localdb.db"));
    let mac = PlatformPaths::within(&dirs, &home, true, "app").unwrap();
    assert_eq!(mac.data_dir, OsPath::from_text("/h/.local/share/app/data"));
    assert_eq!(mac.logs_dir, OsPath::from_text("/h/Library/Logs/app"));
    assert!(PlatformPaths::within(&dirs, &None, true, "app").is_none());
    assert_eq!(PlatformPaths::from_host(&Some(dirs.clone()), &home, "app"), Some(linux));
    let apple = HostDirs {
        config_dir: OsPath::from_text("/h/Library/Application Support/app"),
        data_dir: OsPath::from_text("/h/Library/Application Support/app"),
        state_dir: None,
        ..dirs.clone()
    };
    let mac = PlatformPaths::from_host(&Some(apple), &home, "app").unwrap();
    assert_eq!(mac.data_dir, OsPath::from_text("/h/Library/Application Support/app/data"));
    assert_eq!(mac.logs_dir, OsPath::from_text("/h/Library/Logs/app"));
    assert_eq!(PlatformPaths::from_host(&None, &home, "app"), None);
    let stateless = HostDirs { state_dir: None, ..dirs };
    let other = PlatformPaths::within(&stateless, &None, false, "app").unwrap();
    assert_eq!(other.logs_dir, OsPath::from_text("/h/.local/share/app/logs"));
    let test = PlatformPaths::resolve_with_qualifier("", "", "localdb-laws").unwrap();
    let data_dir = String::from_utf8(test.data_dir.bytes).expect("should be UTF-8 here");
    assert!(data_dir.contains("localdb-laws"));
    let odd = OsPath { bytes: b"/h\xff".to_vec() };
    let odd = HostDirs { data_dir: odd.clone(), config_dir: odd, ..stateless };
    let paths = PlatformPaths::from_host(&Some(odd.clone()), &home, "app").unwrap();
    assert_eq!(paths.data_dir.bytes, b"/h\xff/data".to_vec());
    let odd = HostDirs { data_dir: OsPath { bytes: b"/h\xfe".to_vec() }, ..odd };
    let paths = PlatformPaths::from_host(&Some(odd), &None, "app").unwrap();
    assert_eq!(paths.config_file.bytes, b"/h\xff/config.yaml".to_vec());
    assert_eq!(paths.logs_dir.bytes, b"/h\xfe/logs".to_vec());
}

#[test]
fn locked_databases_are_tried_again() {
    let locked = database_error(true, "busy");
    assert_eq!(locked, Error::RuntimeStateLocked);
    assert_eq!(after_failed_open(0, &locked), OpenStep::Retry { delay_ms: 200 });
    assert_eq!(after_failed_open(1, &locked), OpenStep::Retry { delay_ms: 400 });
    assert_eq!(after_failed_open(2, &locked), OpenStep::GiveUp);
    let broken = database_error(false, "disk I/O error");
    assert_eq!(
        broken,
        Error::Internal {
            message: "runtime-state DB error: disk I/O error".to_string(),
            correlation_id: "sqlite".to_string(),
        }
    );
    assert_eq!(after_failed_open(0, &broken), OpenStep::GiveUp);
}

#[test]
fn registrations_need_https_and_a_host() {
    let parts = |scheme: &str, has_host: bool| {
        Some(UrlParts { scheme: scheme.to_string(), has_host, last_segment: None })
    };
    assert!(redirect_uri_registrable("https://a.b/c", &parts("https", true)));
    assert!(!redirect_uri_registrable("https://a.b/c", &parts("https", false)));
    assert!(!redirect_uri_registrable("https://a.b/c", &None));
    assert!(redirect_uri_registrable("http://localhost:1/c", &None));
    assert_eq!(SUPPORTED_GRANT_TYPES, ["authorization_code", "refresh_token"]);
    assert_eq!(SUPPORTED_RESPONSE_TYPES, ["code"]);
}

#[test]
fn local_backends_keep_their_path() {
    let c = backend::StoreBackendConfig::local_path(
        "/data".to_string(),
        1024,
        backend::VectorEncoding::Int8,
    );
    assert_eq!(
        c.connection,
        backend::StoreBackendConnection::LocalPath("/data".to_string())
    );
    assert_eq!(c.embedding_dim, 1024);
    assert_eq!(c.encoding, backend::VectorEncoding::Int8);
}

#[test]
fn errors_have_their_texts() {
    assert_eq!(
        Error::Unauthorized { message: "m".to_string() }.exit_code(),
        2
    );
    assert_eq!(Error::Forbidden { message: "m".to_string() }.code(), "forbidden");
    assert_eq!(
        Error::InvalidConfig { message: "m".to_string() }.raw_message(),
        Some("m")
    );
    assert_eq!(Error::DaemonRunning.raw_message(), None);
}
