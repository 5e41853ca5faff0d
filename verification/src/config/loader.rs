//! Loading of a configuration: what is accepted, and which paths it comes to.

use super::platform;
use super::platform::PlatformPaths;
use super::refresh;
use super::schema;
use super::schema::{
    DefaultsConfig, IndexingPolicyConfig, PathsConfig, RawConfig, SourceConfig, StoreConfig,
};
use crate::error::{Error, ErrorView};
use crate::os_path;
use crate::os_path::OsPath;
use crate::text;
use vstd::prelude::*;
use vstd::slice::slice_subrange;
use vstd::utf8::encode_utf8;

verus! {

// ---------------------------------------------------------------------------
// Durations
// ---------------------------------------------------------------------------
/// Seconds of the unit that a duration ends in.
pub open spec fn unit_secs(c: char) -> Option<int> {
    if c == 'h' {
        Some(3600)
    } else if c == 'm' {
        Some(60)
    } else if c == 's' {
        Some(1)
    } else if c == 'd' {
        Some(86400)
    } else {
        None
    }
}

/// The seconds that a duration names, or why it names none.
pub open spec fn duration(s: Seq<char>) -> Result<u64, Seq<char>> {
    if s.len() == 0 {
        Err("duration string is empty"@)
    } else {
        match unit_secs(s.last()) {
            None => Err(
                "invalid duration '"@ + s
                    + "': expected a number followed by 'd', 'h', 'm', or 's' (e.g. '24h', '30m', '90s')"@,
            ),
            Some(unit) => match text::parsed_u64(s.drop_last()) {
                None => Err(
                    "invalid duration '"@ + s + "': '"@ + s.drop_last() + "' is not a valid number"@,
                ),
                Some(n) => if n == 0 {
                    Err("invalid duration '"@ + s + "': duration must be greater than zero"@)
                } else if n * unit > u64::MAX {
                    Err(
                        "invalid duration '"@ + s + "': '"@ + s.drop_last()
                            + "' is not a valid number"@,
                    )
                } else {
                    Ok((n * unit) as u64)
                },
            },
        }
    }
}

fn not_a_number(s: &str, number: &str) -> (r: String)
    ensures
        r@ == "invalid duration '"@ + s@ + "': '"@ + number@ + "' is not a valid number"@,
{
    text::concat5("invalid duration '", s, "': '", number, "' is not a valid number")
}

/// Parses a duration: a number followed by `d`, `h`, `m` or `s`. Nothing that is zero, or more
/// seconds than a number holds.
pub fn parse_duration(s: &str) -> (r: Result<u64, String>)
    ensures
        match duration(s@) {
            Ok(n) => r == Ok::<u64, String>(n),
            Err(e) => r is Err && r->Err_0@ == e,
        },
{
    let chars = text::chars_of(s);
    if chars.len() == 0 {
        return Err("duration string is empty".to_owned());
    }
    let last = chars[chars.len() - 1];
    let unit: u64 = if last == 'h' {
        3600
    } else if last == 'm' {
        60
    } else if last == 's' {
        1
    } else if last == 'd' {
        86400
    } else {
        return Err(
            text::concat3(
                "invalid duration '",
                s,
                "': expected a number followed by 'd', 'h', 'm', or 's' (e.g. '24h', '30m', '90s')",
            ),
        );
    };
    let head = slice_subrange(chars.as_slice(), 0, chars.len() - 1);
    assert(head@ =~= s@.drop_last());
    let number = text::string_of(head);
    let n: u64 = match text::parse_u64(head) {
        Some(n) => n,
        None => return Err(not_a_number(s, number.as_str())),
    };
    if n == 0 {
        return Err(
            text::concat3("invalid duration '", s, "': duration must be greater than zero"),
        );
    }
    match refresh::to_seconds(Some(n), unit) {
        Some(secs) => Ok(secs),
        None => Err(not_a_number(s, number.as_str())),
    }
}

// ---------------------------------------------------------------------------
// Validation
// ---------------------------------------------------------------------------
/// What is wrong with a source, if anything; where it stands in the file, and what.
pub open spec fn source_fault(source: SourceConfig) -> Option<Seq<char>> {
    if source.kind@ == "path"@ {
        if source.root is None {
            Some(".root: required for kind 'path'"@)
        } else if source.preset@ != "prose"@ && source.preset@ != "code"@ && source.preset@
            != "messages"@ {
            Some(
                ".preset: unknown preset '"@ + source.preset@
                    + "'; supported: prose, code, messages"@,
            )
        } else {
            None
        }
    } else if source.kind@ == "url"@ {
        if source.url is None {
            Some(".url: required for kind 'url'"@)
        } else {
            match source.refresh {
                Some(refresh) => match duration(refresh@) {
                    Ok(_) => None,
                    Err(e) => Some(".refresh: "@ + e),
                },
                None => None,
            }
        }
    } else {
        Some(".kind: unknown source kind '"@ + source.kind@ + "'; supported: path, url"@)
    }
}

/// Place of a source in the file.
pub open spec fn source_place(store: int, source: int) -> Seq<char> {
    "stores["@ + text::decimal(store as nat) + "].sources["@ + text::decimal(source as nat) + "]"@
}

/// The first fault of a store's sources from the `j`th on.
pub open spec fn sources_fault(sources: Seq<SourceConfig>, store: int, j: int) -> Option<Seq<char>>
    decreases sources.len() - j,
{
    if j < 0 || j >= sources.len() {
        None
    } else {
        match source_fault(sources[j]) {
            Some(fault) => Some(source_place(store, j) + fault),
            None => sources_fault(sources, store, j + 1),
        }
    }
}

/// Whether there is a parser of this id.
pub open spec fn known_parser(id: Seq<char>) -> bool {
    ||| id == "pdf"@
    ||| id == "office"@
    ||| id == "html"@
    ||| id == "markdown"@
    ||| id == "plaintext"@
}

/// The first fault of a policy's parsers from the `j`th on: an unknown id.
pub open spec fn parsers_fault(parsers: Seq<Seq<char>>, place: Seq<char>, j: int) -> Option<
    Seq<char>,
>
    decreases parsers.len() - j,
{
    if j < 0 || j >= parsers.len() {
        None
    } else if !known_parser(parsers[j]) {
        Some(
            place + ".parsers["@ + text::decimal(j as nat) + "]: unknown parser '"@ + parsers[j]
                + "'; supported: pdf, office, html, markdown, plaintext"@,
        )
    } else {
        parsers_fault(parsers, place, j + 1)
    }
}

/// The first fault of a store's own policy, if it has one.
pub open spec fn policy_fault(own: Option<IndexingPolicyConfig>, store: int) -> Option<Seq<char>> {
    match own {
        Some(p) => parsers_fault(
            p@.parsers,
            "stores["@ + text::decimal(store as nat) + "].indexing"@,
            0,
        ),
        None => None,
    }
}

/// The first fault of the stores from the `i`th on: of its sources, its visibility, its
/// backend or its policy.
pub open spec fn stores_fault(stores: Seq<StoreConfig>, i: int) -> Option<Seq<char>>
    decreases stores.len() - i,
{
    if i < 0 || i >= stores.len() {
        None
    } else {
        let s = stores[i];
        match sources_fault(s.sources@, i, 0) {
            Some(fault) => Some(fault),
            None => if s.visibility@ != "private"@ && s.visibility@ != "shared"@ {
                Some(
                    "stores["@ + text::decimal(i as nat)
                        + "].visibility: must be 'private' or 'shared', got '"@ + s.visibility@
                        + "'"@,
                )
            } else if s.backend@ != "lancedb"@ {
                Some(
                    "stores["@ + text::decimal(i as nat) + "].backend: unknown backend '"@
                        + s.backend@ + "'; supported: lancedb"@,
                )
            } else {
                match policy_fault(s.indexing, i) {
                    Some(fault) => Some(fault),
                    None => stores_fault(stores, i + 1),
                }
            },
        }
    }
}

/// What is wrong with a configuration, if anything.
pub open spec fn config_fault(config: RawConfig) -> Option<Seq<char>> {
    if config.version != 1 {
        Some(
            "unsupported config version "@ + text::decimal(config.version as nat)
                + "; only version 1 is supported. Hint: add `version: 1` at the top of your config file."@,
        )
    } else {
        match parsers_fault(config.defaults.indexing@.parsers, "defaults.indexing"@, 0) {
            Some(fault) => Some(fault),
            None => stores_fault(config.stores@, 0),
        }
    }
}

/// Whether there is a parser of this id.
fn is_known_parser(id: &str) -> (r: bool)
    ensures
        r == known_parser(id@),
{
    text::str_eq(id, "pdf") || text::str_eq(id, "office") || text::str_eq(id, "html")
        || text::str_eq(id, "markdown") || text::str_eq(id, "plaintext")
}

/// Checks a policy's parsers. The first unknown id is reported, with its place.
fn validate_parsers(parsers: &Vec<String>, place: &str) -> (r: Result<(), Error>)
    ensures
        match parsers_fault(text::views(parsers@), place@, 0) {
            Some(message) => r is Err && r->Err_0@ == (ErrorView::InvalidConfig { message }),
            None => r is Ok,
        },
{
    let ghost vs = text::views(parsers@);
    let mut j: usize = 0;
    while j < parsers.len()
        invariant
            j <= parsers@.len(),
            vs == text::views(parsers@),
            parsers_fault(vs, place@, 0) == parsers_fault(vs, place@, j as int),
        decreases parsers.len() - j,
    {
        let id = parsers[j].as_str();
        if !is_known_parser(id) {
            let n = text::decimal_string(j as u64);
            let head = text::concat5(place, ".parsers[", n.as_str(), "]: unknown parser '", id);
            return Err(
                Error::InvalidConfig {
                    message: text::concat(
                        head.as_str(),
                        "'; supported: pdf, office, html, markdown, plaintext",
                    ),
                },
            );
        }
        j += 1;
    }
    Ok(())
}

/// Checks a source: its kind, what the kind requires, its preset and its refresh interval.
pub fn validate_source(source: &SourceConfig, store_idx: usize, source_idx: usize) -> (r: Result<
    (),
    Error,
>)
    ensures
        match source_fault(*source) {
            Some(fault) => r is Err && r->Err_0@ == (ErrorView::InvalidConfig {
                message: source_place(store_idx as int, source_idx as int) + fault,
            }),
            None => r is Ok,
        },
{
    let i = text::decimal_string(store_idx as u64);
    let j = text::decimal_string(source_idx as u64);
    let place = text::concat5("stores[", i.as_str(), "].sources[", j.as_str(), "]");
    let fault = if text::str_eq(source.kind.as_str(), "path") {
        let preset = source.preset.as_str();
        if source.root.is_none() {
            ".root: required for kind 'path'".to_owned()
        } else if !text::str_eq(preset, "prose") && !text::str_eq(preset, "code") && !text::str_eq(
            preset,
            "messages",
        ) {
            text::concat3(
                ".preset: unknown preset '",
                preset,
                "'; supported: prose, code, messages",
            )
        } else {
            return Ok(());
        }
    } else if text::str_eq(source.kind.as_str(), "url") {
        if source.url.is_none() {
            ".url: required for kind 'url'".to_owned()
        } else {
            match &source.refresh {
                Some(refresh) => match parse_duration(refresh.as_str()) {
                    Ok(_) => return Ok(()),
                    Err(e) => text::concat(".refresh: ", e.as_str()),
                },
                None => return Ok(()),
            }
        }
    } else {
        text::concat3(
            ".kind: unknown source kind '",
            source.kind.as_str(),
            "'; supported: path, url",
        )
    };
    assert(source_fault(*source) == Some(fault@));
    assert(place@ =~= source_place(store_idx as int, source_idx as int));
    Err(Error::InvalidConfig { message: text::concat(place.as_str(), fault.as_str()) })
}

/// Checks a configuration. The first fault is reported, with its place.
pub fn validate_config(config: &RawConfig) -> (r: Result<(), Error>)
    ensures
        match config_fault(*config) {
            Some(message) => r is Err && r->Err_0@ == (ErrorView::InvalidConfig { message }),
            None => r is Ok,
        },
{
    if config.version != 1 {
        let version = text::decimal_string(config.version as u64);
        return Err(
            Error::InvalidConfig {
                message: text::concat3(
                    "unsupported config version ",
                    version.as_str(),
                    "; only version 1 is supported. Hint: add `version: 1` at the top of your config file.",
                ),
            },
        );
    }
    match validate_parsers(&config.defaults.indexing.parsers, "defaults.indexing") {
        Ok(_) => {},
        Err(e) => return Err(e),
    }
    let mut i: usize = 0;
    while i < config.stores.len()
        invariant
            i <= config.stores@.len(),
            stores_fault(config.stores@, 0) == stores_fault(config.stores@, i as int),
            config_fault(*config) == stores_fault(config.stores@, 0),
        decreases config.stores.len() - i,
    {
        let store = &config.stores[i];
        let mut j: usize = 0;
        while j < store.sources.len()
            invariant
                j <= store.sources@.len(),
                sources_fault(store.sources@, i as int, 0) == sources_fault(
                    store.sources@,
                    i as int,
                    j as int,
                ),
                i < config.stores@.len(),
                *store == config.stores@[i as int],
                stores_fault(config.stores@, 0) == stores_fault(config.stores@, i as int),
                config_fault(*config) == stores_fault(config.stores@, 0),
            decreases store.sources.len() - j,
        {
            match validate_source(&store.sources[j], i, j) {
                Ok(_) => {},
                Err(e) => return Err(e),
            }
            j += 1;
        }
        let place = text::decimal_string(i as u64);
        if !text::str_eq(store.visibility.as_str(), "private") && !text::str_eq(
            store.visibility.as_str(),
            "shared",
        ) {
            return Err(
                Error::InvalidConfig {
                    message: text::concat5(
                        "stores[",
                        place.as_str(),
                        "].visibility: must be 'private' or 'shared', got '",
                        store.visibility.as_str(),
                        "'",
                    ),
                },
            );
        }
        if !text::str_eq(store.backend.as_str(), "lancedb") {
            return Err(
                Error::InvalidConfig {
                    message: text::concat5(
                        "stores[",
                        place.as_str(),
                        "].backend: unknown backend '",
                        store.backend.as_str(),
                        "'; supported: lancedb",
                    ),
                },
            );
        }
        match &store.indexing {
            Some(own) => {
                let place = text::concat3("stores[", place.as_str(), "].indexing");
                match validate_parsers(&own.parsers, place.as_str()) {
                    Ok(_) => {},
                    Err(e) => return Err(e),
                }
            },
            None => {},
        }
        i += 1;
    }
    Ok(())
}

/// A policy with the standard parsers where it names none.
pub open spec fn filled(p: schema::PolicyView) -> schema::PolicyView {
    if p.parsers.len() == 0 {
        schema::PolicyView { parsers: schema::PolicyView::standard().parsers, ..p }
    } else {
        p
    }
}

/// Whether a store is another one with the standard parsers filled in.
pub open spec fn store_filled(s: StoreConfig, t: StoreConfig) -> bool {
    &&& t.name == s.name
    &&& t.visibility == s.visibility
    &&& t.backend == s.backend
    &&& t.sources == s.sources
    &&& match s.indexing {
        Some(p) => t.indexing is Some && t.indexing->0@ == filled(p@),
        None => t.indexing is None,
    }
}

/// Whether a configuration is another one with the standard parsers filled in wherever a
/// policy names none.
pub open spec fn config_filled(c: RawConfig, d: RawConfig) -> bool {
    &&& d.version == c.version
    &&& d.server == c.server
    &&& d.paths == c.paths
    &&& d.providers == c.providers
    &&& d.defaults.indexing@ == filled(c.defaults.indexing@)
    &&& d.stores@.len() == c.stores@.len()
    &&& forall|i: int| 0 <= i < c.stores@.len() ==> store_filled(c.stores@[i], #[trigger] d.stores@[i])
}

/// Names the standard parsers where a policy names none.
fn fill_parsers(policy: IndexingPolicyConfig) -> (r: IndexingPolicyConfig)
    ensures
        r@ == filled(policy@),
{
    if policy.parsers.len() == 0 {
        let mut policy = policy;
        policy.parsers = IndexingPolicyConfig::default().parsers;
        policy
    } else {
        policy
    }
}

/// Names the standard parsers wherever a policy names none.
fn fill_config(config: RawConfig) -> (r: RawConfig)
    ensures
        config_filled(config, r),
{
    let RawConfig { version, server, paths, defaults, stores, providers } = config;
    let ghost before = stores@;
    let mut rest = stores;
    let mut back: Vec<StoreConfig> = Vec::new();
    while rest.len() > 0
        invariant
            rest@.len() + back@.len() == before.len(),
            rest@ == before.take(rest@.len() as int),
            forall|k: int|
                0 <= k < back@.len() ==> store_filled(
                    before[before.len() - 1 - k],
                    #[trigger] back@[k],
                ),
        decreases rest.len(),
    {
        let ghost n = rest@.len() - 1;
        match rest.pop() {
            Some(s) => {
                let StoreConfig { name, visibility, backend, indexing, sources } = s;
                let indexing = match indexing {
                    Some(p) => Some(fill_parsers(p)),
                    None => None,
                };
                back.push(StoreConfig { name, visibility, backend, indexing, sources });
                assert(rest@ =~= before.take(n));
            },
            None => {},
        }
    }
    let mut filled_stores: Vec<StoreConfig> = Vec::new();
    while back.len() > 0
        invariant
            filled_stores@.len() + back@.len() == before.len(),
            forall|k: int|
                0 <= k < back@.len() ==> store_filled(
                    before[before.len() - 1 - k],
                    #[trigger] back@[k],
                ),
            forall|k: int|
                0 <= k < filled_stores@.len() ==> store_filled(before[k], #[trigger] filled_stores@[k]),
        decreases back.len(),
    {
        let ghost last = back@.last();
        assert(store_filled(before[filled_stores@.len() as int], last));
        match back.pop() {
            Some(s) => filled_stores.push(s),
            None => {},
        }
    }
    RawConfig {
        version,
        server,
        paths,
        defaults: DefaultsConfig { indexing: fill_parsers(defaults.indexing) },
        stores: filled_stores,
        providers,
    }
}

/// What a parser's complaint is reported as. Where the version is missing, a hint follows.
pub open spec fn parse_failure(complaint: Seq<char>) -> ErrorView {
    if text::occurs_in("missing field"@, complaint) && text::occurs_in("version"@, complaint) {
        ErrorView::InvalidConfig {
            message: complaint + ". Hint: add `version: 1` at the top of your config file."@,
        }
    } else {
        ErrorView::InvalidConfig { message: complaint }
    }
}

/// Takes what parsing a file came to, a configuration or the parser's complaint. Returns a
/// configuration that is valid, with the standard parsers wherever a policy names none, or the
/// error.
pub fn accept_config(parsed: Result<RawConfig, String>) -> (r: Result<RawConfig, Error>)
    ensures
        match parsed {
            Ok(config) => match config_fault(config) {
                Some(message) => r is Err && r->Err_0@ == (ErrorView::InvalidConfig { message }),
                None => r is Ok && config_filled(config, r->Ok_0),
            },
            Err(complaint) => r is Err && r->Err_0@ == parse_failure(complaint@),
        },
{
    match parsed {
        Ok(config) => match validate_config(&config) {
            Ok(_) => Ok(fill_config(config)),
            Err(e) => Err(e),
        },
        Err(complaint) => {
            if text::contains_str(complaint.as_str(), "missing field") && text::contains_str(
                complaint.as_str(),
                "version",
            ) {
                Err(
                    Error::InvalidConfig {
                        message: text::concat(
                            complaint.as_str(),
                            ". Hint: add `version: 1` at the top of your config file.",
                        ),
                    },
                )
            } else {
                Err(Error::InvalidConfig { message: complaint })
            }
        },
    }
}

// ---------------------------------------------------------------------------
// Paths
// ---------------------------------------------------------------------------
/// Choices that go before what the configuration says.
#[derive(Debug, Clone, PartialEq, Eq)]
pub struct LoadOptions {
    pub config_path: Option<OsPath>,
    pub data_dir: Option<OsPath>,
    pub models_dir: Option<OsPath>,
    pub logs_dir: Option<OsPath>,
}

impl Default for LoadOptions {
    /// No choices.
    fn default() -> (r: Self)
        ensures
            r.config_path is None,
            r.data_dir is None,
            r.models_dir is None,
            r.logs_dir is None,
    {
        LoadOptions { config_path: None, data_dir: None, models_dir: None, logs_dir: None }
    }
}

/// A valid configuration, with its paths.
#[derive(Debug, Clone)]
pub struct ConfigLoader {
    pub config: RawConfig,
    pub paths: ResolvedPaths,
}

/// The paths that a configuration comes to.
#[derive(Debug, Clone, PartialEq, Eq)]
pub struct ResolvedPaths {
    pub config_file: OsPath,
    pub data_dir: OsPath,
    pub models_dir: OsPath,
    pub logs_dir: OsPath,
}

impl View for ResolvedPaths {
    type V = platform::PathsView;

    open spec fn view(&self) -> platform::PathsView {
        platform::PathsView {
            config_file: self.config_file@,
            data_dir: self.data_dir@,
            models_dir: self.models_dir@,
            logs_dir: self.logs_dir@,
        }
    }
}

impl ResolvedPaths {
    /// The daemon's socket.
    pub fn socket_path(&self) -> (r: OsPath)
        ensures
            r@ == os_path::path_join(self.data_dir@, "daemon.sock"@),
    {
        self.data_dir.join("daemon.sock")
    }

    /// The lock that writers hold.
    pub fn write_lock_path(&self) -> (r: OsPath)
        ensures
            r@ == os_path::path_join(self.data_dir@, ".write.lock"@),
    {
        self.data_dir.join(".write.lock")
    }

    /// The database of what was configured at run time.
    pub fn runtime_state_db_path(&self) -> (r: OsPath)
        ensures
            r@ == os_path::path_join(self.data_dir@, "runtime-state.db"@),
    {
        self.data_dir.join("runtime-state.db")
    }
}

/// The error where the platform has no place for the configuration file.
pub open spec fn no_config_path() -> ErrorView {
    ErrorView::InvalidConfig {
        message: "cannot determine platform config path (no home directory?)"@,
    }
}

/// The configuration file: the one that was chosen, or that the environment names, or the
/// platform's.
pub fn choose_config_path(
    options: &LoadOptions,
    env_config_path: &Option<OsPath>,
    platform: Option<PlatformPaths>,
) -> (r: Result<OsPath, Error>)
    ensures
        match (options.config_path, *env_config_path, platform) {
            (Some(p), _, _) => r is Ok && r->Ok_0@ == p@,
            (None, Some(p), _) => r is Ok && r->Ok_0@ == p@,
            (None, None, Some(p)) => r is Ok && r->Ok_0@ == p@.config_file,
            (None, None, None) => r is Err && r->Err_0@ == no_config_path(),
        },
{
    match &options.config_path {
        Some(p) => Ok(p.copied()),
        None => match env_config_path {
            Some(p) => Ok(p.copied()),
            None => match platform {
                Some(p) => Ok(p.config_file),
                None => Err(
                    Error::invalid_config(
                        "cannot determine platform config path (no home directory?)".to_owned(),
                    ),
                ),
            },
        },
    }
}

/// The configuration file to load. What the platform assigns depends on the environment, and
/// is asked only where nothing else was said.
pub fn resolve_config_path(options: &LoadOptions, env_config_path: &Option<OsPath>) -> (r: Result<
    OsPath,
    Error,
>)
    ensures
        match (options.config_path, *env_config_path) {
            (Some(p), _) => r is Ok && r->Ok_0@ == p@,
            (None, Some(p)) => r is Ok && r->Ok_0@ == p@,
            (None, None) => match r {
                Ok(p) => exists|platform: platform::PathsView|
                    #[trigger] is_platform(platform) && p@ == platform.config_file,
                Err(e) => e@ == no_config_path(),
            },
        },
{
    if options.config_path.is_some() || env_config_path.is_some() {
        choose_config_path(options, env_config_path, None)
    } else {
        let platform = PlatformPaths::resolve();
        assert(platform matches Some(p) ==> is_platform(p@));
        choose_config_path(options, env_config_path, platform)
    }
}

/// A path with `~/` in front of it replaced by the home directory, where there is one.
pub open spec fn expanded(path: Seq<char>, home: Option<Seq<u8>>) -> Seq<u8> {
    match home {
        Some(home) => if text::starts_with(path, "~/"@) {
            os_path::path_join(home, path.skip(2))
        } else {
            encode_utf8(path)
        },
        None => encode_utf8(path),
    }
}

/// Replaces `~/` in front of a path by the given home directory.
pub fn expand_path_in(path: &str, home: &Option<OsPath>) -> (r: OsPath)
    ensures
        r@ == expanded(path@, os_path::opt_path(*home)),
{
    proof {
        reveal_strlit("~/");
    }
    match home {
        Some(home) => {
            if text::str_has_prefix(path, "~/") {
                let chars = text::chars_of(path);
                let rest = text::string_of(slice_subrange(chars.as_slice(), 2, chars.len()));
                assert(rest@ =~= path@.skip(2));
                home.join(rest.as_str())
            } else {
                OsPath::from_text(path)
            }
        },
        None => OsPath::from_text(path),
    }
}

/// Replaces `~/` in front of a path by the home directory.
pub fn expand_path(path: &str) -> (r: OsPath)
    ensures
        exists|home: Option<Seq<u8>>| r@ == #[trigger] expanded(path@, home),
        !text::starts_with(path@, "~/"@) ==> r@ == encode_utf8(path@),
{
    let home = platform::home_dir();
    expand_path_in(path, &home)
}

/// The directory that was chosen, or that the configuration names, or the platform's.
pub open spec fn directory(
    chosen: Option<Seq<u8>>,
    configured: Option<Seq<char>>,
    home: Option<Seq<u8>>,
    platform: Seq<u8>,
) -> Seq<u8> {
    match chosen {
        Some(d) => d,
        None => match configured {
            Some(d) => expanded(d, home),
            None => platform,
        },
    }
}

fn pick_directory(
    chosen: &Option<OsPath>,
    configured: &Option<String>,
    home: &Option<OsPath>,
    platform: &OsPath,
) -> (r: OsPath)
    ensures
        r@ == directory(
            os_path::opt_path(*chosen),
            text::opt_view(*configured),
            os_path::opt_path(*home),
            platform@,
        ),
{
    match chosen {
        Some(d) => d.copied(),
        None => match configured {
            Some(d) => expand_path_in(d.as_str(), home),
            None => platform.copied(),
        },
    }
}

/// The paths that a configuration comes to, given the platform's paths and the home directory.
pub open spec fn resolved(
    configured: PathsConfig,
    config_path: Seq<u8>,
    options: LoadOptions,
    home: Option<Seq<u8>>,
    platform: platform::PathsView,
) -> platform::PathsView {
    platform::PathsView {
        config_file: config_path,
        data_dir: directory(
            os_path::opt_path(options.data_dir),
            text::opt_view(configured.data),
            home,
            platform.data_dir,
        ),
        models_dir: directory(
            os_path::opt_path(options.models_dir),
            text::opt_view(configured.models),
            home,
            platform.models_dir,
        ),
        logs_dir: directory(
            os_path::opt_path(options.logs_dir),
            text::opt_view(configured.logs),
            home,
            platform.logs_dir,
        ),
    }
}

/// The paths that a configuration comes to, given the platform's paths and the home directory.
pub fn resolve_paths_in(
    configured: &PathsConfig,
    config_path: &OsPath,
    options: &LoadOptions,
    home: &Option<OsPath>,
    platform: &PlatformPaths,
) -> (r: ResolvedPaths)
    ensures
        r@ == resolved(
            *configured,
            config_path@,
            *options,
            os_path::opt_path(*home),
            platform@,
        ),
{
    ResolvedPaths {
        config_file: config_path.copied(),
        data_dir: pick_directory(
            &options.data_dir,
            &configured.data,
            home,
            &platform.data_dir,
        ),
        models_dir: pick_directory(
            &options.models_dir,
            &configured.models,
            home,
            &platform.models_dir,
        ),
        logs_dir: pick_directory(
            &options.logs_dir,
            &configured.logs,
            home,
            &platform.logs_dir,
        ),
    }
}

/// Whether paths are those within directories that were asked for localdb.
pub open spec fn is_platform(p: platform::PathsView) -> bool {
    exists|d: platform::HostView, home: Option<Seq<u8>>|
        d.asked == (""@, ""@, "localdb"@) && #[trigger] platform::paths_within(
            d,
            home,
            platform::as_on_macos(d),
            "localdb"@,
        ) == Some(p)
}

/// The paths that a configuration comes to on this machine.
pub fn resolve_paths(config: &RawConfig, config_path: &OsPath, options: &LoadOptions) -> (r: Result<
    ResolvedPaths,
    Error,
>)
    ensures
        match r {
            Ok(p) => exists|home: Option<Seq<u8>>, platform: platform::PathsView|
                is_platform(platform) && p@ == #[trigger] resolved(
                    config.paths,
                    config_path@,
                    *options,
                    home,
                    platform,
                ),
            Err(e) => e@ == (ErrorView::InvalidConfig {
                message: "cannot determine platform paths"@,
            }),
        },
{
    match PlatformPaths::resolve() {
        Some(platform) => {
            let home = platform::home_dir();
            Ok(
                resolve_paths_in(
                    &config.paths,
                    config_path,
                    options,
                    &home,
                    &platform,
                ),
            )
        },
        None => Err(Error::invalid_config("cannot determine platform paths".to_owned())),
    }
}

// ---------------------------------------------------------------------------
// Laws
// ---------------------------------------------------------------------------
/// A refresh interval in whole hours, minutes or seconds means the same as a duration; only
/// zero is no duration.
pub proof fn durations_and_intervals_agree(s: Seq<char>)
    requires
        s.len() > 0,
        s.last() == 'h' || s.last() == 'm' || s.last() == 's',
    ensures
        match duration(s) {
            Ok(n) => refresh::interval_secs(s) == Some(n),
            Err(_) => refresh::interval_secs(s) is None || refresh::interval_secs(s) == Some(0u64),
        },
{
    match text::parsed_u64(s.drop_last()) {
        Some(n) => {
            assert(n * 1 == n);
            assert(n == 0 ==> n * 3600 == 0 && n * 60 == 0);
        },
        None => {},
    }
}

/// A configuration is valid exactly if its version is 1, every parser is known, and every store
/// has a known visibility and backend, and no source has a fault.
pub proof fn valid_configurations(config: RawConfig)
    ensures
        config_fault(config) is None <==> {
            &&& config.version == 1
            &&& all_known(config.defaults.indexing@.parsers)
            &&& forall|i: int|
                0 <= i < config.stores@.len() ==> faultless(#[trigger] config.stores@[i])
        },
{
    lemma_parsers_fault(config.defaults.indexing@.parsers, "defaults.indexing"@, 0);
    lemma_stores_fault(config.stores@, 0);
}

/// Whether all parsers are known.
pub open spec fn all_known(parsers: Seq<Seq<char>>) -> bool {
    forall|j: int| 0 <= j < parsers.len() ==> known_parser(#[trigger] parsers[j])
}

/// Whether a store has a known visibility, backend and parsers, and sources without a fault.
pub open spec fn faultless(s: StoreConfig) -> bool {
    &&& s.visibility@ == "private"@ || s.visibility@ == "shared"@
    &&& s.backend@ == "lancedb"@
    &&& s.indexing matches Some(p) ==> all_known(p@.parsers)
    &&& forall|j: int| 0 <= j < s.sources@.len() ==> source_fault(#[trigger] s.sources@[j]) is None
}

proof fn lemma_parsers_fault(parsers: Seq<Seq<char>>, place: Seq<char>, j: int)
    requires
        0 <= j <= parsers.len(),
    ensures
        parsers_fault(parsers, place, j) is None <==> forall|k: int|
            j <= k < parsers.len() ==> known_parser(#[trigger] parsers[k]),
    decreases parsers.len() - j,
{
    if j < parsers.len() {
        lemma_parsers_fault(parsers, place, j + 1);
    }
}

proof fn lemma_sources_fault(sources: Seq<SourceConfig>, store: int, j: int)
    requires
        0 <= j <= sources.len(),
    ensures
        sources_fault(sources, store, j) is None <==> forall|k: int|
            j <= k < sources.len() ==> source_fault(#[trigger] sources[k]) is None,
    decreases sources.len() - j,
{
    if j < sources.len() {
        lemma_sources_fault(sources, store, j + 1);
    }
}

proof fn lemma_stores_fault(stores: Seq<StoreConfig>, i: int)
    requires
        0 <= i <= stores.len(),
    ensures
        stores_fault(stores, i) is None <==> forall|k: int|
            i <= k < stores.len() ==> faultless(#[trigger] stores[k]),
    decreases stores.len() - i,
{
    if i < stores.len() {
        lemma_stores_fault(stores, i + 1);
        lemma_sources_fault(stores[i].sources@, i, 0);
        if let Some(p) = stores[i].indexing {
            lemma_parsers_fault(
                p@.parsers,
                "stores["@ + text::decimal(i as nat) + "].indexing"@,
                0,
            );
        }
    }
}

} // verus!
