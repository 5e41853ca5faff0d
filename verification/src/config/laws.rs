//! What is promised of configurations: which are valid, and what they come to.

use super::loader;
use super::platform;
use super::policy;
use super::refresh;
use super::runtime_state;
use super::runtime_state::RuntimeSource;
use super::schema;
use super::schema::{PathsConfig, RawConfig, SourceConfig, StoreConfig};
use crate::error::ErrorView;
use crate::json;
use crate::os_path;
use crate::text;
use vstd::prelude::*;
use vstd::utf8::encode_utf8;

verus! {

// ---------------------------------------------------------------------------
// Durations
// ---------------------------------------------------------------------------
/// A number in decimal notation is read as that number.
pub proof fn numbers_are_read_as_written(n: nat)
    ensures
        n <= u64::MAX ==> text::parsed_u64(text::decimal(n)) == Some(n as u64),
        n > u64::MAX ==> text::parsed_u64(text::decimal(n)) is None,
{
    text::lemma_decimal_value(n);
    let d = text::decimal(n);
    assert(d.len() > 0);
    assert(text::ascii_digit(d[0]));
    assert(d[0] != '+');
}

/// A duration is a positive number of days, hours, minutes or seconds, and comes to that many
/// seconds, as far as they can be counted.
pub proof fn durations_are_numbers_with_a_unit(n: nat, unit: char, secs: int)
    requires
        (unit == 'd' && secs == 24 * 60 * 60) || (unit == 'h' && secs == 60 * 60) || (unit == 'm'
            && secs == 60) || (unit == 's' && secs == 1),
    ensures
        0 < n && n * secs <= u64::MAX ==> loader::duration(text::decimal(n).push(unit)) == Ok::<
            u64,
            Seq<char>,
        >((n * secs) as u64),
        n == 0 ==> loader::duration(text::decimal(n).push(unit)) is Err,
        n * secs > u64::MAX ==> loader::duration(text::decimal(n).push(unit)) is Err,
{
    let s = text::decimal(n).push(unit);
    assert(s.drop_last() =~= text::decimal(n));
    assert(s.last() == unit);
    numbers_are_read_as_written(n);
    assert(n <= n * secs) by (nonlinear_arith)
        requires
            secs >= 1,
            n >= 0,
    ;
}

/// A text is no duration if it ends in no unit, or has no number before it.
pub proof fn other_texts_are_no_durations(s: Seq<char>)
    requires
        ({
            ||| s.len() == 0
            ||| s.last() != 'd' && s.last() != 'h' && s.last() != 'm' && s.last() != 's'
            ||| text::parsed_u64(s.drop_last()) is None
        }),
    ensures
        loader::duration(s) is Err,
{
}

/// A refresh interval is a number of hours, minutes or seconds, or a plain number of seconds.
pub proof fn intervals_are_numbers_with_a_unit(n: nat, unit: char, secs: int)
    requires
        (unit == 'h' && secs == 60 * 60) || (unit == 'm' && secs == 60) || (unit == 's' && secs
            == 1),
        n <= u64::MAX,
    ensures
        refresh::interval_secs(text::decimal(n).push(unit)) == (if n * secs <= u64::MAX {
            Some((n * secs) as u64)
        } else {
            None
        }),
        refresh::interval_secs(text::decimal(n)) == Some(n as u64),
{
    let s = text::decimal(n).push(unit);
    assert(s.drop_last() =~= text::decimal(n));
    numbers_are_read_as_written(n);
    text::lemma_decimal_value(n);
    let d = text::decimal(n);
    assert(text::ascii_digit(d[d.len() - 1]));
    assert(n * 1 == n);
}

// ---------------------------------------------------------------------------
// Validity
// ---------------------------------------------------------------------------
/// Whether a source says where it is: a path with a root and a known preset, or a URL with an
/// address and, if it says how often, a duration.
pub open spec fn says_where_it_is(s: SourceConfig) -> bool {
    let is_path = s.kind@ == "path"@ && s.root is Some && (s.preset@ == "prose"@ || s.preset@
        == "code"@ || s.preset@ == "messages"@);
    let is_url = s.kind@ == "url"@ && s.url is Some && (s.refresh matches Some(r)
        ==> loader::duration(r@) is Ok);
    is_path || is_url
}

/// Whether parsers are among the five that there are.
pub open spec fn are_there(parsers: Seq<Seq<char>>) -> bool {
    forall|j: int|
        0 <= j < parsers.len() ==> {
            let id = #[trigger] parsers[j];
            id == "markdown"@ || id == "plaintext"@ || id == "html"@ || id == "pdf"@ || id
                == "office"@
        }
}

/// Whether a store is declared as it can be: private or shared, in the one backend, with parsers
/// that are there and sources that say where they are.
pub open spec fn is_declarable(s: StoreConfig) -> bool {
    &&& s.visibility@ == "private"@ || s.visibility@ == "shared"@
    &&& s.backend@ == "lancedb"@
    &&& s.indexing matches Some(p) ==> are_there(p@.parsers)
    &&& forall|j: int| 0 <= j < s.sources@.len() ==> says_where_it_is(#[trigger] s.sources@[j])
}

/// A source is faultless exactly if it says where it is.
pub proof fn sources_say_where_they_are(s: SourceConfig)
    ensures
        loader::source_fault(s) is None <==> says_where_it_is(s),
{
    reveal_strlit("path");
    reveal_strlit("url");
    assert("path"@.len() == 4 && "url"@.len() == 3);
}

proof fn lemma_are_there(parsers: Seq<Seq<char>>)
    ensures
        loader::all_known(parsers) == are_there(parsers),
{
    if loader::all_known(parsers) {
        assert forall|j: int| 0 <= j < parsers.len() implies {
            let id = #[trigger] parsers[j];
            id == "markdown"@ || id == "plaintext"@ || id == "html"@ || id == "pdf"@ || id
                == "office"@
        } by {
            assert(loader::known_parser(parsers[j]));
        }
    }
    if are_there(parsers) {
        assert forall|j: int| 0 <= j < parsers.len() implies loader::known_parser(
            #[trigger] parsers[j],
        ) by {}
    }
}

proof fn lemma_declarable(s: StoreConfig)
    ensures
        loader::faultless(s) == is_declarable(s),
{
    if let Some(p) = s.indexing {
        lemma_are_there(p@.parsers);
    }
    assert forall|j: int| 0 <= j < s.sources@.len() implies (loader::source_fault(
        #[trigger] s.sources@[j],
    ) is None <==> says_where_it_is(s.sources@[j])) by {
        sources_say_where_they_are(s.sources@[j]);
    }
    if loader::faultless(s) {
        assert forall|j: int| 0 <= j < s.sources@.len() implies says_where_it_is(
            #[trigger] s.sources@[j],
        ) by {
            assert(loader::source_fault(s.sources@[j]) is None);
        }
    }
    if is_declarable(s) {
        assert forall|j: int| 0 <= j < s.sources@.len() implies loader::source_fault(
            #[trigger] s.sources@[j],
        ) is None by {
            assert(says_where_it_is(s.sources@[j]));
        }
    }
}

/// A configuration is accepted exactly if it is of version 1, its parsers are there, and each of
/// its stores is declared as it can be.
pub proof fn configurations_are_accepted_as_a_whole(config: RawConfig)
    ensures
        loader::config_fault(config) is None <==> {
            &&& config.version == 1
            &&& are_there(config.defaults.indexing@.parsers)
            &&& forall|i: int|
                0 <= i < config.stores@.len() ==> is_declarable(#[trigger] config.stores@[i])
        },
{
    loader::valid_configurations(config);
    lemma_are_there(config.defaults.indexing@.parsers);
    assert forall|i: int| 0 <= i < config.stores@.len() implies loader::faultless(
        #[trigger] config.stores@[i],
    ) == is_declarable(config.stores@[i]) by {
        lemma_declarable(config.stores@[i]);
    }
    if forall|i: int| 0 <= i < config.stores@.len() ==> loader::faultless(#[trigger] config.stores@[i]) {
        assert forall|i: int| 0 <= i < config.stores@.len() implies is_declarable(
            #[trigger] config.stores@[i],
        ) by {
            assert(loader::faultless(config.stores@[i]));
        }
    }
    if forall|i: int| 0 <= i < config.stores@.len() ==> is_declarable(#[trigger] config.stores@[i]) {
        assert forall|i: int| 0 <= i < config.stores@.len() implies loader::faultless(
            #[trigger] config.stores@[i],
        ) by {
            assert(is_declarable(config.stores@[i]));
        }
    }
}

proof fn lemma_sources_place(sources: Seq<SourceConfig>, store: int, j: int)
    requires
        0 <= j <= sources.len(),
    ensures
        loader::sources_fault(sources, store, j) matches Some(m) ==> exists|k: int|
            j <= k < sources.len() && !says_where_it_is(#[trigger] sources[k]) && text::starts_with(
                m,
                loader::source_place(store, k),
            ) && forall|i: int| j <= i < k ==> says_where_it_is(#[trigger] sources[i]),
    decreases sources.len() - j,
{
    if j < sources.len() {
        sources_say_where_they_are(sources[j]);
        match loader::source_fault(sources[j]) {
            Some(fault) => {
                let place = loader::source_place(store, j);
                assert((place + fault).take(place.len() as int) =~= place);
            },
            None => {
                lemma_sources_place(sources, store, j + 1);
            },
        }
    }
}

/// A fault of a source is reported with its place: the store and the first source that does not
/// say where it is.
pub proof fn faulty_sources_are_reported_by_their_place(sources: Seq<SourceConfig>, store: nat)
    ensures
        loader::sources_fault(sources, store as int, 0) matches Some(m) ==> exists|k: int|
            0 <= k < sources.len() && !says_where_it_is(#[trigger] sources[k]) && text::starts_with(
                m,
                "stores["@ + text::decimal(store) + "].sources["@ + text::decimal(k as nat) + "]"@,
            ) && forall|i: int| 0 <= i < k ==> says_where_it_is(#[trigger] sources[i]),
{
    lemma_sources_place(sources, store as int, 0);
    if let Some(m) = loader::sources_fault(sources, store as int, 0) {
        let k = choose|k: int|
            0 <= k < sources.len() && !says_where_it_is(#[trigger] sources[k]) && text::starts_with(
                m,
                loader::source_place(store as int, k),
            ) && forall|i: int| 0 <= i < k ==> says_where_it_is(#[trigger] sources[i]);
        assert(!says_where_it_is(sources[k]));
    }
}

/// A policy that names no parsers gets all five, from the most special to the most general;
/// one that names any keeps them. Nothing else of it changes.
pub proof fn missing_parsers_are_filled_in(p: schema::PolicyView)
    ensures
        p.parsers.len() == 0 ==> loader::filled(p).parsers == seq![
            "pdf"@,
            "office"@,
            "html"@,
            "markdown"@,
            "plaintext"@,
        ],
        p.parsers.len() > 0 ==> loader::filled(p) == p,
        loader::filled(p).overrides == p.overrides,
        loader::filled(p).model == p.model,
        loader::filled(p).provider == p.provider,
{
}

/// A configuration that is accepted is what the file says, but for parsers that are filled in:
/// the same server, paths and providers, and the same stores with the same sources, in the same
/// order.
pub proof fn accepted_configurations_are_what_the_file_says(c: RawConfig, d: RawConfig, i: int)
    requires
        loader::config_filled(c, d),
    ensures
        d.version == c.version,
        d.server == c.server,
        d.paths == c.paths,
        d.providers == c.providers,
        d.stores@.len() == c.stores@.len(),
        d.defaults.indexing@.model == c.defaults.indexing@.model,
        d.defaults.indexing@.provider == c.defaults.indexing@.provider,
        d.defaults.indexing@.overrides == c.defaults.indexing@.overrides,
        d.defaults.indexing@.parsers.len() > 0,
        c.defaults.indexing@.parsers.len() > 0 ==> d.defaults.indexing@ == c.defaults.indexing@,
        0 <= i < c.stores@.len() ==> {
            let (s, t) = (c.stores@[i], d.stores@[i]);
            &&& t.name == s.name
            &&& t.visibility == s.visibility
            &&& t.backend == s.backend
            &&& t.sources == s.sources
            &&& t.indexing is Some <==> s.indexing is Some
            &&& s.indexing matches Some(p) ==> {
                &&& t.indexing->0@.model == p@.model
                &&& t.indexing->0@.provider == p@.provider
                &&& t.indexing->0@.overrides == p@.overrides
                &&& p@.parsers.len() > 0 ==> t.indexing->0@.parsers == p@.parsers
            }
        },
{
    if 0 <= i < c.stores@.len() {
        assert(loader::store_filled(c.stores@[i], d.stores@[i]));
    }
}

/// A complaint of the parser is reported as it is; one about a missing version with a hint
/// behind it.
pub proof fn complaints_are_passed_on(complaint: Seq<char>)
    ensures
        loader::parse_failure(complaint) matches ErrorView::InvalidConfig { message }
            && text::starts_with(message, complaint) && (message == complaint <==> !(
        text::occurs_in("missing field"@, complaint) && text::occurs_in("version"@, complaint))),
{
    reveal_strlit(". Hint: add `version: 1` at the top of your config file.");
    let hint = ". Hint: add `version: 1` at the top of your config file."@;
    assert(complaint.take(complaint.len() as int) =~= complaint);
    assert((complaint + hint).take(complaint.len() as int) =~= complaint);
    assert((complaint + hint).len() > complaint.len());
}

// ---------------------------------------------------------------------------
// Paths
// ---------------------------------------------------------------------------
/// A name in a directory is behind the directory and one separator; an absolute one stands for
/// itself.
pub proof fn names_are_joined_by_one_separator(base: Seq<u8>, name: Seq<char>)
    ensures
        ({
            let n = encode_utf8(name);
            let j = os_path::path_join(base, name);
            &&& n.len() > 0 && n[0] == 47u8 ==> j == n
            &&& !(n.len() > 0 && n[0] == 47u8) ==> {
                &&& base.len() == 0 ==> j == n
                &&& base.len() > 0 && base.last() == 47u8 ==> j == base + n
                &&& base.len() > 0 && base.last() != 47u8 ==> j == base + seq![47u8] + n
            }
        }),
{
    let n = encode_utf8(name);
    if base.len() == 0 {
        assert(base + n =~= n);
    }
    assert(base.push(47u8) + n =~= base + seq![47u8] + n);
}

/// A path that begins with `~/` lies in the home directory, if there is one. Every other path
/// stays as it is.
pub proof fn tildes_lead_home(path: Seq<char>, home: Seq<u8>)
    ensures
        loader::expanded(path, None) == encode_utf8(path),
        !text::starts_with(path, "~/"@) ==> loader::expanded(path, Some(home)) == encode_utf8(path),
        text::starts_with(path, "~/"@) ==> loader::expanded(path, Some(home))
            == os_path::path_join(home, path.skip(2)),
{
}

/// A directory that was chosen goes before one that is configured, and that before the
/// platform's. What is configured may lie in the home directory.
pub proof fn choices_go_before_the_configuration(
    configured: PathsConfig,
    config_path: Seq<u8>,
    options: loader::LoadOptions,
    home: Option<Seq<u8>>,
    platform: platform::PathsView,
)
    ensures
        ({
            let r = loader::resolved(configured, config_path, options, home, platform);
            &&& r.config_file == config_path
            &&& options.data_dir matches Some(d) ==> r.data_dir == d@
            &&& options.models_dir matches Some(d) ==> r.models_dir == d@
            &&& options.logs_dir matches Some(d) ==> r.logs_dir == d@
            &&& options.data_dir is None ==> match configured.data {
                Some(d) => r.data_dir == loader::expanded(d@, home),
                None => r.data_dir == platform.data_dir,
            }
            &&& options.models_dir is None ==> match configured.models {
                Some(d) => r.models_dir == loader::expanded(d@, home),
                None => r.models_dir == platform.models_dir,
            }
            &&& options.logs_dir is None ==> match configured.logs {
                Some(d) => r.logs_dir == loader::expanded(d@, home),
                None => r.logs_dir == platform.logs_dir,
            }
        }),
{
}

/// An installation lies within the platform's directories: the configuration file, the data and
/// the models in theirs, and the logs with the state. On macOS the data and the logs have places
/// of their own, and without a home directory there is none.
pub proof fn installations_lie_in_the_platforms_directories(
    d: platform::HostView,
    home: Option<Seq<u8>>,
    application: Seq<char>,
)
    ensures
        platform::paths_within(d, home, false, application) matches Some(p) && {
            &&& p.config_file == os_path::path_join(d.config_dir, "config.yaml"@)
            &&& p.data_dir == d.data_dir
            &&& p.models_dir == os_path::path_join(d.cache_dir, "models"@)
            &&& d.state_dir matches Some(s) ==> p.logs_dir == os_path::path_join(s, "logs"@)
            &&& d.state_dir is None ==> p.logs_dir == os_path::path_join(d.data_dir, "logs"@)
        },
        home is None ==> platform::paths_within(d, home, true, application) is None,
        home matches Some(h) ==> (platform::paths_within(d, home, true, application) matches Some(
            p,
        ) && {
            &&& p.config_file == os_path::path_join(d.config_dir, "config.yaml"@)
            &&& p.data_dir == os_path::path_join(d.data_dir, "data"@)
            &&& p.models_dir == os_path::path_join(d.cache_dir, "models"@)
            &&& p.logs_dir == os_path::path_join(
                os_path::path_join(os_path::path_join(h, "Library"@), "Logs"@),
                application,
            )
        }),
{
}

/// What the platform assigns is asked for under the name of the application alone.
pub proof fn the_platform_is_asked_for_localdb(p: platform::PathsView)
    requires
        loader::is_platform(p),
    ensures
        exists|d: platform::HostView, home: Option<Seq<u8>>|
            d.asked.0.len() == 0 && d.asked.1.len() == 0 && d.asked.2 == "localdb"@
                && #[trigger] platform::paths_within(
                d,
                home,
                platform::as_on_macos(d),
                "localdb"@,
            ) == Some(p),
{
    reveal_strlit("");
    let (d, home) = choose|d: platform::HostView, home: Option<Seq<u8>>|
        d.asked == (""@, ""@, "localdb"@) && #[trigger] platform::paths_within(
            d,
            home,
            platform::as_on_macos(d),
            "localdb"@,
        ) == Some(p);
    assert(platform::paths_within(d, home, platform::as_on_macos(d), "localdb"@) == Some(p));
}

/// Only macOS has one directory for configuration and data, and none for state.
pub proof fn macos_is_known_by_its_directories(d: platform::HostView)
    ensures
        d.state_dir is None && d.config_dir == d.data_dir ==> platform::as_on_macos(d),
        d.state_dir is Some || d.config_dir != d.data_dir ==> !platform::as_on_macos(d),
{
}

// ---------------------------------------------------------------------------
// Policies
// ---------------------------------------------------------------------------
/// A pair as a member of a JSON object.
pub open spec fn member(p: (Seq<char>, Seq<char>)) -> Seq<char> {
    json::quoted(p.0) + seq![':'] + json::quoted(p.1)
}

/// Texts with a comma between each two of them.
pub open spec fn in_a_list(parts: Seq<Seq<char>>) -> Seq<char>
    decreases parts.len(),
{
    if parts.len() == 0 {
        Seq::empty()
    } else if parts.len() == 1 {
        parts[0]
    } else {
        parts[0] + seq![','] + in_a_list(parts.drop_first())
    }
}

proof fn lemma_items(s: Seq<Seq<char>>)
    ensures
        policy::items(s) == in_a_list(s.map_values(|t: Seq<char>| json::quoted(t))),
    decreases s.len(),
{
    let f = |t: Seq<char>| json::quoted(t);
    let parts = s.map_values(f);
    if s.len() == 1 {
        assert(policy::more_items(s.drop_first()) =~= Seq::empty());
        assert(policy::items(s) =~= parts[0]);
    } else if s.len() > 1 {
        let rest = s.drop_first();
        lemma_items(rest);
        assert(rest.map_values(f) =~= parts.drop_first());
        assert(policy::items(s) =~= parts[0] + seq![','] + policy::items(rest));
    }
}

proof fn lemma_members(s: Seq<(Seq<char>, Seq<char>)>)
    ensures
        policy::members(s) == in_a_list(s.map_values(|p: (Seq<char>, Seq<char>)| member(p))),
    decreases s.len(),
{
    let f = |p: (Seq<char>, Seq<char>)| member(p);
    let parts = s.map_values(f);
    if s.len() == 1 {
        assert(policy::more_members(s.drop_first()) =~= Seq::empty());
        assert(policy::members(s) =~= parts[0]);
    } else if s.len() > 1 {
        let rest = s.drop_first();
        lemma_members(rest);
        assert(rest.map_values(f) =~= parts.drop_first());
        assert(policy::members(s) =~= parts[0] + seq![','] + policy::members(rest));
    }
}

/// The canonical form of a policy is compact JSON: the overrides by kind, the model and its
/// provider, and the parsers, in their order.
pub proof fn policies_are_written_as_compact_json(p: schema::PolicyView)
    ensures
        policy::canonical(p) == "{\"chunking\":{\"preset_overrides\":{"@ + in_a_list(
            p.overrides.map_values(|o: (Seq<char>, Seq<char>)| member(o)),
        ) + "}},\"embedding\":{\"model\":"@ + json::quoted(p.model) + ",\"provider\":"@
            + json::quoted(p.provider) + "},\"parsers\":["@ + in_a_list(
            p.parsers.map_values(|t: Seq<char>| json::quoted(t)),
        ) + "]}"@,
{
    lemma_items(p.parsers);
    lemma_members(p.overrides);
    let a = "{\"chunking\":{\"preset_overrides\":{"@;
    let b = "}},\"embedding\":{\"model\":"@;
    let c = ",\"provider\":"@;
    let d = "},\"parsers\":["@;
    let e = "]}"@;
    let (m, x, y, l) = (
        policy::members(p.overrides),
        json::quoted(p.model),
        json::quoted(p.provider),
        policy::items(p.parsers),
    );
    lemma_regroup(a, m, b + (x + (c + (y + (d + (l + e))))));
    lemma_regroup(a + m, b, x + (c + (y + (d + (l + e)))));
    lemma_regroup(a + m + b, x, c + (y + (d + (l + e))));
    lemma_regroup(a + m + b + x, c, y + (d + (l + e)));
    lemma_regroup(a + m + b + x + c, y, d + (l + e));
    lemma_regroup(a + m + b + x + c + y, d, l + e);
    lemma_regroup(a + m + b + x + c + y + d, l, e);
}

proof fn lemma_regroup(x: Seq<char>, y: Seq<char>, z: Seq<char>)
    ensures
        x + (y + z) == x + y + z,
{
    assert(x + (y + z) =~= x + y + z);
}

// ---------------------------------------------------------------------------
// Sources of a running system
// ---------------------------------------------------------------------------
/// A source is found by its directory or by its address, and among those of the given store
/// only.
pub proof fn sources_are_found_by_where_they_are(
    s: RuntimeSource,
    value: Seq<char>,
    store: Option<Seq<char>>,
)
    ensures
        runtime_state::comes_from(s, value, store) ==> {
            &&& (s.root matches Some(r) && r@ == value) || (s.url matches Some(u) && u@ == value)
            &&& store matches Some(name) ==> s.store_name@ == name
        },
        store is None || store == Some(s.store_name@) ==> {
            &&& (s.root matches Some(r) && r@ == value) ==> runtime_state::comes_from(
                s,
                value,
                store,
            )
            &&& (s.url matches Some(u) && u@ == value) ==> runtime_state::comes_from(
                s,
                value,
                store,
            )
        },
{
}

} // verus!
