//! The stores of a running system: those of the configuration file, and those that were
//! created at run time.

use super::runtime_state::RuntimeStore;
use super::schema;
use super::schema::{IndexingPolicyConfig, RawConfig, StoreConfig};
use crate::text;
use vstd::prelude::*;

verus! {

/// Who owns a store.
#[derive(Debug, Clone, Copy, PartialEq, Eq, Structural)]
pub enum ConfigOwnership {
    /// The configuration file. It cannot be changed at run time.
    Yaml,
    /// Whoever created it at run time.
    Runtime,
}

/// The stores of a running system.
#[derive(Debug, Clone)]
pub struct EffectiveConfig {
    pub stores: Vec<EffectiveStore>,
}

/// A store of a running system.
#[derive(Debug, Clone)]
pub struct EffectiveStore {
    pub name: String,
    /// The id of a store that was created at run time; others have none.
    pub id: Option<String>,
    pub ownership: ConfigOwnership,
    pub visibility: String,
    pub backend: String,
    /// The store's own policy, or else the default.
    pub indexing: IndexingPolicyConfig,
}

/// A store of a running system as a mathematical value.
#[verifier::ext_equal]
pub struct StoreView {
    pub name: Seq<char>,
    pub id: Option<Seq<char>>,
    pub ownership: ConfigOwnership,
    pub visibility: Seq<char>,
    pub backend: Seq<char>,
    pub indexing: schema::PolicyView,
}

impl View for EffectiveStore {
    type V = StoreView;

    open spec fn view(&self) -> StoreView {
        StoreView {
            name: self.name@,
            id: text::opt_view(self.id),
            ownership: self.ownership,
            visibility: self.visibility@,
            backend: self.backend@,
            indexing: self.indexing@,
        }
    }
}

/// A store's own policy, or else the default.
pub open spec fn policy_of(
    own: Option<IndexingPolicyConfig>,
    default: schema::PolicyView,
) -> schema::PolicyView {
    match own {
        Some(p) => p@,
        None => default,
    }
}

/// A declared store in the running system.
pub open spec fn declared(s: StoreConfig, default: schema::PolicyView) -> StoreView {
    StoreView {
        name: s.name@,
        id: None,
        ownership: ConfigOwnership::Yaml,
        visibility: s.visibility@,
        backend: s.backend@,
        indexing: policy_of(s.indexing, default),
    }
}

/// A store that was created at run time.
pub open spec fn created(s: RuntimeStore, default: schema::PolicyView) -> StoreView {
    StoreView {
        name: s.name@,
        id: Some(s.id@),
        ownership: ConfigOwnership::Runtime,
        visibility: s.visibility@,
        backend: s.backend@,
        indexing: policy_of(s.indexing, default),
    }
}

/// Whether the configuration file declares a store of this name.
pub open spec fn declares(stores: Seq<StoreConfig>, name: Seq<char>) -> bool {
    exists|i: int| 0 <= i < stores.len() && (#[trigger] stores[i]).name@ == name
}

/// The first `n` stores that were created at run time, without those that are declared.
pub open spec fn created_stores(
    stores: Seq<RuntimeStore>,
    yaml: Seq<StoreConfig>,
    default: schema::PolicyView,
    n: int,
) -> Seq<StoreView>
    decreases n,
{
    if n <= 0 || n > stores.len() {
        Seq::empty()
    } else {
        let before = created_stores(stores, yaml, default, n - 1);
        if declares(yaml, stores[n - 1].name@) {
            before
        } else {
            before.push(created(stores[n - 1], default))
        }
    }
}

/// The stores of a running system: the declared ones, then the others.
pub open spec fn effective_stores(
    yaml: Seq<StoreConfig>,
    runtime: Seq<RuntimeStore>,
    default: schema::PolicyView,
) -> Seq<StoreView> {
    Seq::new(yaml.len(), |i: int| declared(yaml[i], default)) + created_stores(
        runtime,
        yaml,
        default,
        runtime.len() as int,
    )
}

fn policy_or(own: &Option<IndexingPolicyConfig>, default: &IndexingPolicyConfig) -> (r:
    IndexingPolicyConfig)
    ensures
        r@ == policy_of(*own, default@),
{
    match own {
        Some(p) => p.copied(),
        None => default.copied(),
    }
}

/// Whether a store is declared by the configuration file, and so cannot be changed at run
/// time.
pub fn check_yaml_owned(name: &str, yaml_config: &RawConfig) -> (r: bool)
    ensures
        r == declares(yaml_config.stores@, name@),
{
    let mut i: usize = 0;
    while i < yaml_config.stores.len()
        invariant
            i <= yaml_config.stores@.len(),
            forall|j: int| 0 <= j < i ==> (#[trigger] yaml_config.stores@[j]).name@ != name@,
        decreases yaml_config.stores.len() - i,
    {
        if text::str_eq(yaml_config.stores[i].name.as_str(), name) {
            assert(yaml_config.stores@[i as int].name@ == name@);
            return true;
        }
        i += 1;
    }
    false
}

/// Puts the stores of a running system together: those that the file declares first, then
/// those that were created at run time under names that the file does not use.
pub fn build_effective_config(
    yaml_config: &RawConfig,
    runtime_stores: &Vec<RuntimeStore>,
    global_default: &IndexingPolicyConfig,
) -> (r: EffectiveConfig)
    ensures
        crate::lists::views_of(r.stores@) == effective_stores(
            yaml_config.stores@,
            runtime_stores@,
            global_default@,
        ),
{
    let ghost yaml = yaml_config.stores@;
    let ghost default = global_default@;
    let mut stores: Vec<EffectiveStore> = Vec::new();
    let mut i: usize = 0;
    while i < yaml_config.stores.len()
        invariant
            i <= yaml.len(),
            yaml == yaml_config.stores@,
            default == global_default@,
            stores@.len() == i,
            forall|j: int| 0 <= j < i ==> (#[trigger] stores@[j])@ == declared(yaml[j], default),
        decreases yaml_config.stores.len() - i,
    {
        let s = &yaml_config.stores[i];
        stores.push(
            EffectiveStore {
                name: s.name.clone(),
                id: None,
                ownership: ConfigOwnership::Yaml,
                visibility: s.visibility.clone(),
                backend: s.backend.clone(),
                indexing: policy_or(&s.indexing, global_default),
            },
        );
        i += 1;
    }
    let ghost first = Seq::new(yaml.len(), |i: int| declared(yaml[i], default));
    assert(crate::lists::views_of(stores@) =~= first + created_stores(
        runtime_stores@,
        yaml,
        default,
        0,
    ));
    let mut k: usize = 0;
    while k < runtime_stores.len()
        invariant
            k <= runtime_stores@.len(),
            yaml == yaml_config.stores@,
            default == global_default@,
            crate::lists::views_of(stores@) == first + created_stores(
                runtime_stores@,
                yaml,
                default,
                k as int,
            ),
        decreases runtime_stores.len() - k,
    {
        let s = &runtime_stores[k];
        if !check_yaml_owned(s.name.as_str(), yaml_config) {
            let ghost before = stores@;
            let e = EffectiveStore {
                name: s.name.clone(),
                id: Some(s.id.clone()),
                ownership: ConfigOwnership::Runtime,
                visibility: s.visibility.clone(),
                backend: s.backend.clone(),
                indexing: policy_or(&s.indexing, global_default),
            };
            assert(e@ == created(*s, default));
            stores.push(e);
            proof {
                crate::lists::lemma_views_push(before, e);
                assert(crate::lists::views_of(stores@) =~= first + created_stores(
                    runtime_stores@,
                    yaml,
                    default,
                    k + 1,
                ));
            }
        }
        k += 1;
    }
    EffectiveConfig { stores }
}

// ---------------------------------------------------------------------------
// Laws
// ---------------------------------------------------------------------------
proof fn lemma_created(
    stores: Seq<RuntimeStore>,
    yaml: Seq<StoreConfig>,
    default: schema::PolicyView,
    n: int,
    i: int,
)
    requires
        0 <= n <= stores.len(),
        0 <= i < created_stores(stores, yaml, default, n).len(),
    ensures
        ({
            let s = created_stores(stores, yaml, default, n)[i];
            !declares(yaml, s.name) && s.ownership == ConfigOwnership::Runtime
        }),
    decreases n,
{
    if n > 0 {
        let before = created_stores(stores, yaml, default, n - 1);
        if i < before.len() {
            lemma_created(stores, yaml, default, n - 1, i);
        }
    }
}

/// A store whose name the file declares is owned by the file; what was created at run time
/// under such a name is not seen.
pub proof fn declared_stores_take_precedence(
    yaml: Seq<StoreConfig>,
    runtime: Seq<RuntimeStore>,
    default: schema::PolicyView,
    i: int,
)
    requires
        0 <= i < effective_stores(yaml, runtime, default).len(),
    ensures
        ({
            let s = effective_stores(yaml, runtime, default)[i];
            (s.ownership == ConfigOwnership::Yaml) == declares(yaml, s.name)
        }),
{
    let all = effective_stores(yaml, runtime, default);
    if i < yaml.len() {
        assert(all[i] == declared(yaml[i], default));
        assert(yaml[i].name@ == all[i].name);
    } else {
        lemma_created(runtime, yaml, default, runtime.len() as int, i - yaml.len());
    }
}

proof fn lemma_created_are_listed(
    stores: Seq<RuntimeStore>,
    yaml: Seq<StoreConfig>,
    default: schema::PolicyView,
    n: int,
    k: int,
)
    requires
        0 <= k < n <= stores.len(),
        !declares(yaml, stores[k].name@),
    ensures
        created_stores(stores, yaml, default, n).contains(created(stores[k], default)),
    decreases n,
{
    let before = created_stores(stores, yaml, default, n - 1);
    let all = created_stores(stores, yaml, default, n);
    let c = created(stores[k], default);
    if k == n - 1 {
        assert(all[before.len() as int] == c);
    } else {
        lemma_created_are_listed(stores, yaml, default, n - 1, k);
        let i = choose|i: int| 0 <= i < before.len() && before[i] == c;
        assert(all[i] == c);
    }
}

/// Every store that was created at run time is seen, unless the file declares its name.
pub proof fn created_stores_are_listed(
    yaml: Seq<StoreConfig>,
    runtime: Seq<RuntimeStore>,
    default: schema::PolicyView,
    k: int,
)
    requires
        0 <= k < runtime.len(),
        !declares(yaml, runtime[k].name@),
    ensures
        effective_stores(yaml, runtime, default).contains(created(runtime[k], default)),
{
    let n = runtime.len() as int;
    lemma_created_are_listed(runtime, yaml, default, n, k);
    let tail = created_stores(runtime, yaml, default, n);
    let c = created(runtime[k], default);
    let i = choose|i: int| 0 <= i < tail.len() && tail[i] == c;
    assert(effective_stores(yaml, runtime, default)[yaml.len() + i] == c);
}

/// Whether a store of the running system is the one that was created at run time: the same
/// name, id, visibility and backend, and exactly the policy that it was created with. The
/// default goes to a store without a policy of its own, and to no other.
pub open spec fn is_as_created(e: StoreView, s: RuntimeStore, default: schema::PolicyView) -> bool {
    &&& e.name == s.name@
    &&& e.id == Some(s.id@)
    &&& e.ownership == ConfigOwnership::Runtime
    &&& e.visibility == s.visibility@
    &&& e.backend == s.backend@
    &&& s.indexing matches Some(own) ==> e.indexing == own@
    &&& s.indexing is None ==> e.indexing == default
}

/// Whether a store of the running system is the one that the file declares.
pub open spec fn is_as_declared(e: StoreView, s: StoreConfig, default: schema::PolicyView) -> bool {
    &&& e.name == s.name@
    &&& e.id is None
    &&& e.ownership == ConfigOwnership::Yaml
    &&& e.visibility == s.visibility@
    &&& e.backend == s.backend@
    &&& s.indexing matches Some(own) ==> e.indexing == own@
    &&& s.indexing is None ==> e.indexing == default
}

/// The declared stores come first, in the order of the file, each as it is declared.
pub proof fn declared_stores_are_as_declared(
    yaml: Seq<StoreConfig>,
    runtime: Seq<RuntimeStore>,
    default: schema::PolicyView,
    k: int,
)
    requires
        0 <= k < yaml.len(),
    ensures
        k < effective_stores(yaml, runtime, default).len(),
        is_as_declared(effective_stores(yaml, runtime, default)[k], yaml[k], default),
{
    assert(effective_stores(yaml, runtime, default)[k] == declared(yaml[k], default));
}

/// Every store that was created at run time under a name that the file does not use is seen
/// behind the declared ones, as it was created: with exactly its own policy, if it has one.
pub proof fn created_stores_are_as_created(
    yaml: Seq<StoreConfig>,
    runtime: Seq<RuntimeStore>,
    default: schema::PolicyView,
    k: int,
)
    requires
        0 <= k < runtime.len(),
        forall|i: int| 0 <= i < yaml.len() ==> (#[trigger] yaml[i]).name@ != runtime[k].name@,
    ensures
        exists|i: int|
            yaml.len() <= i < effective_stores(yaml, runtime, default).len() && is_as_created(
                #[trigger] effective_stores(yaml, runtime, default)[i],
                runtime[k],
                default,
            ),
{
    let n = runtime.len() as int;
    lemma_created_are_listed(runtime, yaml, default, n, k);
    let tail = created_stores(runtime, yaml, default, n);
    let i = choose|i: int| 0 <= i < tail.len() && tail[i] == created(runtime[k], default);
    let all = effective_stores(yaml, runtime, default);
    assert(is_as_created(all[yaml.len() + i], runtime[k], default));
}

proof fn lemma_created_come_from(
    stores: Seq<RuntimeStore>,
    yaml: Seq<StoreConfig>,
    default: schema::PolicyView,
    n: int,
    i: int,
) -> (k: int)
    requires
        0 <= n <= stores.len(),
        0 <= i < created_stores(stores, yaml, default, n).len(),
    ensures
        0 <= k < n,
        !declares(yaml, stores[k].name@),
        is_as_created(created_stores(stores, yaml, default, n)[i], stores[k], default),
    decreases n,
{
    let before = created_stores(stores, yaml, default, n - 1);
    if i < before.len() {
        lemma_created_come_from(stores, yaml, default, n - 1, i)
    } else {
        n - 1
    }
}

/// Nothing else is seen: every store of the running system is one that the file declares, or
/// one that was created at run time under a name that the file does not use.
pub proof fn effective_stores_come_from_somewhere(
    yaml: Seq<StoreConfig>,
    runtime: Seq<RuntimeStore>,
    default: schema::PolicyView,
    i: int,
)
    requires
        0 <= i < effective_stores(yaml, runtime, default).len(),
    ensures
        i < yaml.len() || exists|k: int|
            0 <= k < runtime.len() && is_as_created(
                effective_stores(yaml, runtime, default)[i],
                #[trigger] runtime[k],
                default,
            ) && forall|j: int|
                0 <= j < yaml.len() ==> (#[trigger] yaml[j]).name@ != runtime[k].name@,
{
    if i >= yaml.len() {
        let k = lemma_created_come_from(
            runtime,
            yaml,
            default,
            runtime.len() as int,
            i - yaml.len(),
        );
        assert(is_as_created(effective_stores(yaml, runtime, default)[i], runtime[k], default));
    }
}

/// A store with a policy of its own is indexed by it, whatever the default is.
pub proof fn the_default_does_not_touch_own_policies(
    yaml: Seq<StoreConfig>,
    runtime: Seq<RuntimeStore>,
    a: schema::PolicyView,
    b: schema::PolicyView,
)
    requires
        forall|i: int| 0 <= i < yaml.len() ==> (#[trigger] yaml[i]).indexing is Some,
        forall|i: int| 0 <= i < runtime.len() ==> (#[trigger] runtime[i]).indexing is Some,
    ensures
        effective_stores(yaml, runtime, a) == effective_stores(yaml, runtime, b),
{
    lemma_own_policies(yaml, runtime, a, b, runtime.len() as int);
    assert(effective_stores(yaml, runtime, a) =~= effective_stores(yaml, runtime, b));
}

proof fn lemma_own_policies(
    yaml: Seq<StoreConfig>,
    runtime: Seq<RuntimeStore>,
    a: schema::PolicyView,
    b: schema::PolicyView,
    n: int,
)
    requires
        0 <= n <= runtime.len(),
        forall|i: int| 0 <= i < runtime.len() ==> (#[trigger] runtime[i]).indexing is Some,
    ensures
        created_stores(runtime, yaml, a, n) == created_stores(runtime, yaml, b, n),
    decreases n,
{
    if n > 0 {
        lemma_own_policies(yaml, runtime, a, b, n - 1);
        assert(runtime[n - 1].indexing is Some);
    }
}

} // verus!
