//! A unified, typed data layer over heterogeneous data sources.
//!
//! A provider defines its API as typed endpoints. The registry mounts providers and reaches
//! any endpoint by its path. Rows travel as Arrow record batches; pipes move them from one
//! endpoint to another.

use vstd::prelude::*;
use vstd::string::*;

use config::ProviderConfigView;
use error::{Failure, FailureView};

pub use catalog::Catalog;
pub use config::{Config, ProviderConfig};
pub use dataset::Disposition;
pub use page::{Cursor, Page};
pub use provider::{Provider, ProviderObject};
pub use registry::Registry;
pub use router::{EndpointInfo, Method, Router};

pub mod api;
pub mod catalog;
pub mod cli;
pub mod config;
pub mod dataset;
pub mod describe;
pub mod error;
pub mod flight;
pub mod graphql;
pub mod harness;
pub mod json;
pub mod mcp;
pub mod page;
pub mod paging;
pub mod pipe;
pub mod provider;
pub mod providers;
pub mod record;
pub mod registry;
pub mod request;
pub mod router;
pub mod schema;
pub mod server;
pub mod text;

verus! {

/// The configuration file that is consulted where no path is given.
pub const DEFAULT_CONFIG: &'static str = "strata.toml";

/// The backend, and the mount, of generated rows.
pub const DUMMY: &'static str = "dummy";

/// Every known backend.
pub open spec fn known_backends() -> Seq<Seq<char>> {
    seq![
        "clickhouse"@,
        "congress"@,
        "dummy"@,
        "fs"@,
        "github"@,
        "google"@,
        "iceberg"@,
        "mysql"@,
        "postgres"@,
        "sqlite"@,
        "rss"@,
        "spotify"@,
        "substack"@,
        "linear"@,
    ]
}

/// Every known backend, which is what is mounted where there is no configuration.
pub fn backends() -> (r: Vec<String>)
    ensures
        r.deep_view() == known_backends(),
{
    let r = vec![
        "clickhouse".to_string(),
        "congress".to_string(),
        "dummy".to_string(),
        "fs".to_string(),
        "github".to_string(),
        "google".to_string(),
        "iceberg".to_string(),
        "mysql".to_string(),
        "postgres".to_string(),
        "sqlite".to_string(),
        "rss".to_string(),
        "spotify".to_string(),
        "substack".to_string(),
        "linear".to_string(),
    ];
    assert(r.deep_view() =~= known_backends());
    r
}

/// The configuration file in effect: the one that is asked for, else the default one where it
/// exists, else none.
pub fn config_path(explicit: Option<&str>, default_exists: bool) -> (r: Option<String>)
    ensures
        r.deep_view() == match explicit {
            Some(path) => Some(path@),
            None => if default_exists {
                Some(DEFAULT_CONFIG@)
            } else {
                None
            },
        },
{
    match explicit {
        Some(path) => Some(path.to_string()),
        None => if default_exists {
            Some(DEFAULT_CONFIG.to_string())
        } else {
            None
        },
    }
}

/// The message that refuses an unknown backend.
pub open spec fn unknown_backend(backend: Seq<char>) -> Seq<char> {
    "unknown backend `"@ + backend + "` (known: "@ + text::joined(known_backends(), ", "@) + ")"@
}

/// Whether `make` gave `made` for the backend and the settings.
pub open spec fn gave<P, F: Fn(&str, &ProviderConfig) -> Result<P, Failure>>(
    make: F,
    backend: Seq<char>,
    config: ProviderConfigView,
    made: Result<P, Failure>,
) -> bool {
    exists|name: &str, settings: &ProviderConfig|
        name@ == backend && settings@ == config && #[trigger] call_ensures(
            make,
            (name, settings),
            made,
        )
}

/// Makes the provider of a backend and mounts it. A backend that is not known and a mount
/// point that is in use are refused, in that order, before anything is made.
pub fn mount_backend<P, F: Fn(&str, &ProviderConfig) -> Result<P, Failure>>(
    registry: &mut Registry<P>,
    backend: &str,
    mount: &str,
    config: &ProviderConfig,
    make: &F,
) -> (r: Result<(), Failure>)
    requires
        old(registry).wf(),
        forall|name: &str, settings: &ProviderConfig| #[trigger]
            call_requires(*make, (name, settings)),
    ensures
        final(registry).wf(),
        match r {
            Ok(_) => {
                &&& known_backends().contains(backend@)
                &&& !old(registry)@.contains_key(mount@)
                &&& final(registry)@.contains_key(mount@)
                &&& final(registry)@ == old(registry)@.insert(mount@, final(registry)@[mount@])
                &&& gave(*make, backend@, config@, Ok::<P, Failure>(final(registry)@[mount@]))
            },
            Err(failure) => {
                &&& final(registry)@ == old(registry)@
                &&& if !known_backends().contains(backend@) {
                    failure@ == FailureView::Message(unknown_backend(backend@))
                } else if old(registry)@.contains_key(mount@) {
                    failure@ == FailureView::Message(
                        "mount point `"@ + mount@ + "` is already in use"@,
                    )
                } else {
                    gave(*make, backend@, config@, Err::<P, Failure>(failure))
                }
            },
        },
{
    let known = backends();
    if !providers::sql::projection::has_name(&known, backend) {
        let list = text::join(&known, ", ");
        return Err(
            Failure::Message(
                text::cat5("unknown backend `", backend, "` (known: ", list.as_str(), ")"),
            ),
        );
    }
    if registry.in_use(mount) {
        return Err(
            Failure::Message(text::cat3("mount point `", mount, "` is already in use")),
        );
    }
    match make(backend, config) {
        Ok(provider) => {
            assert(gave(*make, backend@, config@, Ok::<P, Failure>(provider)));
            registry.mount_object(mount, provider)
        },
        Err(failure) => {
            assert(gave(*make, backend@, config@, Err::<P, Failure>(failure)));
            Err(failure)
        },
    }
}

/// Whether the backend at `k` is the first for which `make` fails without settings.
pub open spec fn first_failing<P, F: Fn(&str, &ProviderConfig) -> Result<P, Failure>>(
    make: F,
    k: int,
    failure: Failure,
) -> bool {
    &&& 0 <= k < known_backends().len()
    &&& forall|i: int|
        0 <= i < k ==> exists|made: P|
            gave(make, #[trigger] known_backends()[i], no_settings(), Ok::<P, Failure>(made))
    &&& gave(make, known_backends()[k], no_settings(), Err::<P, Failure>(failure))
}

/// The registry where there is no configuration: every backend at its own name, without
/// settings.
pub fn registry_default<P, F: Fn(&str, &ProviderConfig) -> Result<P, Failure>>(make: &F) -> (r:
    Result<Registry<P>, Failure>)
    requires
        forall|name: &str, settings: &ProviderConfig| #[trigger]
            call_requires(*make, (name, settings)),
    ensures
        match r {
            Ok(registry) => {
                &&& registry.wf()
                &&& registry@.dom() == known_backends().to_set()
                &&& forall|mount: Seq<char>| #[trigger]
                    registry@.contains_key(mount) ==> gave(
                        *make,
                        mount,
                        no_settings(),
                        Ok::<P, Failure>(registry@[mount]),
                    )
            },
            Err(failure) => exists|k: int| #[trigger]
                first_failing::<P, F>(*make, k, failure),
        },
{
    let empty = ProviderConfig::default();
    let known = backends();
    let ghost all = known_backends();
    let mut registry: Registry<P> = Registry::new();
    let mut i: usize = 0;
    proof {
        lemma_backends_differ();
        assert(all.take(0).to_set() =~= Set::empty());
        assert(registry@.dom() =~= Set::empty());
    }
    while i < known.len()
        invariant
            i <= known.len(),
            registry.wf(),
            known.deep_view() == all,
            all == known_backends(),
            all.no_duplicates(),
            empty@ == no_settings(),
            forall|name: &str, settings: &ProviderConfig| #[trigger]
                call_requires(*make, (name, settings)),
            registry@.dom() == all.take(i as int).to_set(),
            forall|mount: Seq<char>| #[trigger]
                registry@.contains_key(mount) ==> gave(
                    *make,
                    mount,
                    no_settings(),
                    Ok::<P, Failure>(registry@[mount]),
                ),
        decreases known.len() - i,
    {
        let ghost before = registry@;
        let backend = known[i].as_str();
        assert(all[i as int] == backend@);
        assert(all.contains(all[i as int]));
        proof {
            if before.contains_key(backend@) {
                assert(all.take(i as int).contains(backend@));
                let j = choose|j: int| 0 <= j < i && all.take(i as int)[j] == backend@;
                assert(all[j] == all[i as int]);
            }
        }
        match mount_backend(&mut registry, backend, backend, &empty, make) {
            Ok(_) => {
                proof {
                    lemma_set_grows(all, i as int);
                    assert(registry@.dom() =~= all.take(i + 1).to_set());
                    assert forall|mount: Seq<char>| #[trigger] registry@.contains_key(
                        mount,
                    ) implies gave(
                        *make,
                        mount,
                        no_settings(),
                        Ok::<P, Failure>(registry@[mount]),
                    ) by {
                        if mount != backend@ {
                            assert(before.contains_key(mount));
                        }
                    }
                }
            },
            Err(failure) => {
                proof {
                    assert forall|k: int| 0 <= k < i implies exists|made: P|
                        gave(
                            *make,
                            #[trigger] known_backends()[k],
                            no_settings(),
                            Ok::<P, Failure>(made),
                        ) by {
                        assert(all.take(i as int)[k] == all[k]);
                        assert(all.take(i as int).to_set().contains(all[k]));
                        assert(before.contains_key(all[k]));
                        assert(gave(
                            *make,
                            all[k],
                            no_settings(),
                            Ok::<P, Failure>(before[all[k]]),
                        ));
                    }
                    assert(first_failing::<P, F>(*make, i as int, failure));
                }
                return Err(failure);
            },
        }
        i = i + 1;
    }
    assert(all.take(i as int) =~= all);
    Ok(registry)
}

/// Whether every backend that is declared is known.
pub open spec fn all_known(configs: Seq<ProviderConfigView>) -> bool {
    forall|i: int|
        0 <= i < configs.len() ==> known_backends().contains((#[trigger] configs[i]).backend)
}

/// Mounts the generated rows, unless something is mounted at their name: they are there with
/// or without a configuration, and a configuration may mount its own.
fn mount_dummy<P, F: Fn(&str, &ProviderConfig) -> Result<P, Failure>>(
    registry: &mut Registry<P>,
    make: &F,
) -> (r: Result<(), Failure>)
    requires
        old(registry).wf(),
        forall|name: &str, settings: &ProviderConfig| #[trigger]
            call_requires(*make, (name, settings)),
    ensures
        final(registry).wf(),
        match r {
            Ok(_) => {
                &&& final(registry)@.dom() == old(registry)@.dom().insert(DUMMY@)
                &&& forall|mount: Seq<char>| #[trigger]
                    old(registry)@.contains_key(mount) ==> final(registry)@[mount] == old(
                        registry,
                    )@[mount]
                &&& !old(registry)@.contains_key(DUMMY@) ==> gave(
                    *make,
                    DUMMY@,
                    no_settings(),
                    Ok::<P, Failure>(final(registry)@[DUMMY@]),
                )
            },
            Err(failure) => {
                &&& !old(registry)@.contains_key(DUMMY@)
                &&& gave(*make, DUMMY@, no_settings(), Err::<P, Failure>(failure))
            },
        },
{
    if registry.in_use(DUMMY) {
        assert(registry@.dom() =~= registry@.dom().insert(DUMMY@));
        return Ok(());
    }
    let empty = ProviderConfig::default();
    assert(known_backends()[2] == DUMMY@);
    assert(known_backends().contains(DUMMY@));
    let ghost before = registry@;
    let r = mount_backend(registry, DUMMY, DUMMY, &empty, make);
    proof {
        if r is Ok {
            assert(registry@.dom() =~= before.dom().insert(DUMMY@));
        }
    }
    r
}

/// What a registry of the settings holds: at each mount, what `make` gave for its settings.
pub open spec fn holds_declared<P, F: Fn(&str, &ProviderConfig) -> Result<P, Failure>>(
    make: F,
    mounted: Map<Seq<char>, P>,
    configs: Seq<ProviderConfigView>,
) -> bool {
    forall|i: int|
        0 <= i < configs.len() ==> gave(
            make,
            (#[trigger] configs[i]).backend,
            configs[i],
            Ok::<P, Failure>(mounted[configs[i].mount]),
        )
}

/// Whether `make` gave a provider for the settings.
pub open spec fn makes<P, F: Fn(&str, &ProviderConfig) -> Result<P, Failure>>(
    make: F,
    config: ProviderConfigView,
) -> bool {
    exists|made: P| #[trigger] gave(make, config.backend, config, Ok::<P, Failure>(made))
}

/// Whether the settings can all be mounted: every backend is known, every mount is used once,
/// and `make` gave a provider for each.
pub open spec fn mountable<P, F: Fn(&str, &ProviderConfig) -> Result<P, Failure>>(
    make: F,
    configs: Seq<ProviderConfigView>,
) -> bool {
    &&& all_known(configs)
    &&& config::mounts_of(configs).no_duplicates()
    &&& forall|i: int| 0 <= i < configs.len() ==> makes::<P, F>(make, #[trigger] configs[i])
}

/// Whether the settings ahead of `k` can be mounted, and those at `k` are refused: for a
/// backend that is not known, else for a mount that is in use, else because `make` fails.
pub open spec fn refused_at<P, F: Fn(&str, &ProviderConfig) -> Result<P, Failure>>(
    make: F,
    configs: Seq<ProviderConfigView>,
    k: int,
    failure: Failure,
) -> bool {
    &&& 0 <= k < configs.len()
    &&& mountable::<P, F>(make, configs.take(k))
    &&& if !known_backends().contains(configs[k].backend) {
        failure@ == FailureView::Message(unknown_backend(configs[k].backend))
    } else if config::mounts_of(configs).take(k).to_set().contains(configs[k].mount) {
        failure@ == FailureView::Message(
            "mount point `"@ + configs[k].mount + "` is already in use"@,
        )
    } else {
        gave(make, configs[k].backend, configs[k], Err::<P, Failure>(failure))
    }
}

/// Whether `given` are the declared settings in the order of their mounts.
pub open spec fn in_mount_order(
    given: Seq<ProviderConfigView>,
    declared: Seq<ProviderConfigView>,
) -> bool {
    &&& text::sorted(config::mounts_of(given))
    &&& given.to_multiset() == declared.to_multiset()
}

/// What a configuration is refused for: the first of its settings, in the order of their
/// mounts, that cannot be mounted; else generated rows that cannot be made.
pub open spec fn refused_for<P, F: Fn(&str, &ProviderConfig) -> Result<P, Failure>>(
    make: F,
    declared: Seq<ProviderConfigView>,
    failure: Failure,
) -> bool {
    exists|given: Seq<ProviderConfigView>| #[trigger]
        in_mount_order(given, declared) && {
            ||| exists|k: int| #[trigger] refused_at::<P, F>(make, given, k, failure)
            ||| {
                &&& mountable::<P, F>(make, given)
                &&& !config::mounts_of(given).contains(DUMMY@)
                &&& gave(make, DUMMY@, no_settings(), Err::<P, Failure>(failure))
            }
        }
}

/// The registry of a configuration: each provider at its mount, and the generated rows.
pub fn registry_from_config<P, F: Fn(&str, &ProviderConfig) -> Result<P, Failure>>(
    config: &Config,
    make: &F,
) -> (r: Result<Registry<P>, Failure>)
    requires
        forall|name: &str, settings: &ProviderConfig| #[trigger]
            call_requires(*make, (name, settings)),
    ensures
        ({
            let declared = config.declared();
            let mounts = config::mounts_of(declared);
            match r {
                Ok(registry) => {
                    &&& registry.wf()
                    &&& all_known(declared)
                    &&& mounts.no_duplicates()
                    &&& registry@.dom() == mounts.to_set().insert(DUMMY@)
                    &&& holds_declared(*make, registry@, declared)
                    &&& !mounts.contains(DUMMY@) ==> gave(
                        *make,
                        DUMMY@,
                        no_settings(),
                        Ok::<P, Failure>(registry@[DUMMY@]),
                    )
                },
                Err(failure) => refused_for::<P, F>(*make, declared, failure),
            }
        }),
{
    let entries = config.providers();
    let ghost given = entries@.map_values(|entry: &ProviderConfig| entry@);
    let ghost declared = config.declared();
    let ghost mounts = config::mounts_of(given);
    let mut registry: Registry<P> = Registry::new();
    proof {
        assert(mounts.take(0).to_set() =~= Set::empty());
        assert(registry@.dom() =~= mounts.take(0).to_set());
    }
    let mut i: usize = 0;
    while i < entries.len()
        invariant
            i <= entries.len(),
            registry.wf(),
            given == entries@.map_values(|entry: &ProviderConfig| entry@),
            mounts == config::mounts_of(given),
            declared == config.declared(),
            in_mount_order(given, declared),
            forall|name: &str, settings: &ProviderConfig| #[trigger]
                call_requires(*make, (name, settings)),
            registry@.dom() == mounts.take(i as int).to_set(),
            mounts.take(i as int).no_duplicates(),
            all_known(given.take(i as int)),
            holds_declared(*make, registry@, given.take(i as int)),
        decreases entries.len() - i,
    {
        let settings = entries[i];
        assert(given[i as int] == settings@);
        assert(mounts[i as int] == settings@.mount);
        let ghost before = registry@;
        let outcome = mount_backend(
            &mut registry,
            settings.backend.as_str(),
            settings.mount.as_str(),
            settings,
            make,
        );
        match outcome {
            Ok(_) => {
                proof {
                    lemma_set_grows(mounts, i as int);
                    assert(registry@.dom() =~= mounts.take(i + 1).to_set());
                    lemma_still_different(mounts, i as int);
                    let longer = given.take(i + 1);
                    let shorter = given.take(i as int);
                    assert forall|j: int| 0 <= j < longer.len() implies {
                        &&& known_backends().contains((#[trigger] longer[j]).backend)
                        &&& gave(
                            *make,
                            longer[j].backend,
                            longer[j],
                            Ok::<P, Failure>(registry@[longer[j].mount]),
                        )
                    } by {
                        if j < i {
                            assert(shorter[j] == longer[j]);
                            assert(mounts.take(i as int)[j] == longer[j].mount);
                            assert(mounts.take(i as int).to_set().contains(longer[j].mount));
                        } else {
                            assert(longer[j] == settings@);
                        }
                    }
                }
            },
            Err(failure) => {
                proof {
                    assert(config::mounts_of(given.take(i as int)) =~= mounts.take(i as int));
                    lemma_mountable::<P, F>(*make, before, given.take(i as int));
                    assert(refused_at::<P, F>(*make, given, i as int, failure));
                }
                return Err(failure);
            },
        }
        i = i + 1;
    }
    proof {
        assert(mounts.take(i as int) =~= mounts);
        assert(given.take(i as int) =~= given);
        lemma_same_settings(given, declared);
    }
    let ghost before = registry@;
    match mount_dummy(&mut registry, make) {
        Ok(_) => {
            proof {
                assert forall|j: int| 0 <= j < declared.len() implies gave(
                    *make,
                    (#[trigger] declared[j]).backend,
                    declared[j],
                    Ok::<P, Failure>(registry@[declared[j].mount]),
                ) by {
                    let k = lemma_found_again(declared, given, j);
                    assert(given[k] == declared[j]);
                    assert(mounts[k] == given[k].mount);
                    assert(mounts.to_set().contains(mounts[k]));
                }
            }
            Ok(registry)
        },
        Err(failure) => {
            proof {
                lemma_mountable::<P, F>(*make, before, given);
                assert(!mounts.to_set().contains(DUMMY@));
                assert(in_mount_order(given, declared));
            }
            Err(failure)
        },
    }
}

/// An item of a list stands in every list with the same items.
proof fn lemma_found_again(
    from: Seq<ProviderConfigView>,
    to: Seq<ProviderConfigView>,
    i: int,
) -> (k: int)
    requires
        from.to_multiset() == to.to_multiset(),
        0 <= i < from.len(),
    ensures
        0 <= k < to.len(),
        to[k] == from[i],
{
    broadcast use vstd::seq_lib::group_to_multiset_ensures;

    assert(from.contains(from[i]));
    assert(from.to_multiset().count(from[i]) > 0);
    assert(to.contains(from[i]));
    choose|k: int| 0 <= k < to.len() && to[k] == from[i]
}

/// The mounts of the same settings are the same.
proof fn lemma_same_mounts(a: Seq<ProviderConfigView>, b: Seq<ProviderConfigView>)
    requires
        a.to_multiset() == b.to_multiset(),
    ensures
        config::mounts_of(a).to_multiset() == config::mounts_of(b).to_multiset(),
    decreases a.len(),
{
    broadcast use vstd::seq_lib::group_to_multiset_ensures;

    assert(a.len() == a.to_multiset().len());
    assert(b.len() == b.to_multiset().len());
    if a.len() == 0 {
        assert(config::mounts_of(a) =~= config::mounts_of(b));
    } else {
        let last = a.len() - 1;
        let k = lemma_found_again(a, b, last);
        let fewer = a.drop_last();
        let without = b.remove(k);
        assert(a.remove(last) =~= fewer);
        assert(fewer.to_multiset() == a.to_multiset().remove(a[last]));
        assert(without.to_multiset() == b.to_multiset().remove(b[k]));
        lemma_same_mounts(fewer, without);
        assert(config::mounts_of(fewer) =~= config::mounts_of(a).remove(last));
        assert(config::mounts_of(without) =~= config::mounts_of(b).remove(k));
        let left = config::mounts_of(a).to_multiset();
        let right = config::mounts_of(b).to_multiset();
        let mount = a[last].mount;
        assert(config::mounts_of(a)[last] == mount);
        assert(config::mounts_of(b)[k] == mount);
        assert(config::mounts_of(a).contains(mount));
        assert(config::mounts_of(b).contains(mount));
        assert(left.remove(mount).insert(mount) =~= left);
        assert(right.remove(mount).insert(mount) =~= right);
    }
}

/// The same settings in another order are as known, and their mounts are as different and the
/// same.
proof fn lemma_same_settings(given: Seq<ProviderConfigView>, declared: Seq<ProviderConfigView>)
    requires
        given.to_multiset() == declared.to_multiset(),
    ensures
        all_known(given) ==> all_known(declared),
        config::mounts_of(given).no_duplicates() ==> config::mounts_of(declared).no_duplicates(),
        config::mounts_of(given).to_set() == config::mounts_of(declared).to_set(),
{
    if all_known(given) {
        assert forall|i: int| 0 <= i < declared.len() implies known_backends().contains(
            (#[trigger] declared[i]).backend,
        ) by {
            let k = lemma_found_again(declared, given, i);
        }
    }
    lemma_same_mounts(given, declared);
    registry::lemma_same_items(config::mounts_of(declared), config::mounts_of(given));
}

/// Settings that a registry holds can be mounted.
proof fn lemma_mountable<P, F: Fn(&str, &ProviderConfig) -> Result<P, Failure>>(
    make: F,
    mounted: Map<Seq<char>, P>,
    configs: Seq<ProviderConfigView>,
)
    requires
        all_known(configs),
        config::mounts_of(configs).no_duplicates(),
        holds_declared(make, mounted, configs),
    ensures
        mountable::<P, F>(make, configs),
{
    assert forall|i: int| 0 <= i < configs.len() implies makes::<P, F>(
        make,
        #[trigger] configs[i],
    ) by {
        assert(gave(
            make,
            configs[i].backend,
            configs[i],
            Ok::<P, Failure>(mounted[configs[i].mount]),
        ));
    }
}

/// Different items stay different with one more that is not among them.
proof fn lemma_still_different(items: Seq<Seq<char>>, n: int)
    requires
        0 <= n < items.len(),
        items.take(n).no_duplicates(),
        !items.take(n).to_set().contains(items[n]),
    ensures
        items.take(n + 1).no_duplicates(),
{
    let longer = items.take(n + 1);
    let shorter = items.take(n);
    assert forall|a: int, b: int|
        0 <= a < longer.len() && 0 <= b < longer.len() && a != b implies longer[a]
            != longer[b] by {
        if a == n {
            assert(shorter[b] == longer[b]);
            assert(shorter.to_set().contains(shorter[b]));
        } else if b == n {
            assert(shorter[a] == longer[a]);
            assert(shorter.to_set().contains(shorter[a]));
        } else {
            assert(shorter[a] == longer[a]);
            assert(shorter[b] == longer[b]);
        }
    }
}

/// No settings.
pub open spec fn no_settings() -> ProviderConfigView {
    ProviderConfigView { backend: Seq::empty(), mount: Seq::empty(), params: Map::empty() }
}

/// The items of a longer prefix.
proof fn lemma_set_grows(items: Seq<Seq<char>>, n: int)
    requires
        0 <= n < items.len(),
    ensures
        items.take(n + 1).to_set() == items.take(n).to_set().insert(items[n]),
{
    let longer = items.take(n + 1);
    let shorter = items.take(n);
    assert forall|item: Seq<char>| #[trigger] longer.to_set().contains(item)
        == shorter.to_set().insert(items[n]).contains(item) by {
        if longer.contains(item) {
            let j = choose|j: int| 0 <= j < longer.len() && longer[j] == item;
            if j < n {
                assert(shorter[j] == item);
            }
        }
        if shorter.contains(item) {
            let j = choose|j: int| 0 <= j < shorter.len() && shorter[j] == item;
            assert(longer[j] == item);
        }
        assert(longer[n] == items[n]);
    }
    assert(longer.to_set() =~= shorter.to_set().insert(items[n]));
}

/// The known backends are all different.
proof fn lemma_backends_differ()
    ensures
        known_backends().no_duplicates(),
{
    reveal_strlit("clickhouse");
    reveal_strlit("congress");
    reveal_strlit("dummy");
    reveal_strlit("fs");
    reveal_strlit("github");
    reveal_strlit("google");
    reveal_strlit("iceberg");
    reveal_strlit("mysql");
    reveal_strlit("postgres");
    reveal_strlit("sqlite");
    reveal_strlit("rss");
    reveal_strlit("spotify");
    reveal_strlit("substack");
    reveal_strlit("linear");
    let all = known_backends();
    // Told apart by length, first and second character.
    assert forall|i: int, j: int| 0 <= i < all.len() && 0 <= j < all.len() && i != j implies all[i]
        != all[j] by {
        let a = all[i];
        let b = all[j];
        if a == b {
            assert(a.len() == b.len());
            assert(a[0] == b[0]);
            assert(a[1] == b[1]);
        }
    }
}


/// The backends are the fourteen by these names, and no other; each is refused under no other
/// spelling.
pub proof fn backends_are_known_by_name(name: Seq<char>)
    ensures
        known_backends().contains(name) <==> name == "clickhouse"@ || name == "congress"@ || name
            == "dummy"@ || name == "fs"@ || name == "github"@ || name == "google"@ || name
            == "iceberg"@ || name == "mysql"@ || name == "postgres"@ || name == "sqlite"@ || name
            == "rss"@ || name == "spotify"@ || name == "substack"@ || name == "linear"@,
        known_backends().no_duplicates(),
{
    lemma_backends_differ();
    let all = known_backends();
    assert(all[0] == "clickhouse"@ && all[1] == "congress"@ && all[2] == "dummy"@);
    assert(all[3] == "fs"@ && all[4] == "github"@ && all[5] == "google"@);
    assert(all[6] == "iceberg"@ && all[7] == "mysql"@ && all[8] == "postgres"@);
    assert(all[9] == "sqlite"@ && all[10] == "rss"@ && all[11] == "spotify"@);
    assert(all[12] == "substack"@ && all[13] == "linear"@);
}

/// An unknown backend is refused by its own name, with every known one told.
pub proof fn unknown_backends_are_told_the_known(backend: Seq<char>, i: int)
    requires
        0 <= i < known_backends().len(),
    ensures
        ({
            let message = unknown_backend(backend);
            &&& ("unknown backend `"@ + backend + "`"@).is_prefix_of(message)
            &&& text::occurs(known_backends()[i], message)
        }),
{
    reveal_strlit("unknown backend `");
    reveal_strlit("`");
    reveal_strlit("` (known: ");
    let message = unknown_backend(backend);
    let head = "unknown backend `"@ + backend + "`"@;
    assert(message.subrange(0, head.len() as int) =~= head);
    let list = text::joined(known_backends(), ", "@);
    text::lemma_part_occurs(known_backends(), ", "@, i);
    let at = choose|at: int|
        0 <= at && at + known_backends()[i].len() <= list.len() && #[trigger] list.subrange(
            at,
            at + known_backends()[i].len(),
        ) == known_backends()[i];
    let shift = ("unknown backend `"@ + backend + "` (known: "@).len() as int + at;
    assert(message.subrange(shift, shift + known_backends()[i].len()) =~= known_backends()[i]);
}


/// Whether a failure has a cause among the declared settings: a backend that is not known, two
/// mounts that are the same, a provider that cannot be made, or generated rows that cannot.
pub open spec fn is_caused<P, F: Fn(&str, &ProviderConfig) -> Result<P, Failure>>(
    make: F,
    declared: Seq<ProviderConfigView>,
    failure: Failure,
) -> bool {
    ||| exists|i: int|
        0 <= i < declared.len() && !known_backends().contains((#[trigger] declared[i]).backend)
            && failure@ == FailureView::Message(unknown_backend(declared[i].backend))
    ||| exists|i: int|
        0 <= i < declared.len() && !config::mounts_of(declared).no_duplicates() && failure@
            == FailureView::Message(
            "mount point `"@ + (#[trigger] declared[i]).mount + "` is already in use"@,
        )
    ||| exists|i: int|
        0 <= i < declared.len() && gave(
            make,
            (#[trigger] declared[i]).backend,
            declared[i],
            Err::<P, Failure>(failure),
        )
    ||| !config::mounts_of(declared).contains("dummy"@) && gave(
        make,
        "dummy"@,
        no_settings(),
        Err::<P, Failure>(failure),
    )
}

/// A configuration is refused for a cause of its own: a declared backend that is not known, two
/// declared mounts that are the same, or a declared provider, or the generated rows, that cannot
/// be made.
pub proof fn refusals_have_a_cause<P, F: Fn(&str, &ProviderConfig) -> Result<P, Failure>>(
    make: F,
    declared: Seq<ProviderConfigView>,
    failure: Failure,
)
    requires
        refused_for::<P, F>(make, declared, failure),
    ensures
        is_caused::<P, F>(make, declared, failure),
{
    let given = choose|given: Seq<ProviderConfigView>| #[trigger]
        in_mount_order(given, declared) && ((exists|k: int| #[trigger]
            refused_at::<P, F>(make, given, k, failure)) || mountable::<P, F>(make, given)
            && !config::mounts_of(given).contains(DUMMY@) && gave(
            make,
            DUMMY@,
            no_settings(),
            Err::<P, Failure>(failure),
        ));
    lemma_same_settings(given, declared);
    lemma_same_settings(declared, given);
    let mounts = config::mounts_of(given);
    if exists|k: int| #[trigger] refused_at::<P, F>(make, given, k, failure) {
        let k = choose|k: int| #[trigger] refused_at::<P, F>(make, given, k, failure);
        let i = lemma_found_again(given, declared, k);
        assert(declared[i] == given[k]);
        if known_backends().contains(given[k].backend) && mounts.take(k).to_set().contains(
            given[k].mount,
        ) {
            let j = choose|j: int| 0 <= j < k && mounts.take(k)[j] == given[k].mount;
            assert(mounts[j] == mounts[k]);
            assert(!mounts.no_duplicates());
        }
    } else {
        let set = config::mounts_of(declared).to_set();
        if config::mounts_of(declared).contains(DUMMY@) {
            assert(set.contains(DUMMY@));
            assert(mounts.to_set().contains(DUMMY@));
        }
    }
}

/// No settings is no backend, no mount, and nothing else that is set.
pub proof fn no_settings_are_empty(key: Seq<char>)
    ensures
        no_settings().backend.len() == 0,
        no_settings().mount.len() == 0,
        no_settings().param(key).len() == 0,
{
}


/// What a registry holds of settings is what was made of each of them: of its own backend, with
/// its own settings, at its own mount. And settings that are all known have no other backend.
pub proof fn declared_settings_are_held<P, F: Fn(&str, &ProviderConfig) -> Result<P, Failure>>(
    make: F,
    mounted: Map<Seq<char>, P>,
    configs: Seq<ProviderConfigView>,
    i: int,
)
    requires
        0 <= i < configs.len(),
    ensures
        holds_declared(make, mounted, configs) ==> gave(
            make,
            configs[i].backend,
            configs[i],
            Ok::<P, Failure>(mounted[configs[i].mount]),
        ),
        all_known(configs) ==> known_backends().contains(configs[i].backend),
{
}

/// Where there is no configuration, the backend that fails is the first that does: each of those
/// ahead of it was made, without settings, and it failed for its own reason.
pub proof fn the_first_failing_backend_is_told<
    P,
    F: Fn(&str, &ProviderConfig) -> Result<P, Failure>,
>(make: F, k: int, failure: Failure, i: int)
    requires
        first_failing::<P, F>(make, k, failure),
        0 <= i < k,
    ensures
        k < known_backends().len(),
        gave(make, known_backends()[k], no_settings(), Err::<P, Failure>(failure)),
        exists|made: P|
            gave(make, known_backends()[i], no_settings(), Ok::<P, Failure>(made)),
{
    assert(exists|made: P|
        gave(make, known_backends()[i], no_settings(), Ok::<P, Failure>(made)));
}

} // verus!
