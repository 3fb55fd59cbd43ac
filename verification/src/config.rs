//! The configuration: which providers are mounted where, and which pipes run.

use vstd::prelude::*;
use vstd::string::*;

use crate::pipe::{Pipe, PipeView};
use crate::schema;
use crate::text;

verus! {

/// The settings of one provider instance.
#[derive(Debug)]
pub struct ProviderConfig {
    /// The backend; the name of the settings where it is empty.
    pub backend: String,
    /// The mount point; the name of the settings where it is empty.
    pub mount: String,
    /// Everything else that is set, by name.
    pub params: Vec<(String, String)>,
}

/// The model of a [`ProviderConfig`].
pub struct ProviderConfigView {
    pub backend: Seq<char>,
    pub mount: Seq<char>,
    pub params: Map<Seq<char>, Seq<char>>,
}

impl ProviderConfigView {
    /// What is set under `key`; empty where nothing is.
    pub open spec fn param(self, key: Seq<char>) -> Seq<char> {
        if self.params.contains_key(key) {
            self.params[key]
        } else {
            Seq::empty()
        }
    }
}

impl View for ProviderConfig {
    type V = ProviderConfigView;

    open spec fn view(&self) -> ProviderConfigView {
        ProviderConfigView {
            backend: self.backend@,
            mount: self.mount@,
            params: schema::notes(self.params.deep_view()),
        }
    }
}

impl Default for ProviderConfig {
    fn default() -> (r: Self)
        ensures
            r@ == (ProviderConfigView {
                backend: Seq::empty(),
                mount: Seq::empty(),
                params: Map::empty(),
            }),
    {
        let params: Vec<(String, String)> = Vec::new();
        let r = ProviderConfig { backend: String::new(), mount: String::new(), params };
        assert(r.backend@ =~= Seq::<char>::empty());
        assert(r.mount@ =~= Seq::<char>::empty());
        assert(params.deep_view() =~= Seq::empty());
        r
    }
}

impl Clone for ProviderConfig {
    fn clone(&self) -> (r: Self)
        ensures
            r@ == self@,
    {
        let mut params: Vec<(String, String)> = Vec::new();
        let mut i: usize = 0;
        while i < self.params.len()
            invariant
                i <= self.params.len(),
                params.deep_view() == self.params.deep_view().take(i as int),
            decreases self.params.len() - i,
        {
            let ghost before = params.deep_view();
            let pair = (self.params[i].0.clone(), self.params[i].1.clone());
            params.push(pair);
            assert(params.deep_view() =~= before.push((pair.0@, pair.1@)));
            assert(params.deep_view() =~= self.params.deep_view().take(i + 1));
            i = i + 1;
        }
        assert(params.deep_view() =~= self.params.deep_view());
        ProviderConfig { backend: self.backend.clone(), mount: self.mount.clone(), params }
    }
}

impl ProviderConfig {
    /// What is set under `key`; empty where nothing is.
    pub fn param(&self, key: &str) -> (r: String)
        ensures
            r@ == self@.param(key@),
    {
        let ghost all = self.params.deep_view();
        let mut i: usize = self.params.len();
        assert(all.take(i as int) =~= all);
        while i > 0
            invariant
                i <= self.params.len(),
                all == self.params.deep_view(),
                schema::notes(all).contains_key(key@) == schema::notes(
                    all.take(i as int),
                ).contains_key(key@),
                schema::notes(all).contains_key(key@) ==> schema::notes(all)[key@]
                    == schema::notes(all.take(i as int))[key@],
            decreases i,
        {
            i = i - 1;
            assert(all.take(i + 1).drop_last() =~= all.take(i as int));
            assert(all[i as int] == (self.params@[i as int].0@, self.params@[i as int].1@));
            if text::same(self.params[i].0.as_str(), key) {
                return self.params[i].1.clone();
            }
        }
        let none = String::new();
        assert(none@ =~= Seq::<char>::empty());
        none
    }

    /// The settings with the name `reference` in place of a backend or a mount that is
    /// empty.
    pub fn named(self, reference: &str) -> (r: ProviderConfig)
        ensures
            r@ == named_config(self@, reference@),
    {
        let mut r = self;
        if r.mount.as_str().is_empty() {
            r.mount = reference.to_string();
        }
        if r.backend.as_str().is_empty() {
            r.backend = reference.to_string();
        }
        r
    }
}

/// The settings with a name in place of a backend or a mount that is empty.
pub open spec fn named_config(config: ProviderConfigView, reference: Seq<char>) -> ProviderConfigView {
    ProviderConfigView {
        mount: if config.mount.len() == 0 {
            reference
        } else {
            config.mount
        },
        backend: if config.backend.len() == 0 {
            reference
        } else {
            config.backend
        },
        params: config.params,
    }
}

/// The parsed configuration: provider instances, and pipes.
#[derive(Debug)]
pub struct Config {
    provider: Vec<ProviderConfig>,
    pipe: Vec<Pipe>,
}

/// The models of a list of settings.
pub open spec fn config_views(configs: Seq<ProviderConfig>) -> Seq<ProviderConfigView> {
    configs.map_values(|config: ProviderConfig| config@)
}

/// The models of a list of pipes.
pub open spec fn pipe_views(pipes: Seq<Pipe>) -> Seq<PipeView> {
    pipes.map_values(|pipe: Pipe| pipe@)
}

/// The settings with their names in place of what is empty.
pub open spec fn named_configs(entries: Seq<(String, ProviderConfig)>) -> Seq<ProviderConfigView> {
    entries.map_values(|entry: (String, ProviderConfig)| named_config(entry.1@, entry.0@))
}

/// The mounts of the settings.
pub open spec fn mounts_of(configs: Seq<ProviderConfigView>) -> Seq<Seq<char>> {
    configs.map_values(|config: ProviderConfigView| config.mount)
}

impl Config {
    /// The settings of the providers, as they were declared.
    pub closed spec fn declared(&self) -> Seq<ProviderConfigView> {
        config_views(self.provider@)
    }

    /// The declared pipes, in file order.
    pub closed spec fn declared_pipes(&self) -> Seq<PipeView> {
        pipe_views(self.pipe@)
    }

    /// The configuration of what a file declares: settings by name, and pipes.
    pub fn new(entries: Vec<(String, ProviderConfig)>, pipes: Vec<Pipe>) -> (r: Config)
        ensures
            r.declared() == named_configs(entries@),
            r.declared_pipes() == pipe_views(pipes@),
    {
        let ghost model = named_configs(entries@);
        let mut provider: Vec<ProviderConfig> = Vec::new();
        let mut i: usize = 0;
        while i < entries.len()
            invariant
                i <= entries.len(),
                model == named_configs(entries@),
                config_views(provider@) == model.take(i as int),
            decreases entries.len() - i,
        {
            let ghost before = config_views(provider@);
            let config = entries[i].1.clone().named(entries[i].0.as_str());
            provider.push(config);
            assert(config_views(provider@) =~= before.push(config@));
            assert(config_views(provider@) =~= model.take(i + 1));
            i = i + 1;
        }
        assert(config_views(provider@) =~= model);
        Config { provider, pipe: pipes }
    }

    /// The settings in the order of their mounts, so that it does not matter in which order
    /// they were declared.
    pub fn providers(&self) -> (r: Vec<&ProviderConfig>)
        ensures
            ({
                let given = r@.map_values(|config: &ProviderConfig| config@);
                &&& text::sorted(mounts_of(given))
                &&& given.to_multiset() == self.declared().to_multiset()
            }),
    {
        let ghost all = config_views(self.provider@);
        let mut keys: Vec<String> = Vec::new();
        let mut i: usize = 0;
        while i < self.provider.len()
            invariant
                i <= self.provider.len(),
                all == config_views(self.provider@),
                keys.deep_view() == mounts_of(all).take(i as int),
            decreases self.provider.len() - i,
        {
            let ghost before = keys.deep_view();
            assert(all[i as int] == self.provider@[i as int]@);
            let key = self.provider[i].mount.clone();
            keys.push(key);
            assert(keys.deep_view() =~= before.push(key@));
            assert(keys.deep_view() =~= mounts_of(all).take(i + 1));
            i = i + 1;
        }
        assert(keys.deep_view() =~= mounts_of(all));
        let order = text::arrangement(&keys);
        let mut out: Vec<&ProviderConfig> = Vec::new();
        let ghost picked = text::picked(all, order@);
        let mut k: usize = 0;
        while k < order.len()
            invariant
                k <= order.len(),
                all == config_views(self.provider@),
                keys.deep_view() == mounts_of(all),
                text::arranges(order@, keys.deep_view()),
                picked == text::picked(all, order@),
                out@.map_values(|config: &ProviderConfig| config@) == picked.take(k as int),
            decreases order.len() - k,
        {
            let ghost before = out@.map_values(|config: &ProviderConfig| config@);
            let config = &self.provider[order[k]];
            out.push(config);
            assert(picked[k as int] == config@);
            assert(out@.map_values(|config: &ProviderConfig| config@) =~= before.push(config@));
            assert(out@.map_values(|config: &ProviderConfig| config@) =~= picked.take(k + 1));
            k = k + 1;
        }
        proof {
            let given = out@.map_values(|config: &ProviderConfig| config@);
            assert(given =~= picked);
            text::lemma_picked(all, order@);
            let mounts = mounts_of(given);
            assert(mounts =~= text::picked(mounts_of(all), order@));
            assert forall|i: int, j: int| 0 <= i <= j < mounts.len() implies text::ordered(
                #[trigger] mounts[i],
                #[trigger] mounts[j],
            ) by {
                if i == j {
                    text::lemma_ordered_total(mounts[i], mounts[i]);
                } else {
                    assert(order@[i] != order@[j]);
                }
            }
        }
        out
    }

    /// The declared pipes, in file order.
    pub fn pipes(&self) -> (r: &Vec<Pipe>)
        ensures
            pipe_views(r@) == self.declared_pipes(),
    {
        &self.pipe
    }
}


// === Laws of the settings ===

/// A name takes the place of an empty backend and of an empty mount, each on its own, and of
/// nothing else; and naming again changes nothing.
pub proof fn names_fill_what_is_empty(
    config: ProviderConfigView,
    reference: Seq<char>,
    other: Seq<char>,
)
    ensures
        ({
            let named = named_config(config, reference);
            &&& config.mount.len() == 0 ==> named.mount == reference
            &&& config.mount.len() > 0 ==> named.mount == config.mount
            &&& config.backend.len() == 0 ==> named.backend == reference
            &&& config.backend.len() > 0 ==> named.backend == config.backend
            &&& named.params == config.params
            &&& reference.len() > 0 ==> named_config(named, other) == named
        }),
{
}

/// A setting is what was set last under its name, and empty where nothing was.
pub proof fn settings_are_read_by_name(config: ProviderConfig, key: Seq<char>)
    ensures
        ({
            let pairs = config.params.deep_view();
            &&& forall|i: int|
                0 <= i < pairs.len() && (#[trigger] pairs[i]).0 == key && (forall|j: int|
                    i < j < pairs.len() ==> (#[trigger] pairs[j]).0 != key) ==> config@.param(key)
                    == pairs[i].1
            &&& (forall|i: int| 0 <= i < pairs.len() ==> (#[trigger] pairs[i]).0 != key)
                ==> config@.param(key).len() == 0
        }),
{
    let pairs = config.params.deep_view();
    schema::the_last_note_counts(pairs, key);
}

/// The settings of a configuration are the entries of its file, in order, each under its name.
pub proof fn every_entry_is_declared(entries: Seq<(String, ProviderConfig)>, i: int)
    requires
        0 <= i < entries.len(),
    ensures
        named_configs(entries).len() == entries.len(),
        named_configs(entries)[i].mount == if entries[i].1.mount@.len() == 0 {
            entries[i].0@
        } else {
            entries[i].1.mount@
        },
        named_configs(entries)[i].backend == if entries[i].1.backend@.len() == 0 {
            entries[i].0@
        } else {
            entries[i].1.backend@
        },
        named_configs(entries)[i].params == entries[i].1@.params,
{
}

} // verus!
