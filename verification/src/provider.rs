//! Providers, and what the registry knows of them.

use vstd::prelude::*;
use vstd::string::*;

use crate::config::ProviderConfig;
use crate::dataset::Disposition;
use crate::describe;
use crate::error::Failure;
use crate::json::{Json, JsonView};
use crate::page::ListStrategy;
use crate::router::{self, EndpointInfo, EndpointView, Router};

verus! {

/// Implemented by each provider: its name, how it is made of its settings, and its
/// endpoints.
pub trait Provider: Sized {
    /// The name of the backend.
    spec fn backend() -> Seq<char>;

    /// The endpoints that the provider registers.
    spec fn routes() -> Seq<EndpointView>;

    /// The name of the backend, which is also the default mount point and selects the
    /// backend in a configuration.
    fn name() -> (r: &'static str)
        ensures
            r@ == Self::backend(),
    ;

    /// Makes the provider of its settings.
    fn new(config: &ProviderConfig) -> Result<Self, Failure>;

    /// Registers every endpoint.
    fn register(router: &mut Router)
        ensures
            final(router)@ == old(router)@ + Self::routes(),
    ;
}

/// A mounted provider, whatever its backend.
pub trait ProviderObject {
    /// The name of the backend.
    spec fn backend_model(&self) -> Seq<char>;

    /// The endpoints of the provider.
    spec fn endpoint_models(&self) -> Seq<EndpointView>;

    /// The description of the endpoints.
    spec fn description_model(&self) -> JsonView;

    /// The name of the backend.
    fn name(&self) -> (r: &str)
        ensures
            r@ == self.backend_model(),
    ;

    /// Every endpoint: its verb, its path, the params in it, and its rows.
    fn endpoints(&self) -> (r: Vec<EndpointInfo>)
        ensures
            router::endpoint_views(r@) == self.endpoint_models(),
    ;

    /// The endpoints as JSON.
    fn description(&self) -> (r: Json)
        ensures
            r@ == self.description_model(),
    ;

    /// How the list that answers on a path is walked, for the sync layer; nothing where no
    /// list does.
    fn strategy(&self, path: &str) -> (r: Option<ListStrategy>)
        ensures
            r == router::list_strategy(self.endpoint_models(), path@),
    {
        router::strategy_at(&self.endpoints(), path)
    }

    /// How a sink should apply the rows of the list that answers on a path: merged where the
    /// source emits updates again, else appended.
    fn disposition(&self, path: &str) -> (r: Disposition)
        ensures
            r == router::list_disposition(self.endpoint_models(), path@),
    {
        router::disposition_at(&self.endpoints(), path)
    }

    /// Whether a list that takes filters answers on a path.
    fn queryable(&self, path: &str) -> (r: bool)
        ensures
            r == router::list_queryable(self.endpoint_models(), path@),
    {
        router::queryable_at(&self.endpoints(), path)
    }
}

/// A provider as it is mounted: what it registered, and its state in the form in which the
/// registry keeps it.
#[derive(Debug)]
pub struct Instance<S> {
    pub backend: String,
    pub endpoints: Vec<EndpointInfo>,
    pub state: S,
}

/// Whether the provider that is made of the settings is kept as `kept`.
pub open spec fn made<Q: Provider, S, F: Fn(Q) -> S>(
    config: &ProviderConfig,
    keep: F,
    kept: S,
) -> bool {
    exists|state: Q| #[trigger]
        call_ensures(Q::new, (config,), Ok::<Q, Failure>(state)) && call_ensures(
            keep,
            (state,),
            kept,
        )
}

impl<S> Instance<S> {
    /// The instance of a provider that is made of the given settings. `keep` puts the provider
    /// into the form in which its state is kept.
    pub fn of<Q: Provider, F: Fn(Q) -> S>(config: &ProviderConfig, keep: &F) -> (r: Result<
        Instance<S>,
        Failure,
    >)
        requires
            forall|state: Q| #[trigger] call_requires(*keep, (state,)),
        ensures
            match r {
                Ok(instance) => {
                    &&& made::<Q, S, F>(config, *keep, instance.state)
                    &&& instance.backend@ == Q::backend()
                    &&& instance.endpoint_models() == Q::routes()
                },
                Err(failure) => call_ensures(Q::new, (config,), Err::<Q, Failure>(failure)),
            },
    {
        let mut router = Router::new();
        Q::register(&mut router);
        match Q::new(config) {
            Ok(state) => {
                let r = Instance {
                    backend: Q::name().to_string(),
                    endpoints: router.endpoints,
                    state: keep(state),
                };
                assert(r.endpoint_models() =~= Q::routes());
                Ok(r)
            },
            Err(failure) => Err(failure),
        }
    }
}

impl<S> ProviderObject for Instance<S> {
    open spec fn backend_model(&self) -> Seq<char> {
        self.backend@
    }

    open spec fn endpoint_models(&self) -> Seq<EndpointView> {
        router::endpoint_views(self.endpoints@)
    }

    open spec fn description_model(&self) -> JsonView {
        describe::endpoints_json(self.endpoint_models())
    }

    fn name(&self) -> (r: &str) {
        self.backend.as_str()
    }

    fn endpoints(&self) -> (r: Vec<EndpointInfo>) {
        let ghost model = self.endpoint_models();
        let mut out: Vec<EndpointInfo> = Vec::new();
        let mut i: usize = 0;
        while i < self.endpoints.len()
            invariant
                i <= self.endpoints.len(),
                model == router::endpoint_views(self.endpoints@),
                router::endpoint_views(out@) == model.take(i as int),
            decreases self.endpoints.len() - i,
        {
            let ghost before = router::endpoint_views(out@);
            let endpoint = self.endpoints[i].at(self.endpoints[i].path.clone());
            out.push(endpoint);
            assert(router::endpoint_views(out@) =~= before.push(endpoint@));
            assert(router::endpoint_views(out@) =~= model.take(i + 1));
            i = i + 1;
        }
        assert(router::endpoint_views(out@) =~= model);
        out
    }

    fn description(&self) -> (r: Json) {
        describe::describe_endpoints(&self.endpoints)
    }
}

} // verus!
