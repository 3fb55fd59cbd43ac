use strata::config::{Config, ProviderConfig};
use strata::dataset::Disposition;
use strata::error::Failure;
use strata::json::Json;
use strata::pipe::{Endpoint, Pipe};
use strata::provider::{Instance, Provider, ProviderObject};
use strata::providers::clickhouse::Clickhouse;
use strata::providers::congress::Congress;
use strata::providers::dummy::Dummy;
use strata::providers::iceberg::Iceberg;
use strata::providers::substack::Substack;
use strata::registry::{at_mount, split_mount, Registry};
use strata::page::ListStrategy;
use strata::router::{bind, dispatch, find, EndpointInfo, Method};
use strata::{
    backends, config_path, mount_backend, registry_default, registry_from_config, DEFAULT_CONFIG,
};

fn registry() -> Registry<Instance<()>> {
    let mut registry = Registry::new();
    registry.mount::<Dummy, _>("gen", &ProviderConfig::default(), &|_| ()).unwrap();
    registry
}

fn config(backend: &str, mount: &str, params: &[(&str, &str)]) -> ProviderConfig {
    ProviderConfig {
        backend: backend.to_string(),
        mount: mount.to_string(),
        params: params.iter().map(|(k, v)| (k.to_string(), v.to_string())).collect(),
    }
}

fn make(backend: &str, settings: &ProviderConfig) -> Result<String, Failure> {
    if settings.param("broken") == "yes" {
        return Err(Failure::message(format!("cannot make {backend}")));
    }
    Ok(format!("{backend}@{}", settings.mount))
}

#[test]
fn splits_the_mount_off_a_path_keeping_the_query() {
    assert_eq!(split_mount("/gen/data").unwrap(), ("gen", "/data".to_string()));
    assert_eq!(
        split_mount("/gen/data?rows=5&limit=2").unwrap(),
        ("gen", "/data?rows=5&limit=2".to_string())
    );
    assert_eq!(split_mount("/gen/tables/t").unwrap(), ("gen", "/tables/t".to_string()));
    assert!(split_mount("/").is_err());
}

#[test]
fn splits_odd_paths() {
    assert_eq!(split_mount("gen").unwrap(), ("gen", "/".to_string()));
    assert_eq!(split_mount("//gen///a//b/").unwrap(), ("gen", "/a/b".to_string()));
    assert_eq!(split_mount("/gen?").unwrap(), ("gen", "/".to_string()));
    assert_eq!(split_mount("/gen/é?q=/x?y").unwrap(), ("gen", "/é?q=/x?y".to_string()));
    assert_eq!(split_mount("?q=1").unwrap_err().text(), "`?q=1` names no mount");
    assert_eq!(split_mount("").unwrap_err().text(), "`` names no mount");
}

#[test]
fn mounted_path_splits_back() {
    let endpoint = EndpointInfo::new(Method::List, "/tables/:table");
    let mounted = at_mount("local", &endpoint);
    assert_eq!(mounted.path, "/local/tables/:table");
    assert_eq!(mounted.params, vec!["table".to_string()]);
    assert_eq!(
        split_mount(&mounted.path).unwrap(),
        ("local", "/tables/:table".to_string())
    );
}

#[test]
fn endpoints_carry_their_mount() {
    let registry = registry();
    let paths: Vec<String> = registry.endpoints().into_iter().map(|e| e.path).collect();
    assert_eq!(paths, vec!["/gen/data".to_string()]);
}

#[test]
fn an_unknown_mount_errors() {
    let registry = registry();
    let error = match registry.route("/nope/data") {
        Err(error) => error,
        Ok(_) => panic!("no such mount"),
    };
    assert!(error.text().contains("nothing mounted at `nope`"));
}

#[test]
fn routes_through_the_mount_prefix() {
    let registry = registry();
    let (provider, rest) = registry.route("/gen/data?rows=3").unwrap();
    assert_eq!(provider.backend, "dummy");
    assert_eq!(rest, "/data?rows=3");
    assert_eq!(registry.route("/").err().unwrap().text(), "`/` names no mount");
}

#[test]
fn a_mount_is_used_once() {
    let mut registry = registry();
    let again = registry.mount::<Congress, _>("gen", &ProviderConfig::default(), &|_| ());
    assert_eq!(again.unwrap_err().text(), "mount point `gen` is already in use");
    assert_eq!(registry.get("gen").unwrap().backend, "dummy");

    let other = Instance { backend: "other".to_string(), endpoints: Vec::new(), state: () };
    let again = registry.mount_object("gen", other);
    assert_eq!(again.unwrap_err().text(), "mount point `gen` is already in use");

    let other = Instance { backend: "other".to_string(), endpoints: Vec::new(), state: () };
    registry.mount_object("also", other).unwrap();
    assert_eq!(registry.names(), vec!["also".to_string(), "gen".to_string()]);
    assert_eq!(registry.mounts(), registry.names());
    assert!(registry.in_use("also"));
    assert!(!registry.in_use("nope"));
    assert_eq!(
        registry.get("nope").err().unwrap().text(),
        "nothing mounted at `nope`. mounted: also, gen"
    );
}

#[test]
fn describes_what_is_mounted() {
    let mut registry = registry();
    registry.mount::<Substack, _>("a", &ProviderConfig::default(), &|_| ()).unwrap();
    let one = registry.describe("gen").unwrap();
    let endpoints = match one.get("endpoints") {
        Some(Json::Array(endpoints)) => endpoints,
        other => panic!("{other:?}"),
    };
    assert_eq!(endpoints.len(), 1);
    assert_eq!(endpoints[0].get("path").unwrap().as_str(), Some("/data"));
    assert_eq!(endpoints[0].get("method").unwrap().as_str(), Some("list"));
    assert_eq!(
        endpoints[0].get("metadata").unwrap().text(),
        r#"{"description":"Generated rows; `types` is a JSON DataType","disposition":"Append","queryable":false,"strategy":"Offset"}"#
    );
    assert_eq!(
        registry.describe("nope").unwrap_err().text(),
        "nothing mounted at `nope`. mounted: a, gen"
    );

    assert_eq!(registry.routes("a").unwrap(), ["/:publication/posts"]);
    assert!(registry.routes("nope").is_err());
    assert_eq!(registry.get("a").unwrap().name(), "substack");

    let all = registry.describe_all();
    assert_eq!(all.get("gen").unwrap().text(), one.text());
    assert!(all.get("a").is_some());
    assert!(all.get("nope").is_none());
}

#[test]
fn providers_register_their_endpoints() {
    fn paths<P: Provider>() -> Vec<String> {
        let instance = Instance::of::<P, _>(&ProviderConfig::default(), &|_| ()).unwrap();
        assert_eq!(instance.backend, P::name());
        instance.endpoints().into_iter().map(|e| e.path).collect()
    }
    assert_eq!(paths::<Dummy>(), ["/data"]);
    assert_eq!(paths::<Congress>(), ["/bills", "/hearings", "/members"]);
    assert_eq!(paths::<Substack>(), ["/:publication/posts"]);
    assert_eq!(
        paths::<Clickhouse>(),
        ["/tables", "/tables/:table", "/tables/:table/:id", "/tables/:table"]
    );
    assert_eq!(
        paths::<Iceberg>(),
        ["/tables", "/tables/:table/info", "/tables/:table", "/tables/:table"]
    );
}

#[test]
fn settings_fall_back_to_their_name() {
    let pipe = Pipe {
        id: 7,
        source: Endpoint::new("hn", "/items"),
        destination: Endpoint::new("lake", "/tables/headlines"),
        cursor: None,
    };
    let config = Config::new(
        vec![
            ("local".to_string(), config("sqlite", "", &[("path", "./local.sqlite")])),
            ("hn".to_string(), config("rss", "", &[("url", "https://hnrss.org/frontpage")])),
            ("github".to_string(), config("", "code", &[])),
        ],
        vec![pipe],
    );
    let seen: Vec<(&str, &str)> = config
        .providers()
        .iter()
        .map(|p| (p.mount.as_str(), p.backend.as_str()))
        .collect();
    assert_eq!(seen, [("code", "github"), ("hn", "rss"), ("local", "sqlite")]);
    assert_eq!(config.providers()[1].param("url"), "https://hnrss.org/frontpage");
    assert_eq!(config.providers()[1].param("path"), "");
    assert_eq!(config.pipes().len(), 1);
    assert_eq!(config.pipes()[0].destination.path, "/tables/headlines");
}

#[test]
fn every_backend_is_mounted_without_a_configuration() {
    let registry = registry_default(&make).unwrap();
    let mut expected = backends();
    expected.sort();
    assert_eq!(registry.names(), expected);
    assert_eq!(registry.get("rss").unwrap(), "rss@");

    let failing = |name: &str, _: &ProviderConfig| -> Result<String, Failure> {
        match name {
            "mysql" => Err(Failure::message("no server".to_string())),
            _ => Ok(name.to_string()),
        }
    };
    assert_eq!(registry_default(&failing).err().unwrap().text(), "no server");
}

#[test]
fn a_configuration_is_mounted() {
    let declared = Config::new(
        vec![
            ("lake".to_string(), config("iceberg", "", &[])),
            ("hn".to_string(), config("rss", "", &[])),
        ],
        Vec::new(),
    );
    let registry = registry_from_config(&declared, &make).unwrap();
    assert_eq!(registry.names(), ["dummy", "hn", "lake"]);
    assert_eq!(registry.get("lake").unwrap(), "iceberg@lake");
    assert_eq!(registry.get("dummy").unwrap(), "dummy@");

    let own = Config::new(vec![("dummy".to_string(), config("rss", "", &[]))], Vec::new());
    let registry = registry_from_config(&own, &make).unwrap();
    assert_eq!(registry.names(), ["dummy"]);
    assert_eq!(registry.get("dummy").unwrap(), "rss@dummy");
}

#[test]
fn a_configuration_is_refused() {
    let unknown = Config::new(vec![("a".to_string(), config("oracle", "", &[]))], Vec::new());
    assert_eq!(
        registry_from_config(&unknown, &make).err().unwrap().text(),
        "unknown backend `oracle` (known: clickhouse, congress, dummy, fs, github, google, iceberg, mysql, postgres, sqlite, rss, spotify, substack, linear)"
    );
    let twice = Config::new(
        vec![
            ("a".to_string(), config("rss", "here", &[])),
            ("b".to_string(), config("fs", "here", &[])),
        ],
        Vec::new(),
    );
    assert_eq!(
        registry_from_config(&twice, &make).err().unwrap().text(),
        "mount point `here` is already in use"
    );
    let broken = Config::new(
        vec![("a".to_string(), config("rss", "", &[("broken", "yes")]))],
        Vec::new(),
    );
    assert_eq!(
        registry_from_config(&broken, &make).err().unwrap().text(),
        "cannot make rss"
    );
    // The first in the order of the mounts decides.
    let both = Config::new(
        vec![
            ("z".to_string(), config("oracle", "", &[])),
            ("a".to_string(), config("rss", "", &[("broken", "yes")])),
        ],
        Vec::new(),
    );
    assert_eq!(registry_from_config(&both, &make).err().unwrap().text(), "cannot make rss");
}

#[test]
fn an_unknown_backend_is_refused_ahead_of_its_mount() {
    let mut registry: Registry<String> = Registry::new();
    registry.mount_object("here", "taken".to_string()).unwrap();
    let settings = ProviderConfig::default();
    let error = mount_backend(&mut registry, "oracle", "here", &settings, &make).unwrap_err();
    assert!(error.text().starts_with("unknown backend `oracle`"));
    let error = mount_backend(&mut registry, "rss", "here", &settings, &make).unwrap_err();
    assert_eq!(error.text(), "mount point `here` is already in use");
    assert_eq!(registry.get("here").unwrap(), "taken");
}

#[test]
fn the_configuration_file_in_effect() {
    assert_eq!(DEFAULT_CONFIG, "strata.toml");
    assert_eq!(config_path(Some("my.toml"), true), Some("my.toml".to_string()));
    assert_eq!(config_path(None, true), Some("strata.toml".to_string()));
    assert_eq!(config_path(None, false), None);
}

#[test]
fn patterns_bind_their_params() {
    let pair = |key: &str, value: &str| (key.to_string(), value.to_string());
    assert_eq!(bind("/tables", "/tables?limit=3"), Some(vec![]));
    assert_eq!(bind("/tables/:table", "/tables/a"), Some(vec![pair("table", "a")]));
    assert_eq!(
        bind("/tables/:table/:id", "tables//a/7/"),
        Some(vec![pair("table", "a"), pair("id", "7")])
    );
    assert_eq!(bind("/tables/:table", "/views/a"), None);
    assert_eq!(bind("/tables/:table", "/tables"), None);
    assert_eq!(bind("/tables/:table", "/tables/a/7"), None);
}

#[test]
fn a_backend_stands_beside_what_it_registered() {
    let mut registry = Registry::new();
    let settings = config("", "", &[("url", "http://h:8123"), ("database", "db")]);
    let keep = |server: Clickhouse| format!("{}/{}", server.url, server.database);
    registry.mount::<Clickhouse, _>("ch", &settings, &keep).unwrap();
    assert_eq!(registry.get("ch").unwrap().state, "http://h:8123/db");

    registry.mount::<Dummy, _>("gen", &ProviderConfig::default(), &|_| "7".to_string()).unwrap();
    let provider = registry.get("gen").unwrap();
    assert_eq!(provider.state, "7");
    assert_eq!(provider.name(), "dummy");
    assert_eq!(provider.endpoints().len(), 1);
    let paths: Vec<String> = registry.endpoints().into_iter().map(|e| e.path).collect();
    assert_eq!(paths.last().unwrap(), "/gen/data");
    assert_eq!(
        registry.describe("gen").unwrap().get("endpoints").unwrap().text(),
        provider.description().text()
    );
}

#[test]
fn endpoints_answer_by_verb_and_path() {
    let provider = Instance::of::<Clickhouse, _>(&ProviderConfig::default(), &|_| ()).unwrap();
    let place = |method: Method, path: &str| find(&provider.endpoints, method, path).map(|f| f.0);
    assert_eq!(place(Method::List, "/tables"), Some(0));
    assert_eq!(place(Method::List, "/tables/t?limit=1"), Some(1));
    assert_eq!(place(Method::Get, "/tables/t/7"), Some(2));
    assert_eq!(place(Method::Put, "/tables/t"), Some(3));
    assert_eq!(place(Method::Create, "/tables/t"), None);
    assert_eq!(place(Method::List, "/views"), None);

    let (endpoint, params) = dispatch(&provider.endpoints, Method::Get, "/tables/t/7").unwrap();
    assert_eq!(endpoint.path, "/tables/:table/:id");
    assert_eq!(
        params,
        vec![
            ("table".to_string(), "t".to_string()),
            ("id".to_string(), "7".to_string())
        ]
    );
    assert_eq!(
        dispatch(&provider.endpoints, Method::Get, "/x?y=1").unwrap_err().text(),
        "no endpoint matches `/x?y=1`"
    );

    assert_eq!(provider.strategy("/tables/t"), Some(ListStrategy::Offset));
    assert_eq!(provider.strategy("/views"), None);
    assert_eq!(provider.disposition("/tables/t"), Disposition::Append);
    assert_eq!(provider.disposition("/views"), Disposition::Append);
    assert!(provider.queryable("/tables/t"));
    assert!(!provider.queryable("/tables"));
    assert!(!provider.queryable("/views"));
}
