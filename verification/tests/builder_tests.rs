use config_compiler::builder::{ConfigBuilder, EnterpriseOptions};
use config_compiler::components::{
    ConfigPath, DataTypeSet, Format, HealthcheckOptions, LogSchema, Output, ProxyConfig, SinkInner,
    SinkOuter, SourceInner, SourceOuter, TransformInner, TransformOuter,
};
use config_compiler::events::HttpScrapeEventsReceived;
use config_compiler::id::{ComponentKey, OutputId};
use config_compiler::omap::OMap;
use config_compiler::testdef::TestDefinition;

fn source() -> SourceOuter {
    SourceOuter::new(SourceInner {
        kind_name: "test_basic".to_owned(),
        outputs: vec![Output::new_default(DataTypeSet::all())],
        resources: Vec::new(),
        can_acknowledge: true,
    })
}

fn inputs(names: &[&str]) -> Vec<OutputId> {
    let mut v = Vec::new();
    for n in names {
        v.push(OutputId::from_key(ComponentKey::new((*n).to_owned())));
    }
    v
}

fn transform(input_names: &[&str]) -> TransformOuter {
    TransformOuter {
        inner: TransformInner {
            kind_name: "test_basic".to_owned(),
            input_type: DataTypeSet::all(),
            outputs: vec![Output::new_default(DataTypeSet::all())],
            expansion: None,
        },
        inputs: inputs(input_names),
    }
}

fn sink(input_names: &[&str]) -> SinkOuter {
    SinkOuter::new(
        SinkInner {
            kind_name: "test_basic".to_owned(),
            input_type: DataTypeSet::all(),
            resources: Vec::new(),
        },
        inputs(input_names),
    )
}

fn test_definition(name: &str) -> TestDefinition<String> {
    TestDefinition {
        name: name.to_owned(),
        input: None,
        inputs: Vec::new(),
        outputs: Vec::new(),
        no_outputs_from: Vec::new(),
    }
}

#[test]
fn config_append() {
    let mut config = ConfigBuilder::new();
    config.sources.push("in".to_owned(), source());
    config.sinks.push("out".to_owned(), sink(&["in"]));

    let mut other = ConfigBuilder::new();
    other.global.data_dir = Some("/foobar".to_owned());
    other.global.proxy.http = Some("http://proxy.inc:3128".to_owned());
    other.transforms.push("foo".to_owned(), transform(&["in"]));
    other.tests.push(test_definition("check_simple_log"));

    assert_eq!(config.append(other), Ok(()));

    assert!(config.global.proxy.http.is_some());
    assert!(config.global.proxy.https.is_none());
    assert_eq!(Some("/foobar".to_owned()), config.global.data_dir);
    assert!(config.sources.contains_key(&"in".to_owned()));
    assert!(config.sinks.contains_key(&"out".to_owned()));
    assert!(config.transforms.contains_key(&"foo".to_owned()));
    assert_eq!(config.tests.len(), 1);
}

#[test]
fn config_append_collisions() {
    let mut config = ConfigBuilder::new();
    config.sources.push("in".to_owned(), source());
    config.sinks.push("out".to_owned(), sink(&["in"]));

    let mut other = ConfigBuilder::new();
    other.sources.push("in".to_owned(), source());
    other.transforms.push("foo".to_owned(), transform(&["in"]));
    other.sinks.push("out".to_owned(), sink(&["in"]));

    assert_eq!(
        config.append(other),
        Err(vec![
            "duplicate source id found: in".to_owned(),
            "duplicate sink id found: out".to_owned(),
        ])
    );
}

#[test]
fn append_associative_without_collisions() {
    let build_one = |src: &str, snk: &str| {
        let mut b = ConfigBuilder::new();
        b.sources.push(src.to_owned(), source());
        b.sinks.push(snk.to_owned(), sink(&[src]));
        b
    };
    // (a + b) + c
    let mut left = build_one("a_in", "a_out");
    assert_eq!(left.append(build_one("b_in", "b_out")), Ok(()));
    assert_eq!(left.append(build_one("c_in", "c_out")), Ok(()));
    // a + (b + c)
    let mut right_tail = build_one("b_in", "b_out");
    assert_eq!(right_tail.append(build_one("c_in", "c_out")), Ok(()));
    let mut right = build_one("a_in", "a_out");
    assert_eq!(right.append(right_tail), Ok(()));

    assert_eq!(left.sources.len(), right.sources.len());
    assert_eq!(left.sinks.len(), right.sinks.len());
    for i in 0..left.sources.len() {
        assert_eq!(left.sources.key_at(i), right.sources.key_at(i));
    }
    for i in 0..left.sinks.len() {
        assert_eq!(left.sinks.key_at(i), right.sinks.key_at(i));
    }
    assert_eq!(left.sha256_hash(), right.sha256_hash());
}

#[test]
fn with_proxy() {
    let mut config = ConfigBuilder::new();
    config.global.proxy.http = Some("http://server:3128".to_owned());
    config.global.proxy.https = Some("http://other:3128".to_owned());
    config.global.proxy.no_proxy = vec!["localhost".to_owned(), "127.0.0.1".to_owned()];
    let mut src = source();
    src.proxy = ProxyConfig {
        enabled: true,
        http: Some("http://server:3128".to_owned()),
        https: Some("http://other:3128".to_owned()),
        no_proxy: vec!["localhost".to_owned(), "127.0.0.1".to_owned()],
    };
    config.sources.push("in".to_owned(), src);
    config.sinks.push("out".to_owned(), sink(&["in"]));

    assert_eq!(config.global.proxy.http, Some("http://server:3128".to_owned()));
    assert_eq!(config.global.proxy.https, Some("http://other:3128".to_owned()));
    assert!(config.global.proxy.matches(&"localhost".to_owned()));
    let source = config.sources.get(&"in".to_owned()).unwrap();
    assert_eq!(source.proxy.http, Some("http://server:3128".to_owned()));
    assert_eq!(source.proxy.https, Some("http://other:3128".to_owned()));
    assert!(source.proxy.matches(&"localhost".to_owned()));
}

#[test]
fn with_partial_global_proxy() {
    let mut config = ConfigBuilder::new();
    config.global.proxy.http = Some("http://server:3128".to_owned());
    let mut src = source();
    src.proxy = ProxyConfig {
        enabled: true,
        http: Some("http://server:3129".to_owned()),
        https: Some("http://other:3129".to_owned()),
        no_proxy: vec!["localhost".to_owned(), "127.0.0.1".to_owned()],
    };
    config.sources.push("in".to_owned(), src);
    config.sinks.push("out".to_owned(), sink(&["in"]));

    assert_eq!(config.global.proxy.http, Some("http://server:3128".to_owned()));
    assert_eq!(config.global.proxy.https, None);
    let source = config.sources.get(&"in".to_owned()).unwrap();
    assert_eq!(source.proxy.http, Some("http://server:3129".to_owned()));
    assert_eq!(source.proxy.https, Some("http://other:3129".to_owned()));
    assert!(source.proxy.matches(&"localhost".to_owned()));
}

#[test]
fn with_partial_source_proxy() {
    let mut config = ConfigBuilder::new();
    config.global.proxy.http = Some("http://server:3128".to_owned());
    config.global.proxy.https = Some("http://other:3128".to_owned());
    let mut src = source();
    src.proxy = ProxyConfig {
        enabled: true,
        http: Some("http://server:3129".to_owned()),
        https: None,
        no_proxy: vec!["localhost".to_owned(), "127.0.0.1".to_owned()],
    };
    config.sources.push("in".to_owned(), src);
    config.sinks.push("out".to_owned(), sink(&["in"]));

    assert_eq!(config.global.proxy.http, Some("http://server:3128".to_owned()));
    assert_eq!(config.global.proxy.https, Some("http://other:3128".to_owned()));
    let source = config.sources.get(&"in".to_owned()).unwrap();
    assert_eq!(source.proxy.http, Some("http://server:3129".to_owned()));
    assert_eq!(source.proxy.https, None);
    assert!(source.proxy.matches(&"localhost".to_owned()));
}

#[test]
fn default_data_dir() {
    let config = ConfigBuilder::new();
    assert_eq!(Some("/var/lib/vector".to_owned()), config.global.data_dir);
}

#[test]
fn default_schema() {
    let config = ConfigBuilder::new();
    assert_eq!("host", config.global.log_schema.host_key().as_str());
    assert_eq!("message", config.global.log_schema.message_key().as_str());
    assert_eq!("timestamp", config.global.log_schema.timestamp_key().as_str());
}

#[test]
fn custom_schema() {
    let mut config = ConfigBuilder::new();
    config.global.log_schema =
        LogSchema::new("this".to_owned(), "that".to_owned(), "then".to_owned());
    assert_eq!("this", config.global.log_schema.host_key().as_str());
    assert_eq!("that", config.global.log_schema.message_key().as_str());
    assert_eq!("then", config.global.log_schema.timestamp_key().as_str());
}

fn hash_fixture(flip_order: bool) -> ConfigBuilder {
    let mut b = ConfigBuilder::new();
    b.global.data_dir = Some("/tmp".to_owned());
    if flip_order {
        b.sources.push("internal_metrics".to_owned(), source());
        b.sources.push("file".to_owned(), source());
    } else {
        b.sources.push("file".to_owned(), source());
        b.sources.push("internal_metrics".to_owned(), source());
    }
    b.transforms
        .push("filter".to_owned(), transform(&["internal_metrics"]));
    b.sinks.push("out".to_owned(), sink(&["filter"]));
    b
}

#[test]
fn order_independent_sha256_hashes() {
    let config1 = hash_fixture(false);
    let config2 = hash_fixture(true);
    assert_eq!(config1.sha256_hash(), config2.sha256_hash());
}

#[test]
fn enterprise_tags_ignored_sha256_hashes() {
    let mut config1 = hash_fixture(false);
    let mut tags1: OMap<String> = OMap::new();
    tags1.push("tag".to_owned(), "value".to_owned());
    config1.enterprise = Some(EnterpriseOptions {
        api_key: "SECRET-REDACTED".to_owned(),
        configuration_key: "configuration_key".to_owned(),
        tags: tags1,
    });
    let mut config2 = hash_fixture(false);
    let mut tags2: OMap<String> = OMap::new();
    tags2.push("another_tag".to_owned(), "another value".to_owned());
    config2.enterprise = Some(EnterpriseOptions {
        api_key: "SECRET-REDACTED".to_owned(),
        configuration_key: "configuration_key".to_owned(),
        tags: tags2,
    });
    assert_eq!(config1.sha256_hash(), config2.sha256_hash());
}

#[test]
fn hash_differs_when_components_differ() {
    let config1 = hash_fixture(false);
    let mut config2 = hash_fixture(false);
    config2.sources.push("extra".to_owned(), source());
    assert_ne!(config1.sha256_hash(), config2.sha256_hash());
}

#[test]
fn format_from_extension() {
    assert_eq!(Format::from_path("vector.toml"), Some(Format::Toml));
    assert_eq!(Format::from_path("a/b/c.yaml"), Some(Format::Yaml));
    assert_eq!(Format::from_path("short.yml"), Some(Format::Yaml));
    assert_eq!(Format::from_path("conf.json"), Some(Format::Json));
    assert_eq!(Format::from_path("noext"), None);
    assert_eq!(Format::from_path("weird.conf"), None);
    let dir = ConfigPath::Dir("/etc/pipeline".to_owned());
    assert_eq!(dir.as_dir(), Some(&"/etc/pipeline".to_owned()));
    let file = ConfigPath::File("/etc/pipeline.toml".to_owned(), None);
    assert_eq!(file.as_dir(), None);
    assert_eq!(file.path(), "/etc/pipeline.toml");
}

#[test]
fn telemetry_counter_updates() {
    let event = HttpScrapeEventsReceived {
        byte_size: 512,
        count: 7,
        url: "http://localhost:9000/status".to_owned(),
    };
    let updates = event.counter_updates();
    assert_eq!(updates.len(), 3);
    assert_eq!(updates[0].name, "component_received_events_total");
    assert_eq!(updates[0].amount, 7);
    assert_eq!(updates[1].name, "component_received_event_bytes_total");
    assert_eq!(updates[1].amount, 512);
    assert_eq!(updates[2].name, "events_in_total");
}

#[test]
fn healthcheck_merge_and_override() {
    let mut a = HealthcheckOptions {
        enabled: true,
        require_healthy: false,
    };
    let b = HealthcheckOptions {
        enabled: false,
        require_healthy: true,
    };
    a.merge(b);
    assert!(!a.enabled);
    assert!(a.require_healthy);
    // The command-line flag always wins when given.
    a.set_require_healthy(Some(false));
    assert!(!a.require_healthy);
    a.set_require_healthy(None);
    assert!(!a.require_healthy);
}

#[test]
fn default_test_input_type_is_raw() {
    assert_eq!(config_compiler::testdef::default_test_input_type(), "raw");
}
