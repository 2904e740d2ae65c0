use config_compiler::builder::ConfigBuilder;
use config_compiler::compiler::compile;
use config_compiler::components::{
    AcknowledgementsConfig, DataTypeSet, InnerTopology, InnerTransform, Output, SinkInner,
    SinkOuter, SourceInner, SourceOuter, TransformInner, TransformOuter,
};
use config_compiler::id::{ComponentKey, OutputId};
use config_compiler::resource::Resource;

fn source(acks: bool) -> SourceOuter {
    SourceOuter::new(SourceInner {
        kind_name: "test_basic".to_owned(),
        outputs: vec![Output::new_default(DataTypeSet::all())],
        resources: Vec::new(),
        can_acknowledge: acks,
    })
}

fn source_with_resources(resources: Vec<Resource>) -> SourceOuter {
    SourceOuter::new(SourceInner {
        kind_name: "test_basic".to_owned(),
        outputs: vec![Output::new_default(DataTypeSet::all())],
        resources,
        can_acknowledge: true,
    })
}

fn inputs(names: &[&str]) -> Vec<OutputId> {
    let mut v = Vec::new();
    for n in names {
        v.push(OutputId::from_key(ComponentKey::new((*n).to_owned())));
    }
    v
}

fn transform(input_names: &[&str]) -> TransformOuter {
    TransformOuter {
        inner: TransformInner {
            kind_name: "test_basic".to_owned(),
            input_type: DataTypeSet::all(),
            outputs: vec![Output::new_default(DataTypeSet::all())],
            expansion: None,
        },
        inputs: inputs(input_names),
    }
}

fn sink(input_names: &[&str]) -> SinkOuter {
    SinkOuter::new(
        SinkInner {
            kind_name: "test_basic".to_owned(),
            input_type: DataTypeSet::all(),
            resources: Vec::new(),
        },
        inputs(input_names),
    )
}

#[test]
fn cycle() {
    let mut b = ConfigBuilder::new();
    b.sources.push("in".to_owned(), source(true));
    b.transforms.push("one".to_owned(), transform(&["in"]));
    b.transforms.push("two".to_owned(), transform(&["one", "four"]));
    b.transforms.push("three".to_owned(), transform(&["two"]));
    b.transforms.push("four".to_owned(), transform(&["three"]));
    b.sinks.push("out".to_owned(), sink(&["four"]));
    let errors = compile(b).err().expect("cycle must be rejected");
    assert_eq!(
        errors,
        vec!["Cyclic dependency detected in the chain [ four -> two -> three -> four ]"]
    );
}

#[test]
fn bad_inputs() {
    let mut b = ConfigBuilder::new();
    b.sources.push("in".to_owned(), source(true));
    b.transforms.push("sample".to_owned(), transform(&[]));
    b.transforms.push("sample2".to_owned(), transform(&["qwerty"]));
    b.sinks.push("out".to_owned(), sink(&["asdf", "in", "in"]));
    let errors = compile(b).err().expect("bad inputs must be rejected");
    assert_eq!(
        errors,
        vec![
            "Sink \"out\" has input \"in\" duplicated 2 times",
            "Transform \"sample\" has no inputs",
            "Input \"qwerty\" for transform \"sample2\" doesn't match any components.",
            "Input \"asdf\" for sink \"out\" doesn't match any components.",
        ]
    );
}

#[test]
fn duplicate_name() {
    let mut b = ConfigBuilder::new();
    b.sources.push("foo".to_owned(), source(true));
    b.sources.push("bar".to_owned(), source(true));
    b.transforms.push("foo".to_owned(), transform(&["bar"]));
    b.sinks.push("out".to_owned(), sink(&["foo"]));
    let errors = compile(b).err().expect("duplicate names must be rejected");
    assert_eq!(
        errors,
        vec!["More than one component with name \"foo\" (source, transform)."]
    );
}

#[test]
fn warnings() {
    let mut b = ConfigBuilder::new();
    b.sources.push("in1".to_owned(), source(true));
    b.sources.push("in2".to_owned(), source(true));
    b.transforms.push("sample1".to_owned(), transform(&["in1"]));
    b.transforms.push("sample2".to_owned(), transform(&["in1"]));
    b.sinks.push("out".to_owned(), sink(&["sample1"]));
    let (_config, warnings) = compile(b).ok().expect("config must compile");
    assert_eq!(
        warnings,
        vec![
            "Transform \"sample2\" has no consumers",
            "Source \"in2\" has no consumers",
        ]
    );
}

#[test]
fn conflicting_stdin_and_fd_resources() {
    let mut b = ConfigBuilder::new();
    b.sources
        .push("stdin".to_owned(), source_with_resources(vec![Resource::Fd(0)]));
    b.sources.push(
        "file_descriptor".to_owned(),
        source_with_resources(vec![Resource::Fd(0)]),
    );
    b.sinks
        .push("out".to_owned(), sink(&["stdin", "file_descriptor"]));
    let errors = compile(b).err().expect("conflict must be rejected");
    assert_eq!(errors.len(), 1);
    let expected_prefix = "Resource `file descriptor: 0` is claimed by multiple components:";
    assert!(errors[0].starts_with(expected_prefix));
}

#[test]
fn conflicting_fd_resources() {
    let mut b = ConfigBuilder::new();
    b.sources.push(
        "file_descriptor1".to_owned(),
        source_with_resources(vec![Resource::Fd(10)]),
    );
    b.sources.push(
        "file_descriptor2".to_owned(),
        source_with_resources(vec![Resource::Fd(10)]),
    );
    b.sinks
        .push("out".to_owned(), sink(&["file_descriptor1", "file_descriptor2"]));
    let errors = compile(b).err().expect("conflict must be rejected");
    assert_eq!(errors.len(), 1);
    let expected_prefix = "Resource `file descriptor: 10` is claimed by multiple components:";
    assert!(errors[0].starts_with(expected_prefix));
}

#[test]
fn no_conflict_fd_resources() {
    let mut b = ConfigBuilder::new();
    b.sources.push(
        "file_descriptor1".to_owned(),
        source_with_resources(vec![Resource::Fd(10)]),
    );
    b.sources.push(
        "file_descriptor2".to_owned(),
        source_with_resources(vec![Resource::Fd(20)]),
    );
    b.sinks
        .push("out".to_owned(), sink(&["file_descriptor1", "file_descriptor2"]));
    let (_config, warnings) = compile(b).ok().expect("no conflict expected");
    assert_eq!(warnings.len(), 0);
}

#[test]
fn config_conflict_detected() {
    let mut b = ConfigBuilder::new();
    b.sources
        .push("in0".to_owned(), source_with_resources(vec![Resource::Fd(0)]));
    b.sources
        .push("in1".to_owned(), source_with_resources(vec![Resource::Fd(0)]));
    b.sinks.push("out".to_owned(), sink(&["in0", "in1"]));
    assert!(compile(b).is_err());
}

#[test]
fn propagates_settings() {
    // The topology:
    // in1 => out1
    // in2 => out2 (acks enabled)
    // in3 => parse3 => out3 (acks enabled)
    let mut b = ConfigBuilder::new();
    b.sources.push("in1".to_owned(), source(true));
    b.sources.push("in2".to_owned(), source(true));
    b.sources.push("in3".to_owned(), source(true));
    b.transforms.push("parse3".to_owned(), transform(&["in3"]));
    b.sinks.push("out1".to_owned(), sink(&["in1"]));
    let mut out2 = sink(&["in2"]);
    out2.acknowledgements = AcknowledgementsConfig { enabled: Some(true) };
    b.sinks.push("out2".to_owned(), out2);
    let mut out3 = sink(&["parse3"]);
    out3.acknowledgements = AcknowledgementsConfig { enabled: Some(true) };
    b.sinks.push("out3".to_owned(), out3);

    let n = b.sources.len();
    for i in 0..n {
        assert!(
            !b.sources.val_at(i).sink_acknowledgements,
            "Source `sink_acknowledgements` should be `false` before propagation"
        );
    }

    let (config, _warnings) = compile(b).ok().expect("config must compile");
    let get = |key: &str| {
        config
            .sources()
            .get(&key.to_owned())
            .expect("source must exist")
    };
    assert!(!get("in1").sink_acknowledgements);
    assert!(get("in2").sink_acknowledgements);
    assert!(get("in3").sink_acknowledgements);
}

#[test]
fn forbid_pipeline_nesting() {
    let mut b = ConfigBuilder::new();
    b.sources.push("in".to_owned(), source(true));
    let macro_transform = TransformOuter {
        inner: TransformInner {
            kind_name: "pipelines".to_owned(),
            input_type: DataTypeSet::all(),
            outputs: vec![Output::new_default(DataTypeSet::all())],
            expansion: Some(InnerTopology {
                inner: vec![(
                    "foo".to_owned(),
                    InnerTransform {
                        inputs: Vec::new(),
                        input_type: DataTypeSet::all(),
                        outputs: vec![Output::new_default(DataTypeSet::all())],
                        expandable: true,
                    },
                )],
            }),
        },
        inputs: inputs(&["in"]),
    };
    b.transforms.push("processing".to_owned(), macro_transform);
    b.sinks.push("out".to_owned(), sink(&["processing"]));
    let res = compile(b);
    assert!(res.is_err(), "should error");
}

#[test]
fn expansion_round_trip() {
    let mut b = ConfigBuilder::new();
    b.sources.push("in".to_owned(), source(true));
    let macro_transform = TransformOuter {
        inner: TransformInner {
            kind_name: "pipelines".to_owned(),
            input_type: DataTypeSet::all(),
            outputs: vec![Output::new_default(DataTypeSet::all())],
            expansion: Some(InnerTopology {
                inner: vec![
                    (
                        "first".to_owned(),
                        InnerTransform {
                            inputs: Vec::new(),
                            input_type: DataTypeSet::all(),
                            outputs: vec![Output::new_default(DataTypeSet::all())],
                            expandable: false,
                        },
                    ),
                    (
                        "second".to_owned(),
                        InnerTransform {
                            inputs: inputs(&["processing.first"]),
                            input_type: DataTypeSet::all(),
                            outputs: vec![Output::new_default(DataTypeSet::all())],
                            expandable: false,
                        },
                    ),
                ],
            }),
        },
        inputs: inputs(&["in"]),
    };
    b.transforms.push("processing".to_owned(), macro_transform);
    b.sinks.push("out".to_owned(), sink(&["processing"]));
    let (config, _warnings) = compile(b).ok().expect("config must compile");
    // The logical name expands to its physical set.
    let expanded = config.expand_input(&ComponentKey::new("processing".to_owned()));
    let names: Vec<String> = expanded.iter().map(|k| k.id().to_owned()).collect();
    assert_eq!(names, vec!["processing.first", "processing.second"]);
    // Each physical name expands to itself alone.
    for phys in &["processing.first", "processing.second"] {
        let again = config.expand_input(&ComponentKey::new((*phys).to_owned()));
        assert_eq!(again.len(), 1);
        assert_eq!(again[0].id(), *phys);
    }
    // References to the logical name were rewritten to the exit.
    let out = config.sinks().get(&"out".to_owned()).expect("sink exists");
    assert_eq!(out.inputs.len(), 1);
    assert_eq!(out.inputs[0].component.id(), "processing.second");
}

#[test]
fn type_mismatch_rejected() {
    let mut b = ConfigBuilder::new();
    let metric_only = SourceOuter::new(SourceInner {
        kind_name: "internal_metrics".to_owned(),
        outputs: vec![Output::new_default(DataTypeSet {
            log: false,
            metric: true,
            trace: false,
        })],
        resources: Vec::new(),
        can_acknowledge: true,
    });
    b.sources.push("in".to_owned(), metric_only);
    let mut log_sink = sink(&["in"]);
    log_sink.inner.input_type = DataTypeSet {
        log: true,
        metric: false,
        trace: false,
    };
    b.sinks.push("out".to_owned(), log_sink);
    let errors = compile(b).err().expect("type mismatch must be rejected");
    assert_eq!(errors, vec!["Data type mismatch between \"in\" and \"out\""]);
}

#[test]
fn resolved_tests_stringify_to_wire_form() {
    let mut b = ConfigBuilder::new();
    b.sources.push("in".to_owned(), source(true));
    b.transforms.push("parse".to_owned(), transform(&["in"]));
    b.sinks.push("out".to_owned(), sink(&["parse"]));
    b.tests.push(config_compiler::testdef::TestDefinition {
        name: "check".to_owned(),
        input: None,
        inputs: Vec::new(),
        outputs: vec![config_compiler::testdef::TestOutput {
            extract_from: vec!["parse".to_owned()],
            conditions: Vec::new(),
        }],
        no_outputs_from: vec!["in".to_owned()],
    });
    let (mut config, _warnings) = compile(b).ok().expect("config must compile");
    assert_eq!(config.tests.len(), 1);
    let resolved = config.tests.remove(0);
    assert_eq!(resolved.outputs.len(), 1);
    assert_eq!(resolved.outputs[0].extract_from[0].to_text(), "parse");
    // The round back to the stringy form keeps the wire names.
    let stringy = resolved.stringify();
    assert_eq!(stringy.name, "check");
    assert_eq!(stringy.outputs[0].extract_from, vec!["parse".to_owned()]);
    assert_eq!(stringy.no_outputs_from, vec!["in".to_owned()]);
}

#[test]
fn unresolvable_test_target_is_an_error() {
    let mut b = ConfigBuilder::new();
    b.sources.push("in".to_owned(), source(true));
    b.transforms.push("parse".to_owned(), transform(&["in"]));
    b.sinks.push("out".to_owned(), sink(&["parse"]));
    b.tests.push(config_compiler::testdef::TestDefinition {
        name: "check".to_owned(),
        input: None,
        inputs: Vec::new(),
        outputs: vec![config_compiler::testdef::TestOutput {
            extract_from: vec!["parse".to_owned(), "ghost_component".to_owned()],
            conditions: Vec::new(),
        }],
        no_outputs_from: Vec::new(),
    });
    let errors = compile(b).err().expect("bad target must be rejected");
    assert_eq!(
        errors,
        vec!["Invalid extract_from target in test 'check': 'ghost_component' does not exist"]
    );
}

#[test]
fn test_with_no_resolvable_targets_is_dropped() {
    let mut b = ConfigBuilder::new();
    b.sources.push("in".to_owned(), source(true));
    b.sinks.push("out".to_owned(), sink(&["in"]));
    b.tests.push(config_compiler::testdef::TestDefinition {
        name: "feature_gated".to_owned(),
        input: None,
        inputs: Vec::new(),
        outputs: vec![config_compiler::testdef::TestOutput {
            extract_from: vec!["not_built_in".to_owned()],
            conditions: Vec::new(),
        }],
        no_outputs_from: Vec::new(),
    });
    let (config, _warnings) = compile(b).ok().expect("dropped test is no error");
    assert_eq!(config.tests.len(), 0);
}

#[test]
fn unsupported_ack_source_warns_with_sink() {
    let mut b = ConfigBuilder::new();
    b.sources.push("in".to_owned(), source(false));
    let mut out = sink(&["in"]);
    out.acknowledgements = AcknowledgementsConfig { enabled: Some(true) };
    b.sinks.push("out".to_owned(), out);
    let (config, warnings) = compile(b).ok().expect("config must compile");
    assert!(!config
        .sources()
        .get(&"in".to_owned())
        .expect("source exists")
        .sink_acknowledgements);
    assert_eq!(warnings.len(), 1);
    assert!(warnings[0].contains("source=in"));
    assert!(warnings[0].contains("sink=out"));
}

#[test]
fn disk_buffer_text_escapes_quotes() {
    assert_eq!(
        Resource::DiskBuffer("a\"b\\c".to_owned()).text(),
        "disk buffer \"a\\\"b\\\\c\""
    );
}
