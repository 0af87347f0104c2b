use std::sync::Arc;
use sysmon::config::find_input;
use sysmon::config::load_input;
use sysmon::config::load_inputs;
use sysmon::config::load_outputs;
use sysmon::config::plugin_type;
use sysmon::config::Config;
use sysmon::config::ConfigIn;
use sysmon::config::Part;
use sysmon::config::PluginSetup;
use sysmon::config::setup_plugins;
use sysmon::config::PluginSection;
use sysmon::errors::Error;
use sysmon::errors::ErrorKind;
use sysmon::metric::gauge::NAN_BITS;
use sysmon::parsers::StatCpu;
use sysmon::plugin::FieldValue;
use sysmon::plugin::Input;
use sysmon::plugin::PluginContext;
use sysmon::plugin::PluginRegistry;
use sysmon::plugin::Table;
use sysmon::plugins::builtin_inputs;
use sysmon::plugins::builtin_outputs;
use sysmon::plugins::cpu::can_follow;
use sysmon::plugins::cpu::checked_total;
use sysmon::plugins::cpu::cpu_delta;
use sysmon::plugins::cpu::CpuDelta;
use sysmon::plugins::cpu::Metrics;
use sysmon::plugins::debug::DebugOutputInstance;
use sysmon::plugins::disk::DiskInput;
use sysmon::plugins::disk::DiskInputInstance;
use sysmon::plugins::http_poller;
use sysmon::plugins::http_poller::HttpInputInstance;
use sysmon::plugins::load::LoadInput;
use sysmon::plugins::load::LoadInputInstance;
use sysmon::plugins::load_plugins;
use sysmon::plugins::snoop::bind_address;
use sysmon::plugins::snoop::frame;
use sysmon::scheduler::Interval;

fn text(name: &str, value: &str) -> (String, FieldValue) {
    (name.to_owned(), FieldValue::Text(value.to_owned()))
}

fn section(id: &str, fields: Option<Vec<(String, FieldValue)>>) -> PluginSection {
    PluginSection { id: id.to_owned(), fields }
}

#[test]
fn config_defaults() {
    let config = Config::new();
    assert_eq!(config.threads(), Some(4));
    assert_eq!(config.threads_for(1), 4);
    assert_eq!(config.threads_for(64), 4);
    assert_eq!(config.update_interval, Interval { secs: 1, nanos: 0 });
    assert_eq!(config.poll_interval, Interval { secs: 10, nanos: 0 });
}

#[test]
fn config_takes_over_what_is_given() {
    let mut config = Config::new();
    let given = ConfigIn {
        threads: Some(2),
        threads_per_cpu: Some(true),
        update_interval: None,
        poll_interval: Some(Interval::from_secs(30)),
    };
    assert_eq!(config.apply(&given), Ok(()));
    assert_eq!(config.threads_for(8), 16);
    assert_eq!(config.threads_for(0), 0);
    assert_eq!(config.update_interval, Interval { secs: 1, nanos: 0 });
    assert_eq!(config.poll_interval, Interval { secs: 30, nanos: 0 });
    let per_cpu = config.threads().unwrap();
    assert_eq!(per_cpu % 2, 0);
    assert!(per_cpu >= 2);

    let nothing = ConfigIn { threads: None, threads_per_cpu: None, update_interval: None, poll_interval: None };
    assert_eq!(config.apply(&nothing), Ok(()));
    assert_eq!(config.threads_for(8), 16);
}

#[test]
fn config_refuses_zero_threads() {
    let mut config = Config::new();
    let given = ConfigIn {
        threads: Some(0),
        threads_per_cpu: Some(true),
        update_interval: Some(Interval::from_secs(5)),
        poll_interval: None,
    };
    assert_eq!(
        config.apply(&given),
        Err(Error::new(ErrorKind::ConfigField(
            "threads".to_owned(),
            "must be a positive number".to_owned()
        )))
    );
    assert_eq!(config.threads_for(8), 4);
    assert_eq!(config.update_interval, Interval { secs: 1, nanos: 0 });
}

#[test]
fn config_threads_that_do_not_fit() {
    let mut config = Config::new();
    let given = ConfigIn {
        threads: Some(usize::MAX),
        threads_per_cpu: Some(true),
        update_interval: None,
        poll_interval: None,
    };
    assert_eq!(config.apply(&given), Ok(()));
    assert_eq!(config.threads_for(1), usize::MAX);
    let threads = config.threads();
    assert!(threads == None || threads == Some(usize::MAX));
}

#[test]
fn registry_of_builtin_plugins() {
    let registry = load_plugins();
    assert_eq!(registry.input_types(), vec!["disk".to_owned(), "load".to_owned()]);
    assert_eq!(registry.output_types(), vec!["debug".to_owned()]);
    assert!(registry.get_input(&"disk".to_owned()).is_some());
    assert!(registry.get_input(&"load".to_owned()).is_some());
    assert!(registry.get_input(&"debug".to_owned()).is_none());
    assert!(registry.get_output(&"debug".to_owned()).is_some());
    assert!(registry.get_output(&"disk".to_owned()).is_none());
    assert!(registry.get_input(&"".to_owned()).is_none());
}

#[test]
fn tables_keep_one_entry_for_a_name() {
    let mut table: Table<u32> = Table::new();
    assert_eq!(table.get("a"), None);
    table.insert("a".to_owned(), 1);
    table.insert("b".to_owned(), 2);
    table.insert("a".to_owned(), 3);
    assert_eq!(table.to_names(), vec!["a".to_owned(), "b".to_owned()]);
    assert_eq!(table.get("a"), Some(&3));
    assert_eq!(table.get("b"), Some(&2));
    assert_eq!(table.get("c"), None);
}

#[test]
fn registry_returns_what_was_registered() {
    let mut inputs: Table<Arc<Box<dyn Input>>> = builtin_inputs();
    let http: Arc<Box<dyn Input>> = Arc::new(http_poller::input().unwrap());
    inputs.insert("http_poller".to_owned(), http.clone());
    let registry = PluginRegistry::new(inputs, builtin_outputs());
    assert_eq!(
        registry.input_types(),
        vec!["disk".to_owned(), "load".to_owned(), "http_poller".to_owned()]
    );
    let found = registry.get_input(&"http_poller".to_owned()).unwrap();
    assert!(Arc::ptr_eq(found, &http));
}

#[test]
fn sections_name_their_plugin_type() {
    let good = section("d", Some(vec![text("other", "x"), text("type", "disk"), text("type", "load")]));
    assert_eq!(plugin_type(&good), Ok(&"disk".to_owned()));
    let not_a_table = section("d", None);
    assert_eq!(plugin_type(&not_a_table), Err(Error::new(ErrorKind::TomlDecode)));
    let no_type = section("d", Some(vec![text("kind", "disk")]));
    assert_eq!(plugin_type(&no_type), Err(Error::new(ErrorKind::MissingField("type".to_owned()))));
    let not_text = section("d", Some(vec![("type".to_owned(), FieldValue::Other)]));
    assert_eq!(plugin_type(&not_text), Err(Error::new(ErrorKind::MissingField("type".to_owned()))));
    let empty = section("d", Some(vec![]));
    assert_eq!(plugin_type(&empty), Err(Error::new(ErrorKind::MissingField("type".to_owned()))));
}

#[test]
fn instances_are_loaded_from_sections() {
    let registry = load_plugins();
    let disk = section("d", Some(vec![text("type", "disk")]));
    assert!(find_input(&registry, &disk).is_ok());
    let instance = load_input(&registry, &disk).ok().unwrap();
    assert_eq!(instance.poll().unwrap().len(), 0);
    assert_eq!(instance.update(), Ok(()));
    assert_eq!(instance.next_update(), Interval { secs: 0, nanos: 0 });

    let unknown = section("u", Some(vec![text("type", "nope")]));
    assert_eq!(
        load_input(&registry, &unknown).err(),
        Some(Error::new(ErrorKind::MissingPlugin("nope".to_owned())))
    );
    assert_eq!(
        load_input(&registry, &section("u", None)).err(),
        Some(Error::new(ErrorKind::TomlDecode))
    );
}

#[test]
fn parts_of_a_configuration_are_loaded_in_order() {
    let registry = load_plugins();
    let sections = Part::Sections(vec![
        section("a", Some(vec![text("type", "disk")])),
        section("b", Some(vec![text("type", "load")])),
    ]);
    assert_eq!(load_inputs(&registry, &sections).ok().unwrap().len(), 2);
    assert_eq!(load_inputs(&registry, &Part::Sections(vec![])).ok().unwrap().len(), 0);
    assert_eq!(load_outputs(&registry, &Part::Sections(vec![])).ok().unwrap().len(), 0);
    assert_eq!(load_inputs(&registry, &Part::Absent).ok().unwrap().len(), 0);
    assert_eq!(load_outputs(&registry, &Part::Absent).ok().unwrap().len(), 0);

    let outputs = Part::Sections(vec![section("console", Some(vec![text("type", "debug")]))]);
    assert_eq!(load_outputs(&registry, &outputs).ok().unwrap().len(), 1);
}

#[test]
fn a_failing_section_is_named_in_the_error() {
    let registry = load_plugins();
    let sections = Part::Sections(vec![
        section("a", Some(vec![text("type", "disk")])),
        section("b", Some(vec![text("type", "nope")])),
        section("c", None),
    ]);
    assert_eq!(
        load_inputs(&registry, &sections).err(),
        Some(Error {
            kind: ErrorKind::ConfigSection("in".to_owned()),
            causes: vec![
                ErrorKind::ConfigSection("b".to_owned()),
                ErrorKind::MissingPlugin("nope".to_owned()),
            ],
        })
    );
    assert_eq!(
        load_outputs(&registry, &Part::Sections(vec![section("x", Some(vec![]))])).err(),
        Some(Error {
            kind: ErrorKind::ConfigSection("out".to_owned()),
            causes: vec![
                ErrorKind::ConfigSection("x".to_owned()),
                ErrorKind::MissingField("type".to_owned()),
            ],
        })
    );
    assert_eq!(
        load_inputs(&registry, &Part::NotATable).err(),
        Some(Error { kind: ErrorKind::ConfigSection("in".to_owned()), causes: vec![ErrorKind::TomlDecode] })
    );
    assert_eq!(
        load_outputs(&registry, &Part::NotATable).err(),
        Some(Error { kind: ErrorKind::ConfigSection("out".to_owned()), causes: vec![ErrorKind::TomlDecode] })
    );
}

#[test]
fn http_poller_needs_a_target() {
    let plugin = http_poller::input().unwrap();
    let id = "h".to_owned();
    let with_target = vec![text("type", "http_poller"), text("target", "http://localhost/")];
    let ctx = PluginContext { id: &id, fields: &with_target };
    assert_eq!(http_poller::decode_config(&ctx).unwrap().target, "http://localhost/");
    assert!(plugin.setup(&ctx).is_ok());
    let without = vec![text("type", "http_poller")];
    let ctx = PluginContext { id: &id, fields: &without };
    assert_eq!(
        plugin.setup(&ctx).err(),
        Some(Error::new(ErrorKind::ConfigField("target".to_owned(), "expected a string".to_owned())))
    );
    let wrong = vec![("target".to_owned(), FieldValue::Other)];
    let ctx = PluginContext { id: &id, fields: &wrong };
    assert!(http_poller::decode_config(&ctx).is_err());
}

#[test]
fn plugin_constructors() {
    let _ = DiskInput::new();
    let _ = DiskInputInstance::new();
    let _ = LoadInput::new();
    let _ = LoadInputInstance::new();
    let _ = HttpInputInstance::new();
    let debug = DebugOutputInstance::new("console".to_owned());
    assert_eq!(debug.id(), "console");
}

#[test]
fn snoop_messages_and_addresses() {
    let message = frame("{\"value\":1.0}");
    assert_eq!(message.as_ref(), b"{\"value\":1.0}\n");
    assert_eq!(frame("").as_ref(), b"\n");
    let copy = message.clone();
    assert_eq!(copy.as_ref(), message.as_ref());

    let id = "s".to_owned();
    let none = vec![text("type", "snoop")];
    assert_eq!(bind_address(&PluginContext { id: &id, fields: &none }), "127.0.0.1:8080");
    let given = vec![text("bind", "0.0.0.0:9000")];
    assert_eq!(bind_address(&PluginContext { id: &id, fields: &given }), "0.0.0.0:9000");
}

fn stat(user: u64, idle: u64) -> StatCpu {
    StatCpu { user, nice: 1, system: 2, idle, iowait: 3, irq: 4, softirq: 5, steal: 6, guest: 7, guest_nice: 8 }
}

#[test]
fn cpu_snapshot() {
    let metrics = Metrics::new();
    let samples = metrics.samples();
    assert_eq!(samples.len(), 2);
    assert_eq!(samples[0].value, NAN_BITS);
    assert_eq!(samples[1].value, NAN_BITS);
}

#[test]
fn cpu_deltas() {
    let prev = stat(100, 50);
    let next = stat(130, 60);
    assert_eq!(checked_total(&prev), Some(186));
    assert!(can_follow(&prev, &next));
    assert_eq!(cpu_delta(&prev, &next), Some(CpuDelta { used: 30, free: 10, total: 40 }));
    assert_eq!(cpu_delta(&prev, &prev), None);
    assert!(!can_follow(&next, &prev));
    assert!(!can_follow(&prev, &stat(160, 40)));
    assert!(!can_follow(&prev, &stat(u64::MAX, 60)));
    assert_eq!(checked_total(&stat(u64::MAX, 0)), None);
    assert_eq!(checked_total(&stat(u64::MAX - 36, 0)), Some(u64::MAX));
}

#[test]
fn cpu_metrics() {
    let mut metrics = Metrics::new();
    assert_eq!(metrics.advance(stat(100, 50)), None);
    assert_eq!(metrics.advance(stat(130, 60)), Some(CpuDelta { used: 30, free: 10, total: 40 }));
    assert_eq!(metrics.advance(stat(130, 60)), None);
    metrics.set_shares(0.75f64.to_bits(), 0.25f64.to_bits());
    let samples = metrics.samples();
    assert_eq!(f64::from_bits(samples[0].value), 0.25);
    assert_eq!(f64::from_bits(samples[1].value), 0.75);
    let free = &samples[0].metric_id;
    let used = &samples[1].metric_id;
    assert_eq!(free.key(), &Some("system".to_owned()));
    assert_eq!(
        free.tags(),
        &vec![("unit".to_owned(), "%".to_owned()), ("what".to_owned(), "cpu-free".to_owned())]
    );
    assert_eq!(
        used.tags(),
        &vec![("unit".to_owned(), "%".to_owned()), ("what".to_owned(), "cpu-used".to_owned())]
    );
    assert_eq!(used.meaning(), &vec!["what".to_owned()]);
    assert!(used.identity().is_empty());
    assert!(free != used);
    let again = metrics.samples();
    assert!(Arc::ptr_eq(&again[0].metric_id, &samples[0].metric_id));
}

#[test]
fn every_configuration_is_set_up() {
    let registry = load_plugins();
    assert!(matches!(setup_plugins(&vec![], &registry), Ok((i, o)) if i.is_empty() && o.is_empty()));
    let setups = vec![
        PluginSetup {
            input: Part::Sections(vec![
                section("a", Some(vec![text("type", "disk")])),
                section("b", Some(vec![text("type", "load")])),
            ]),
            output: Part::Absent,
        },
        PluginSetup {
            input: Part::Sections(vec![section("c", Some(vec![text("type", "disk")]))]),
            output: Part::Sections(vec![section("console", Some(vec![text("type", "debug")]))]),
        },
    ];
    let (inputs, outputs) = setup_plugins(&setups, &registry).ok().unwrap();
    assert_eq!(inputs.len(), 3);
    assert_eq!(outputs.len(), 1);

    let broken = vec![
        PluginSetup { input: Part::Absent, output: Part::NotATable },
        PluginSetup { input: Part::NotATable, output: Part::Absent },
    ];
    assert_eq!(
        setup_plugins(&broken, &registry).err(),
        Some(Error { kind: ErrorKind::ConfigSection("out".to_owned()), causes: vec![ErrorKind::TomlDecode] })
    );
}

#[test]
fn decode_errors_name_the_field() {
    assert_eq!(
        Error::from_decode(Some("threads".to_owned()), "expected a number".to_owned()),
        Error::new(ErrorKind::ConfigField("threads".to_owned(), "expected a number".to_owned()))
    );
    assert_eq!(
        Error::from_decode(None, "bad".to_owned()),
        Error::new(ErrorKind::Message("bad".to_owned()))
    );
}

#[test]
fn cpu_asks_for_an_update_every_second() {
    assert_eq!(sysmon::plugins::cpu::next_update(), Interval { secs: 1, nanos: 0 });
}

#[test]
fn config_threads_on_a_given_machine() {
    let mut config = Config::new();
    assert_eq!(config.threads_on(1), Some(4));
    assert_eq!(config.threads_on(64), Some(4));
    assert_eq!(config.threads_on(0), Some(4));
    let given = ConfigIn { threads: Some(3), threads_per_cpu: Some(true), update_interval: None, poll_interval: None };
    assert_eq!(config.apply(&given), Ok(()));
    assert_eq!(config.threads_on(1), Some(3));
    assert_eq!(config.threads_on(8), Some(24));
    assert_eq!(config.threads_on(0), Some(0));
    assert_eq!(config.threads_on(usize::MAX / 3), Some(usize::MAX / 3 * 3));
    assert_eq!(config.threads_on(usize::MAX / 3 + 1), None);
    assert_eq!(config.threads_on(usize::MAX), None);
}

#[test]
fn configurations_that_ask_for_nothing_succeed() {
    let registry = load_plugins();
    let setups = vec![
        PluginSetup { input: Part::Absent, output: Part::Absent },
        PluginSetup { input: Part::Sections(vec![]), output: Part::Absent },
        PluginSetup { input: Part::Absent, output: Part::Sections(vec![]) },
    ];
    let (inputs, outputs) = setup_plugins(&setups, &registry).ok().unwrap();
    assert!(inputs.is_empty());
    assert!(outputs.is_empty());
}

#[test]
fn the_first_failing_section_is_the_error() {
    let mut inputs: Table<Arc<Box<dyn Input>>> = builtin_inputs();
    inputs.insert("http_poller".to_owned(), Arc::new(http_poller::input().unwrap()));
    let registry = PluginRegistry::new(inputs, builtin_outputs());
    let sections = Part::Sections(vec![
        section("a", Some(vec![text("type", "disk")])),
        section("b", Some(vec![text("type", "http_poller")])),
        section("c", Some(vec![text("type", "nope")])),
    ]);
    assert_eq!(
        load_inputs(&registry, &sections).err(),
        Some(Error {
            kind: ErrorKind::ConfigSection("in".to_owned()),
            causes: vec![
                ErrorKind::ConfigSection("b".to_owned()),
                ErrorKind::ConfigField("target".to_owned(), "expected a string".to_owned()),
            ],
        })
    );
    let setups = vec![
        PluginSetup { input: Part::Sections(vec![section("a", Some(vec![text("type", "disk")]))]), output: Part::Absent },
        PluginSetup {
            input: Part::Sections(vec![section("b", Some(vec![text("type", "load")]))]),
            output: Part::Sections(vec![
                section("x", Some(vec![text("type", "debug")])),
                section("y", Some(vec![("type".to_owned(), FieldValue::Other)])),
            ]),
        },
        PluginSetup { input: Part::NotATable, output: Part::Absent },
    ];
    assert_eq!(
        setup_plugins(&setups, &registry).err(),
        Some(Error {
            kind: ErrorKind::ConfigSection("out".to_owned()),
            causes: vec![
                ErrorKind::ConfigSection("y".to_owned()),
                ErrorKind::MissingField("type".to_owned()),
            ],
        })
    );
}
