//! The daemon's settings, and how the plugins that a configuration names
//! are found and set up.
//!
//! Reading and decoding a configuration file is the caller's part. What
//! arrives here are the decoded settings, and of every plugin section what
//! the rules below read: its identifier and its fields.

use vstd::prelude::*;
use std::sync::Arc;
use crate::errors::Error;
use crate::errors::ErrorKind;
use crate::plugin::fields_view;
use crate::plugin::spec_text_field;
use crate::plugin::text_field;
use crate::plugin::FieldValue;
use crate::plugin::Input;
use crate::plugin::InputInstance;
use crate::plugin::Output;
use crate::plugin::OutputInstance;
use crate::plugin::PluginContext;
use crate::plugin::PluginRegistry;
use crate::scheduler::Interval;

verus! {

/// The number of processors, as `num_cpus::get` reports it: at least one,
/// as its documentation promises. Nothing else is claimed of the number:
/// it is the machine's.
#[verifier::external_body]
fn cpu_count() -> (cpus: usize)
    ensures
        cpus >= 1,
{
    num_cpus::get()
}

pub struct Config {
    /// Number of threads to configure in thread pool.
    threads: usize,
    /// If the threads option is per cpu or not.
    threads_per_cpu: bool,
    /// Interval at which to perform updates.
    pub update_interval: Interval,
    /// Interval at which to perform polling.
    pub poll_interval: Interval,
}

/// The settings as a configuration file gives them: each may be left out.
#[derive(Debug)]
pub struct ConfigIn {
    pub threads: Option<usize>,
    pub threads_per_cpu: Option<bool>,
    pub update_interval: Option<Interval>,
    pub poll_interval: Option<Interval>,
}

impl Config {
    pub closed spec fn spec_threads(&self) -> usize {
        self.threads
    }

    pub closed spec fn spec_threads_per_cpu(&self) -> bool {
        self.threads_per_cpu
    }

    pub closed spec fn spec_update_interval(&self) -> Interval {
        self.update_interval
    }

    pub closed spec fn spec_poll_interval(&self) -> Interval {
        self.poll_interval
    }

    /// The defaults: four threads in all, an update every second, a poll
    /// every ten seconds.
    pub fn new() -> (c: Config)
        ensures
            c.spec_threads() == 4,
            !c.spec_threads_per_cpu(),
            c.spec_update_interval() == (Interval { secs: 1, nanos: 0 }),
            c.spec_poll_interval() == (Interval { secs: 10, nanos: 0 }),
    {
        // defaults
        Config {
            threads: 4,
            threads_per_cpu: false,
            update_interval: Interval::from_secs(1),
            poll_interval: Interval::from_secs(10),
        }
    }

    /// The size of the thread pool on a machine with `cpus` processors.
    pub open spec fn spec_threads_for(&self, cpus: usize) -> int {
        if self.spec_threads_per_cpu() {
            cpus * self.spec_threads()
        } else {
            self.spec_threads() as int
        }
    }

    /// The size of the thread pool on a machine with `cpus` processors:
    /// the configured number, for each processor where the configuration
    /// says so. The size has to fit in a machine word.
    pub fn threads_for(&self, cpus: usize) -> (threads: usize)
        requires
            self.spec_threads_for(cpus) <= usize::MAX,
        ensures
            threads == self.spec_threads_for(cpus),
    {
        if self.threads_per_cpu {
            return cpus * self.threads;
        }
        self.threads
    }

    /// The size of the thread pool on a machine with `cpus` processors, or
    /// `None` where the size does not fit in a machine word.
    pub open spec fn spec_threads_on(&self, cpus: usize) -> Option<usize> {
        if self.spec_threads_for(cpus) <= usize::MAX {
            Some(self.spec_threads_for(cpus) as usize)
        } else {
            None
        }
    }

    /// The size of the thread pool on a machine with `cpus` processors, or
    /// `None` where the size does not fit in a machine word.
    pub fn threads_on(&self, cpus: usize) -> (threads: Option<usize>)
        ensures
            threads == self.spec_threads_on(cpus),
    {
        if self.threads_per_cpu {
            match cpus.checked_mul(self.threads) {
                Some(_) => Some(self.threads_for(cpus)),
                None => None,
            }
        } else {
            Some(self.threads_for(cpus))
        }
    }

    /// The size of the thread pool on this machine: what `threads_on` gives
    /// for the number of processors that the machine reports, which is at
    /// least one.
    pub fn threads(&self) -> (threads: Option<usize>)
        ensures
            exists|cpus: usize| cpus >= 1 && threads == #[trigger] self.spec_threads_on(cpus),
            !self.spec_threads_per_cpu() ==> threads == Some(self.spec_threads()),
    {
        let cpus = cpu_count();
        let threads = self.threads_on(cpus);
        assert(cpus >= 1 && threads == self.spec_threads_on(cpus));
        threads
    }

    /// Takes over the settings that a configuration file gives and keeps
    /// the others. A thread count of zero is refused, and then nothing is
    /// taken over.
    pub fn apply(&mut self, config_in: &ConfigIn) -> (r: Result<(), Error>)
        ensures
            config_in.threads == Some(0usize) <==> r is Err,
            r matches Err(err) ==> *final(self) == *old(self) && err.causes@.len() == 0 && (err.kind matches ErrorKind::ConfigField(
                field,
                reason,
            ) && field@ == "threads"@ && reason@ == "must be a positive number"@),
            r is Ok ==> final(self).spec_threads() == (match config_in.threads {
                Some(threads) => threads,
                None => old(self).spec_threads(),
            }),
            r is Ok ==> final(self).spec_threads_per_cpu() == (match config_in.threads_per_cpu {
                Some(per_cpu) => per_cpu,
                None => old(self).spec_threads_per_cpu(),
            }),
            r is Ok ==> final(self).spec_update_interval() == (match config_in.update_interval {
                Some(interval) => interval,
                None => old(self).spec_update_interval(),
            }),
            r is Ok ==> final(self).spec_poll_interval() == (match config_in.poll_interval {
                Some(interval) => interval,
                None => old(self).spec_poll_interval(),
            }),
    {
        if let Some(threads) = config_in.threads {
            if threads == 0 {
                return Err(
                    Error::new(
                        ErrorKind::ConfigField("threads".to_owned(), "must be a positive number".to_owned()),
                    ),
                );
            }
            self.threads = threads;
        }
        if let Some(threads_per_cpu) = config_in.threads_per_cpu {
            self.threads_per_cpu = threads_per_cpu;
        }
        if let Some(update_interval) = config_in.update_interval {
            self.update_interval = update_interval;
        }
        if let Some(poll_interval) = config_in.poll_interval {
            self.poll_interval = poll_interval;
        }
        Ok(())
    }
}

/// One plugin's section of a configuration.
#[derive(Debug)]
pub struct PluginSection {
    /// The identifier that the configuration gives the plugin instance.
    pub id: String,
    /// The fields of the section, or `None` where the section is not a
    /// table.
    pub fields: Option<Vec<(String, FieldValue)>>,
}

/// One part of a configuration, `in` or `out`: the sections of the plugin
/// instances it asks for.
#[derive(Debug)]
pub enum Part {
    /// The configuration has no such part.
    Absent,
    /// The part is there and is not a table.
    NotATable,
    /// The sections of the part, in the order of the configuration.
    Sections(Vec<PluginSection>),
}

impl Part {
    /// The sections of the part; none where the part is absent.
    pub open spec fn sections(self) -> Seq<PluginSection> {
        match self {
            Part::Sections(given) => given@,
            _ => Seq::empty(),
        }
    }
}

/// What one configuration file asks to be set up.
#[derive(Debug)]
pub struct PluginSetup {
    pub input: Part,
    pub output: Part,
}

/// Why a section names no plugin type.
pub enum TypeFault {
    /// The section is not a table.
    NotATable,
    /// The section has no `type` that is a string.
    NoType,
}

/// The plugin type that a section names.
pub open spec fn spec_type_of(section: PluginSection) -> Result<Seq<char>, TypeFault> {
    match section.fields {
        None => Err(TypeFault::NotATable),
        Some(fields) => match spec_text_field(fields_view(fields@), "type"@) {
            Some(text) => Ok(text),
            None => Err(TypeFault::NoType),
        },
    }
}

/// The kind of error for a section that names no plugin type.
pub open spec fn is_type_fault_kind(kind: ErrorKind, fault: TypeFault) -> bool {
    match fault {
        TypeFault::NotATable => kind == ErrorKind::TomlDecode,
        TypeFault::NoType => kind matches ErrorKind::MissingField(name) && name@ == "type"@,
    }
}

/// The error for a section that names no plugin type.
pub open spec fn is_type_fault(err: Error, fault: TypeFault) -> bool {
    err.causes@.len() == 0 && is_type_fault_kind(err.kind, fault)
}

/// The kind of error for a plugin type that is not registered.
pub open spec fn is_missing_plugin_kind(kind: ErrorKind, plugin_type: Seq<char>) -> bool {
    kind matches ErrorKind::MissingPlugin(key) && key@ == plugin_type
}

/// The error for a plugin type that is not registered.
pub open spec fn is_missing_plugin(err: Error, plugin_type: Seq<char>) -> bool {
    err.causes@.len() == 0 && is_missing_plugin_kind(err.kind, plugin_type)
}

/// The kind of error for a section that names no registered plugin.
pub open spec fn is_unfound_kind(kind: ErrorKind, section: PluginSection) -> bool {
    match spec_type_of(section) {
        Err(fault) => is_type_fault_kind(kind, fault),
        Ok(name) => is_missing_plugin_kind(kind, name),
    }
}

/// Whether the error is that of the named section.
pub open spec fn is_section_error(err: Error, section: Seq<char>) -> bool {
    err.kind matches ErrorKind::ConfigSection(name) && name@ == section
}

/// The plugin type that a section names.
pub fn plugin_type(section: &PluginSection) -> (r: Result<&String, Error>)
    ensures
        match r {
            Ok(name) => spec_type_of(*section) == Ok::<Seq<char>, TypeFault>(name@),
            Err(err) => spec_type_of(*section) matches Err(fault) && is_type_fault(err, fault),
        },
{
    match &section.fields {
        None => Err(Error::new(ErrorKind::TomlDecode)),
        Some(fields) => match text_field(fields, "type") {
            Some(name) => Ok(name),
            None => Err(Error::new(ErrorKind::MissingField("type".to_owned()))),
        },
    }
}

/// Whether the section names an input plugin that is registered.
pub open spec fn names_input(registry: PluginRegistry, section: PluginSection) -> bool {
    spec_type_of(section) matches Ok(name) && registry.inputs().contains(name)
}

/// Whether the section names an output plugin that is registered.
pub open spec fn names_output(registry: PluginRegistry, section: PluginSection) -> bool {
    spec_type_of(section) matches Ok(name) && registry.outputs().contains(name)
}

/// The input plugin that a section names.
pub fn find_input<'a>(registry: &'a PluginRegistry, section: &PluginSection) -> (r: Result<
    &'a Arc<Box<dyn Input>>,
    Error,
>)
    ensures
        r is Ok <==> names_input(*registry, *section),
        r matches Ok(plugin) ==> exists|i: int|
            0 <= i < registry.inputs().len() && #[trigger] registry.inputs()[i] == spec_type_of(*section)->Ok_0
                && registry.input(i) == *plugin,
        r matches Err(err) ==> match spec_type_of(*section) {
            Err(fault) => is_type_fault(err, fault),
            Ok(name) => is_missing_plugin(err, name),
        },
{
    let name = match plugin_type(section) {
        Ok(name) => name,
        Err(err) => {
            return Err(err);
        },
    };
    match registry.get_input(name) {
        Some(plugin) => {
            Ok(plugin)
        },
        None => Err(Error::new(ErrorKind::MissingPlugin(name.clone()))),
    }
}

/// The output plugin that a section names.
pub fn find_output<'a>(registry: &'a PluginRegistry, section: &PluginSection) -> (r: Result<
    &'a Arc<Box<dyn Output>>,
    Error,
>)
    ensures
        r is Ok <==> names_output(*registry, *section),
        r matches Ok(plugin) ==> exists|i: int|
            0 <= i < registry.outputs().len() && #[trigger] registry.outputs()[i] == spec_type_of(*section)->Ok_0
                && registry.output(i) == *plugin,
        r matches Err(err) ==> match spec_type_of(*section) {
            Err(fault) => is_type_fault(err, fault),
            Ok(name) => is_missing_plugin(err, name),
        },
{
    let name = match plugin_type(section) {
        Ok(name) => name,
        Err(err) => {
            return Err(err);
        },
    };
    match registry.get_output(name) {
        Some(plugin) => {
            Ok(plugin)
        },
        None => Err(Error::new(ErrorKind::MissingPlugin(name.clone()))),
    }
}

/// Sets up the input that a section describes. Where the section names no
/// plugin that is registered, that is the error; otherwise the result is
/// what the plugin's `setup` returned.
pub fn load_input(registry: &PluginRegistry, section: &PluginSection) -> (r: Result<
    Box<dyn InputInstance>,
    Error,
>)
    ensures
        r is Ok ==> names_input(*registry, *section),
        !names_input(*registry, *section) ==> (r matches Err(err) && match spec_type_of(*section) {
            Err(fault) => is_type_fault(err, fault),
            Ok(name) => is_missing_plugin(err, name),
        }),
{
    let plugin = match find_input(registry, section) {
        Ok(plugin) => plugin,
        Err(err) => {
            return Err(err);
        },
    };
    match &section.fields {
        Some(fields) => plugin.setup(&PluginContext { id: &section.id, fields }),
        None => Err(Error::new(ErrorKind::TomlDecode)),
    }
}

/// Sets up the output that a section describes. Where the section names
/// no plugin that is registered, that is the error; otherwise the result
/// is what the plugin's `setup` returned.
pub fn load_output(registry: &PluginRegistry, section: &PluginSection) -> (r: Result<
    Box<dyn OutputInstance>,
    Error,
>)
    ensures
        r is Ok ==> names_output(*registry, *section),
        !names_output(*registry, *section) ==> (r matches Err(err) && match spec_type_of(*section) {
            Err(fault) => is_type_fault(err, fault),
            Ok(name) => is_missing_plugin(err, name),
        }),
{
    let plugin = match find_output(registry, section) {
        Ok(plugin) => plugin,
        Err(err) => {
            return Err(err);
        },
    };
    match &section.fields {
        Some(fields) => plugin.setup(&PluginContext { id: &section.id, fields }),
        None => Err(Error::new(ErrorKind::TomlDecode)),
    }
}

/// Whether every section of the part names an input plugin that is
/// registered, and the part is not something else than a table.
pub open spec fn inputs_found(registry: PluginRegistry, part: Part) -> bool {
    &&& !(part is NotATable)
    &&& forall|k: int| 0 <= k < part.sections().len() ==> names_input(registry, #[trigger] part.sections()[k])
}

/// Whether every section of the part names an output plugin that is
/// registered, and the part is not something else than a table.
pub open spec fn outputs_found(registry: PluginRegistry, part: Part) -> bool {
    &&& !(part is NotATable)
    &&& forall|k: int| 0 <= k < part.sections().len() ==> names_output(registry, #[trigger] part.sections()[k])
}

/// Whether `err` is the error of the section at position `at`, as the
/// first of the sections that failed: its immediate cause is an error of
/// a section with that section's identifier, and behind that stands the
/// section's own error with its causes. Where the section names no plugin
/// that is registered, its own error says so and has no cause; where it
/// names one, its own error is what the plugin's `setup` returned. Every
/// section before it names a registered plugin.
pub open spec fn failed_at(err: Error, given: Seq<PluginSection>, found: Seq<bool>, at: int) -> bool {
    &&& 0 <= at < given.len()
    &&& found.len() == given.len()
    &&& forall|j: int| 0 <= j < at ==> #[trigger] found[j]
    &&& err.causes@.len() >= 2
    &&& err.causes@[0] matches ErrorKind::ConfigSection(name) && name@ == given[at].id@
    &&& !found[at] ==> err.causes@.len() == 2 && is_unfound_kind(err.causes@[1], given[at])
}

/// For each section, whether it names an input plugin that is registered.
pub open spec fn found_inputs(registry: PluginRegistry, given: Seq<PluginSection>) -> Seq<bool> {
    Seq::new(given.len(), |k: int| names_input(registry, given[k]))
}

/// For each section, whether it names an output plugin that is
/// registered.
pub open spec fn found_outputs(registry: PluginRegistry, given: Seq<PluginSection>) -> Seq<bool> {
    Seq::new(given.len(), |k: int| names_output(registry, given[k]))
}

/// Whether `err` is the error of a part of the configuration, `in` or
/// `out`: of a part that is not a table, or of the first of its sections
/// that failed.
pub open spec fn is_part_failure(err: Error, part: Part, name: Seq<char>, found: Seq<bool>) -> bool {
    &&& is_section_error(err, name)
    &&& match part {
        Part::Absent => false,
        Part::NotATable => err.causes@ == seq![ErrorKind::TomlDecode],
        Part::Sections(given) => exists|at: int| #[trigger] failed_at(err, given@, found, at),
    }
}

/// The error of a plugin instance, as the error of its section within the
/// named part of the configuration.
fn in_section(err: Error, id: &String, part: &str) -> (wrapped: Error)
    ensures
        is_section_error(wrapped, part@),
        wrapped.causes@.len() == err.causes@.len() + 2,
        wrapped.causes@[0] matches ErrorKind::ConfigSection(name) && name@ == id@,
        wrapped.causes@[1] == err.kind,
        wrapped.causes@.skip(2) == err.causes@,
{
    let wrapped = err.chain_err(ErrorKind::ConfigSection(id.clone())).chain_err(
        ErrorKind::ConfigSection(part.to_owned()),
    );
    assert(wrapped.causes@.skip(2) =~= err.causes@);
    wrapped
}

/// The error for a part of the configuration that is not a table.
fn not_a_table(part: &str) -> (err: Error)
    ensures
        is_section_error(err, part@),
        err.causes@ == seq![ErrorKind::TomlDecode],
{
    let err = Error::new(ErrorKind::TomlDecode).chain_err(ErrorKind::ConfigSection(part.to_owned()));
    assert(err.causes@ =~= seq![ErrorKind::TomlDecode]);
    err
}

/// Sets up every input of the `in` part of a configuration, in the order
/// of the sections. The first section that fails ends the work: its error
/// is returned as the cause of an error of that section, and that as the
/// cause of an error of the part `in`. An absent part asks for nothing; a
/// part that is not a table is an error.
pub fn load_inputs(registry: &PluginRegistry, part: &Part) -> (r: Result<
    Vec<Arc<Box<dyn InputInstance>>>,
    Error,
>)
    ensures
        part.sections().len() == 0 && !(*part is NotATable) ==> r is Ok,
        r matches Ok(inputs) ==> inputs_found(*registry, *part) && inputs@.len() == part.sections().len(),
        r matches Err(err) ==> is_part_failure(err, *part, "in"@, found_inputs(*registry, part.sections())),
{
    let given = match part {
        Part::Sections(given) => given,
        Part::Absent => {
            return Ok(Vec::new());
        },
        Part::NotATable => {
            return Err(not_a_table("in"));
        },
    };
    let mut inputs: Vec<Arc<Box<dyn InputInstance>>> = Vec::new();
    let mut i: usize = 0;
    while i < given.len()
        invariant
            i <= given@.len(),
            *part == Part::Sections(*given),
            inputs@.len() == i,
            forall|j: int| 0 <= j < i ==> names_input(*registry, #[trigger] given@[j]),
        decreases given@.len() - i,
    {
        match load_input(registry, &given[i]) {
            Ok(instance) => {
                inputs.push(Arc::new(instance));
            },
            Err(err) => {
                let wrapped = in_section(err, &given[i].id, "in");
                proof {
                    let found = found_inputs(*registry, given@);
                    assert forall|j: int| 0 <= j < i implies #[trigger] found[j] by {
                        assert(names_input(*registry, given@[j]));
                    }
                    assert(found[i as int] == names_input(*registry, given@[i as int]));
                    assert(failed_at(wrapped, given@, found, i as int));
                }
                return Err(wrapped);
            },
        }
        i = i + 1;
    }
    Ok(inputs)
}

/// Sets up every output of the `out` part of a configuration, in the
/// order of the sections. The first section that fails ends the work: its
/// error is returned as the cause of an error of that section, and that as
/// the cause of an error of the part `out`. An absent part asks for
/// nothing; a part that is not a table is an error.
pub fn load_outputs(registry: &PluginRegistry, part: &Part) -> (r: Result<
    Vec<Arc<Box<dyn OutputInstance>>>,
    Error,
>)
    ensures
        part.sections().len() == 0 && !(*part is NotATable) ==> r is Ok,
        r matches Ok(outputs) ==> outputs_found(*registry, *part) && outputs@.len() == part.sections().len(),
        r matches Err(err) ==> is_part_failure(err, *part, "out"@, found_outputs(*registry, part.sections())),
{
    let given = match part {
        Part::Sections(given) => given,
        Part::Absent => {
            return Ok(Vec::new());
        },
        Part::NotATable => {
            return Err(not_a_table("out"));
        },
    };
    let mut outputs: Vec<Arc<Box<dyn OutputInstance>>> = Vec::new();
    let mut i: usize = 0;
    while i < given.len()
        invariant
            i <= given@.len(),
            *part == Part::Sections(*given),
            outputs@.len() == i,
            forall|j: int| 0 <= j < i ==> names_output(*registry, #[trigger] given@[j]),
        decreases given@.len() - i,
    {
        match load_output(registry, &given[i]) {
            Ok(instance) => {
                outputs.push(Arc::new(instance));
            },
            Err(err) => {
                let wrapped = in_section(err, &given[i].id, "out");
                proof {
                    let found = found_outputs(*registry, given@);
                    assert forall|j: int| 0 <= j < i implies #[trigger] found[j] by {
                        assert(names_output(*registry, given@[j]));
                    }
                    assert(found[i as int] == names_output(*registry, given@[i as int]));
                    assert(failed_at(wrapped, given@, found, i as int));
                }
                return Err(wrapped);
            },
        }
        i = i + 1;
    }
    Ok(outputs)
}

/// The number of instances that the parts ask for, where every part is
/// absent or a table.
pub open spec fn asked(parts: Seq<Part>) -> nat
    decreases parts.len(),
{
    if parts.len() == 0 {
        0
    } else {
        asked(parts.drop_last()) + parts.last().sections().len()
    }
}

/// The `in` parts of the configurations.
pub open spec fn input_parts(setups: Seq<PluginSetup>) -> Seq<Part> {
    Seq::new(setups.len(), |i: int| setups[i].input)
}

/// The `out` parts of the configurations.
pub open spec fn output_parts(setups: Seq<PluginSetup>) -> Seq<Part> {
    Seq::new(setups.len(), |i: int| setups[i].output)
}

/// Whether a configuration asks for nothing: neither part has a section,
/// and neither is anything else than a table.
pub open spec fn asks_nothing(setup: PluginSetup) -> bool {
    &&& !(setup.input is NotATable)
    &&& !(setup.output is NotATable)
    &&& setup.input.sections().len() == 0
    &&& setup.output.sections().len() == 0
}

/// Whether every section of the configuration names a plugin that is
/// registered, and each part is absent or a table.
pub open spec fn all_found(registry: PluginRegistry, setup: PluginSetup) -> bool {
    inputs_found(registry, setup.input) && outputs_found(registry, setup.output)
}

/// Whether `err` is the error of the configuration at position `at`, as
/// the first that failed: the error of its `in` part, or, where that part
/// names registered plugins throughout, the error of its `out` part.
pub open spec fn failed_in(err: Error, registry: PluginRegistry, setups: Seq<PluginSetup>, at: int) -> bool {
    &&& 0 <= at < setups.len()
    &&& forall|j: int| 0 <= j < at ==> all_found(registry, #[trigger] setups[j])
    &&& {
        ||| is_part_failure(
            err,
            setups[at].input,
            "in"@,
            found_inputs(registry, setups[at].input.sections()),
        )
        ||| (inputs_found(registry, setups[at].input) && is_part_failure(
            err,
            setups[at].output,
            "out"@,
            found_outputs(registry, setups[at].output.sections()),
        ))
    }
}

/// Sets up what every configuration asks for, one configuration after the
/// other, of each its inputs and then its outputs. The instances come out
/// in that order. The first failure ends the work and is the result: a
/// part that is not a table, a section that names no registered plugin, or
/// what a plugin's `setup` returned. Where no configuration asks for
/// anything, there is nothing that can fail.
pub fn setup_plugins(setups: &Vec<PluginSetup>, registry: &PluginRegistry) -> (r: Result<
    (Vec<Arc<Box<dyn InputInstance>>>, Vec<Arc<Box<dyn OutputInstance>>>),
    Error,
>)
    ensures
        (forall|i: int| 0 <= i < setups@.len() ==> asks_nothing(#[trigger] setups@[i])) ==> r is Ok,
        r matches Ok(instances) ==> instances.0@.len() == asked(input_parts(setups@)) && instances.1@.len()
            == asked(output_parts(setups@)),
        r is Ok ==> forall|i: int| 0 <= i < setups@.len() ==> all_found(*registry, #[trigger] setups@[i]),
        r matches Err(err) ==> exists|at: int| #[trigger] failed_in(err, *registry, setups@, at),
{
    let mut inputs: Vec<Arc<Box<dyn InputInstance>>> = Vec::new();
    let mut outputs: Vec<Arc<Box<dyn OutputInstance>>> = Vec::new();
    let mut i: usize = 0;
    assert(input_parts(setups@).take(0) =~= Seq::<Part>::empty());
    assert(output_parts(setups@).take(0) =~= Seq::<Part>::empty());
    while i < setups.len()
        invariant
            i <= setups@.len(),
            inputs@.len() == asked(input_parts(setups@).take(i as int)),
            outputs@.len() == asked(output_parts(setups@).take(i as int)),
            forall|j: int| 0 <= j < i ==> all_found(*registry, #[trigger] setups@[j]),
        decreases setups@.len() - i,
    {
        let mut input = match load_inputs(registry, &setups[i].input) {
            Ok(input) => input,
            Err(err) => {
                assert(!asks_nothing(setups@[i as int]));
                assert(failed_in(err, *registry, setups@, i as int));
                return Err(err);
            },
        };
        let mut output = match load_outputs(registry, &setups[i].output) {
            Ok(output) => output,
            Err(err) => {
                assert(!asks_nothing(setups@[i as int]));
                assert(failed_in(err, *registry, setups@, i as int));
                return Err(err);
            },
        };
        proof {
            let ins = input_parts(setups@);
            let outs = output_parts(setups@);
            assert(ins.take(i + 1).drop_last() =~= ins.take(i as int));
            assert(outs.take(i + 1).drop_last() =~= outs.take(i as int));
            assert(ins.take(i + 1).last() == setups@[i as int].input);
            assert(outs.take(i + 1).last() == setups@[i as int].output);
        }
        inputs.append(&mut input);
        outputs.append(&mut output);
        i = i + 1;
    }
    assert(input_parts(setups@).take(setups@.len() as int) =~= input_parts(setups@));
    assert(output_parts(setups@).take(setups@.len() as int) =~= output_parts(setups@));
    Ok((inputs, outputs))
}

} // verus!
