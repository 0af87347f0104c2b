//! What a plugin is to the core: the samples it yields, the contracts its
//! instances meet, and the registry that finds a plugin by its type name.

use vstd::prelude::*;
use std::sync::Arc;
use crate::errors::Error;
use crate::metric::MetricId;
use crate::metric::order::Order;
use crate::metric::order::str_order;
use crate::scheduler::Interval;

verus! {

/// Whether a plugin reads measurements or writes them out.
#[derive(Copy, Clone, Debug, PartialEq, Eq, Structural)]
pub enum PluginKind {
    Read,
    Write,
}

/// The kind and the type name of a plugin, as a configuration names it.
#[derive(Debug)]
pub struct PluginKey {
    pub plugin_kind: PluginKind,
    pub plugin_type: String,
}

/// A single data sample: one reading of one series. The reading is a
/// 64-bit floating-point number, held as its bit pattern.
#[derive(Debug)]
pub struct Sample {
    pub metric_id: Arc<MetricId>,
    pub value: u64,
}

impl Sample {
    pub fn new(metric_id: Arc<MetricId>, value: u64) -> (s: Sample)
        ensures
            s.metric_id == metric_id,
            s.value == value,
    {
        Sample { metric_id, value }
    }
}

pub type Samples = Vec<Sample>;

/// Another handle on the same shared value: what `Arc::clone` returns, a
/// pointer to the allocation that `handle` points to.
#[verifier::external_body]
pub(crate) fn share<T>(handle: &Arc<T>) -> (other: Arc<T>)
    ensures
        other == *handle,
{
    handle.clone()
}

/// A live source of samples.
///
/// An instance is shared between the thread that polls and the workers
/// that update, so every method takes it by shared reference and what a
/// call returns is the instance's own affair.
pub trait InputInstance: Send + Sync {
    /// The current samples. This is the cheap path, taken on every poll
    /// tick: it reads state that `update` has computed and does not block.
    /// An instance that defines no `poll` has no samples.
    fn poll(&self) -> (r: Result<Samples, Error>)
        ensures
            self.idle() ==> (r matches Ok(samples) && samples@.len() == 0),
    {
        Ok(Vec::new())
    }

    /// Refreshes the state that `poll` reads. This is the expensive path;
    /// it may block, and is run on a worker. An instance that defines no
    /// `update` has nothing to refresh, and succeeds at once.
    fn update(&self) -> (r: Result<(), Error>)
        ensures
            self.idle() ==> r is Ok,
    {
        Ok(())
    }

    /// A hint of how long to wait before the next update. An instance that
    /// defines no `next_update` asks for none.
    fn next_update(&self) -> (r: Interval)
        ensures
            self.idle() ==> r == (Interval { secs: 0, nanos: 0 }),
    {
        Interval::zero()
    }

    /// Whether the instance is idle: it has no samples, nothing to
    /// refresh, and asks for no time between updates. The three methods as
    /// they are defined here are those of an idle instance. An instance
    /// is taken to be idle only where it says so, and then it keeps to
    /// it.
    open spec fn idle(&self) -> bool {
        false
    }
}

/// A live sink of samples.
pub trait OutputInstance: Send + Sync {
    fn feed(&self, sample: &Sample) -> (r: Result<(), Error>);
}

/// What a configuration says of one field of a plugin's section.
#[derive(Debug)]
pub enum FieldValue {
    /// A string.
    Text(String),
    /// Anything that is not a string.
    Other,
}

/// What a plugin is given when it is set up: its identifier, and the
/// fields of its section of the configuration.
#[derive(Debug)]
pub struct PluginContext<'a> {
    pub id: &'a String,
    pub fields: &'a Vec<(String, FieldValue)>,
}

/// The fields of a section, as the contracts see them.
pub open spec fn fields_view(fields: Seq<(String, FieldValue)>) -> Seq<(Seq<char>, Option<Seq<char>>)> {
    Seq::new(
        fields.len(),
        |i: int|
            (
                fields[i].0@,
                match fields[i].1 {
                    FieldValue::Text(text) => Some(text@),
                    FieldValue::Other => None,
                },
            ),
    )
}

/// The first field of that name, if there is one: its text, or `None`
/// inside where it is not a string.
pub open spec fn spec_field(fields: Seq<(Seq<char>, Option<Seq<char>>)>, name: Seq<char>) -> Option<
    Option<Seq<char>>,
>
    decreases fields.len(),
{
    if fields.len() == 0 {
        None
    } else if fields[0].0 == name {
        Some(fields[0].1)
    } else {
        spec_field(fields.drop_first(), name)
    }
}

/// The text of the first field of that name, if there is such a field and
/// it is a string.
pub open spec fn spec_text_field(fields: Seq<(Seq<char>, Option<Seq<char>>)>, name: Seq<char>) -> Option<
    Seq<char>,
> {
    match spec_field(fields, name) {
        Some(Some(text)) => Some(text),
        _ => None,
    }
}

/// Looks up the text of a field of a section.
pub fn text_field<'a>(fields: &'a Vec<(String, FieldValue)>, name: &str) -> (text: Option<&'a String>)
    ensures
        match text {
            Some(t) => spec_text_field(fields_view(fields@), name@) == Some(t@),
            None => spec_text_field(fields_view(fields@), name@) is None,
        },
{
    let mut i: usize = 0;
    assert(fields_view(fields@).skip(0) =~= fields_view(fields@));
    while i < fields.len()
        invariant
            i <= fields@.len(),
            spec_field(fields_view(fields@), name@) == spec_field(fields_view(fields@).skip(i as int), name@),
        decreases fields@.len() - i,
    {
        let ghost rest = fields_view(fields@).skip(i as int);
        assert(rest[0] == fields_view(fields@)[i as int]);
        match str_order(fields[i].0.as_str(), name) {
            Order::Equal => {
                return match &fields[i].1 {
                    FieldValue::Text(text) => Some(text),
                    FieldValue::Other => None,
                };
            },
            _ => {
                assert(rest.drop_first() =~= fields_view(fields@).skip(i + 1));
                i = i + 1;
            },
        }
    }
    None
}

impl<'a> PluginContext<'a> {
    /// The text of a field of the plugin's section.
    pub fn text_field(&self, name: &str) -> (text: Option<&'a String>)
        ensures
            match text {
                Some(t) => spec_text_field(fields_view(self.fields@), name@) == Some(t@),
                None => spec_text_field(fields_view(self.fields@), name@) is None,
            },
    {
        text_field(self.fields, name)
    }
}

/// A plugin that yields sources of samples.
pub trait Input {
    fn setup(&self, ctx: &PluginContext) -> (r: Result<Box<dyn InputInstance>, Error>);
}

/// A plugin that yields sinks of samples.
pub trait Output {
    fn setup(&self, ctx: &PluginContext) -> (r: Result<Box<dyn OutputInstance>, Error>);
}

/// A table from names to entries in which no name occurs twice.
pub struct Table<E> {
    entries: Vec<(String, E)>,
}

/// Whether no name occurs twice.
pub open spec fn distinct(names: Seq<Seq<char>>) -> bool {
    forall|i: int, j: int| 0 <= i < j < names.len() ==> #[trigger] names[i] != #[trigger] names[j]
}

/// The names with `name` among them: at the end, where it is new.
pub open spec fn with_name(names: Seq<Seq<char>>, name: Seq<char>) -> Seq<Seq<char>> {
    if names.contains(name) {
        names
    } else {
        names.push(name)
    }
}

impl<E> Table<E> {
    /// The names in the table, in the order in which they came.
    pub closed spec fn names(&self) -> Seq<Seq<char>> {
        Seq::new(self.entries@.len(), |i: int| self.entries@[i].0@)
    }

    /// The entry under the name at position `i`.
    pub closed spec fn entry(&self, i: int) -> E {
        self.entries@[i].1
    }

    #[verifier::type_invariant]
    spec fn unique(&self) -> bool {
        distinct(self.names())
    }

    /// An empty table.
    pub fn new() -> (t: Table<E>)
        ensures
            t.names() == Seq::<Seq<char>>::empty(),
    {
        let t = Table { entries: Vec::new() };
        assert(t.names() =~= Seq::<Seq<char>>::empty());
        t
    }

    /// The index of the entry under `name`.
    fn position(&self, name: &str) -> (at: Option<usize>)
        ensures
            match at {
                Some(i) => i < self.names().len() && self.names()[i as int] == name@,
                None => !self.names().contains(name@),
            },
    {
        let mut i: usize = 0;
        while i < self.entries.len()
            invariant
                i <= self.entries@.len(),
                self.names().len() == self.entries@.len(),
                forall|j: int| 0 <= j < i ==> #[trigger] self.names()[j] != name@,
            decreases self.entries@.len() - i,
        {
            match str_order(self.entries[i].0.as_str(), name) {
                Order::Equal => {
                    assert(self.names()[i as int] == name@);
                    return Some(i);
                },
                _ => {
                    assert(self.names()[i as int] != name@);
                    i = i + 1;
                },
            }
        }
        None
    }

    /// Puts `entry` under `name`, in the place of an entry that was there.
    pub fn insert(&mut self, name: String, entry: E)
        ensures
            final(self).names() == with_name(old(self).names(), name@),
            distinct(final(self).names()),
            forall|i: int|
                0 <= i < final(self).names().len() && final(self).names()[i] == name@
                    ==> #[trigger] final(self).entry(i) == entry,
            forall|i: int|
                0 <= i < final(self).names().len() && final(self).names()[i] != name@
                    ==> #[trigger] final(self).entry(i) == old(self).entry(i),
    {
        proof {
            use_type_invariant(&*self);
        }
        let ghost before = self.names();
        match self.position(name.as_str()) {
            Some(i) => {
                assert(before.contains(name@));
                let mut entries = Vec::new();
                core::mem::swap(&mut entries, &mut self.entries);
                entries.set(i, (name, entry));
                proof {
                    let after = Seq::new(entries@.len(), |j: int| entries@[j].0@);
                    assert(after =~= before);
                }
                self.entries = entries;
                assert(self.names() =~= before);
            },
            None => {
                let mut entries = Vec::new();
                core::mem::swap(&mut entries, &mut self.entries);
                entries.push((name, entry));
                proof {
                    let after = Seq::new(entries@.len(), |j: int| entries@[j].0@);
                    assert(after =~= before.push(name@));
                    assert forall|a: int, b: int| 0 <= a < b < after.len() implies #[trigger] after[a]
                        != #[trigger] after[b] by {
                        if b < before.len() {
                            assert(after[a] == before[a]);
                            assert(after[b] == before[b]);
                        } else {
                            assert(after[a] == before[a]);
                            assert(before.contains(before[a]));
                        }
                    }
                }
                self.entries = entries;
                assert(self.names() =~= before.push(name@));
            },
        }
    }

    /// The entry under `name`.
    pub fn get(&self, name: &str) -> (entry: Option<&E>)
        ensures
            match entry {
                Some(e) => exists|i: int|
                    0 <= i < self.names().len() && #[trigger] self.names()[i] == name@ && self.entry(i) == *e,
                None => !self.names().contains(name@),
            },
    {
        match self.position(name) {
            Some(i) => {
                assert(self.names()[i as int] == name@ && self.entry(i as int) == self.entries@[i as int].1);
                Some(&self.entries[i].1)
            },
            None => None,
        }
    }

    /// The names in the table, in the order in which they came.
    pub fn to_names(&self) -> (names: Vec<String>)
        ensures
            names@.len() == self.names().len(),
            forall|i: int| 0 <= i < names@.len() ==> (#[trigger] names@[i])@ == self.names()[i],
    {
        let mut names: Vec<String> = Vec::new();
        let mut i: usize = 0;
        while i < self.entries.len()
            invariant
                i <= self.entries@.len(),
                self.names().len() == self.entries@.len(),
                names@.len() == i,
                forall|j: int| 0 <= j < i ==> (#[trigger] names@[j])@ == self.names()[j],
            decreases self.entries@.len() - i,
        {
            names.push(self.entries[i].0.clone());
            i = i + 1;
        }
        names
    }
}

/// The plugins that a configuration can name: built once at start-up and
/// only read afterwards.
pub struct PluginRegistry {
    input: Table<Arc<Box<dyn Input>>>,
    output: Table<Arc<Box<dyn Output>>>,
}

impl PluginRegistry {
    /// The type names of the input plugins.
    pub closed spec fn inputs(&self) -> Seq<Seq<char>> {
        self.input.names()
    }

    /// The input plugin under the type name at position `i`.
    pub closed spec fn input(&self, i: int) -> Arc<Box<dyn Input>> {
        self.input.entry(i)
    }

    /// The type names of the output plugins.
    pub closed spec fn outputs(&self) -> Seq<Seq<char>> {
        self.output.names()
    }

    /// The output plugin under the type name at position `i`.
    pub closed spec fn output(&self, i: int) -> Arc<Box<dyn Output>> {
        self.output.entry(i)
    }

    /// A registry of the given plugins.
    pub fn new(input: Table<Arc<Box<dyn Input>>>, output: Table<Arc<Box<dyn Output>>>) -> (r: PluginRegistry)
        ensures
            r.inputs() == input.names(),
            r.outputs() == output.names(),
            forall|i: int| #[trigger] r.input(i) == input.entry(i),
            forall|i: int| #[trigger] r.output(i) == output.entry(i),
    {
        PluginRegistry { input, output }
    }

    /// The input plugin of that type.
    pub fn get_input(&self, plugin_type: &String) -> (entry: Option<&Arc<Box<dyn Input>>>)
        ensures
            match entry {
                Some(e) => exists|i: int|
                    0 <= i < self.inputs().len() && #[trigger] self.inputs()[i] == plugin_type@ && self.input(i)
                        == *e,
                None => !self.inputs().contains(plugin_type@),
            },
    {
        let entry = self.input.get(plugin_type.as_str());
        proof {
            if let Some(e) = entry {
                let i = choose|i: int|
                    0 <= i < self.input.names().len() && #[trigger] self.input.names()[i] == plugin_type@
                        && self.input.entry(i) == *e;
                assert(self.inputs()[i] == plugin_type@ && self.input(i) == *e);
            }
        }
        entry
    }

    /// The output plugin of that type.
    pub fn get_output(&self, plugin_type: &String) -> (entry: Option<&Arc<Box<dyn Output>>>)
        ensures
            match entry {
                Some(e) => exists|i: int|
                    0 <= i < self.outputs().len() && #[trigger] self.outputs()[i] == plugin_type@
                        && self.output(i) == *e,
                None => !self.outputs().contains(plugin_type@),
            },
    {
        let entry = self.output.get(plugin_type.as_str());
        proof {
            if let Some(e) = entry {
                let i = choose|i: int|
                    0 <= i < self.output.names().len() && #[trigger] self.output.names()[i] == plugin_type@
                        && self.output.entry(i) == *e;
                assert(self.outputs()[i] == plugin_type@ && self.output(i) == *e);
            }
        }
        entry
    }

    /// The type names of the input plugins.
    pub fn input_types(&self) -> (names: Vec<String>)
        ensures
            names@.len() == self.inputs().len(),
            forall|i: int| 0 <= i < names@.len() ==> (#[trigger] names@[i])@ == self.inputs()[i],
    {
        self.input.to_names()
    }

    /// The type names of the output plugins.
    pub fn output_types(&self) -> (names: Vec<String>)
        ensures
            names@.len() == self.outputs().len(),
            forall|i: int| 0 <= i < names@.len() ==> (#[trigger] names@[i])@ == self.outputs()[i],
    {
        self.output.to_names()
    }
}

} // verus!
