//! Parsers for the text formats the daemon reads: plugin keys and the
//! processor line of the kernel's statistics.
//!
//! Every parser reads a prefix of its input and says where it stopped. A
//! parser that needs more input than there is reports `Incomplete`; one
//! that meets a byte it cannot accept reports `Invalid`.

pub mod mounts;

use vstd::prelude::*;
use crate::plugin::PluginKey;
use crate::plugin::PluginKind;

verus! {

/// Why a parser produced no value.
#[derive(Copy, Clone, Debug, PartialEq, Eq, Structural)]
pub enum ParseError {
    /// The input ended before the parser was done.
    Incomplete,
    /// The input holds something the parser does not accept.
    Invalid,
}

/// What a parser returns: a value and the position at which the rest of
/// the input begins, or the reason why there is no value.
#[derive(Debug)]
pub enum Parse<T> {
    Done(usize, T),
    Incomplete,
    Invalid,
}

/// What a parser is to return, as the contracts state it.
pub enum Outcome<T> {
    Done(int, T),
    Incomplete,
    Invalid,
}

impl<T> Parse<T> {
    /// The result with its position as a mathematical integer.
    pub open spec fn outcome(self) -> Outcome<T> {
        match self {
            Parse::Done(end, value) => Outcome::Done(end as int, value),
            Parse::Incomplete => Outcome::Incomplete,
            Parse::Invalid => Outcome::Invalid,
        }
    }

    /// The value, whatever input is left behind it, or the reason why
    /// there is none.
    pub fn to_full_result(self) -> (r: Result<T, ParseError>)
        ensures
            r == match self {
                Parse::Done(_, value) => Ok::<T, ParseError>(value),
                Parse::Incomplete => Err::<T, ParseError>(ParseError::Incomplete),
                Parse::Invalid => Err::<T, ParseError>(ParseError::Invalid),
            },
    {
        match self {
            Parse::Done(_, value) => Ok(value),
            Parse::Incomplete => Err(ParseError::Incomplete),
            Parse::Invalid => Err(ParseError::Invalid),
        }
    }
}

/// A class of bytes that a run is made of.
#[derive(Copy, Clone, Debug, PartialEq, Eq, Structural)]
pub enum Class {
    /// `0` to `9`.
    Digit,
    /// `0` to `9`, `a` to `z`, `A` to `Z`.
    Alphanumeric,
    /// Space and tab.
    Space,
}

impl Class {
    /// Whether the byte belongs to the class.
    pub open spec fn spec_holds(self, b: u8) -> bool {
        match self {
            Class::Digit => 48 <= b <= 57,
            Class::Alphanumeric => 48 <= b <= 57 || 65 <= b <= 90 || 97 <= b <= 122,
            Class::Space => b == 32 || b == 9,
        }
    }

    /// Whether the byte belongs to the class.
    pub fn holds(self, b: u8) -> (yes: bool)
        ensures
            yes == self.spec_holds(b),
    {
        match self {
            Class::Digit => 48 <= b && b <= 57,
            Class::Alphanumeric => (48 <= b && b <= 57) || (65 <= b && b <= 90) || (97 <= b && b <= 122),
            Class::Space => b == 32 || b == 9,
        }
    }
}

/// The length of the longest prefix of `s` made of bytes of the class.
pub open spec fn run_len(s: Seq<u8>, class: Class) -> nat
    decreases s.len(),
{
    if s.len() == 0 || !class.spec_holds(s[0]) {
        0
    } else {
        1 + run_len(s.drop_first(), class)
    }
}

/// A run of at least one byte of the class, from position `from`: where
/// it ends.
pub open spec fn spec_run_at(s: Seq<u8>, from: int, class: Class) -> Outcome<()> {
    if from >= s.len() {
        Outcome::Incomplete
    } else if run_len(s.skip(from), class) == 0 {
        Outcome::Invalid
    } else {
        Outcome::Done(from + run_len(s.skip(from), class), ())
    }
}

/// A prefix of `n` bytes of the class that stops at the end or before a
/// byte outside the class is the longest one.
proof fn lemma_run_len(s: Seq<u8>, class: Class, n: int)
    requires
        0 <= n <= s.len(),
        forall|k: int| 0 <= k < n ==> class.spec_holds(#[trigger] s[k]),
        n == s.len() || !class.spec_holds(s[n]),
    ensures
        run_len(s, class) == n,
    decreases n,
{
    if n > 0 {
        let t = s.drop_first();
        assert(class.spec_holds(s[0]));
        assert forall|k: int| 0 <= k < n - 1 implies class.spec_holds(#[trigger] t[k]) by {
            assert(t[k] == s[k + 1]);
        }
        lemma_run_len(t, class, n - 1);
    }
}

/// Where the run of bytes of the class that begins at `from` ends.
fn run_end(input: &[u8], from: usize, class: Class) -> (end: usize)
    requires
        from <= input@.len(),
    ensures
        from <= end <= input@.len(),
        end == from + run_len(input@.skip(from as int), class),
        forall|k: int| from <= k < end ==> class.spec_holds(#[trigger] input@[k]),
{
    let mut end = from;
    while end < input.len() && class.holds(input[end])
        invariant
            from <= end <= input@.len(),
            forall|k: int| from <= k < end ==> class.spec_holds(#[trigger] input@[k]),
        decreases input@.len() - end,
    {
        end = end + 1;
    }
    proof {
        let rest = input@.skip(from as int);
        assert forall|k: int| 0 <= k < end - from implies class.spec_holds(#[trigger] rest[k]) by {
            assert(rest[k] == input@[from + k]);
        }
        lemma_run_len(rest, class, end - from);
    }
    end
}

/// A run of at least one byte of the class, from position `from`.
fn run_at(input: &[u8], from: usize, class: Class) -> (r: Parse<()>)
    requires
        from <= input@.len(),
    ensures
        r.outcome() == spec_run_at(input@, from as int, class),
        r matches Parse::Done(end, _) ==> from < end <= input@.len() && forall|k: int|
            from <= k < end ==> class.spec_holds(#[trigger] input@[k]),
{
    if from >= input.len() {
        return Parse::Incomplete;
    }
    let end = run_end(input, from, class);
    if end == from {
        Parse::Invalid
    } else {
        Parse::Done(end, ())
    }
}

/// The fixed bytes `tag`, from position `from`: the bytes there must not
/// differ from the tag, and must not end before the tag does.
pub open spec fn spec_tag_at(s: Seq<u8>, from: int, tag: Seq<u8>) -> Outcome<()> {
    if exists|k: int| 0 <= k < tag.len() && from + k < s.len() && s[from + k] != tag[k] {
        Outcome::Invalid
    } else if s.len() - from < tag.len() {
        Outcome::Incomplete
    } else {
        Outcome::Done(from + tag.len(), ())
    }
}

/// The fixed bytes `tag`, from position `from`.
fn tag_at(input: &[u8], from: usize, tag: &[u8]) -> (r: Parse<()>)
    requires
        from <= input@.len(),
    ensures
        r.outcome() == spec_tag_at(input@, from as int, tag@),
        r matches Parse::Done(end, _) ==> end == from + tag@.len() && end <= input@.len(),
{
    let len = input.len();
    let mut k: usize = 0;
    while k < tag.len() && k < len - from
        invariant
            len == input@.len(),
            from <= input@.len(),
            k <= tag@.len(),
            k <= input@.len() - from,
            forall|j: int| 0 <= j < k ==> input@[from + j] == tag@[j],
        decreases tag@.len() - k,
    {
        if input[from + k] != tag[k] {
            return Parse::Invalid;
        }
        k = k + 1;
    }
    if k < tag.len() {
        Parse::Incomplete
    } else {
        Parse::Done(from + k, ())
    }
}

/// The number that the decimal digits spell.
pub open spec fn digits_value(digits: Seq<u8>) -> nat
    decreases digits.len(),
{
    if digits.len() == 0 {
        0
    } else {
        digits_value(digits.drop_last()) * 10 + (digits.last() - 48) as nat
    }
}

/// A decimal number that fits in 64 bits, from position `from`: the
/// longest run of digits there.
pub open spec fn spec_u64_at(s: Seq<u8>, from: int) -> Outcome<u64> {
    match spec_run_at(s, from, Class::Digit) {
        Outcome::Done(end, _) => if digits_value(s.subrange(from, end)) <= u64::MAX {
            Outcome::Done(end, digits_value(s.subrange(from, end)) as u64)
        } else {
            Outcome::Invalid
        },
        Outcome::Incomplete => Outcome::Incomplete,
        Outcome::Invalid => Outcome::Invalid,
    }
}

/// More digits never spell a smaller number.
proof fn lemma_digits_value_grows(s: Seq<u8>, a: int, b: int, c: int)
    requires
        0 <= a <= b <= c <= s.len(),
        forall|k: int| a <= k < c ==> 48 <= #[trigger] s[k] <= 57,
    ensures
        digits_value(s.subrange(a, b)) <= digits_value(s.subrange(a, c)),
    decreases c - b,
{
    if b < c {
        lemma_digits_value_grows(s, a, b, c - 1);
        assert(s.subrange(a, c).drop_last() =~= s.subrange(a, c - 1));
    }
}

/// A decimal number that fits in 64 bits, from position `from`.
fn u64_at(input: &[u8], from: usize) -> (r: Parse<u64>)
    requires
        from <= input@.len(),
    ensures
        r.outcome() == spec_u64_at(input@, from as int),
        r matches Parse::Done(end, _) ==> from < end <= input@.len(),
{
    let end = match run_at(input, from, Class::Digit) {
        Parse::Done(end, _) => end,
        Parse::Incomplete => {
            return Parse::Incomplete;
        },
        Parse::Invalid => {
            return Parse::Invalid;
        },
    };
    let mut value: u64 = 0;
    let mut i: usize = from;
    assert(input@.subrange(from as int, from as int) =~= Seq::<u8>::empty());
    while i < end
        invariant
            from <= i <= end <= input@.len(),
            forall|k: int| from <= k < end ==> Class::Digit.spec_holds(#[trigger] input@[k]),
            spec_run_at(input@, from as int, Class::Digit) == Outcome::Done(end as int, ()),
            value == digits_value(input@.subrange(from as int, i as int)),
        decreases end - i,
    {
        let digit = (input[i] - 48) as u64;
        proof {
            assert(Class::Digit.spec_holds(input@[i as int]));
            assert(input@.subrange(from as int, i + 1).drop_last() =~= input@.subrange(
                from as int,
                i as int,
            ));
            assert forall|k: int| from <= k < end implies 48 <= #[trigger] input@[k] <= 57 by {
                assert(Class::Digit.spec_holds(input@[k]));
            }
            lemma_digits_value_grows(input@, from as int, i + 1, end as int);
            assert(digits_value(input@.subrange(from as int, i + 1)) == value * 10 + digit);
        }
        let next = match value.checked_mul(10) {
            Some(tens) => tens.checked_add(digit),
            None => None,
        };
        match next {
            Some(n) => {
                value = n;
            },
            None => {
                return Parse::Invalid;
            },
        }
        i = i + 1;
    }
    Parse::Done(end, value)
}

/// Parses a decimal number that fits in 64 bits: the longest run of digits
/// at the start of the input.
pub fn type_u64(input: &[u8]) -> (r: Parse<u64>)
    ensures
        r.outcome() == spec_u64_at(input@, 0),
{
    u64_at(input, 0)
}

/// The characters that the bytes `s[from..end]` stand for, each byte one
/// character.
pub open spec fn ascii_text(s: Seq<u8>, from: int, end: int) -> Seq<char> {
    Seq::new((end - from) as nat, |k: int| s[from + k] as char)
}

/// A word of letters and digits, from position `from`: the longest run
/// there.
pub open spec fn spec_alphanumeric_at(s: Seq<u8>, from: int) -> Outcome<Seq<char>> {
    match spec_run_at(s, from, Class::Alphanumeric) {
        Outcome::Done(end, _) => Outcome::Done(end, ascii_text(s, from, end)),
        Outcome::Incomplete => Outcome::Incomplete,
        Outcome::Invalid => Outcome::Invalid,
    }
}

/// Appends one character to the string; what `String::push` does.
#[verifier::external_body]
pub(crate) fn push_char(text: &mut String, c: char)
    ensures
        final(text)@ == old(text)@.push(c),
{
    text.push(c)
}

/// A word of letters and digits, from position `from`.
fn alphanumeric_at(input: &[u8], from: usize) -> (r: Parse<String>)
    requires
        from <= input@.len(),
    ensures
        match r {
            Parse::Done(end, word) => spec_alphanumeric_at(input@, from as int) == Outcome::Done(
                end as int,
                word@,
            ) && from < end <= input@.len(),
            Parse::Incomplete => spec_alphanumeric_at(input@, from as int) == Outcome::<Seq<char>>::Incomplete,
            Parse::Invalid => spec_alphanumeric_at(input@, from as int) == Outcome::<Seq<char>>::Invalid,
        },
{
    let end = match run_at(input, from, Class::Alphanumeric) {
        Parse::Done(end, _) => end,
        Parse::Incomplete => {
            return Parse::Incomplete;
        },
        Parse::Invalid => {
            return Parse::Invalid;
        },
    };
    let mut word = String::new();
    let mut i: usize = from;
    while i < end
        invariant
            from <= i <= end <= input@.len(),
            word@ == ascii_text(input@, from as int, i as int),
        decreases end - i,
    {
        push_char(&mut word, input[i] as char);
        assert(word@ =~= ascii_text(input@, from as int, i + 1));
        i = i + 1;
    }
    Parse::Done(end, word)
}

/// Parses a word of letters and digits: the longest run of them at the
/// start of the input.
pub fn type_alphanumeric(input: &[u8]) -> (r: Parse<String>)
    ensures
        match r {
            Parse::Done(end, word) => spec_alphanumeric_at(input@, 0) == Outcome::Done(end as int, word@),
            Parse::Incomplete => spec_alphanumeric_at(input@, 0) == Outcome::<Seq<char>>::Incomplete,
            Parse::Invalid => spec_alphanumeric_at(input@, 0) == Outcome::<Seq<char>>::Invalid,
        },
{
    alphanumeric_at(input, 0)
}

/// The bytes of `read`.
pub open spec fn read_tag() -> Seq<u8> {
    seq![114u8, 101u8, 97u8, 100u8]
}

/// The bytes of `write`.
pub open spec fn write_tag() -> Seq<u8> {
    seq![119u8, 114u8, 105u8, 116u8, 101u8]
}

/// The kind of a plugin: `read`, or else `write`. Input that breaks off
/// inside `read` is incomplete, whatever `write` would make of it.
pub open spec fn spec_plugin_kind(s: Seq<u8>) -> Outcome<PluginKind> {
    match spec_tag_at(s, 0, read_tag()) {
        Outcome::Done(end, _) => Outcome::Done(end, PluginKind::Read),
        Outcome::Incomplete => Outcome::Incomplete,
        Outcome::Invalid => match spec_tag_at(s, 0, write_tag()) {
            Outcome::Done(end, _) => Outcome::Done(end, PluginKind::Write),
            Outcome::Incomplete => Outcome::Incomplete,
            Outcome::Invalid => Outcome::Invalid,
        },
    }
}

/// Parses the kind of a plugin.
pub fn parse_plugin_kind(input: &[u8]) -> (r: Parse<PluginKind>)
    ensures
        r.outcome() == spec_plugin_kind(input@),
        r matches Parse::Done(end, _) ==> end <= input@.len(),
{
    let read: [u8; 4] = [114, 101, 97, 100];
    let write: [u8; 5] = [119, 114, 105, 116, 101];
    assert(read@ =~= read_tag());
    assert(write@ =~= write_tag());
    match tag_at(input, 0, read.as_slice()) {
        Parse::Done(end, _) => Parse::Done(end, PluginKind::Read),
        Parse::Incomplete => Parse::Incomplete,
        Parse::Invalid => match tag_at(input, 0, write.as_slice()) {
            Parse::Done(end, _) => Parse::Done(end, PluginKind::Write),
            Parse::Incomplete => Parse::Incomplete,
            Parse::Invalid => Parse::Invalid,
        },
    }
}

/// A plugin key: the kind, a slash, and the type as a word of letters and
/// digits.
pub open spec fn spec_plugin_key(s: Seq<u8>) -> Outcome<(PluginKind, Seq<char>)> {
    match spec_plugin_kind(s) {
        Outcome::Done(kind_end, kind) => match spec_tag_at(s, kind_end, seq![47u8]) {
            Outcome::Done(slash_end, _) => match spec_alphanumeric_at(s, slash_end) {
                Outcome::Done(end, word) => Outcome::Done(end, (kind, word)),
                Outcome::Incomplete => Outcome::Incomplete,
                Outcome::Invalid => Outcome::Invalid,
            },
            Outcome::Incomplete => Outcome::Incomplete,
            Outcome::Invalid => Outcome::Invalid,
        },
        Outcome::Incomplete => Outcome::Incomplete,
        Outcome::Invalid => Outcome::Invalid,
    }
}

/// Parses a plugin key such as `read/cpu`.
pub fn parse_plugin_key(input: &[u8]) -> (r: Parse<PluginKey>)
    ensures
        match r {
            Parse::Done(end, key) => spec_plugin_key(input@) == Outcome::Done(
                end as int,
                (key.plugin_kind, key.plugin_type@),
            ),
            Parse::Incomplete => spec_plugin_key(input@) == Outcome::<(PluginKind, Seq<char>)>::Incomplete,
            Parse::Invalid => spec_plugin_key(input@) == Outcome::<(PluginKind, Seq<char>)>::Invalid,
        },
{
    let slash: [u8; 1] = [47];
    assert(slash@ =~= seq![47u8]);
    let (kind_end, plugin_kind) = match parse_plugin_kind(input) {
        Parse::Done(end, kind) => (end, kind),
        Parse::Incomplete => {
            return Parse::Incomplete;
        },
        Parse::Invalid => {
            return Parse::Invalid;
        },
    };
    let slash_end = match tag_at(input, kind_end, slash.as_slice()) {
        Parse::Done(end, _) => end,
        Parse::Incomplete => {
            return Parse::Incomplete;
        },
        Parse::Invalid => {
            return Parse::Invalid;
        },
    };
    match alphanumeric_at(input, slash_end) {
        Parse::Done(end, plugin_type) => Parse::Done(end, PluginKey { plugin_kind, plugin_type }),
        Parse::Incomplete => Parse::Incomplete,
        Parse::Invalid => Parse::Invalid,
    }
}

/// The processor times of one line of the kernel's statistics, in clock
/// ticks.
#[derive(Debug, Default, PartialEq)]
pub struct StatCpu {
    /// normal processes executing in user mode
    pub user: u64,
    /// niced processes executing in user mode
    pub nice: u64,
    /// processes executing in kernel space
    pub system: u64,
    /// twiddling thumbs
    pub idle: u64,
    /// waiting for I/O to complete
    pub iowait: u64,
    /// servicing interrupts
    pub irq: u64,
    /// servicing softirqs
    pub softirq: u64,
    /// involuntary wait
    pub steal: u64,
    /// running a normal guest
    pub guest: u64,
    /// running a niced guest
    pub guest_nice: u64,
}

impl StatCpu {
    /// The time spent on anything but idling.
    pub open spec fn spec_used(&self) -> int {
        self.user + self.nice + self.system + self.iowait + self.irq + self.softirq + self.steal
            + self.guest + self.guest_nice
    }

    /// All the time there was.
    pub open spec fn spec_total(&self) -> int {
        self.spec_used() + self.idle
    }

    /// All the time there was. The sum has to fit in 64 bits.
    pub fn total(&self) -> (ticks: u64)
        requires
            self.spec_total() <= u64::MAX,
        ensures
            ticks == self.spec_total(),
    {
        return self.user + self.nice + self.system + self.idle + self.iowait + self.irq
            + self.softirq + self.steal + self.guest + self.guest_nice;
    }

    /// The time spent on anything but idling. The sum has to fit in 64
    /// bits.
    pub fn used(&self) -> (ticks: u64)
        requires
            self.spec_used() <= u64::MAX,
        ensures
            ticks == self.spec_used(),
    {
        return self.user + self.nice + self.system + self.iowait + self.irq + self.softirq
            + self.steal + self.guest + self.guest_nice;
    }

    /// The time spent idling.
    pub fn free(&self) -> (ticks: u64)
        ensures
            ticks == self.idle,
    {
        return self.idle;
    }

    /// The times that ten numbers stand for, in the order in which the
    /// kernel writes them.
    pub open spec fn from_fields(fields: Seq<u64>) -> StatCpu {
        StatCpu {
            user: fields[0],
            nice: fields[1],
            system: fields[2],
            idle: fields[3],
            iowait: fields[4],
            irq: fields[5],
            softirq: fields[6],
            steal: fields[7],
            guest: fields[8],
            guest_nice: fields[9],
        }
    }
}

/// The bytes of `cpu`.
pub open spec fn cpu_tag() -> Seq<u8> {
    seq![99u8, 112u8, 117u8]
}

/// `count` numbers from position `from`, each behind a run of spaces and
/// tabs.
pub open spec fn spec_fields_at(s: Seq<u8>, from: int, count: nat) -> Outcome<Seq<u64>>
    decreases count,
{
    if count == 0 {
        Outcome::Done(from, Seq::empty())
    } else {
        match spec_fields_at(s, from, (count - 1) as nat) {
            Outcome::Done(gap, fields) => match spec_run_at(s, gap, Class::Space) {
                Outcome::Done(start, _) => match spec_u64_at(s, start) {
                    Outcome::Done(end, value) => Outcome::Done(end, fields.push(value)),
                    Outcome::Incomplete => Outcome::Incomplete,
                    Outcome::Invalid => Outcome::Invalid,
                },
                Outcome::Incomplete => Outcome::Incomplete,
                Outcome::Invalid => Outcome::Invalid,
            },
            Outcome::Incomplete => Outcome::Incomplete,
            Outcome::Invalid => Outcome::Invalid,
        }
    }
}

/// The end of a line from position `from`: a line feed, or else a
/// carriage return and a line feed.
pub open spec fn spec_line_ending_at(s: Seq<u8>, from: int) -> Outcome<()> {
    match spec_tag_at(s, from, seq![10u8]) {
        Outcome::Done(end, _) => Outcome::Done(end, ()),
        Outcome::Incomplete => Outcome::Incomplete,
        Outcome::Invalid => spec_tag_at(s, from, seq![13u8, 10u8]),
    }
}

/// The processor line: `cpu`, ten numbers each behind spaces or tabs, and
/// the end of the line.
pub open spec fn spec_stat_cpu(s: Seq<u8>) -> Outcome<StatCpu> {
    match spec_tag_at(s, 0, cpu_tag()) {
        Outcome::Done(tag_end, _) => match spec_fields_at(s, tag_end, 10) {
            Outcome::Done(fields_end, fields) => match spec_line_ending_at(s, fields_end) {
                Outcome::Done(end, _) => Outcome::Done(end, StatCpu::from_fields(fields)),
                Outcome::Incomplete => Outcome::Incomplete,
                Outcome::Invalid => Outcome::Invalid,
            },
            Outcome::Incomplete => Outcome::Incomplete,
            Outcome::Invalid => Outcome::Invalid,
        },
        Outcome::Incomplete => Outcome::Incomplete,
        Outcome::Invalid => Outcome::Invalid,
    }
}

/// Once a number is missing, asking for more numbers fails the same way.
proof fn lemma_fields_failure_stays(s: Seq<u8>, from: int, failed: nat, count: nat)
    requires
        failed <= count,
        !(spec_fields_at(s, from, failed) is Done),
    ensures
        spec_fields_at(s, from, count) == spec_fields_at(s, from, failed),
    decreases count,
{
    if failed < count {
        lemma_fields_failure_stays(s, from, failed, (count - 1) as nat);
    }
}

/// The end of a line from position `from`.
fn line_ending_at(input: &[u8], from: usize) -> (r: Parse<()>)
    requires
        from <= input@.len(),
    ensures
        r.outcome() == spec_line_ending_at(input@, from as int),
{
    let feed: [u8; 1] = [10];
    let return_feed: [u8; 2] = [13, 10];
    assert(feed@ =~= seq![10u8]);
    assert(return_feed@ =~= seq![13u8, 10u8]);
    match tag_at(input, from, feed.as_slice()) {
        Parse::Done(end, _) => Parse::Done(end, ()),
        Parse::Incomplete => Parse::Incomplete,
        Parse::Invalid => tag_at(input, from, return_feed.as_slice()),
    }
}

/// Parses the processor line of the kernel's statistics.
pub fn parse_stat_cpu(input: &[u8]) -> (r: Parse<StatCpu>)
    ensures
        r.outcome() == spec_stat_cpu(input@),
{
    let cpu: [u8; 3] = [99, 112, 117];
    assert(cpu@ =~= cpu_tag());
    let tag_end = match tag_at(input, 0, cpu.as_slice()) {
        Parse::Done(end, _) => end,
        Parse::Incomplete => {
            return Parse::Incomplete;
        },
        Parse::Invalid => {
            return Parse::Invalid;
        },
    };
    let mut fields: Vec<u64> = Vec::new();
    let mut at: usize = tag_end;
    while fields.len() < 10
        invariant
            fields@.len() <= 10,
            at <= input@.len(),
            spec_tag_at(input@, 0, cpu_tag()) == Outcome::Done(tag_end as int, ()),
            spec_fields_at(input@, tag_end as int, fields@.len()) == Outcome::Done(at as int, fields@),
        decreases 10 - fields@.len(),
    {
        let ghost next = (fields@.len() + 1) as nat;
        let start = match run_at(input, at, Class::Space) {
            Parse::Done(end, _) => end,
            Parse::Incomplete => {
                proof {
                    lemma_fields_failure_stays(input@, tag_end as int, next, 10);
                }
                return Parse::Incomplete;
            },
            Parse::Invalid => {
                proof {
                    lemma_fields_failure_stays(input@, tag_end as int, next, 10);
                }
                return Parse::Invalid;
            },
        };
        match u64_at(input, start) {
            Parse::Done(end, value) => {
                fields.push(value);
                at = end;
            },
            Parse::Incomplete => {
                proof {
                    lemma_fields_failure_stays(input@, tag_end as int, next, 10);
                }
                return Parse::Incomplete;
            },
            Parse::Invalid => {
                proof {
                    lemma_fields_failure_stays(input@, tag_end as int, next, 10);
                }
                return Parse::Invalid;
            },
        }
    }
    match line_ending_at(input, at) {
        Parse::Done(end, _) => {
            let stat = StatCpu {
                user: fields[0],
                nice: fields[1],
                system: fields[2],
                idle: fields[3],
                iowait: fields[4],
                irq: fields[5],
                softirq: fields[6],
                steal: fields[7],
                guest: fields[8],
                guest_nice: fields[9],
            };
            Parse::Done(end, stat)
        },
        Parse::Incomplete => Parse::Incomplete,
        Parse::Invalid => Parse::Invalid,
    }
}

} // verus!
