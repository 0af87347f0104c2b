//! One poll cycle: gather the samples of every input and hand each to
//! every output.
//!
//! What a cycle does is a sequence of calls, and what each call returns
//! decides which call comes next. The module states that as a machine that
//! reads the calls of a cycle one by one. The poller keeps the machine's
//! cursor, makes the call that the cursor names, and moves the cursor by
//! what the call returned.

use vstd::prelude::*;
use std::sync::Arc;
use crate::errors::Error;
use crate::plugin::InputInstance;
use crate::plugin::OutputInstance;
use crate::plugin::Sample;
use crate::plugin::Samples;
use crate::scheduler::Runnable;

verus! {

/// A call that a cycle made, and what came back.
pub enum Call {
    /// The input at this position was polled; it returned so many samples,
    /// or an error.
    Polled(int, Result<nat, Error>),
    /// The sample at the second position, of the input at the first, was
    /// fed to the output at the third; the output returned this.
    Fed(int, int, int, Result<(), Error>),
}

/// What a poll returned, as the record of the calls keeps it: the number
/// of samples, or the error.
pub open spec fn reply_of(polled: Result<Samples, Error>) -> Result<nat, Error> {
    match polled {
        Ok(samples) => Ok(samples@.len()),
        Err(err) => Err(err),
    }
}

/// Where a cycle stands.
pub enum Cursor {
    /// The input at this position is polled next.
    Polling(int),
    /// A sample is fed next.
    Feeding {
        input: int,
        /// How many samples the input returned.
        count: nat,
        sample: int,
        output: int,
    },
    /// The cycle is over, with this result.
    Done(Result<(), Error>),
    /// The calls are not those of a cycle.
    Lost,
}

/// Where a cycle stands before the input at position `input`.
pub open spec fn at_input(inputs: nat, input: int) -> Cursor {
    if input < inputs {
        Cursor::Polling(input)
    } else {
        Cursor::Done(Ok(()))
    }
}

/// Where a cycle stands before the sample at position `sample` of an
/// input that returned `count` samples.
pub open spec fn at_sample(inputs: nat, input: int, count: nat, sample: int) -> Cursor {
    if sample < count {
        Cursor::Feeding { input, count, sample, output: 0 }
    } else {
        at_input(inputs, input + 1)
    }
}

/// Where a cycle stands before a sample is fed to the output at position
/// `output`.
pub open spec fn at_output(inputs: nat, outputs: nat, input: int, count: nat, sample: int, output: int) -> Cursor {
    if output < outputs {
        Cursor::Feeding { input, count, sample, output }
    } else {
        at_sample(inputs, input, count, sample + 1)
    }
}

/// Where a cycle starts: with nothing to do where there is no input or no
/// output, and else at the first input.
pub open spec fn start(inputs: nat, outputs: nat) -> Cursor {
    if outputs == 0 {
        Cursor::Done(Ok(()))
    } else {
        at_input(inputs, 0)
    }
}

/// Where a cycle stands after one more call.
///
/// The inputs are polled in the order of the list. The samples that a poll
/// returned are fed before the next input is polled: one sample after the
/// other, each to every output in the order of the list. The first call
/// that returns an error ends the cycle, and that error is the cycle's
/// result. A cycle that is over makes no call.
pub open spec fn step(inputs: nat, outputs: nat, cursor: Cursor, call: Call) -> Cursor {
    match (cursor, call) {
        (Cursor::Polling(next), Call::Polled(input, reply)) => if input != next {
            Cursor::Lost
        } else {
            match reply {
                Err(err) => Cursor::Done(Err(err)),
                Ok(count) => at_sample(inputs, input, count, 0),
            }
        },
        (Cursor::Feeding { input, count, sample, output }, Call::Fed(i, k, j, reply)) => if i != input || k
            != sample || j != output {
            Cursor::Lost
        } else {
            match reply {
                Err(err) => Cursor::Done(Err(err)),
                Ok(_) => at_output(inputs, outputs, input, count, sample, output + 1),
            }
        },
        _ => Cursor::Lost,
    }
}

/// Where a cycle stands after the calls.
pub open spec fn after(inputs: nat, outputs: nat, calls: Seq<Call>) -> Cursor
    decreases calls.len(),
{
    if calls.len() == 0 {
        start(inputs, outputs)
    } else {
        step(inputs, outputs, after(inputs, outputs, calls.drop_last()), calls.last())
    }
}

/// What a call returned, without the number of samples: success or the
/// error.
pub open spec fn outcome_of(call: Call) -> Result<(), Error> {
    match call {
        Call::Polled(_, Ok(_)) => Ok(()),
        Call::Polled(_, Err(err)) => Err(err),
        Call::Fed(_, _, _, reply) => reply,
    }
}

/// What a call returned, as one value for either kind of call: what a
/// poll returned, and for a feed zero samples or the error.
pub open spec fn returned(call: Call) -> Result<nat, Error> {
    match call {
        Call::Polled(_, reply) => reply,
        Call::Fed(_, _, _, Ok(_)) => Ok(0),
        Call::Fed(_, _, _, Err(err)) => Err(err),
    }
}

/// Where in a cycle a call stands: the input, then the sample, then the
/// output. A poll stands before the first sample of its input.
pub open spec fn position(call: Call) -> (int, int, int) {
    match call {
        Call::Polled(input, _) => (input, -1, -1),
        Call::Fed(input, sample, output, _) => (input, sample, output),
    }
}

/// Whether the position `p` comes before the position `q`.
pub open spec fn comes_before(p: (int, int, int), q: (int, int, int)) -> bool {
    p.0 < q.0 || (p.0 == q.0 && (p.1 < q.1 || (p.1 == q.1 && p.2 < q.2)))
}

/// The position of the call that a cycle makes next.
pub open spec fn next_position(cursor: Cursor) -> (int, int, int) {
    match cursor {
        Cursor::Polling(input) => (input, -1, -1),
        Cursor::Feeding { input, count, sample, output } => (input, sample, output),
        _ => (0, 0, 0),
    }
}

/// Whether the cycle goes on: it is neither over nor lost.
pub open spec fn goes_on(cursor: Cursor) -> bool {
    cursor is Polling || cursor is Feeding
}

/// A cycle that is over makes no call: of the calls of a cycle, every
/// proper prefix leaves the cycle going on.
pub proof fn lemma_only_the_last_call_ends(inputs: nat, outputs: nat, calls: Seq<Call>, n: int)
    requires
        !(after(inputs, outputs, calls) is Lost),
        0 <= n <= calls.len(),
    ensures
        !(after(inputs, outputs, calls.take(n)) is Lost),
        n < calls.len() ==> goes_on(after(inputs, outputs, calls.take(n))),
    decreases calls.len(),
{
    if n == calls.len() {
        assert(calls.take(n) =~= calls);
    } else {
        let front = calls.drop_last();
        assert(goes_on(after(inputs, outputs, front)));
        if n == calls.len() - 1 {
            assert(calls.take(n) =~= front);
        } else {
            lemma_only_the_last_call_ends(inputs, outputs, front, n);
            assert(front.take(n) =~= calls.take(n));
        }
    }
}

/// The first call that fails ends the cycle: in the calls of a cycle, a
/// call that returned an error is the last one, and its error is the
/// cycle's result. No input is polled and no sample is fed after it.
pub proof fn lemma_a_failure_ends_the_cycle(inputs: nat, outputs: nat, calls: Seq<Call>, n: int, err: Error)
    requires
        !(after(inputs, outputs, calls) is Lost),
        0 <= n < calls.len(),
        outcome_of(calls[n]) == Err::<(), Error>(err),
    ensures
        n == calls.len() - 1,
        after(inputs, outputs, calls) == Cursor::Done(Err(err)),
{
    lemma_only_the_last_call_ends(inputs, outputs, calls, n);
    lemma_only_the_last_call_ends(inputs, outputs, calls, n + 1);
    let upto = calls.take(n + 1);
    assert(upto.drop_last() =~= calls.take(n));
    assert(upto.last() == calls[n]);
    if n + 1 == calls.len() {
        assert(upto =~= calls);
    }
}

/// The calls of a cycle that ended in success all returned success.
pub proof fn lemma_success_means_no_failure(inputs: nat, outputs: nat, calls: Seq<Call>, n: int)
    requires
        after(inputs, outputs, calls) == Cursor::Done(Ok(())),
        0 <= n < calls.len(),
    ensures
        outcome_of(calls[n]) is Ok,
{
    if outcome_of(calls[n]) is Err {
        lemma_a_failure_ends_the_cycle(inputs, outputs, calls, n, outcome_of(calls[n])->Err_0);
    }
}

/// Every call of a cycle stands before the call that the cycle makes
/// next.
proof fn lemma_calls_stand_before_the_next(inputs: nat, outputs: nat, calls: Seq<Call>, m: int)
    requires
        goes_on(after(inputs, outputs, calls)),
        0 <= m < calls.len(),
    ensures
        comes_before(position(calls[m]), next_position(after(inputs, outputs, calls))),
    decreases calls.len(),
{
    let front = calls.drop_last();
    assert(goes_on(after(inputs, outputs, front)));
    if m < calls.len() - 1 {
        lemma_calls_stand_before_the_next(inputs, outputs, front, m);
        assert(front[m] == calls[m]);
    }
}

/// The calls of a cycle come in order: inputs in the order of the list,
/// the samples of an input in the order in which its poll returned them,
/// after the poll and before the next input's, and for each sample the
/// outputs in the order of the list.
pub proof fn lemma_calls_come_in_order(inputs: nat, outputs: nat, calls: Seq<Call>, m: int, n: int)
    requires
        !(after(inputs, outputs, calls) is Lost),
        0 <= m < n < calls.len(),
    ensures
        comes_before(position(calls[m]), position(calls[n])),
{
    lemma_only_the_last_call_ends(inputs, outputs, calls, n);
    lemma_only_the_last_call_ends(inputs, outputs, calls, n + 1);
    let upto = calls.take(n);
    let with = calls.take(n + 1);
    assert(with.drop_last() =~= upto);
    assert(with.last() == calls[n]);
    lemma_calls_stand_before_the_next(inputs, outputs, upto, m);
    assert(upto[m] == calls[m]);
}

/// The calls of a cycle are determined by what they return: two cycles
/// over the same inputs and outputs whose calls returned the same, one by
/// one, made the same calls.
pub proof fn lemma_cycle_is_determined(inputs: nat, outputs: nat, a: Seq<Call>, b: Seq<Call>)
    requires
        after(inputs, outputs, a) is Done,
        after(inputs, outputs, b) is Done,
        forall|n: int| 0 <= n < a.len() && n < b.len() ==> returned(#[trigger] a[n]) == returned(#[trigger] b[n]),
    ensures
        a == b,
{
    let shared = if a.len() <= b.len() {
        a.len() as int
    } else {
        b.len() as int
    };
    lemma_same_replies_same_calls(inputs, outputs, a, b, shared);
    lemma_only_the_last_call_ends(inputs, outputs, a, shared);
    lemma_only_the_last_call_ends(inputs, outputs, b, shared);
    if a.len() < b.len() {
        assert(a.take(shared) =~= a);
    } else if b.len() < a.len() {
        assert(b.take(shared) =~= b);
    } else {
        assert(a.take(shared) =~= a);
        assert(b.take(shared) =~= b);
    }
}

/// Two cycles whose first `n` calls returned the same made the same first
/// `n` calls.
proof fn lemma_same_replies_same_calls(inputs: nat, outputs: nat, a: Seq<Call>, b: Seq<Call>, n: int)
    requires
        !(after(inputs, outputs, a) is Lost),
        !(after(inputs, outputs, b) is Lost),
        0 <= n <= a.len(),
        n <= b.len(),
        forall|k: int| 0 <= k < a.len() && k < b.len() ==> returned(#[trigger] a[k]) == returned(#[trigger] b[k]),
    ensures
        a.take(n) == b.take(n),
    decreases n,
{
    if n == 0 {
        assert(a.take(0) =~= b.take(0));
    } else {
        lemma_same_replies_same_calls(inputs, outputs, a, b, n - 1);
        lemma_only_the_last_call_ends(inputs, outputs, a, n - 1);
        lemma_only_the_last_call_ends(inputs, outputs, b, n - 1);
        lemma_only_the_last_call_ends(inputs, outputs, a, n);
        lemma_only_the_last_call_ends(inputs, outputs, b, n);
        assert(a.take(n).drop_last() =~= a.take(n - 1));
        assert(b.take(n).drop_last() =~= b.take(n - 1));
        assert(a.take(n).last() == a[n - 1]);
        assert(b.take(n).last() == b[n - 1]);
        assert(returned(a[n - 1]) == returned(b[n - 1]));
        let cursor = after(inputs, outputs, a.take(n - 1));
        assert(cursor == after(inputs, outputs, b.take(n - 1)));
        assert(!(step(inputs, outputs, cursor, a[n - 1]) is Lost));
        assert(!(step(inputs, outputs, cursor, b[n - 1]) is Lost));
        match cursor {
            Cursor::Polling(input) => {
                assert(a[n - 1] is Polled && b[n - 1] is Polled);
            },
            Cursor::Feeding { input, count, sample, output } => {
                assert(a[n - 1] is Fed && b[n - 1] is Fed);
                let x = a[n - 1]->Fed_3;
                let y = b[n - 1]->Fed_3;
                if x is Ok {
                    assert(y is Ok);
                    assert(x->Ok_0 == ());
                    assert(y->Ok_0 == ());
                    assert(x == y);
                }
            },
            _ => {},
        }
        assert(a[n - 1] == b[n - 1]);
        assert(a.take(n) =~= a.take(n - 1).push(a[n - 1]));
        assert(b.take(n) =~= b.take(n - 1).push(b[n - 1]));
    }
}

/// The calls that feed one sample to the first `n` outputs, all with
/// success.
pub open spec fn feeds(input: int, sample: int, n: nat) -> Seq<Call>
    decreases n,
{
    if n == 0 {
        Seq::empty()
    } else {
        feeds(input, sample, (n - 1) as nat).push(Call::Fed(input, sample, n - 1, Ok(())))
    }
}

/// The calls that feed the first `n` samples of an input to every output,
/// all with success.
pub open spec fn deliveries(input: int, outputs: nat, n: nat) -> Seq<Call>
    decreases n,
{
    if n == 0 {
        Seq::empty()
    } else {
        deliveries(input, outputs, (n - 1) as nat) + feeds(input, n - 1, outputs)
    }
}

/// The calls of a cycle over the first `n` inputs in which every call
/// succeeds and the input at position `i` returns `counts[i]` samples:
/// each input is polled in turn, and each of its samples is fed to every
/// output before the next input is polled.
pub open spec fn full_cycle(counts: Seq<nat>, outputs: nat, n: nat) -> Seq<Call>
    decreases n,
{
    if n == 0 {
        Seq::empty()
    } else {
        full_cycle(counts, outputs, (n - 1) as nat).push(Call::Polled(n - 1, Ok(counts[n - 1]))) + deliveries(
            n - 1,
            outputs,
            counts[n - 1],
        )
    }
}

proof fn lemma_feeds(inputs: nat, outputs: nat, before: Seq<Call>, input: int, count: nat, sample: int, n: nat)
    requires
        0 < outputs,
        n <= outputs,
        after(inputs, outputs, before) == (Cursor::Feeding { input, count, sample, output: 0 }),
    ensures
        after(inputs, outputs, before + feeds(input, sample, n)) == at_output(
            inputs,
            outputs,
            input,
            count,
            sample,
            n as int,
        ),
    decreases n,
{
    if n == 0 {
        assert(before + feeds(input, sample, 0) =~= before);
    } else {
        lemma_feeds(inputs, outputs, before, input, count, sample, (n - 1) as nat);
        let all = before + feeds(input, sample, n);
        assert(all.drop_last() =~= before + feeds(input, sample, (n - 1) as nat));
        assert(all.last() == Call::Fed(input, sample, n - 1, Ok(())));
    }
}

proof fn lemma_deliveries(inputs: nat, outputs: nat, before: Seq<Call>, input: int, count: nat, n: nat)
    requires
        0 < outputs,
        n <= count,
        after(inputs, outputs, before) == at_sample(inputs, input, count, 0),
    ensures
        after(inputs, outputs, before + deliveries(input, outputs, n)) == at_sample(inputs, input, count, n as int),
    decreases n,
{
    if n == 0 {
        assert(before + deliveries(input, outputs, 0) =~= before);
    } else {
        lemma_deliveries(inputs, outputs, before, input, count, (n - 1) as nat);
        let so_far = before + deliveries(input, outputs, (n - 1) as nat);
        lemma_feeds(inputs, outputs, so_far, input, count, n - 1, outputs);
        assert(so_far + feeds(input, n - 1, outputs) =~= before + deliveries(input, outputs, n));
    }
}

/// The calls of a full cycle are those of a cycle.
pub proof fn lemma_full_cycle(counts: Seq<nat>, outputs: nat, n: nat)
    requires
        0 < outputs,
        n <= counts.len(),
    ensures
        after(counts.len(), outputs, full_cycle(counts, outputs, n)) == at_input(counts.len(), n as int),
    decreases n,
{
    if n > 0 {
        lemma_full_cycle(counts, outputs, (n - 1) as nat);
        let polled = full_cycle(counts, outputs, (n - 1) as nat).push(Call::Polled(n - 1, Ok(counts[n - 1])));
        assert(polled.drop_last() =~= full_cycle(counts, outputs, (n - 1) as nat));
        lemma_deliveries(counts.len(), outputs, polled, n - 1, counts[n - 1], counts[n - 1]);
    }
}

/// Fan-out: a cycle in which every call succeeds, and in which the input
/// at position `i` returns `counts[i]` samples, polls every input in the
/// order of the list and feeds every sample to every output, input by
/// input, sample by sample, output by output, and does nothing else.
pub proof fn lemma_fan_out(counts: Seq<nat>, outputs: nat, calls: Seq<Call>)
    requires
        0 < outputs,
        after(counts.len(), outputs, calls) is Done,
        forall|n: int|
            0 <= n < calls.len() && n < full_cycle(counts, outputs, counts.len()).len() ==> returned(
                #[trigger] calls[n],
            ) == returned(full_cycle(counts, outputs, counts.len())[n]),
    ensures
        calls == full_cycle(counts, outputs, counts.len()),
        after(counts.len(), outputs, calls) == Cursor::Done(Ok(())),
{
    let full = full_cycle(counts, outputs, counts.len());
    lemma_full_cycle(counts, outputs, counts.len());
    assert forall|n: int| 0 <= n < calls.len() && n < full.len() implies returned(#[trigger] calls[n])
        == returned(#[trigger] full[n]) by {}
    lemma_cycle_is_determined(counts.len(), outputs, calls, full);
}

/// A call that a cycle made, and what came back, as the poller holds it.
#[derive(Debug)]
pub enum PollCall {
    /// The input at this position was polled; it returned so many samples,
    /// or an error.
    Polled(usize, Result<usize, Error>),
    /// The sample at the second position, of the input at the first, was
    /// fed to the output at the third; the output returned this.
    Fed(usize, usize, usize, Result<(), Error>),
}

impl View for PollCall {
    type V = Call;

    open spec fn view(&self) -> Call {
        match *self {
            PollCall::Polled(input, Ok(count)) => Call::Polled(input as int, Ok(count as nat)),
            PollCall::Polled(input, Err(err)) => Call::Polled(input as int, Err(err)),
            PollCall::Fed(input, sample, output, reply) => Call::Fed(
                input as int,
                sample as int,
                output as int,
                reply,
            ),
        }
    }
}

/// Where a cycle stands, as the poller holds it.
#[derive(Debug)]
pub enum PollCursor {
    /// The input at this position is polled next.
    Polling(usize),
    /// A sample is fed next.
    Feeding {
        input: usize,
        /// How many samples the input returned.
        count: usize,
        sample: usize,
        output: usize,
    },
    /// The cycle is over, with this result.
    Done(Result<(), Error>),
    /// The calls are not those of a cycle.
    Lost,
}

impl View for PollCursor {
    type V = Cursor;

    open spec fn view(&self) -> Cursor {
        match *self {
            PollCursor::Polling(input) => Cursor::Polling(input as int),
            PollCursor::Feeding { input, count, sample, output } => Cursor::Feeding {
                input: input as int,
                count: count as nat,
                sample: sample as int,
                output: output as int,
            },
            PollCursor::Done(result) => Cursor::Done(result),
            PollCursor::Lost => Cursor::Lost,
        }
    }
}

impl PollCursor {
    /// Where a cycle starts.
    pub fn start(inputs: usize, outputs: usize) -> (cursor: PollCursor)
        ensures
            cursor@ == start(inputs as nat, outputs as nat),
    {
        if outputs == 0 || inputs == 0 {
            PollCursor::Done(Ok(()))
        } else {
            PollCursor::Polling(0)
        }
    }

    /// Where a cycle stands behind the input at position `input`.
    fn behind_input(inputs: usize, input: usize) -> (cursor: PollCursor)
        ensures
            cursor@ == at_input(inputs as nat, input + 1),
    {
        if inputs > 0 && input < inputs - 1 {
            PollCursor::Polling(input + 1)
        } else {
            PollCursor::Done(Ok(()))
        }
    }

    /// Where a cycle stands before the first sample of an input that
    /// returned `count` samples.
    fn before_samples(inputs: usize, input: usize, count: usize) -> (cursor: PollCursor)
        ensures
            cursor@ == at_sample(inputs as nat, input as int, count as nat, 0),
    {
        if count > 0 {
            PollCursor::Feeding { input, count, sample: 0, output: 0 }
        } else {
            PollCursor::behind_input(inputs, input)
        }
    }

    /// Where a cycle stands behind the sample at position `sample`.
    fn behind_sample(inputs: usize, input: usize, count: usize, sample: usize) -> (cursor: PollCursor)
        ensures
            cursor@ == at_sample(inputs as nat, input as int, count as nat, sample + 1),
    {
        if count > 0 && sample < count - 1 {
            PollCursor::Feeding { input, count, sample: sample + 1, output: 0 }
        } else {
            PollCursor::behind_input(inputs, input)
        }
    }

    /// Where a cycle stands behind the output at position `output`.
    fn behind_output(
        inputs: usize,
        outputs: usize,
        input: usize,
        count: usize,
        sample: usize,
        output: usize,
    ) -> (cursor: PollCursor)
        ensures
            cursor@ == at_output(
                inputs as nat,
                outputs as nat,
                input as int,
                count as nat,
                sample as int,
                output + 1,
            ),
    {
        if outputs > 0 && output < outputs - 1 {
            PollCursor::Feeding { input, count, sample, output: output + 1 }
        } else {
            PollCursor::behind_sample(inputs, input, count, sample)
        }
    }

    /// Where the cycle stands after one more call: the transition of the
    /// machine.
    pub fn step(self, inputs: usize, outputs: usize, call: PollCall) -> (next: PollCursor)
        ensures
            next@ == step(inputs as nat, outputs as nat, self@, call@),
    {
        match (self, call) {
            (PollCursor::Polling(next), PollCall::Polled(input, reply)) => {
                if input != next {
                    PollCursor::Lost
                } else {
                    match reply {
                        Err(err) => PollCursor::Done(Err(err)),
                        Ok(count) => PollCursor::before_samples(inputs, input, count),
                    }
                }
            },
            (PollCursor::Feeding { input, count, sample, output }, PollCall::Fed(i, k, j, reply)) => {
                if i != input || k != sample || j != output {
                    PollCursor::Lost
                } else {
                    match reply {
                        Err(err) => PollCursor::Done(Err(err)),
                        Ok(_) => PollCursor::behind_output(inputs, outputs, input, count, sample, output),
                    }
                }
            },
            _ => PollCursor::Lost,
        }
    }
}

/// Whether the poller can go on from the cursor: the call that the cursor
/// names is one on an input and an output that are there, and on a sample
/// of the `held` samples that the poller holds.
pub open spec fn fits(cursor: Cursor, held: nat, inputs: nat, outputs: nat, listed: nat) -> bool {
    match cursor {
        Cursor::Polling(input) => 0 <= input < inputs && inputs <= listed && 0 < outputs,
        Cursor::Feeding { input, count, sample, output } => {
            &&& 0 <= input < inputs
            &&& (inputs <= listed || input + 1 == inputs)
            &&& count == held
            &&& 0 <= sample < count
            &&& 0 <= output < outputs
        },
        Cursor::Done(_) => true,
        Cursor::Lost => false,
    }
}

/// How many inputs the cycle has still to deal with.
pub open spec fn inputs_left(cursor: Cursor, inputs: nat) -> int {
    match cursor {
        Cursor::Polling(input) => inputs - input,
        Cursor::Feeding { input, count, sample, output } => inputs - input,
        _ => 0,
    }
}

/// Whether the input that the cycle deals with is still to be polled.
pub open spec fn poll_left(cursor: Cursor) -> int {
    if cursor is Polling {
        1
    } else {
        0
    }
}

/// How many samples of the input the cycle has still to deal with.
pub open spec fn samples_left(cursor: Cursor) -> int {
    match cursor {
        Cursor::Feeding { input, count, sample, output } => count - sample,
        _ => 0,
    }
}

/// How many outputs the sample has still to be fed to.
pub open spec fn outputs_left(cursor: Cursor, outputs: nat) -> int {
    match cursor {
        Cursor::Feeding { input, count, sample, output } => outputs - output,
        _ => 0,
    }
}

pub struct Poller {
    input: Arc<Vec<Arc<Box<dyn InputInstance>>>>,
    output: Arc<Vec<Arc<Box<dyn OutputInstance>>>>,
}

impl Poller {
    /// The number of inputs.
    pub closed spec fn inputs(&self) -> nat {
        self.input@.len()
    }

    /// The number of outputs.
    pub closed spec fn outputs(&self) -> nat {
        self.output@.len()
    }

    pub fn new(
        input: Arc<Vec<Arc<Box<dyn InputInstance>>>>,
        output: Arc<Vec<Arc<Box<dyn OutputInstance>>>>,
    ) -> (p: Poller)
        ensures
            p.inputs() == input.len(),
            p.outputs() == output.len(),
    {
        Poller { input, output }
    }

    /// Goes on with a cycle from where it stands to its end: makes the
    /// call that the cursor names, moves the cursor by what came back, and
    /// so on until the cycle is over. `held` are the samples of the input
    /// that the cycle deals with. The calls are added to the record.
    fn drive(&self, inputs: usize, from: PollCursor, held: Samples, Ghost(before): Ghost<Seq<Call>>) -> (r: (
        Result<(), Error>,
        Ghost<Seq<Call>>,
    ))
        requires
            after(inputs as nat, self.outputs(), before) == from@,
            fits(from@, held@.len(), inputs as nat, self.outputs(), self.inputs()),
        ensures
            before.is_prefix_of(r.1@),
            after(inputs as nat, self.outputs(), r.1@) == Cursor::Done(r.0),
            from@ is Done ==> r.1@ == before,
    {
        let outputs = self.output.len();
        let mut cursor = from;
        let mut samples = held;
        let ghost mut calls = before;
        loop
            invariant
                outputs == self.outputs(),
                before.is_prefix_of(calls),
                after(inputs as nat, self.outputs(), calls) == cursor@,
                fits(cursor@, samples@.len(), inputs as nat, self.outputs(), self.inputs()),
                from@ is Done ==> calls == before && cursor@ == from@,
            decreases
                inputs_left(cursor@, inputs as nat),
                poll_left(cursor@),
                samples_left(cursor@),
                outputs_left(cursor@, self.outputs()),
        {
            match cursor {
                PollCursor::Done(result) => {
                    return (result, Ghost(calls));
                },
                PollCursor::Lost => {
                    proof {
                        assert(false);
                    }
                    return (Ok(()), Ghost(calls));
                },
                PollCursor::Polling(input) => {
                    let polled = self.input[input].poll();
                    let ghost reply = reply_of(polled);
                    let call = match polled {
                        Ok(got) => {
                            let count = got.len();
                            samples = got;
                            PollCall::Polled(input, Ok(count))
                        },
                        Err(err) => PollCall::Polled(input, Err(err)),
                    };
                    proof {
                        assert(call@ == Call::Polled(input as int, reply));
                        assert(calls.push(call@).drop_last() =~= calls);
                        calls = calls.push(call@);
                    }
                    cursor = PollCursor::Polling(input).step(inputs, outputs, call);
                },
                PollCursor::Feeding { input, count, sample, output } => {
                    let fed = self.output[output].feed(&samples[sample]);
                    let call = PollCall::Fed(input, sample, output, fed);
                    proof {
                        assert(calls.push(call@).drop_last() =~= calls);
                        calls = calls.push(call@);
                    }
                    cursor = (PollCursor::Feeding { input, count, sample, output }).step(inputs, outputs, call);
                },
            }
        }
    }

    /// One pass, and the record of its calls.
    pub fn run_recorded(&self) -> (r: (Result<(), Error>, Ghost<Seq<Call>>))
        ensures
            after(self.inputs(), self.outputs(), r.1@) == Cursor::Done(r.0),
            self.inputs() == 0 || self.outputs() == 0 ==> r.0 is Ok && r.1@.len() == 0,
    {
        let inputs = self.input.len();
        let from = PollCursor::start(inputs, self.output.len());
        self.drive(inputs, from, Vec::new(), Ghost(Seq::empty()))
    }

    /// Feeds one sample to every output, in the order of the list, and
    /// stops at the first output that fails: its error is the result, and
    /// the outputs behind it are not fed. With no output there is nothing
    /// that can fail.
    pub fn feed(&self, sample: &Sample) -> (r: Result<(), Error>)
        ensures
            self.outputs() == 0 ==> r is Ok,
    {
        let mut j: usize = 0;
        while j < self.output.len()
            invariant
                j <= self.output.len(),
            decreases self.output.len() - j,
        {
            match self.output[j].feed(sample) {
                Err(err) => {
                    return Err(err);
                },
                Ok(()) => {},
            }
            j = j + 1;
        }
        Ok(())
    }

    /// Deals with what one input returned from its poll: the part of a
    /// cycle that follows a poll of its last input. A failed poll is the
    /// result as it is. The samples of a successful poll are fed one after
    /// the other, each to every output, up to the first failure.
    pub fn deliver(&self, polled: Result<Samples, Error>) -> (r: Result<(), Error>)
        ensures
            polled matches Err(err) ==> r == Err::<(), Error>(err),
            polled matches Ok(samples) ==> (samples@.len() == 0 || self.outputs() == 0 ==> r is Ok),
    {
        let outputs = self.output.len();
        if outputs == 0 {
            return match polled {
                Err(err) => Err(err),
                Ok(_) => Ok(()),
            };
        }
        let ghost reply = reply_of(polled);
        let (call, samples) = match polled {
            Ok(got) => (PollCall::Polled(0, Ok(got.len())), got),
            Err(err) => (PollCall::Polled(0, Err(err)), Vec::new()),
        };
        let ghost before = seq![call@];
        proof {
            assert(call@ == Call::Polled(0, reply));
            assert(before.drop_last() =~= Seq::<Call>::empty());
            assert(before.last() == call@);
            assert(after(1, self.outputs(), before.drop_last()) == start(1, self.outputs()));
        }
        let from = PollCursor::start(1, outputs).step(1, outputs, call);
        let delivered = self.drive(1, from, samples, Ghost(before));
        delivered.0
    }
}

impl Runnable for Poller {
    /// One pass: polls the inputs in the order of the list and delivers
    /// what each returned before the next is polled. The first failure, of
    /// a poll or of a feed, ends the pass and is its result; what was
    /// delivered before stays delivered. With no input or no output the
    /// pass does nothing and succeeds.
    fn run(&self) -> (r: Result<(), Error>)
        ensures
            self.inputs() == 0 || self.outputs() == 0 ==> r is Ok,
    {
        self.run_recorded().0
    }
}

} // verus!
