//! The update cycle's admission control: every input carries a flag that
//! says whether an update of it is in flight, and no input is updated
//! while its flag is up.
//!
//! The updater decides; it starts nothing itself. A caller asks it which
//! inputs to update, runs their updates wherever it likes, and reports
//! each one's end.

use vstd::prelude::*;
use std::sync::Arc;
use crate::errors::Error;
use crate::plugin::share;
use crate::plugin::InputInstance;

verus! {

/// An update that the caller is to run.
pub struct UpdateTask {
    /// The position of the input in the updater's list.
    pub index: usize,
    pub instance: Arc<Box<dyn InputInstance>>,
}

/// How an update ended.
#[derive(Debug)]
pub enum TaskEnd {
    /// The update ran and returned this.
    Returned(Result<(), Error>),
    /// The update could not be run to its end: the worker pool is gone or
    /// gave the task up.
    Abandoned(Error),
}

/// The positions whose flag is down, in ascending order.
pub open spec fn admitted(flags: Seq<bool>) -> Seq<int>
    decreases flags.len(),
{
    if flags.len() == 0 {
        Seq::empty()
    } else if flags.last() {
        admitted(flags.drop_last())
    } else {
        admitted(flags.drop_last()).push(flags.len() - 1)
    }
}

/// The flags after a cycle has begun: all up.
pub open spec fn after_begin(flags: Seq<bool>) -> Seq<bool> {
    Seq::new(flags.len(), |i: int| true)
}

/// The flags after the update at `index` has ended: that one down.
pub open spec fn after_complete(flags: Seq<bool>, index: int) -> Seq<bool> {
    if 0 <= index < flags.len() {
        flags.update(index, false)
    } else {
        flags
    }
}

/// The error of the first update that was abandoned, if one was.
pub open spec fn first_abandoned(ends: Seq<TaskEnd>) -> Option<Error>
    decreases ends.len(),
{
    if ends.len() == 0 {
        None
    } else {
        match ends[0] {
            TaskEnd::Abandoned(err) => Some(err),
            TaskEnd::Returned(_) => first_abandoned(ends.drop_first()),
        }
    }
}

/// An input and the flag that guards its updates.
struct InputInstanceState {
    /// Only permit one update at a time.
    in_progress: bool,
    instance: Arc<Box<dyn InputInstance>>,
}

pub struct Updater {
    states: Vec<InputInstanceState>,
}

impl View for Updater {
    type V = Seq<bool>;

    /// The flags, one for each input.
    closed spec fn view(&self) -> Seq<bool> {
        Seq::new(self.states@.len(), |i: int| self.states@[i].in_progress)
    }
}

impl Updater {
    /// The inputs.
    pub closed spec fn inputs(&self) -> Seq<Arc<Box<dyn InputInstance>>> {
        Seq::new(self.states@.len(), |i: int| self.states@[i].instance)
    }

    /// An updater for the given inputs, none of them in progress.
    pub fn new(input: Arc<Vec<Arc<Box<dyn InputInstance>>>>) -> (u: Updater)
        ensures
            u.inputs() == input@,
            u@.len() == input@.len(),
            forall|i: int| 0 <= i < u@.len() ==> !#[trigger] u@[i],
    {
        let mut states: Vec<InputInstanceState> = Vec::new();
        while states.len() < input.len()
            invariant
                states@.len() <= input@.len(),
                forall|i: int| 0 <= i < states@.len() ==> !(#[trigger] states@[i]).in_progress,
                forall|i: int| 0 <= i < states@.len() ==> (#[trigger] states@[i]).instance == input@[i],
            decreases input@.len() - states@.len(),
        {
            let instance = share(&input[states.len()]);
            states.push(InputInstanceState { in_progress: false, instance });
        }
        let u = Updater { states };
        assert(u.inputs() =~= input@);
        u
    }

    /// The number of inputs.
    pub fn len(&self) -> (n: usize)
        ensures
            n == self@.len(),
    {
        self.states.len()
    }

    /// Whether an update of the input at `index` is in flight.
    pub fn in_progress(&self, index: usize) -> (flag: bool)
        ensures
            flag == (index < self@.len() && self@[index as int]),
    {
        index < self.states.len() && self.states[index].in_progress
    }

    /// Begins a cycle: raises the flag of every input whose flag is down
    /// and hands those inputs out, in the order of the list, for the
    /// caller to update. An input whose flag is up is passed over.
    pub fn begin(&mut self) -> (tasks: Vec<UpdateTask>)
        ensures
            final(self)@ == after_begin(old(self)@),
            final(self).inputs() == old(self).inputs(),
            tasks@.len() == admitted(old(self)@).len(),
            forall|k: int|
                0 <= k < tasks@.len() ==> (#[trigger] tasks@[k]).index == admitted(old(self)@)[k],
            forall|k: int|
                0 <= k < tasks@.len() ==> (#[trigger] tasks@[k]).index < old(self).inputs().len(),
            forall|k: int|
                0 <= k < tasks@.len() ==> (#[trigger] tasks@[k]).instance
                    == old(self).inputs()[tasks@[k].index as int],
    {
        let ghost before = self@;
        let ghost inputs = self.inputs();
        let mut tasks: Vec<UpdateTask> = Vec::new();
        let mut i: usize = 0;
        assert(before.take(0) =~= Seq::<bool>::empty());
        while i < self.states.len()
            invariant
                i <= self.states@.len(),
                self.states@.len() == before.len(),
                inputs.len() == before.len(),
                forall|j: int| 0 <= j < before.len() ==> (#[trigger] self.states@[j]).instance == inputs[j],
                forall|j: int| 0 <= j < i ==> (#[trigger] self.states@[j]).in_progress,
                forall|j: int| i <= j < before.len() ==> (#[trigger] self.states@[j]).in_progress == before[j],
                tasks@.len() == admitted(before.take(i as int)).len(),
                forall|k: int|
                    0 <= k < tasks@.len() ==> (#[trigger] tasks@[k]).index == admitted(before.take(i as int))[k],
                forall|k: int| 0 <= k < tasks@.len() ==> (#[trigger] tasks@[k]).index < inputs.len(),
                forall|k: int|
                    0 <= k < tasks@.len() ==> (#[trigger] tasks@[k]).instance == inputs[tasks@[k].index as int],
            decreases before.len() - i,
        {
            proof {
                assert(before.take(i + 1).drop_last() =~= before.take(i as int));
                assert(before.take(i + 1).last() == before[i as int]);
            }
            if !self.states[i].in_progress {
                let instance = share(&self.states[i].instance);
                let task = share(&instance);
                self.states.set(i, InputInstanceState { in_progress: true, instance });
                tasks.push(UpdateTask { index: i, instance: task });
            }
            i = i + 1;
        }
        assert(before.take(before.len() as int) =~= before);
        assert(self@ =~= after_begin(before));
        assert(self.inputs() =~= inputs);
        tasks
    }

    /// Takes note that the update of the input at `index` has ended, and
    /// lowers its flag, however the update ended. A position beyond the
    /// list changes nothing.
    pub fn complete(&mut self, index: usize, end: &TaskEnd)
        ensures
            final(self)@ == after_complete(old(self)@, index as int),
            final(self).inputs() == old(self).inputs(),
    {
        if index < self.states.len() {
            let instance = share(&self.states[index].instance);
            self.states.set(index, InputInstanceState { in_progress: false, instance });
            assert(self@ =~= after_complete(old(self)@, index as int));
            assert(self.inputs() =~= old(self).inputs());
        }
    }

    /// The result of a cycle whose updates ended as given: the error of
    /// the first update that was abandoned, and success where none was.
    /// That an update returned an error does not fail the cycle.
    pub fn cycle_result(ends: Vec<TaskEnd>) -> (r: Result<(), Error>)
        ensures
            r == match first_abandoned(ends@) {
                Some(err) => Err::<(), Error>(err),
                None => Ok::<(), Error>(()),
            },
    {
        let mut left = ends;
        let ghost all = left@;
        let mut i: usize = 0;
        assert(all.skip(0) =~= all);
        while i < left.len()
            invariant
                i <= left@.len(),
                left@ == all,
                all == ends@,
                first_abandoned(all) == first_abandoned(all.skip(i as int)),
            decreases left@.len() - i,
        {
            let abandoned = match &left[i] {
                TaskEnd::Abandoned(_) => true,
                TaskEnd::Returned(_) => false,
            };
            assert(all.skip(i as int)[0] == all[i as int]);
            if abandoned {
                let end = left.swap_remove(i);
                assert(end == all[i as int]);
                match end {
                    TaskEnd::Abandoned(err) => {
                        return Err(err);
                    },
                    TaskEnd::Returned(_) => {
                        return Ok(());
                    },
                }
            }
            assert(all.skip(i as int).drop_first() =~= all.skip(i + 1));
            i = i + 1;
        }
        assert(all.skip(all.len() as int) =~= Seq::<TaskEnd>::empty());
        Ok(())
    }
}

/// What happens to an updater.
pub enum UpdaterEvent {
    /// A cycle begins.
    Cycle,
    /// The update of the input at this position ends.
    Completed(int),
}

/// The flags after one event.
pub open spec fn flags_after(flags: Seq<bool>, event: UpdaterEvent) -> Seq<bool> {
    match event {
        UpdaterEvent::Cycle => after_begin(flags),
        UpdaterEvent::Completed(index) => after_complete(flags, index),
    }
}

/// The flags after a run of events, from `flags`.
pub open spec fn flags_after_all(flags: Seq<bool>, events: Seq<UpdaterEvent>) -> Seq<bool>
    decreases events.len(),
{
    if events.len() == 0 {
        flags
    } else {
        flags_after(flags_after_all(flags, events.drop_last()), events.last())
    }
}

/// The number of updates of the input at `index` that a run of events,
/// from flags that are all down, has started and not yet seen end. The end
/// of an update that is not in flight counts for nothing.
pub open spec fn in_flight(inputs: nat, events: Seq<UpdaterEvent>, index: int) -> int
    decreases events.len(),
{
    if events.len() == 0 {
        0
    } else {
        let before = flags_after_all(Seq::new(inputs, |i: int| false), events.drop_last());
        let so_far = in_flight(inputs, events.drop_last(), index);
        match events.last() {
            UpdaterEvent::Cycle => if before[index] {
                so_far
            } else {
                so_far + 1
            },
            UpdaterEvent::Completed(at) => if at == index && before[index] {
                so_far - 1
            } else {
                so_far
            },
        }
    }
}

/// A position is admitted exactly where its flag is down.
pub proof fn lemma_admitted(flags: Seq<bool>, index: int)
    ensures
        admitted(flags).contains(index) <==> (0 <= index < flags.len() && !flags[index]),
    decreases flags.len(),
{
    if flags.len() > 0 {
        let front = flags.drop_last();
        lemma_admitted(front, index);
        if !flags.last() {
            let all = admitted(front).push(flags.len() - 1);
            if index == flags.len() - 1 {
                assert(all[all.len() - 1] == index);
            }
            if admitted(front).contains(index) {
                let k = choose|k: int| 0 <= k < admitted(front).len() && admitted(front)[k] == index;
                assert(all[k] == index);
            }
            if all.contains(index) {
                let k = choose|k: int| 0 <= k < all.len() && all[k] == index;
                if k < admitted(front).len() {
                    assert(admitted(front)[k] == index);
                }
            }
        }
    }
}

/// Where every flag is up, nothing is admitted.
pub proof fn lemma_all_up_admits_none(flags: Seq<bool>)
    requires
        forall|i: int| 0 <= i < flags.len() ==> #[trigger] flags[i],
    ensures
        admitted(flags).len() == 0,
    decreases flags.len(),
{
    if flags.len() > 0 {
        assert(flags[flags.len() - 1]);
        assert forall|i: int| 0 <= i < flags.drop_last().len() implies #[trigger] flags.drop_last()[i] by {
            assert(flags[i]);
        }
        lemma_all_up_admits_none(flags.drop_last());
    }
}

/// A cycle that begins before any update of the one before has ended
/// admits nothing: no input is updated twice at once.
pub proof fn lemma_second_cycle_admits_none(flags: Seq<bool>)
    ensures
        admitted(after_begin(flags)).len() == 0,
{
    lemma_all_up_admits_none(after_begin(flags));
}

/// Once the update of an input has ended, however it ended, the next
/// cycle admits that input again, and only that one while the others are
/// still in flight.
pub proof fn lemma_ended_update_is_admitted_again(flags: Seq<bool>, index: int)
    requires
        0 <= index < flags.len(),
    ensures
        admitted(after_complete(after_begin(flags), index)) == seq![index],
{
    let now = after_complete(after_begin(flags), index);
    lemma_only_down_is_admitted(now, index);
}

/// Where one flag is down and all others are up, that position alone is
/// admitted.
pub proof fn lemma_only_down_is_admitted(flags: Seq<bool>, index: int)
    requires
        0 <= index < flags.len(),
        !flags[index],
        forall|i: int| 0 <= i < flags.len() && i != index ==> #[trigger] flags[i],
    ensures
        admitted(flags) == seq![index],
    decreases flags.len(),
{
    let front = flags.drop_last();
    if index == flags.len() - 1 {
        assert forall|i: int| 0 <= i < front.len() implies #[trigger] front[i] by {
            assert(flags[i]);
        }
        lemma_all_up_admits_none(front);
        assert(admitted(front).push(index) =~= seq![index]);
    } else {
        assert(flags[flags.len() - 1]);
        assert(!front[index]);
        assert forall|i: int| 0 <= i < front.len() && i != index implies #[trigger] front[i] by {
            assert(flags[i]);
        }
        lemma_only_down_is_admitted(front, index);
    }
}

/// Whatever happens, and in whatever order, at most one update of an input
/// is in flight, and one is in flight exactly while the input's flag is
/// up.
pub proof fn lemma_at_most_one_in_flight(inputs: nat, events: Seq<UpdaterEvent>, index: int)
    requires
        0 <= index < inputs,
    ensures
        flags_after_all(Seq::new(inputs, |i: int| false), events).len() == inputs,
        in_flight(inputs, events, index) == if flags_after_all(Seq::new(inputs, |i: int| false), events)[index] {
            1int
        } else {
            0int
        },
        0 <= in_flight(inputs, events, index) <= 1,
    decreases events.len(),
{
    if events.len() > 0 {
        lemma_at_most_one_in_flight(inputs, events.drop_last(), index);
    }
}

} // verus!
