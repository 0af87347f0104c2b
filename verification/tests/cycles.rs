use std::sync::Arc;
use std::sync::Mutex;
use sysmon::errors::Error;
use sysmon::errors::ErrorKind;
use sysmon::metric::MetricId;
use sysmon::plugin::InputInstance;
use sysmon::plugin::OutputInstance;
use sysmon::plugin::Sample;
use sysmon::plugin::Samples;
use sysmon::poller::PollCall;
use sysmon::poller::PollCursor;
use sysmon::poller::Poller;
use sysmon::scheduler::run_event;
use sysmon::scheduler::Interval;
use sysmon::scheduler::Runnable;
use sysmon::scheduler::Schedule;
use sysmon::scheduler::ScheduleAction;
use sysmon::scheduler::ScheduleEvent;
use sysmon::scheduler::ScheduleState;
use sysmon::updater::TaskEnd;
use sysmon::updater::Updater;

type Log = Arc<Mutex<Vec<String>>>;

struct FakeInput {
    name: &'static str,
    values: Vec<u64>,
    fail: bool,
    log: Log,
}

impl InputInstance for FakeInput {
    fn poll(&self) -> Result<Samples, Error> {
        self.log.lock().unwrap().push(format!("poll {}", self.name));
        if self.fail {
            return Err(Error::new(ErrorKind::Message(format!("{} failed", self.name))));
        }
        let id = Arc::new(MetricId::new_with_key(self.name).build());
        Ok(self.values.iter().map(|v| Sample::new(id.clone(), *v)).collect())
    }

    fn update(&self) -> Result<(), Error> {
        self.log.lock().unwrap().push(format!("update {}", self.name));
        if self.fail {
            return Err(Error::new(ErrorKind::Update));
        }
        Ok(())
    }
}

struct Plain;

impl InputInstance for Plain {}

struct FakeOutput {
    name: &'static str,
    refuse: Option<u64>,
    log: Log,
}

impl OutputInstance for FakeOutput {
    fn feed(&self, sample: &Sample) -> Result<(), Error> {
        let key = sample.metric_id.key().clone().unwrap();
        self.log.lock().unwrap().push(format!("feed {} {}={}", self.name, key, sample.value));
        if self.refuse == Some(sample.value) {
            return Err(Error::new(ErrorKind::Message(format!("{} refused", self.name))));
        }
        Ok(())
    }
}

fn input(name: &'static str, values: &[u64], fail: bool, log: &Log) -> Arc<Box<dyn InputInstance>> {
    Arc::new(Box::new(FakeInput { name, values: values.to_vec(), fail, log: log.clone() }))
}

fn output(name: &'static str, refuse: Option<u64>, log: &Log) -> Arc<Box<dyn OutputInstance>> {
    Arc::new(Box::new(FakeOutput { name, refuse, log: log.clone() }))
}

fn lines(log: &Log) -> Vec<String> {
    log.lock().unwrap().clone()
}

#[test]
fn poller_fans_out_in_order() {
    let log: Log = Arc::new(Mutex::new(Vec::new()));
    let poller = Poller::new(
        Arc::new(vec![input("a", &[1], false, &log), input("b", &[2], false, &log)]),
        Arc::new(vec![output("out", None, &log)]),
    );
    assert_eq!(poller.run(), Ok(()));
    assert_eq!(lines(&log), vec!["poll a", "feed out a=1", "poll b", "feed out b=2"]);
}

#[test]
fn poller_feeds_every_sample_to_every_output() {
    let log: Log = Arc::new(Mutex::new(Vec::new()));
    let poller = Poller::new(
        Arc::new(vec![input("a", &[1, 2], false, &log), input("b", &[3], false, &log)]),
        Arc::new(vec![output("x", None, &log), output("y", None, &log)]),
    );
    assert_eq!(poller.run(), Ok(()));
    assert_eq!(
        lines(&log),
        vec![
            "poll a",
            "feed x a=1",
            "feed y a=1",
            "feed x a=2",
            "feed y a=2",
            "poll b",
            "feed x b=3",
            "feed y b=3",
        ]
    );
}

#[test]
fn poller_stops_at_a_failed_poll() {
    let log: Log = Arc::new(Mutex::new(Vec::new()));
    let poller = Poller::new(
        Arc::new(vec![input("a", &[1], true, &log), input("b", &[2], false, &log)]),
        Arc::new(vec![output("out", None, &log)]),
    );
    assert_eq!(poller.run(), Err(Error::new(ErrorKind::Message("a failed".to_owned()))));
    assert_eq!(lines(&log), vec!["poll a"]);
}

#[test]
fn poller_keeps_what_was_delivered_before_a_failed_poll() {
    let log: Log = Arc::new(Mutex::new(Vec::new()));
    let poller = Poller::new(
        Arc::new(vec![input("a", &[1], false, &log), input("b", &[2], true, &log), input("c", &[3], false, &log)]),
        Arc::new(vec![output("out", None, &log)]),
    );
    assert_eq!(poller.run(), Err(Error::new(ErrorKind::Message("b failed".to_owned()))));
    assert_eq!(lines(&log), vec!["poll a", "feed out a=1", "poll b"]);
}

#[test]
fn poller_stops_at_a_failed_feed() {
    let log: Log = Arc::new(Mutex::new(Vec::new()));
    let poller = Poller::new(
        Arc::new(vec![input("a", &[1, 2], false, &log), input("b", &[3], false, &log)]),
        Arc::new(vec![output("x", Some(1), &log), output("y", None, &log)]),
    );
    assert_eq!(poller.run(), Err(Error::new(ErrorKind::Message("x refused".to_owned()))));
    assert_eq!(lines(&log), vec!["poll a", "feed x a=1"]);
}

#[test]
fn poller_without_inputs_or_outputs_does_nothing() {
    let log: Log = Arc::new(Mutex::new(Vec::new()));
    let none = Poller::new(Arc::new(vec![]), Arc::new(vec![output("out", None, &log)]));
    assert_eq!(none.run(), Ok(()));
    let deaf = Poller::new(Arc::new(vec![input("a", &[1], true, &log)]), Arc::new(vec![]));
    assert_eq!(deaf.run(), Ok(()));
    assert!(lines(&log).is_empty());
}

#[test]
fn poller_delivers_what_it_is_given() {
    let log: Log = Arc::new(Mutex::new(Vec::new()));
    let poller = Poller::new(Arc::new(vec![]), Arc::new(vec![output("out", None, &log)]));
    let failed = Error::new(ErrorKind::Poll);
    assert_eq!(poller.deliver(Err(failed.clone())), Err(failed));
    assert_eq!(poller.deliver(Ok(Vec::new())), Ok(()));
    assert!(lines(&log).is_empty());
    let id = Arc::new(MetricId::new_with_key("k").build());
    assert_eq!(poller.deliver(Ok(vec![Sample::new(id.clone(), 7), Sample::new(id, 8)])), Ok(()));
    assert_eq!(lines(&log), vec!["feed out k=7", "feed out k=8"]);
}

#[test]
fn instances_do_nothing_unless_they_say_so() {
    let plain = Plain;
    assert_eq!(plain.poll().unwrap().len(), 0);
    assert_eq!(plain.update(), Ok(()));
    assert_eq!(plain.next_update(), Interval { secs: 0, nanos: 0 });
}

#[test]
fn updater_starts_an_update_once() {
    let log: Log = Arc::new(Mutex::new(Vec::new()));
    let inputs = Arc::new(vec![input("slow", &[], false, &log)]);
    let mut updater = Updater::new(inputs.clone());
    assert!(!updater.in_progress(0));

    let first = updater.begin();
    assert_eq!(first.len(), 1);
    assert_eq!(first[0].index, 0);
    assert!(Arc::ptr_eq(&first[0].instance, &inputs[0]));
    assert!(updater.in_progress(0));

    let second = updater.begin();
    assert!(second.is_empty());

    updater.complete(0, &TaskEnd::Returned(first[0].instance.update()));
    assert!(!updater.in_progress(0));
    let third = updater.begin();
    assert_eq!(third.len(), 1);
    assert_eq!(third[0].index, 0);
    updater.complete(0, &TaskEnd::Returned(third[0].instance.update()));
    assert_eq!(lines(&log), vec!["update slow", "update slow"]);
}

#[test]
fn updater_lowers_the_flag_after_a_failure() {
    let log: Log = Arc::new(Mutex::new(Vec::new()));
    let inputs = Arc::new(vec![input("a", &[], true, &log), input("b", &[], false, &log)]);
    let mut updater = Updater::new(inputs);
    let tasks = updater.begin();
    assert_eq!(tasks.iter().map(|t| t.index).collect::<Vec<usize>>(), vec![0, 1]);
    let failed = tasks[0].instance.update();
    assert!(failed.is_err());
    updater.complete(0, &TaskEnd::Returned(failed));
    assert!(!updater.in_progress(0));
    assert!(updater.in_progress(1));
    let next = updater.begin();
    assert_eq!(next.iter().map(|t| t.index).collect::<Vec<usize>>(), vec![0]);
    updater.complete(1, &TaskEnd::Abandoned(Error::new(ErrorKind::Message("pool gone".to_owned()))));
    assert!(!updater.in_progress(1));
    updater.complete(7, &TaskEnd::Returned(Ok(())));
    assert!(updater.in_progress(0));
    assert!(!updater.in_progress(7));
}

#[test]
fn updater_without_inputs() {
    let mut updater = Updater::new(Arc::new(vec![]));
    assert!(updater.begin().is_empty());
    assert!(!updater.in_progress(0));
}

#[test]
fn update_failures_do_not_fail_the_cycle() {
    assert_eq!(Updater::cycle_result(vec![]), Ok(()));
    assert_eq!(
        Updater::cycle_result(vec![
            TaskEnd::Returned(Ok(())),
            TaskEnd::Returned(Err(Error::new(ErrorKind::Update))),
        ]),
        Ok(())
    );
    let gone = Error::new(ErrorKind::Message("pool gone".to_owned()));
    let later = Error::new(ErrorKind::Message("later".to_owned()));
    assert_eq!(
        Updater::cycle_result(vec![
            TaskEnd::Returned(Err(Error::new(ErrorKind::Update))),
            TaskEnd::Abandoned(gone.clone()),
            TaskEnd::Returned(Ok(())),
            TaskEnd::Abandoned(later),
        ]),
        Err(gone)
    );
}

struct AlwaysFails {
    runs: Mutex<u32>,
}

impl Runnable for AlwaysFails {
    fn run(&self) -> Result<(), Error> {
        *self.runs.lock().unwrap() += 1;
        Err(Error::new(ErrorKind::Poll))
    }
}

fn drive(schedule: &mut Schedule, runnable: &dyn Runnable, timer_fires: u32) -> (Vec<ScheduleAction>, u32) {
    let mut actions = Vec::new();
    let mut fired = 0;
    let mut next = schedule.on(ScheduleEvent::Started);
    loop {
        let event = match &next {
            ScheduleAction::ArmTimer(_) => {
                if fired == timer_fires {
                    actions.push(next);
                    break;
                }
                fired += 1;
                ScheduleEvent::TimerFired
            }
            ScheduleAction::Run => run_event(runnable.run()),
            ScheduleAction::Stop(_) | ScheduleAction::Nothing => {
                actions.push(next);
                break;
            }
        };
        actions.push(next);
        next = schedule.on(event);
    }
    (actions, fired)
}

fn names(actions: &[ScheduleAction]) -> Vec<&'static str> {
    actions
        .iter()
        .map(|a| match a {
            ScheduleAction::ArmTimer(_) => "arm",
            ScheduleAction::Run => "run",
            ScheduleAction::Stop(Ok(())) => "stop",
            ScheduleAction::Stop(Err(_)) => "fail",
            ScheduleAction::Nothing => "nothing",
        })
        .collect()
}

#[test]
fn a_failing_runnable_runs_once() {
    let runnable = AlwaysFails { runs: Mutex::new(0) };
    let mut schedule = Schedule::new(Interval::from_secs(10));
    let (actions, fired) = drive(&mut schedule, &runnable, 5);
    assert_eq!(names(&actions), vec!["arm", "run", "fail"]);
    assert_eq!(fired, 1);
    assert_eq!(*runnable.runs.lock().unwrap(), 1);
    assert_eq!(schedule.state(), ScheduleState::Stopped);
    assert!(matches!(schedule.on(ScheduleEvent::TimerFired), ScheduleAction::Nothing));
    assert!(matches!(schedule.on(ScheduleEvent::Started), ScheduleAction::Nothing));
    assert_eq!(schedule.state(), ScheduleState::Stopped);
    assert_eq!(*runnable.runs.lock().unwrap(), 1);
}

#[test]
fn a_poller_is_run_on_every_tick() {
    let log: Log = Arc::new(Mutex::new(Vec::new()));
    let poller = Poller::new(
        Arc::new(vec![input("a", &[1], false, &log)]),
        Arc::new(vec![output("out", None, &log)]),
    );
    let mut schedule = Schedule::new(Interval::from_millis(1500));
    assert_eq!(schedule.interval(), Interval { secs: 1, nanos: 500_000_000 });
    assert_eq!(schedule.state(), ScheduleState::Idle);
    let (actions, fired) = drive(&mut schedule, &poller, 3);
    assert_eq!(names(&actions), vec!["arm", "run", "arm", "run", "arm", "run", "arm"]);
    assert_eq!(fired, 3);
    assert_eq!(schedule.state(), ScheduleState::Waiting);
    assert_eq!(lines(&log).len(), 6);
    match &actions[0] {
        ScheduleAction::ArmTimer(interval) => assert_eq!(*interval, Interval { secs: 1, nanos: 500_000_000 }),
        _ => panic!("the timer is armed first"),
    }
}

#[test]
fn schedule_transitions() {
    let interval = Interval::from_secs(1);
    let mut s = Schedule::new(interval);
    assert!(matches!(s.on(ScheduleEvent::TimerFired), ScheduleAction::Nothing));
    assert_eq!(s.state(), ScheduleState::Idle);
    assert!(matches!(s.on(ScheduleEvent::Started), ScheduleAction::ArmTimer(_)));
    assert!(matches!(s.on(ScheduleEvent::RunSucceeded), ScheduleAction::Nothing));
    assert_eq!(s.state(), ScheduleState::Waiting);
    assert!(matches!(s.on(ScheduleEvent::TimerFired), ScheduleAction::Run));
    assert!(matches!(s.on(ScheduleEvent::TimerFired), ScheduleAction::Nothing));
    assert_eq!(s.state(), ScheduleState::Running);
    assert!(matches!(s.on(ScheduleEvent::Cancelled), ScheduleAction::Stop(Ok(()))));
    assert!(matches!(s.on(ScheduleEvent::RunSucceeded), ScheduleAction::Nothing));
    assert_eq!(s.state(), ScheduleState::Stopped);

    let mut t = Schedule::new(interval);
    t.on(ScheduleEvent::Started);
    let broken = Error::new(ErrorKind::Timer("broken".to_owned()));
    match t.on(ScheduleEvent::TimerFailed(broken.clone())) {
        ScheduleAction::Stop(Err(err)) => assert_eq!(err, broken),
        _ => panic!("a broken timer stops the activity"),
    }
    assert_eq!(t.state(), ScheduleState::Stopped);

    let mut u = Schedule::new(interval);
    assert!(matches!(u.on(ScheduleEvent::Cancelled), ScheduleAction::Stop(Ok(()))));
    assert_eq!(u.state(), ScheduleState::Stopped);
}

#[test]
fn intervals() {
    assert_eq!(Interval::zero(), Interval { secs: 0, nanos: 0 });
    assert_eq!(Interval::from_secs(10), Interval { secs: 10, nanos: 0 });
    assert_eq!(Interval::from_millis(0), Interval { secs: 0, nanos: 0 });
    assert_eq!(Interval::from_millis(999), Interval { secs: 0, nanos: 999_000_000 });
    assert_eq!(Interval::from_millis(61_001), Interval { secs: 61, nanos: 1_000_000 });
}

#[test]
fn the_cursor_of_a_cycle() {
    assert!(matches!(PollCursor::start(0, 3), PollCursor::Done(Ok(()))));
    assert!(matches!(PollCursor::start(3, 0), PollCursor::Done(Ok(()))));
    assert!(matches!(PollCursor::start(2, 2), PollCursor::Polling(0)));

    let c = PollCursor::start(2, 2).step(2, 2, PollCall::Polled(0, Ok(2)));
    assert!(matches!(c, PollCursor::Feeding { input: 0, count: 2, sample: 0, output: 0 }));
    let c = c.step(2, 2, PollCall::Fed(0, 0, 0, Ok(())));
    assert!(matches!(c, PollCursor::Feeding { input: 0, count: 2, sample: 0, output: 1 }));
    let c = c.step(2, 2, PollCall::Fed(0, 0, 1, Ok(())));
    assert!(matches!(c, PollCursor::Feeding { input: 0, count: 2, sample: 1, output: 0 }));
    let c = c.step(2, 2, PollCall::Fed(0, 1, 0, Ok(())));
    let c = c.step(2, 2, PollCall::Fed(0, 1, 1, Ok(())));
    assert!(matches!(c, PollCursor::Polling(1)));
    let c = c.step(2, 2, PollCall::Polled(1, Ok(0)));
    assert!(matches!(c, PollCursor::Done(Ok(()))));
    assert!(matches!(c.step(2, 2, PollCall::Polled(1, Ok(0))), PollCursor::Lost));
}

#[test]
fn the_cursor_stops_at_a_failure() {
    let failed = Error::new(ErrorKind::Message("no".to_owned()));
    let c = PollCursor::start(2, 1).step(2, 1, PollCall::Polled(0, Err(failed.clone())));
    assert!(matches!(c, PollCursor::Done(Err(ref e)) if *e == failed));
    let c = PollCursor::start(2, 2)
        .step(2, 2, PollCall::Polled(0, Ok(1)))
        .step(2, 2, PollCall::Fed(0, 0, 0, Err(failed.clone())));
    assert!(matches!(c, PollCursor::Done(Err(ref e)) if *e == failed));
}

#[test]
fn the_cursor_is_lost_on_a_call_out_of_turn() {
    assert!(matches!(PollCursor::start(2, 1).step(2, 1, PollCall::Polled(1, Ok(0))), PollCursor::Lost));
    assert!(matches!(PollCursor::start(2, 1).step(2, 1, PollCall::Fed(0, 0, 0, Ok(()))), PollCursor::Lost));
    let feeding = PollCursor::start(1, 2).step(1, 2, PollCall::Polled(0, Ok(1)));
    assert!(matches!(feeding.step(1, 2, PollCall::Fed(0, 0, 1, Ok(()))), PollCursor::Lost));
    assert!(matches!(PollCursor::Lost.step(1, 1, PollCall::Polled(0, Ok(0))), PollCursor::Lost));
    let last = PollCursor::Feeding { input: usize::MAX, count: usize::MAX, sample: usize::MAX, output: usize::MAX };
    assert!(matches!(
        last.step(usize::MAX, usize::MAX, PollCall::Fed(usize::MAX, usize::MAX, usize::MAX, Ok(()))),
        PollCursor::Done(Ok(()))
    ));
}

#[test]
fn updater_counts_its_inputs() {
    let log: Log = Arc::new(Mutex::new(Vec::new()));
    assert_eq!(Updater::new(Arc::new(vec![])).len(), 0);
    assert_eq!(Updater::new(Arc::new(vec![input("a", &[], false, &log), input("b", &[], false, &log)])).len(), 2);
}
