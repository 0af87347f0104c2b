use std::collections::hash_map::DefaultHasher;
use std::collections::HashMap;
use std::hash::Hash;
use std::hash::Hasher;
use sysmon::metric::counter::Counter;
use sysmon::metric::gauge::is_nan;
use sysmon::metric::gauge::NAN_BITS;
use sysmon::metric::key;
use sysmon::metric::meter::window_index;
use sysmon::metric::meter::window_minutes;
use sysmon::metric::gauge::Gauge;
use sysmon::metric::meter::Meter;
use sysmon::metric::meter::MeterSnapshot;
use sysmon::metric::MetricId;

fn hash_of(id: &MetricId) -> u64 {
    let mut hasher = DefaultHasher::new();
    id.hash(&mut hasher);
    hasher.finish()
}

#[test]
fn increment_by_1() {
    let mut c: Counter = Counter::new();
    c.inc(1);
    assert!(c.value == 1);
}

#[test]
fn counter_snapshot() {
    let mut c: Counter = Counter::new();

    let s1 = c.snapshot();
    c.inc(1);
    let s2 = c.snapshot();

    assert!(c.value == 1);
    assert!(s1 == 0);
    assert!(s2 == 1);
}

#[test]
fn gauge_snapshot() {
    let mut c: Gauge = Gauge::new();

    let s1 = f64::from_bits(c.snapshot());
    c.set(1f64.to_bits());
    let s2 = f64::from_bits(c.snapshot());

    assert!(f64::is_nan(s1));
    assert!(s2 == 1f64);
}

#[test]
fn zero() {
    let m: Meter = Meter::new();
    let s: MeterSnapshot = m.snapshot();

    assert_eq!(s.count, 0);
}

#[test]
fn non_zero() {
    let mut m: Meter = Meter::new();
    m.mark(3);

    let s: MeterSnapshot = m.snapshot();

    assert_eq!(s.count, 3);
}

#[test]
fn meter_snapshot() {
    let mut m: Meter = Meter::new();
    m.mark(1);
    m.mark(1);

    let s = m.snapshot();
    m.mark(1);

    assert_eq!(s.count, 2);
    assert_eq!(m.snapshot().count, 3);
}

#[test]
fn decay() {
    let mut m: Meter = Meter::new();

    m.tick();
}

#[test]
fn test_metric_id() {
    let m = MetricId::new();
    let m0 = m.build();
    let m2 = m.clone().tags(&[("host", "foobar")]).build();
    let m3 = m.clone().tags(&[("host", "foobar")]).build();

    assert!(m0 != m2, "m = {}, m2 = {}", m0.to_string(), m2.to_string());
    assert!(m3 == m2, "m3 = {}, m2 = {}", m3.to_string(), m2.to_string());

    let mut d: HashMap<MetricId, String> = HashMap::new();
    d.insert(m2, "lol".to_owned());
}

#[test]
fn metric_id_hash_follows_equality() {
    let a = MetricId::new_with_key("system").tag("what", "cpu-used").tag("unit", "%").meaning(&["what"]).build();
    let b = MetricId::new_with_key("system").tag("unit", "%").tag("what", "cpu-used").identity(&["unit"]).build();
    assert!(a == b);
    assert_eq!(hash_of(&a), hash_of(&b));
    let c = MetricId::new_with_key("system").tag("unit", "%").tag("what", "cpu-free").build();
    assert!(a != c);
}

#[test]
fn counter_sums_deltas() {
    let mut c = Counter::new();
    c.inc(5);
    c.dec(7);
    c.inc(-3);
    c.dec(-10);
    assert_eq!(c.snapshot(), 5);
    c.inc(i64::MAX - 5);
    assert_eq!(c.snapshot(), i64::MAX);
    c.clear();
    assert_eq!(c.snapshot(), 0);
    c.dec(i64::MAX);
    c.dec(1);
    assert_eq!(c.snapshot(), i64::MIN);
}

#[test]
fn gauge_keeps_bits() {
    let mut g = Gauge::new();
    assert_eq!(g.snapshot(), NAN_BITS);
    assert_eq!(NAN_BITS, f64::NAN.to_bits());
    assert!(is_nan(g.snapshot()));
    for v in [0.0f64, -0.0, 1.5, -273.15, f64::INFINITY, f64::MIN_POSITIVE, f64::MAX] {
        g.set(v.to_bits());
        assert_eq!(g.snapshot(), v.to_bits());
        assert!(!is_nan(g.snapshot()));
    }
    g.set(0x7ff0_0000_0000_0001);
    assert!(is_nan(g.snapshot()));
    assert!(f64::from_bits(g.snapshot()).is_nan());
    g.set(0xfff8_0000_0000_0000);
    assert!(is_nan(g.snapshot()));
    g.clear();
    assert!(f64::is_nan(f64::from_bits(g.snapshot())));
}

#[test]
fn meter_counts_and_hands_out_events() {
    let mut m = Meter::new();
    assert_eq!(m.count(), 0);
    assert_eq!(m.tick(), [0, 0, 0]);
    m.mark(3);
    m.mark(0);
    m.mark(4);
    assert_eq!(m.count(), 7);
    assert_eq!(m.tick(), [7, 7, 7]);
    assert_eq!(m.tick(), [0, 0, 0]);
    assert_eq!(m.count(), 7);
    m.mark(1);
    assert_eq!(m.tick(), [1, 1, 1]);
    assert_eq!(m.snapshot().count, 8);
    m.mark(5);
    m.mark(-2);
    assert_eq!(m.count(), 11);
    assert_eq!(m.tick(), [3, 3, 3]);
    m.mark(-1);
    assert_eq!(m.count(), 10);
    assert_eq!(m.tick(), [u64::MAX, u64::MAX, u64::MAX]);
    assert!(m.start() > 0);
}

#[test]
fn meter_keeps_rates() {
    let mut m = Meter::new();
    let s = m.snapshot();
    assert_eq!(s.rates, [0, 0, 0]);
    assert_eq!(s.mean, 0);
    assert_eq!(f64::from_bits(m.rate(1)), 0.0);
    m.update_snapshot([1.0f64.to_bits(), 5.0f64.to_bits(), 15.0f64.to_bits()], 0.5f64.to_bits());
    assert_eq!(f64::from_bits(m.rate(1)), 1.0);
    assert_eq!(f64::from_bits(m.rate(5)), 5.0);
    assert_eq!(f64::from_bits(m.rate(15)), 15.0);
    assert_eq!(m.rate(2), 0);
    assert_eq!(m.rate(0), 0);
    assert_eq!(f64::from_bits(m.mean()), 0.5);
    m.mark(2);
    assert_eq!(f64::from_bits(m.snapshot().rates[1]), 5.0);
    assert_eq!(m.snapshot().count, 2);
}

#[test]
fn meter_windows() {
    assert_eq!(window_minutes(0), 1);
    assert_eq!(window_minutes(1), 5);
    assert_eq!(window_minutes(2), 15);
    assert_eq!(window_index(1), Some(0));
    assert_eq!(window_index(5), Some(1));
    assert_eq!(window_index(15), Some(2));
    assert_eq!(window_index(10), None);
}

#[test]
fn metric_id_tags_are_a_set() {
    let a = MetricId::new().tag("b", "2").tag("a", "1").tag("b", "1").tag("a", "1").build();
    assert_eq!(
        a.tags(),
        &vec![
            ("a".to_owned(), "1".to_owned()),
            ("b".to_owned(), "1".to_owned()),
            ("b".to_owned(), "2".to_owned()),
        ]
    );
    let b = MetricId::new().tags(&[("b", "1"), ("b", "2"), ("a", "1")]).build();
    assert!(a == b);
    assert_eq!(hash_of(&a), hash_of(&b));
    let c = MetricId::new().tags(&[("b", "1"), ("b", "2"), ("a", "1"), ("a", "")]).build();
    assert!(a != c);
    let d = MetricId::new().tags(&[("ab", "1"), ("a", "b1"), ("\u{e9}", "x"), ("z", "x"), ("", "x")]).build();
    let names: Vec<&str> = d.tags().iter().map(|t| t.0.as_str()).collect();
    assert_eq!(names, vec!["", "a", "ab", "z", "\u{e9}"]);
}

#[test]
fn metric_id_keys_and_annotations() {
    let base = key("system");
    let a = base.clone().tag("host", "x").build();
    let b = base.clone().key("other").tag("host", "x").build();
    assert!(a != b);
    assert_eq!(a.key(), &Some("system".to_owned()));
    assert_eq!(b.key(), &Some("other".to_owned()));
    assert_eq!(MetricId::new().build().key(), &None);
    assert!(MetricId::new().build() == MetricId::new().build());
    assert!(MetricId::new().build() != MetricId::new_with_key("").build());

    let plain = base.clone().tag("host", "x").build();
    let annotated = base
        .clone()
        .tag("host", "x")
        .identity(&["host", "host"])
        .meaning(&["what", "unit", "what"])
        .resource("disk", "sda")
        .resource("disk", "sda")
        .build();
    assert!(plain == annotated);
    assert_eq!(hash_of(&plain), hash_of(&annotated));
    assert_eq!(annotated.identity(), &vec!["host".to_owned()]);
    assert_eq!(annotated.meaning(), &vec!["what".to_owned(), "unit".to_owned()]);
    assert_eq!(
        annotated.resource(),
        &vec![("disk".to_owned(), "sda".to_owned()), ("disk".to_owned(), "sda".to_owned())]
    );
    assert!(plain.resource().is_empty());
    let copy = annotated.clone();
    assert!(copy == annotated);
    assert_eq!(copy.meaning(), annotated.meaning());
    assert_eq!(base.build().tags().len(), 0);
}
