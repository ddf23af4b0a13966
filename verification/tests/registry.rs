use metriki_core::Counter;
use metriki_core::Gauge;
use metriki_core::GaugeFn;
use metriki_core::Metric;
use metriki_core::MetricKind;
use metriki_core::MetricsFilter;
use metriki_core::MetricsRegistry;
use metriki_core::MetricsSet;
use metriki_core::NameMap;
use metriki_core::RegistryError;
use metriki_core::SetHandle;
use std::sync::Arc;

struct NameFilter;

impl MetricsFilter for NameFilter {
    fn accept(&self, name: &str, _: &Metric) -> bool {
        name.starts_with("l1")
    }
}

struct OnlyKind(MetricKind);

impl MetricsFilter for OnlyKind {
    fn accept(&self, _: &str, metric: &Metric) -> bool {
        metric.kind() == self.0
    }
}

struct Fixed(i64);

impl GaugeFn for Fixed {
    fn value(&self) -> i64 {
        self.0
    }
}

/// Produces one counter under one name, at a given value.
struct OneCounter {
    name: &'static str,
    value: i64,
}

impl MetricsSet for OneCounter {
    fn get_all(&self) -> NameMap<Metric> {
        let counter = Counter::new();
        counter.inc_by(self.value);
        let mut all = NameMap::new();
        all.insert(self.name.to_owned(), Metric::Counter(Arc::new(counter)));
        all
    }
}

fn counter_value(shown: &NameMap<Metric>, name: &str) -> Option<i64> {
    match shown.get(name) {
        Some(Metric::Counter(c)) => Some(c.value()),
        _ => None,
    }
}

fn meter_count(shown: &NameMap<Metric>, name: &str) -> Option<u64> {
    match shown.get(name) {
        Some(Metric::Meter(m)) => Some(m.count()),
        _ => None,
    }
}

fn gauge_value(shown: &NameMap<Metric>, name: &str) -> Option<i64> {
    match shown.get(name) {
        Some(Metric::Gauge(g)) => Some(g.value()),
        _ => None,
    }
}

#[test]
fn test_metrics_filter() {
    let mut registry = MetricsRegistry::new();

    registry.meter("l1.tomcat.request").unwrap().mark();
    registry.meter("l1.jetty.request").unwrap().mark();
    registry.meter("l2.tomcat.request").unwrap().mark();
    registry.meter("l2.jetty.request").unwrap().mark();

    registry.set_filter(Some(Box::new(NameFilter)));

    let snapshot = registry.snapshots();
    assert_eq!(2, snapshot.len());
}

#[test]
fn filter_keeps_exactly_the_accepted_names() {
    let mut registry = MetricsRegistry::new();
    registry.meter("l1.tomcat.request").unwrap().mark();
    registry.meter("l1.jetty.request").unwrap().mark();
    registry.meter("l2.tomcat.request").unwrap().mark();
    registry.meter("l2.jetty.request").unwrap().mark();
    registry.set_filter(Some(Box::new(NameFilter)));

    let snapshot = registry.snapshots();
    assert_eq!(snapshot.len(), 2);
    assert_eq!(meter_count(&snapshot, "l1.tomcat.request"), Some(1));
    assert_eq!(meter_count(&snapshot, "l1.jetty.request"), Some(1));
    assert!(!snapshot.contains_key("l2.tomcat.request"));
    assert!(!snapshot.contains_key("l2.jetty.request"));
}

#[test]
fn new_registry_is_empty() {
    let registry = MetricsRegistry::new();
    assert!(registry.snapshots().is_empty());
    assert!(registry.get("anything").is_none());
    let shared = MetricsRegistry::arc();
    assert_eq!(shared.snapshots().len(), 0);
}

#[test]
fn same_name_gives_same_meter() {
    let mut registry = MetricsRegistry::new();
    let first = registry.meter("requests").unwrap();
    let second = registry.meter("requests").unwrap();
    assert!(Arc::ptr_eq(&first, &second));
    first.mark();
    second.mark_n(2);
    assert_eq!(first.count(), 3);
    assert_eq!(second.count(), 3);
    assert_eq!(registry.snapshots().len(), 1);
}

#[test]
fn same_name_gives_same_counter() {
    let mut registry = MetricsRegistry::new();
    let first = registry.counter("jobs").unwrap();
    let second = registry.counter("jobs").unwrap();
    assert!(Arc::ptr_eq(&first, &second));
    first.inc();
    first.inc();
    second.dec();
    assert_eq!(first.value(), 1);
    assert_eq!(second.value(), 1);
}

#[test]
fn same_name_gives_same_histogram() {
    let mut registry = MetricsRegistry::new();
    let first = registry.histogram("sizes").unwrap();
    let second = registry.histogram("sizes").unwrap();
    assert!(Arc::ptr_eq(&first, &second));
    first.update(10);
    second.update(32);
    assert_eq!(first.count(), 2);
    assert_eq!(first.sum(), 42);
    assert_eq!(second.max(), 32);
}

#[test]
fn same_name_gives_same_timer() {
    let mut registry = MetricsRegistry::new();
    let first = registry.timer("latency").unwrap();
    let second = registry.timer("latency").unwrap();
    assert!(Arc::ptr_eq(&first, &second));
    first.record(500);
    second.record(700);
    assert_eq!(first.rate().count(), 2);
    assert_eq!(second.latency().sum(), 1200);
    assert_eq!(second.latency().max(), 700);
}

#[test]
fn different_names_give_different_instruments() {
    let mut registry = MetricsRegistry::new();
    let a = registry.meter("a").unwrap();
    let b = registry.meter("b").unwrap();
    assert!(!Arc::ptr_eq(&a, &b));
    a.mark();
    assert_eq!(b.count(), 0);
}

#[test]
fn handle_from_get_is_the_kept_instrument() {
    let mut registry = MetricsRegistry::new();
    let meter = registry.meter("m").unwrap();
    meter.mark();
    match registry.get("m") {
        Some(Metric::Meter(found)) => {
            assert!(Arc::ptr_eq(&found, &meter));
            assert_eq!(found.count(), 1);
        }
        _ => panic!("the meter is not there"),
    }
}

#[test]
fn counter_then_histogram_is_a_kind_mismatch() {
    let mut registry = MetricsRegistry::new();
    let counter = registry.counter("n").unwrap();
    counter.inc();
    assert!(matches!(registry.histogram("n"), Err(RegistryError::KindMismatch)));
    assert!(matches!(registry.meter("n"), Err(RegistryError::KindMismatch)));
    assert!(matches!(registry.timer("n"), Err(RegistryError::KindMismatch)));
    let again = registry.counter("n").unwrap();
    assert!(Arc::ptr_eq(&counter, &again));
    assert_eq!(again.value(), 1);
    assert_eq!(registry.snapshots().len(), 1);
}

#[test]
fn every_other_kind_is_refused() {
    let mut registry = MetricsRegistry::new();
    registry.meter("m").unwrap();
    registry.histogram("h").unwrap();
    registry.timer("t").unwrap();
    registry.gauge("g", Gauge::new(Fixed(1)));
    assert!(matches!(registry.counter("m"), Err(RegistryError::KindMismatch)));
    assert!(matches!(registry.counter("h"), Err(RegistryError::KindMismatch)));
    assert!(matches!(registry.counter("t"), Err(RegistryError::KindMismatch)));
    assert!(matches!(registry.counter("g"), Err(RegistryError::KindMismatch)));
    assert!(matches!(registry.meter("g"), Err(RegistryError::KindMismatch)));
    assert_eq!(registry.snapshots().len(), 4);
}

#[test]
fn second_gauge_replaces_the_first() {
    let mut registry = MetricsRegistry::new();
    registry.gauge("temperature", Gauge::new(Fixed(20)));
    assert_eq!(gauge_value(&registry.snapshots(), "temperature"), Some(20));
    registry.gauge("temperature", Gauge::new(Fixed(25)));
    let snapshot = registry.snapshots();
    assert_eq!(snapshot.len(), 1);
    assert_eq!(gauge_value(&snapshot, "temperature"), Some(25));
}

#[test]
fn gauge_replaces_an_instrument_of_another_kind() {
    let mut registry = MetricsRegistry::new();
    let meter = registry.meter("x").unwrap();
    meter.mark();
    registry.gauge("x", Gauge::new(Fixed(7)));
    let snapshot = registry.snapshots();
    assert_eq!(snapshot.len(), 1);
    assert_eq!(gauge_value(&snapshot, "x"), Some(7));
    assert_eq!(snapshot.get("x").map(|m| m.kind()), Some(MetricKind::Gauge));
    assert_eq!(meter.count(), 1);
}

#[test]
fn without_filter_everything_is_shown() {
    let mut registry = MetricsRegistry::new();
    registry.meter("a").unwrap().mark();
    registry.counter("b").unwrap().inc_by(3);
    registry.register_metrics_set("s1", SetHandle::new(OneCounter { name: "x", value: 5 }));
    registry.register_metrics_set("s2", SetHandle::new(OneCounter { name: "y", value: 6 }));
    registry.set_filter(Some(Box::new(NameFilter)));
    assert_eq!(registry.snapshots().len(), 0);
    registry.set_filter(None);
    let snapshot = registry.snapshots();
    assert_eq!(snapshot.len(), 4);
    assert_eq!(meter_count(&snapshot, "a"), Some(1));
    assert_eq!(counter_value(&snapshot, "b"), Some(3));
    assert_eq!(counter_value(&snapshot, "x"), Some(5));
    assert_eq!(counter_value(&snapshot, "y"), Some(6));
}

#[test]
fn filter_sees_the_metric_too() {
    let mut registry = MetricsRegistry::new();
    registry.meter("a").unwrap();
    registry.counter("b").unwrap();
    registry.register_metrics_set("s", SetHandle::new(OneCounter { name: "x", value: 1 }));
    registry.set_filter(Some(Box::new(OnlyKind(MetricKind::Counter))));
    let snapshot = registry.snapshots();
    assert_eq!(snapshot.len(), 2);
    assert!(snapshot.contains_key("b"));
    assert!(snapshot.contains_key("x"));
    assert!(!snapshot.contains_key("a"));
}

#[test]
fn metrics_set_comes_and_goes() {
    let mut registry = MetricsRegistry::new();
    registry.register_metrics_set("s1", SetHandle::new(OneCounter { name: "x", value: 5 }));
    let snapshot = registry.snapshots();
    assert!(snapshot.contains_key("x"));
    assert_eq!(counter_value(&snapshot, "x"), Some(5));
    assert!(!snapshot.contains_key("s1"));
    registry.unregister_metrics_set("s1");
    let snapshot = registry.snapshots();
    assert!(!snapshot.contains_key("x"));
    assert_eq!(snapshot.len(), 0);
}

#[test]
fn unregistering_an_unknown_name_does_nothing() {
    let mut registry = MetricsRegistry::new();
    registry.register_metrics_set("s1", SetHandle::new(OneCounter { name: "x", value: 5 }));
    registry.unregister_metrics_set("s2");
    registry.unregister_metrics_set("x");
    assert_eq!(counter_value(&registry.snapshots(), "x"), Some(5));
}

#[test]
fn registering_again_replaces_the_set() {
    let mut registry = MetricsRegistry::new();
    registry.register_metrics_set("s1", SetHandle::new(OneCounter { name: "x", value: 5 }));
    registry.register_metrics_set("s1", SetHandle::new(OneCounter { name: "y", value: 9 }));
    let snapshot = registry.snapshots();
    assert_eq!(snapshot.len(), 1);
    assert_eq!(counter_value(&snapshot, "y"), Some(9));
    assert!(!snapshot.contains_key("x"));
}

#[test]
fn a_set_wins_over_a_kept_instrument() {
    let mut registry = MetricsRegistry::new();
    registry.counter("x").unwrap().inc_by(1);
    registry.register_metrics_set("s1", SetHandle::new(OneCounter { name: "x", value: 5 }));
    let snapshot = registry.snapshots();
    assert_eq!(snapshot.len(), 1);
    assert_eq!(counter_value(&snapshot, "x"), Some(5));
    registry.unregister_metrics_set("s1");
    assert_eq!(counter_value(&registry.snapshots(), "x"), Some(1));
}

#[test]
fn the_set_registered_last_wins() {
    let mut registry = MetricsRegistry::new();
    registry.register_metrics_set("first", SetHandle::new(OneCounter { name: "x", value: 1 }));
    registry.register_metrics_set("second", SetHandle::new(OneCounter { name: "x", value: 2 }));
    assert_eq!(counter_value(&registry.snapshots(), "x"), Some(2));
    // Registering "first" again keeps its place in the order: "second" still wins.
    registry.register_metrics_set("first", SetHandle::new(OneCounter { name: "x", value: 3 }));
    assert_eq!(counter_value(&registry.snapshots(), "x"), Some(2));
    // Taken out and registered anew, "first" is the last to come.
    registry.unregister_metrics_set("first");
    registry.register_metrics_set("first", SetHandle::new(OneCounter { name: "x", value: 4 }));
    assert_eq!(counter_value(&registry.snapshots(), "x"), Some(4));
}

#[test]
fn a_rejected_entry_does_not_hide_an_accepted_one() {
    let mut registry = MetricsRegistry::new();
    registry.counter("x").unwrap().inc_by(1);
    registry.register_metrics_set("s", SetHandle::new(GaugeUnder("x")));
    registry.set_filter(Some(Box::new(OnlyKind(MetricKind::Counter))));
    let snapshot = registry.snapshots();
    assert_eq!(snapshot.len(), 1);
    assert_eq!(counter_value(&snapshot, "x"), Some(1));
}

struct GaugeUnder(&'static str);

impl MetricsSet for GaugeUnder {
    fn get_all(&self) -> NameMap<Metric> {
        let mut all = NameMap::new();
        all.insert(self.0.to_owned(), Metric::Gauge(Arc::new(Gauge::new(Fixed(11)))));
        all
    }
}

#[test]
fn a_shared_set_is_asked_at_every_snapshot() {
    let live = Arc::new(Live { hits: Counter::new() });
    let mut registry = MetricsRegistry::new();
    registry.register_metrics_set("live", SetHandle::new(live.clone()));
    assert_eq!(counter_value(&registry.snapshots(), "hits"), Some(0));
    live.hits.inc_by(4);
    assert_eq!(counter_value(&registry.snapshots(), "hits"), Some(4));
}

struct Live {
    hits: Counter,
}

impl MetricsSet for Live {
    fn get_all(&self) -> NameMap<Metric> {
        let now = Counter::new();
        now.inc_by(self.hits.value());
        let mut all = NameMap::new();
        all.insert("hits".to_owned(), Metric::Counter(Arc::new(now)));
        all
    }
}

#[test]
fn a_snapshot_is_detached() {
    let mut registry = MetricsRegistry::new();
    registry.meter("a").unwrap();
    let snapshot = registry.snapshots();
    registry.meter("b").unwrap();
    registry.gauge("a", Gauge::new(Fixed(1)));
    assert_eq!(snapshot.len(), 1);
    assert_eq!(snapshot.get("a").map(|m| m.kind()), Some(MetricKind::Meter));
    assert_eq!(registry.snapshots().len(), 2);
}

#[test]
fn a_snapshot_shares_the_instruments() {
    let mut registry = MetricsRegistry::new();
    let meter = registry.meter("a").unwrap();
    let snapshot = registry.snapshots();
    meter.mark();
    assert_eq!(meter_count(&snapshot, "a"), Some(1));
}

#[test]
fn many_requests_one_instrument() {
    let mut registry = MetricsRegistry::new();
    let mut handles = Vec::new();
    for _ in 0..16 {
        handles.push(registry.meter("new.metric").unwrap());
    }
    for handle in &handles {
        handle.mark();
    }
    assert_eq!(handles[0].count(), 16);
    assert_eq!(meter_count(&registry.snapshots(), "new.metric"), Some(16));
    for handle in &handles {
        assert!(Arc::ptr_eq(handle, &handles[0]));
    }
}

fn layer(entries: &[(&str, i64)]) -> NameMap<Metric> {
    let mut map = NameMap::new();
    for (name, value) in entries {
        let counter = Counter::new();
        counter.inc_by(*value);
        map.insert((*name).to_owned(), Metric::Counter(Arc::new(counter)));
    }
    map
}

#[test]
fn produce_asks_every_set_in_the_order_of_registration() {
    let mut registry = MetricsRegistry::new();
    assert_eq!(registry.produce().len(), 0);
    registry.register_metrics_set("s1", SetHandle::new(OneCounter { name: "x", value: 5 }));
    registry.register_metrics_set("s2", SetHandle::new(OneCounter { name: "y", value: 6 }));
    registry.register_metrics_set("s1", SetHandle::new(OneCounter { name: "z", value: 7 }));
    let produced = registry.produce();
    assert_eq!(produced.len(), 2);
    assert_eq!(produced[0].len(), 1);
    assert_eq!(counter_value(&produced[0], "z"), Some(7));
    assert_eq!(counter_value(&produced[1], "y"), Some(6));
}

#[test]
fn snapshot_of_merges_the_layers_bottom_up() {
    let mut registry = MetricsRegistry::new();
    registry.counter("a").unwrap().inc_by(1);
    registry.counter("b").unwrap().inc_by(2);
    let produced = vec![layer(&[("b", 20), ("c", 30)]), layer(&[("c", 300), ("d", 400)])];
    let shown = registry.snapshot_of(&produced);
    assert_eq!(shown.len(), 4);
    assert_eq!(counter_value(&shown, "a"), Some(1));
    assert_eq!(counter_value(&shown, "b"), Some(20));
    assert_eq!(counter_value(&shown, "c"), Some(300));
    assert_eq!(counter_value(&shown, "d"), Some(400));
    assert_eq!(registry.snapshot_of(&Vec::new()).len(), 2);
}

#[test]
fn snapshot_of_filters_every_layer() {
    let mut registry = MetricsRegistry::new();
    registry.counter("l1.a").unwrap().inc_by(1);
    registry.counter("l2.b").unwrap().inc_by(2);
    registry.set_filter(Some(Box::new(NameFilter)));
    let produced = vec![layer(&[("l1.a", 10), ("l2.c", 30)]), layer(&[("l2.b", 200), ("l1.d", 400)])];
    let shown = registry.snapshot_of(&produced);
    assert_eq!(shown.len(), 2);
    assert_eq!(counter_value(&shown, "l1.a"), Some(10));
    assert_eq!(counter_value(&shown, "l1.d"), Some(400));
}
