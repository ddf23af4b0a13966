use metriki_core::Counter;
use metriki_core::Gauge;
use metriki_core::GaugeFn;
use metriki_core::Metric;
use metriki_core::MetricsFilter;
use metriki_core::MetricsRegistry;
use metriki_core::MetricsSet;
use metriki_core::NameMap;
use metriki_core::RegistryError;
use metriki_core::SetHandle;
use metriki_core::SharedRegistry;
use std::sync::Arc;

struct Prefix(&'static str);

impl MetricsFilter for Prefix {
    fn accept(&self, name: &str, _: &Metric) -> bool {
        name.starts_with(self.0)
    }
}

struct Fixed(i64);

impl GaugeFn for Fixed {
    fn value(&self) -> i64 {
        self.0
    }
}

struct Five;

impl MetricsSet for Five {
    fn get_all(&self) -> NameMap<Metric> {
        let c = Counter::new();
        c.inc_by(5);
        let mut all = NameMap::new();
        all.insert("x".to_owned(), Metric::Counter(Arc::new(c)));
        all
    }
}

#[test]
fn shared_registry_hands_out_one_instrument_per_name() {
    let registry = SharedRegistry::new();
    let a = registry.meter("m").unwrap();
    let b = registry.meter("m").unwrap();
    assert!(Arc::ptr_eq(&a, &b));
    assert!(Arc::ptr_eq(&registry.counter("c").unwrap(), &registry.counter("c").unwrap()));
    assert!(Arc::ptr_eq(&registry.histogram("h").unwrap(), &registry.histogram("h").unwrap()));
    assert!(Arc::ptr_eq(&registry.timer("t").unwrap(), &registry.timer("t").unwrap()));
    assert_eq!(registry.snapshots().unwrap().len(), 4);
}

#[test]
fn shared_registry_refuses_another_kind() {
    let registry = SharedRegistry::new();
    registry.counter("n").unwrap();
    assert!(matches!(registry.histogram("n"), Err(RegistryError::KindMismatch)));
    assert!(matches!(registry.meter("n"), Err(RegistryError::KindMismatch)));
    assert!(matches!(registry.timer("n"), Err(RegistryError::KindMismatch)));
    registry.meter("m").unwrap();
    assert!(matches!(registry.counter("m"), Err(RegistryError::KindMismatch)));
}

#[test]
fn shared_registry_takes_over_a_registry() {
    let mut plain = MetricsRegistry::new();
    let meter = plain.meter("m").unwrap();
    let registry = SharedRegistry::sharing(plain);
    assert!(Arc::ptr_eq(&registry.meter("m").unwrap(), &meter));
    assert!(matches!(registry.get("m"), Ok(Some(Metric::Meter(_)))));
    assert!(matches!(registry.get("other"), Ok(None)));
}

#[test]
fn shared_registry_filters_and_merges() {
    let registry = SharedRegistry::new();
    registry.meter("l1.a").unwrap().mark();
    registry.meter("l2.a").unwrap().mark();
    registry.gauge("l1.g", Gauge::new(Fixed(3))).unwrap();
    registry.register_metrics_set("s1", SetHandle::new(Five)).unwrap();
    assert_eq!(registry.snapshots().unwrap().len(), 4);
    registry.set_filter(Some(Box::new(Prefix("l1")))).unwrap();
    let snapshot = registry.snapshots().unwrap();
    assert_eq!(snapshot.len(), 2);
    assert!(snapshot.contains_key("l1.a"));
    assert!(snapshot.contains_key("l1.g"));
    registry.set_filter(None).unwrap();
    registry.unregister_metrics_set("s1").unwrap();
    let snapshot = registry.snapshots().unwrap();
    assert_eq!(snapshot.len(), 3);
    assert!(!snapshot.contains_key("x"));
}

#[test]
fn every_holder_of_the_registry_gets_one_meter() {
    let registry = Arc::new(SharedRegistry::new());
    let callers: u64 = 16;
    let mut handles = Vec::new();
    for _ in 0..callers {
        let holder = registry.clone();
        let meter = holder.meter("new.metric").unwrap();
        meter.mark();
        handles.push(meter);
    }
    for handle in &handles {
        assert!(Arc::ptr_eq(handle, &handles[0]));
    }
    assert_eq!(handles[0].count(), callers);
    assert_eq!(registry.snapshots().unwrap().len(), 1);
}
