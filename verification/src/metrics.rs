use std::sync::atomic::AtomicI64;
use std::sync::atomic::AtomicU64;
use std::sync::atomic::Ordering;
use std::sync::Arc;
use vstd::prelude::*;

verus! {

/// A number that goes up and down. Every handle to one counter sees the same number.
pub struct Counter {
    value: AtomicI64,
}

impl Counter {
    /// Whether the counter was made at zero: its number is what `AtomicI64::new` makes
    /// of zero.
    pub closed spec fn starts_at_zero(&self) -> bool {
        call_ensures(AtomicI64::new, (0i64,), self.value)
    }

    /// Whether `n` is what reading the counter's number may give.
    pub closed spec fn reads(&self, n: i64) -> bool {
        call_ensures(AtomicI64::load, (&self.value, Ordering::Relaxed), n)
    }

    /// A counter at zero.
    pub fn new() -> (r: Counter)
        ensures
            r.starts_at_zero(),
    {
        Counter { value: AtomicI64::new(0) }
    }

    pub fn inc(&self) {
        self.value.fetch_add(1, Ordering::Relaxed);
    }

    pub fn dec(&self) {
        self.value.fetch_sub(1, Ordering::Relaxed);
    }

    /// Adds `n`, which may be negative. The number wraps around at the ends of `i64`.
    pub fn inc_by(&self, n: i64) {
        self.value.fetch_add(n, Ordering::Relaxed);
    }

    /// The number as it is read now.
    pub fn value(&self) -> (n: i64)
        ensures
            self.reads(n),
    {
        self.value.load(Ordering::Relaxed)
    }
}

/// Counts the occurrences of an event.
pub struct Meter {
    count: AtomicU64,
}

impl Meter {
    /// Whether the meter was made at zero: its count is what `AtomicU64::new` makes of
    /// zero.
    pub closed spec fn starts_at_zero(&self) -> bool {
        call_ensures(AtomicU64::new, (0u64,), self.count)
    }

    /// Whether `n` is what reading the meter's count may give.
    pub closed spec fn reads(&self, n: u64) -> bool {
        call_ensures(AtomicU64::load, (&self.count, Ordering::Relaxed), n)
    }

    /// A meter that has seen no event.
    pub fn new() -> (r: Meter)
        ensures
            r.starts_at_zero(),
    {
        Meter { count: AtomicU64::new(0) }
    }

    /// Records one event.
    pub fn mark(&self) {
        self.count.fetch_add(1, Ordering::Relaxed);
    }

    /// Records `n` events.
    pub fn mark_n(&self, n: u64) {
        self.count.fetch_add(n, Ordering::Relaxed);
    }

    /// The events recorded so far, as the count is read now.
    pub fn count(&self) -> (n: u64)
        ensures
            self.reads(n),
    {
        self.count.load(Ordering::Relaxed)
    }
}

/// Summarises a series of values by their number, sum and largest member.
pub struct Histogram {
    count: AtomicU64,
    sum: AtomicU64,
    max: AtomicU64,
}

impl Histogram {
    /// Whether the histogram was made at zero: its number, sum and largest member are
    /// what `AtomicU64::new` makes of zero.
    pub closed spec fn starts_at_zero(&self) -> bool {
        &&& call_ensures(AtomicU64::new, (0u64,), self.count)
        &&& call_ensures(AtomicU64::new, (0u64,), self.sum)
        &&& call_ensures(AtomicU64::new, (0u64,), self.max)
    }

    /// Whether `n` is what reading the number of values may give.
    pub closed spec fn reads_count(&self, n: u64) -> bool {
        call_ensures(AtomicU64::load, (&self.count, Ordering::Relaxed), n)
    }

    /// Whether `n` is what reading the sum of the values may give.
    pub closed spec fn reads_sum(&self, n: u64) -> bool {
        call_ensures(AtomicU64::load, (&self.sum, Ordering::Relaxed), n)
    }

    /// Whether `n` is what reading the largest value may give.
    pub closed spec fn reads_max(&self, n: u64) -> bool {
        call_ensures(AtomicU64::load, (&self.max, Ordering::Relaxed), n)
    }

    /// A histogram of no values.
    pub fn new() -> (r: Histogram)
        ensures
            r.starts_at_zero(),
    {
        Histogram { count: AtomicU64::new(0), sum: AtomicU64::new(0), max: AtomicU64::new(0) }
    }

    /// Takes one more value into the series.
    pub fn update(&self, value: u64) {
        self.count.fetch_add(1, Ordering::Relaxed);
        self.sum.fetch_add(value, Ordering::Relaxed);
        self.max.fetch_max(value, Ordering::Relaxed);
    }

    /// The number of values, as it is read now.
    pub fn count(&self) -> (n: u64)
        ensures
            self.reads_count(n),
    {
        self.count.load(Ordering::Relaxed)
    }

    /// The sum of the values, wrapped around at the end of `u64`, as it is read now.
    pub fn sum(&self) -> (n: u64)
        ensures
            self.reads_sum(n),
    {
        self.sum.load(Ordering::Relaxed)
    }

    /// The largest value, or zero where there is none, as it is read now.
    pub fn max(&self) -> (n: u64)
        ensures
            self.reads_max(n),
    {
        self.max.load(Ordering::Relaxed)
    }
}

/// A meter and a histogram for one event: how often it happens and how long it takes.
pub struct Timer {
    rate: Meter,
    latency: Histogram,
}

impl Timer {
    /// A timer that has recorded nothing: its meter and its histogram are made at zero.
    pub fn new() -> (r: Timer)
        ensures
            r.meter().starts_at_zero(),
            r.histogram().starts_at_zero(),
    {
        Timer { rate: Meter::new(), latency: Histogram::new() }
    }

    /// Records one occurrence that took `nanos` nanoseconds.
    pub fn record(&self, nanos: u64) {
        self.rate.mark();
        self.latency.update(nanos);
    }

    /// The meter that counts the occurrences.
    pub closed spec fn meter(&self) -> Meter {
        self.rate
    }

    /// The histogram of the times taken.
    pub closed spec fn histogram(&self) -> Histogram {
        self.latency
    }

    pub fn rate(&self) -> (r: &Meter)
        ensures
            *r == self.meter(),
    {
        &self.rate
    }

    pub fn latency(&self) -> (r: &Histogram)
        ensures
            *r == self.histogram(),
    {
        &self.latency
    }
}

/// What a gauge reads its value from. The registry never calls it; a reader of the gauge
/// does.
pub trait GaugeFn: Send + Sync {
    fn value(&self) -> i64;
}

/// Whether `n` is what the value function `func` may give when it is asked.
pub open spec fn gives<F: GaugeFn + ?Sized>(func: &F, n: i64) -> bool {
    call_ensures(F::value, (func,), n)
}

/// Asks a value function.
fn ask<F: GaugeFn + ?Sized>(func: &F) -> (n: i64)
    ensures
        gives::<F>(func, n),
{
    func.value()
}

/// A value that is computed whenever somebody asks for it.
pub struct Gauge {
    func: Box<dyn GaugeFn>,
}

impl Gauge {
    /// The gauge that reads its value from `func`.
    pub closed spec fn reading<F: GaugeFn + 'static>(func: F) -> Gauge {
        Gauge { func: Box::new(func) }
    }

    /// Whether `n` is what the value function may give when it is asked.
    pub closed spec fn reads(&self, n: i64) -> bool {
        gives::<dyn GaugeFn>(&*self.func, n)
    }

    /// A gauge that reads its value from `func`.
    pub fn new<F: GaugeFn + 'static>(func: F) -> (r: Gauge)
        ensures
            r == Gauge::reading(func),
    {
        Gauge { func: Box::new(func) }
    }

    /// Asks the value function.
    pub fn value(&self) -> (n: i64)
        ensures
            self.reads(n),
    {
        ask::<dyn GaugeFn>(&*self.func)
    }
}

/// The five kinds of instrument.
#[derive(Clone, Copy, Debug, PartialEq, Eq, Structural)]
pub enum MetricKind {
    Counter,
    Meter,
    Histogram,
    Timer,
    Gauge,
}

/// A handle to an instrument of one of the five kinds. Cloning a `Metric` clones the
/// handle: both then stand for the same instrument.
pub enum Metric {
    Counter(Arc<Counter>),
    Meter(Arc<Meter>),
    Histogram(Arc<Histogram>),
    Timer(Arc<Timer>),
    Gauge(Arc<Gauge>),
}

impl Metric {
    pub open spec fn spec_kind(&self) -> MetricKind {
        match self {
            Metric::Counter(_) => MetricKind::Counter,
            Metric::Meter(_) => MetricKind::Meter,
            Metric::Histogram(_) => MetricKind::Histogram,
            Metric::Timer(_) => MetricKind::Timer,
            Metric::Gauge(_) => MetricKind::Gauge,
        }
    }

    /// The kind of the instrument behind the handle.
    #[verifier::when_used_as_spec(spec_kind)]
    pub fn kind(&self) -> (k: MetricKind)
        ensures
            k == self.spec_kind(),
    {
        match self {
            Metric::Counter(_) => MetricKind::Counter,
            Metric::Meter(_) => MetricKind::Meter,
            Metric::Histogram(_) => MetricKind::Histogram,
            Metric::Timer(_) => MetricKind::Timer,
            Metric::Gauge(_) => MetricKind::Gauge,
        }
    }
}

impl Clone for Metric {
    fn clone(&self) -> (r: Metric)
        ensures
            r == *self,
    {
        match self {
            Metric::Counter(c) => Metric::Counter(c.clone()),
            Metric::Meter(m) => Metric::Meter(m.clone()),
            Metric::Histogram(h) => Metric::Histogram(h.clone()),
            Metric::Timer(t) => Metric::Timer(t.clone()),
            Metric::Gauge(g) => Metric::Gauge(g.clone()),
        }
    }
}

} // verus!
