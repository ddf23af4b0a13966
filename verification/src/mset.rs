use crate::metrics::Metric;
use crate::names::NameMap;
use std::sync::Arc;
use vstd::prelude::*;

verus! {

/// A source of metrics that are made up when a snapshot is taken, rather than kept in
/// the registry.
pub trait MetricsSet: Send + Sync {
    /// The metrics of this moment, by name.
    fn get_all(&self) -> NameMap<Metric>;
}

/// Whether `all` is what the set `set` may give when it is asked for its metrics.
pub open spec fn produces<S: MetricsSet + ?Sized>(set: &S, all: NameMap<Metric>) -> bool {
    call_ensures(S::get_all, (set,), all)
}

/// A set behind an `Arc` is a set: its owner can keep one handle and register another.
/// It gives what the set behind the `Arc` gives.
impl<S: MetricsSet + ?Sized> MetricsSet for Arc<S> {
    fn get_all(&self) -> (r: NameMap<Metric>)
        ensures
            produces::<S>(&**self, r),
    {
        (**self).get_all()
    }
}

/// Asks a set for its metrics.
fn ask<S: MetricsSet + ?Sized>(set: &S) -> (all: NameMap<Metric>)
    ensures
        produces::<S>(set, all),
{
    set.get_all()
}

/// A metrics set as the registry holds it.
pub struct SetHandle {
    set: Box<dyn MetricsSet>,
}

impl SetHandle {
    /// The handle that holds `set`.
    pub closed spec fn holding<S: MetricsSet + 'static>(set: S) -> SetHandle {
        SetHandle { set: Box::new(set) }
    }

    /// Whether `all` is what the set behind the handle may give when it is asked for its
    /// metrics.
    pub closed spec fn gives(&self, all: NameMap<Metric>) -> bool {
        produces::<dyn MetricsSet>(&*self.set, all)
    }

    /// A handle that holds `set`.
    pub fn new<S: MetricsSet + 'static>(set: S) -> (r: SetHandle)
        ensures
            r == SetHandle::holding(set),
    {
        SetHandle { set: Box::new(set) }
    }

    /// Asks the set for its metrics.
    pub fn get_all(&self) -> (all: NameMap<Metric>)
        ensures
            self.gives(all),
    {
        ask::<dyn MetricsSet>(&*self.set)
    }
}

} // verus!
