//! The health of backends, as probes have found it.

use crate::clock::instant_now;
use std::collections::HashMap;
use std::time::Instant;
use vstd::prelude::*;

verus! {

/// Health status for a single backend.
#[derive(Debug, Clone, Copy)]
pub struct BackendHealth {
    pub available: bool,
    pub latency_ms: u64,
    pub last_checked: Instant,
    pub consecutive_failures: u32,
}

impl Default for BackendHealth {
    fn default() -> (r: Self)
        ensures
            r == assumed_health(r.last_checked),
            call_ensures(instant_now, (), r.last_checked),
    {
        BackendHealth {
            available: true,
            latency_ms: 0,
            last_checked: instant_now(),
            consecutive_failures: 0,
        }
    }
}

/// What is assumed of a backend that was never probed: it is available.
pub open spec fn assumed_health(at: Instant) -> BackendHealth {
    BackendHealth { available: true, latency_ms: 0, last_checked: at, consecutive_failures: 0 }
}

/// Health registry for all backends.
#[derive(Debug)]
pub struct HealthRegistry {
    pub inner: HashMap<usize, BackendHealth>,
}

impl View for HealthRegistry {
    type V = Map<usize, BackendHealth>;

    open spec fn view(&self) -> Map<usize, BackendHealth> {
        self.inner@
    }
}

/// A backend counts as available.
pub open spec fn counts_as_available(m: Map<usize, BackendHealth>, idx: usize) -> bool {
    m.contains_key(idx) ==> m[idx].available
}

/// The latency that is assumed of a backend.
pub open spec fn known_latency(m: Map<usize, BackendHealth>, idx: usize) -> u64 {
    if m.contains_key(idx) {
        m[idx].latency_ms
    } else {
        0
    }
}

impl HealthRegistry {
    /// Nothing has been probed yet.
    pub fn new() -> (r: HealthRegistry)
        ensures
            r@ == Map::<usize, BackendHealth>::empty(),
    {
        HealthRegistry { inner: HashMap::new() }
    }

    /// The health of a backend. One that was never probed is assumed to be
    /// available.
    pub fn get(&self, backend_idx: usize) -> (r: BackendHealth)
        ensures
            if self@.contains_key(backend_idx) {
                r == self@[backend_idx]
            } else {
                r == assumed_health(r.last_checked) && call_ensures(
                    instant_now,
                    (),
                    r.last_checked,
                )
            },
    {
        broadcast use vstd::std_specs::hash::group_hash_axioms;

        match self.inner.get(&backend_idx) {
            Some(h) => *h,
            None => BackendHealth::default(),
        }
    }

    /// Whether a backend is currently considered available.
    pub fn is_available(&self, backend_idx: usize) -> (r: bool)
        ensures
            r == counts_as_available(self@, backend_idx),
    {
        self.get(backend_idx).available
    }

    /// The latency of a backend in milliseconds.
    pub fn latency_ms(&self, backend_idx: usize) -> (r: u64)
        ensures
            r == known_latency(self@, backend_idx),
    {
        self.get(backend_idx).latency_ms
    }

    /// Records the health of a backend.
    pub fn update(&mut self, backend_idx: usize, health: BackendHealth)
        ensures
            final(self)@ == old(self)@.insert(backend_idx, health),
    {
        broadcast use vstd::std_specs::hash::group_hash_axioms;

        self.inner.insert(backend_idx, health);
    }
}

/// The health of a backend after a probe at `at`: `Some` latency in
/// milliseconds if it answered, `None` if it failed. Three failures in a row
/// make it unavailable.
pub open spec fn health_after(h: BackendHealth, answer: Option<u64>, at: Instant) -> BackendHealth {
    match answer {
        Some(latency) => BackendHealth {
            available: true,
            latency_ms: latency,
            last_checked: at,
            consecutive_failures: 0,
        },
        None => {
            let failures = if h.consecutive_failures < u32::MAX {
                (h.consecutive_failures + 1) as u32
            } else {
                h.consecutive_failures
            };
            BackendHealth {
                available: if failures >= 3 {
                    false
                } else {
                    h.available
                },
                latency_ms: h.latency_ms,
                last_checked: at,
                consecutive_failures: failures,
            }
        },
    }
}

/// The health of a backend after a probe at `at`.
pub fn after_probe(h: BackendHealth, answer: Option<u64>, at: Instant) -> (r: BackendHealth)
    ensures
        r == health_after(h, answer, at),
{
    match answer {
        Some(latency) => BackendHealth {
            available: true,
            latency_ms: latency,
            last_checked: at,
            consecutive_failures: 0,
        },
        None => {
            let failures: u32 = if h.consecutive_failures < u32::MAX {
                h.consecutive_failures + 1
            } else {
                h.consecutive_failures
            };
            BackendHealth {
                available: if failures >= 3 {
                    false
                } else {
                    h.available
                },
                latency_ms: h.latency_ms,
                last_checked: at,
                consecutive_failures: failures,
            }
        },
    }
}

/// Records the outcome of a probe of a backend.
pub fn record_probe(registry: &mut HealthRegistry, backend_idx: usize, answer: Option<u64>)
    ensures
        exists|at: Instant| #[trigger]
            call_ensures(instant_now, (), at) && final(registry)@ == old(registry)@.insert(
                backend_idx,
                health_after(
                    if old(registry)@.contains_key(backend_idx) {
                        old(registry)@[backend_idx]
                    } else {
                        assumed_health(at)
                    },
                    answer,
                    at,
                ),
            ),
{
    let known = registry.get(backend_idx);
    let at = instant_now();
    let next = after_probe(known, answer, at);
    registry.update(backend_idx, next);
}

/// A backend is available exactly as long as fewer than three probes in a row
/// have failed.
pub open spec fn health_valid(h: BackendHealth) -> bool {
    h.available <==> h.consecutive_failures < 3
}

/// What is assumed of a backend, and what probes make of it, keeps to that:
/// a backend is available exactly as long as fewer than three probes in a row
/// have failed.
pub proof fn three_failures_make_unavailable(h: BackendHealth, answer: Option<u64>, at: Instant)
    requires
        health_valid(h),
    ensures
        health_valid(assumed_health(at)),
        health_valid(health_after(h, answer, at)),
{
}

/// The latency of a backend is the one that was measured, none if none was.
pub proof fn measured_latency_counts(m: Map<usize, BackendHealth>, idx: usize, h: BackendHealth)
    ensures
        known_latency(m.insert(idx, h), idx) == h.latency_ms,
        known_latency(m.remove(idx), idx) == 0,
{
}

/// An answer makes a backend available, forgets its failures and tells its
/// latency. A failure is counted, the third in a row makes the backend
/// unavailable, and neither of the first two does. Every probe is dated.
pub proof fn answers_and_failures_count(h: BackendHealth, latency: u64, at: Instant)
    ensures
        health_after(h, Some(latency), at) == (BackendHealth {
            available: true,
            latency_ms: latency,
            last_checked: at,
            consecutive_failures: 0,
        }),
        ({
            let r = health_after(h, None, at);
            &&& r.last_checked == at
            &&& r.latency_ms == h.latency_ms
            &&& h.consecutive_failures < u32::MAX ==> r.consecutive_failures
                == h.consecutive_failures + 1
            &&& h.consecutive_failures < 2 ==> r.available == h.available
            &&& h.consecutive_failures >= 2 ==> !r.available
        }),
        assumed_health(at).available && assumed_health(at).consecutive_failures == 0
            && assumed_health(at).latency_ms == 0 && assumed_health(at).last_checked == at,
{
}

/// A backend of which nothing is known counts as available; else what is known of
/// it counts.
pub proof fn unknown_backends_count_as_available(
    m: Map<usize, BackendHealth>,
    idx: usize,
    h: BackendHealth,
)
    ensures
        counts_as_available(m.remove(idx), idx),
        counts_as_available(m.insert(idx, h), idx) == h.available,
{
}

} // verus!
