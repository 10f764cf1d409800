//! Bandwidth measurement and adaptive quality selection.
//!
//! Measurements come from two sources: actual streaming throughput, taken after
//! each stream completes, and probes. There is no periodic probing: bandwidth
//! is only measured when needed.

use crate::clock::{age_secs, instant_now, nanos_of, span_nanos};
use crate::strs::{opt_text, str_eq};
use std::time::{Duration, Instant};
use vstd::prelude::*;

verus! {

/// How many seconds old a measurement can be before it is stale: one hour.
pub const STALE_SECS: u64 = 3600;

/// Conservative bitrate (kbps) when no usable measurement exists.
pub const DEFAULT_BITRATE: u32 = 192;

/// Bandwidth measurement for a single peer.
#[derive(Debug, Clone, Copy)]
pub struct PeerBandwidth {
    /// Measured throughput in kbps.
    pub kbps: u32,
    /// When this measurement was taken.
    pub measured_at: Instant,
    /// How many samples contributed to this value (exponential moving average).
    pub sample_count: u32,
}

/// Bandwidth registry for all peers.
#[derive(Debug)]
pub struct BandwidthTracker {
    pub peers: Vec<(String, PeerBandwidth)>,
}

/// What is known of each peer.
pub open spec fn peer_views(s: Seq<(String, PeerBandwidth)>) -> Seq<(Seq<char>, PeerBandwidth)> {
    s.map_values(|p: (String, PeerBandwidth)| (p.0@, p.1))
}

impl View for BandwidthTracker {
    type V = Seq<(Seq<char>, PeerBandwidth)>;

    open spec fn view(&self) -> Seq<(Seq<char>, PeerBandwidth)> {
        peer_views(self.peers@)
    }
}

/// The measurement of a peer.
pub open spec fn measured(s: Seq<(Seq<char>, PeerBandwidth)>, node_id: Seq<char>) -> Option<
    PeerBandwidth,
>
    decreases s.len(),
{
    if s.len() == 0 {
        None
    } else if s[0].0 == node_id {
        Some(s[0].1)
    } else {
        measured(s.drop_first(), node_id)
    }
}

/// The registry with a measurement of a peer in it.
pub open spec fn with_measured(
    s: Seq<(Seq<char>, PeerBandwidth)>,
    node_id: Seq<char>,
    bw: PeerBandwidth,
) -> Seq<(Seq<char>, PeerBandwidth)>
    decreases s.len(),
{
    if s.len() == 0 {
        seq![(node_id, bw)]
    } else if s[0].0 == node_id {
        s.update(0, (node_id, bw))
    } else {
        seq![s[0]] + with_measured(s.drop_first(), node_id, bw)
    }
}

/// What was recorded of a peer is what is known of it, and what is known of
/// others stays.
pub proof fn record_then_get(
    s: Seq<(Seq<char>, PeerBandwidth)>,
    node_id: Seq<char>,
    bw: PeerBandwidth,
    other: Seq<char>,
)
    ensures
        measured(with_measured(s, node_id, bw), node_id) == Some(bw),
        other != node_id ==> measured(with_measured(s, node_id, bw), other) == measured(s, other),
    decreases s.len(),
{
    let w = with_measured(s, node_id, bw);
    if s.len() == 0 {
        assert(w.drop_first() =~= seq![]);
        assert(measured(w.drop_first(), other) is None);
    } else if s[0].0 == node_id {
        assert(w.drop_first() =~= s.drop_first());
    } else {
        record_then_get(s.drop_first(), node_id, bw, other);
        assert(w.drop_first() =~= with_measured(s.drop_first(), node_id, bw));
    }
}

/// The throughput of a transfer in whole kbps, as far as 32 bits go.
pub open spec fn throughput(bytes: nat, nanos: nat) -> nat
    recommends
        nanos > 0,
{
    let kbps = bytes * 8 * 1000000 / nanos;
    if kbps > u32::MAX {
        u32::MAX as nat
    } else {
        kbps
    }
}

/// The throughput of a transfer of `bytes` in `nanos` nanoseconds, in kbps.
pub fn throughput_kbps(bytes: usize, nanos: u128) -> (r: u32)
    requires
        nanos > 0,
    ensures
        r == throughput(bytes as nat, nanos as nat),
{
    let bits: u128 = bytes as u128 * 8 * 1000000;
    let kbps: u128 = bits / nanos;
    if kbps > u32::MAX as u128 {
        u32::MAX
    } else {
        kbps as u32
    }
}

/// The estimate after a sample: 0.3 of the sample and 0.7 of what was known.
pub open spec fn smoothed(sample: u32, known: u32) -> u32 {
    ((3 * sample + 7 * known) / 10) as u32
}

/// What is known of a peer after a sample that was taken at `at`.
pub open spec fn after_sample(
    known: Option<PeerBandwidth>,
    sample: u32,
    at: Instant,
) -> PeerBandwidth {
    match known {
        Some(bw) => PeerBandwidth {
            kbps: if bw.sample_count > 0 {
                smoothed(sample, bw.kbps)
            } else {
                sample
            },
            measured_at: at,
            sample_count: more_samples(bw.sample_count),
        },
        None => PeerBandwidth { kbps: sample, measured_at: at, sample_count: 1 },
    }
}

/// What is known of a peer after a probe that was made at `at`.
pub open spec fn after_probe(known: Option<PeerBandwidth>, kbps: u32, at: Instant) -> PeerBandwidth {
    PeerBandwidth {
        kbps,
        measured_at: at,
        sample_count: match known {
            Some(bw) => more_samples(bw.sample_count),
            None => 1,
        },
    }
}

/// One more sample, as far as 32 bits go.
pub open spec fn more_samples(n: u32) -> u32 {
    if n < u32::MAX {
        (n + 1) as u32
    } else {
        n
    }
}

fn count_sample(n: u32) -> (r: u32)
    ensures
        r == more_samples(n),
{
    if n < u32::MAX {
        n + 1
    } else {
        n
    }
}

/// A measurement of this age is stale.
pub open spec fn stale(age: u64) -> bool {
    age >= STALE_SECS
}

/// Whether a measurement of this age in seconds is stale; a missing one is.
pub fn is_stale_at(age: Option<u64>) -> (r: bool)
    ensures
        r == match age {
            Some(a) => stale(a),
            None => true,
        },
{
    match age {
        Some(a) => a >= STALE_SECS,
        None => true,
    }
}

/// The bandwidth to choose a quality by: what was measured if it is fresh, the
/// default if it is stale or missing. A measurement comes with its age in
/// seconds.
pub open spec fn usable_kbps(known: Option<(u32, u64)>) -> u32 {
    match known {
        Some((kbps, age)) => if stale(age) {
            DEFAULT_BITRATE
        } else {
            kbps
        },
        None => DEFAULT_BITRATE,
    }
}

/// The bandwidth to choose a quality by, for a measurement with its age in
/// seconds.
pub fn kbps_of_age(known: Option<(u32, u64)>) -> (r: u32)
    ensures
        r == usable_kbps(known),
{
    match known {
        Some((kbps, age)) => if age >= STALE_SECS {
            DEFAULT_BITRATE
        } else {
            kbps
        },
        None => DEFAULT_BITRATE,
    }
}

impl BandwidthTracker {
    /// Nothing has been measured yet.
    pub fn new() -> (r: BandwidthTracker)
        ensures
            r@ == Seq::<(Seq<char>, PeerBandwidth)>::empty(),
    {
        let r = BandwidthTracker { peers: Vec::new() };
        assert(r@ =~= seq![]);
        r
    }

    fn position(&self, node_id: &str) -> (r: Option<usize>)
        ensures
            match r {
                Some(i) => {
                    &&& i < self.peers@.len()
                    &&& self@[i as int].0 == node_id@
                    &&& forall|k: int| 0 <= k < i ==> (#[trigger] self@[k]).0 != node_id@
                },
                None => forall|k: int|
                    0 <= k < self@.len() ==> (#[trigger] self@[k]).0 != node_id@,
            },
    {
        let mut i: usize = 0;
        while i < self.peers.len()
            invariant
                i <= self.peers@.len(),
                forall|k: int| 0 <= k < i ==> (#[trigger] self@[k]).0 != node_id@,
            decreases self.peers@.len() - i,
        {
            assert(self@[i as int] == (self.peers@[i as int].0@, self.peers@[i as int].1));
            if str_eq(self.peers[i].0.as_str(), node_id) {
                return Some(i);
            }
            i += 1;
        }
        None
    }

    /// The measured bandwidth of a peer, if it was ever measured.
    pub fn get(&self, node_id: &str) -> (r: Option<PeerBandwidth>)
        ensures
            r == measured(self@, node_id@),
    {
        match self.position(node_id) {
            Some(i) => {
                proof {
                    lemma_measured(self@, node_id@, i as int);
                    assert(self@[i as int].1 == self.peers@[i as int].1);
                }
                Some(self.peers[i].1)
            },
            None => {
                proof {
                    lemma_not_measured(self@, node_id@);
                }
                None
            },
        }
    }

    fn put(&mut self, node_id: &str, bw: PeerBandwidth)
        ensures
            final(self)@ == with_measured(old(self)@, node_id@, bw),
    {
        let ghost before = self@;
        match self.position(node_id) {
            Some(i) => {
                proof {
                    lemma_with_measured(before, node_id@, bw, i as int);
                }
                let name = node_id.to_owned();
                self.peers[i] = (name, bw);
                assert(self@ =~= before.update(i as int, (node_id@, bw)));
            },
            None => {
                proof {
                    lemma_with_new(before, node_id@, bw);
                }
                let name = node_id.to_owned();
                self.peers.push((name, bw));
                assert(self@ =~= before.push((node_id@, bw)));
            },
        }
    }

    /// The bandwidth to choose a quality by: what was measured if it is fresh,
    /// the default if it is stale or missing.
    pub fn effective_kbps(&self, node_id: &str) -> (r: u32)
        ensures
            match measured(self@, node_id@) {
                Some(bw) => exists|d: Duration| #[trigger]
                    call_ensures(Instant::elapsed, (&bw.measured_at,), d) && r == usable_kbps(
                        Some((bw.kbps, (nanos_of(d) / 1000000000) as u64)),
                    ),
                None => r == DEFAULT_BITRATE,
            },
    {
        match self.get(node_id) {
            Some(bw) => {
                let age = age_secs(&bw.measured_at);
                kbps_of_age(Some((bw.kbps, age)))
            },
            None => kbps_of_age(None),
        }
    }

    /// Whether the measurement of a peer is stale or missing, by its age now.
    pub fn is_stale(&self, node_id: &str) -> (r: bool)
        ensures
            match measured(self@, node_id@) {
                Some(bw) => exists|d: Duration| #[trigger]
                    call_ensures(Instant::elapsed, (&bw.measured_at,), d) && r == stale(
                        (nanos_of(d) / 1000000000) as u64,
                    ),
                None => r,
            },
    {
        match self.get(node_id) {
            Some(bw) => {
                let age = age_secs(&bw.measured_at);
                is_stale_at(Some(age))
            },
            None => is_stale_at(None),
        }
    }

    /// Takes the throughput of a completed stream that ended at `at`. A stream
    /// of less than a millisecond says nothing.
    pub fn update_from_transfer(&mut self, node_id: &str, bytes: usize, nanos: u128, at: Instant)
        ensures
            final(self)@ == if nanos < 1000000 {
                old(self)@
            } else {
                with_measured(
                    old(self)@,
                    node_id@,
                    after_sample(
                        measured(old(self)@, node_id@),
                        throughput(bytes as nat, nanos as nat) as u32,
                        at,
                    ),
                )
            },
    {
        if nanos < 1000000 {
            return;
        }
        let sample = throughput_kbps(bytes, nanos);
        let bw = match self.get(node_id) {
            Some(known) => PeerBandwidth {
                kbps: if known.sample_count > 0 {
                    ((3 * sample as u64 + 7 * known.kbps as u64) / 10) as u32
                } else {
                    sample
                },
                measured_at: at,
                sample_count: count_sample(known.sample_count),
            },
            None => PeerBandwidth { kbps: sample, measured_at: at, sample_count: 1 },
        };
        self.put(node_id, bw);
    }

    /// Takes the throughput of a completed stream (passive measurement), with
    /// an exponential moving average to smooth fluctuations.
    pub fn update_from_stream(&mut self, node_id: &str, bytes: usize, duration: Duration)
        ensures
            nanos_of(duration) < 1000000 ==> final(self)@ == old(self)@,
            nanos_of(duration) >= 1000000 ==> exists|at: Instant| #[trigger]
                call_ensures(instant_now, (), at) && final(self)@ == with_measured(
                    old(self)@,
                    node_id@,
                    after_sample(
                        measured(old(self)@, node_id@),
                        throughput(bytes as nat, nanos_of(duration)) as u32,
                        at,
                    ),
                ),
    {
        let nanos = span_nanos(&duration);
        let at = instant_now();
        self.update_from_transfer(node_id, bytes, nanos, at);
    }

    /// Takes the result of a probe that was made at `at`.
    pub fn update_from_probe_at(&mut self, node_id: &str, kbps: u32, at: Instant)
        ensures
            final(self)@ == with_measured(
                old(self)@,
                node_id@,
                after_probe(measured(old(self)@, node_id@), kbps, at),
            ),
    {
        let n: u32 = match self.get(node_id) {
            Some(known) => count_sample(known.sample_count),
            None => 1,
        };
        self.put(node_id, PeerBandwidth { kbps, measured_at: at, sample_count: n });
    }

    /// Sets the bandwidth from an active probe.
    pub fn update_from_probe(&mut self, node_id: &str, kbps: u32)
        ensures
            exists|at: Instant| #[trigger]
                call_ensures(instant_now, (), at) && final(self)@ == with_measured(
                    old(self)@,
                    node_id@,
                    after_probe(measured(old(self)@, node_id@), kbps, at),
                ),
    {
        let at = instant_now();
        self.update_from_probe_at(node_id, kbps, at);
    }
}

proof fn lemma_measured(s: Seq<(Seq<char>, PeerBandwidth)>, node_id: Seq<char>, i: int)
    requires
        0 <= i < s.len(),
        s[i].0 == node_id,
        forall|k: int| 0 <= k < i ==> (#[trigger] s[k]).0 != node_id,
    ensures
        measured(s, node_id) == Some(s[i].1),
    decreases s.len(),
{
    if i > 0 {
        assert(s[0].0 != node_id);
        let t = s.drop_first();
        assert forall|k: int| 0 <= k < i - 1 implies (#[trigger] t[k]).0 != node_id by {
            assert(t[k] == s[k + 1]);
        }
        lemma_measured(t, node_id, i - 1);
    }
}

proof fn lemma_not_measured(s: Seq<(Seq<char>, PeerBandwidth)>, node_id: Seq<char>)
    requires
        forall|k: int| 0 <= k < s.len() ==> (#[trigger] s[k]).0 != node_id,
    ensures
        measured(s, node_id) is None,
    decreases s.len(),
{
    if s.len() > 0 {
        assert(s[0].0 != node_id);
        let t = s.drop_first();
        assert forall|k: int| 0 <= k < t.len() implies (#[trigger] t[k]).0 != node_id by {
            assert(t[k] == s[k + 1]);
        }
        lemma_not_measured(t, node_id);
    }
}

proof fn lemma_with_measured(
    s: Seq<(Seq<char>, PeerBandwidth)>,
    node_id: Seq<char>,
    bw: PeerBandwidth,
    i: int,
)
    requires
        0 <= i < s.len(),
        s[i].0 == node_id,
        forall|k: int| 0 <= k < i ==> (#[trigger] s[k]).0 != node_id,
    ensures
        with_measured(s, node_id, bw) == s.update(i, (node_id, bw)),
    decreases s.len(),
{
    if i > 0 {
        assert(s[0].0 != node_id);
        let t = s.drop_first();
        assert forall|k: int| 0 <= k < i - 1 implies (#[trigger] t[k]).0 != node_id by {
            assert(t[k] == s[k + 1]);
        }
        lemma_with_measured(t, node_id, bw, i - 1);
        assert(seq![s[0]] + t.update(i - 1, (node_id, bw)) =~= s.update(i, (node_id, bw)));
    }
}

proof fn lemma_with_new(
    s: Seq<(Seq<char>, PeerBandwidth)>,
    node_id: Seq<char>,
    bw: PeerBandwidth,
)
    requires
        forall|k: int| 0 <= k < s.len() ==> (#[trigger] s[k]).0 != node_id,
    ensures
        with_measured(s, node_id, bw) == s.push((node_id, bw)),
    decreases s.len(),
{
    if s.len() > 0 {
        assert(s[0].0 != node_id);
        let t = s.drop_first();
        assert forall|k: int| 0 <= k < t.len() implies (#[trigger] t[k]).0 != node_id by {
            assert(t[k] == s[k + 1]);
        }
        lemma_with_new(t, node_id, bw);
        assert(seq![s[0]] + t.push((node_id, bw)) =~= s.push((node_id, bw)));
    } else {
        assert(s.push((node_id, bw)) =~= seq![(node_id, bw)]);
    }
}

// ── Laws of measuring ───────────────────────────────────────────

/// A peer that was probed is known by what the probe found, counts one more
/// sample, and is not stale as long as less than an hour has passed; what is
/// known of other peers stays.
pub proof fn probed_peers_are_fresh(
    s: Seq<(Seq<char>, PeerBandwidth)>,
    node_id: Seq<char>,
    kbps: u32,
    at: Instant,
    passed: Duration,
    other: Seq<char>,
)
    requires
        nanos_of(passed) < STALE_SECS * 1000000000,
    ensures
        ({
            let t = with_measured(s, node_id, after_probe(measured(s, node_id), kbps, at));
            let age = (nanos_of(passed) / 1000000000) as u64;
            &&& measured(t, node_id) matches Some(bw) && bw.kbps == kbps && bw.measured_at == at
                && bw.sample_count == match measured(s, node_id) {
                Some(before) => more_samples(before.sample_count),
                None => 1,
            }
            &&& !stale(age)
            &&& usable_kbps(Some((kbps, age))) == kbps
            &&& other != node_id ==> measured(t, other) == measured(s, other)
        }),
{
    record_then_get(s, node_id, after_probe(measured(s, node_id), kbps, at), other);
}

/// Something that a tracker learns: the throughput of a completed stream, or
/// the result of a probe.
pub enum Reading {
    Stream { node: Seq<char>, bytes: nat, nanos: nat, at: Instant },
    Probe { node: Seq<char>, kbps: u32, at: Instant },
}

/// The registry after a reading.
pub open spec fn after_reading(s: Seq<(Seq<char>, PeerBandwidth)>, x: Reading) -> Seq<
    (Seq<char>, PeerBandwidth),
> {
    match x {
        Reading::Stream { node, bytes, nanos, at } => if nanos < 1000000 {
            s
        } else {
            with_measured(
                s,
                node,
                after_sample(measured(s, node), throughput(bytes, nanos) as u32, at),
            )
        },
        Reading::Probe { node, kbps, at } => with_measured(
            s,
            node,
            after_probe(measured(s, node), kbps, at),
        ),
    }
}

/// The registry after readings, from an empty one on.
pub open spec fn after_readings(xs: Seq<Reading>) -> Seq<(Seq<char>, PeerBandwidth)>
    decreases xs.len(),
{
    if xs.len() == 0 {
        seq![]
    } else {
        after_reading(after_readings(xs.drop_last()), xs.last())
    }
}

/// A reading counts for a node: a probe of it, or a stream from it of a
/// millisecond or longer.
pub open spec fn counts_for(x: Reading, node_id: Seq<char>) -> bool {
    match x {
        Reading::Stream { node, nanos, .. } => node == node_id && nanos >= 1000000,
        Reading::Probe { node, .. } => node == node_id,
    }
}

/// How many readings count for a node.
pub open spec fn readings_for(xs: Seq<Reading>, node_id: Seq<char>) -> nat
    decreases xs.len(),
{
    if xs.len() == 0 {
        0
    } else {
        readings_for(xs.drop_last(), node_id) + if counts_for(xs.last(), node_id) {
            1nat
        } else {
            0
        }
    }
}

/// After any sequence of readings exactly the nodes that a reading counts for
/// are known, each with the number of its readings as its sample count, as far
/// as 32 bits go.
pub proof fn samples_are_counted(xs: Seq<Reading>, node_id: Seq<char>)
    ensures
        match measured(after_readings(xs), node_id) {
            Some(bw) => {
                &&& readings_for(xs, node_id) > 0
                &&& bw.sample_count == if readings_for(xs, node_id) < u32::MAX {
                    readings_for(xs, node_id)
                } else {
                    u32::MAX as nat
                }
            },
            None => readings_for(xs, node_id) == 0,
        },
    decreases xs.len(),
{
    if xs.len() > 0 {
        let s = after_readings(xs.drop_last());
        samples_are_counted(xs.drop_last(), node_id);
        match xs.last() {
            Reading::Stream { node, bytes, nanos, at } => {
                record_then_get(
                    s,
                    node,
                    after_sample(measured(s, node), throughput(bytes, nanos) as u32, at),
                    node_id,
                );
            },
            Reading::Probe { node, kbps, at } => {
                record_then_get(s, node, after_probe(measured(s, node), kbps, at), node_id);
            },
        }
    }
}

// ── Quality selection ───────────────────────────────────────────

/// A stream's quality: the bitrate and the format, nothing for the original.
pub struct Quality {
    pub bitrate: Option<u32>,
    pub format: Option<Seq<char>>,
}

/// The bitrate and format that a measured bandwidth allows; zero and "raw" for
/// the original.
pub open spec fn affordable(kbps: u32) -> (u32, Seq<char>) {
    if kbps <= 80 {
        (64, "opus"@)
    } else if kbps <= 150 {
        (128, "mp3"@)
    } else if kbps <= 300 {
        (192, "mp3"@)
    } else if kbps <= 600 {
        (320, "mp3"@)
    } else {
        (0, "raw"@)
    }
}

/// `bitrate`, no higher than `cap` if there is one; zero means no limit in
/// both places.
pub open spec fn capped(bitrate: u32, cap: u32) -> u32 {
    if cap == 0 {
        bitrate
    } else if bitrate == 0 || bitrate > cap {
        cap
    } else {
        bitrate
    }
}

/// The quality that sender and receiver agree on. A receiver's fixed preference
/// comes first, under the sender's cap; otherwise the bandwidth decides.
pub open spec fn agreed_quality(
    measured_kbps: u32,
    sender_max_bitrate: u32,
    sender_format: Seq<char>,
    receiver_preferred: u32,
    receiver_format: Seq<char>,
) -> Quality {
    if receiver_preferred > 0 {
        Quality {
            bitrate: Some(capped(receiver_preferred, sender_max_bitrate)),
            format: Some(
                if receiver_format != "auto"@ {
                    receiver_format
                } else if sender_format != "raw"@ {
                    sender_format
                } else {
                    "mp3"@
                },
            ),
        }
    } else {
        let (b, f) = affordable(measured_kbps);
        let bitrate = capped(b, sender_max_bitrate);
        let format = if f == "raw"@ && sender_format != "raw"@ {
            sender_format
        } else {
            f
        };
        if bitrate == 0 && format == "raw"@ {
            Quality { bitrate: None, format: None }
        } else {
            Quality { bitrate: Some(bitrate), format: Some(format) }
        }
    }
}

fn cap_bitrate(bitrate: u32, cap: u32) -> (r: u32)
    ensures
        r == capped(bitrate, cap),
{
    if cap == 0 {
        bitrate
    } else if bitrate == 0 || bitrate > cap {
        cap
    } else {
        bitrate
    }
}

/// Selects the streaming quality based on measured bandwidth and configuration
/// limits: `sender_max_bitrate` 0 is no limit, `sender_format` "raw" is the
/// original, `receiver_preferred` 0 is automatic, `receiver_format` "auto"
/// accepts whatever.
pub fn select_quality(
    measured_kbps: u32,
    sender_max_bitrate: u32,
    sender_format: &str,
    receiver_preferred: u32,
    receiver_format: &str,
) -> (r: (Option<u32>, Option<String>))
    ensures
        ({
            let q = agreed_quality(
                measured_kbps,
                sender_max_bitrate,
                sender_format@,
                receiver_preferred,
                receiver_format@,
            );
            r.0 == q.bitrate && opt_text(r.1) == q.format
        }),
{
    if receiver_preferred > 0 {
        let bitrate = cap_bitrate(receiver_preferred, sender_max_bitrate);
        let format = if !str_eq(receiver_format, "auto") {
            receiver_format
        } else if !str_eq(sender_format, "raw") {
            sender_format
        } else {
            "mp3"
        };
        return (Some(bitrate), Some(format.to_owned()));
    }
    let (b, f): (u32, &str) = if measured_kbps <= 80 {
        (64, "opus")
    } else if measured_kbps <= 150 {
        (128, "mp3")
    } else if measured_kbps <= 300 {
        (192, "mp3")
    } else if measured_kbps <= 600 {
        (320, "mp3")
    } else {
        (0, "raw")
    };
    let bitrate = cap_bitrate(b, sender_max_bitrate);
    let format = if str_eq(f, "raw") && !str_eq(sender_format, "raw") {
        sender_format
    } else {
        f
    };
    if bitrate == 0 && str_eq(format, "raw") {
        (None, None)
    } else {
        (Some(bitrate), Some(format.to_owned()))
    }
}

/// A sender's cap is never exceeded.
pub proof fn sender_cap_holds(
    measured_kbps: u32,
    cap: u32,
    sender_format: Seq<char>,
    receiver_preferred: u32,
    receiver_format: Seq<char>,
)
    requires
        cap > 0,
    ensures
        agreed_quality(
            measured_kbps,
            cap,
            sender_format,
            receiver_preferred,
            receiver_format,
        ).bitrate matches Some(b) && 0 < b <= cap,
{
}

// ── Laws of measured bandwidth and quality ──────────────────────

/// A bandwidth is the whole number of kilobits per second that were carried, at
/// most the largest that is representable.
pub proof fn throughput_is_kilobits_per_second(bytes: nat, nanos: nat, kbps: nat)
    requires
        nanos > 0,
        kbps * nanos <= bytes * 8 * 1000000 < (kbps + 1) * nanos,
    ensures
        throughput(bytes, nanos) == if kbps <= u32::MAX {
            kbps
        } else {
            u32::MAX as nat
        },
{
    let bits = (bytes * 8 * 1000000) as int;
    assert(bits / (nanos as int) == kbps) by (nonlinear_arith)
        requires
            nanos > 0,
            kbps * nanos <= bits < (kbps + 1) * nanos,
    ;
}

/// The first sample of a peer counts as it is; a later one counts three tenths,
/// what was known seven. Each is counted and dated.
pub proof fn samples_are_smoothed(known: PeerBandwidth, sample: u32, at: Instant)
    ensures
        after_sample(None, sample, at) == (PeerBandwidth {
            kbps: sample,
            measured_at: at,
            sample_count: 1,
        }),
        ({
            let r = after_sample(Some(known), sample, at);
            &&& r.measured_at == at
            &&& known.sample_count == 0 ==> r.kbps == sample
            &&& known.sample_count > 0 ==> 10 * r.kbps <= 3 * sample + 7 * known.kbps < 10 * r.kbps
                + 10
            &&& known.sample_count < u32::MAX ==> r.sample_count == known.sample_count + 1
        }),
{
}

/// A measurement is used for an hour; after that, and without one, 192 kilobits
/// per second are supposed.
pub proof fn measurements_are_used_for_an_hour(kbps: u32, age: u64)
    ensures
        age < 3600 ==> usable_kbps(Some((kbps, age))) == kbps,
        age >= 3600 ==> usable_kbps(Some((kbps, age))) == 192,
        usable_kbps(None) == 192,
        stale(age) <==> age >= 3600,
{
}

/// What a bandwidth affords: opus at 64 up to 80 kilobits per second, mp3 at 128
/// up to 150, at 192 up to 300, at 320 up to 600, and the original above.
pub proof fn bandwidth_affords_quality(kbps: u32)
    ensures
        kbps <= 80 ==> affordable(kbps) == (64u32, "opus"@),
        80 < kbps <= 150 ==> affordable(kbps) == (128u32, "mp3"@),
        150 < kbps <= 300 ==> affordable(kbps) == (192u32, "mp3"@),
        300 < kbps <= 600 ==> affordable(kbps) == (320u32, "mp3"@),
        600 < kbps ==> affordable(kbps) == (0u32, "raw"@),
{
}

/// A cap bounds every bitrate, the unbounded one too; no cap bounds none.
pub proof fn caps_bound_bitrates(bitrate: u32, cap: u32)
    ensures
        capped(bitrate, 0) == bitrate,
        cap > 0 && 0 < bitrate <= cap ==> capped(bitrate, cap) == bitrate,
        cap > 0 && (bitrate == 0 || bitrate > cap) ==> capped(bitrate, cap) == cap,
{
}

/// The receiver's wish goes before what the bandwidth affords, the sender's cap
/// before both; the receiver's format goes before the sender's.
pub proof fn wishes_and_caps_make_the_quality(
    kbps: u32,
    cap: u32,
    sender_format: Seq<char>,
    wish: u32,
    receiver_format: Seq<char>,
)
    ensures
        wish > 0 ==> agreed_quality(kbps, cap, sender_format, wish, receiver_format).bitrate == Some(
            capped(wish, cap),
        ),
        wish > 0 && receiver_format != "auto"@ ==> agreed_quality(
            kbps,
            cap,
            sender_format,
            wish,
            receiver_format,
        ).format == Some(receiver_format),
        wish > 0 && receiver_format == "auto"@ && sender_format != "raw"@ ==> agreed_quality(
            kbps,
            cap,
            sender_format,
            wish,
            receiver_format,
        ).format == Some(sender_format),
        wish > 0 && receiver_format == "auto"@ && sender_format == "raw"@ ==> agreed_quality(
            kbps,
            cap,
            sender_format,
            wish,
            receiver_format,
        ).format == Some("mp3"@),
        kbps <= 600 ==> agreed_quality(kbps, cap, sender_format, 0, receiver_format) == (Quality {
            bitrate: Some(capped(affordable(kbps).0, cap)),
            format: Some(affordable(kbps).1),
        }),
        kbps > 600 && sender_format != "raw"@ ==> agreed_quality(
            kbps,
            cap,
            sender_format,
            0,
            receiver_format,
        ) == (Quality { bitrate: Some(cap), format: Some(sender_format) }),
        kbps > 600 && sender_format == "raw"@ && cap > 0 ==> agreed_quality(
            kbps,
            cap,
            sender_format,
            0,
            receiver_format,
        ) == (Quality { bitrate: Some(cap), format: Some("raw"@) }),
        kbps > 600 && sender_format == "raw"@ && cap == 0 ==> agreed_quality(
            kbps,
            cap,
            sender_format,
            0,
            receiver_format,
        ) == (Quality { bitrate: None, format: None }),
{
    reveal_strlit("opus");
    reveal_strlit("mp3");
    reveal_strlit("raw");
    assert("opus"@.len() == 4 && "mp3"@.len() == 3 && "raw"@.len() == 3);
    assert("mp3"@[0] != "raw"@[0]);
}

} // verus!
