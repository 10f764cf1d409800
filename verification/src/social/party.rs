//! Party mode: synchronized group playback.
//!
//! One host controls playback; followers track the host's state with the help
//! of heartbeats and an estimate of how far the host's clock is ahead.
//!
//! Sessions live in memory only: a live listening feature need not survive
//! restarts.

pub use crate::clock::now_ms;
use crate::codec::{hex_digit, hex_encode, hex_text};
use crate::json::{Number, NumberView};
use crate::natural::Natural;
use crate::random::{bytes_drawn, draw_bytes};
use crate::seqs::lemma_filter_end;
use crate::social::protocol::{
    clone_track, opt_track, zero_secs, PartyPlaybackState, PartyTrack, PartyTrackView,
};
use crate::sorting::{keeping_is_filtering, kept, lemma_kept_from, lemma_kept_order};
use crate::strs::{ascii_lower, chars_of, lower_ascii, opt_text, str_eq, substring, views};
use std::collections::VecDeque;
use vstd::prelude::*;

verus! {

// ── Session identifiers ─────────────────────────────────────────

/// Random bytes with the version and the variant of a random UUID put in.
pub open spec fn uuid_bytes(b: Seq<u8>) -> Seq<u8> {
    b.update(6, (b[6] % 16 + 64) as u8).update(8, (b[8] % 64 + 128) as u8)
}

/// A UUID as text: hexadecimal in groups of 8, 4, 4, 4 and 12 digits.
pub open spec fn uuid_text(b: Seq<u8>) -> Seq<char> {
    let h = hex_text(uuid_bytes(b));
    h.subrange(0, 8) + "-"@ + h.subrange(8, 12) + "-"@ + h.subrange(12, 16) + "-"@ + h.subrange(
        16,
        20,
    ) + "-"@ + h.subrange(20, 32)
}

/// The random UUID that sixteen random bytes make.
pub fn uuid_from_bytes(bytes: &Vec<u8>) -> (r: String)
    requires
        bytes@.len() == 16,
    ensures
        r@ == uuid_text(bytes@),
{
    let mut b = bytes.clone();
    assert(b@ =~= bytes@);
    let b6: u8 = b[6] % 16 + 64;
    let b8: u8 = b[8] % 64 + 128;
    b[6] = b6;
    b[8] = b8;
    assert(b@ =~= uuid_bytes(bytes@));
    let text = hex_encode(b.as_slice());
    let h = chars_of(text.as_str());
    let mut s = substring(&h, 0, 8);
    s.append("-");
    s.append(substring(&h, 8, 12).as_str());
    s.append("-");
    s.append(substring(&h, 12, 16).as_str());
    s.append("-");
    s.append(substring(&h, 16, 20).as_str());
    s.append("-");
    s.append(substring(&h, 20, 32).as_str());
    s
}

/// A random UUID has 36 characters; the one at 14 says version 4 and the one
/// at 19 says the standard variant.
pub proof fn uuid_is_version_4(b: Seq<u8>)
    requires
        b.len() == 16,
    ensures
        uuid_text(b).len() == 36,
        uuid_text(b)[14] == '4',
        uuid_text(b)[19] == '8' || uuid_text(b)[19] == '9' || uuid_text(b)[19] == 'a' || uuid_text(
            b,
        )[19] == 'b',
{
    reveal_strlit("-");
    let u = uuid_bytes(b);
    let h = hex_text(u);
    assert(u[6] as int / 16 == 4);
    assert(8 <= u[8] as int / 16 <= 11);
    assert(h[12] == hex_digit(u[6] as int / 16));
    assert(h[16] == hex_digit(u[8] as int / 16));
    assert(uuid_text(b)[14] == h[12]);
    assert(uuid_text(b)[19] == h[16]);
}

/// A fresh session identifier: the UUID of sixteen random bytes.
pub fn uuid_v4() -> (r: String)
    ensures
        exists|b: Vec<u8>| #[trigger]
            bytes_drawn(b) && b@.len() == 16 && r@ == uuid_text(b@),
{
    let b = draw_bytes();
    uuid_from_bytes(&b)
}

// ── Session types ───────────────────────────────────────────────

/// A member of a party session.
#[derive(Debug)]
pub struct PartyMember {
    pub node_id: String,
    pub display_name: String,
}

/// A member, as characters.
pub struct PartyMemberView {
    pub node_id: Seq<char>,
    pub display_name: Seq<char>,
}

impl View for PartyMember {
    type V = PartyMemberView;

    open spec fn view(&self) -> PartyMemberView {
        PartyMemberView { node_id: self.node_id@, display_name: self.display_name@ }
    }
}

impl Clone for PartyMember {
    fn clone(&self) -> (r: Self)
        ensures
            r@ == self@,
    {
        PartyMember { node_id: self.node_id.clone(), display_name: self.display_name.clone() }
    }
}

/// A party session hosted by this node.
#[derive(Debug)]
pub struct PartySession {
    pub session_id: String,
    pub host_name: String,
    pub host_node_id: String,
    pub members: Vec<PartyMember>,
    pub seq: u64,
    /// Current playback state (for heartbeat broadcasts).
    pub state: PartyPlaybackState,
    pub track: Option<PartyTrack>,
    pub position_secs: Number,
    /// DJ's wall-clock timestamp (ms) when `position_secs` was read.
    pub dj_timestamp_ms: u64,
    /// Last known playlist (stored for direct-poll fallback).
    pub playlist: Vec<PartyTrack>,
    pub playlist_index: usize,
    pub queue: Vec<PartyTrack>,
    pub queue_index: usize,
    pub playing_from_queue: bool,
    /// The DJ's endpoint address (base64) for direct follower connections.
    pub dj_endpoint_addr: Option<String>,
}

/// A hosted session, as characters, numbers and sequences.
pub struct PartySessionView {
    pub session_id: Seq<char>,
    pub host_name: Seq<char>,
    pub host_node_id: Seq<char>,
    pub members: Seq<PartyMemberView>,
    pub seq: u64,
    pub state: PartyPlaybackState,
    pub track: Option<PartyTrackView>,
    pub position_secs: NumberView,
    pub dj_timestamp_ms: u64,
    pub playlist: Seq<PartyTrackView>,
    pub playlist_index: usize,
    pub queue: Seq<PartyTrackView>,
    pub queue_index: usize,
    pub playing_from_queue: bool,
    pub dj_endpoint_addr: Option<Seq<char>>,
}

impl View for PartySession {
    type V = PartySessionView;

    open spec fn view(&self) -> PartySessionView {
        PartySessionView {
            session_id: self.session_id@,
            host_name: self.host_name@,
            host_node_id: self.host_node_id@,
            members: views(self.members@),
            seq: self.seq,
            state: self.state,
            track: opt_track(self.track),
            position_secs: self.position_secs@,
            dj_timestamp_ms: self.dj_timestamp_ms,
            playlist: views(self.playlist@),
            playlist_index: self.playlist_index,
            queue: views(self.queue@),
            queue_index: self.queue_index,
            playing_from_queue: self.playing_from_queue,
            dj_endpoint_addr: opt_text(self.dj_endpoint_addr),
        }
    }
}

/// A single NTP-style clock measurement.
#[derive(Debug, Clone, Copy)]
pub struct ClockSample {
    pub offset_ms: i64,
    pub rtt_ms: u64,
}

/// State for a node that is following a party session.
#[derive(Debug)]
pub struct FollowingSession {
    pub session_id: String,
    pub host_node_id: String,
    pub host_name: String,
    /// Running clock offset estimate: `host_time - local_time` in ms.
    pub clock_offset_ms: i64,
    /// Estimated round-trip time in ms.
    pub rtt_ms: u64,
    /// Recent NTP-style samples for weighted-median filtering.
    pub clock_samples: VecDeque<ClockSample>,
    /// Last applied sequence number.
    pub last_seq: u64,
}

/// A followed session, as characters, numbers and sequences.
pub struct FollowingView {
    pub session_id: Seq<char>,
    pub host_node_id: Seq<char>,
    pub host_name: Seq<char>,
    pub clock_offset_ms: i64,
    pub rtt_ms: u64,
    pub clock_samples: Seq<ClockSample>,
    pub last_seq: u64,
}

impl View for FollowingSession {
    type V = FollowingView;

    open spec fn view(&self) -> FollowingView {
        FollowingView {
            session_id: self.session_id@,
            host_node_id: self.host_node_id@,
            host_name: self.host_name@,
            clock_offset_ms: self.clock_offset_ms,
            rtt_ms: self.rtt_ms,
            clock_samples: self.clock_samples@,
            last_seq: self.last_seq,
        }
    }
}

// ── Weighted median ─────────────────────────────────────────────

/// The common denominator of the weights 1 / (rtt + 1).
pub open spec fn common_denominator(s: Seq<ClockSample>) -> nat
    decreases s.len(),
{
    if s.len() == 0 {
        1
    } else {
        common_denominator(s.drop_last()) * (s.last().rtt_ms as nat + 1)
    }
}

/// The weight 1 / (rtt + 1) of sample `i`, over the common denominator.
pub open spec fn weight(s: Seq<ClockSample>, i: int) -> nat {
    common_denominator(s.remove(i))
}

/// The weight of those of the first `n` samples whose offset is at most `o`,
/// over the common denominator.
pub open spec fn weight_up_to(s: Seq<ClockSample>, o: int, n: nat) -> nat
    decreases n,
{
    if n == 0 {
        0
    } else {
        weight_up_to(s, o, (n - 1) as nat) + if s[n - 1].offset_ms <= o {
            weight(s, n - 1)
        } else {
            0
        }
    }
}

/// The weight of the first `n` samples, over the common denominator.
pub open spec fn total_weight(s: Seq<ClockSample>, n: nat) -> nat
    decreases n,
{
    if n == 0 {
        0
    } else {
        total_weight(s, (n - 1) as nat) + weight(s, n - 1)
    }
}

/// The samples with an offset of at most `o` have half of the weight or more.
pub open spec fn reaches_half(s: Seq<ClockSample>, o: int) -> bool {
    2 * weight_up_to(s, o, s.len()) >= total_weight(s, s.len())
}

/// `o` is the weighted median of the offsets: the least offset at which the
/// cumulative weight reaches half; zero without samples.
pub open spec fn is_weighted_median(s: Seq<ClockSample>, o: int) -> bool {
    if s.len() == 0 {
        o == 0
    } else {
        &&& exists|i: int| 0 <= i < s.len() && (#[trigger] s[i]).offset_ms == o
        &&& reaches_half(s, o)
        &&& forall|i: int|
            0 <= i < s.len() && reaches_half(s, (#[trigger] s[i]).offset_ms as int) ==> o
                <= s[i].offset_ms
    }
}

/// The weights are those of 1 / (rtt + 1): a weight times (rtt + 1) is the
/// common denominator, for every sample.
pub proof fn weights_are_inverse_rtt(s: Seq<ClockSample>, i: int)
    requires
        0 <= i < s.len(),
    ensures
        weight(s, i) * (s[i].rtt_ms as nat + 1) == common_denominator(s),
    decreases s.len(),
{
    if i == s.len() - 1 {
        assert(s.remove(i) =~= s.drop_last());
    } else {
        let t = s.drop_last();
        weights_are_inverse_rtt(t, i);
        assert(s.remove(i).drop_last() =~= t.remove(i));
        assert(s.remove(i).last() == s.last());
        let a = common_denominator(t.remove(i));
        let b = s.last().rtt_ms as nat + 1;
        let c = s[i].rtt_ms as nat + 1;
        assert((a * b) * c == (a * c) * b) by (nonlinear_arith);
    }
}

/// A weighted median is unique.
pub proof fn weighted_median_unique(s: Seq<ClockSample>, a: int, b: int)
    requires
        is_weighted_median(s, a),
        is_weighted_median(s, b),
    ensures
        a == b,
{
    if s.len() > 0 {
        let i = choose|i: int| 0 <= i < s.len() && (#[trigger] s[i]).offset_ms == a;
        let j = choose|j: int| 0 <= j < s.len() && (#[trigger] s[j]).offset_ms == b;
        assert(s[i].offset_ms == a && s[j].offset_ms == b);
    }
}

proof fn lemma_all_below(s: Seq<ClockSample>, o: int, n: nat)
    requires
        n <= s.len(),
        forall|i: int| 0 <= i < s.len() ==> (#[trigger] s[i]).offset_ms <= o,
    ensures
        weight_up_to(s, o, n) == total_weight(s, n),
    decreases n,
{
    if n > 0 {
        lemma_all_below(s, o, (n - 1) as nat);
        assert(s[n - 1].offset_ms <= o);
    }
}

fn sample_weight(samples: &VecDeque<ClockSample>, skip: usize) -> (r: Natural)
    requires
        skip < samples@.len(),
    ensures
        r@ == weight(samples@, skip as int),
{
    let ghost s = samples@;
    let ghost others = s.remove(skip as int);
    let mut w = Natural::one();
    let mut i: usize = 0;
    assert(others.take(0) =~= seq![]);
    while i < samples.len()
        invariant
            i <= samples@.len(),
            s == samples@,
            skip < s.len(),
            others == s.remove(skip as int),
            w@ == common_denominator(others.take(if i <= skip { i as int } else { i - 1 })),
        decreases samples@.len() - i,
    {
        if i != skip {
            proof {
                let k = if i <= skip { i as int } else { i - 1 };
                assert(others[k] == s[i as int]);
                assert(others.take(k + 1).drop_last() =~= others.take(k));
                assert(others.take(k + 1).last() == s[i as int]);
            }
            w = w.times(samples[i].rtt_ms as u128 + 1);
        }
        i += 1;
    }
    assert(others.take(s.len() - 1) =~= others);
    w
}

fn weight_below(samples: &VecDeque<ClockSample>, o: i64) -> (r: (Natural, Natural))
    ensures
        r.0@ == weight_up_to(samples@, o as int, samples@.len()),
        r.1@ == total_weight(samples@, samples@.len()),
{
    let mut below = Natural::zero();
    let mut total = Natural::zero();
    let mut i: usize = 0;
    while i < samples.len()
        invariant
            i <= samples@.len(),
            below@ == weight_up_to(samples@, o as int, i as nat),
            total@ == total_weight(samples@, i as nat),
        decreases samples@.len() - i,
    {
        let w = sample_weight(samples, i);
        if samples[i].offset_ms <= o {
            below = below.plus(&w);
        }
        total = total.plus(&w);
        i += 1;
    }
    (below, total)
}

/// The weighted median of the offsets: lower-RTT samples are preferred (less
/// jitter), with the weight 1 / (rtt + 1).
pub fn weighted_median(samples: &VecDeque<ClockSample>) -> (r: i64)
    ensures
        is_weighted_median(samples@, r as int),
{
    let ghost s = samples@;
    if samples.len() == 0 {
        return 0;
    }
    let mut best: Option<i64> = None;
    let mut max: i64 = samples[0].offset_ms;
    let mut i: usize = 0;
    while i < samples.len()
        invariant
            i <= s.len(),
            s == samples@,
            s.len() > 0,
            exists|k: int| 0 <= k < s.len() && (#[trigger] s[k]).offset_ms == max,
            forall|k: int| 0 <= k < i ==> (#[trigger] s[k]).offset_ms <= max,
            match best {
                Some(b) => {
                    &&& exists|k: int| 0 <= k < i && (#[trigger] s[k]).offset_ms == b
                    &&& reaches_half(s, b as int)
                    &&& forall|k: int|
                        0 <= k < i && reaches_half(s, (#[trigger] s[k]).offset_ms as int) ==> b
                            <= s[k].offset_ms
                },
                None => forall|k: int|
                    0 <= k < i ==> !reaches_half(s, (#[trigger] s[k]).offset_ms as int),
            },
        decreases s.len() - i,
    {
        let o = samples[i].offset_ms;
        assert(s[i as int].offset_ms == o);
        if o > max {
            max = o;
        }
        let (below, total) = weight_below(samples, o);
        let half = below.times(2).at_least(&total);
        assert(half == reaches_half(s, o as int)) by {
            assert(below@ * 2 == 2 * below@) by (nonlinear_arith);
        }
        if half {
            match best {
                Some(b) => {
                    if o < b {
                        best = Some(o);
                    }
                },
                None => {
                    best = Some(o);
                },
            }
        }
        i += 1;
    }
    match best {
        Some(b) => b,
        None => {
            proof {
                lemma_all_below(s, max as int, s.len());
                let k = choose|k: int| 0 <= k < s.len() && (#[trigger] s[k]).offset_ms == max;
                assert(reaches_half(s, s[k].offset_ms as int));
                assert(false);
            }
            max
        },
    }
}

// ── Following ───────────────────────────────────────────────────

/// The ten latest samples once `x` was taken.
pub open spec fn with_sample(s: Seq<ClockSample>, x: ClockSample) -> Seq<ClockSample> {
    if s.len() >= 10 {
        s.drop_first().push(x)
    } else {
        s.push(x)
    }
}

/// A time in milliseconds as a signed number of 64 bits.
pub open spec fn signed_ms(t: u64) -> int {
    (t as i64) as int
}

/// The round-trip time of a ping: (T4 - T1) - (T3 - T2).
pub open spec fn ping_rtt(t1: u64, t2: u64, t3: u64, t4: u64) -> int {
    (signed_ms(t4) - signed_ms(t1)) - (signed_ms(t3) - signed_ms(t2))
}

/// Twice the clock offset of a ping: (T2 - T1) + (T3 - T4).
pub open spec fn ping_shift(t1: u64, t2: u64, t3: u64, t4: u64) -> int {
    (signed_ms(t2) - signed_ms(t1)) + (signed_ms(t3) - signed_ms(t4))
}

/// Half of `x`, rounded toward zero.
pub open spec fn half_toward_zero(x: int) -> int {
    if x >= 0 {
        x / 2
    } else {
        -((-x) / 2)
    }
}

/// `x`, or zero if it is negative.
pub open spec fn at_least_zero(x: int) -> int {
    if x < 0 {
        0
    } else {
        x
    }
}

/// The smoothed round-trip time after a measurement.
pub open spec fn smoothed_rtt(old_rtt: u64, rtt: int) -> int {
    if old_rtt == 0 {
        rtt
    } else {
        (old_rtt * 7 + rtt * 3) / 10
    }
}

/// The four times of a ping, and the round-trip times so far, stay within the
/// range of 64 bits.
pub open spec fn ping_in_range(old_rtt: u64, t1: u64, t2: u64, t3: u64, t4: u64) -> bool {
    &&& i64::MIN <= signed_ms(t4) - signed_ms(t1) <= i64::MAX
    &&& i64::MIN <= signed_ms(t3) - signed_ms(t2) <= i64::MAX
    &&& i64::MIN <= signed_ms(t2) - signed_ms(t1) <= i64::MAX
    &&& i64::MIN <= signed_ms(t3) - signed_ms(t4) <= i64::MAX
    &&& i64::MIN <= ping_rtt(t1, t2, t3, t4) <= i64::MAX
    &&& i64::MIN <= ping_shift(t1, t2, t3, t4) <= i64::MAX
    &&& old_rtt != 0 ==> old_rtt * 7 + at_least_zero(ping_rtt(t1, t2, t3, t4)) * 3 <= u64::MAX
}

/// The sample that a ping gives.
pub open spec fn ping_sample(t1: u64, t2: u64, t3: u64, t4: u64) -> ClockSample {
    ClockSample {
        offset_ms: half_toward_zero(ping_shift(t1, t2, t3, t4)) as i64,
        rtt_ms: at_least_zero(ping_rtt(t1, t2, t3, t4)) as u64,
    }
}

/// What a ping changes: its sample is taken, the offset is the weighted median
/// of the samples then, and the round-trip time is smoothed.
pub open spec fn ping_step(
    before: FollowingView,
    after: FollowingView,
    t1: u64,
    t2: u64,
    t3: u64,
    t4: u64,
) -> bool {
    &&& after == (FollowingView {
        clock_samples: with_sample(before.clock_samples, ping_sample(t1, t2, t3, t4)),
        clock_offset_ms: after.clock_offset_ms,
        rtt_ms: smoothed_rtt(before.rtt_ms, at_least_zero(ping_rtt(t1, t2, t3, t4))) as u64,
        ..before
    })
    &&& is_weighted_median(after.clock_samples, after.clock_offset_ms as int)
}

/// The difference of two times, if 64 signed bits hold it.
fn time_difference(a: u64, b: u64) -> (r: Option<i64>)
    ensures
        match r {
            Some(d) => d == signed_ms(a) - signed_ms(b),
            None => !(i64::MIN <= signed_ms(a) - signed_ms(b) <= i64::MAX),
        },
{
    let d: i128 = (a as i64) as i128 - (b as i64) as i128;
    if d >= -9223372036854775808 && d <= 9223372036854775807 {
        Some(d as i64)
    } else {
        None
    }
}

impl FollowingSession {
    /// Starts to follow a session.
    pub fn new(session_id: String, host_node_id: String, host_name: String) -> (r: FollowingSession)
        ensures
            r@ == (FollowingView {
                session_id: session_id@,
                host_node_id: host_node_id@,
                host_name: host_name@,
                clock_offset_ms: 0,
                rtt_ms: 0,
                clock_samples: seq![],
                last_seq: 0,
            }),
    {
        let r = FollowingSession {
            session_id,
            host_node_id,
            host_name,
            clock_offset_ms: 0,
            rtt_ms: 0,
            clock_samples: VecDeque::with_capacity(10),
            last_seq: 0,
        };
        assert(r.clock_samples@ =~= seq![]);
        r
    }

    fn take_sample(&mut self, x: ClockSample)
        ensures
            final(self)@ == (FollowingView {
                clock_samples: with_sample(old(self)@.clock_samples, x),
                clock_offset_ms: final(self).clock_offset_ms,
                ..old(self)@
            }),
            is_weighted_median(
                with_sample(old(self)@.clock_samples, x),
                final(self).clock_offset_ms as int,
            ),
    {
        let ghost before = self.clock_samples@;
        if self.clock_samples.len() >= 10 {
            self.clock_samples.pop_front();
            assert(self.clock_samples@ =~= before.drop_first());
        }
        self.clock_samples.push_back(x);
        assert(self.clock_samples@ =~= with_sample(before, x));
        self.clock_offset_ms = weighted_median(&self.clock_samples);
    }

    /// NTP 4-timestamp clock offset estimation.
    /// T1 = client_send_ms, T2 = server_recv_ms, T3 = server_send_ms,
    /// T4 = client_recv_ms (local time when pong arrived).
    ///
    /// offset = ((T2 - T1) + (T3 - T4)) / 2   (host_time - local_time)
    /// rtt    = (T4 - T1) - (T3 - T2)
    pub fn add_clock_sample(&mut self, t1: u64, t2: u64, t3: u64, t4: u64)
        requires
            ping_in_range(old(self).rtt_ms, t1, t2, t3, t4),
        ensures
            ping_step(old(self)@, final(self)@, t1, t2, t3, t4),
    {
        let raw_rtt: i64 = (t4 as i64 - t1 as i64) - (t3 as i64 - t2 as i64);
        let rtt: u64 = if raw_rtt < 0 {
            0
        } else {
            raw_rtt as u64
        };
        let shift: i64 = (t2 as i64 - t1 as i64) + (t3 as i64 - t4 as i64);
        let offset: i64 = if shift >= 0 {
            shift / 2
        } else {
            (-((-(shift as i128)) / 2)) as i64
        };
        self.take_sample(ClockSample { offset_ms: offset, rtt_ms: rtt });
        if self.rtt_ms == 0 {
            self.rtt_ms = rtt;
        } else {
            self.rtt_ms = (self.rtt_ms * 7 + rtt * 3) / 10;
        }
    }

    /// Takes a clock sample if its times are in range; says whether it did.
    pub fn try_add_clock_sample(&mut self, t1: u64, t2: u64, t3: u64, t4: u64) -> (taken: bool)
        ensures
            taken == ping_in_range(old(self).rtt_ms, t1, t2, t3, t4),
            !taken ==> final(self)@ == old(self)@,
            taken ==> ping_step(old(self)@, final(self)@, t1, t2, t3, t4),
    {
        match (
            time_difference(t4, t1),
            time_difference(t3, t2),
            time_difference(t2, t1),
            time_difference(t3, t4),
        ) {
            (Some(a), Some(b), Some(c), Some(d)) => {
                let rtt: i128 = a as i128 - b as i128;
                let shift: i128 = c as i128 + d as i128;
                let min: i128 = -9223372036854775808;
                let max: i128 = 9223372036854775807;
                if rtt < min || rtt > max || shift < min || shift > max {
                    return false;
                }
                let r: i128 = if rtt < 0 {
                    0
                } else {
                    rtt
                };
                if self.rtt_ms != 0 && self.rtt_ms as i128 * 7 + r * 3 > u64::MAX as i128 {
                    return false;
                }
                self.add_clock_sample(t1, t2, t3, t4);
                true
            },
            _ => false,
        }
    }

    /// Takes a one-way timestamp that was seen at `now`: less accurate, so it
    /// counts like a ping with a round trip of half a second.
    pub fn update_clock_offset_at(&mut self, host_timestamp_ms: u64, now: u64)
        requires
            i64::MIN <= signed_ms(host_timestamp_ms) - signed_ms(now) <= i64::MAX,
        ensures
            final(self)@ == (FollowingView {
                clock_samples: with_sample(
                    old(self)@.clock_samples,
                    (ClockSample {
                        offset_ms: (signed_ms(host_timestamp_ms) - signed_ms(now)) as i64,
                        rtt_ms: 500,
                    }),
                ),
                clock_offset_ms: final(self).clock_offset_ms,
                ..old(self)@
            }),
            is_weighted_median(
                final(self)@.clock_samples,
                final(self).clock_offset_ms as int,
            ),
    {
        let sample: i64 = host_timestamp_ms as i64 - now as i64;
        self.take_sample(ClockSample { offset_ms: sample, rtt_ms: 500 });
    }

    /// Takes a one-way timestamp that was seen at `now`, if the difference of
    /// the two clocks is in range.
    pub fn apply_clock(&mut self, host_timestamp_ms: u64, now: u64)
        ensures
            clock_step(old(self)@, final(self)@, host_timestamp_ms, now),
    {
        match time_difference(host_timestamp_ms, now) {
            Some(_) => {
                self.update_clock_offset_at(host_timestamp_ms, now);
            },
            None => {},
        }
    }

    /// Takes a one-way timestamp that has just arrived. Where the difference of
    /// the two clocks is out of range, nothing changes.
    pub fn update_clock_offset(&mut self, host_timestamp_ms: u64)
        ensures
            exists|now: u64| #[trigger]
                call_ensures(now_ms, (), now) && clock_step(
                    old(self)@,
                    final(self)@,
                    host_timestamp_ms,
                    now,
                ),
    {
        let now = now_ms();
        self.apply_clock(host_timestamp_ms, now);
    }
}

/// What a one-way timestamp seen at `now` changes.
pub open spec fn clock_step(
    before: FollowingView,
    after: FollowingView,
    host_timestamp_ms: u64,
    now: u64,
) -> bool {
    let diff = signed_ms(host_timestamp_ms) - signed_ms(now);
    if i64::MIN <= diff <= i64::MAX {
        let samples = with_sample(
            before.clock_samples,
            (ClockSample { offset_ms: diff as i64, rtt_ms: 500 }),
        );
        &&& after == (FollowingView {
            clock_samples: samples,
            clock_offset_ms: after.clock_offset_ms,
            ..before
        })
        &&& is_weighted_median(samples, after.clock_offset_ms as int)
    } else {
        after == before
    }
}

/// No more than ten samples are ever kept.
pub proof fn samples_stay_bounded(s: Seq<ClockSample>, x: ClockSample)
    requires
        s.len() <= 10,
    ensures
        with_sample(s, x).len() <= 10,
        with_sample(s, x).last() == x,
{
}

/// The ten latest of the samples.
pub open spec fn ten_latest(s: Seq<ClockSample>) -> Seq<ClockSample> {
    if s.len() <= 10 {
        s
    } else {
        s.skip(s.len() - 10)
    }
}

/// The four times of a ping, in order.
pub struct Ping {
    pub t1: u64,
    pub t2: u64,
    pub t3: u64,
    pub t4: u64,
}

/// The samples that pings give.
pub open spec fn ping_samples(pings: Seq<Ping>) -> Seq<ClockSample> {
    pings.map_values(|p: Ping| ping_sample(p.t1, p.t2, p.t3, p.t4))
}

/// These are the states of a session before and after each of these pings.
pub open spec fn pinged(states: Seq<FollowingView>, pings: Seq<Ping>) -> bool {
    &&& states.len() == pings.len() + 1
    &&& forall|i: int|
        0 <= i < pings.len() ==> ping_step(
            states[i],
            states[i + 1],
            (#[trigger] pings[i]).t1,
            pings[i].t2,
            pings[i].t3,
            pings[i].t4,
        )
}

/// A session without samples has, after pings, the samples of the ten latest.
pub proof fn ten_latest_samples_stay(states: Seq<FollowingView>, pings: Seq<Ping>)
    requires
        pinged(states, pings),
        states[0].clock_samples.len() == 0,
    ensures
        states.last().clock_samples == ten_latest(ping_samples(pings)),
    decreases pings.len(),
{
    let all = ping_samples(pings);
    if pings.len() == 0 {
        assert(states.last().clock_samples =~= all);
    } else {
        let n = pings.len() - 1;
        let d = pings.drop_last();
        let e = states.drop_last();
        assert forall|i: int| 0 <= i < d.len() implies ping_step(
            e[i],
            e[i + 1],
            (#[trigger] d[i]).t1,
            d[i].t2,
            d[i].t3,
            d[i].t4,
        ) by {
            assert(d[i] == pings[i]);
        }
        ten_latest_samples_stay(e, d);
        assert(pings[n] == pings.last());
        assert(e.last() == states[n]);
        assert(states.last() == states[n + 1]);
        let x = ping_sample(pings[n].t1, pings[n].t2, pings[n].t3, pings[n].t4);
        assert(all =~= ping_samples(d).push(x));
        assert(with_sample(ten_latest(ping_samples(d)), x) =~= ten_latest(all));
    }
}

/// Only the ten latest pings count for the clock offset: a session that has
/// seen just these has the same offset as one that has seen more.
pub proof fn only_ten_latest_pings_count(
    f: Seq<FollowingView>,
    g: Seq<FollowingView>,
    pings: Seq<Ping>,
)
    requires
        pings.len() >= 10,
        f[0].clock_samples.len() == 0,
        g[0].clock_samples.len() == 0,
        pinged(f, pings),
        pinged(g, pings.skip(pings.len() - 10)),
    ensures
        f.last().clock_samples == g.last().clock_samples,
        f.last().clock_offset_ms == g.last().clock_offset_ms,
{
    let late = pings.skip(pings.len() - 10);
    ten_latest_samples_stay(f, pings);
    ten_latest_samples_stay(g, late);
    assert(ten_latest(ping_samples(pings)) =~= ten_latest(ping_samples(late)));
    assert(ping_step(
        f[pings.len() - 1],
        f[pings.len() as int],
        pings[pings.len() - 1].t1,
        pings[pings.len() - 1].t2,
        pings[pings.len() - 1].t3,
        pings[pings.len() - 1].t4,
    ));
    assert(ping_step(g[9], g[10], late[9].t1, late[9].t2, late[9].t3, late[9].t4));
    weighted_median_unique(
        f.last().clock_samples,
        f.last().clock_offset_ms as int,
        g.last().clock_offset_ms as int,
    );
}

proof fn lemma_one_sample(x: ClockSample)
    ensures
        common_denominator(seq![x]) == x.rtt_ms as nat + 1,
{
    let s = seq![x];
    assert(s.drop_last() =~= seq![]);
    assert(common_denominator(s.drop_last()) == 1);
    assert(s.last() == x);
    let d = x.rtt_ms as nat + 1;
    assert(1 * d == d) by (nonlinear_arith);
}

proof fn lemma_better_sample_wins(a: ClockSample, b: ClockSample, o: int)
    requires
        a.rtt_ms < b.rtt_ms,
        is_weighted_median(seq![a, b], o),
    ensures
        o == a.offset_ms,
{
    let s = seq![a, b];
    reveal_with_fuel(weight_up_to, 3);
    reveal_with_fuel(total_weight, 3);
    assert(s.remove(0) =~= seq![b]);
    assert(s.remove(1) =~= seq![a]);
    lemma_one_sample(a);
    lemma_one_sample(b);
    let wa = weight(s, 0);
    let wb = weight(s, 1);
    assert(wa == b.rtt_ms as nat + 1);
    assert(wb == a.rtt_ms as nat + 1);
    assert(total_weight(s, 2) == wa + wb);
    assert(s[0] == a && s[1] == b);
    assert(reaches_half(s, a.offset_ms as int));
    assert(reaches_half(s, s[0].offset_ms as int));
    let i = choose|i: int| 0 <= i < s.len() && (#[trigger] s[i]).offset_ms == o;
    if b.offset_ms < a.offset_ms {
        assert(weight_up_to(s, b.offset_ms as int, 2) == wb);
        assert(!reaches_half(s, b.offset_ms as int));
    }
}

/// A one-way timestamp leaves a single better sample in force: after one ping
/// with a round trip of less than half a second, it changes neither the clock
/// offset nor the round-trip time nor the last sequence number.
pub proof fn better_ping_stays_in_force(
    start: FollowingView,
    ping: Ping,
    before: FollowingView,
    after: FollowingView,
    host_timestamp_ms: u64,
    now: u64,
)
    requires
        start.clock_samples.len() == 0,
        ping_step(start, before, ping.t1, ping.t2, ping.t3, ping.t4),
        ping_rtt(ping.t1, ping.t2, ping.t3, ping.t4) < 500,
        clock_step(before, after, host_timestamp_ms, now),
    ensures
        after.clock_offset_ms == before.clock_offset_ms,
        after.rtt_ms == before.rtt_ms,
        after.last_seq == before.last_seq,
{
    let a = ping_sample(ping.t1, ping.t2, ping.t3, ping.t4);
    assert(before.clock_samples =~= seq![a]);
    assert(before.clock_offset_ms == a.offset_ms) by {
        let s = before.clock_samples;
        let i = choose|i: int|
            0 <= i < s.len() && (#[trigger] s[i]).offset_ms == before.clock_offset_ms;
        assert(s[i] == a);
    }
    let diff = signed_ms(host_timestamp_ms) - signed_ms(now);
    if i64::MIN <= diff <= i64::MAX {
        let b = ClockSample { offset_ms: diff as i64, rtt_ms: 500 };
        assert(with_sample(before.clock_samples, b) =~= seq![a, b]);
        lemma_better_sample_wins(a, b, after.clock_offset_ms as int);
    }
}

/// Where both ways of a ping take equally long, the estimate is exact: with a
/// delay of `d` each way and a host clock that is `o` ahead, the round trip is
/// twice `d` and the offset is `o`, whatever the host spends in between.
pub proof fn symmetric_ping_is_exact(t1: u64, t2: u64, t3: u64, t4: u64, d: int, o: int)
    requires
        t1 <= i64::MAX,
        t2 <= i64::MAX,
        t3 <= i64::MAX,
        t4 <= i64::MAX,
        t2 == t1 + d + o,
        t4 == t3 - o + d,
    ensures
        ping_rtt(t1, t2, t3, t4) == 2 * d,
        half_toward_zero(ping_shift(t1, t2, t3, t4)) == o,
{
}

// ── Party state ─────────────────────────────────────────────────

/// A remote party seen via gossip (for discovery by late joiners).
#[derive(Debug)]
pub struct ActiveParty {
    pub session_id: String,
    pub host_name: String,
    pub host_node_id: String,
    /// Last time we saw a heartbeat.
    pub last_seen_ms: u64,
}

/// A remote party, as characters and numbers.
pub struct ActivePartyView {
    pub session_id: Seq<char>,
    pub host_name: Seq<char>,
    pub host_node_id: Seq<char>,
    pub last_seen_ms: u64,
}

impl View for ActiveParty {
    type V = ActivePartyView;

    open spec fn view(&self) -> ActivePartyView {
        ActivePartyView {
            session_id: self.session_id@,
            host_name: self.host_name@,
            host_node_id: self.host_node_id@,
            last_seen_ms: self.last_seen_ms,
        }
    }
}

impl Clone for ActiveParty {
    fn clone(&self) -> (r: Self)
        ensures
            r@ == self@,
    {
        ActiveParty {
            session_id: self.session_id.clone(),
            host_name: self.host_name.clone(),
            host_node_id: self.host_node_id.clone(),
            last_seen_ms: self.last_seen_ms,
        }
    }
}

/// Top-level party state for a Fugue node.
/// A node can host at most one session and follow at most one session
/// (but not both simultaneously).
#[derive(Debug)]
pub struct PartyState {
    pub hosting: Option<PartySession>,
    pub following: Option<FollowingSession>,
    /// Remote parties seen via gossip. Entries expire after 60s without a heartbeat.
    pub active_parties: Vec<ActiveParty>,
}

/// The party state, as characters, numbers and sequences.
pub struct PartyStateView {
    pub hosting: Option<PartySessionView>,
    pub following: Option<FollowingView>,
    pub active_parties: Seq<ActivePartyView>,
}

/// What an optional session holds.
pub open spec fn opt_session(o: Option<PartySession>) -> Option<PartySessionView> {
    match o {
        Some(x) => Some(x@),
        None => None,
    }
}

/// What an optional followed session holds.
pub open spec fn opt_following(o: Option<FollowingSession>) -> Option<FollowingView> {
    match o {
        Some(x) => Some(x@),
        None => None,
    }
}

impl View for PartyState {
    type V = PartyStateView;

    open spec fn view(&self) -> PartyStateView {
        PartyStateView {
            hosting: opt_session(self.hosting),
            following: opt_following(self.following),
            active_parties: views(self.active_parties@),
        }
    }
}

impl Default for PartyState {
    fn default() -> (r: Self)
        ensures
            r@ == no_party(),
    {
        let r = PartyState { hosting: None, following: None, active_parties: Vec::new() };
        assert(views(r.active_parties@) =~= seq![]);
        r
    }
}

/// The state of a node that knows of no party.
pub open spec fn no_party() -> PartyStateView {
    PartyStateView { hosting: None, following: None, active_parties: seq![] }
}

/// A session that has just been created.
pub open spec fn fresh_session(
    session_id: Seq<char>,
    host_name: Seq<char>,
    host_node_id: Seq<char>,
) -> PartySessionView {
    PartySessionView {
        session_id,
        host_name,
        host_node_id,
        members: seq![],
        seq: 0,
        state: PartyPlaybackState::Stopped,
        track: None,
        position_secs: NumberView::Float("0.0"@),
        dj_timestamp_ms: 0,
        playlist: seq![],
        playlist_index: 0,
        queue: seq![],
        queue_index: 0,
        playing_from_queue: false,
        dj_endpoint_addr: None,
    }
}

/// A followed session that has just been joined.
pub open spec fn fresh_following(
    session_id: Seq<char>,
    host_node_id: Seq<char>,
    host_name: Seq<char>,
) -> FollowingView {
    FollowingView {
        session_id,
        host_node_id,
        host_name,
        clock_offset_ms: 0,
        rtt_ms: 0,
        clock_samples: seq![],
        last_seq: 0,
    }
}

/// The known parties after a sign of life of one of them: it is refreshed, or
/// added if it is new. The node that hosts it stays what it was.
pub open spec fn with_active(
    s: Seq<ActivePartyView>,
    session_id: Seq<char>,
    host_name: Seq<char>,
    host_node_id: Seq<char>,
    now: u64,
) -> Seq<ActivePartyView>
    decreases s.len(),
{
    if s.len() == 0 {
        seq![ActivePartyView { session_id, host_name, host_node_id, last_seen_ms: now }]
    } else if s[0].session_id == session_id {
        s.update(0, ActivePartyView { host_name, last_seen_ms: now, ..s[0] })
    } else {
        seq![s[0]] + with_active(s.drop_first(), session_id, host_name, host_node_id, now)
    }
}

/// The known parties other than this one.
pub open spec fn without_active(s: Seq<ActivePartyView>, session_id: Seq<char>) -> Seq<
    ActivePartyView,
> {
    kept(s, |p: ActivePartyView| p.session_id != session_id)
}

/// The known parties that gave a sign of life in the 60 seconds before `now`.
pub open spec fn still_alive(s: Seq<ActivePartyView>, now: u64) -> Seq<ActivePartyView> {
    kept(s, |p: ActivePartyView| p.last_seen_ms > cutoff(now))
}

/// Sixty seconds before `now`, not before zero.
pub open spec fn cutoff(now: u64) -> int {
    if now >= 60000 {
        now - 60000
    } else {
        0
    }
}

/// The members with `node_id` among them: as they were if it already is.
pub open spec fn with_party_member(
    s: Seq<PartyMemberView>,
    node_id: Seq<char>,
    display_name: Seq<char>,
) -> Seq<PartyMemberView> {
    if exists|i: int| 0 <= i < s.len() && (#[trigger] s[i]).node_id == node_id {
        s
    } else {
        s.push(PartyMemberView { node_id, display_name })
    }
}

/// The members other than `node_id`.
pub open spec fn without_party_member(s: Seq<PartyMemberView>, node_id: Seq<char>) -> Seq<
    PartyMemberView,
> {
    kept(s, |m: PartyMemberView| m.node_id != node_id)
}

impl PartyState {
    /// Whether a hosted session, if there is one, has sequence numbers left.
    pub fn has_numbers_left(&self) -> (r: bool)
        ensures
            r == (self@.hosting matches Some(h) ==> h.seq < u64::MAX),
    {
        match &self.hosting {
            Some(h) => h.seq < u64::MAX,
            None => true,
        }
    }

    /// Hosts a new session under a given identifier.
    pub fn create_session_with_id(
        &mut self,
        session_id: String,
        host_name: String,
        host_node_id: String,
    )
        ensures
            final(self)@ == (PartyStateView {
                hosting: Some(fresh_session(session_id@, host_name@, host_node_id@)),
                following: None,
                ..old(self)@
            }),
    {
        let session = PartySession {
            session_id,
            host_name,
            host_node_id,
            members: Vec::new(),
            seq: 0,
            state: PartyPlaybackState::Stopped,
            track: None,
            position_secs: zero_secs(),
            dj_timestamp_ms: 0,
            playlist: Vec::new(),
            playlist_index: 0,
            queue: Vec::new(),
            queue_index: 0,
            playing_from_queue: false,
            dj_endpoint_addr: None,
        };
        proof {
            assert(views(session.members@) =~= seq![]);
            assert(views(session.playlist@) =~= seq![]);
            assert(views(session.queue@) =~= seq![]);
        }
        self.following = None;
        self.hosting = Some(session);
    }

    /// Creates a new party session hosted by this node. A node that followed
    /// another session stops doing so.
    pub fn create_session(&mut self, host_name: String, host_node_id: String) -> (r: &PartySession)
        ensures
            exists|id: String| #[trigger]
                call_ensures(uuid_v4, (), id) && r@ == fresh_session(
                    id@,
                    host_name@,
                    host_node_id@,
                ),
            final(self)@ == (PartyStateView { hosting: Some(r@), following: None, ..old(self)@ }),
    {
        let id = uuid_v4();
        self.create_session_with_id(id, host_name, host_node_id);
        self.hosting.as_ref().unwrap()
    }

    /// Ends the hosted session; gives its identifier.
    pub fn end_session(&mut self) -> (r: Option<String>)
        ensures
            opt_text(r) == match old(self)@.hosting {
                Some(h) => Some(h.session_id),
                None => None,
            },
            final(self)@ == (PartyStateView { hosting: None, ..old(self)@ }),
    {
        match self.hosting.take() {
            Some(s) => Some(s.session_id),
            None => None,
        }
    }

    /// Starts following a session. A node that hosted one stops doing so.
    pub fn follow(&mut self, session_id: String, host_node_id: String, host_name: String)
        ensures
            final(self)@ == (PartyStateView {
                hosting: None,
                following: Some(fresh_following(session_id@, host_node_id@, host_name@)),
                ..old(self)@
            }),
    {
        self.hosting = None;
        self.following = Some(FollowingSession::new(session_id, host_node_id, host_name));
    }

    /// Stops following; gives the identifier of the session.
    pub fn unfollow(&mut self) -> (r: Option<String>)
        ensures
            opt_text(r) == match old(self)@.following {
                Some(f) => Some(f.session_id),
                None => None,
            },
            final(self)@ == (PartyStateView { following: None, ..old(self)@ }),
    {
        match self.following.take() {
            Some(s) => Some(s.session_id),
            None => None,
        }
    }

    /// Records or refreshes a remote party of which a sign of life arrived at
    /// `now`.
    pub fn touch_active_party_at(
        &mut self,
        session_id: &str,
        host_name: &str,
        host_node_id: &str,
        now: u64,
    )
        ensures
            final(self)@ == (PartyStateView {
                active_parties: with_active(
                    old(self)@.active_parties,
                    session_id@,
                    host_name@,
                    host_node_id@,
                    now,
                ),
                ..old(self)@
            }),
    {
        let ghost before = views(self.active_parties@);
        let ghost want = with_active(before, session_id@, host_name@, host_node_id@, now);
        let mut i: usize = 0;
        assert(before.take(0) + want =~= want);
        assert(before.skip(0) =~= before);
        while i < self.active_parties.len() && !str_eq(
            self.active_parties[i].session_id.as_str(),
            session_id,
        )
            invariant
                i <= self.active_parties@.len(),
                self@ == old(self)@,
                before == views(self.active_parties@),
                want == before.take(i as int) + with_active(
                    before.skip(i as int),
                    session_id@,
                    host_name@,
                    host_node_id@,
                    now,
                ),
            decreases self.active_parties@.len() - i,
        {
            proof {
                let t = before.skip(i as int);
                assert(t[0] == self.active_parties@[i as int]@);
                assert(t.drop_first() =~= before.skip(i + 1));
                let rest = with_active(
                    before.skip(i + 1),
                    session_id@,
                    host_name@,
                    host_node_id@,
                    now,
                );
                assert(before.take(i as int) + (seq![t[0]] + rest) =~= before.take(i + 1) + rest);
            }
            i += 1;
        }
        if i < self.active_parties.len() {
            let p = &self.active_parties[i];
            let q = ActiveParty {
                session_id: p.session_id.clone(),
                host_name: host_name.to_owned(),
                host_node_id: p.host_node_id.clone(),
                last_seen_ms: now,
            };
            let ghost qv = q@;
            proof {
                assert(before.skip(i as int)[0] == self.active_parties@[i as int]@);
                assert(want =~= before.update(i as int, qv));
            }
            self.active_parties[i] = q;
            assert(views(self.active_parties@) =~= before.update(i as int, qv));
        } else {
            let q = ActiveParty {
                session_id: session_id.to_owned(),
                host_name: host_name.to_owned(),
                host_node_id: host_node_id.to_owned(),
                last_seen_ms: now,
            };
            let ghost qv = q@;
            self.active_parties.push(q);
            proof {
                assert(before.skip(i as int) =~= seq![]);
                assert(before.take(i as int) =~= before);
                assert(views(self.active_parties@) =~= before.push(qv));
                assert(want =~= before.push(qv));
            }
        }
    }

    /// Records or refreshes a remote party of which a sign of life has just
    /// arrived.
    pub fn touch_active_party(&mut self, session_id: &str, host_name: &str, host_node_id: &str)
        ensures
            exists|now: u64| #[trigger]
                call_ensures(now_ms, (), now) && final(self)@ == (PartyStateView {
                    active_parties: with_active(
                        old(self)@.active_parties,
                        session_id@,
                        host_name@,
                        host_node_id@,
                        now,
                    ),
                    ..old(self)@
                }),
    {
        let now = now_ms();
        self.touch_active_party_at(session_id, host_name, host_node_id, now);
    }

    /// Removes a party that has ended.
    pub fn remove_active_party(&mut self, session_id: &str)
        ensures
            final(self)@ == (PartyStateView {
                active_parties: without_active(old(self)@.active_parties, session_id@),
                ..old(self)@
            }),
    {
        let ghost before = views(self.active_parties@);
        let ghost keep = |p: ActivePartyView| p.session_id != session_id@;
        let mut out: Vec<ActiveParty> = Vec::new();
        let mut i: usize = 0;
        assert(before.take(0) =~= seq![]);
        assert(views(out@) =~= seq![]);
        while i < self.active_parties.len()
            invariant
                i <= self.active_parties@.len(),
                self@ == old(self)@,
                before == views(self.active_parties@),
                keep == (|p: ActivePartyView| p.session_id != session_id@),
                views(out@) == kept(before.take(i as int), keep),
            decreases self.active_parties@.len() - i,
        {
            let ghost sofar = out@;
            proof {
                assert(before.take(i + 1).drop_last() =~= before.take(i as int));
                assert(before.take(i + 1).last() == self.active_parties@[i as int]@);
            }
            if !str_eq(self.active_parties[i].session_id.as_str(), session_id) {
                let c = self.active_parties[i].clone();
                out.push(c);
                assert(views(out@) =~= views(sofar).push(c@));
            }
            i += 1;
        }
        assert(before.take(i as int) =~= before);
        self.active_parties = out;
    }

    /// Prunes parties with no heartbeat in the 60 seconds before `now`.
    pub fn prune_stale_parties_at(&mut self, now: u64)
        ensures
            final(self)@ == (PartyStateView {
                active_parties: still_alive(old(self)@.active_parties, now),
                ..old(self)@
            }),
    {
        let cut: u64 = if now >= 60000 {
            now - 60000
        } else {
            0
        };
        let ghost before = views(self.active_parties@);
        let ghost keep = |p: ActivePartyView| p.last_seen_ms > cutoff(now);
        let mut out: Vec<ActiveParty> = Vec::new();
        let mut i: usize = 0;
        assert(before.take(0) =~= seq![]);
        assert(views(out@) =~= seq![]);
        while i < self.active_parties.len()
            invariant
                i <= self.active_parties@.len(),
                self@ == old(self)@,
                before == views(self.active_parties@),
                cut == cutoff(now),
                keep == (|p: ActivePartyView| p.last_seen_ms > cutoff(now)),
                views(out@) == kept(before.take(i as int), keep),
            decreases self.active_parties@.len() - i,
        {
            let ghost sofar = out@;
            proof {
                assert(before.take(i + 1).drop_last() =~= before.take(i as int));
                assert(before.take(i + 1).last() == self.active_parties@[i as int]@);
            }
            if self.active_parties[i].last_seen_ms > cut {
                let c = self.active_parties[i].clone();
                out.push(c);
                assert(views(out@) =~= views(sofar).push(c@));
            }
            i += 1;
        }
        assert(before.take(i as int) =~= before);
        self.active_parties = out;
    }

    /// Prunes parties with no heartbeat in the last 60 seconds.
    pub fn prune_stale_parties(&mut self)
        ensures
            exists|now: u64| #[trigger]
                call_ensures(now_ms, (), now) && final(self)@ == (PartyStateView {
                    active_parties: still_alive(old(self)@.active_parties, now),
                    ..old(self)@
                }),
    {
        let now = now_ms();
        self.prune_stale_parties_at(now);
    }

    /// The parties that are alive at `now`, without our own if we host one.
    pub fn discover_parties_at(&mut self, now: u64) -> (r: Vec<ActiveParty>)
        ensures
            final(self)@ == (PartyStateView {
                active_parties: still_alive(old(self)@.active_parties, now),
                ..old(self)@
            }),
            views(r@) == discovered(old(self)@, now),
    {
        self.prune_stale_parties_at(now);
        let ghost all = views(self.active_parties@);
        let ghost keep = not_own(self@.hosting);
        let mut out: Vec<ActiveParty> = Vec::new();
        let mut i: usize = 0;
        assert(all.take(0) =~= seq![]);
        assert(views(out@) =~= seq![]);
        while i < self.active_parties.len()
            invariant
                i <= self.active_parties@.len(),
                all == views(self.active_parties@),
                keep == not_own(self@.hosting),
                views(out@) == kept(all.take(i as int), keep),
            decreases self.active_parties@.len() - i,
        {
            let ghost sofar = out@;
            proof {
                assert(all.take(i + 1).drop_last() =~= all.take(i as int));
                assert(all.take(i + 1).last() == self.active_parties@[i as int]@);
            }
            let p = &self.active_parties[i];
            let own = match &self.hosting {
                Some(h) => str_eq(h.session_id.as_str(), p.session_id.as_str()),
                None => false,
            };
            if !own {
                let c = p.clone();
                out.push(c);
                assert(views(out@) =~= views(sofar).push(c@));
            }
            i += 1;
        }
        assert(all.take(i as int) =~= all);
        out
    }

    /// The parties that are alive now, without our own if we host one.
    pub fn discover_parties(&mut self) -> (r: Vec<ActiveParty>)
        ensures
            exists|now: u64| #[trigger]
                call_ensures(now_ms, (), now) && views(r@) == discovered(old(self)@, now)
                    && final(self)@ == (PartyStateView {
                    active_parties: still_alive(old(self)@.active_parties, now),
                    ..old(self)@
                }),
    {
        let now = now_ms();
        self.discover_parties_at(now)
    }

    /// Adds a member to the hosted session, unless it is one already.
    pub fn add_member(&mut self, node_id: &str, display_name: &str)
        ensures
            final(self)@ == with_member_added(old(self)@, node_id@, display_name@),
    {
        match &mut self.hosting {
            Some(session) => {
                let ghost before = session@;
                let ghost ms = views(session.members@);
                let mut i: usize = 0;
                let mut found: bool = false;
                while i < session.members.len()
                    invariant
                        i <= session.members@.len(),
                        ms == views(session.members@),
                        found == exists|k: int|
                            0 <= k < i && (#[trigger] ms[k]).node_id == node_id@,
                    decreases session.members@.len() - i,
                {
                    assert(ms[i as int] == session.members@[i as int]@);
                    if str_eq(session.members[i].node_id.as_str(), node_id) {
                        found = true;
                    }
                    i += 1;
                }
                if !found {
                    let m = PartyMember {
                        node_id: node_id.to_owned(),
                        display_name: display_name.to_owned(),
                    };
                    let ghost mv = m@;
                    session.members.push(m);
                    assert(views(session.members@) =~= ms.push(mv));
                }
                assert(session@ == (PartySessionView {
                    members: with_party_member(before.members, node_id@, display_name@),
                    ..before
                }));
            },
            None => {},
        }
    }

    /// Removes a member from the hosted session.
    pub fn remove_member(&mut self, node_id: &str)
        ensures
            final(self)@ == with_member_removed(old(self)@, node_id@),
    {
        match &mut self.hosting {
            Some(session) => {
                let ghost before = session@;
                let ghost ms = views(session.members@);
                let ghost keep = |m: PartyMemberView| m.node_id != node_id@;
                let mut out: Vec<PartyMember> = Vec::new();
                let mut i: usize = 0;
                assert(ms.take(0) =~= seq![]);
                assert(views(out@) =~= seq![]);
                while i < session.members.len()
                    invariant
                        i <= session.members@.len(),
                        ms == views(session.members@),
                        keep == (|m: PartyMemberView| m.node_id != node_id@),
                        views(out@) == kept(ms.take(i as int), keep),
                    decreases session.members@.len() - i,
                {
                    let ghost sofar = out@;
                    proof {
                        assert(ms.take(i + 1).drop_last() =~= ms.take(i as int));
                        assert(ms.take(i + 1).last() == session.members@[i as int]@);
                    }
                    if !str_eq(session.members[i].node_id.as_str(), node_id) {
                        let c = session.members[i].clone();
                        out.push(c);
                        assert(views(out@) =~= views(sofar).push(c@));
                    }
                    i += 1;
                }
                assert(ms.take(i as int) =~= ms);
                session.members = out;
                assert(session@ == (PartySessionView {
                    members: without_party_member(before.members, node_id@),
                    ..before
                }));
            },
            None => {},
        }
    }
}

/// Picks the parties that are not the one that this node hosts.
pub open spec fn not_own(hosting: Option<PartySessionView>) -> spec_fn(ActivePartyView) -> bool {
    |p: ActivePartyView|
        match hosting {
            Some(h) => h.session_id != p.session_id,
            None => true,
        }
}

/// The parties that a node can discover at `now`.
pub open spec fn discovered(s: PartyStateView, now: u64) -> Seq<ActivePartyView> {
    kept(still_alive(s.active_parties, now), not_own(s.hosting))
}

/// The state after a member joined the hosted session.
pub open spec fn with_member_added(
    s: PartyStateView,
    node_id: Seq<char>,
    display_name: Seq<char>,
) -> PartyStateView {
    match s.hosting {
        Some(h) => PartyStateView {
            hosting: Some(
                PartySessionView {
                    members: with_party_member(h.members, node_id, display_name),
                    ..h
                },
            ),
            ..s
        },
        None => s,
    }
}

/// The state after a member left the hosted session.
pub open spec fn with_member_removed(s: PartyStateView, node_id: Seq<char>) -> PartyStateView {
    match s.hosting {
        Some(h) => PartyStateView {
            hosting: Some(
                PartySessionView { members: without_party_member(h.members, node_id), ..h },
            ),
            ..s
        },
        None => s,
    }
}

/// A node does not host and follow at the same time, lists every member of its
/// session once, and lists every party once.
pub open spec fn party_valid(s: PartyStateView) -> bool {
    &&& s.hosting is None || s.following is None
    &&& s.hosting matches Some(h) ==> distinct_members(h.members)
    &&& distinct_parties(s.active_parties)
    &&& s.following matches Some(f) ==> f.clock_samples.len() <= 10
}

/// No two members are the same node.
pub open spec fn distinct_members(s: Seq<PartyMemberView>) -> bool {
    forall|i: int, j: int|
        0 <= i < j < s.len() ==> (#[trigger] s[i]).node_id != (#[trigger] s[j]).node_id
}

/// No two parties are the same session.
pub open spec fn distinct_parties(s: Seq<ActivePartyView>) -> bool {
    forall|i: int, j: int|
        0 <= i < j < s.len() ==> (#[trigger] s[i]).session_id != (#[trigger] s[j]).session_id
}

proof fn lemma_kept_members_distinct(s: Seq<PartyMemberView>, keep: spec_fn(PartyMemberView) -> bool)
    requires
        distinct_members(s),
    ensures
        distinct_members(kept(s, keep)),
{
    let k = kept(s, keep);
    assert forall|i: int, j: int| 0 <= i < j < k.len() implies (#[trigger] k[i]).node_id != (
    #[trigger] k[j]).node_id by {
        let (a, b) = lemma_kept_order(s, keep, i, j);
        assert(s[a].node_id != s[b].node_id);
    }
}

proof fn lemma_kept_parties_distinct(s: Seq<ActivePartyView>, keep: spec_fn(ActivePartyView) -> bool)
    requires
        distinct_parties(s),
    ensures
        distinct_parties(kept(s, keep)),
{
    let k = kept(s, keep);
    assert forall|i: int, j: int| 0 <= i < j < k.len() implies (#[trigger] k[i]).session_id != (
    #[trigger] k[j]).session_id by {
        let (a, b) = lemma_kept_order(s, keep, i, j);
        assert(s[a].session_id != s[b].session_id);
    }
}

proof fn lemma_with_active(
    s: Seq<ActivePartyView>,
    session_id: Seq<char>,
    host_name: Seq<char>,
    host_node_id: Seq<char>,
    now: u64,
)
    ensures
        ({
            let r = with_active(s, session_id, host_name, host_node_id, now);
            &&& forall|i: int|
                0 <= i < r.len() ==> (#[trigger] r[i]).session_id == session_id || (i < s.len()
                    && r[i] == s[i])
            &&& r.len() == s.len() || (r.len() == s.len() + 1 && r.last().session_id == session_id
                && forall|i: int| 0 <= i < s.len() ==> (#[trigger] s[i]).session_id != session_id)
            &&& forall|i: int|
                0 <= i < s.len() ==> (#[trigger] r[i]).session_id == s[i].session_id
        }),
    decreases s.len(),
{
    let r = with_active(s, session_id, host_name, host_node_id, now);
    if s.len() > 0 && s[0].session_id != session_id {
        let t = s.drop_first();
        let q = with_active(t, session_id, host_name, host_node_id, now);
        lemma_with_active(t, session_id, host_name, host_node_id, now);
        assert(r =~= seq![s[0]] + q);
        assert forall|i: int| 0 <= i < r.len() implies (#[trigger] r[i]).session_id == session_id
            || (i < s.len() && r[i] == s[i]) by {
            if i > 0 {
                assert(r[i] == q[i - 1]);
            }
        }
        if q.len() == t.len() + 1 {
            assert(r.last() == q.last());
            assert forall|i: int| 0 <= i < s.len() implies (#[trigger] s[i]).session_id
                != session_id by {
                if i > 0 {
                    assert(t[i - 1] == s[i]);
                }
            }
        }
        assert forall|i: int| 0 <= i < s.len() implies (#[trigger] r[i]).session_id
            == s[i].session_id by {
            if i > 0 {
                assert(r[i] == q[i - 1]);
                assert(t[i - 1] == s[i]);
            }
        }
    }
}

/// A party of which a sign of life has arrived is known.
pub proof fn touched_party_is_known(
    s: Seq<ActivePartyView>,
    session_id: Seq<char>,
    host_name: Seq<char>,
    host_node_id: Seq<char>,
    now: u64,
)
    ensures
        exists|i: int|
            0 <= i < with_active(s, session_id, host_name, host_node_id, now).len() && (
            #[trigger] with_active(s, session_id, host_name, host_node_id, now)[i]).session_id
                == session_id && with_active(
                s,
                session_id,
                host_name,
                host_node_id,
                now,
            )[i].last_seen_ms == now,
    decreases s.len(),
{
    let r = with_active(s, session_id, host_name, host_node_id, now);
    if s.len() == 0 || s[0].session_id == session_id {
        assert(r[0].session_id == session_id && r[0].last_seen_ms == now);
    } else {
        let q = with_active(s.drop_first(), session_id, host_name, host_node_id, now);
        touched_party_is_known(s.drop_first(), session_id, host_name, host_node_id, now);
        let i = choose|i: int|
            0 <= i < q.len() && (#[trigger] q[i]).session_id == session_id && q[i].last_seen_ms
                == now;
        assert(r[i + 1] == q[i]);
    }
}

/// Creating and following a session keep a valid state valid: the one ends the
/// other.
pub proof fn hosting_and_following_exclude_each_other(
    s: PartyStateView,
    session_id: Seq<char>,
    name: Seq<char>,
    node_id: Seq<char>,
)
    requires
        party_valid(s),
    ensures
        party_valid(
            (PartyStateView {
                hosting: Some(fresh_session(session_id, name, node_id)),
                following: None,
                ..s
            }),
        ),
        party_valid(
            (PartyStateView {
                hosting: None,
                following: Some(fresh_following(session_id, node_id, name)),
                ..s
            }),
        ),
        party_valid((PartyStateView { hosting: None, ..s })),
        party_valid((PartyStateView { following: None, ..s })),
{
}

/// Members who join and leave keep a valid state valid.
pub proof fn membership_stays_valid(s: PartyStateView, node_id: Seq<char>, display_name: Seq<char>)
    requires
        party_valid(s),
    ensures
        party_valid(with_member_added(s, node_id, display_name)),
        party_valid(with_member_removed(s, node_id)),
{
    if let Some(h) = s.hosting {
        lemma_kept_members_distinct(h.members, |m: PartyMemberView| m.node_id != node_id);
        let ms = h.members;
        if !(exists|i: int| 0 <= i < ms.len() && (#[trigger] ms[i]).node_id == node_id) {
            let r = ms.push(PartyMemberView { node_id, display_name });
            assert forall|i: int, j: int| 0 <= i < j < r.len() implies (#[trigger] r[i]).node_id
                != (#[trigger] r[j]).node_id by {
                if j == ms.len() {
                    assert(ms[i].node_id != node_id);
                } else {
                    assert(ms[i].node_id != ms[j].node_id);
                }
            }
        }
    }
}

/// What becomes known of remote parties keeps a valid state valid.
pub proof fn known_parties_stay_valid(
    s: PartyStateView,
    session_id: Seq<char>,
    host_name: Seq<char>,
    host_node_id: Seq<char>,
    now: u64,
)
    requires
        party_valid(s),
    ensures
        party_valid(
            (PartyStateView {
                active_parties: with_active(
                    s.active_parties,
                    session_id,
                    host_name,
                    host_node_id,
                    now,
                ),
                ..s
            }),
        ),
        party_valid(
            (PartyStateView {
                active_parties: without_active(s.active_parties, session_id),
                ..s
            }),
        ),
        party_valid((PartyStateView { active_parties: still_alive(s.active_parties, now), ..s })),
{
    lemma_kept_parties_distinct(
        s.active_parties,
        |p: ActivePartyView| p.session_id != session_id,
    );
    lemma_kept_parties_distinct(
        s.active_parties,
        |p: ActivePartyView| p.last_seen_ms > cutoff(now),
    );
    let a = s.active_parties;
    let r = with_active(a, session_id, host_name, host_node_id, now);
    lemma_with_active(a, session_id, host_name, host_node_id, now);
    assert forall|i: int, j: int| 0 <= i < j < r.len() implies (#[trigger] r[i]).session_id != (
    #[trigger] r[j]).session_id by {
        if j < a.len() {
            assert(a[i].session_id != a[j].session_id);
        } else {
            assert(a[i].session_id != session_id);
        }
    }
}

/// A discovered party gave a sign of life in the last 60 seconds and is not
/// our own.
pub proof fn discovered_parties_are_alive(s: PartyStateView, now: u64, i: int)
    requires
        0 <= i < discovered(s, now).len(),
    ensures
        discovered(s, now)[i].last_seen_ms > cutoff(now),
        s.hosting matches Some(h) ==> h.session_id != discovered(s, now)[i].session_id,
{
    let alive = still_alive(s.active_parties, now);
    let a = lemma_kept_from(alive, not_own(s.hosting), i);
    let b = lemma_kept_from(
        s.active_parties,
        |p: ActivePartyView| p.last_seen_ms > cutoff(now),
        a,
    );
}

// ── Status ──────────────────────────────────────────────────────

/// What the admin endpoint says of the party state.
#[derive(Debug)]
pub struct PartyStatus {
    /// "off", "hosting" or "following"
    pub mode: &'static str,
    pub session_id: Option<String>,
    pub host_name: Option<String>,
    pub members: Option<Vec<PartyMember>>,
    pub state: Option<PartyPlaybackState>,
    pub track: Option<PartyTrack>,
    pub position_secs: Option<Number>,
}

fn clone_members(members: &Vec<PartyMember>) -> (r: Vec<PartyMember>)
    ensures
        views(r@) == views(members@),
{
    let mut out: Vec<PartyMember> = Vec::new();
    let mut i: usize = 0;
    while i < members.len()
        invariant
            i <= members@.len(),
            views(out@) == views(members@).take(i as int),
        decreases members@.len() - i,
    {
        let ghost before = out@;
        let c = members[i].clone();
        out.push(c);
        proof {
            assert(views(out@) =~= views(before).push(c@));
            assert(views(members@).take(i + 1) =~= views(members@).take(i as int).push(c@));
        }
        i += 1;
    }
    assert(views(members@).take(i as int) =~= views(members@));
    out
}

// ── Resolving tracks ────────────────────────────────────────────

/// A track of this node's cache.
#[derive(Debug)]
pub struct LocalTrack {
    pub id: String,
    pub title: String,
    pub artist: Option<String>,
}

/// The track has this title and this artist, ASCII case aside.
pub open spec fn same_song(t: LocalTrack, title: Seq<char>, artist: Seq<char>) -> bool {
    &&& ascii_lower(t.title@) == ascii_lower(title)
    &&& t.artist matches Some(a) && ascii_lower(a@) == ascii_lower(artist)
}

/// The first track with this title and artist.
pub open spec fn first_match(tracks: Seq<LocalTrack>, title: Seq<char>, artist: Seq<char>) -> Option<
    Seq<char>,
>
    decreases tracks.len(),
{
    if tracks.len() == 0 {
        None
    } else if same_song(tracks[0], title, artist) {
        Some(tracks[0].id@)
    } else {
        first_match(tracks.skip(1), title, artist)
    }
}

/// Finds a track of the host in the library here. `canonical_id` is that of the
/// group of duplicates with the track's fingerprint, if there is one; else the
/// track is found by title and artist.
pub fn resolve_track(
    track: &PartyTrack,
    canonical_id: Option<String>,
    tracks: &Vec<LocalTrack>,
) -> (r: Option<String>)
    ensures
        opt_text(r) == match (track.fingerprint, canonical_id) {
            (Some(_), Some(id)) => Some(id@),
            _ => first_match(tracks@, track.title@, track.artist@),
        },
{
    match (&track.fingerprint, canonical_id) {
        (Some(_), Some(id)) => Some(id),
        _ => find_song(tracks, track.title.as_str(), track.artist.as_str()),
    }
}

fn find_song(tracks: &Vec<LocalTrack>, title: &str, artist: &str) -> (r: Option<String>)
    ensures
        opt_text(r) == first_match(tracks@, title@, artist@),
{
    let wanted_title = lower_ascii(title);
    let wanted_artist = lower_ascii(artist);
    let mut i: usize = 0;
    assert(tracks@.skip(0) =~= tracks@);
    while i < tracks.len()
        invariant
            i <= tracks@.len(),
            wanted_title@ == ascii_lower(title@),
            wanted_artist@ == ascii_lower(artist@),
            first_match(tracks@, title@, artist@) == first_match(
                tracks@.skip(i as int),
                title@,
                artist@,
            ),
        decreases tracks@.len() - i,
    {
        proof {
            assert(tracks@.skip(i as int)[0] == tracks@[i as int]);
            assert(tracks@.skip(i as int).skip(1) =~= tracks@.skip(i + 1));
        }
        let same = match &tracks[i].artist {
            Some(a) => str_eq(
                lower_ascii(tracks[i].title.as_str()).as_str(),
                wanted_title.as_str(),
            ) && str_eq(lower_ascii(a.as_str()).as_str(), wanted_artist.as_str()),
            None => false,
        };
        if same {
            return Some(tracks[i].id.clone());
        }
        i += 1;
    }
    None
}

impl PartyStatus {
    /// The status of a party state: that of the hosted session, or else that
    /// of the followed one.
    pub fn from_state(party: &PartyState) -> (r: PartyStatus)
        ensures
            match (party@.hosting, party@.following) {
                (Some(h), _) => {
                    &&& r.mode@ == "hosting"@
                    &&& opt_text(r.session_id) == Some(h.session_id)
                    &&& opt_text(r.host_name) == Some(h.host_name)
                    &&& r.members is Some && views(r.members->0@) == h.members
                    &&& r.state == Some(h.state)
                    &&& opt_track(r.track) == h.track
                    &&& r.position_secs is Some && r.position_secs->0@ == h.position_secs
                },
                (None, Some(f)) => {
                    &&& r.mode@ == "following"@
                    &&& opt_text(r.session_id) == Some(f.session_id)
                    &&& opt_text(r.host_name) == Some(f.host_name)
                    &&& r.members is None && r.state is None && r.track is None
                        && r.position_secs is None
                },
                (None, None) => {
                    &&& r.mode@ == "off"@
                    &&& r.session_id is None && r.host_name is None && r.members is None
                        && r.state is None && r.track is None && r.position_secs is None
                },
            },
    {
        match (&party.hosting, &party.following) {
            (Some(h), _) => PartyStatus {
                mode: "hosting",
                session_id: Some(h.session_id.clone()),
                host_name: Some(h.host_name.clone()),
                members: Some(clone_members(&h.members)),
                state: Some(h.state),
                track: clone_track(&h.track),
                position_secs: Some(h.position_secs.clone()),
            },
            (None, Some(f)) => PartyStatus {
                mode: "following",
                session_id: Some(f.session_id.clone()),
                host_name: Some(f.host_name.clone()),
                members: None,
                state: None,
                track: None,
                position_secs: None,
            },
            (None, None) => PartyStatus {
                mode: "off",
                session_id: None,
                host_name: None,
                members: None,
                state: None,
                track: None,
                position_secs: None,
            },
        }
    }
}

// ── Laws of parties ─────────────────────────────────────────────

/// The identifier of a session is thirty-two hexadecimal digits in groups of
/// eight, four, four, four and twelve; it keeps all bits of the bytes but those
/// that mark version and variant.
pub proof fn session_ids_keep_their_bits(b: Seq<u8>, i: int)
    requires
        b.len() == 16,
    ensures
        ({
            let v = uuid_bytes(b);
            let h = hex_text(v);
            &&& uuid_text(b) == h.subrange(0, 8) + "-"@ + h.subrange(8, 12) + "-"@ + h.subrange(
                12,
                16,
            ) + "-"@ + h.subrange(16, 20) + "-"@ + h.subrange(20, 32)
            &&& v.len() == 16
            &&& 0 <= i < 16 && i != 6 && i != 8 ==> v[i] == b[i]
            &&& v[6] % 16 == b[6] % 16 && v[6] / 16 == 4
            &&& v[8] % 64 == b[8] % 64 && v[8] / 64 == 2
        }),
{
}

/// The weight at or below an offset is the sum of the weights of the samples
/// there, and the total weight is the sum of all.
pub proof fn weights_are_summed_up(s: Seq<ClockSample>, o: int, n: nat)
    ensures
        weight_up_to(s, o, n) == Seq::new(
            n,
            |i: int|
                if s[i].offset_ms <= o {
                    weight(s, i)
                } else {
                    0
                },
        ).fold_left(0nat, |a: nat, b: nat| a + b),
        total_weight(s, n) == Seq::new(n, |i: int| weight(s, i)).fold_left(
            0nat,
            |a: nat, b: nat| a + b,
        ),
    decreases n,
{
    let f = |i: int|
        if s[i].offset_ms <= o {
            weight(s, i)
        } else {
            0
        };
    let g = |i: int| weight(s, i);
    if n > 0 {
        weights_are_summed_up(s, o, (n - 1) as nat);
        assert(Seq::new(n, f).drop_last() =~= Seq::new((n - 1) as nat, f));
        assert(Seq::new(n, g).drop_last() =~= Seq::new((n - 1) as nat, g));
    }
}

/// The weighted median is the smallest offset at or below which half of the weight
/// lies; without samples it is zero.
pub proof fn median_halves_the_weight(s: Seq<ClockSample>, o: int, i: int)
    requires
        is_weighted_median(s, o),
    ensures
        s.len() == 0 ==> o == 0,
        s.len() > 0 ==> 2 * weight_up_to(s, o, s.len()) >= total_weight(s, s.len()),
        0 <= i < s.len() && s[i].offset_ms < o ==> 2 * weight_up_to(
            s,
            s[i].offset_ms as int,
            s.len(),
        ) < total_weight(s, s.len()),
        s.len() > 0 ==> exists|k: int| 0 <= k < s.len() && (#[trigger] s[k]).offset_ms == o,
{
}

/// The first round trip counts as it is; a later one counts three tenths, what was
/// known seven.
pub proof fn round_trips_are_smoothed(old_rtt: u64, rtt: int)
    requires
        rtt >= 0,
    ensures
        old_rtt == 0 ==> smoothed_rtt(old_rtt, rtt) == rtt,
        old_rtt > 0 ==> 10 * smoothed_rtt(old_rtt, rtt) <= 7 * old_rtt + 3 * rtt < 10 * smoothed_rtt(
            old_rtt,
            rtt,
        ) + 10,
{
}

/// A ping gives half the shift of the clocks, rounded toward zero, and a round
/// trip that is never negative.
pub proof fn pings_give_offset_and_round_trip(t1: u64, t2: u64, t3: u64, t4: u64)
    requires
        t1 <= i64::MAX,
        t2 <= i64::MAX,
        t3 <= i64::MAX,
        t4 <= i64::MAX,
        i64::MIN <= (t2 - t1) + (t3 - t4) <= i64::MAX,
    ensures
        ({
            let x = ping_sample(t1, t2, t3, t4);
            let shift = (t2 - t1) + (t3 - t4);
            let trip = (t4 - t1) - (t3 - t2);
            &&& shift >= 0 ==> 2 * x.offset_ms == shift || 2 * x.offset_ms == shift - 1
            &&& shift < 0 ==> 2 * x.offset_ms == shift || 2 * x.offset_ms == shift + 1
            &&& 0 <= trip <= u64::MAX ==> x.rtt_ms == trip
            &&& trip < 0 ==> x.rtt_ms == 0
        }),
{
    assert(signed_ms(t1) == t1 && signed_ms(t2) == t2 && signed_ms(t3) == t3 && signed_ms(t4)
        == t4);
}

/// A new session belongs to its host and has nothing else yet; one who begins to
/// follow knows the host and has no measurements yet.
pub proof fn sessions_start_empty(session_id: Seq<char>, name: Seq<char>, node_id: Seq<char>)
    ensures
        ({
            let h = fresh_session(session_id, name, node_id);
            &&& h.session_id == session_id && h.host_name == name && h.host_node_id == node_id
            &&& h.members.len() == 0 && h.playlist.len() == 0 && h.queue.len() == 0
            &&& h.seq == 0 && h.dj_timestamp_ms == 0 && h.playlist_index == 0 && h.queue_index == 0
            &&& h.state == PartyPlaybackState::Stopped && h.track is None && !h.playing_from_queue
            &&& h.dj_endpoint_addr is None && h.position_secs == NumberView::Float("0.0"@)
        }),
        ({
            let f = fresh_following(session_id, node_id, name);
            &&& f.session_id == session_id && f.host_name == name && f.host_node_id == node_id
            &&& f.clock_offset_ms == 0 && f.rtt_ms == 0 && f.last_seq == 0
            &&& f.clock_samples.len() == 0
        }),
        no_party().hosting is None && no_party().following is None
            && no_party().active_parties.len() == 0,
{
}

/// News of a known party change its host's name and the time at which it was seen;
/// an unknown party is put behind the others. No other party changes.
pub proof fn news_touch_only_their_party(
    s: Seq<ActivePartyView>,
    session_id: Seq<char>,
    host_name: Seq<char>,
    host_node_id: Seq<char>,
    now: u64,
    i: int,
)
    ensures
        0 <= i < s.len() && s[i].session_id == session_id && (forall|j: int|
            0 <= j < i ==> (#[trigger] s[j]).session_id != session_id) ==> with_active(
            s,
            session_id,
            host_name,
            host_node_id,
            now,
        ) == s.update(i, (ActivePartyView { host_name, last_seen_ms: now, ..s[i] })),
        (forall|j: int| 0 <= j < s.len() ==> (#[trigger] s[j]).session_id != session_id)
            ==> with_active(s, session_id, host_name, host_node_id, now) == s.push(
            (ActivePartyView { session_id, host_name, host_node_id, last_seen_ms: now }),
        ),
    decreases s.len(),
{
    if s.len() > 0 {
        let t = s.drop_first();
        news_touch_only_their_party(t, session_id, host_name, host_node_id, now, i - 1);
        assert forall|j: int| 0 <= j < t.len() implies #[trigger] t[j] == s[j + 1] by {}
        assert(seq![s[0]] + t =~= s);
        let w = with_active(t, session_id, host_name, host_node_id, now);
        if s[0].session_id != session_id {
            if 0 < i < s.len() && s[i].session_id == session_id && (forall|j: int|
                0 <= j < i ==> (#[trigger] s[j]).session_id != session_id) {
                let x = ActivePartyView { host_name, last_seen_ms: now, ..s[i] };
                assert forall|j: int| 0 <= j < i - 1 implies (#[trigger] t[j]).session_id
                    != session_id by {
                    assert(s[j + 1].session_id != session_id);
                }
                assert(w == t.update(i - 1, x));
                assert(seq![s[0]] + w =~= s.update(i, x));
            }
            if forall|j: int| 0 <= j < s.len() ==> (#[trigger] s[j]).session_id != session_id {
                let x = ActivePartyView { session_id, host_name, host_node_id, last_seen_ms: now };
                assert(w == t.push(x));
                assert(seq![s[0]] + w =~= s.push(x));
            }
        }
    }
}

/// Which parties remain: without one that ended, all others; of those that are
/// known, those that were seen in the last minute; of these, a host discovers all
/// but its own.
pub proof fn parties_live_for_a_minute(
    s: PartyStateView,
    session_id: Seq<char>,
    now: u64,
)
    requires
        now >= 60000,
    ensures
        without_active(s.active_parties, session_id) == s.active_parties.filter(
            |p: ActivePartyView| p.session_id != session_id,
        ),
        still_alive(s.active_parties, now) == s.active_parties.filter(
            |p: ActivePartyView| p.last_seen_ms > now - 60000,
        ),
        s.hosting is None ==> discovered(s, now) == still_alive(s.active_parties, now),
        s.hosting matches Some(h) ==> discovered(s, now) == still_alive(
            s.active_parties,
            now,
        ).filter(|p: ActivePartyView| h.session_id != p.session_id),
{
    let all = s.active_parties;
    keeping_is_filtering(all, |p: ActivePartyView| p.session_id != session_id);
    keeping_is_filtering(all, |p: ActivePartyView| p.last_seen_ms > cutoff(now));
    let alive = still_alive(all, now);
    lemma_same_filter(
        all,
        |p: ActivePartyView| p.last_seen_ms > cutoff(now),
        |p: ActivePartyView| p.last_seen_ms > now - 60000,
    );
    keeping_is_filtering(alive, not_own(s.hosting));
    match s.hosting {
        Some(h) => {
            lemma_same_filter(
                alive,
                not_own(s.hosting),
                |p: ActivePartyView| h.session_id != p.session_id,
            );
        },
        None => {
            lemma_same_filter(alive, not_own(s.hosting), |p: ActivePartyView| true);
            lemma_all_pass(alive);
        },
    }
}

proof fn lemma_same_filter<A>(s: Seq<A>, p: spec_fn(A) -> bool, q: spec_fn(A) -> bool)
    requires
        forall|a: A| #[trigger] p(a) == q(a),
    ensures
        s.filter(p) == s.filter(q),
    decreases s.len(),
{
    lemma_filter_end(s, p);
    lemma_filter_end(s, q);
    if s.len() > 0 {
        assert(p(s.last()) == q(s.last()));
        lemma_same_filter(s.drop_last(), p, q);
    }
}

proof fn lemma_all_pass(s: Seq<ActivePartyView>)
    ensures
        s.filter(|p: ActivePartyView| true) == s,
    decreases s.len(),
{
    lemma_filter_end(s, |p: ActivePartyView| true);
    if s.len() > 0 {
        lemma_all_pass(s.drop_last());
        assert(s.drop_last().push(s.last()) =~= s);
    }
}

/// Who joins is a member once, behind those who are; who leaves is none. Nothing
/// else of the party changes.
pub proof fn members_join_and_leave(
    s: PartyStateView,
    h: PartySessionView,
    node_id: Seq<char>,
    display_name: Seq<char>,
)
    requires
        s.hosting == Some(h),
    ensures
        ({
            let new = with_member_added(s, node_id, display_name);
            new.hosting matches Some(k) && new == (PartyStateView { hosting: Some(k), ..s }) && k
                == (PartySessionView { members: k.members, ..h }) && (if exists|i: int|
                0 <= i < h.members.len() && (#[trigger] h.members[i]).node_id == node_id {
                k.members == h.members
            } else {
                k.members == h.members.push((PartyMemberView { node_id, display_name }))
            })
        }),
        ({
            let new = with_member_removed(s, node_id);
            new.hosting matches Some(k) && new == (PartyStateView { hosting: Some(k), ..s }) && k
                == (PartySessionView { members: k.members, ..h }) && k.members == h.members.filter(
                |m: PartyMemberView| m.node_id != node_id,
            )
        }),
{
    keeping_is_filtering(h.members, |m: PartyMemberView| m.node_id != node_id);
}

/// A track is matched by the first local one of the same title and artist, ASCII
/// case aside.
pub proof fn first_like_track_matches(
    tracks: Seq<LocalTrack>,
    title: Seq<char>,
    artist: Seq<char>,
    i: int,
)
    ensures
        0 <= i < tracks.len() && ascii_lower(tracks[i].title@) == ascii_lower(title) && (
        tracks[i].artist matches Some(a) && ascii_lower(a@) == ascii_lower(artist)) && (forall|j: int|
            0 <= j < i ==> !(ascii_lower((#[trigger] tracks[j]).title@) == ascii_lower(title) && (
            tracks[j].artist matches Some(a) && ascii_lower(a@) == ascii_lower(artist))))
            ==> first_match(tracks, title, artist) == Some(tracks[i].id@),
        (forall|j: int|
            0 <= j < tracks.len() ==> !(ascii_lower((#[trigger] tracks[j]).title@) == ascii_lower(
                title,
            ) && (tracks[j].artist matches Some(a) && ascii_lower(a@) == ascii_lower(artist))))
            ==> first_match(tracks, title, artist) is None,
    decreases tracks.len(),
{
    if tracks.len() > 0 {
        let t = tracks.skip(1);
        first_like_track_matches(t, title, artist, i - 1);
        assert forall|j: int| 0 <= j < t.len() implies #[trigger] t[j] == tracks[j + 1] by {}
        if same_song(tracks[0], title, artist) {
            assert(ascii_lower(tracks[0].title@) == ascii_lower(title));
        }
    }
}

} // verus!
