//! Node statistics and selection: stability first.
//!
//! - The success-rate average is the primary metric; the round-trip average
//!   is secondary and decides only between equal success rates.
//! - A challenger must beat the incumbent by a clear margin.
//!
//! Averages are carried as the bit patterns of IEEE 754 doubles, so that the
//! total order of their values is an order of integers.

use std::cmp::Ordering;

use vstd::prelude::*;

use crate::names::Model;

verus! {

/// How many recent round-trip samples per node survive in the state file.
pub const RTT_HISTORY: usize = 20;

/// The bit pattern of the double 1.0.
pub const ONE_BITS: u64 = 0x3ff0_0000_0000_0000;

/// The bit pattern of the double 0.0.
pub const ZERO_BITS: u64 = 0;

/// Rolling statistics for a single node, persisted to the state file.
pub struct NodeStats {
    /// Moving average of the probe success rate (bits of a double in [0, 1]).
    pub success_ema: u64,
    /// Moving average of the round trip in milliseconds (bits of a double);
    /// `None` if no probe succeeded.
    pub rtt_ema_ms: Option<u64>,
    /// Most recent round trips, newest last (bits of doubles).
    pub recent_rtts_ms: Vec<u64>,
    /// Consecutive health-check failures on the active path.
    pub consecutive_health_failures: u32,
    /// Total probe count; 0 means never probed.
    pub probe_count: u64,
    pub last_probe_unix: Option<i64>,
}

#[verifier::ext_equal]
pub struct NodeStatsView {
    pub success_ema: u64,
    pub rtt_ema_ms: Option<u64>,
    pub recent_rtts_ms: Seq<u64>,
    pub consecutive_health_failures: u32,
    pub probe_count: u64,
    pub last_probe_unix: Option<i64>,
}

impl View for NodeStats {
    type V = NodeStatsView;

    open spec fn view(&self) -> NodeStatsView {
        NodeStatsView {
            success_ema: self.success_ema,
            rtt_ema_ms: self.rtt_ema_ms,
            recent_rtts_ms: self.recent_rtts_ms@,
            consecutive_health_failures: self.consecutive_health_failures,
            probe_count: self.probe_count,
            last_probe_unix: self.last_probe_unix,
        }
    }
}

/// Statistics of a node that was never probed.
pub open spec fn fresh_stats() -> NodeStatsView {
    NodeStatsView {
        success_ema: ZERO_BITS,
        rtt_ema_ms: None,
        recent_rtts_ms: Seq::empty(),
        consecutive_health_failures: 0,
        probe_count: 0,
        last_probe_unix: None,
    }
}

impl Default for NodeStats {
    fn default() -> (s: Self)
        ensures
            s@ == fresh_stats(),
    {
        NodeStats {
            success_ema: ZERO_BITS,
            rtt_ema_ms: None,
            recent_rtts_ms: Vec::new(),
            consecutive_health_failures: 0,
            probe_count: 0,
            last_probe_unix: None,
        }
    }
}

fn copy_bits(v: &Vec<u64>) -> (r: Vec<u64>)
    ensures
        r@ == v@,
{
    let mut r: Vec<u64> = Vec::new();
    let mut i: usize = 0;
    while i < v.len()
        invariant
            i <= v@.len(),
            r@ == v@.take(i as int),
        decreases v@.len() - i,
    {
        r.push(v[i]);
        i = i + 1;
        assert(v@.take(i as int) =~= v@.take(i - 1).push(v@[i - 1]));
    }
    assert(v@.take(v@.len() as int) =~= v@);
    r
}

impl Model for NodeStats {
    fn dup(&self) -> (r: Self) {
        NodeStats {
            success_ema: self.success_ema,
            rtt_ema_ms: self.rtt_ema_ms,
            recent_rtts_ms: copy_bits(&self.recent_rtts_ms),
            consecutive_health_failures: self.consecutive_health_failures,
            probe_count: self.probe_count,
            last_probe_unix: self.last_probe_unix,
        }
    }
}

/// A successful round trip: the sample itself, and the sample blended into
/// the previous average.
#[derive(Clone, Copy)]
pub struct RttBlend {
    pub sample: u64,
    pub blended: u64,
}

/// What the moving-average arithmetic gives for one probe: the success sample
/// blended into the previous average, and the round trip if there was one.
#[derive(Clone, Copy)]
pub struct ProbeBlend {
    pub success: u64,
    pub rtt: Option<RttBlend>,
}

/// The statistics after one more probe result. The first sample sets an
/// average directly; later samples blend in. A failed probe leaves the round
/// trips alone, and only the newest samples are kept.
pub open spec fn probed(s: NodeStatsView, blend: ProbeBlend, now_unix: i64) -> NodeStatsView {
    let pushed = match blend.rtt {
        Some(r) => s.recent_rtts_ms.push(r.sample),
        None => s.recent_rtts_ms,
    };
    NodeStatsView {
        success_ema: if s.probe_count == 0 {
            if blend.rtt is Some {
                ONE_BITS
            } else {
                ZERO_BITS
            }
        } else {
            blend.success
        },
        rtt_ema_ms: match blend.rtt {
            Some(r) => Some(
                if s.rtt_ema_ms is Some {
                    r.blended
                } else {
                    r.sample
                },
            ),
            None => s.rtt_ema_ms,
        },
        recent_rtts_ms: if blend.rtt is Some && pushed.len() > RTT_HISTORY {
            pushed.skip(1)
        } else {
            pushed
        },
        consecutive_health_failures: s.consecutive_health_failures,
        probe_count: (s.probe_count + 1) as u64,
        last_probe_unix: Some(now_unix),
    }
}

impl NodeStats {
    /// Record one probe result.
    pub fn record_probe(&mut self, blend: ProbeBlend, now_unix: i64)
        requires
            old(self).probe_count < u64::MAX,
        ensures
            final(self)@ == probed(old(self)@, blend, now_unix),
    {
        let first = self.probe_count == 0;
        self.success_ema = if first {
            if blend.rtt.is_some() {
                ONE_BITS
            } else {
                ZERO_BITS
            }
        } else {
            blend.success
        };
        if let Some(r) = blend.rtt {
            let previous = self.rtt_ema_ms;
            self.rtt_ema_ms = Some(
                if previous.is_some() {
                    r.blended
                } else {
                    r.sample
                },
            );
            self.recent_rtts_ms.push(r.sample);
            if self.recent_rtts_ms.len() > RTT_HISTORY {
                let ghost pushed = self.recent_rtts_ms@;
                self.recent_rtts_ms.remove(0);
                assert(self.recent_rtts_ms@ =~= pushed.skip(1));
            }
        }
        self.probe_count = self.probe_count + 1;
        self.last_probe_unix = Some(now_unix);
    }

    pub fn is_probed(&self) -> (b: bool)
        ensures
            b == (self@.probe_count > 0),
    {
        self.probe_count > 0
    }
}

/// The place of a double in the total order of doubles, from its bits:
/// negative values descend by magnitude, positive ones ascend.
pub open spec fn total_key(bits: u64) -> int {
    if bits < 0x8000_0000_0000_0000 {
        bits as int
    } else {
        0x7fff_ffff_ffff_ffff - bits
    }
}

/// Is the double with bits `a` below the double with bits `b` in the total
/// order?
pub fn total_less(a: u64, b: u64) -> (r: bool)
    ensures
        r == (total_key(a) < total_key(b)),
{
    let sign: u64 = 0x8000_0000_0000_0000;
    if a < sign {
        b < sign && a < b
    } else {
        b < sign || a > b
    }
}

/// A shorter round trip is better, and any round trip is better than none.
pub open spec fn rtt_worse(a: Option<u64>, b: Option<u64>) -> bool {
    match (a, b) {
        (Some(x), Some(y)) => total_key(x) > total_key(y),
        (None, Some(_)) => true,
        _ => false,
    }
}

/// `a` scores strictly below `b`: a lower success rate, or the same success
/// rate and a worse round trip.
pub open spec fn scores_below(a: NodeStatsView, b: NodeStatsView) -> bool {
    ||| total_key(a.success_ema) < total_key(b.success_ema)
    ||| total_key(a.success_ema) == total_key(b.success_ema) && rtt_worse(
        a.rtt_ema_ms,
        b.rtt_ema_ms,
    )
}

/// Does `a` score strictly below `b`?
pub fn is_below(a: &NodeStats, b: &NodeStats) -> (r: bool)
    ensures
        r == scores_below(a@, b@),
{
    if total_less(a.success_ema, b.success_ema) {
        true
    } else if total_less(b.success_ema, a.success_ema) {
        false
    } else {
        match (a.rtt_ema_ms, b.rtt_ema_ms) {
            (Some(x), Some(y)) => total_less(y, x),
            (None, Some(_)) => true,
            _ => false,
        }
    }
}

/// Compare two nodes by score, ascending.
pub fn score_cmp(a: &NodeStats, b: &NodeStats) -> (o: Ordering)
    ensures
        o == Ordering::Less <==> scores_below(a@, b@),
        o == Ordering::Greater <==> scores_below(b@, a@),
        o == Ordering::Equal <==> !scores_below(a@, b@) && !scores_below(b@, a@),
{
    if is_below(a, b) {
        Ordering::Less
    } else if is_below(b, a) {
        Ordering::Greater
    } else {
        Ordering::Equal
    }
}

/// How the success rates of a challenger and an incumbent compare once the
/// hysteresis margin is taken off.
#[derive(Clone, Copy, PartialEq, Eq, Structural)]
pub enum SuccessGap {
    /// The rates differ by no more than the margin.
    WithinMargin,
    ChallengerAhead,
    ChallengerBehind,
}

/// A challenger takes over with a clear lead in success rate; inside the
/// margin only a clearly shorter round trip counts. Unprobed nodes never
/// challenge, and an unprobed incumbent yields to any probed challenger.
pub open spec fn wins(
    challenger: NodeStatsView,
    incumbent: NodeStatsView,
    gap: SuccessGap,
    clearly_faster: bool,
) -> bool {
    if challenger.probe_count == 0 {
        false
    } else if incumbent.probe_count == 0 {
        true
    } else {
        match gap {
            SuccessGap::ChallengerAhead => true,
            SuccessGap::ChallengerBehind => false,
            SuccessGap::WithinMargin => match (challenger.rtt_ema_ms, incumbent.rtt_ema_ms) {
                (Some(_), Some(_)) => clearly_faster,
                (Some(_), None) => true,
                _ => false,
            },
        }
    }
}

/// The hysteresis decision. `gap` and `clearly_faster` are the two
/// comparisons that need floating-point arithmetic.
pub fn challenger_wins(
    challenger: &NodeStats,
    incumbent: &NodeStats,
    gap: SuccessGap,
    clearly_faster: bool,
) -> (r: bool)
    ensures
        r == wins(challenger@, incumbent@, gap, clearly_faster),
{
    if !challenger.is_probed() {
        return false;
    }
    if !incumbent.is_probed() {
        return true;
    }
    match gap {
        SuccessGap::ChallengerAhead => true,
        SuccessGap::ChallengerBehind => false,
        SuccessGap::WithinMargin => match (challenger.rtt_ema_ms, incumbent.rtt_ema_ms) {
            (Some(_), Some(_)) => clearly_faster,
            (Some(_), None) => true,
            _ => false,
        },
    }
}

/// Scoring is a strict weak order: ranking by it is well defined.
pub proof fn law_score_order(a: NodeStatsView, b: NodeStatsView, c: NodeStatsView)
    ensures
        !scores_below(a, a),
        scores_below(a, b) && scores_below(b, c) ==> scores_below(a, c),
        !scores_below(a, b) && !scores_below(b, c) ==> !scores_below(a, c),
{
}

/// The round-trip history never outgrows its cap.
pub proof fn law_history_is_capped(s: NodeStatsView, blend: ProbeBlend, now_unix: i64)
    requires
        s.recent_rtts_ms.len() <= RTT_HISTORY,
    ensures
        probed(s, blend, now_unix).recent_rtts_ms.len() <= RTT_HISTORY,
        blend.rtt is Some ==> probed(s, blend, now_unix).recent_rtts_ms.last() == blend.rtt->0.sample,
        blend.rtt is None ==> probed(s, blend, now_unix).recent_rtts_ms == s.recent_rtts_ms,
{
}

/// The first probe of a node sets its success average to one or to zero; from
/// the second on it is the blended value, whatever the round trips are.
pub proof fn law_only_the_first_probe_sets_the_success_rate(
    s: NodeStatsView,
    blend: ProbeBlend,
    now_unix: i64,
)
    requires
        s.probe_count < u64::MAX,
    ensures
        s.probe_count > 0 ==> probed(s, blend, now_unix).success_ema == blend.success,
        s.probe_count == 0 && blend.rtt is Some ==> probed(s, blend, now_unix).success_ema
            == 0x3ff0_0000_0000_0000,
        s.probe_count == 0 && blend.rtt is None ==> probed(s, blend, now_unix).success_ema == 0,
{
}

/// A failed probe leaves the round-trip average alone; a successful one is the
/// average where there was none, and blends into one that was there. Every
/// probe counts once, is dated, and says nothing about health checks.
pub proof fn law_probe_books_one_round_trip(s: NodeStatsView, blend: ProbeBlend, now_unix: i64)
    requires
        s.probe_count < u64::MAX,
    ensures
        blend.rtt is None ==> probed(s, blend, now_unix).rtt_ema_ms == s.rtt_ema_ms,
        blend.rtt is Some && s.rtt_ema_ms is None ==> probed(s, blend, now_unix).rtt_ema_ms
            == Some((blend.rtt->0).sample),
        blend.rtt is Some && s.rtt_ema_ms is Some ==> probed(s, blend, now_unix).rtt_ema_ms
            == Some((blend.rtt->0).blended),
        probed(s, blend, now_unix).probe_count == s.probe_count + 1,
        probed(s, blend, now_unix).last_probe_unix == Some(now_unix),
        probed(s, blend, now_unix).consecutive_health_failures == s.consecutive_health_failures,
{
}

/// The statistics after a series of probes.
pub open spec fn after_probes(s: NodeStatsView, series: Seq<(ProbeBlend, i64)>) -> NodeStatsView
    decreases series.len(),
{
    if series.len() == 0 {
        s
    } else {
        probed(after_probes(s, series.drop_last()), series.last().0, series.last().1)
    }
}

/// The round trips of the probes that succeeded, oldest first.
pub open spec fn round_trips(series: Seq<(ProbeBlend, i64)>) -> Seq<u64>
    decreases series.len(),
{
    if series.len() == 0 {
        Seq::empty()
    } else {
        let before = round_trips(series.drop_last());
        match series.last().0.rtt {
            Some(r) => before.push(r.sample),
            None => before,
        }
    }
}

/// At most the last `n` elements.
pub open spec fn newest(s: Seq<u64>, n: nat) -> Seq<u64> {
    if s.len() <= n {
        s
    } else {
        s.skip(s.len() - n)
    }
}

/// After any series of probes the history holds the last twenty round trips in
/// order, and every probe of the series was counted.
pub proof fn law_history_is_the_newest_round_trips(
    s: NodeStatsView,
    series: Seq<(ProbeBlend, i64)>,
)
    requires
        s.recent_rtts_ms.len() <= 20,
        s.probe_count + series.len() <= u64::MAX,
    ensures
        after_probes(s, series).recent_rtts_ms == newest(
            s.recent_rtts_ms + round_trips(series),
            20,
        ),
        after_probes(s, series).probe_count == s.probe_count + series.len(),
    decreases series.len(),
{
    let all = s.recent_rtts_ms + round_trips(series);
    if series.len() == 0 {
        assert(all =~= s.recent_rtts_ms);
    } else {
        let d = series.drop_last();
        law_history_is_the_newest_round_trips(s, d);
        let before = s.recent_rtts_ms + round_trips(d);
        match series.last().0.rtt {
            Some(r) => {
                assert(all =~= before.push(r.sample));
                assert(after_probes(s, series).recent_rtts_ms =~= newest(all, 20));
            },
            None => {
                assert(all =~= before);
            },
        }
    }
}

/// Of two nodes the one with the higher success rate scores higher, whatever
/// the round trips; at the same rate the shorter round trip scores higher, and
/// a node without one lower than any with one. Rates and round trips are
/// compared as the doubles that they are: of two that are not negative, the
/// one with the larger bits is the larger.
pub proof fn law_score_prefers_success_then_speed(a: NodeStatsView, b: NodeStatsView)
    requires
        a.success_ema < 0x8000_0000_0000_0000,
        b.success_ema < 0x8000_0000_0000_0000,
        a.rtt_ema_ms is Some ==> a.rtt_ema_ms->0 < 0x8000_0000_0000_0000,
        b.rtt_ema_ms is Some ==> b.rtt_ema_ms->0 < 0x8000_0000_0000_0000,
    ensures
        a.success_ema > b.success_ema ==> scores_below(b, a) && !scores_below(a, b),
        a.success_ema == b.success_ema && a.rtt_ema_ms is Some && b.rtt_ema_ms is Some ==> (
        scores_below(b, a) <==> a.rtt_ema_ms->0 < b.rtt_ema_ms->0),
        a.success_ema == b.success_ema && a.rtt_ema_ms is Some && b.rtt_ema_ms is None
            ==> scores_below(b, a) && !scores_below(a, b),
        a.success_ema == b.success_ema && a.rtt_ema_ms == b.rtt_ema_ms ==> !scores_below(a, b)
            && !scores_below(b, a),
{
}

/// The order of doubles by their bits: a sign bit puts a value below every
/// value without one, and turns the order of magnitudes round.
pub proof fn law_total_order_of_doubles(a: u64, b: u64)
    ensures
        a < 0x8000_0000_0000_0000 && b < 0x8000_0000_0000_0000 ==> (total_key(a) < total_key(b)
            <==> a < b),
        a >= 0x8000_0000_0000_0000 && b < 0x8000_0000_0000_0000 ==> total_key(a) < total_key(b),
        a >= 0x8000_0000_0000_0000 && b >= 0x8000_0000_0000_0000 ==> (total_key(a) < total_key(b)
            <==> a > b),
{
}

/// Who takes over from whom. A node that was never probed takes over from
/// nobody and yields to every probed one. Between probed nodes a clear lead in
/// success rate decides; without one the challenger needs a round trip, and a
/// clearly shorter one than the incumbent's if that has any.
pub proof fn law_takeover_needs_a_clear_lead(
    challenger: NodeStatsView,
    incumbent: NodeStatsView,
    gap: SuccessGap,
    clearly_faster: bool,
)
    ensures
        wins(challenger, incumbent, gap, clearly_faster) ==> challenger.probe_count > 0,
        challenger.probe_count > 0 && incumbent.probe_count == 0 ==> wins(
            challenger,
            incumbent,
            gap,
            clearly_faster,
        ),
        challenger.probe_count > 0 && incumbent.probe_count > 0 ==> {
            &&& gap == SuccessGap::ChallengerAhead ==> wins(
                challenger,
                incumbent,
                gap,
                clearly_faster,
            )
            &&& gap == SuccessGap::ChallengerBehind ==> !wins(
                challenger,
                incumbent,
                gap,
                clearly_faster,
            )
            &&& gap == SuccessGap::WithinMargin ==> (wins(
                challenger,
                incumbent,
                gap,
                clearly_faster,
            ) <==> challenger.rtt_ema_ms is Some && (incumbent.rtt_ema_ms is None
                || clearly_faster))
        },
        challenger.probe_count > 0 && incumbent.probe_count > 0 && !clearly_faster ==> !(wins(
            challenger,
            incumbent,
            SuccessGap::WithinMargin,
            clearly_faster,
        ) && wins(incumbent, challenger, SuccessGap::WithinMargin, clearly_faster)),
{
}

} // verus!
