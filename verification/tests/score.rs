//! Node statistics and the hysteresis decision. The averages are computed
//! here in floating point, as the program does, and handed over as bits.

use std::cmp::Ordering;

use causeway::score::{
    challenger_wins, score_cmp, total_less, NodeStats, ProbeBlend, RttBlend, SuccessGap,
    RTT_HISTORY,
};

const ALPHA: f64 = 0.3;

fn stats(success: f64, rtt_ms: Option<f64>) -> NodeStats {
    NodeStats {
        success_ema: success.to_bits(),
        rtt_ema_ms: rtt_ms.map(f64::to_bits),
        recent_rtts_ms: Vec::new(),
        consecutive_health_failures: 0,
        probe_count: 1,
        last_probe_unix: Some(0),
    }
}

fn record(s: &mut NodeStats, rtt_ms: Option<f64>, alpha: f64, now: i64) {
    let sample = if rtt_ms.is_some() { 1.0 } else { 0.0 };
    let success = alpha * sample + (1.0 - alpha) * f64::from_bits(s.success_ema);
    let rtt = rtt_ms.map(|ms| RttBlend {
        sample: ms.to_bits(),
        blended: match s.rtt_ema_ms {
            Some(prev) => (alpha * ms + (1.0 - alpha) * f64::from_bits(prev)).to_bits(),
            None => ms.to_bits(),
        },
    });
    s.record_probe(
        ProbeBlend {
            success: success.to_bits(),
            rtt,
        },
        now,
    );
}

fn wins(challenger: &NodeStats, incumbent: &NodeStats, hysteresis: f64) -> bool {
    let c = f64::from_bits(challenger.success_ema);
    let i = f64::from_bits(incumbent.success_ema);
    let margin = hysteresis * i.max(0.05);
    let diff = c - i;
    let gap = if diff.abs() > margin {
        if diff > 0.0 {
            SuccessGap::ChallengerAhead
        } else {
            SuccessGap::ChallengerBehind
        }
    } else {
        SuccessGap::WithinMargin
    };
    let faster = match (challenger.rtt_ema_ms, incumbent.rtt_ema_ms) {
        (Some(a), Some(b)) => f64::from_bits(a) * (1.0 + hysteresis) < f64::from_bits(b),
        _ => false,
    };
    challenger_wins(challenger, incumbent, gap, faster)
}

#[test]
fn first_sample_sets_ema_directly() {
    let mut s = NodeStats::default();
    record(&mut s, Some(100.0), ALPHA, 1);
    assert_eq!(f64::from_bits(s.success_ema), 1.0);
    assert_eq!(s.rtt_ema_ms.map(f64::from_bits), Some(100.0));
    assert_eq!(s.probe_count, 1);
    assert_eq!(s.recent_rtts_ms, vec![100.0f64.to_bits()]);
}

#[test]
fn rtt_history_is_capped_newest_last() {
    let mut s = NodeStats::default();
    for i in 0..(RTT_HISTORY as u64 + 10) {
        record(&mut s, Some(i as f64), ALPHA, i as i64);
    }
    assert_eq!(s.recent_rtts_ms.len(), RTT_HISTORY);
    assert_eq!(
        f64::from_bits(*s.recent_rtts_ms.last().unwrap()),
        (RTT_HISTORY as u64 + 9) as f64
    );
    // Failed probes do not pollute the latency history.
    record(&mut s, None, ALPHA, 999);
    assert_eq!(s.recent_rtts_ms.len(), RTT_HISTORY);
}

#[test]
fn ema_blends_subsequent_samples() {
    let mut s = NodeStats::default();
    record(&mut s, Some(100.0), ALPHA, 1);
    record(&mut s, None, ALPHA, 2);
    // success: 0.3*0 + 0.7*1 = 0.7; a failed sample does not change the RTT EMA
    assert!((f64::from_bits(s.success_ema) - 0.7).abs() < 1e-9);
    assert_eq!(s.rtt_ema_ms.map(f64::from_bits), Some(100.0));
    record(&mut s, Some(200.0), ALPHA, 3);
    // success: 0.3*1 + 0.7*0.7 = 0.79; rtt: 0.3*200 + 0.7*100 = 130
    assert!((f64::from_bits(s.success_ema) - 0.79).abs() < 1e-9);
    assert!((f64::from_bits(s.rtt_ema_ms.unwrap()) - 130.0).abs() < 1e-9);
}

#[test]
fn score_cmp_prefers_success_then_rtt() {
    let a = stats(0.9, Some(300.0));
    let b = stats(0.8, Some(50.0));
    assert_eq!(
        score_cmp(&a, &b),
        Ordering::Greater,
        "success rate outranks RTT"
    );
    let c = stats(0.9, Some(50.0));
    assert_eq!(
        score_cmp(&c, &a),
        Ordering::Greater,
        "equal success rate compares RTT"
    );
}

#[test]
fn challenger_needs_clear_success_margin() {
    let incumbent = stats(0.80, Some(100.0));
    let slightly_better = stats(0.88, Some(100.0)); // +10% < 30% hysteresis
    let clearly_better = stats(0.80 * 1.31, Some(150.0)); // +31% > 30%
    assert!(!wins(&slightly_better, &incumbent, 0.30));
    assert!(wins(&clearly_better, &incumbent, 0.30));
    // Clearly worse loses outright
    let worse = stats(0.5, Some(10.0));
    assert!(!wins(&worse, &incumbent, 0.30));
}

#[test]
fn rtt_tiebreak_within_margin() {
    let incumbent = stats(0.80, Some(100.0));
    // Success rate within the hysteresis band, RTT 50% lower > 30% → wins
    let faster = stats(0.85, Some(50.0));
    assert!(wins(&faster, &incumbent, 0.30));
    // RTT only 10% lower < 30% → stickiness holds
    let a_bit_faster = stats(0.85, Some(90.0));
    assert!(!wins(&a_bit_faster, &incumbent, 0.30));
    // RTT slower → holds
    let slower = stats(0.82, Some(200.0));
    assert!(!wins(&slower, &incumbent, 0.30));
}

#[test]
fn unprobed_nodes_never_challenge() {
    let incumbent = stats(0.1, Some(1000.0));
    assert!(!wins(&NodeStats::default(), &incumbent, 0.30));
    // When the incumbent has no data, any probed challenger wins outright
    assert!(wins(&stats(0.01, Some(999.0)), &NodeStats::default(), 0.30));
}

#[test]
fn zero_success_incumbent_has_floor_margin() {
    let incumbent = stats(0.0, None);
    let tiny = stats(0.01, Some(50.0)); // 1% < 5% floor → inside the band → RTT compared (incumbent has no RTT) → wins
    assert!(wins(&tiny, &incumbent, 0.30));
}

#[test]
fn bits_order_as_doubles_do() {
    let values = [
        f64::NEG_INFINITY,
        -1.5,
        -0.0,
        0.0,
        1e-300,
        0.3,
        1.0,
        2.0,
        f64::INFINITY,
        f64::NAN,
        -f64::NAN,
    ];
    for a in values {
        for b in values {
            assert_eq!(
                total_less(a.to_bits(), b.to_bits()),
                a.total_cmp(&b) == Ordering::Less,
                "{a} {b}"
            );
        }
    }
}

#[test]
fn equal_scores_compare_equal() {
    assert_eq!(
        score_cmp(&stats(0.5, None), &stats(0.5, None)),
        Ordering::Equal
    );
    assert_eq!(
        score_cmp(&stats(0.5, None), &stats(0.5, Some(9.0))),
        Ordering::Less
    );
    assert_eq!(
        NodeStats::default().success_ema,
        NodeStats::default().success_ema
    );
    assert!(!NodeStats::default().is_probed());
}
