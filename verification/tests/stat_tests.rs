use tunnel_control::server_stat::{Score, ServerStat};

#[test]
fn fresh_score_is_800() {
    let stat = ServerStat::new();
    assert_eq!(stat.score(), 800);
    assert_eq!(stat.latency_ms(), 2000);
    assert_eq!(stat.failure_rate(), (1, 1));
    assert_eq!(stat.latency_variance(), (0, 1));
    assert_eq!(stat.window_len(), 0);
}

#[test]
fn single_latency_scores_ten() {
    let mut stat = ServerStat::new();
    let score = stat.push_score(Score::Latency(100));
    assert_eq!(score, 10);
    assert_eq!(stat.latency_ms(), 100);
    assert_eq!(stat.failure_rate(), (0, 1));
    assert_eq!(stat.latency_variance(), (0, 1));
}

#[test]
fn single_failure_keeps_default_score() {
    let mut stat = ServerStat::new();
    let score = stat.push_score(Score::Errored);
    assert_eq!(score, 800);
    assert_eq!(stat.latency_ms(), 2000);
    assert_eq!(stat.failure_rate(), (1, 1));
    assert_eq!(stat.latency_variance(), (0, 1));
}

#[test]
fn median_of_two_latencies() {
    let mut stat = ServerStat::new();
    stat.push_score(Score::Latency(100));
    let score = stat.push_score(Score::Latency(200));
    assert_eq!(stat.latency_ms(), 150);
    assert_eq!(stat.failure_rate(), (0, 2));
    // corrected sample variance of {100, 200}: (2*(100^2+200^2) - 300^2) / (2*1)
    assert_eq!(stat.latency_variance(), (10000, 2));
    assert_eq!(stat.latency_mean(), (300, 2));
    // 150/2000*200 + 0 + sqrt(10000/(50*2)) = 15 + 10
    assert_eq!(score, 25);
}

#[test]
fn median_of_three_latencies() {
    let mut stat = ServerStat::new();
    stat.push_score(Score::Latency(300));
    stat.push_score(Score::Latency(100));
    stat.push_score(Score::Latency(200));
    assert_eq!(stat.latency_ms(), 200);
}

#[test]
fn window_caps_at_99_fifo() {
    let mut stat = ServerStat::new();
    for k in 0..150u64 {
        stat.push_score(Score::Latency(k));
        assert!(stat.window_len() <= 99);
    }
    assert_eq!(stat.window_len(), 99);
    // the oldest 51 outcomes (latencies 0..=50) were evicted in order
    for i in 0..99usize {
        assert_eq!(stat.outcome_at(i), Score::Latency(51 + i as u64));
    }
}

#[test]
fn rates_stay_bounded_after_every_push() {
    let mut stat = ServerStat::new();
    for k in 0..300u64 {
        if k % 3 == 0 {
            stat.push_score(Score::Errored);
        } else {
            stat.push_score(Score::Latency((k * 37) % 2001));
        }
        let (fnum, fden) = stat.failure_rate();
        assert!(fden >= 1);
        assert!(fnum <= fden);
        let (_vnum, vden) = stat.latency_variance();
        assert!(vden >= 1);
    }
}

#[test]
fn all_failures_retain_latency_statistics() {
    let mut stat = ServerStat::new();
    stat.push_score(Score::Latency(100));
    stat.push_score(Score::Latency(200));
    let before_latency = stat.latency_ms();
    let before_var = stat.latency_variance();
    stat.push_score(Score::Errored);
    assert_eq!(stat.latency_ms(), before_latency);
    assert_eq!(stat.latency_variance(), before_var);
    assert_eq!(stat.failure_rate(), (1, 3));
}
