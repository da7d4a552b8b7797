//! Severity ladders.

use andon_core::schema::enums::Severity;
use andon_core::schema::payload::{MetricValue, Ratio};
use andon_core::verdict::ladder::{LadderError, Rung, SeverityLadder, Threshold};

const COUNTS: &[Rung] = &[
    Rung {
        at: Threshold::Count(10),
        severity: Severity::Medium,
    },
    Rung {
        at: Threshold::Count(20),
        severity: Severity::High,
    },
    Rung {
        at: Threshold::Count(50),
        severity: Severity::Critical,
    },
];

fn severity(ladder: SeverityLadder, value: MetricValue) -> Severity {
    ladder
        .severity_for(&value)
        .expect("the ladder applies")
        .expect("not a per-result ladder")
}

#[test]
fn a_value_below_every_rung_is_info() {
    assert_eq!(
        severity(SeverityLadder::Thresholds(COUNTS), MetricValue::Count(9)),
        Severity::Info
    );
}

#[test]
fn the_highest_rung_reached_wins() {
    let ladder = SeverityLadder::Thresholds(COUNTS);
    assert_eq!(severity(ladder, MetricValue::Count(10)), Severity::Medium);
    assert_eq!(severity(ladder, MetricValue::Count(19)), Severity::Medium);
    assert_eq!(severity(ladder, MetricValue::Count(20)), Severity::High);
    assert_eq!(severity(ladder, MetricValue::Count(49)), Severity::High);
    assert_eq!(severity(ladder, MetricValue::Count(50)), Severity::Critical);
    assert_eq!(
        severity(ladder, MetricValue::Count(u64::MAX)),
        Severity::Critical
    );
}

#[test]
fn a_rung_is_reached_at_its_own_value_not_above_it() {
    let ladder = SeverityLadder::Thresholds(COUNTS);
    assert_eq!(severity(ladder, MetricValue::Count(9)), Severity::Info);
    assert_eq!(severity(ladder, MetricValue::Count(10)), Severity::Medium);
}

#[test]
fn an_absent_measurement_ranks_at_info_under_every_ladder() {
    let absent = MetricValue::Text("no-history".to_string());
    assert_eq!(
        severity(SeverityLadder::Thresholds(COUNTS), absent.clone()),
        Severity::Info
    );
    assert_eq!(
        severity(SeverityLadder::Flag(Severity::High), absent),
        Severity::Info
    );
}

#[test]
fn a_flag_ladder_ranks_only_a_firing() {
    let ladder = SeverityLadder::Flag(Severity::High);
    assert_eq!(severity(ladder, MetricValue::Flag(true)), Severity::High);
    assert_eq!(severity(ladder, MetricValue::Flag(false)), Severity::Info);
}

#[test]
fn no_opinion_is_info_whatever_the_number() {
    assert_eq!(
        severity(SeverityLadder::NoOpinion, MetricValue::Count(1_000_000)),
        Severity::Info
    );
}

#[test]
fn a_per_result_ladder_defers_to_the_engine() {
    assert_eq!(
        SeverityLadder::PerResult
            .severity_for(&MetricValue::Flag(true))
            .expect("applies"),
        None
    );
}

#[test]
fn a_ladder_declared_in_the_wrong_units_is_a_refusal_not_an_info() {
    let err = SeverityLadder::Thresholds(COUNTS)
        .severity_for(&MetricValue::Ratio(Ratio::Millionths(900_000)))
        .expect_err("a kind mismatch must refuse");
    assert!(matches!(err, LadderError::KindMismatch { .. }), "{err:?}");

    assert!(matches!(
        SeverityLadder::Thresholds(COUNTS).severity_for(&MetricValue::Flag(true)),
        Err(LadderError::ThresholdsOverAFlag)
    ));
    assert!(matches!(
        SeverityLadder::Flag(Severity::High).severity_for(&MetricValue::Count(3)),
        Err(LadderError::NotAFlag { .. })
    ));
}

#[test]
fn rungs_that_do_not_ascend_are_refused() {
    const DESCENDING: &[Rung] = &[
        Rung {
            at: Threshold::Count(10),
            severity: Severity::High,
        },
        Rung {
            at: Threshold::Count(20),
            severity: Severity::Medium,
        },
    ];
    assert!(matches!(
        SeverityLadder::Thresholds(DESCENDING).severity_for(&MetricValue::Count(30)),
        Err(LadderError::UnorderedRungs)
    ));
}

#[test]
fn ratio_rungs_compare_against_ratios() {
    const RATIOS: &[Rung] = &[Rung {
        at: Threshold::Ratio(Ratio::Millionths(250_000)),
        severity: Severity::Medium,
    }];
    let ladder = SeverityLadder::Thresholds(RATIOS);
    assert_eq!(severity(ladder, MetricValue::Ratio(Ratio::Millionths(240_000))), Severity::Info);
    assert_eq!(severity(ladder, MetricValue::Ratio(Ratio::Millionths(250_000))), Severity::Medium);
}

#[test]
fn the_strongest_rung_is_what_the_band_assertion_reads() {
    assert_eq!(
        SeverityLadder::Thresholds(COUNTS).strongest(),
        Severity::Critical
    );
    assert_eq!(SeverityLadder::NoOpinion.strongest(), Severity::Info);
    assert_eq!(
        SeverityLadder::Flag(Severity::High).strongest(),
        Severity::High
    );
    assert!(!SeverityLadder::NoOpinion.strongest().is_med_plus());
}

#[test]
fn a_ratio_that_is_no_number_still_compares() {
    const RATIOS: &[Rung] = &[Rung {
        at: Threshold::Ratio(Ratio::Millionths(250_000)),
        severity: Severity::Medium,
    }];
    let ladder = SeverityLadder::Thresholds(RATIOS);
    assert_eq!(
        severity(ladder, MetricValue::Ratio(Ratio::Infinite)),
        Severity::Medium
    );
    assert_eq!(
        severity(ladder, MetricValue::Ratio(Ratio::NegativeInfinite)),
        Severity::Info
    );
    assert_eq!(
        severity(ladder, MetricValue::Ratio(Ratio::NotANumber)),
        Severity::Info
    );
}

#[test]
fn a_ladder_never_ranks_above_its_strongest_rung() {
    let ladder = SeverityLadder::Thresholds(COUNTS);
    for n in [0, 9, 10, 20, 50, 1_000_000] {
        assert!(severity(ladder, MetricValue::Count(n)) <= ladder.strongest());
    }
}

#[test]
fn ratios_compare_exactly_whatever_their_size() {
    let small = Ratio::Millionths(250_000);
    let large = Ratio::Scaled { digits: 3, zeros: 40 };
    let larger = Ratio::Scaled { digits: 31, zeros: 39 };
    assert!(large.has_reached(small));
    assert!(!small.has_reached(large));
    assert!(larger.has_reached(large));
    assert!(!large.has_reached(larger));
    assert!(large.has_reached(Ratio::Scaled { digits: 30, zeros: 39 }));
    assert!(small.has_reached(Ratio::Scaled { digits: -3, zeros: 40 }));
    assert!(!Ratio::Scaled { digits: -3, zeros: 40 }.has_reached(small));
    assert!(Ratio::Infinite.has_reached(larger));
    assert!(Ratio::Infinite.has_reached(Ratio::Infinite));
    assert!(!larger.has_reached(Ratio::Infinite));
    assert!(larger.has_reached(Ratio::NegativeInfinite));
    assert!(!Ratio::NotANumber.has_reached(Ratio::NegativeInfinite));
    assert!(!Ratio::Infinite.has_reached(Ratio::NotANumber));
}

#[test]
fn a_larger_value_never_ranks_lower() {
    let ladder = SeverityLadder::Thresholds(COUNTS);
    let mut last = Severity::Info;
    for n in 0..60 {
        let now = severity(ladder, MetricValue::Count(n));
        assert!(now >= last, "{n} ranks below its predecessor");
        last = now;
    }
    assert_eq!(last, Severity::Critical);

    const RATIOS: &[Rung] = &[
        Rung {
            at: Threshold::Ratio(Ratio::Millionths(-1)),
            severity: Severity::Low,
        },
        Rung {
            at: Threshold::Ratio(Ratio::Scaled { digits: 1, zeros: 30 }),
            severity: Severity::High,
        },
    ];
    let ladder = SeverityLadder::Thresholds(RATIOS);
    let ranked: Vec<Severity> = [
        Ratio::NegativeInfinite,
        Ratio::Millionths(-2),
        Ratio::Millionths(-1),
        Ratio::Millionths(i64::MAX),
        Ratio::Scaled { digits: 1, zeros: 30 },
        Ratio::Infinite,
    ]
    .into_iter()
    .map(|r| severity(ladder, MetricValue::Ratio(r)))
    .collect();
    assert_eq!(
        ranked,
        vec![
            Severity::Info,
            Severity::Info,
            Severity::Low,
            Severity::Low,
            Severity::High,
            Severity::High,
        ]
    );
}
