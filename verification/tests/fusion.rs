use fincore::kalman_filter::{ExchangeRateFusion, KalmanFilter, RateSource};

#[test]
fn test_kalman_filter() {
    let mut filter = KalmanFilter::new(6_500_000, 100_000);

    let measurements = vec![6_520_000u64, 6_480_000, 6_510_000, 6_490_000, 6_500_000];

    for &z in &measurements {
        filter.predict();
        filter.update(z, 10_000);
    }

    let final_estimate = filter.get_estimate();
    assert!(final_estimate > 6_450_000 && final_estimate < 6_550_000);
}

fn sample_sources() -> Vec<RateSource> {
    vec![
        RateSource {
            name: "央行".to_string(),
            rate: 6_500_000,
            weight: 500_000,
            noise_variance: 100,
        },
        RateSource {
            name: "Yahoo".to_string(),
            rate: 6_520_000,
            weight: 300_000,
            noise_variance: 10_000,
        },
        RateSource {
            name: "手动".to_string(),
            rate: 6_480_000,
            weight: 200_000,
            noise_variance: 50_000,
        },
    ]
}

#[test]
fn test_rate_fusion() {
    let mut fusion = ExchangeRateFusion::new();

    let sources = sample_sources();

    let fused_rate = fusion.fuse_rates("CNY/USD", &sources);
    assert!(fused_rate > 6_450_000 && fused_rate < 6_550_000);
}

#[test]
fn test_fusion_confidence_in_range() {
    let mut fusion = ExchangeRateFusion::new();
    fusion.fuse_rates("CNY/USD", &sample_sources());
    let (rate, confidence) = fusion.get_rate_with_confidence("CNY/USD").unwrap();
    assert!(rate > 6_450_000 && rate < 6_550_000);
    assert!(confidence > 0 && confidence <= 1_000_000);
}

#[test]
fn test_fusion_absent_key_is_none() {
    let fusion = ExchangeRateFusion::new();
    assert!(fusion.get_rate_with_confidence("EUR/USD").is_none());
    let mut fusion = ExchangeRateFusion::default();
    fusion.fuse_rates("CNY/USD", &sample_sources());
    assert!(fusion.get_rate_with_confidence("EUR/USD").is_none());
}

#[test]
fn test_fusion_keys_are_independent() {
    let mut fusion = ExchangeRateFusion::new();
    fusion.fuse_rates("CNY/USD", &sample_sources());
    let before = fusion.get_rate_with_confidence("CNY/USD").unwrap();
    let other = vec![RateSource {
        name: "ECB".to_string(),
        rate: 1_080_000,
        weight: 1_000_000,
        noise_variance: 100,
    }];
    fusion.fuse_rates("EUR/USD", &other);
    let after = fusion.get_rate_with_confidence("CNY/USD").unwrap();
    assert_eq!(before, after);
    let eur = fusion.get_rate_with_confidence("EUR/USD").unwrap();
    assert!(eur.0 > 1_000_000 && eur.0 < 1_200_000);
}

#[test]
fn test_update_constant_measurement_keeps_estimate_and_shrinks_p() {
    let mut filter = KalmanFilter::new(6_500_000, 10_000);
    let mut last_p = filter.get_variance();
    for _ in 0..5 {
        filter.update(6_500_000, 10_000);
        assert_eq!(filter.get_estimate(), 6_500_000);
        assert!(filter.get_variance() < last_p);
        last_p = filter.get_variance();
    }
}

#[test]
fn test_update_zero_noise_snaps_to_measurement() {
    let mut filter = KalmanFilter::new(6_500_000, 10_000);
    filter.update(7_777_777, 0);
    assert_eq!(filter.get_estimate(), 7_777_777);
    assert_eq!(filter.get_variance(), 0);
}

#[test]
fn test_update_zero_noise_on_zero_covariance() {
    // Both uncertainties zero: the explicit gain-1 policy makes the
    // measurement authoritative instead of dividing zero by zero.
    let mut filter = KalmanFilter::new(6_500_000, 0);
    filter.update(6_000_000, 0);
    assert_eq!(filter.get_estimate(), 6_000_000);
    assert_eq!(filter.get_variance(), 0);
}

#[test]
fn test_predict_grows_covariance() {
    let mut filter = KalmanFilter::new(6_500_000, 10_000);
    filter.predict();
    assert_eq!(filter.get_variance(), 10_100);
    assert_eq!(filter.get_estimate(), 6_500_000);
}

#[test]
fn test_fusion_zero_weight_falls_back_to_first_rate() {
    let mut fusion = ExchangeRateFusion::new();
    let sources = vec![
        RateSource { name: "a".to_string(), rate: 5_000_000, weight: 0, noise_variance: 100 },
        RateSource { name: "b".to_string(), rate: 9_000_000, weight: 0, noise_variance: 100 },
    ];
    let fused = fusion.fuse_rates("X/Y", &sources);
    // Seeded from the first rate; the later updates stay between the
    // seed and the measurements.
    assert!(fused >= 5_000_000 && fused <= 9_000_000);
}

#[test]
fn test_fusion_empty_batch_seeds_zero() {
    let mut fusion = ExchangeRateFusion::new();
    let fused = fusion.fuse_rates("X/Y", &Vec::new());
    assert_eq!(fused, 0);
    let (rate, confidence) = fusion.get_rate_with_confidence("X/Y").unwrap();
    assert_eq!(rate, 0);
    assert!(confidence <= 1_000_000);
}
