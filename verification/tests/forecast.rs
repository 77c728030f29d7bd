use fincore::budget_predictor::{BudgetPredictor, SpendingRecord};
use fincore::calendar::CalendarDayType;

const DAY: i64 = 86_400;

#[test]
fn test_budget_prediction() {
    let predictor = BudgetPredictor::new(30);

    let now = chrono::Utc::now().timestamp();
    let start = now - 30 * DAY;
    let spending_history: Vec<SpendingRecord> = (0..30)
        .map(|i| SpendingRecord { timestamp: start + i * DAY, amount: 10_000 + (i as u64) * 200 })
        .collect();

    let period_start = start;
    let period_end = start + 60 * DAY;
    let current_time = now;
    let budget_amount = 500_000;

    let result = predictor.predict(
        &spending_history,
        budget_amount,
        period_start,
        period_end,
        current_time,
    );

    assert!(result.predicted_total > 0);
    assert!(result.confidence <= 1_000_000);
}

#[test]
fn test_predict_exact_fields() {
    // Three records in a three-day window, with the period ending now:
    // the forecast is exactly the amount spent, and every output field
    // has one exact expected value.
    let predictor = BudgetPredictor::new(3);
    let now = 10 * DAY;
    let history = vec![
        SpendingRecord { timestamp: now - 2 * DAY + 10, amount: 100 },
        SpendingRecord { timestamp: now - DAY + 20, amount: 200 },
        SpendingRecord { timestamp: now, amount: 300 },
    ];
    let r = predictor.predict(&history, 500, now - 5 * DAY, now, now);
    assert_eq!(r.daily_average, 200);
    assert_eq!(r.weighted_average, 233); // (100*1 + 200*2 + 300*3) / 6
    assert_eq!(r.predicted_total, 600);
    assert_eq!(r.predicted_exceed, 100); // max(0, 600 - 500)
    assert_eq!(r.confidence, 711_743); // 1e12 / (1e6 + 81e6/200)
    // A strictly increasing series weights recent spend more heavily.
    assert!(r.weighted_average > r.daily_average);
}

#[test]
fn test_predict_empty_window_is_all_zero() {
    let predictor = BudgetPredictor::new(30);
    let history: Vec<SpendingRecord> = Vec::new();
    let now = 100 * DAY;
    let r = predictor.predict(&history, 10_000, now - 10 * DAY, now + 10 * DAY, now);
    assert_eq!(r.predicted_total, 0);
    assert_eq!(r.predicted_exceed, 0);
    assert_eq!(r.confidence, 0);
    assert_eq!(r.daily_average, 0);
    assert_eq!(r.weighted_average, 0);
}

#[test]
fn test_predict_idempotent() {
    let predictor = BudgetPredictor::new(7);
    let now = 200 * DAY + 12_345;
    let history: Vec<SpendingRecord> = (0..14)
        .map(|i| SpendingRecord {
            timestamp: now - (13 - i) * DAY,
            amount: 5_000 + (i as u64 % 5) * 777,
        })
        .collect();
    let a = predictor.predict(&history, 1_000_000, now - 14 * DAY, now + 14 * DAY, now);
    let b = predictor.predict(&history, 1_000_000, now - 14 * DAY, now + 14 * DAY, now);
    assert_eq!(a, b);
}

#[test]
fn test_single_point_window_confidence_is_half() {
    let predictor = BudgetPredictor::new(30);
    let now = 50 * DAY;
    let history = vec![SpendingRecord { timestamp: now, amount: 4_200 }];
    let r = predictor.predict(&history, 100_000, now - 10 * DAY, now + 10 * DAY, now);
    assert_eq!(r.confidence, 500_000);
    assert_eq!(r.daily_average, 4_200);
}

#[test]
fn test_calculate_confidence_short_window() {
    let predictor = BudgetPredictor::new(30);
    assert_eq!(predictor.calculate_confidence(&vec![], 0), 500_000);
    assert_eq!(predictor.calculate_confidence(&vec![5], 5), 500_000);
}

#[test]
fn test_calculate_confidence_uniform_window_is_full() {
    // Zero spread means zero coefficient of variation: confidence 1.0.
    let predictor = BudgetPredictor::new(30);
    assert_eq!(predictor.calculate_confidence(&vec![250, 250, 250], 250), 1_000_000);
}

#[test]
fn test_weighted_average_recency() {
    let predictor = BudgetPredictor::new(30);
    assert_eq!(predictor.calculate_weighted_average(&vec![]), 0);
    // (10*1 + 40*2) / 3 = 30: the later entry dominates.
    assert_eq!(predictor.calculate_weighted_average(&vec![10, 40]), 30);
}

#[test]
fn test_holiday_factor_all_workdays() {
    // Days 4..=8 since the epoch are Monday through Friday: the
    // average multiplier is exactly 1.0 (sum 10 tenths per day).
    let predictor = BudgetPredictor::new(30);
    let (sum, days) = predictor.estimate_holiday_factor(4 * DAY, 8 * DAY);
    assert_eq!(days, 5);
    assert_eq!(sum, 50);
    assert_eq!(sum, 10 * days);
}

#[test]
fn test_holiday_factor_all_weekend() {
    // Days 2 and 3 since the epoch are Saturday and Sunday: the
    // average multiplier is exactly 1.3 (13 tenths per day).
    let predictor = BudgetPredictor::new(30);
    let (sum, days) = predictor.estimate_holiday_factor(2 * DAY, 3 * DAY);
    assert_eq!(days, 2);
    assert_eq!(sum, 26);
    assert_eq!(sum, 13 * days);
}

#[test]
fn test_holiday_factor_empty_range() {
    let predictor = BudgetPredictor::new(30);
    let (sum, days) = predictor.estimate_holiday_factor(5 * DAY, 4 * DAY);
    assert_eq!((sum, days), (0, 0));
}

#[test]
fn test_multiplier_table() {
    let predictor = BudgetPredictor::new(30);
    assert_eq!(predictor.multiplier_tenths(CalendarDayType::Workday), 10);
    assert_eq!(predictor.multiplier_tenths(CalendarDayType::Weekend), 13);
    assert_eq!(predictor.multiplier_tenths(CalendarDayType::Holiday), 18);
    assert_eq!(predictor.multiplier_tenths(CalendarDayType::Promotion), 25);
}

#[test]
fn test_day_type() {
    let predictor = BudgetPredictor::new(30);
    // Day 0 (1970-01-01) was a Thursday; day 2 a Saturday; day 3 a Sunday.
    assert_eq!(predictor.get_day_type(0), CalendarDayType::Workday);
    assert_eq!(predictor.get_day_type(2 * DAY), CalendarDayType::Weekend);
    assert_eq!(predictor.get_day_type(3 * DAY), CalendarDayType::Weekend);
    assert_eq!(predictor.get_day_type(4 * DAY), CalendarDayType::Workday);
}
