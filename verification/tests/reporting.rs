use fincore::reports::{
    TxnEntry, TxnKind, category_report, get_statistics, monthly_report, trend_report,
};

fn entry(kind: TxnKind, amount: u64, category_id: &str, day: u64) -> TxnEntry {
    TxnEntry { kind, amount, category_id: category_id.to_string(), day }
}

#[test]
fn test_monthly_report_totals() {
    let txns = vec![
        entry(TxnKind::Income, 1_000, "salary", 1),
        entry(TxnKind::Expense, 300, "dining", 2),
        entry(TxnKind::Other, 50, "transfer", 3),
    ];
    let r = monthly_report(&txns);
    assert_eq!(r.total_income, 1_000);
    assert_eq!(r.total_expense, 300);
    assert_eq!(r.net_income, 700);
    assert_eq!(r.transaction_count, 3);
    assert!(r.top_categories.is_empty());
}

#[test]
fn test_monthly_report_negative_net() {
    let txns = vec![
        entry(TxnKind::Income, 100, "salary", 1),
        entry(TxnKind::Expense, 300, "dining", 1),
    ];
    let r = monthly_report(&txns);
    assert_eq!(r.net_income, -200);
}

#[test]
fn test_statistics_totals() {
    let txns = vec![
        entry(TxnKind::Income, 500, "salary", 1),
        entry(TxnKind::Income, 250, "bonus", 2),
        entry(TxnKind::Expense, 100, "dining", 2),
    ];
    let s = get_statistics(&txns);
    assert_eq!(s.total_income, 750);
    assert_eq!(s.total_expense, 100);
    assert_eq!(s.transaction_count, 3);
    assert!(s.by_category.is_empty());
}

#[test]
fn test_category_report_grouping_and_percentages() {
    let txns = vec![
        entry(TxnKind::Expense, 100, "dining", 1),
        entry(TxnKind::Expense, 100, "transport", 1),
        entry(TxnKind::Expense, 200, "dining", 2),
        entry(TxnKind::Income, 900, "salary", 2),
    ];
    let r = category_report(&txns);
    assert_eq!(r.len(), 2);
    assert_eq!(r[0].category_id, "dining");
    assert_eq!(r[0].category_name, "dining");
    assert_eq!(r[0].amount, 300);
    assert_eq!(r[0].percentage_bp, 7_500); // 75.00 % of 400
    assert_eq!(r[1].category_id, "transport");
    assert_eq!(r[1].amount, 100);
    assert_eq!(r[1].percentage_bp, 2_500); // 25.00 % of 400
}

#[test]
fn test_category_report_sorted_descending() {
    let txns = vec![
        entry(TxnKind::Expense, 10, "a", 1),
        entry(TxnKind::Expense, 30, "b", 1),
        entry(TxnKind::Expense, 20, "c", 1),
    ];
    let r = category_report(&txns);
    assert_eq!(r.len(), 3);
    assert!(r[0].amount >= r[1].amount && r[1].amount >= r[2].amount);
    assert_eq!(r[0].category_id, "b");
    assert_eq!(r[2].category_id, "a");
}

#[test]
fn test_category_report_no_expenses() {
    let txns = vec![entry(TxnKind::Income, 500, "salary", 1)];
    assert!(category_report(&txns).is_empty());
    let empty: Vec<TxnEntry> = Vec::new();
    assert!(category_report(&empty).is_empty());
}

#[test]
fn test_trend_report_days_sorted_with_exact_totals() {
    let txns = vec![
        entry(TxnKind::Income, 10, "salary", 5),
        entry(TxnKind::Expense, 20, "dining", 3),
        entry(TxnKind::Expense, 7, "dining", 5),
        entry(TxnKind::Other, 99, "transfer", 4),
    ];
    let r = trend_report(&txns);
    let days: Vec<u64> = r.daily_data.iter().map(|d| d.day).collect();
    assert_eq!(days, vec![3, 4, 5]);
    assert_eq!((r.daily_data[0].income, r.daily_data[0].expense), (0, 20));
    assert_eq!((r.daily_data[1].income, r.daily_data[1].expense), (0, 0));
    assert_eq!((r.daily_data[2].income, r.daily_data[2].expense), (10, 7));
}

#[test]
fn test_trend_report_empty() {
    let empty: Vec<TxnEntry> = Vec::new();
    assert!(trend_report(&empty).daily_data.is_empty());
}
