use fincore::categories::{get_category_name, get_system_categories};
use fincore::error::Error;
use fincore::models::UserSettings;
use fincore::pagination::{PaginationMeta, default_page, default_page_size};
use fincore::retry::{RetryDecision, retry_backoff};

#[test]
fn test_system_categories_table() {
    let cats = get_system_categories();
    assert_eq!(cats.len(), 15);
    assert_eq!(cats[0], ("shopping", "购物"));
    assert_eq!(cats[7], ("utilities", "水电煤"));
    assert_eq!(cats[14], ("other_income", "其他收入"));
}

#[test]
fn test_category_name_lookup() {
    assert_eq!(get_category_name("shopping"), "购物");
    assert_eq!(get_category_name("salary"), "工资");
    assert_eq!(get_category_name("no_such_category"), "no_such_category");
}

#[test]
fn test_pagination_meta() {
    let m = PaginationMeta::new(95, 2, 10);
    assert_eq!(m.total_pages, 10);
    assert!(m.has_next);
    assert!(m.has_prev);

    let first = PaginationMeta::new(95, 1, 10);
    assert!(first.has_next);
    assert!(!first.has_prev);

    let last = PaginationMeta::new(95, 10, 10);
    assert!(!last.has_next);
    assert!(last.has_prev);

    let empty = PaginationMeta::new(0, 1, 10);
    assert_eq!(empty.total_pages, 0);
    assert!(!empty.has_next);

    let exact = PaginationMeta::new(100, 5, 10);
    assert_eq!(exact.total_pages, 10);

    assert_eq!(default_page(), 1);
    assert_eq!(default_page_size(), 10);
}

#[test]
fn test_error_projection() {
    let e = Error::NotFound("budget 7".to_string());
    assert_eq!(e.status_code(), 404);
    assert_eq!(e.error_code(), "NOT_FOUND");
    assert_eq!(e.describe(), "Not found: budget 7");

    let v = Error::Validation("amount".to_string());
    assert_eq!(v.status_code(), 400);
    assert_eq!(v.error_code(), "VALIDATION_ERROR");
    assert_eq!(v.describe(), "Validation error: amount");

    let d = Error::Database("down".to_string());
    assert_eq!(d.status_code(), 500);
    assert_eq!(d.error_code(), "DATABASE_ERROR");

    let c = Error::Conflict("email".to_string());
    assert_eq!(c.status_code(), 409);
    assert_eq!(c.error_code(), "CONFLICT");

    let u = Error::Unauthorized("token".to_string());
    assert_eq!(u.status_code(), 401);

    let f = Error::Forbidden("role".to_string());
    assert_eq!(f.status_code(), 403);

    let b = Error::BadRequest("body".to_string());
    assert_eq!(b.status_code(), 400);

    let i = Error::InternalServer("oops".to_string());
    assert_eq!(i.status_code(), 500);
    assert_eq!(i.error_code(), "INTERNAL_ERROR");

    let n = Error::InvalidInput("pair".to_string());
    assert_eq!(n.status_code(), 400);
    assert_eq!(n.error_code(), "INVALID_INPUT");
    assert_eq!(n.message(), "pair");
}

#[test]
fn test_default_user_settings() {
    let s = UserSettings::default();
    assert_eq!(s.default_currency, "CNY");
    assert_eq!(s.timezone, "Asia/Shanghai");
    assert_eq!(s.language, "zh-CN");
    assert_eq!(s.theme, "light");
    assert!(s.notifications.email);
    assert!(s.notifications.push);
    assert!(s.notifications.budget_alert);
}

#[test]
fn test_retry_backoff_schedule() {
    assert_eq!(retry_backoff(1), RetryDecision::Wait(2));
    assert_eq!(retry_backoff(2), RetryDecision::Wait(4));
    assert_eq!(retry_backoff(5), RetryDecision::Wait(32));
    assert_eq!(retry_backoff(6), RetryDecision::Wait(64));
    assert_eq!(retry_backoff(9), RetryDecision::Wait(64));
    assert_eq!(retry_backoff(10), RetryDecision::GiveUp);
    assert_eq!(retry_backoff(11), RetryDecision::GiveUp);
}

#[test]
fn test_isqrt_exact_values() {
    assert_eq!(fincore::isqrt_u128(0), 0);
    assert_eq!(fincore::isqrt_u128(1), 1);
    assert_eq!(fincore::isqrt_u128(3), 1);
    assert_eq!(fincore::isqrt_u128(4), 2);
    assert_eq!(fincore::isqrt_u128(6_666), 81);
    assert_eq!(fincore::isqrt_u128(u128::from(u64::MAX) * u128::from(u64::MAX)), u64::MAX);
}
