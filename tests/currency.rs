use unit_converter::currency::{
    APIError, ApiErrorKind, ConversionCache, RateLookup, RateTable, SnapshotRow, request_url,
    EXPIRE_AFTER,
};
use unit_converter::quantity::Quantity;
use unit_converter::units::{CurrencyUnit, Unit};
use unit_converter::value::Value;

const NOW: i64 = 1_700_000_000;

fn body(timestamp: &str, rates: &str) -> String {
    format!("{{\"timestamp\": {}, \"rates\": {{{}}}}}", timestamp, rates)
}

fn refreshed_cache() -> ConversionCache {
    let mut cache = ConversionCache::new();
    let response = body(&NOW.to_string(), "\"EUR\": 1.0, \"USD\": 1.2");
    assert!(cache.update_from_response(&response, NOW).is_ok());
    cache
}

#[test]
fn test_get_entry_multiple_times() {
    let mut cache = ConversionCache::new();
    assert!(matches!(cache.lookup_at(CurrencyUnit::EUR, NOW), RateLookup::Refresh));
    let response = body(&NOW.to_string(), "\"EUR\": 0.92, \"USD\": 1");
    let (rate, replaced) = cache.finish_refresh_at(CurrencyUnit::EUR, Ok(response), NOW);
    assert!(rate.is_ok());
    assert!(replaced);

    let repeat_count = 10;
    for i in 0..repeat_count {
        let rate_new = cache.lookup_at(CurrencyUnit::EUR, NOW + i);
        match rate_new {
            RateLookup::Found(r) => assert!(rate.clone().unwrap() == r),
            RateLookup::Refresh => panic!("a fresh rate was fetched again"),
        }
    }
}

#[test]
fn test_update_with_valid_response() {
    let mut cache = ConversionCache::new();
    let response = body(&NOW.to_string(), "\"EUR\": 1.0, \"USD\": 1.2");
    assert!(cache.update_from_response(&response, NOW).is_ok());
}

#[test]
fn test_update_with_invalid_rate() {
    let mut cache = ConversionCache::new();
    let response = body(&NOW.to_string(), "\"EUR\": \"invalid\", \"USD\": 1.2");
    assert!(cache.update_from_response(&response, NOW).is_err());
}

#[test]
fn test_update_with_invalid_timestamp() {
    let mut cache = ConversionCache::new();
    let response = body("\"invalid\"", "\"EUR\": 1.0, \"USD\": 1.2");
    assert!(cache.update_from_response(&response, NOW).is_ok());
    assert_eq!(cache.last_refreshed(), Some(NOW));
}

#[test]
fn test_save_to_db_and_load_from_db() {
    let cache = refreshed_cache();
    let rows = cache.snapshot();
    assert_eq!(rows.len(), 2);

    let loaded_cache = ConversionCache::from_snapshot(&rows);
    assert!(loaded_cache.is_some());
    let loaded = loaded_cache.unwrap();
    for c in CurrencyUnit::all() {
        assert_eq!(cache.table().rate(c), loaded.table().rate(c));
    }
    assert_eq!(loaded.last_refreshed(), Some(NOW));
}

#[test]
fn test_api_error_display() {
    let error = APIError::new(ApiErrorKind::Request, "Test error");
    assert_eq!(error.to_string(), "API error: Test error");
}

#[test]
fn test_currency_conversion() {
    let cache = refreshed_cache();
    let v = Value::new(Quantity::from_integer(1), Unit::Currency(CurrencyUnit::USD));
    let v2 = v.convert_to(&Unit::Currency(CurrencyUnit::EUR), cache.table());
    assert!(v2.is_ok());
}

#[test]
fn currency_conversion_uses_both_rates() {
    let cache = refreshed_cache();
    let v = Value::new(Quantity::from_integer(6), Unit::Currency(CurrencyUnit::USD));
    let eur = v.convert_to(&Unit::Currency(CurrencyUnit::EUR), cache.table()).unwrap();
    assert_eq!(eur.magnitude(), Some(Quantity::from_integer(5)));
    assert_eq!(eur.to_string(), "5 EUR");
    let same = v.convert_to(&Unit::Currency(CurrencyUnit::USD), cache.table()).unwrap();
    assert_eq!(same.magnitude(), Some(Quantity::from_integer(6)));
}

#[test]
fn response_rates_are_read_exactly() {
    let cache = refreshed_cache();
    assert_eq!(cache.table().rate(CurrencyUnit::USD), Quantity::ratio(6, 5));
    assert_eq!(cache.table().rate(CurrencyUnit::EUR), Some(Quantity::from_integer(1)));
    assert_eq!(cache.table().rate(CurrencyUnit::JPY), None);
    assert_eq!(cache.last_refreshed(), Some(NOW));
}

#[test]
fn unknown_codes_are_skipped() {
    let mut cache = ConversionCache::new();
    let response = body(&NOW.to_string(), "\"XBT\": 1.5e-5, \"JPY\": 151.25");
    assert!(cache.update_from_response(&response, NOW).is_ok());
    assert_eq!(cache.table().rate(CurrencyUnit::JPY), Quantity::ratio(605, 4));
}

#[test]
fn fresh_rate_is_reused_within_window() {
    let cache = refreshed_cache();
    let first = cache.lookup_at(CurrencyUnit::USD, NOW + 1);
    let second = cache.lookup_at(CurrencyUnit::USD, NOW + EXPIRE_AFTER - 1);
    match (first, second) {
        (RateLookup::Found(a), RateLookup::Found(b)) => assert_eq!(a, b),
        _ => panic!("expected cached rates"),
    }
}

#[test]
fn expired_table_needs_one_refresh_and_takes_the_new_stamp() {
    let mut cache = refreshed_cache();
    let later = NOW + EXPIRE_AFTER;
    assert!(matches!(cache.lookup_at(CurrencyUnit::USD, later), RateLookup::Refresh));
    let response = body(&later.to_string(), "\"USD\": 1, \"EUR\": 0.5");
    let (rate, replaced) = cache.finish_refresh_at(CurrencyUnit::USD, Ok(response), later);
    assert!(replaced);
    let rate = rate.unwrap();
    assert_eq!(rate, Quantity::from_integer(1));
    assert_eq!(cache.last_refreshed(), Some(later));
    assert!(matches!(cache.lookup_at(CurrencyUnit::EUR, later + 1), RateLookup::Found(_)));
}

#[test]
fn missing_rate_in_fresh_table_asks_for_refresh() {
    let cache = refreshed_cache();
    assert!(matches!(cache.lookup_at(CurrencyUnit::KRW, NOW + 1), RateLookup::Refresh));
}

#[test]
fn rate_missing_after_refresh_is_not_found() {
    let mut cache = ConversionCache::new();
    let response = body(&NOW.to_string(), "\"USD\": 1");
    let (rate, replaced) = cache.finish_refresh_at(CurrencyUnit::AUD, Ok(response), NOW);
    assert!(replaced);
    let e = rate.unwrap_err();
    assert_eq!(e.kind, ApiErrorKind::RateNotFound);
    assert_eq!(cache.table().rate(CurrencyUnit::USD), Some(Quantity::from_integer(1)));
}

#[test]
fn malformed_rate_leaves_previous_table() {
    let mut cache = refreshed_cache();
    let response = body(&(NOW + 5).to_string(), "\"EUR\": \"invalid\", \"USD\": 2");
    let e = cache.update_from_response(&response, NOW + 5).unwrap_err();
    assert_eq!(e.kind, ApiErrorKind::InvalidRateFormat);
    assert_eq!(cache.table().rate(CurrencyUnit::USD), Quantity::ratio(6, 5));
    assert_eq!(cache.last_refreshed(), Some(NOW));
}

#[test]
fn unusable_numeric_rates_of_known_currencies_are_rejected() {
    for rates in [
        "\"EUR\": 0, \"USD\": 2",
        "\"GBP\": -0.8, \"USD\": 2",
        "\"JPY\": 1e-25, \"USD\": 2",
    ] {
        let mut cache = refreshed_cache();
        let e = cache.update_from_response(&body(&NOW.to_string(), rates), NOW + 5).unwrap_err();
        assert_eq!(e.kind, ApiErrorKind::InvalidRateFormat);
        assert_eq!(e.to_string(), "API error: Invalid rate format");
        assert_eq!(cache.table().rate(CurrencyUnit::USD), Quantity::ratio(6, 5));
    }
    let mut cache = refreshed_cache();
    let response = body(&NOW.to_string(), "\"XBT\": 0, \"USD\": 2");
    assert!(cache.update_from_response(&response, NOW).is_ok());
    assert_eq!(cache.table().rate(CurrencyUnit::USD), Some(Quantity::from_integer(2)));
}

#[test]
fn exponent_form_rates_are_read() {
    let mut cache = ConversionCache::new();
    let response = body(&NOW.to_string(), "\"KRW\": 1.5e3, \"AUD\": 2.5e-1");
    assert!(cache.update_from_response(&response, NOW).is_ok());
    assert_eq!(cache.table().rate(CurrencyUnit::KRW), Some(Quantity::from_integer(1500)));
    assert_eq!(cache.table().rate(CurrencyUnit::AUD), Quantity::ratio(1, 4));
    assert_eq!(Quantity::parse_number("1e+21"), None);
    assert_eq!(Quantity::parse_number("1.5e-7"), Quantity::ratio(3, 20_000_000));
    assert_eq!(Quantity::parse_number("12e2"), Some(Quantity::from_integer(1200)));
}

#[test]
fn response_without_rates_fails() {
    let mut cache = ConversionCache::new();
    let e = cache.update_from_response("{\"timestamp\": 5}", NOW).unwrap_err();
    assert_eq!(e.kind, ApiErrorKind::RatesNotFound);
    assert_eq!(cache.last_refreshed(), None);
}

#[test]
fn response_that_is_not_json_fails() {
    let mut cache = refreshed_cache();
    let e = cache.update_from_response("<html>", NOW).unwrap_err();
    assert_eq!(e.kind, ApiErrorKind::InvalidResponse);
    assert_eq!(cache.last_refreshed(), Some(NOW));
}

#[test]
fn fetch_error_is_passed_through() {
    let mut cache = refreshed_cache();
    let (rate, replaced) =
        cache.finish_refresh_at(CurrencyUnit::USD, Err(APIError::new(ApiErrorKind::Request, "timed out")), NOW);
    assert!(!replaced);
    let e = rate.unwrap_err();
    assert_eq!(e.kind, ApiErrorKind::Request);
    assert_eq!(e.message, "timed out");
}

#[test]
fn refresh_without_timestamp_uses_the_clock() {
    let mut cache = ConversionCache::new();
    let response = "{\"rates\": {\"USD\": 1}}".to_string();
    let rate = cache.finish_refresh(CurrencyUnit::USD, Ok(response)).0.unwrap();
    assert_eq!(rate, Quantity::from_integer(1));
    assert!(cache.last_refreshed().unwrap() > NOW);
    assert!(matches!(cache.lookup(CurrencyUnit::USD), RateLookup::Found(_)));
}

#[test]
fn missing_credential_is_an_error() {
    let e = request_url(None).unwrap_err();
    assert_eq!(e.kind, ApiErrorKind::MissingCredential);
    assert_eq!(e.to_string(), "API error: API key not found");
    assert_eq!(
        request_url(Some("abc")).unwrap(),
        "https://openexchangerates.org/api/latest.json?app_id=abc"
    );
}

#[test]
fn snapshot_with_unknown_currency_is_unreadable() {
    let rows = vec![SnapshotRow { currency: "XXX".to_string(), rate_num: 1, rate_den: 1, last_update: NOW }];
    assert!(ConversionCache::from_snapshot(&rows).is_none());
    let rows = vec![SnapshotRow { currency: "EUR".to_string(), rate_num: 0, rate_den: 1, last_update: NOW }];
    assert!(ConversionCache::from_snapshot(&rows).is_none());
}

#[test]
fn empty_snapshot_restores_a_stale_cache() {
    let loaded = ConversionCache::from_snapshot(&Vec::new()).unwrap();
    assert_eq!(loaded.last_refreshed(), None);
    assert!(matches!(loaded.lookup_at(CurrencyUnit::USD, NOW), RateLookup::Refresh));
    assert_eq!(RateTable::empty().rate(CurrencyUnit::USD), None);
}
