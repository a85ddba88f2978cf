use okane::cache::MemCache;
use okane::api::{ApiError, ApiErrorResponse, ApiResponse};
use okane::orders::TradeError;
use okane::money::Money;

#[test]
fn test_mem_cache_raw_ops() {
    let mut cache = MemCache::new();
    assert!(cache.set_raw("k1", b"v1".to_vec()).is_ok());
    assert_eq!(cache.get_raw("k1").unwrap(), Some(b"v1".to_vec()));
    assert!(cache.set_raw("k1", b"v2".to_vec()).is_ok());
    assert_eq!(cache.get_raw("k1").unwrap(), Some(b"v2".to_vec()));
    assert_eq!(cache.get_raw("missing").unwrap(), None);
    assert!(cache.del("k1").is_ok());
    assert_eq!(cache.get_raw("k1").unwrap(), None);
    assert!(cache.del("k1").is_ok());
}

#[test]
fn test_api_error_mapping() {
    let e = ApiError::from_trade_error(TradeError::InsufficientFunds {
        required: Money::from_int(150),
        actual: Money::from_int(10),
    });
    assert_eq!(e.status_code(), 400);
    let e = ApiError::from_trade_error(TradeError::OrderNotFound("x".to_string()));
    assert_eq!(e.status_code(), 404);
    let e = ApiError::from_trade_error(TradeError::AccountNotFound("x".to_string()));
    assert_eq!(e.status_code(), 404);
    let e = ApiError::from_trade_error(TradeError::InternalError("x".to_string()));
    assert_eq!(e.status_code(), 500);

    let fail = ApiErrorResponse::from_msg("nope".to_string());
    assert!(!fail.success);
    assert_eq!(fail.error, "nope");
    let ok: ApiResponse<u32> = ApiResponse::ok(7);
    assert!(ok.success);
    assert_eq!(ok.data, Some(7));
}
