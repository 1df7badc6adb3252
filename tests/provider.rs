use paper_broker::provider::{normalize_date_for_api, normalize_date_for_ui, parse_u32, ProviderError};

#[test]
fn api_dates() {
    assert_eq!(normalize_date_for_api("03/15/2024").unwrap(), "2024-03-15");
    assert_eq!(normalize_date_for_api("3/5/2024").unwrap(), "2024-03-05");
    assert_eq!(normalize_date_for_api("12/31/1900").unwrap(), "1900-12-31");
    assert!(matches!(normalize_date_for_api("13/01/2024"), Err(ProviderError::InvalidDateRange(_))));
    assert!(matches!(normalize_date_for_api("01/32/2024"), Err(ProviderError::InvalidDateRange(_))));
    assert!(matches!(normalize_date_for_api("01/01/1899"), Err(ProviderError::InvalidDateRange(_))));
    assert!(matches!(normalize_date_for_api("2024-03-15"), Err(ProviderError::InvalidDateRange(_))));
    assert!(matches!(normalize_date_for_api("01/01/20x4"), Err(ProviderError::InvalidDateRange(_))));
    assert!(matches!(normalize_date_for_api("1/1/1/2024"), Err(ProviderError::InvalidDateRange(_))));
}

#[test]
fn ui_dates() {
    assert_eq!(normalize_date_for_ui("2024-03-15").unwrap(), "03/15/2024");
    assert_eq!(normalize_date_for_ui("2024-3-5").unwrap(), "03/05/2024");
    assert!(matches!(normalize_date_for_ui("2024/03/15"), Err(ProviderError::ParseError(_))));
    assert!(matches!(normalize_date_for_ui("2024-aa-15"), Err(ProviderError::ParseError(_))));
}

#[test]
fn parses_like_std() {
    for s in ["0", "+7", "007", "4294967295", "4294967296", "", "+", "-1", "12a", " 1"] {
        assert_eq!(parse_u32(s), s.parse::<u32>().ok(), "input {:?}", s);
    }
}

#[test]
fn error_messages() {
    assert_eq!(ProviderError::RateLimited(30).message(), "Rate limited, retry after 30 seconds");
    assert_eq!(ProviderError::ParseError("x".to_string()).message(), "Parse error: x");
    assert_eq!(ProviderError::ApiKeyNotFound.message(), "API key not found in keychain");
}
