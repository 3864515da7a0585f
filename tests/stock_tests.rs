use arrow_stock::stock::{parse_stock, stock_from_response, FetchError};

#[test]
fn stock_with_thousands_separator() {
    assert_eq!(parse_stock("<span>4,970 parts</span>"), Some(4970));
}

#[test]
fn stock_without_separator() {
    assert_eq!(parse_stock("Available: 12 parts in stock"), Some(12));
}

#[test]
fn stock_takes_first_match() {
    assert_eq!(parse_stock("12 parts here, 3 parts there"), Some(12));
}

#[test]
fn stock_number_glued_to_text() {
    assert_eq!(parse_stock("abc1,234,567 parts available"), Some(1234567));
}

#[test]
fn stock_zero() {
    assert_eq!(parse_stock("0 parts"), Some(0));
}

#[test]
fn stock_absent_without_match() {
    assert_eq!(parse_stock("no stock information here"), None);
    assert_eq!(parse_stock(""), None);
    assert_eq!(parse_stock("4,970parts"), None);
    assert_eq!(parse_stock("4,970 part"), None);
}

#[test]
fn stock_separators_only_is_absent() {
    assert_eq!(parse_stock(",, parts"), None);
}

#[test]
fn stock_skips_number_not_followed_by_parts() {
    assert_eq!(parse_stock("Order 123 now: 45 parts"), Some(45));
}

#[test]
fn stock_too_large_is_absent() {
    assert_eq!(parse_stock("99,999,999,999,999,999,999 parts"), None);
    assert_eq!(parse_stock("99,999,999,999 parts"), None);
    assert_eq!(parse_stock("2,147,483,648 parts"), None);
    assert_eq!(parse_stock("2,147,483,647 parts"), Some(i32::MAX));
}

#[test]
fn stock_skips_separator_only_run() {
    assert_eq!(parse_stock(", parts 5 parts"), Some(5));
    assert_eq!(parse_stock("a ,,, parts and 1,200 parts"), Some(1200));
}

#[test]
fn stock_leading_separator_belongs_to_number() {
    assert_eq!(parse_stock(",5 parts"), Some(5));
}

#[test]
fn stock_after_non_ascii_text() {
    assert_eq!(parse_stock("库存 7 parts"), Some(7));
}

#[test]
fn failed_fetch_gives_no_stock() {
    assert_eq!(stock_from_response(&Err(FetchError::Timeout)), None);
    assert_eq!(stock_from_response(&Err(FetchError::Connect)), None);
    assert_eq!(stock_from_response(&Err(FetchError::Other)), None);
}

#[test]
fn successful_fetch_gives_page_stock() {
    assert_eq!(stock_from_response(&Ok("4,970 parts".to_string())), Some(4970));
    assert_eq!(stock_from_response(&Ok("nothing".to_string())), None);
}
