use hft_engine::parser::{tick_from_json_fields, MarketDataFormat, MarketDataParser, ParseError, Tick};

#[test]
fn test_parse_valid_csv_tick() {
    let parser = MarketDataParser::new(MarketDataFormat::CSV);
    let data = "100.50,100";
    let tick = parser.parse(data).unwrap();
    assert_eq!(tick.price, 1_005_000);
    assert_eq!(tick.volume, 100);
}

#[test]
fn test_parse_invalid_csv_tick() {
    let parser = MarketDataParser::new(MarketDataFormat::CSV);
    let data = "100.50";
    let result = parser.parse(data);
    assert!(result.is_err());
}

#[test]
fn test_parse_valid_json_tick() {
    let parser = MarketDataParser::new(MarketDataFormat::JSON);
    let data = r#"{"price":100.50,"volume":100}"#;
    let tick = parser.parse(data).unwrap();
    assert_eq!(tick.price, 1_005_000);
    assert_eq!(tick.volume, 100);
}

#[test]
fn test_parse_invalid_json_tick() {
    let parser = MarketDataParser::new(MarketDataFormat::JSON);
    let data = r#"{"price":"abc","volume":100}"#;
    let result = parser.parse(data);
    assert!(result.is_err());
}

#[test]
fn csv_with_three_fields_is_a_field_count_error() {
    let parser = MarketDataParser::new(MarketDataFormat::CSV);
    assert_eq!(parser.parse("1,2,3"), Err(ParseError::FieldCount));
    assert_eq!(parser.parse("1"), Err(ParseError::FieldCount));
}

#[test]
fn csv_with_bad_numbers_is_an_invalid_number() {
    let parser = MarketDataParser::new(MarketDataFormat::CSV);
    assert_eq!(parser.parse("abc,1"), Err(ParseError::InvalidNumber));
    assert_eq!(parser.parse("1.5,x"), Err(ParseError::InvalidNumber));
    assert_eq!(parser.parse("1.23456,1"), Err(ParseError::InvalidNumber));
    assert_eq!(parser.parse(",1"), Err(ParseError::InvalidNumber));
    assert_eq!(parser.parse(".,1"), Err(ParseError::InvalidNumber));
    assert_eq!(parser.parse("+,1"), Err(ParseError::InvalidNumber));
    assert_eq!(parser.parse("1,+"), Err(ParseError::InvalidNumber));
    assert_eq!(parser.parse("-1,1"), Err(ParseError::InvalidNumber));
    assert_eq!(parser.parse("1.00001,1"), Err(ParseError::InvalidNumber));
    assert_eq!(parser.parse("1,"), Err(ParseError::InvalidNumber));
    assert_eq!(parser.parse("1,18446744073709551616"), Err(ParseError::InvalidNumber));
}

#[test]
fn csv_prices_are_read_in_ten_thousandths() {
    let parser = MarketDataParser::new(MarketDataFormat::CSV);
    assert_eq!(parser.parse("7,0"), Ok(Tick { price: 70_000, volume: 0 }));
    assert_eq!(parser.parse("0.0001,18446744073709551615"), Ok(Tick { price: 1, volume: u64::MAX }));
    assert_eq!(parser.parse("12.345,3"), Ok(Tick { price: 123_450, volume: 3 }));
}

#[test]
fn json_missing_field_is_reported() {
    let parser = MarketDataParser::new(MarketDataFormat::JSON);
    assert_eq!(parser.parse(r#"{"price":1.5}"#), Err(ParseError::MissingField));
    assert_eq!(parser.parse("not json"), Err(ParseError::MissingField));
}

#[test]
fn json_fractional_volume_is_an_invalid_number() {
    let parser = MarketDataParser::new(MarketDataFormat::JSON);
    assert_eq!(parser.parse(r#"{"price":2,"volume":1.5}"#), Err(ParseError::InvalidNumber));
}

#[test]
fn json_integer_price_and_extra_fields() {
    let parser = MarketDataParser::new(MarketDataFormat::JSON);
    let tick = parser.parse(r#"{"volume": 7, "price": 3, "symbol": "X"}"#).unwrap();
    assert_eq!(tick, Tick { price: 30_000, volume: 7 });
}

#[test]
fn tick_from_fields_needs_both() {
    assert_eq!(
        tick_from_json_fields(Some("2.5".to_string()), Some("4".to_string())),
        Ok(Tick { price: 25_000, volume: 4 })
    );
    assert_eq!(tick_from_json_fields(None, Some("4".to_string())), Err(ParseError::MissingField));
    assert_eq!(
        tick_from_json_fields(Some("-1".to_string()), Some("4".to_string())),
        Err(ParseError::InvalidNumber)
    );
}

#[test]
fn csv_accepts_signs_and_bare_points() {
    let parser = MarketDataParser::new(MarketDataFormat::CSV);
    assert_eq!(parser.parse("+2.5,+100"), Ok(Tick { price: 25_000, volume: 100 }));
    assert_eq!(parser.parse(".5,1"), Ok(Tick { price: 5_000, volume: 1 }));
    assert_eq!(parser.parse("5.,1"), Ok(Tick { price: 50_000, volume: 1 }));
    assert_eq!(parser.parse("1.50000,1"), Ok(Tick { price: 15_000, volume: 1 }));
    assert_eq!(parser.parse("1844674407370955.1615,1"), Ok(Tick { price: u64::MAX, volume: 1 }));
    assert_eq!(parser.parse("1844674407370955.1616,1"), Err(ParseError::InvalidNumber));
}

#[test]
fn csv_prices_in_exponent_form() {
    let parser = MarketDataParser::new(MarketDataFormat::CSV);
    assert_eq!(parser.parse("1e2,5"), Ok(Tick { price: 1_000_000, volume: 5 }));
    assert_eq!(parser.parse("1.5E+1,5"), Ok(Tick { price: 150_000, volume: 5 }));
    assert_eq!(parser.parse("25e-1,5"), Ok(Tick { price: 25_000, volume: 5 }));
    assert_eq!(parser.parse("1e-4,5"), Ok(Tick { price: 1, volume: 5 }));
    assert_eq!(parser.parse("1000000e-10,5"), Ok(Tick { price: 1, volume: 5 }));
    assert_eq!(parser.parse("0e99999999999999999999999,5"), Ok(Tick { price: 0, volume: 5 }));
    assert_eq!(parser.parse("1.8446744073709551615e15,5"), Ok(Tick { price: u64::MAX, volume: 5 }));
}

#[test]
fn csv_exponent_forms_that_are_refused() {
    let parser = MarketDataParser::new(MarketDataFormat::CSV);
    assert_eq!(parser.parse("1e-5,5"), Err(ParseError::InvalidNumber));
    assert_eq!(parser.parse("1e16,5"), Err(ParseError::InvalidNumber));
    assert_eq!(parser.parse("1e99999999999999999999999,5"), Err(ParseError::InvalidNumber));
    assert_eq!(parser.parse("1e,5"), Err(ParseError::InvalidNumber));
    assert_eq!(parser.parse("1e+,5"), Err(ParseError::InvalidNumber));
    assert_eq!(parser.parse("e5,5"), Err(ParseError::InvalidNumber));
    assert_eq!(parser.parse("1e2.0,5"), Err(ParseError::InvalidNumber));
}
