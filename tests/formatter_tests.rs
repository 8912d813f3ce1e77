use hft_engine::order_formatter::{FormatError, OrderFormatter};
use hft_engine::strategy::{Order, OrderSide};
use hft_engine::text::format_price;

#[test]
fn test_format_fix_order() {
    let formatter = OrderFormatter::new();
    let order = Order { symbol: "AAPL".to_string(), price: 1_500_000, quantity: 10, side: OrderSide::Buy };
    let fix_message = formatter.format_order(&order, "fix").unwrap();
    assert!(fix_message.contains("AAPL"));
    assert!(fix_message.contains("150"));
}

#[test]
fn test_format_binary_order() {
    let formatter = OrderFormatter::new();
    let order = Order { symbol: "GOOG".to_string(), price: 27_000_000, quantity: 5, side: OrderSide::Sell };
    let binary_message = formatter.format_order(&order, "binary").unwrap();
    assert!(binary_message.contains("GOOG"));
    assert!(binary_message.contains(&format_price(order.price)));
}

#[test]
fn test_format_order_unsupported_protocol() {
    let formatter = OrderFormatter::new();
    let order = Order { symbol: "MSFT".to_string(), price: 3_000_000, quantity: 20, side: OrderSide::Buy };
    let result = formatter.format_order(&order, "unsupported");
    assert!(result.is_err());
    assert_eq!(result.unwrap_err(), FormatError::UnsupportedProtocol);
}

#[test]
fn fix_order_text_and_checksum() {
    let formatter = OrderFormatter::new();
    let order = Order { symbol: "AAPL".to_string(), price: 1_505_000, quantity: 10, side: OrderSide::Sell };
    let text = formatter.format_order(&order, "fix").unwrap();
    let body = "8=FIX.4.2|35=D|11=ORDER123|54=2|55=AAPL|40=2|44=150.5|38=10|59=0|\
                49=YOUR_SENDER_COMP_ID|56=YOUR_TARGET_COMP_ID|34=1|";
    let sum: u32 = body.bytes().map(|b| b as u32).sum();
    assert_eq!(text, format!("{}10={}|", body, sum % 256));
}

#[test]
fn binary_order_text_is_exact() {
    let formatter = OrderFormatter::new();
    let order = Order { symbol: "GOOG".to_string(), price: 27_000_500, quantity: 5, side: OrderSide::Sell };
    assert_eq!(
        formatter.format_order(&order, "binary").unwrap(),
        "BINARY_ORDER: symbol=GOOG, price=2700.05, quantity=5, side=Sell"
    );
}

#[test]
fn prices_format_like_decimal_numbers() {
    assert_eq!(format_price(0), "0");
    assert_eq!(format_price(1_005_000), "100.5");
    assert_eq!(format_price(1), "0.0001");
    assert_eq!(format_price(123_456), "12.3456");
    assert_eq!(format_price(27_000_000), "2700");
}
