//! Text forms of an order for the venue protocols.
use vstd::prelude::*;
use vstd::arithmetic::div_mod::lemma_add_mod_noop;
use crate::connection::{json_string, json_string_text, order_json, order_json_text};
use crate::fix::{fields_view, fix_text, format_fix_message};
use crate::strategy::{Order, OrderSide, OrderView};
use crate::text::{decimal, decimal_text, format_price, price_text};

verus! {

/// Why an order could not be formatted.
#[derive(Debug, Clone, Copy, PartialEq, Eq, Structural)]
pub enum FormatError {
    /// The protocol is not one that this text form is written for.
    UnsupportedProtocol,
}

/// Sum of the first `i` bytes of `b`.
pub open spec fn byte_sum(b: Seq<u8>, i: int) -> int
    decreases i,
{
    if i <= 0 {
        0
    } else {
        byte_sum(b, i - 1) + b[i - 1]
    }
}

/// The checksum of a text: the sum of its UTF-8 bytes modulo 256.
pub open spec fn checksum(s: Seq<char>) -> int {
    byte_sum(vstd::utf8::encode_utf8(s), vstd::utf8::encode_utf8(s).len() as int) % 256
}

/// The fields of a new single order, in the order they are written.
pub open spec fn fix_order_fields(o: OrderView) -> Seq<(Seq<char>, Seq<char>)> {
    seq![
        ("8"@, "FIX.4.2"@),
        ("35"@, "D"@),
        ("11"@, "ORDER123"@),
        ("54"@, if o.side == OrderSide::Buy { "1"@ } else { "2"@ }),
        ("55"@, o.symbol),
        ("40"@, "2"@),
        ("44"@, price_text(o.price)),
        ("38"@, decimal_text(o.quantity as nat)),
        ("59"@, "0"@),
        ("49"@, "YOUR_SENDER_COMP_ID"@),
        ("56"@, "YOUR_TARGET_COMP_ID"@),
        ("34"@, "1"@),
    ]
}

/// The key/value text of an order: its fields, then the checksum field.
pub open spec fn fix_order_text(o: OrderView) -> Seq<char> {
    let body = fix_text(fix_order_fields(o));
    body + "10="@ + decimal_text(checksum(body) as nat) + "|"@
}

pub open spec fn side_debug(side: OrderSide) -> Seq<char> {
    match side {
        OrderSide::Buy => "Buy"@,
        OrderSide::Sell => "Sell"@,
    }
}

/// The plain-text order line of the binary protocol.
pub open spec fn binary_order_text(o: OrderView) -> Seq<char> {
    "BINARY_ORDER: symbol="@ + o.symbol + ", price="@ + price_text(o.price) + ", quantity="@
        + decimal_text(o.quantity as nat) + ", side="@ + side_debug(o.side)
}

fn text_checksum(s: &str) -> (r: u64)
    ensures
        r == checksum(s@),
{
    let bytes = s.as_bytes();
    let mut acc: u64 = 0;
    let mut i: usize = 0;
    while i < bytes.len()
        invariant
            bytes@ == vstd::utf8::encode_utf8(s@),
            i <= bytes@.len(),
            acc == byte_sum(bytes@, i as int) % 256,
        decreases bytes@.len() - i,
    {
        proof {
            lemma_add_mod_noop(byte_sum(bytes@, i as int), bytes@[i as int] as int, 256);
            lemma_add_mod_noop(acc as int, bytes@[i as int] as int, 256);
        }
        acc = (acc + bytes[i] as u64) % 256;
        i = i + 1;
    }
    acc
}

fn field(tag: &str, value: String) -> (r: (String, String))
    ensures
        r.0@ == tag@,
        r.1@ == value@,
{
    (String::from_str(tag), value)
}

/// The record form of an order: its fields by name, the symbol quoted.
pub open spec fn order_record_text(o: OrderView) -> Seq<char> {
    "Order { symbol: "@ + json_string_text(o.symbol) + ", price: "@ + price_text(o.price)
        + ", quantity: "@ + decimal_text(o.quantity as nat) + ", side: "@ + side_debug(o.side)
        + " }"@
}

/// The order as its record text.
pub fn order_record(order: &Order) -> (r: String)
    ensures
        r@ == order_record_text(order@),
{
    let mut m = String::from_str("Order { symbol: ");
    m.append(json_string(order.symbol.as_str()).as_str());
    m.append(", price: ");
    m.append(format_price(order.price).as_str());
    m.append(", quantity: ");
    m.append(decimal(order.quantity).as_str());
    m.append(", side: ");
    match order.side {
        OrderSide::Buy => m.append("Buy"),
        OrderSide::Sell => m.append("Sell"),
    }
    m.append(" }");
    m
}

/// What a one-shot order execution sends for `protocol`: the order as JSON
/// for `json`, its record text for `binary` and `fix`.
pub fn executor_payload(order: &Order, protocol: &str) -> (r: Result<String, FormatError>)
    ensures
        protocol@ == "json"@ ==> (r matches Ok(s) && s@ == order_json_text(
            order.symbol@,
            order.price,
            order.quantity,
            order.side,
        )),
        (protocol@ == "binary"@ || protocol@ == "fix"@) ==> (r matches Ok(s) && s@
            == order_record_text(order@)),
        protocol@ != "json"@ && protocol@ != "binary"@ && protocol@ != "fix"@ ==> r == Err::<
            String,
            FormatError,
        >(FormatError::UnsupportedProtocol),
{
    proof {
        reveal_strlit("json");
        reveal_strlit("binary");
        reveal_strlit("fix");
        assert("json"@.len() != "binary"@.len() && "json"@[0] != "fix"@[0]);
    }
    if crate::engine::text_is(protocol, "json") {
        Ok(order_json(order))
    } else if crate::engine::text_is(protocol, "binary") || crate::engine::text_is(protocol, "fix") {
        Ok(order_record(order))
    } else {
        Err(FormatError::UnsupportedProtocol)
    }
}

pub struct OrderFormatter {}

impl OrderFormatter {
    pub fn new() -> (r: Self) {
        OrderFormatter {  }
    }

    /// The order as text of `protocol`: `fix` or `binary`.
    pub fn format_order(&self, order: &Order, protocol: &str) -> (r: Result<String, FormatError>)
        ensures
            protocol@ == "fix"@ ==> (r matches Ok(s) && s@ == fix_order_text(order@)),
            protocol@ == "binary"@ ==> (r matches Ok(s) && s@ == binary_order_text(order@)),
            protocol@ != "fix"@ && protocol@ != "binary"@ ==> r == Err::<String, FormatError>(
                FormatError::UnsupportedProtocol,
            ),
    {
        let is_fix = crate::engine::text_is(protocol, "fix");
        let is_binary = crate::engine::text_is(protocol, "binary");
        proof {
            reveal_strlit("fix");
            reveal_strlit("binary");
            assert("binary"@.len() != "fix"@.len());
        }
        if is_fix {
            Ok(self.format_fix_order(order))
        } else if is_binary {
            Ok(self.format_binary_order(order))
        } else {
            Err(FormatError::UnsupportedProtocol)
        }
    }

    fn format_fix_order(&self, order: &Order) -> (r: String)
        ensures
            r@ == fix_order_text(order@),
    {
        let mut fields: Vec<(String, String)> = Vec::new();
        fields.push(field("8", String::from_str("FIX.4.2")));
        fields.push(field("35", String::from_str("D")));
        fields.push(field("11", String::from_str("ORDER123")));
        let side = match order.side {
            OrderSide::Buy => String::from_str("1"),
            OrderSide::Sell => String::from_str("2"),
        };
        fields.push(field("54", side));
        fields.push(field("55", order.symbol.clone()));
        fields.push(field("40", String::from_str("2")));
        fields.push(field("44", format_price(order.price)));
        fields.push(field("38", decimal(order.quantity)));
        fields.push(field("59", String::from_str("0")));
        fields.push(field("49", String::from_str("YOUR_SENDER_COMP_ID")));
        fields.push(field("56", String::from_str("YOUR_TARGET_COMP_ID")));
        fields.push(field("34", String::from_str("1")));
        assert(fields_view(fields@) =~= fix_order_fields(order@));
        let mut message = format_fix_message(&fields);
        let sum = text_checksum(message.as_str());
        message.append("10=");
        message.append(decimal(sum).as_str());
        message.append("|");
        message
    }

    fn format_binary_order(&self, order: &Order) -> (r: String)
        ensures
            r@ == binary_order_text(order@),
    {
        let mut message = String::from_str("BINARY_ORDER: symbol=");
        message.append(order.symbol.as_str());
        message.append(", price=");
        message.append(format_price(order.price).as_str());
        message.append(", quantity=");
        message.append(decimal(order.quantity).as_str());
        message.append(", side=");
        match order.side {
            OrderSide::Buy => message.append("Buy"),
            OrderSide::Sell => message.append("Sell"),
        }
        message
    }
}

} // verus!
