use hft_engine::order_book::{Order, OrderBook, OrderSide};
use hft_engine::parser::Tick;

#[test]
fn test_order_book() {
    let mut order_book = OrderBook::new();

    let order1 = Order { id: 1, price: 100_000, quantity: 10, side: OrderSide::Bid };
    let order2 = Order { id: 2, price: 105_000, quantity: 5, side: OrderSide::Bid };
    let order3 = Order { id: 3, price: 110_000, quantity: 8, side: OrderSide::Ask };
    let order4 = Order { id: 4, price: 115_000, quantity: 12, side: OrderSide::Ask };

    order_book.add_order(order1);
    order_book.add_order(order2);
    order_book.add_order(order3);
    order_book.add_order(order4);

    assert_eq!(order_book.get_best_bid(), Some(105_000));
    assert_eq!(order_book.get_best_ask(), Some(110_000));
    assert_eq!(order_book.get_order(1), Some(order1));
    assert_eq!(order_book.get_order(5), None);

    order_book.update_order(1, 20);
    let updated_order1 = order_book.get_order(1).unwrap();
    assert_eq!(updated_order1.quantity, 20);

    order_book.remove_order(2);
    assert_eq!(order_book.get_order(2), None);
    assert_eq!(order_book.get_best_bid(), Some(100_000));
}

#[test]
fn book_remove_unknown_id_changes_nothing() {
    let mut book = OrderBook::new();
    let bid = Order { id: 1, price: 100_000, quantity: 10, side: OrderSide::Bid };
    book.add_order(bid);
    assert_eq!(book.remove_order(99), None);
    assert_eq!(book.get_order(1), Some(bid));
    assert_eq!(book.get_bids_at_price(100_000), Some(vec![bid]));
    assert_eq!(book.get_best_bid(), Some(100_000));
}

#[test]
fn book_empty_has_no_best_prices() {
    let book = OrderBook::new();
    assert_eq!(book.get_best_bid(), None);
    assert_eq!(book.get_best_ask(), None);
    assert_eq!(book.get_asks_at_price(1), None);
}

#[test]
fn book_level_keeps_insertion_order_and_amends_in_place() {
    let mut book = OrderBook::new();
    let a = Order { id: 10, price: 50_000, quantity: 1, side: OrderSide::Ask };
    let b = Order { id: 11, price: 50_000, quantity: 2, side: OrderSide::Ask };
    let c = Order { id: 12, price: 50_000, quantity: 3, side: OrderSide::Ask };
    book.add_order(a);
    book.add_order(b);
    book.add_order(c);
    assert_eq!(book.update_order(11, 7), Some(()));
    assert_eq!(book.update_order(99, 7), None);
    let level = book.get_asks_at_price(50_000).unwrap();
    assert_eq!(level.iter().map(|o| o.id).collect::<Vec<_>>(), vec![10, 11, 12]);
    assert_eq!(level[1].quantity, 7);
    assert_eq!(book.remove_order(10), Some(a));
    let level = book.get_asks_at_price(50_000).unwrap();
    assert_eq!(level.iter().map(|o| o.id).collect::<Vec<_>>(), vec![11, 12]);
}

#[test]
fn book_empty_level_is_removed() {
    let mut book = OrderBook::new();
    let only = Order { id: 5, price: 70_000, quantity: 4, side: OrderSide::Bid };
    let lower = Order { id: 6, price: 60_000, quantity: 4, side: OrderSide::Bid };
    book.add_order(only);
    book.add_order(lower);
    book.remove_order(5);
    assert_eq!(book.get_bids_at_price(70_000), None);
    assert_eq!(book.get_best_bid(), Some(60_000));
}

#[test]
fn book_refuses_duplicate_id() {
    let mut book = OrderBook::new();
    let first = Order { id: 1, price: 100, quantity: 1, side: OrderSide::Bid };
    let again = Order { id: 1, price: 200, quantity: 2, side: OrderSide::Ask };
    assert!(book.add_order(first));
    assert!(!book.add_order(again));
    assert_eq!(book.get_order(1), Some(first));
    assert_eq!(book.get_best_ask(), None);
}

#[test]
fn book_quotes_around_a_tick() {
    let mut book = OrderBook::new();
    let tick = Tick { price: 1_000_000, volume: 250 };
    assert_eq!(book.add_quotes(&tick, 1, 2), (true, true));
    assert_eq!(
        book.get_order(1),
        Some(Order { id: 1, price: 999_000, quantity: 25, side: OrderSide::Bid })
    );
    assert_eq!(
        book.get_order(2),
        Some(Order { id: 2, price: 1_001_000, quantity: 25, side: OrderSide::Ask })
    );
}

#[test]
fn book_process_market_data_adds_a_bid_and_an_ask() {
    let mut book = OrderBook::new();
    book.process_market_data(&Tick { price: 2_000_000, volume: 100 });
    assert_eq!(book.get_best_bid(), Some(1_998_000));
    assert_eq!(book.get_best_ask(), Some(2_002_000));
}
