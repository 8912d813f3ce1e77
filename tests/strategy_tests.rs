use hft_engine::moving_average::SimpleMovingAverageStrategy;
use hft_engine::parser::Tick;
use hft_engine::risk_management::{calculate_pnl, RiskManager};
use hft_engine::strategy::{Order, OrderSide, Strategy};
use hft_engine::trend_following::TrendFollowingStrategy;

fn tick(price: u64) -> Tick {
    Tick { price, volume: 1 }
}

#[test]
fn crossover_waits_for_a_full_window_then_buys_above_the_mean() {
    let mut strategy = SimpleMovingAverageStrategy::with_window_size(3);
    assert!(strategy.evaluate(&tick(10_000)).is_none());
    assert!(strategy.evaluate(&tick(20_000)).is_none());
    // the third price only fills the window
    assert!(strategy.evaluate(&tick(30_000)).is_none());
    // mean of 2, 3, 10 is 5
    let order = strategy.evaluate(&tick(100_000)).unwrap();
    assert_eq!(order.side, OrderSide::Buy);
    assert_eq!(order.quantity, 1);
    assert_eq!(order.price, 100_000);
    assert_eq!(order.symbol, "SYMBOL");
}

#[test]
fn crossover_sells_below_the_mean_and_holds_at_it() {
    let mut strategy = SimpleMovingAverageStrategy::with_window_size(2);
    assert!(strategy.evaluate(&tick(50)).is_none());
    assert!(strategy.evaluate(&tick(50)).is_none());
    let order = strategy.evaluate(&tick(30)).unwrap();
    assert_eq!(order.side, OrderSide::Sell);
    assert!(strategy.evaluate(&tick(30)).is_none());
}

#[test]
fn crossover_default_window_is_ten() {
    let mut strategy = SimpleMovingAverageStrategy::new();
    for _ in 0..9 {
        assert!(strategy.evaluate(&tick(5)).is_none());
    }
    // the tenth price fills the window but cannot signal yet
    assert!(strategy.evaluate(&tick(500)).is_none());
    assert_eq!(strategy.evaluate(&tick(600)).unwrap().side, OrderSide::Buy);
}

#[test]
fn trend_following_signals_only_on_direction_changes() {
    let mut strategy = TrendFollowingStrategy::new(3, 1);
    assert!(strategy.evaluate(&tick(10)).is_none());
    assert!(strategy.evaluate(&tick(10)).is_none());
    let buy = strategy.evaluate(&tick(40)).unwrap();
    assert_eq!(buy.side, OrderSide::Buy);
    assert_eq!(buy.quantity, 10);
    assert_eq!(buy.symbol, "AAPL");
    assert!(strategy.evaluate(&tick(50)).is_none());
    let sell = strategy.evaluate(&tick(1)).unwrap();
    assert_eq!(sell.side, OrderSide::Sell);
    assert!(strategy.evaluate(&tick(0)).is_none());
}

#[test]
fn trend_following_equal_means_give_no_signal() {
    let mut strategy = TrendFollowingStrategy::new(2, 1);
    strategy.evaluate(&tick(10));
    assert!(strategy.evaluate(&tick(10)).is_none());
}

#[test]
fn strategy_enum_dispatches() {
    let mut strategy = Strategy::MovingAverageCrossover(SimpleMovingAverageStrategy::with_window_size(1));
    assert!(strategy.evaluate(&tick(3)).is_none());
    let mut trend = Strategy::TrendFollowing(TrendFollowingStrategy::new(2, 1));
    trend.evaluate(&tick(1));
    assert_eq!(trend.evaluate(&tick(5)).unwrap().side, OrderSide::Buy);
}

fn order(side: OrderSide, quantity: u64) -> Order {
    Order { symbol: "X".to_string(), price: 10_000, quantity, side }
}

#[test]
fn risk_clamps_a_buy_to_the_position_limit() {
    let mut risk = RiskManager::new(50, 1_000_000, 200, 10_000_000);
    risk.update_position(&order(OrderSide::Buy, 45));
    assert_eq!(risk.get_current_position(), 45);
    let approved = risk.evaluate_order(&order(OrderSide::Buy, 20), 10_000).unwrap();
    assert_eq!(approved.quantity, 5);
    assert_eq!(approved.symbol, "X");
    assert_eq!(approved.side, OrderSide::Buy);
}

#[test]
fn risk_rejects_a_clamp_to_zero() {
    let mut risk = RiskManager::new(50, 1_000_000, 200, 10_000_000);
    risk.update_position(&order(OrderSide::Buy, 50));
    assert!(risk.evaluate_order(&order(OrderSide::Buy, 10), 10_000).is_none());
    let sell = risk.evaluate_order(&order(OrderSide::Sell, 10), 10_000).unwrap();
    assert_eq!(sell.quantity, 10);
}

#[test]
fn risk_rejects_when_potential_loss_exceeds_the_limit() {
    // max loss 100.0, stop loss 2%: price 100.0 * 60 * 0.02 = 120 > 100
    let risk = RiskManager::new(1_000, 1_000_000, 200, 0);
    assert!(risk.evaluate_order(&order(OrderSide::Buy, 60), 1_000_000).is_none());
    // 100.0 * 50 * 0.02 = 100, not above the limit
    assert_eq!(risk.evaluate_order(&order(OrderSide::Buy, 50), 1_000_000).unwrap().quantity, 50);
}

#[test]
fn risk_sell_is_clamped_on_the_short_side() {
    let mut risk = RiskManager::new(50, u64::MAX, 0, 0);
    risk.update_position(&order(OrderSide::Sell, 40));
    assert_eq!(risk.get_current_position(), -40);
    assert_eq!(risk.evaluate_order(&order(OrderSide::Sell, 30), 10_000).unwrap().quantity, 10);
}

#[test]
fn risk_capital_tracks_profit_and_loss() {
    let mut risk = RiskManager::new(50, 0, 0, 1_000);
    risk.update_capital(250);
    risk.update_capital(-1_500);
    assert_eq!(risk.get_current_capital(), -250);
    assert_eq!(risk.get_current_position(), 0);
}

#[test]
fn pnl_of_long_and_short_orders() {
    let long = order(OrderSide::Buy, 3);
    assert_eq!(calculate_pnl(&long, &Tick { price: 12_000, volume: 0 }), Some(6_000));
    let short = order(OrderSide::Sell, 3);
    assert_eq!(calculate_pnl(&short, &Tick { price: 12_000, volume: 0 }), Some(-6_000));
    let huge = Order { symbol: "X".to_string(), price: 0, quantity: u64::MAX, side: OrderSide::Buy };
    assert_eq!(calculate_pnl(&huge, &Tick { price: u64::MAX, volume: 0 }), None);
}

#[test]
fn order_side_labels() {
    assert_eq!(OrderSide::Buy.label(), "BUY");
    assert_eq!(OrderSide::Sell.label(), "SELL");
}

#[test]
fn trend_following_with_zero_period_never_signals() {
    let mut strategy = TrendFollowingStrategy::new(0, 0);
    for price in [1u64, 50, 2, 90, 0] {
        assert!(strategy.evaluate(&tick(price)).is_none());
    }
}

#[test]
fn risk_never_enlarges_an_order() {
    let mut risk = RiskManager::new(50, u64::MAX, 0, 0);
    risk.update_position(&order(OrderSide::Sell, 100));
    // position -100, limit 50: buying 10 moves toward the limit and stays 10
    assert_eq!(risk.evaluate_order(&order(OrderSide::Buy, 10), 10_000).unwrap().quantity, 10);
}

#[test]
fn trend_following_compares_means_of_extreme_prices_exactly() {
    let mut strategy = TrendFollowingStrategy::new(2, 1);
    assert!(strategy.evaluate(&tick(u64::MAX)).is_none());
    // short mean MAX-1 is half a unit below the long mean of MAX and MAX-1
    let sell = strategy.evaluate(&tick(u64::MAX - 1)).unwrap();
    assert_eq!(sell.side, OrderSide::Sell);
}
