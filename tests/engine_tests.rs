use hft_engine::aggregator::MarketDataAggregator;
use hft_engine::config::{
    build_engine, default_console_level, default_file_level, select_strategy, Config, ExchangeConfig,
    LoggingConfig, MarketDataConfig, OrderExecutionConfig, RiskConfig, StartupError, StrategyConfig,
};
use hft_engine::connection::{
    contains_substring, is_confirmation, order_json, order_message, ConnectDecision, RetryPolicy,
};
use hft_engine::engine::{heartbeat_ack, Engine, LineOutcome, LoopAction, LoopEvent};
use hft_engine::moving_average::SimpleMovingAverageStrategy;
use hft_engine::order_formatter::{executor_payload, FormatError};
use hft_engine::order_book::OrderBook;
use hft_engine::parser::{MarketDataFormat, MarketDataParser, ParseError};
use hft_engine::risk_management::RiskManager;
use hft_engine::strategy::{Order, OrderSide, Strategy};

fn engine(window: usize) -> Engine {
    Engine::new(
        MarketDataParser::new(MarketDataFormat::CSV),
        MarketDataAggregator::new(3, None).unwrap(),
        OrderBook::new(),
        Strategy::MovingAverageCrossover(SimpleMovingAverageStrategy::with_window_size(window)),
        RiskManager::new(50, 1_000_000_000, 100, 5_000_000),
    )
}

fn buy(quantity: u64) -> Order {
    Order { symbol: "SYMBOL".to_string(), price: 100_000, quantity, side: OrderSide::Buy }
}

#[test]
fn retry_policy_allows_exactly_max_retries_attempts() {
    let mut policy = RetryPolicy::new(3, 2);
    let mut decisions = Vec::new();
    while policy.may_attempt() {
        decisions.push(policy.record_failure());
    }
    assert_eq!(
        decisions,
        vec![ConnectDecision::RetryAfter(2), ConnectDecision::RetryAfter(2), ConnectDecision::GiveUp]
    );
    assert!(!policy.may_attempt());
}

#[test]
fn retry_policy_with_no_retries_makes_no_attempt() {
    let policy = RetryPolicy::new(0, 5);
    assert!(!policy.may_attempt());
}

#[test]
fn retry_policy_resets_on_success() {
    let mut policy = RetryPolicy::new(2, 1);
    assert_eq!(policy.record_failure(), ConnectDecision::RetryAfter(1));
    policy.record_success();
    assert_eq!(policy.record_failure(), ConnectDecision::RetryAfter(1));
    assert_eq!(policy.record_failure(), ConnectDecision::GiveUp);
}

#[test]
fn confirmation_needs_the_executed_marker() {
    assert!(is_confirmation("ORDER EXECUTED id=1"));
    assert!(!is_confirmation("Order Accepted"));
    assert!(!is_confirmation("EXECUTE"));
    assert!(contains_substring("abc", ""));
    assert!(!contains_substring("", "a"));
}

#[test]
fn confirmation_timeout_leaves_position_and_capital() {
    let mut e = engine(3);
    assert!(!e.confirm(&buy(5), None));
    assert_eq!(e.risk_manager().get_current_position(), 0);
    assert_eq!(e.risk_manager().get_current_capital(), 5_000_000);
    assert!(!e.confirm(&buy(5), Some("REJECTED")));
    assert_eq!(e.risk_manager().get_current_position(), 0);
    assert!(e.confirm(&buy(5), Some("EXECUTED")));
    assert_eq!(e.risk_manager().get_current_position(), 5);
    assert_eq!(e.risk_manager().get_current_capital(), 5_000_000);
}

#[test]
fn pipeline_ignores_heartbeat_acks_and_reports_parse_errors() {
    let mut e = engine(3);
    assert!(matches!(e.process_line("  HEARTBEAT_ACK\r\n"), LineOutcome::Ignored));
    assert!(matches!(e.process_line("1,2,3"), LineOutcome::ParseFailed(ParseError::FieldCount)));
    assert_eq!(e.market_data().get_total_volume(), 0);
    assert!(heartbeat_ack("HEARTBEAT_ACK"));
    assert!(!heartbeat_ack("HEARTBEAT"));
    assert!(heartbeat_ack("\u{a0}HEARTBEAT_ACK\u{3000}\t"));
    assert!(!heartbeat_ack("HEARTBEAT_ACK\u{200b}"));
}

#[test]
fn pipeline_submits_an_approved_order() {
    let mut e = engine(3);
    assert!(matches!(e.process_line("1,10"), LineOutcome::NoSignal));
    assert!(matches!(e.process_line("2,10"), LineOutcome::NoSignal));
    assert!(matches!(e.process_line("3,10"), LineOutcome::NoSignal));
    match e.process_line("10,20") {
        LineOutcome::Submit(order) => {
            assert_eq!(order.side, OrderSide::Buy);
            assert_eq!(order.price, 100_000);
            assert_eq!(order.quantity, 1);
        }
        _ => panic!("expected an order to submit"),
    }
    assert_eq!(e.market_data().get_total_volume(), 50);
    assert_eq!(e.market_data().get_high_price(), Some(100_000));
    assert_eq!(e.risk_manager().get_current_position(), 0);
    assert_eq!(e.order_book().get_best_ask(), Some(10_010));
}

#[test]
fn pipeline_reports_risk_rejections() {
    let mut e = Engine::new(
        MarketDataParser::new(MarketDataFormat::CSV),
        MarketDataAggregator::new(3, None).unwrap(),
        OrderBook::new(),
        Strategy::MovingAverageCrossover(SimpleMovingAverageStrategy::with_window_size(2)),
        RiskManager::new(0, 1_000_000, 100, 0),
    );
    e.process_line("1,1");
    e.process_line("1,1");
    assert!(matches!(e.process_line("5,1"), LineOutcome::Rejected));
}

#[test]
fn events_map_to_actions() {
    let mut e = engine(3);
    assert!(matches!(e.handle(LoopEvent::ReceiveTimeout), LoopAction::Reconnect));
    assert!(matches!(e.handle(LoopEvent::ReceiveFailed), LoopAction::Reconnect));
    assert!(matches!(e.handle(LoopEvent::HeartbeatDue), LoopAction::SendHeartbeat));
    assert!(matches!(e.handle(LoopEvent::ShutdownRequested), LoopAction::Stop));
    assert!(matches!(
        e.handle(LoopEvent::Message("HEARTBEAT_ACK".to_string())),
        LoopAction::Handled(LineOutcome::Ignored)
    ));
}

#[test]
fn order_message_is_place_order_with_json() {
    let order = Order { symbol: "AAPL".to_string(), price: 1_005_000, quantity: 10, side: OrderSide::Buy };
    assert_eq!(
        order_message(&order),
        "PLACE_ORDER {\"symbol\":\"AAPL\",\"price\":100.5,\"quantity\":10,\"side\":\"Buy\"}\n"
    );
    let quoted = Order { symbol: "A\"B".to_string(), price: 20_000, quantity: 3, side: OrderSide::Sell };
    assert_eq!(order_json(&quoted), "{\"symbol\":\"A\\\"B\",\"price\":2,\"quantity\":3,\"side\":\"Sell\"}");
    let controls = Order { symbol: "a\\\n\u{1}\u{1f}é".to_string(), price: 1, quantity: 0, side: OrderSide::Buy };
    assert!(order_json(&controls).starts_with("{\"symbol\":\"a\\\\\\n\\u0001\\u001fé\","));
}

fn config(format: &str, strategy: &str, use_wma: bool) -> Config {
    Config {
        exchange: ExchangeConfig {
            address: "127.0.0.1:9000".to_string(),
            protocol: "text".to_string(),
            heartbeat_interval: 5,
            max_retries: 3,
            retry_delay_secs: 1,
        },
        market_data: MarketDataConfig { format: format.to_string(), aggregation_window: 4, use_wma },
        strategy: StrategyConfig { name: strategy.to_string(), long_period: 5, short_period: 2, window_size: 3 },
        risk: RiskConfig {
            max_position_size: 100,
            max_loss_per_trade: 1_000_000,
            stop_loss_percentage: 200,
            initial_capital: 100_000_000,
        },
        order_execution: OrderExecutionConfig {
            address: "127.0.0.1:9001".to_string(),
            protocol: "json".to_string(),
            connection_timeout_secs: 5,
            response_timeout_secs: 5,
        },
        logging: LoggingConfig { console_level: default_console_level(), file_level: default_file_level(), file_path: None },
    }
}

#[test]
fn engine_is_built_from_configuration() {
    let e = build_engine(&config("JSON", "TrendFollowing", true)).unwrap();
    assert_eq!(e.risk_manager().get_current_capital(), 100_000_000);
    assert!(matches!(build_engine(&config("xml", "sma", false)), Err(StartupError::UnknownFormat)));
    assert_eq!(default_console_level(), "info");
    assert_eq!(default_file_level(), "debug");
}

#[test]
fn unknown_strategy_defaults_to_crossover() {
    let mut cfg = config("csv", "momentum", false);
    assert!(matches!(select_strategy(&cfg.strategy), Strategy::MovingAverageCrossover(_)));
    cfg.strategy.name = "trendfollowing".to_string();
    cfg.strategy.long_period = 0;
    assert!(matches!(select_strategy(&cfg.strategy), Strategy::TrendFollowing(_)));
    cfg.strategy.long_period = usize::MAX;
    assert!(matches!(select_strategy(&cfg.strategy), Strategy::TrendFollowing(_)));
    cfg.strategy.long_period = 5;
    assert!(build_engine(&cfg).is_ok());
}

#[test]
fn executor_payload_by_protocol() {
    let order = Order { symbol: "TEST".to_string(), price: 1_000_000, quantity: 10, side: OrderSide::Buy };
    assert_eq!(
        executor_payload(&order, "json").unwrap(),
        "{\"symbol\":\"TEST\",\"price\":100,\"quantity\":10,\"side\":\"Buy\"}"
    );
    assert_eq!(
        executor_payload(&order, "binary").unwrap(),
        "Order { symbol: \"TEST\", price: 100, quantity: 10, side: Buy }"
    );
    assert_eq!(executor_payload(&order, "fix").unwrap(), executor_payload(&order, "binary").unwrap());
    assert_eq!(executor_payload(&order, "xml"), Err(FormatError::UnsupportedProtocol));
}
