use hft_engine::aggregator::{ConfigError, MarketDataAggregator};
use hft_engine::parser::Tick;

#[test]
fn test_market_data_aggregator_sma() {
    let mut aggregator = MarketDataAggregator::new(3, None).unwrap();

    let tick1 = Tick { price: 100_000, volume: 100 };
    let tick2 = Tick { price: 110_000, volume: 150 };
    let tick3 = Tick { price: 120_000, volume: 200 };
    let tick4 = Tick { price: 130_000, volume: 250 };

    aggregator.update(&tick1);
    assert_eq!(aggregator.get_sma(), Some(100_000));
    assert_eq!(aggregator.get_total_volume(), 100);
    assert_eq!(aggregator.get_high_price(), Some(100_000));
    assert_eq!(aggregator.get_low_price(), Some(100_000));

    aggregator.update(&tick2);
    assert_eq!(aggregator.get_sma(), Some(105_000));
    assert_eq!(aggregator.get_total_volume(), 250);
    assert_eq!(aggregator.get_high_price(), Some(110_000));
    assert_eq!(aggregator.get_low_price(), Some(100_000));

    aggregator.update(&tick3);
    assert_eq!(aggregator.get_sma(), Some(110_000));
    assert_eq!(aggregator.get_total_volume(), 450);
    assert_eq!(aggregator.get_high_price(), Some(120_000));
    assert_eq!(aggregator.get_low_price(), Some(100_000));

    aggregator.update(&tick4);
    assert_eq!(aggregator.get_sma(), Some(120_000));
    assert_eq!(aggregator.get_total_volume(), 700);
    assert_eq!(aggregator.get_high_price(), Some(130_000));
    assert_eq!(aggregator.get_low_price(), Some(100_000));
}

#[test]
fn test_market_data_aggregator_wma() {
    // weights 0.1, 0.3, 0.6
    let weights = vec![1_000, 3_000, 6_000];
    let mut aggregator = MarketDataAggregator::new(3, Some(weights)).unwrap();

    let tick1 = Tick { price: 100_000, volume: 100 };
    let tick2 = Tick { price: 110_000, volume: 150 };
    let tick3 = Tick { price: 120_000, volume: 200 };
    let tick4 = Tick { price: 130_000, volume: 250 };

    aggregator.update(&tick1);
    assert_eq!(aggregator.get_sma(), Some(100_000));

    aggregator.update(&tick2);
    assert_eq!(aggregator.get_sma(), Some(107_000));

    aggregator.update(&tick3);
    assert_eq!(aggregator.get_sma(), Some(115_000));

    aggregator.update(&tick4);
    assert_eq!(aggregator.get_sma(), Some(125_000));
}

#[test]
fn test_market_data_aggregator_invalid_weights() {
    let weights = vec![1_000, 3_000];
    let result = MarketDataAggregator::new(3, Some(weights));
    assert_eq!(result.err(), Some(ConfigError::WeightCountMismatch));
}

#[test]
fn aggregator_rejects_weights_that_overflow() {
    let result = MarketDataAggregator::new(2, Some(vec![u64::MAX, 1]));
    assert_eq!(result.err(), Some(ConfigError::WeightsTooLarge));
}

#[test]
fn aggregator_starts_empty() {
    let aggregator = MarketDataAggregator::new(3, None).unwrap();
    assert_eq!(aggregator.get_sma(), None);
    assert_eq!(aggregator.get_total_volume(), 0);
    assert_eq!(aggregator.get_high_price(), None);
    assert_eq!(aggregator.get_low_price(), None);
}

#[test]
fn aggregator_high_low_track_all_prices_beyond_the_window() {
    let mut aggregator = MarketDataAggregator::new(2, None).unwrap();
    for price in [50_000u64, 90_000, 70_000, 60_000, 80_000] {
        aggregator.update(&Tick { price, volume: 1 });
    }
    assert_eq!(aggregator.get_high_price(), Some(90_000));
    assert_eq!(aggregator.get_low_price(), Some(50_000));
    assert_eq!(aggregator.get_sma(), Some(70_000));
    assert_eq!(aggregator.get_total_volume(), 5);
}

#[test]
fn aggregator_mean_is_floored() {
    let mut aggregator = MarketDataAggregator::new(3, None).unwrap();
    aggregator.update(&Tick { price: 1, volume: 0 });
    aggregator.update(&Tick { price: 2, volume: 0 });
    assert_eq!(aggregator.get_sma(), Some(1));
}

#[test]
fn aggregator_with_zero_window_has_no_average() {
    let mut aggregator = MarketDataAggregator::new(0, None).unwrap();
    aggregator.update(&Tick { price: 10, volume: 5 });
    assert_eq!(aggregator.get_sma(), None);
    assert_eq!(aggregator.get_high_price(), Some(10));
    assert_eq!(aggregator.get_total_volume(), 5);
}
