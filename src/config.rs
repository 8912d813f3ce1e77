//! Configuration values consumed by the engine, and the engine built from
//! them. Money amounts and fractions are fixed-point, in units of
//! `1 / PRICE_SCALE`.
use vstd::prelude::*;
use crate::aggregator::{ConfigError, MarketDataAggregator, WEIGHT_SCALE};
use crate::arith::seq_sum;
use crate::engine::Engine;
use crate::moving_average::SimpleMovingAverageStrategy;
use crate::order_book::OrderBook;
use crate::parser::{MarketDataFormat, MarketDataParser};
use crate::risk_management::RiskManager;
use crate::strategy::Strategy;
use crate::trend_following::TrendFollowingStrategy;

verus! {

pub struct ExchangeConfig {
    pub address: String,
    pub protocol: String,
    pub heartbeat_interval: u64,
    pub max_retries: u32,
    pub retry_delay_secs: u64,
}

pub struct MarketDataConfig {
    pub format: String,
    pub aggregation_window: usize,
    pub use_wma: bool,
}

pub struct StrategyConfig {
    pub name: String,
    pub long_period: usize,
    pub short_period: usize,
    pub window_size: usize,
}

pub struct RiskConfig {
    pub max_position_size: u32,
    pub max_loss_per_trade: u64,
    pub stop_loss_percentage: u64,
    pub initial_capital: i64,
}

pub struct OrderExecutionConfig {
    pub address: String,
    pub protocol: String,
    pub connection_timeout_secs: u64,
    pub response_timeout_secs: u64,
}

pub struct LoggingConfig {
    pub console_level: String,
    pub file_level: String,
    pub file_path: Option<String>,
}

pub struct Config {
    pub exchange: ExchangeConfig,
    pub market_data: MarketDataConfig,
    pub strategy: StrategyConfig,
    pub risk: RiskConfig,
    pub order_execution: OrderExecutionConfig,
    pub logging: LoggingConfig,
}

/// Console log level when none is configured.
pub fn default_console_level() -> (r: String)
    ensures
        r@ == "info"@,
{
    String::from_str("info")
}

/// File log level when none is configured.
pub fn default_file_level() -> (r: String)
    ensures
        r@ == "debug"@,
{
    String::from_str("debug")
}

/// Why the engine could not be built from a configuration.
#[derive(Debug, Clone, Copy, PartialEq, Eq, Structural)]
pub enum StartupError {
    /// The market data format is neither `csv` nor `json`.
    UnknownFormat,
    /// The aggregator refused its window or weights.
    Aggregator(ConfigError),
}

pub open spec fn ascii_lower(c: char) -> char {
    if 'A' <= c && c <= 'Z' {
        ((c as u8) + 32) as char
    } else {
        c
    }
}

/// `s` equals the lower-case `lit` when ASCII letters are lowered.
pub open spec fn equals_ignoring_case(s: Seq<char>, lit: Seq<char>) -> bool {
    s.len() == lit.len() && forall|i: int| 0 <= i < s.len() ==> ascii_lower(#[trigger] s[i]) == lit[i]
}

fn lower_char(c: char) -> (r: char)
    ensures
        r == ascii_lower(c),
{
    if 'A' <= c && c <= 'Z' {
        ((c as u8) + 32) as char
    } else {
        c
    }
}

/// `s` equals `lit`, ASCII case aside.
pub fn eq_ignoring_case(s: &str, lit: &str) -> (r: bool)
    ensures
        r == equals_ignoring_case(s@, lit@),
{
    let n = s.unicode_len();
    if n != lit.unicode_len() {
        return false;
    }
    let mut i: usize = 0;
    while i < n
        invariant
            n == s@.len(),
            n == lit@.len(),
            i <= n,
            forall|k: int| 0 <= k < i ==> ascii_lower(#[trigger] s@[k]) == lit@[k],
        decreases n - i,
    {
        if lower_char(s.get_char(i)) != lit.get_char(i) {
            return false;
        }
        i = i + 1;
    }
    true
}

/// The market data format a name stands for.
pub open spec fn format_named(name: Seq<char>) -> Option<MarketDataFormat> {
    if equals_ignoring_case(name, "csv"@) {
        Some(MarketDataFormat::CSV)
    } else if equals_ignoring_case(name, "json"@) {
        Some(MarketDataFormat::JSON)
    } else {
        None
    }
}

pub fn market_data_format(name: &str) -> (r: Option<MarketDataFormat>)
    ensures
        r == format_named(name@),
{
    if eq_ignoring_case(name, "csv") {
        Some(MarketDataFormat::CSV)
    } else if eq_ignoring_case(name, "json") {
        Some(MarketDataFormat::JSON)
    } else {
        None
    }
}

/// The strategy a configuration names: trend following for
/// `trendfollowing` (ASCII case aside), otherwise the moving-average
/// crossover over `window_size` prices.
pub fn select_strategy(config: &StrategyConfig) -> (r: Strategy)
    ensures
        r.wf(),
        equals_ignoring_case(config.name@, "trendfollowing"@) ==> (r matches Strategy::TrendFollowing(
            t,
        ) && t.spec_long_period() == config.long_period && t.spec_short_period()
            == config.short_period && t.long_window().len() == 0 && t.short_window().len() == 0
            && t.spec_position() == 0),
        !equals_ignoring_case(config.name@, "trendfollowing"@) ==> (
        r matches Strategy::MovingAverageCrossover(m) && m.spec_window_size() == config.window_size
            && m.window().len() == 0),
{
    if eq_ignoring_case(config.name.as_str(), "trendfollowing") {
        Strategy::TrendFollowing(TrendFollowingStrategy::new(config.long_period, config.short_period))
    } else {
        Strategy::MovingAverageCrossover(
            SimpleMovingAverageStrategy::with_window_size(config.window_size),
        )
    }
}

/// The weights of a weighted average over `window` prices: all equal to one.
pub open spec fn unit_weights(window: nat) -> Seq<u64> {
    Seq::new(window, |i: int| WEIGHT_SCALE)
}

/// Builds the engine a configuration describes: its market data format,
/// an aggregator over `aggregation_window` prices (weighted with unit
/// weights when `use_wma`), an empty book, the named strategy and a risk manager
/// with the configured limits.
pub fn build_engine(config: &Config) -> (r: Result<Engine, StartupError>)
    ensures
        format_named(config.market_data.format@) is None ==> r == Err::<Engine, StartupError>(
            StartupError::UnknownFormat,
        ),
        r matches Ok(e) ==> {
            &&& e.wf()
            &&& format_named(config.market_data.format@) == Some(e.parser().spec_format())
            &&& e.aggregator().spec_window_size() == config.market_data.aggregation_window
            &&& e.aggregator().spec_weights() == if config.market_data.use_wma {
                Some(unit_weights(config.market_data.aggregation_window as nat))
            } else {
                None::<Seq<u64>>
            }
            &&& e.aggregator().prices().len() == 0
            &&& e.book()@.orders.dom().len() == 0
            &&& e.risk().spec_max_position_size() == config.risk.max_position_size
            &&& e.risk().spec_max_loss_per_trade() == config.risk.max_loss_per_trade
            &&& e.risk().spec_stop_loss() == config.risk.stop_loss_percentage
            &&& e.risk().spec_capital() == config.risk.initial_capital
            &&& e.risk().spec_position() == 0
        },
        config.market_data.use_wma && format_named(config.market_data.format@) is Some
            && seq_sum(unit_weights(config.market_data.aggregation_window as nat)) > u64::MAX
            ==> r == Err::<Engine, StartupError>(
            StartupError::Aggregator(ConfigError::WeightsTooLarge),
        ),
        format_named(config.market_data.format@) is Some && !(config.market_data.use_wma && seq_sum(
            unit_weights(config.market_data.aggregation_window as nat),
        ) > u64::MAX) ==> r is Ok,
{
    let format = match market_data_format(config.market_data.format.as_str()) {
        Some(f) => f,
        None => {
            return Err(StartupError::UnknownFormat);
        },
    };
    let window = config.market_data.aggregation_window;
    let weights = if config.market_data.use_wma {
        let w = vec![WEIGHT_SCALE; window];
        assert(w@ =~= unit_weights(window as nat));
        Some(w)
    } else {
        None
    };
    let aggregator = match MarketDataAggregator::new(window, weights) {
        Ok(a) => a,
        Err(e) => {
            return Err(StartupError::Aggregator(e));
        },
    };
    let strategy = select_strategy(&config.strategy);
    let risk = RiskManager::new(
        config.risk.max_position_size,
        config.risk.max_loss_per_trade,
        config.risk.stop_loss_percentage,
        config.risk.initial_capital,
    );
    let book = OrderBook::new();
    proof {
        assert(book@.orders.dom() =~= Set::<u64>::empty());
    }
    Ok(Engine::new(MarketDataParser::new(format), aggregator, book, strategy, risk))
}

} // verus!
