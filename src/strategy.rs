//! Orders that strategies propose, and the strategies as one tagged type.
use vstd::prelude::*;
use crate::moving_average::SimpleMovingAverageStrategy;
use crate::parser::Tick;
use crate::trend_following::TrendFollowingStrategy;

verus! {

/// Direction of a proposed order.
#[derive(Debug, Clone, Copy, PartialEq, Eq, Structural)]
pub enum OrderSide {
    Buy,
    Sell,
}

impl OrderSide {
    /// The side in upper case, as log lines show it.
    pub fn label(&self) -> (r: &'static str)
        ensures
            *self == OrderSide::Buy ==> r@ == "BUY"@,
            *self == OrderSide::Sell ==> r@ == "SELL"@,
    {
        match self {
            OrderSide::Buy => "BUY",
            OrderSide::Sell => "SELL",
        }
    }
}

/// A candidate order: the price is in fixed-point units of `1 / PRICE_SCALE`.
#[derive(Debug, Clone)]
pub struct Order {
    pub symbol: String,
    pub price: u64,
    pub quantity: u64,
    pub side: OrderSide,
}

/// What an order says, as a mathematical value.
pub ghost struct OrderView {
    pub symbol: Seq<char>,
    pub price: u64,
    pub quantity: u64,
    pub side: OrderSide,
}

impl View for Order {
    type V = OrderView;

    open spec fn view(&self) -> OrderView {
        OrderView {
            symbol: self.symbol@,
            price: self.price,
            quantity: self.quantity,
            side: self.side,
        }
    }
}

/// The view of an optional order.
pub open spec fn option_view(o: Option<Order>) -> Option<OrderView> {
    match o {
        Some(order) => Some(order@),
        None => None,
    }
}

/// An order for `symbol` at `price` with the given quantity and side.
pub open spec fn order_of(symbol: Seq<char>, price: u64, quantity: u64, side: OrderSide) -> OrderView {
    OrderView { symbol, price, quantity, side }
}

/// The trading strategy in use, one variant per supported kind.
pub enum Strategy {
    MovingAverageCrossover(SimpleMovingAverageStrategy),
    TrendFollowing(TrendFollowingStrategy),
}

impl Strategy {
    pub open spec fn wf(&self) -> bool {
        match self {
            Strategy::MovingAverageCrossover(s) => s.wf(),
            Strategy::TrendFollowing(s) => s.wf(),
        }
    }

    /// The signal the strategy in use raises on `price`.
    pub open spec fn signal(&self, price: u64) -> Option<OrderView> {
        match self {
            Strategy::MovingAverageCrossover(s) => s.signal(price),
            Strategy::TrendFollowing(s) => s.signal(price),
        }
    }

    /// `next` is this strategy after it has taken in `price`.
    pub open spec fn steps_to(&self, next: &Strategy, price: u64) -> bool {
        match (*self, *next) {
            (Strategy::MovingAverageCrossover(a), Strategy::MovingAverageCrossover(b)) => {
                &&& b.window() == a.next_window(price)
                &&& b.spec_window_size() == a.spec_window_size()
                &&& b.spec_symbol() == a.spec_symbol()
            },
            (Strategy::TrendFollowing(a), Strategy::TrendFollowing(b)) => {
                &&& b.long_window() == a.next_long(price)
                &&& b.short_window() == a.next_short(price)
                &&& b.spec_long_period() == a.spec_long_period()
                &&& b.spec_short_period() == a.spec_short_period()
                &&& b.spec_position() == a.next_position(price)
            },
            _ => false,
        }
    }

    /// Passes the tick to the strategy in use and returns its signal.
    pub fn evaluate(&mut self, tick: &Tick) -> (r: Option<Order>)
        requires
            old(self).wf(),
        ensures
            final(self).wf(),
            old(self).steps_to(final(self), tick.price),
            option_view(r) == old(self).signal(tick.price),
    {
        match self {
            Strategy::MovingAverageCrossover(s) => s.evaluate(tick),
            Strategy::TrendFollowing(s) => s.evaluate(tick),
        }
    }
}

} // verus!
