//! The risk manager: clamps or rejects candidate orders against position and
//! loss limits, and tracks the position and capital of executed orders.
use vstd::prelude::*;
use crate::parser::Tick;
use crate::strategy::{Order, OrderSide, OrderView};
use crate::PRICE_SCALE;

verus! {

/// The position after trading `quantity` on `side` from `position`.
pub open spec fn position_after(position: int, side: OrderSide, quantity: int) -> int {
    match side {
        OrderSide::Buy => position + quantity,
        OrderSide::Sell => position - quantity,
    }
}

pub open spec fn abs(x: int) -> int {
    if x < 0 {
        -x
    } else {
        x
    }
}

/// The quantity the risk manager lets through: unchanged while the position
/// stays within `max`; otherwise the most that side can trade from
/// `position` without leaving the limit (zero when there is no room), but
/// never more than was asked for.
pub open spec fn allowed_quantity(position: int, max: int, side: OrderSide, quantity: int) -> int {
    if abs(position_after(position, side, quantity)) > max {
        let room = match side {
            OrderSide::Buy => max - position,
            OrderSide::Sell => max + position,
        };
        let most = if room > 0 {
            room
        } else {
            0
        };
        if most < quantity {
            most
        } else {
            quantity
        }
    } else {
        quantity
    }
}

/// `price * quantity * stop_loss` exceeds `max_loss`. Price and stop loss are
/// in units of `1 / PRICE_SCALE`, so the loss limit is scaled once more.
pub open spec fn loss_too_large(price: int, quantity: int, stop_loss: int, max_loss: int) -> bool {
    price * quantity * stop_loss > max_loss * (PRICE_SCALE as int)
}

pub struct RiskManager {
    max_position_size: u32,
    max_loss_per_trade: u64,
    stop_loss_percentage: u64,
    initial_capital: i64,
    current_capital: i64,
    current_position: i64,
}

impl RiskManager {
    pub closed spec fn spec_max_position_size(&self) -> int {
        self.max_position_size as int
    }

    pub closed spec fn spec_max_loss_per_trade(&self) -> int {
        self.max_loss_per_trade as int
    }

    pub closed spec fn spec_stop_loss(&self) -> int {
        self.stop_loss_percentage as int
    }

    pub closed spec fn spec_initial_capital(&self) -> int {
        self.initial_capital as int
    }

    pub closed spec fn spec_position(&self) -> int {
        self.current_position as int
    }

    pub closed spec fn spec_capital(&self) -> int {
        self.current_capital as int
    }

    /// What the risk manager makes of `order` at `current_price`: `None` when the loss
    /// limit is exceeded or nothing may be traded, else the order with the
    /// allowed quantity.
    pub open spec fn evaluate_spec(&self, order: OrderView, current_price: u64) -> Option<OrderView> {
        let q = allowed_quantity(
            self.spec_position(),
            self.spec_max_position_size(),
            order.side,
            order.quantity as int,
        );
        if loss_too_large(
            current_price as int,
            q,
            self.spec_stop_loss(),
            self.spec_max_loss_per_trade(),
        ) {
            None
        } else if q == 0 {
            None
        } else {
            Some(OrderView { quantity: q as u64, ..order })
        }
    }

    /// A risk manager with the given limits, a flat position and the initial capital.
    /// Money amounts and the stop-loss fraction are in units of `1 / PRICE_SCALE`.
    pub fn new(
        max_position_size: u32,
        max_loss_per_trade: u64,
        stop_loss_percentage: u64,
        initial_capital: i64,
    ) -> (r: Self)
        ensures
            r.spec_max_position_size() == max_position_size,
            r.spec_max_loss_per_trade() == max_loss_per_trade,
            r.spec_stop_loss() == stop_loss_percentage,
            r.spec_initial_capital() == initial_capital,
            r.spec_capital() == initial_capital,
            r.spec_position() == 0,
    {
        RiskManager {
            max_position_size,
            max_loss_per_trade,
            stop_loss_percentage,
            initial_capital,
            current_capital: initial_capital,
            current_position: 0,
        }
    }

    /// Approves, shrinks or rejects `order` at `current_price`. A rejection is
    /// `None`; its state does not change.
    pub fn evaluate_order(&self, order: &Order, current_price: u64) -> (r: Option<Order>)
        ensures
            match r {
                Some(o) => self.evaluate_spec(order@, current_price) == Some(o@),
                None => self.evaluate_spec(order@, current_price) is None,
            },
            r matches Some(o) ==> o.quantity <= order.quantity,
            r matches Some(o) ==> abs(
                position_after(self.spec_position(), o.side, o.quantity as int),
            ) <= self.spec_max_position_size() || abs(
                position_after(self.spec_position(), o.side, o.quantity as int),
            ) < abs(self.spec_position()),
    {
        let position = self.current_position as i128;
        let max = self.max_position_size as i128;
        let quantity = order.quantity as i128;
        let potential = match order.side {
            OrderSide::Buy => position + quantity,
            OrderSide::Sell => position - quantity,
        };
        let magnitude = if potential < 0 {
            -potential
        } else {
            potential
        };
        let mut adjusted: u64 = order.quantity;
        if magnitude > max {
            let room = match order.side {
                OrderSide::Buy => max - position,
                OrderSide::Sell => max + position,
            };
            let most: i128 = if room > 0 {
                room
            } else {
                0
            };
            if most < quantity {
                adjusted = most as u64;
            }
        }
        assert((current_price as int) * (adjusted as int) <= (u64::MAX as int) * (u64::MAX as int))
            by (nonlinear_arith)
            requires
                current_price <= u64::MAX,
                adjusted <= u64::MAX,
        ;
        let exposure: u128 = (current_price as u128) * (adjusted as u128);
        let limit: u128 = (self.max_loss_per_trade as u128) * (PRICE_SCALE as u128);
        let too_large = match exposure.checked_mul(self.stop_loss_percentage as u128) {
            Some(loss) => loss > limit,
            None => true,
        };
        if too_large {
            return None;
        }
        if adjusted == 0 {
            return None;
        }
        Some(
            Order {
                symbol: order.symbol.clone(),
                price: order.price,
                quantity: adjusted,
                side: order.side,
            },
        )
    }

    /// Books an executed order into the position.
    pub fn update_position(&mut self, order: &Order)
        requires
            i64::MIN <= position_after(old(self).spec_position(), order.side, order.quantity as int)
                <= i64::MAX,
        ensures
            final(self).spec_position() == position_after(
                old(self).spec_position(),
                order.side,
                order.quantity as int,
            ),
            final(self).spec_capital() == old(self).spec_capital(),
            final(self).evaluate_params_unchanged(old(self)),
    {
        let position = self.current_position as i128;
        let next = match order.side {
            OrderSide::Buy => position + order.quantity as i128,
            OrderSide::Sell => position - order.quantity as i128,
        };
        self.current_position = next as i64;
    }

    /// Adds a profit (or, when negative, a loss) to the capital.
    pub fn update_capital(&mut self, profit: i64)
        requires
            i64::MIN <= old(self).spec_capital() + profit <= i64::MAX,
        ensures
            final(self).spec_capital() == old(self).spec_capital() + profit,
            final(self).spec_position() == old(self).spec_position(),
            final(self).evaluate_params_unchanged(old(self)),
    {
        self.current_capital = self.current_capital + profit;
    }

    /// The position limit fits a `u32`, so a position within it fits an `i64`.
    pub proof fn lemma_limit_fits(&self)
        ensures
            0 <= self.spec_max_position_size() <= u32::MAX,
    {
    }

    /// The limits are those of `other`.
    pub open spec fn evaluate_params_unchanged(&self, other: &Self) -> bool {
        &&& self.spec_max_position_size() == other.spec_max_position_size()
        &&& self.spec_max_loss_per_trade() == other.spec_max_loss_per_trade()
        &&& self.spec_stop_loss() == other.spec_stop_loss()
        &&& self.spec_initial_capital() == other.spec_initial_capital()
    }

    pub fn get_current_position(&self) -> (r: i64)
        ensures
            r == self.spec_position(),
    {
        self.current_position
    }

    pub fn get_current_capital(&self) -> (r: i64)
        ensures
            r == self.spec_capital(),
    {
        self.current_capital
    }
}

/// Profit or loss of `order` marked at `market_price`: the price move in the
/// order's favour times its quantity, in units of `1 / PRICE_SCALE`.
pub open spec fn pnl(side: OrderSide, order_price: u64, market_price: u64, quantity: u64) -> int {
    match side {
        OrderSide::Buy => (market_price - order_price) * quantity,
        OrderSide::Sell => (order_price - market_price) * quantity,
    }
}

/// The profit or loss of `order` at the price of `tick`; `None` when it does
/// not fit an `i128`.
pub fn calculate_pnl(order: &Order, tick: &Tick) -> (r: Option<i128>)
    ensures
        r == if i128::MIN <= pnl(order.side, order.price, tick.price, order.quantity) <= i128::MAX {
            Some(pnl(order.side, order.price, tick.price, order.quantity) as i128)
        } else {
            None::<i128>
        },
{
    let moved: i128 = match order.side {
        OrderSide::Buy => tick.price as i128 - order.price as i128,
        OrderSide::Sell => order.price as i128 - tick.price as i128,
    };
    moved.checked_mul(order.quantity as i128)
}

} // verus!
