//! The per-cycle decisions of the event loop: what each event calls for, the
//! market data pipeline from a received line to an order to submit, and the
//! conservative booking of confirmations.
use vstd::prelude::*;
use crate::aggregator::MarketDataAggregator;
use crate::arith::seq_sum;
use crate::connection::{confirms, is_confirmation};
use crate::order_book::{OrderBook, quoted};
use crate::parser::{MarketDataFormat, MarketDataParser, ParseError, Tick, csv_tick, json_tick};
use crate::risk_management::{RiskManager, position_after};
use crate::strategy::{Order, Strategy};

verus! {

/// What the event loop was woken by.
pub enum LoopEvent {
    /// A line arrived from the venue.
    Message(String),
    /// No line arrived within the receive timeout.
    ReceiveTimeout,
    /// Receiving failed or the venue closed the connection.
    ReceiveFailed,
    /// The heartbeat timer fired.
    HeartbeatDue,
    /// Shutdown was requested.
    ShutdownRequested,
}

/// What became of a received line.
pub enum LineOutcome {
    /// A heartbeat acknowledgement: nothing to do.
    Ignored,
    /// The line is no tick; the cycle ends without an order.
    ParseFailed(ParseError),
    /// The tick would push the cumulative volume past `u64::MAX`; it is dropped.
    VolumeOverflow,
    /// The strategy raised no signal.
    NoSignal,
    /// The risk manager rejected the signal.
    Rejected,
    /// This approved order is to be submitted and its confirmation awaited.
    Submit(Order),
}

/// What the event loop is to do next.
pub enum LoopAction {
    /// The line was handled as described.
    Handled(LineOutcome),
    /// Reconnect, then send the subscription message again.
    Reconnect,
    /// Send a heartbeat message.
    SendHeartbeat,
    /// Leave the loop.
    Stop,
}

/// The message sent on every (re)connection.
pub const SUBSCRIBE_MESSAGE: &'static str = "SUBSCRIBE_MARKET_DATA";

/// The liveness message sent on every heartbeat.
pub const HEARTBEAT_MESSAGE: &'static str = "HEARTBEAT";

/// A Unicode White_Space character, as `char::is_whitespace` and
/// `str::trim` take it.
pub open spec fn is_space(c: char) -> bool {
    ('\u{9}' <= c && c <= '\u{d}') || c == ' ' || c == '\u{85}' || c == '\u{a0}' || c
        == '\u{1680}' || ('\u{2000}' <= c && c <= '\u{200a}') || c == '\u{2028}' || c
        == '\u{2029}' || c == '\u{202f}' || c == '\u{205f}' || c == '\u{3000}'
}

pub open spec fn trim_start(s: Seq<char>) -> Seq<char>
    decreases s.len(),
{
    if s.len() > 0 && is_space(s[0]) {
        trim_start(s.subrange(1, s.len() as int))
    } else {
        s
    }
}

pub open spec fn trim_end(s: Seq<char>) -> Seq<char>
    decreases s.len(),
{
    if s.len() > 0 && is_space(s.last()) {
        trim_end(s.drop_last())
    } else {
        s
    }
}

/// The line is a heartbeat acknowledgement, surrounding whitespace aside.
pub open spec fn is_heartbeat_ack(s: Seq<char>) -> bool {
    trim_end(trim_start(s)) == "HEARTBEAT_ACK"@
}

/// What the line reads as in `format`.
pub open spec fn parsed(format: MarketDataFormat, s: Seq<char>) -> Result<Tick, ParseError> {
    match format {
        MarketDataFormat::CSV => csv_tick(s),
        MarketDataFormat::JSON => json_tick(s),
    }
}

fn space_char(c: char) -> (r: bool)
    ensures
        r == is_space(c),
{
    ('\u{9}' <= c && c <= '\u{d}') || c == ' ' || c == '\u{85}' || c == '\u{a0}' || c
        == '\u{1680}' || ('\u{2000}' <= c && c <= '\u{200a}') || c == '\u{2028}' || c
        == '\u{2029}' || c == '\u{202f}' || c == '\u{205f}' || c == '\u{3000}'
}

fn text_equals(s: &str, from: usize, to: usize, lit: &str) -> (r: bool)
    requires
        from <= to <= s@.len(),
    ensures
        r == (s@.subrange(from as int, to as int) == lit@),
{
    let m = lit.unicode_len();
    if to - from != m {
        return false;
    }
    let mut j: usize = 0;
    while j < m
        invariant
            from + m == to <= s@.len(),
            m == lit@.len(),
            j <= m,
            forall|k: int| 0 <= k < j ==> s@[from + k] == lit@[k],
        decreases m - j,
    {
        if s.get_char(from + j) != lit.get_char(j) {
            assert(s@.subrange(from as int, to as int)[j as int] != lit@[j as int]);
            return false;
        }
        j = j + 1;
    }
    assert(s@.subrange(from as int, to as int) =~= lit@);
    true
}

/// `s` reads exactly `lit`.
pub fn text_is(s: &str, lit: &str) -> (r: bool)
    ensures
        r == (s@ == lit@),
{
    let n = s.unicode_len();
    proof {
        assert(s@.subrange(0, n as int) =~= s@);
    }
    text_equals(s, 0, n, lit)
}

/// The line is a heartbeat acknowledgement.
pub fn heartbeat_ack(line: &str) -> (r: bool)
    ensures
        r == is_heartbeat_ack(line@),
{
    let n = line.unicode_len();
    let mut a: usize = 0;
    assert(line@.subrange(0, n as int) =~= line@);
    while a < n && space_char(line.get_char(a))
        invariant
            n == line@.len(),
            a <= n,
            trim_start(line@.subrange(a as int, n as int)) == trim_start(line@),
        decreases n - a,
    {
        assert(line@.subrange(a as int, n as int).subrange(1, n - a) =~= line@.subrange(
            a + 1,
            n as int,
        ));
        a = a + 1;
    }
    let mut b: usize = n;
    while b > a && space_char(line.get_char(b - 1))
        invariant
            n == line@.len(),
            a <= b <= n,
            trim_start(line@) == line@.subrange(a as int, n as int),
            trim_end(line@.subrange(a as int, b as int)) == trim_end(
                line@.subrange(a as int, n as int),
            ),
        decreases b - a,
    {
        assert(line@.subrange(a as int, b as int).drop_last() =~= line@.subrange(
            a as int,
            b - 1,
        ));
        b = b - 1;
    }
    proof {
        reveal_strlit("HEARTBEAT_ACK");
    }
    text_equals(line, a, b, "HEARTBEAT_ACK")
}

/// The components of the trading engine, owned together by the event loop.
pub struct Engine {
    parser: MarketDataParser,
    aggregator: MarketDataAggregator,
    book: OrderBook,
    strategy: Strategy,
    risk: RiskManager,
}

impl Engine {
    pub closed spec fn parser(&self) -> MarketDataParser {
        self.parser
    }

    pub closed spec fn aggregator(&self) -> MarketDataAggregator {
        self.aggregator
    }

    pub closed spec fn book(&self) -> OrderBook {
        self.book
    }

    pub closed spec fn strategy(&self) -> Strategy {
        self.strategy
    }

    pub closed spec fn risk(&self) -> RiskManager {
        self.risk
    }

    pub closed spec fn wf(&self) -> bool {
        &&& self.aggregator.wf()
        &&& self.book.wf()
        &&& self.strategy.wf()
    }

    /// An engine from its components.
    pub fn new(
        parser: MarketDataParser,
        aggregator: MarketDataAggregator,
        book: OrderBook,
        strategy: Strategy,
        risk: RiskManager,
    ) -> (r: Self)
        requires
            aggregator.wf(),
            book.wf(),
            strategy.wf(),
        ensures
            r.wf(),
            r.parser() == parser,
            r.aggregator() == aggregator,
            r.book() == book,
            r.strategy() == strategy,
            r.risk() == risk,
    {
        Engine { parser, aggregator, book, strategy, risk }
    }

    /// The risk manager, for reading position and capital.
    pub fn risk_manager(&self) -> (r: &RiskManager)
        ensures
            *r == self.risk(),
    {
        &self.risk
    }

    /// The aggregator, for reading the statistics.
    pub fn market_data(&self) -> (r: &MarketDataAggregator)
        ensures
            *r == self.aggregator(),
    {
        &self.aggregator
    }

    /// The order book.
    pub fn order_book(&self) -> (r: &OrderBook)
        ensures
            *r == self.book(),
    {
        &self.book
    }

    /// `new` is `old` after the line `line` went through the pipeline with
    /// outcome `r`: a heartbeat acknowledgement or an unreadable line changes
    /// nothing; otherwise the tick updates the statistics, quotes the book
    /// and steps the strategy, and `r` is the strategy's signal as the risk
    /// manager decides on it. Position and capital do not change.
    pub open spec fn line_step(old: Engine, new: Engine, line: Seq<char>, r: LineOutcome) -> bool {
        &&& new.risk() == old.risk()
        &&& new.parser() == old.parser()
        &&& (is_heartbeat_ack(line) ==> r is Ignored && new == old)
        &&& !is_heartbeat_ack(line) ==> match parsed(old.parser().spec_format(), line) {
            Err(e) => r == LineOutcome::ParseFailed(e) && new == old,
            Ok(tick) => if old.aggregator().spec_total_volume() + tick.volume
                > u64::MAX {
                r is VolumeOverflow && new == old
            } else {
                &&& new.aggregator().prices() == old.aggregator().prices().push(
                    tick.price,
                )
                &&& new.aggregator().volumes() == old.aggregator().volumes().push(tick.volume)
                &&& new.aggregator().spec_window_size() == old.aggregator().spec_window_size()
                &&& new.aggregator().spec_weights() == old.aggregator().spec_weights()
                &&& exists|bid_id: u64, ask_id: u64|
                    new.book()@ == quoted(old.book()@, tick, bid_id, ask_id)
                &&& old.strategy().steps_to(&new.strategy(), tick.price)
                &&& match old.strategy().signal(tick.price) {
                    None => r is NoSignal,
                    Some(o) => match old.risk().evaluate_spec(o, tick.price) {
                        None => r is Rejected,
                        Some(a) => r matches LineOutcome::Submit(x) && x@ == a,
                    },
                }
            }
        }
    }

    /// Runs one received line through the pipeline: a heartbeat
    /// acknowledgement is ignored; otherwise the line is parsed, the tick
    /// updates the statistics and quotes the book, the strategy evaluates it,
    /// and the risk manager decides on any signal. Position and capital do not
    /// change here.
    pub fn process_line(&mut self, line: &str) -> (r: LineOutcome)
        requires
            old(self).wf(),
        ensures
            final(self).wf(),
            Self::line_step(*old(self), *final(self), line@, r),
    {
        if heartbeat_ack(line) {
            return LineOutcome::Ignored;
        }
        let tick = match self.parser.parse(line) {
            Ok(t) => t,
            Err(e) => {
                return LineOutcome::ParseFailed(e);
            },
        };
        if self.aggregator.get_total_volume() > u64::MAX - tick.volume {
            return LineOutcome::VolumeOverflow;
        }
        self.aggregator.update(&tick);
        let ghost book_before = self.book@;
        self.book.process_market_data(&tick);
        let ghost ids = choose|ids: (u64, u64)| self.book@ == quoted(book_before, tick, ids.0, ids.1);
        proof {
            let (b, a) = choose|b: u64, a: u64| self.book@ == quoted(book_before, tick, b, a);
            assert(self.book@ == quoted(book_before, tick, (b, a).0, (b, a).1));
        }
        let signal = self.strategy.evaluate(&tick);
        assert(self.book()@ == quoted(old(self).book()@, tick, ids.0, ids.1));
        match signal {
            None => LineOutcome::NoSignal,
            Some(order) => match self.risk.evaluate_order(&order, tick.price) {
                None => LineOutcome::Rejected,
                Some(approved) => LineOutcome::Submit(approved),
            },
        }
    }

    /// `new` is `old` after the venue answered `order` with `response`
    /// (`None` for a timeout or transport failure), `r` telling whether the
    /// order was booked: only a response holding the confirmation marker
    /// moves the position, and only when the new position fits an `i64`.
    /// Capital, limits and every other component stay as they were.
    pub open spec fn confirm_step(
        old: Engine,
        new: Engine,
        order: Order,
        response: Option<Seq<char>>,
        r: bool,
    ) -> bool {
        let next = position_after(old.risk().spec_position(), order.side, order.quantity as int);
        &&& new.parser() == old.parser()
        &&& new.aggregator() == old.aggregator()
        &&& new.book() == old.book()
        &&& new.strategy() == old.strategy()
        &&& r == (response matches Some(text) && confirms(text) && i64::MIN <= next <= i64::MAX)
        &&& r ==> new.risk().spec_position() == next
        &&& !r ==> new.risk().spec_position() == old.risk().spec_position()
        &&& new.risk().spec_capital() == old.risk().spec_capital()
        &&& new.risk().evaluate_params_unchanged(&old.risk())
    }

    /// Books a submitted order once the venue has answered. Only a response
    /// holding the confirmation marker moves the position; a timeout or
    /// transport failure (`None`) or any other response leaves position and
    /// capital as they were. Returns whether the order was booked.
    pub fn confirm(&mut self, order: &Order, response: Option<&str>) -> (r: bool)
        requires
            old(self).wf(),
        ensures
            final(self).wf(),
            Self::confirm_step(
                *old(self),
                *final(self),
                *order,
                match response {
                    Some(t) => Some(t@),
                    None => None,
                },
                r,
            ),
    {
        let text = match response {
            None => {
                return false;
            },
            Some(t) => t,
        };
        if !is_confirmation(text) {
            return false;
        }
        let position = self.risk.get_current_position() as i128;
        let next = match order.side {
            crate::strategy::OrderSide::Buy => position + order.quantity as i128,
            crate::strategy::OrderSide::Sell => position - order.quantity as i128,
        };
        if next < i64::MIN as i128 || next > i64::MAX as i128 {
            return false;
        }
        self.risk.update_position(order);
        true
    }

    /// The action an event calls for; a received line is run through the
    /// pipeline on the spot.
    pub fn handle(&mut self, event: LoopEvent) -> (r: LoopAction)
        requires
            old(self).wf(),
        ensures
            final(self).wf(),
            final(self).risk() == old(self).risk(),
            event is ReceiveTimeout ==> r is Reconnect && *final(self) == *old(self),
            event is ReceiveFailed ==> r is Reconnect && *final(self) == *old(self),
            event is HeartbeatDue ==> r is SendHeartbeat && *final(self) == *old(self),
            event is ShutdownRequested ==> r is Stop && *final(self) == *old(self),
            event matches LoopEvent::Message(line) ==> (r matches LoopAction::Handled(o)
                && Self::line_step(*old(self), *final(self), line@, o)),
    {
        match event {
            LoopEvent::Message(line) => LoopAction::Handled(self.process_line(line.as_str())),
            LoopEvent::ReceiveTimeout => LoopAction::Reconnect,
            LoopEvent::ReceiveFailed => LoopAction::Reconnect,
            LoopEvent::HeartbeatDue => LoopAction::SendHeartbeat,
            LoopEvent::ShutdownRequested => LoopAction::Stop,
        }
    }
}

/// An order whose confirmation never arrived (a timeout or a transport
/// failure) is not booked: position, capital and the other components stay
/// as they were.
pub proof fn lemma_unconfirmed_order_changes_nothing(
    old: Engine,
    new: Engine,
    order: Order,
    r: bool,
)
    requires
        Engine::confirm_step(old, new, order, None, r),
    ensures
        !r,
        new.risk().spec_position() == old.risk().spec_position(),
        new.risk().spec_capital() == old.risk().spec_capital(),
        new.aggregator() == old.aggregator(),
        new.book() == old.book(),
        new.strategy() == old.strategy(),
{
}

} // verus!
