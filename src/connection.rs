//! The decisions of the venue session: bounded connect retries with a fixed
//! delay, the order submission message, and the confirmation rule. The
//! network work itself is done by the caller, which reports back here.
use vstd::prelude::*;
use crate::strategy::{Order, OrderSide};
use crate::text::{decimal, decimal_text, format_price, price_text};

verus! {

/// What to do after a failed connection attempt.
#[derive(Debug, Clone, Copy, PartialEq, Eq, Structural)]
pub enum ConnectDecision {
    /// Wait this many seconds, then attempt again.
    RetryAfter(u64),
    /// The attempts are used up: the failure is fatal.
    GiveUp,
}

/// The decision after the `attempt`-th consecutive failure.
pub open spec fn decision_after(attempt: nat, max_retries: nat, delay: u64) -> ConnectDecision {
    if attempt < max_retries {
        ConnectDecision::RetryAfter(delay)
    } else {
        ConnectDecision::GiveUp
    }
}

/// The decisions a caller receives when every attempt fails, starting from
/// `attempts` failures already counted and with `n` attempts available to
/// make; the caller attempts only while attempts remain.
pub open spec fn failure_decisions(attempts: nat, max_retries: nat, delay: u64, n: nat) -> Seq<
    ConnectDecision,
>
    decreases n,
{
    if n == 0 || attempts >= max_retries {
        Seq::empty()
    } else {
        seq![decision_after(attempts + 1, max_retries, delay)] + failure_decisions(
            attempts + 1,
            max_retries,
            delay,
            (n - 1) as nat,
        )
    }
}

/// Connect retry policy and its counter of consecutive failed attempts.
pub struct RetryPolicy {
    max_retries: u32,
    retry_delay_secs: u64,
    attempts: u32,
}

impl RetryPolicy {
    pub closed spec fn spec_max_retries(&self) -> nat {
        self.max_retries as nat
    }

    pub closed spec fn spec_delay(&self) -> u64 {
        self.retry_delay_secs
    }

    /// Failed attempts since the last success.
    pub closed spec fn spec_attempts(&self) -> nat {
        self.attempts as nat
    }

    pub closed spec fn wf(&self) -> bool {
        self.attempts <= self.max_retries
    }

    /// A policy allowing `max_retries` attempts `retry_delay_secs` apart.
    pub fn new(max_retries: u32, retry_delay_secs: u64) -> (r: Self)
        ensures
            r.wf(),
            r.spec_max_retries() == max_retries,
            r.spec_delay() == retry_delay_secs,
            r.spec_attempts() == 0,
    {
        RetryPolicy { max_retries, retry_delay_secs, attempts: 0 }
    }

    /// An attempt may be made: fewer than `max_retries` have failed.
    pub fn may_attempt(&self) -> (r: bool)
        ensures
            r == (self.spec_attempts() < self.spec_max_retries()),
    {
        self.attempts < self.max_retries
    }

    /// Counts a failed attempt and says whether to retry.
    pub fn record_failure(&mut self) -> (r: ConnectDecision)
        requires
            old(self).wf(),
            old(self).spec_attempts() < old(self).spec_max_retries(),
        ensures
            final(self).wf(),
            final(self).spec_attempts() == old(self).spec_attempts() + 1,
            final(self).spec_max_retries() == old(self).spec_max_retries(),
            final(self).spec_delay() == old(self).spec_delay(),
            r == decision_after(
                final(self).spec_attempts(),
                final(self).spec_max_retries(),
                final(self).spec_delay(),
            ),
    {
        self.attempts = self.attempts + 1;
        if self.attempts < self.max_retries {
            ConnectDecision::RetryAfter(self.retry_delay_secs)
        } else {
            ConnectDecision::GiveUp
        }
    }

    /// A connection was made: the counter starts again.
    pub fn record_success(&mut self)
        ensures
            final(self).wf(),
            final(self).spec_attempts() == 0,
            final(self).spec_max_retries() == old(self).spec_max_retries(),
            final(self).spec_delay() == old(self).spec_delay(),
    {
        self.attempts = 0;
    }
}

/// Against a target that never accepts, a fresh policy lets exactly
/// `max_retries` attempts be made, each failure but the last answered by a
/// wait of `delay`, the last by giving up; no attempt follows.
pub proof fn lemma_retry_bound(max_retries: nat, delay: u64, n: nat)
    requires
        n >= max_retries,
    ensures
        failure_decisions(0, max_retries, delay, n).len() == max_retries,
        forall|k: int|
            0 <= k < max_retries - 1 ==> #[trigger] failure_decisions(0, max_retries, delay, n)[k]
                == ConnectDecision::RetryAfter(delay),
        max_retries > 0 ==> failure_decisions(0, max_retries, delay, n)[max_retries - 1]
            == ConnectDecision::GiveUp,
{
    lemma_failure_decisions(0, max_retries, delay, n);
}

proof fn lemma_failure_decisions(attempts: nat, max_retries: nat, delay: u64, n: nat)
    requires
        attempts <= max_retries,
        n >= max_retries - attempts,
    ensures
        failure_decisions(attempts, max_retries, delay, n).len() == max_retries - attempts,
        forall|k: int|
            0 <= k < max_retries - attempts ==> #[trigger] failure_decisions(
                attempts,
                max_retries,
                delay,
                n,
            )[k] == decision_after((attempts + k + 1) as nat, max_retries, delay),
    decreases n,
{
    if n > 0 && attempts < max_retries {
        lemma_failure_decisions(attempts + 1, max_retries, delay, (n - 1) as nat);
        let rest = failure_decisions(attempts + 1, max_retries, delay, (n - 1) as nat);
        let all = failure_decisions(attempts, max_retries, delay, n);
        assert forall|k: int| 0 <= k < max_retries - attempts implies #[trigger] all[k]
            == decision_after((attempts + k + 1) as nat, max_retries, delay) by {
            if k > 0 {
                assert(all[k] == rest[k - 1]);
            }
        }
    }
}

/// `needle` occurs in `s` starting at `i`.
pub open spec fn occurs_at(s: Seq<char>, needle: Seq<char>, i: int) -> bool {
    0 <= i && i + needle.len() <= s.len() && s.subrange(i, i + needle.len()) == needle
}

pub open spec fn contains_text(s: Seq<char>, needle: Seq<char>) -> bool {
    exists|i: int| occurs_at(s, needle, i)
}

/// The marker whose presence in a response confirms an order.
pub open spec fn confirms(response: Seq<char>) -> bool {
    contains_text(response, "EXECUTED"@)
}

/// `needle` occurs somewhere in `s`.
pub fn contains_substring(s: &str, needle: &str) -> (r: bool)
    ensures
        r == contains_text(s@, needle@),
{
    let n = s.unicode_len();
    let m = needle.unicode_len();
    if m > n {
        assert forall|i: int| !occurs_at(s@, needle@, i) by {}
        return false;
    }
    let mut i: usize = 0;
    while i <= n - m
        invariant
            n == s@.len(),
            m == needle@.len(),
            m <= n,
            forall|k: int| 0 <= k < i ==> !occurs_at(s@, needle@, k),
        decreases n - m + 1 - i,
    {
        let mut j: usize = 0;
        while j < m && s.get_char(i + j) == needle.get_char(j)
            invariant
                n == s@.len(),
                m == needle@.len(),
                i + m <= n,
                j <= m,
                forall|k: int| 0 <= k < j ==> s@[i + k] == needle@[k],
            decreases m - j,
        {
            j = j + 1;
        }
        if j == m {
            assert(s@.subrange(i as int, i + m) =~= needle@);
            assert(occurs_at(s@, needle@, i as int));
            return true;
        }
        assert(!occurs_at(s@, needle@, i as int)) by {
            if occurs_at(s@, needle@, i as int) {
                assert(s@.subrange(i as int, i + m)[j as int] == s@[i + j]);
            }
        }
        i = i + 1;
    }
    assert forall|k: int| !occurs_at(s@, needle@, k) by {}
    false
}

/// The response confirms execution: it holds the marker `EXECUTED`.
pub fn is_confirmation(response: &str) -> (r: bool)
    ensures
        r == confirms(response@),
{
    proof {
        reveal_strlit("EXECUTED");
    }
    contains_substring(response, "EXECUTED")
}

/// A lower-case hexadecimal digit.
pub open spec fn hex_digit(d: nat) -> char {
    if d < 10 {
        ((d + 48) as u8) as char
    } else {
        ((d + 87) as u8) as char
    }
}

/// How one character is written inside a JSON string: quote and backslash
/// escaped, the usual short escapes for backspace, tab, line feed, form feed
/// and carriage return, other control characters as `\u00XX`, and every
/// other character as it is.
pub open spec fn json_escape(c: char) -> Seq<char> {
    if c == '"' {
        seq!['\\', '"']
    } else if c == '\\' {
        seq!['\\', '\\']
    } else if c == '\u{8}' {
        seq!['\\', 'b']
    } else if c == '\t' {
        seq!['\\', 't']
    } else if c == '\n' {
        seq!['\\', 'n']
    } else if c == '\u{c}' {
        seq!['\\', 'f']
    } else if c == '\r' {
        seq!['\\', 'r']
    } else if (c as u32) < 32 {
        seq!['\\', 'u', '0', '0', hex_digit((c as u32 / 16) as nat), hex_digit((c as u32 % 16) as nat)]
    } else {
        seq![c]
    }
}

pub open spec fn json_escaped(s: Seq<char>) -> Seq<char>
    decreases s.len(),
{
    if s.len() == 0 {
        Seq::empty()
    } else {
        json_escaped(s.drop_last()) + json_escape(s.last())
    }
}

/// `s` as a JSON string literal.
pub open spec fn json_string_text(s: Seq<char>) -> Seq<char> {
    seq!['"'] + json_escaped(s) + seq!['"']
}

/// Relies on serde_json::to_string for a str (format_escaped_str): `s` in
/// quotes, each character escaped as `json_escape` states.
#[verifier::external_body]
pub(crate) fn json_string(s: &str) -> (r: String)
    ensures
        r@ == json_string_text(s@),
{
    serde_json::to_string(s).unwrap_or_default()
}

pub open spec fn side_name(side: OrderSide) -> Seq<char> {
    match side {
        OrderSide::Buy => "Buy"@,
        OrderSide::Sell => "Sell"@,
    }
}

/// An order as a JSON object with `symbol`, `price`, `quantity` and `side`.
pub open spec fn order_json_text(symbol: Seq<char>, price: u64, quantity: u64, side: OrderSide) -> Seq<char> {
    "{\"symbol\":"@ + json_string_text(symbol) + ",\"price\":"@ + price_text(price)
        + ",\"quantity\":"@ + decimal_text(quantity as nat) + ",\"side\":\""@ + side_name(side)
        + "\"}"@
}

/// The order submission line: `PLACE_ORDER `, the order as JSON, a newline.
pub open spec fn order_message_text(symbol: Seq<char>, price: u64, quantity: u64, side: OrderSide) -> Seq<char> {
    "PLACE_ORDER "@ + order_json_text(symbol, price, quantity, side) + "\n"@
}

/// `order` as a JSON object.
pub fn order_json(order: &Order) -> (r: String)
    ensures
        r@ == order_json_text(order.symbol@, order.price, order.quantity, order.side),
{
    let mut m = String::from_str("{\"symbol\":");
    m.append(json_string(order.symbol.as_str()).as_str());
    m.append(",\"price\":");
    m.append(format_price(order.price).as_str());
    m.append(",\"quantity\":");
    m.append(decimal(order.quantity).as_str());
    m.append(",\"side\":\"");
    match order.side {
        OrderSide::Buy => m.append("Buy"),
        OrderSide::Sell => m.append("Sell"),
    }
    m.append("\"}");
    m
}

/// The line that submits `order` to the venue.
pub fn order_message(order: &Order) -> (r: String)
    ensures
        r@ == order_message_text(order.symbol@, order.price, order.quantity, order.side),
{
    let mut m = String::from_str("PLACE_ORDER ");
    m.append(order_json(order).as_str());
    m.append("\n");
    m
}

} // verus!
