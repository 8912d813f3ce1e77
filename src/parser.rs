//! Market data samples and the parsers that read them from text lines.
use vstd::prelude::*;

verus! {

/// One price/volume observation. The price is in fixed-point units of
/// `1 / PRICE_SCALE`.
#[derive(Debug, Clone, Copy, PartialEq, Eq, Structural)]
pub struct Tick {
    pub price: u64,
    pub volume: u64,
}

/// The wire format of market data lines; one is active per run.
#[derive(Debug, Clone, Copy, PartialEq, Eq, Structural)]
pub enum MarketDataFormat {
    CSV,
    JSON,
}

/// Why a market data line was not a tick.
#[derive(Debug, Clone, Copy, PartialEq, Eq, Structural)]
pub enum ParseError {
    /// A CSV line without exactly two comma-separated fields.
    FieldCount,
    /// A JSON line that is no object with numeric `price` and `volume`.
    MissingField,
    /// A price or volume that is not a number this parser accepts.
    InvalidNumber,
}

pub open spec fn is_digit(c: char) -> bool {
    '0' <= c && c <= '9'
}

pub open spec fn all_digits(s: Seq<char>) -> bool {
    forall|i: int| 0 <= i < s.len() ==> is_digit(#[trigger] s[i])
}

/// The number that a run of decimal digits spells.
pub open spec fn digits_value(s: Seq<char>) -> nat
    decreases s.len(),
{
    if s.len() == 0 {
        0
    } else {
        digits_value(s.drop_last()) * 10 + ((s.last() as int) - 48) as nat
    }
}

pub open spec fn pow10(n: nat) -> nat
    decreases n,
{
    if n == 0 {
        1
    } else {
        10 * pow10((n - 1) as nat)
    }
}

/// `i` is the first position of `c` in `s`.
pub open spec fn is_first(s: Seq<char>, c: char, i: int) -> bool {
    0 <= i < s.len() && s[i] == c && forall|j: int| 0 <= j < i ==> s[j] != c
}

/// The first position of `c` in `s`, or -1.
pub open spec fn first_index(s: Seq<char>, c: char) -> int {
    if exists|i: int| is_first(s, c, i) {
        choose|i: int| is_first(s, c, i)
    } else {
        -1
    }
}

/// `s` without one leading `+`.
pub open spec fn unsigned_part(s: Seq<char>) -> Seq<char> {
    if s.len() > 0 && s[0] == '+' {
        s.subrange(1, s.len() as int)
    } else {
        s
    }
}

/// A volume: an optional `+`, then one or more decimal digits whose value
/// fits a `u64`.
pub open spec fn volume_value(s: Seq<char>) -> Option<u64> {
    let d = unsigned_part(s);
    if d.len() > 0 && all_digits(d) && digits_value(d) <= u64::MAX {
        Some(digits_value(d) as u64)
    } else {
        None
    }
}

/// The digits of `g` placed so that the first is worth `10^top` and each
/// next one a tenth of the one before: the sum of `digit * 10^(top - i)`
/// over the positions `i`, provided every digit below the units place is
/// zero (the sum is then a whole number); `None` otherwise.
pub open spec fn scaled_digits(g: Seq<char>, top: int) -> Option<nat>
    decreases g.len(),
{
    if g.len() == 0 {
        Some(0)
    } else {
        let e = top - (g.len() - 1);
        let d = ((g.last() as int) - 48) as nat;
        match scaled_digits(g.drop_last(), top) {
            None => None,
            Some(v) => if e >= 0 {
                Some(v + d * pow10(e as nat))
            } else if d == 0 {
                Some(v)
            } else {
                None
            },
        }
    }
}

pub open spec fn is_exponent_mark(c: char) -> bool {
    c == 'e' || c == 'E'
}

/// `i` is the first position of an exponent mark in `s`.
pub open spec fn is_first_mark(s: Seq<char>, i: int) -> bool {
    0 <= i < s.len() && is_exponent_mark(s[i]) && forall|j: int| 0 <= j < i ==> !is_exponent_mark(s[j])
}

/// The first position of an exponent mark in `s`, or -1.
pub open spec fn mark_index(s: Seq<char>) -> int {
    if exists|i: int| is_first_mark(s, i) {
        choose|i: int| is_first_mark(s, i)
    } else {
        -1
    }
}

/// An exponent: an optional sign, then one or more decimal digits.
pub open spec fn exponent_value(t: Seq<char>) -> Option<int> {
    let negative = t.len() > 0 && t[0] == '-';
    let digits = if t.len() > 0 && (t[0] == '-' || t[0] == '+') {
        t.subrange(1, t.len() as int)
    } else {
        t
    };
    if digits.len() > 0 && all_digits(digits) {
        Some(if negative { -(digits_value(digits) as int) } else { digits_value(digits) as int })
    } else {
        None
    }
}

/// A price: an optional `+`, decimal digits with an optional point (at
/// least one digit in all), then optionally `e` or `E` and a signed
/// exponent. It is read exactly in units of `1 / PRICE_SCALE`: the value
/// must be a whole number of units and fit a `u64`.
pub open spec fn price_value(s: Seq<char>) -> Option<u64> {
    let m = unsigned_part(s);
    let x = mark_index(m);
    let mantissa = if x < 0 {
        m
    } else {
        m.subrange(0, x)
    };
    let exponent = if x < 0 {
        Some(0int)
    } else {
        exponent_value(m.subrange(x + 1, m.len() as int))
    };
    let d = first_index(mantissa, '.');
    let whole = if d < 0 {
        mantissa
    } else {
        mantissa.subrange(0, d)
    };
    let frac = if d < 0 {
        Seq::<char>::empty()
    } else {
        mantissa.subrange(d + 1, mantissa.len() as int)
    };
    if whole.len() + frac.len() > 0 {
        match exponent {
            Some(e) => fixed_value(whole + frac, whole.len() + 3 + e),
            None => None,
        }
    } else {
        None
    }
}

/// The digits `g`, the first worth `10^top`, as a whole number that fits a
/// `u64`; `None` when `g` holds a non-digit or the value is no such number.
pub open spec fn fixed_value(g: Seq<char>, top: int) -> Option<u64> {
    if all_digits(g) {
        match scaled_digits(g, top) {
            Some(v) => if v <= u64::MAX {
                Some(v as u64)
            } else {
                None
            },
            None => None,
        }
    } else {
        None
    }
}

/// A tick from the texts of its two numbers.
pub open spec fn tick_from_texts(price: Seq<char>, volume: Seq<char>) -> Result<Tick, ParseError> {
    match (price_value(price), volume_value(volume)) {
        (Some(p), Some(v)) => Ok(Tick { price: p, volume: v }),
        _ => Err(ParseError::InvalidNumber),
    }
}

/// A CSV line: exactly two fields, price then volume.
pub open spec fn csv_tick(s: Seq<char>) -> Result<Tick, ParseError> {
    let c = first_index(s, ',');
    if c < 0 {
        Err(ParseError::FieldCount)
    } else {
        let rest = s.subrange(c + 1, s.len() as int);
        if first_index(rest, ',') >= 0 {
            Err(ParseError::FieldCount)
        } else {
            tick_from_texts(s.subrange(0, c), rest)
        }
    }
}

/// The textual form of the number under `key` in the JSON object `text`;
/// `None` when `text` is not a JSON object or `key` holds no number.
pub uninterp spec fn json_number_text(text: Seq<char>, key: Seq<char>) -> Option<Seq<char>>;

/// A tick from the numbers found under `price` and `volume`.
pub open spec fn tick_from_fields(price: Option<Seq<char>>, volume: Option<Seq<char>>) -> Result<
    Tick,
    ParseError,
> {
    match (price, volume) {
        (Some(p), Some(v)) => tick_from_texts(p, v),
        _ => Err(ParseError::MissingField),
    }
}

/// A JSON line: an object with numeric `price` and `volume`.
pub open spec fn json_tick(s: Seq<char>) -> Result<Tick, ParseError> {
    tick_from_fields(json_number_text(s, "price"@), json_number_text(s, "volume"@))
}

/// Relies on serde_json::from_str into a serde_json::Value, Value::get and
/// the Display of serde_json::Number: the text of the number under `key`,
/// which depends on `text` and `key` alone.
#[verifier::external_body]
fn json_number_field(text: &str, key: &str) -> (r: Option<String>)
    ensures
        match r {
            Some(n) => json_number_text(text@, key@) == Some(n@),
            None => json_number_text(text@, key@) is None,
        },
{
    match serde_json::from_str::<serde_json::Value>(text) {
        Ok(value) => match value.get(key) {
            Some(serde_json::Value::Number(n)) => Some(n.to_string()),
            _ => None,
        },
        Err(_) => None,
    }
}

proof fn lemma_digits_value_mono(s: Seq<char>, i: int)
    requires
        0 <= i <= s.len(),
        all_digits(s),
    ensures
        digits_value(s.subrange(0, i)) <= digits_value(s),
    decreases s.len() - i,
{
    if i < s.len() {
        lemma_digits_value_mono(s, i + 1);
        assert(s.subrange(0, i + 1).drop_last() =~= s.subrange(0, i));
        assert(is_digit(s[i]));
    } else {
        assert(s.subrange(0, i) =~= s);
    }
}

/// The value of the digits `s[from..to]`, or `None` when a character there is
/// no digit or the value does not fit a `u64`. An empty range gives zero.
fn digits_in(s: &str, from: usize, to: usize) -> (r: Option<u64>)
    requires
        from <= to <= s@.len(),
    ensures
        r == if all_digits(s@.subrange(from as int, to as int)) && digits_value(
            s@.subrange(from as int, to as int),
        ) <= u64::MAX {
            Some(digits_value(s@.subrange(from as int, to as int)) as u64)
        } else {
            None::<u64>
        },
{
    let ghost t = s@.subrange(from as int, to as int);
    let mut acc: u64 = 0;
    let mut i: usize = from;
    while i < to
        invariant
            from <= i <= to <= s@.len(),
            t == s@.subrange(from as int, to as int),
            all_digits(s@.subrange(from as int, i as int)),
            acc == digits_value(s@.subrange(from as int, i as int)),
        decreases to - i,
    {
        let c = s.get_char(i);
        let ghost next = s@.subrange(from as int, i + 1);
        assert(next.drop_last() =~= s@.subrange(from as int, i as int));
        if !('0' <= c && c <= '9') {
            assert(t[i - from] == c);
            return None;
        }
        let d = (c as u32 - 48) as u64;
        if acc > (u64::MAX - d) / 10 {
            proof {
                assert(all_digits(next));
                assert(digits_value(next) > u64::MAX);
                if all_digits(t) {
                    assert(t.subrange(0, i + 1 - from) =~= next);
                    lemma_digits_value_mono(t, i + 1 - from);
                }
            }
            return None;
        }
        acc = acc * 10 + d;
        i = i + 1;
    }
    Some(acc)
}

fn find_char(s: &str, c: char, from: usize) -> (r: Option<usize>)
    requires
        from <= s@.len(),
    ensures
        match r {
            Some(i) => is_first(s@.subrange(from as int, s@.len() as int), c, i - from) && from <= i,
            None => forall|j: int| from <= j < s@.len() ==> s@[j] != c,
        },
{
    let n = s.unicode_len();
    let mut i: usize = from;
    while i < n
        invariant
            n == s@.len(),
            from <= i <= n,
            forall|j: int| from <= j < i ==> s@[j] != c,
        decreases n - i,
    {
        if s.get_char(i) == c {
            return Some(i);
        }
        i = i + 1;
    }
    None
}

proof fn lemma_first_index(s: Seq<char>, c: char, i: int)
    requires
        is_first(s, c, i),
    ensures
        first_index(s, c) == i,
{
    let k = choose|k: int| is_first(s, c, k);
    if k < i {
        assert(s[k] != c);
    } else if k > i {
        assert(s[i] != c);
    }
}

proof fn lemma_no_index(s: Seq<char>, c: char)
    requires
        forall|j: int| 0 <= j < s.len() ==> s[j] != c,
    ensures
        first_index(s, c) == -1,
{
}

/// Position after an optional leading `+` of `s[from..to]`.
fn skip_plus(s: &str, from: usize, to: usize) -> (start: usize)
    requires
        from <= to <= s@.len(),
    ensures
        from <= start <= to,
        s@.subrange(start as int, to as int) == unsigned_part(s@.subrange(from as int, to as int)),
{
    if from < to && s.get_char(from) == '+' {
        assert(s@.subrange(from as int, to as int).subrange(1, to - from) =~= s@.subrange(
            from + 1,
            to as int,
        ));
        from + 1
    } else {
        from
    }
}

/// Exponent values at or past this bound all decide a price the same way.
pub const EXPONENT_CAP: u128 = 0x40_0000_0000_0000_0000;

/// First exponent mark in `s[from..to]`, or `to`.
fn scan_mark(s: &str, from: usize, to: usize) -> (r: usize)
    requires
        from <= to <= s@.len(),
    ensures
        from <= r <= to,
        forall|j: int| from <= j < r ==> !is_exponent_mark(#[trigger] s@[j]),
        r < to ==> is_exponent_mark(s@[r as int]),
{
    let mut i = from;
    while i < to && !(s.get_char(i) == 'e' || s.get_char(i) == 'E')
        invariant
            from <= i <= to <= s@.len(),
            forall|j: int| from <= j < i ==> !is_exponent_mark(#[trigger] s@[j]),
        decreases to - i,
    {
        i = i + 1;
    }
    i
}

/// The value of the digits `s[from..to]`, held at `EXPONENT_CAP` when it
/// is larger; `None` when a character there is no digit.
fn capped_digits(s: &str, from: usize, to: usize) -> (r: Option<u128>)
    requires
        from <= to <= s@.len(),
    ensures
        r == if all_digits(s@.subrange(from as int, to as int)) {
            Some(
                if digits_value(s@.subrange(from as int, to as int)) < EXPONENT_CAP {
                    digits_value(s@.subrange(from as int, to as int)) as u128
                } else {
                    EXPONENT_CAP
                },
            )
        } else {
            None::<u128>
        },
{
    let ghost t = s@.subrange(from as int, to as int);
    let mut acc: u128 = 0;
    let mut i: usize = from;
    while i < to
        invariant
            from <= i <= to <= s@.len(),
            t == s@.subrange(from as int, to as int),
            all_digits(s@.subrange(from as int, i as int)),
            acc == if digits_value(s@.subrange(from as int, i as int)) < EXPONENT_CAP {
                digits_value(s@.subrange(from as int, i as int)) as u128
            } else {
                EXPONENT_CAP
            },
        decreases to - i,
    {
        let c = s.get_char(i);
        let ghost next = s@.subrange(from as int, i + 1);
        assert(next.drop_last() =~= s@.subrange(from as int, i as int));
        if !('0' <= c && c <= '9') {
            assert(t[i - from] == c);
            return None;
        }
        let d = (c as u32 - 48) as u128;
        if acc < EXPONENT_CAP {
            acc = acc * 10 + d;
            if acc > EXPONENT_CAP {
                acc = EXPONENT_CAP;
            }
        }
        i = i + 1;
    }
    Some(acc)
}

proof fn lemma_scaled_prefix(g: Seq<char>, top: int, k: int)
    requires
        0 <= k <= g.len(),
        scaled_digits(g, top) is Some,
    ensures
        scaled_digits(g.subrange(0, k), top) is Some,
        scaled_digits(g.subrange(0, k), top)->Some_0 <= scaled_digits(g, top)->Some_0,
    decreases g.len(),
{
    if k == g.len() {
        assert(g.subrange(0, k) =~= g);
    } else {
        let d = g.drop_last();
        assert(d.subrange(0, k) =~= g.subrange(0, k));
        lemma_scaled_prefix(d, top, k);
    }
}

proof fn lemma_pow10_positive(n: nat)
    ensures
        pow10(n) >= 1,
    decreases n,
{
    if n > 0 {
        lemma_pow10_positive((n - 1) as nat);
    }
}

proof fn lemma_pow10_grows(a: nat, b: nat)
    requires
        a <= b,
    ensures
        pow10(a) <= pow10(b),
    decreases b,
{
    if a < b {
        lemma_pow10_grows(a, (b - 1) as nat);
        lemma_pow10_positive((b - 1) as nat);
    }
}

proof fn lemma_pow10_21()
    ensures
        pow10(21) > u64::MAX,
{
    reveal_with_fuel(pow10, 22);
}

/// `h * 10^r` when it fits a `u64`.
fn times_pow10(h: u128, r: i128) -> (out: Option<u64>)
    requires
        1 <= h <= u64::MAX,
        0 < r <= 20,
    ensures
        out == if (h as nat) * pow10(r as nat) <= u64::MAX {
            Some(((h as nat) * pow10(r as nat)) as u64)
        } else {
            None::<u64>
        },
{
    let mut v: u128 = h;
    let mut j: i128 = 0;
    assert(pow10(0) == 1);
    assert(v as nat == (h as nat) * pow10(0));
    while j < r
        invariant
            0 <= j <= r <= 20,
            1 <= h <= v <= u64::MAX,
            v as nat == (h as nat) * pow10(j as nat),
        decreases r - j,
    {
        assert(pow10((j + 1) as nat) == 10 * pow10(j as nat));
        assert((v * 10) as nat == (h as nat) * pow10((j + 1) as nat)) by (nonlinear_arith)
            requires
                v as nat == (h as nat) * pow10(j as nat),
                pow10((j + 1) as nat) == 10 * pow10(j as nat),
        ;
        if v * 10 > u64::MAX as u128 {
            proof {
                lemma_pow10_grows((j + 1) as nat, r as nat);
                assert((h as nat) * pow10(r as nat) >= (h as nat) * pow10((j + 1) as nat))
                    by (nonlinear_arith)
                    requires
                        pow10(r as nat) >= pow10((j + 1) as nat),
                ;
            }
            return None;
        }
        v = v * 10;
        j = j + 1;
    }
    Some(v as u64)
}

/// The digits `s[start..dot]` followed by `s[dot + 1..xe]` (or by nothing
/// when `dot == xe`).
spec fn digits_around(s: Seq<char>, start: int, dot: int, xe: int) -> Seq<char> {
    s.subrange(start, dot) + if dot < xe {
        s.subrange(dot + 1, xe)
    } else {
        Seq::<char>::empty()
    }
}

/// `fixed_value` of the digits around `dot`, with `top_s` standing for `top`:
/// equal to it, or both beyond the same large bound.
fn scaled_value(s: &str, start: usize, dot: usize, xe: usize, top_s: i128, Ghost(top): Ghost<int>) -> (r: Option<u64>)
    requires
        start <= dot <= xe <= s@.len(),
        -0x1000_0000_0000_0000_0000 <= top_s <= 0x1000_0000_0000_0000_0000,
        top_s == top || (top_s >= 0x20_0000_0000_0000_0000 && top >= 0x20_0000_0000_0000_0000) || (
        top_s <= -0x20_0000_0000_0000_0000 && top <= -0x20_0000_0000_0000_0000),
    ensures
        r == fixed_value(digits_around(s@, start as int, dot as int, xe as int), top),
{
    let ghost g = digits_around(s@, start as int, dot as int, xe as int);
    let wl = dot - start;
    let g_len = if dot < xe {
        xe - start - 1
    } else {
        wl
    };
    assert(g.len() == g_len);
    let mut h: u128 = 0;
    let mut i: usize = 0;
    while i < g_len
        invariant
            start <= dot <= xe <= s@.len(),
            wl == dot - start,
            g == digits_around(s@, start as int, dot as int, xe as int),
            g.len() == g_len,
            -0x1000_0000_0000_0000_0000 <= top_s <= 0x1000_0000_0000_0000_0000,
            top_s == top || (top_s >= 0x20_0000_0000_0000_0000 && top >= 0x20_0000_0000_0000_0000)
                || (top_s <= -0x20_0000_0000_0000_0000 && top <= -0x20_0000_0000_0000_0000),
            i <= g_len,
            all_digits(g.subrange(0, i as int)),
            h <= u64::MAX,
            scaled_digits(g.subrange(0, i as int), top) == Some(
                (h as nat) * pow10(if top - i + 1 > 0 { (top - i + 1) as nat } else { 0 }),
            ),
        decreases g_len - i,
    {
        let p = if i < wl {
            start + i
        } else {
            dot + 1 + (i - wl)
        };
        assert(g[i as int] == s@[p as int]);
        let c = s.get_char(p);
        let ghost next = g.subrange(0, i + 1);
        assert(next.drop_last() =~= g.subrange(0, i as int));
        if !('0' <= c && c <= '9') {
            assert(!is_digit(g[i as int]));
            return None;
        }
        let d = (c as u32 - 48) as u128;
        if top_s - (i as i128) >= 0 {
            proof {
                let e = top - i;
                let pe = pow10(e as nat);
                assert(pow10((e + 1) as nat) == 10 * pe);
                assert((h as nat) * (10 * pe) + (d as nat) * pe == ((h * 10 + d) as nat) * pe)
                    by (nonlinear_arith);
            }
            h = h * 10 + d;
            if h > u64::MAX as u128 {
                proof {
                    let pe = pow10(if top - i > 0 { (top - i) as nat } else { 0 });
                    lemma_pow10_positive(if top - i > 0 { (top - i) as nat } else { 0 });
                    assert((h as nat) * pe >= h) by (nonlinear_arith)
                        requires
                            pe >= 1,
                    ;
                    if scaled_digits(g, top) is Some {
                        lemma_scaled_prefix(g, top, i + 1);
                    }
                }
                return None;
            }
        } else if d != 0 {
            proof {
                if scaled_digits(g, top) is Some {
                    lemma_scaled_prefix(g, top, i + 1);
                }
            }
            return None;
        }
        i = i + 1;
        assert(all_digits(g.subrange(0, i as int))) by {
            assert forall|k: int| 0 <= k < i implies is_digit(#[trigger] g.subrange(0, i as int)[k]) by {
                if k < i - 1 {
                    assert(g.subrange(0, i as int)[k] == g.subrange(0, i - 1)[k]);
                }
            }
        }
    }
    assert(g.subrange(0, g_len as int) =~= g);
    if h == 0 {
        return Some(0);
    }
    let r_s: i128 = top_s - (g_len as i128) + 1;
    if r_s > 20 {
        proof {
            let rr = (top - g_len + 1) as nat;
            lemma_pow10_grows(21, rr);
            lemma_pow10_21();
            assert((h as nat) * pow10(rr) >= pow10(rr)) by (nonlinear_arith)
                requires
                    h >= 1,
            ;
        }
        return None;
    }
    if r_s <= 0 {
        assert(pow10(0) == 1);
        assert((h as nat) * pow10(0) == h) by (nonlinear_arith)
            requires
                pow10(0) == 1,
        ;
        return Some(h as u64);
    }
    times_pow10(h, r_s)
}

/// Reads a price from `s[from..to]`.
#[verifier::rlimit(100)]
fn parse_price(s: &str, from: usize, to: usize) -> (r: Option<u64>)
    requires
        from <= to <= s@.len(),
    ensures
        r == price_value(s@.subrange(from as int, to as int)),
{
    let start = skip_plus(s, from, to);
    let ghost m = s@.subrange(start as int, to as int);
    let xe = scan_mark(s, start, to);
    let ghost mantissa = s@.subrange(start as int, xe as int);
    proof {
        if xe < to {
            assert(is_first_mark(m, xe - start));
            let k = choose|k: int| is_first_mark(m, k);
            if k < xe - start {
                assert(m[k] == s@[start + k]);
            } else if k > xe - start {
                assert(m[xe - start] == s@[xe as int]);
            }
            assert(m.subrange(0, xe - start) =~= mantissa);
            assert(m.subrange(xe - start + 1, m.len() as int) =~= s@.subrange(xe + 1, to as int));
        } else {
            if exists|k: int| is_first_mark(m, k) {
                let k = choose|k: int| is_first_mark(m, k);
                assert(m[k] == s@[start + k]);
            }
            assert(mantissa =~= m);
        }
    }
    let dot = crate::fix::scan_for(s, '.', start, xe);
    proof {
        if dot < xe {
            assert(is_first(mantissa, '.', dot - start));
            lemma_first_index(mantissa, '.', dot - start);
            assert(mantissa.subrange(0, dot - start) =~= s@.subrange(start as int, dot as int));
            assert(mantissa.subrange(dot - start + 1, mantissa.len() as int) =~= s@.subrange(
                dot + 1,
                xe as int,
            ));
        } else {
            assert forall|j: int| 0 <= j < mantissa.len() implies mantissa[j] != '.' by {
                assert(mantissa[j] == s@[start + j]);
            }
            lemma_no_index(mantissa, '.');
            assert(mantissa =~= s@.subrange(start as int, dot as int));
        }
    }
    let wl = dot - start;
    if dot == xe && wl == 0 || dot < xe && wl + (xe - dot - 1) == 0 {
        return None;
    }
    let mut x: i128 = 0;
    let ghost mut xv: int = 0;
    if xe < to {
        let ghost t = s@.subrange(xe + 1, to as int);
        let mut es = xe + 1;
        let mut negative = false;
        if es < to && s.get_char(es) == '-' {
            negative = true;
            es = es + 1;
        } else if es < to && s.get_char(es) == '+' {
            es = es + 1;
        }
        let ghost digits = s@.subrange(es as int, to as int);
        proof {
            if t.len() > 0 && (t[0] == '-' || t[0] == '+') {
                assert(t.subrange(1, t.len() as int) =~= digits);
            } else {
                assert(t =~= digits);
            }
        }
        if es == to {
            return None;
        }
        let mag = match capped_digits(s, es, to) {
            Some(v) => v,
            None => {
                return None;
            },
        };
        x = if negative {
            -(mag as i128)
        } else {
            mag as i128
        };
        proof {
            xv = if negative {
                -(digits_value(digits) as int)
            } else {
                digits_value(digits) as int
            };
            assert(exponent_value(t) == Some(xv));
        }
    }
    let top_s: i128 = wl as i128 + 3 + x;
    scaled_value(s, start, dot, xe, top_s, Ghost(wl + 3 + xv))
}

/// Reads a volume from `s[from..to]`.
fn parse_volume(s: &str, from: usize, to: usize) -> (r: Option<u64>)
    requires
        from <= to <= s@.len(),
    ensures
        r == volume_value(s@.subrange(from as int, to as int)),
{
    let start = skip_plus(s, from, to);
    if start == to {
        return None;
    }
    digits_in(s, start, to)
}

/// A tick from the texts of its price and volume.
pub fn tick_from_number_texts(price: &str, volume: &str) -> (r: Result<Tick, ParseError>)
    ensures
        r == tick_from_texts(price@, volume@),
{
    let pn = price.unicode_len();
    let vn = volume.unicode_len();
    let p = parse_price(price, 0, pn);
    let v = parse_volume(volume, 0, vn);
    proof {
        assert(price@.subrange(0, pn as int) =~= price@);
        assert(volume@.subrange(0, vn as int) =~= volume@);
    }
    match (p, v) {
        (Some(p), Some(v)) => Ok(Tick { price: p, volume: v }),
        _ => Err(ParseError::InvalidNumber),
    }
}

/// A tick from the number texts found under `price` and `volume` in a JSON
/// object; `MissingField` when either is absent.
pub fn tick_from_json_fields(price: Option<String>, volume: Option<String>) -> (r: Result<
    Tick,
    ParseError,
>)
    ensures
        r == tick_from_fields(
            match price {
                Some(p) => Some(p@),
                None => None,
            },
            match volume {
                Some(v) => Some(v@),
                None => None,
            },
        ),
{
    match (price, volume) {
        (Some(p), Some(v)) => tick_from_number_texts(p.as_str(), v.as_str()),
        _ => Err(ParseError::MissingField),
    }
}

pub struct MarketDataParser {
    format: MarketDataFormat,
}

impl MarketDataParser {
    pub closed spec fn spec_format(&self) -> MarketDataFormat {
        self.format
    }

    pub fn new(format: MarketDataFormat) -> (r: Self)
        ensures
            r.spec_format() == format,
    {
        MarketDataParser { format }
    }

    /// Reads one market data line in the parser's format.
    pub fn parse(&self, data: &str) -> (r: Result<Tick, ParseError>)
        ensures
            self.spec_format() == MarketDataFormat::CSV ==> r == csv_tick(data@),
            self.spec_format() == MarketDataFormat::JSON ==> r == json_tick(data@),
    {
        match self.format {
            MarketDataFormat::CSV => Self::parse_csv(data),
            MarketDataFormat::JSON => Self::parse_json(data),
        }
    }

    fn parse_csv(data: &str) -> (r: Result<Tick, ParseError>)
        ensures
            r == csv_tick(data@),
    {
        let n = data.unicode_len();
        let comma = match find_char(data, ',', 0) {
            None => {
                proof {
                    lemma_no_index(data@, ',');
                }
                return Err(ParseError::FieldCount);
            },
            Some(c) => c,
        };
        proof {
            assert(data@.subrange(0, n as int) =~= data@);
            lemma_first_index(data@, ',', comma as int);
        }
        let ghost rest = data@.subrange(comma + 1, n as int);
        match find_char(data, ',', comma + 1) {
            Some(second) => {
                proof {
                    assert(rest[second - comma - 1] == ',');
                    assert(is_first(rest, ',', second - comma - 1));
                    lemma_first_index(rest, ',', second - comma - 1);
                }
                return Err(ParseError::FieldCount);
            },
            None => {
                proof {
                    assert forall|j: int| 0 <= j < rest.len() implies rest[j] != ',' by {
                        assert(rest[j] == data@[comma + 1 + j]);
                    }
                    lemma_no_index(rest, ',');
                }
            },
        }
        let p = parse_price(data, 0, comma);
        let v = parse_volume(data, comma + 1, n);
        match (p, v) {
            (Some(p), Some(v)) => Ok(Tick { price: p, volume: v }),
            _ => Err(ParseError::InvalidNumber),
        }
    }

    fn parse_json(data: &str) -> (r: Result<Tick, ParseError>)
        ensures
            r == json_tick(data@),
    {
        let price = json_number_field(data, "price");
        let volume = json_number_field(data, "volume");
        proof {
            reveal_strlit("price");
            reveal_strlit("volume");
        }
        tick_from_json_fields(price, volume)
    }
}

} // verus!
