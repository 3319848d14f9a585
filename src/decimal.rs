//! Decimal number text to fixed-point integers.
//!
//! Numbers arrive as JSON number text (`-12`, `0.5`, `1.25e-6`). The
//! dashboard keeps them as integers counting a fixed fraction of a unit
//! (millionths for times, 10^-12 for metric values), truncated toward zero
//! and held within a bound: a larger magnitude is kept at the bound.
use vstd::prelude::*;

verus! {

/// Largest bound a parse may be asked to hold a magnitude within.
pub const MAX_LIMIT: u128 = 1_000_000_000_000_000_000_000_000_000_000_000_000;

/// Decimal places kept of elapsed times: microseconds.
pub const ELAPSED_PLACES: u64 = 6;

/// Bound on an elapsed time's magnitude, so that it fits an `i64`.
pub const ELAPSED_LIMIT: u128 = 9_223_372_036_854_775_807;

/// Decimal places kept of metric values.
pub const VALUE_PLACES: u64 = 12;

/// Bound on a metric value's magnitude: 10^24 units.
pub const VALUE_LIMIT: u128 = 1_000_000_000_000_000_000_000_000_000_000_000_000;

/// Most mantissa digits (integer and fraction parts together) accepted.
pub const MAX_MANTISSA_DIGITS: usize = 36;

/// Most exponent digits accepted.
pub const MAX_EXPONENT_DIGITS: usize = 4;

pub open spec fn is_digit(c: char) -> bool {
    '0' <= c && c <= '9'
}

pub open spec fn digit_of(c: char) -> nat {
    (c as int - '0' as int) as nat
}

/// The value of a run of decimal digits.
pub open spec fn digits_value(s: Seq<char>) -> nat
    decreases s.len(),
{
    if s.len() == 0 {
        0
    } else {
        digits_value(s.drop_last()) * 10 + digit_of(s.last())
    }
}

pub open spec fn pow10(n: nat) -> nat
    decreases n,
{
    if n == 0 {
        1
    } else {
        10 * pow10((n - 1) as nat)
    }
}

/// First index at or after `i` that does not hold a digit.
pub open spec fn digits_end(s: Seq<char>, i: int) -> int
    decreases s.len() - i,
{
    if 0 <= i < s.len() && is_digit(s[i]) {
        digits_end(s, i + 1)
    } else {
        i
    }
}

/// `n * 10^k` for an integer `k`, rounded down when `k` is negative.
pub open spec fn scale10(n: nat, k: int) -> nat {
    if k >= 0 {
        n * pow10(k as nat)
    } else {
        n / pow10((-k) as nat)
    }
}

/// Where the parts of a number text lie: the sign's width, the integer
/// digits `[a, b)`, the fraction digits `[c, d)` and the exponent digits
/// `[e, f)`, with the exponent's sign.
pub struct NumberLayout {
    pub a: int,
    pub b: int,
    pub c: int,
    pub d: int,
    pub e: int,
    pub f: int,
    pub exp_negative: bool,
}

pub open spec fn has_exp_marker(s: Seq<char>, d: int) -> bool {
    d < s.len() && (s[d] == 'e' || s[d] == 'E')
}

pub open spec fn layout_of(s: Seq<char>) -> NumberLayout {
    let a: int = if s.len() > 0 && s[0] == '-' { 1 } else { 0 };
    let b = digits_end(s, a);
    let dot = b < s.len() && s[b] == '.';
    let c = if dot { b + 1 } else { b };
    let d = if dot { digits_end(s, c) } else { b };
    let signed = has_exp_marker(s, d) && d + 1 < s.len() && (s[d + 1] == '-' || s[d + 1] == '+');
    let e = if has_exp_marker(s, d) { if signed { d + 2 } else { d + 1 } } else { d };
    let f = if has_exp_marker(s, d) { digits_end(s, e) } else { d };
    NumberLayout { a, b, c, d, e, f, exp_negative: signed && s[d + 1] == '-' }
}

/// The text is `-?D+(.D+)?([eE][+-]?D+)?` and nothing more.
pub open spec fn well_formed(s: Seq<char>) -> bool {
    let l = layout_of(s);
    &&& l.b > l.a
    &&& (l.c > l.b ==> l.d > l.c)
    &&& (has_exp_marker(s, l.d) ==> l.f > l.e)
    &&& l.f == s.len()
}

pub open spec fn mantissa_of(s: Seq<char>) -> Seq<char> {
    let l = layout_of(s);
    s.subrange(l.a, l.b) + s.subrange(l.c, l.d)
}

pub open spec fn exponent_of(s: Seq<char>) -> int {
    let l = layout_of(s);
    let m = digits_value(s.subrange(l.e, l.f)) as int;
    if l.exp_negative { -m } else { m }
}

/// The magnitude of the number in units of `10^-places`, truncated toward zero.
pub open spec fn magnitude_at(s: Seq<char>, places: nat) -> nat {
    let l = layout_of(s);
    scale10(digits_value(mantissa_of(s)), places + exponent_of(s) - (l.d - l.c))
}

/// What the parses accept: a well-formed text within the digit limits.
/// Number text written by a JSON library (at most twenty significant
/// digits, at most three exponent digits) always stays within them.
pub open spec fn parses(s: Seq<char>) -> bool {
    let l = layout_of(s);
    &&& well_formed(s)
    &&& mantissa_of(s).len() <= MAX_MANTISSA_DIGITS
    &&& l.f - l.e <= MAX_EXPONENT_DIGITS
}

/// The signed value in units of `10^-places`, its magnitude held at `limit`.
pub open spec fn value_at(s: Seq<char>, places: nat, limit: nat) -> int {
    let m = if magnitude_at(s, places) > limit { limit } else { magnitude_at(s, places) };
    if layout_of(s).a == 1 { -(m as int) } else { m as int }
}

pub open spec fn micros_of(s: Seq<char>) -> int {
    value_at(s, ELAPSED_PLACES as nat, ELAPSED_LIMIT as nat)
}

pub open spec fn metric_of(s: Seq<char>) -> int {
    value_at(s, VALUE_PLACES as nat, VALUE_LIMIT as nat)
}

proof fn lemma_digits_end_bounds(s: Seq<char>, i: int)
    requires
        0 <= i <= s.len(),
    ensures
        i <= digits_end(s, i) <= s.len(),
        forall|j: int| i <= j < digits_end(s, i) ==> is_digit(#[trigger] s[j]),
        digits_end(s, i) < s.len() ==> !is_digit(s[digits_end(s, i)]),
    decreases s.len() - i,
{
    if i < s.len() && is_digit(s[i]) {
        lemma_digits_end_bounds(s, i + 1);
    }
}

fn scan_digits(s: &Vec<char>, i: usize) -> (r: usize)
    requires
        i <= s@.len(),
    ensures
        r as int == digits_end(s@, i as int),
{
    let mut j = i;
    while j < s.len() && '0' <= s[j] && s[j] <= '9'
        invariant
            i <= j <= s@.len(),
            digits_end(s@, j as int) == digits_end(s@, i as int),
        decreases s@.len() - j,
    {
        j = j + 1;
    }
    j
}

proof fn lemma_digits_value_bound(s: Seq<char>)
    requires
        forall|j: int| 0 <= j < s.len() ==> is_digit(#[trigger] s[j]),
    ensures
        digits_value(s) < pow10(s.len()),
    decreases s.len(),
{
    if s.len() > 0 {
        let t = s.drop_last();
        assert forall|j: int| 0 <= j < t.len() implies is_digit(#[trigger] t[j]) by {
            assert(t[j] == s[j]);
        }
        lemma_digits_value_bound(t);
        assert(is_digit(s[s.len() - 1]));
    }
}

/// Accumulates the digits of `s[from..to]` onto `acc`.
fn accumulate(s: &Vec<char>, from: usize, to: usize, acc: u128, Ghost(prefix): Ghost<Seq<char>>) -> (r: u128)
    requires
        from <= to <= s@.len(),
        forall|j: int| from <= j < to ==> is_digit(#[trigger] s@[j]),
        forall|j: int| 0 <= j < prefix.len() ==> is_digit(#[trigger] prefix[j]),
        acc == digits_value(prefix),
        prefix.len() + (to - from) <= MAX_MANTISSA_DIGITS,
    ensures
        r == digits_value(prefix + s@.subrange(from as int, to as int)),
{
    let mut k = from;
    let mut v = acc;
    while k < to
        invariant
            from <= k <= to <= s@.len(),
            forall|j: int| from <= j < to ==> is_digit(#[trigger] s@[j]),
            forall|j: int| 0 <= j < prefix.len() ==> is_digit(#[trigger] prefix[j]),
            prefix.len() + (to - from) <= MAX_MANTISSA_DIGITS,
            v == digits_value(prefix + s@.subrange(from as int, k as int)),
        decreases to - k,
    {
        let ghost cur = prefix + s@.subrange(from as int, k as int);
        let ghost next = prefix + s@.subrange(from as int, k + 1);
        proof {
            assert(next.drop_last() =~= cur);
            assert(next.last() == s@[k as int]);
            assert forall|j: int| 0 <= j < cur.len() implies is_digit(#[trigger] cur[j]) by {
                if j >= prefix.len() {
                    assert(cur[j] == s@[from + j - prefix.len()]);
                }
            }
            lemma_digits_value_bound(cur);
            lemma_pow10_le(cur.len(), 35);
            lemma_pow10_35();
        }
        let d = (s[k] as u32 - '0' as u32) as u128;
        v = v * 10 + d;
        k = k + 1;
    }
    v
}

proof fn lemma_pow10_pos(n: nat)
    ensures
        pow10(n) >= 1,
    decreases n,
{
    if n > 0 {
        lemma_pow10_pos((n - 1) as nat);
    }
}

proof fn lemma_pow10_le(m: nat, n: nat)
    requires
        m <= n,
    ensures
        pow10(m) <= pow10(n),
    decreases n,
{
    lemma_pow10_pos(n);
    if m < n {
        lemma_pow10_le(m, (n - 1) as nat);
    }
}

proof fn lemma_pow10_35()
    ensures
        pow10(35) == 100_000_000_000_000_000_000_000_000_000_000_000,
{
    reveal_with_fuel(pow10, 36);
}

/// Multiplies `n` by ten `k` times, giving up once the product passes `limit`.
fn scale_up(n: u128, k: u64, limit: u128) -> (r: Option<u128>)
    requires
        n <= MAX_LIMIT,
        limit <= MAX_LIMIT,
    ensures
        match r {
            Some(v) => v == scale10(n as nat, k as int) && v <= limit,
            None => scale10(n as nat, k as int) > limit,
        },
{
    if n == 0 {
        assert(scale10(0, k as int) == 0) by {
            assert(0 * pow10(k as nat) == 0);
        }
        return Some(0);
    }
    let mut v = n;
    let mut i: u64 = 0;
    assert(pow10(0) == 1);
    while i < k
        invariant
            0 < n <= MAX_LIMIT,
            limit <= MAX_LIMIT,
            i <= k,
            v == n * pow10(i as nat),
            v <= MAX_LIMIT * 10,
        decreases k - i,
    {
        if v > limit {
            proof {
                lemma_pow10_le(i as nat, k as nat);
                assert(n * pow10(i as nat) <= n * pow10(k as nat)) by (nonlinear_arith)
                    requires pow10(i as nat) <= pow10(k as nat), n > 0;
            }
            return None;
        }
        proof {
            assert(pow10((i + 1) as nat) == 10 * pow10(i as nat));
            assert(n * (10 * pow10(i as nat)) == 10 * (n * pow10(i as nat))) by (nonlinear_arith);
        }
        v = v * 10;
        i = i + 1;
    }
    if v > limit {
        None
    } else {
        Some(v)
    }
}

/// Divides `n` by ten `k` times, rounding down.
fn scale_down(n: u128, k: u64) -> (r: u128)
    ensures
        r == scale10(n as nat, -(k as int)),
        r <= n,
{
    let mut v = n;
    let mut i: u64 = 0;
    assert(pow10(0) == 1);
    while i < k
        invariant
            i <= k,
            v == n as nat / pow10(i as nat),
            v <= n,
        decreases k - i,
    {
        proof {
            lemma_pow10_pos(i as nat);
            vstd::arithmetic::div_mod::lemma_div_denominator(n as int, pow10(i as nat) as int, 10);
            assert(pow10((i + 1) as nat) == pow10(i as nat) * 10);
        }
        v = v / 10;
        i = i + 1;
    }
    if k == 0 {
        assert(n * pow10(0) == n);
    }
    v
}

/// Finds the parts of a number text.
fn locate(s: &Vec<char>) -> (r: (usize, usize, usize, usize, usize, usize, bool))
    ensures
        r.0 == layout_of(s@).a,
        r.1 == layout_of(s@).b,
        r.2 == layout_of(s@).c,
        r.3 == layout_of(s@).d,
        r.4 == layout_of(s@).e,
        r.5 == layout_of(s@).f,
        r.6 == layout_of(s@).exp_negative,
        r.0 <= r.1 <= r.2 <= s@.len(),
        r.2 <= r.3 <= s@.len(),
        r.4 <= r.5 <= s@.len(),
        forall|j: int| r.0 <= j < r.1 ==> is_digit(#[trigger] s@[j]),
        forall|j: int| r.2 <= j < r.3 ==> is_digit(#[trigger] s@[j]),
        forall|j: int| r.4 <= j < r.5 ==> is_digit(#[trigger] s@[j]),
        has_exp_marker(s@, r.3 as int) || (r.4 == r.3 && r.5 == r.3),
{
    let ghost t = s@;
    let n = s.len();
    let a: usize = if n > 0 && s[0] == '-' { 1 } else { 0 };
    let b = scan_digits(s, a);
    proof { lemma_digits_end_bounds(t, a as int); }
    let dot = b < n && s[b] == '.';
    let c = if dot { b + 1 } else { b };
    let d = if dot { scan_digits(s, c) } else { b };
    proof { lemma_digits_end_bounds(t, c as int); }
    let marker = d < n && (s[d] == 'e' || s[d] == 'E');
    let signed = marker && d + 1 < n && (s[d + 1] == '-' || s[d + 1] == '+');
    let e = if marker { if signed { d + 2 } else { d + 1 } } else { d };
    let f = if marker { scan_digits(s, e) } else { d };
    proof { if marker { lemma_digits_end_bounds(t, e as int); } }
    let exp_negative = signed && s[d + 1] == '-';
    (a, b, c, d, e, f, exp_negative)
}

/// Parses JSON number text into units of `10^-places`, truncated toward
/// zero, with a magnitude above `limit` held at `limit`.
///
/// Returns `None` for text that is not a plain decimal number, or that has
/// more than `MAX_MANTISSA_DIGITS` mantissa digits or `MAX_EXPONENT_DIGITS`
/// exponent digits.
#[verifier::rlimit(50)]
pub fn parse_fixed(s: &Vec<char>, places: u64, limit: u128) -> (r: Option<i128>)
    requires
        places <= 18,
        limit <= MAX_LIMIT,
    ensures
        r.is_some() == parses(s@),
        r.is_some() ==> r.unwrap() as int == value_at(s@, places as nat, limit as nat),
{
    let ghost t = s@;
    let n = s.len();
    let (a, b, c, d, e, f, exp_negative) = locate(s);
    let dot = c > b;
    let marker = d < n && (s[d] == 'e' || s[d] == 'E');
    if b == a || (dot && d == c) || (marker && f == e) || f != n {
        return None;
    }
    if (b - a) + (d - c) > MAX_MANTISSA_DIGITS || f - e > MAX_EXPONENT_DIGITS {
        assert(mantissa_of(t).len() == (b - a) + (d - c));
        return None;
    }
    let ghost ip = t.subrange(a as int, b as int);
    let ghost mt = mantissa_of(t);
    let int_part = accumulate(s, a, b, 0, Ghost(Seq::empty()));
    assert(Seq::<char>::empty() + ip =~= ip);
    assert forall|j: int| 0 <= j < ip.len() implies is_digit(#[trigger] ip[j]) by {
        assert(ip[j] == t[a + j]);
    }
    let mant = accumulate(s, c, d, int_part, Ghost(ip));
    assert(mt =~= ip + t.subrange(c as int, d as int));
    let ghost ep = t.subrange(e as int, f as int);
    let ev = accumulate(s, e, f, 0, Ghost(Seq::empty()));
    assert(Seq::<char>::empty() + ep =~= ep);
    proof {
        assert forall|j: int| 0 <= j < ep.len() implies is_digit(#[trigger] ep[j]) by {
            assert(ep[j] == t[e + j]);
        }
        lemma_digits_value_bound(ep);
        lemma_pow10_le(ep.len(), 4);
        reveal_with_fuel(pow10, 5);
        assert forall|j: int| 0 <= j < mt.len() implies is_digit(#[trigger] mt[j]) by {
            if j < ip.len() {
                assert(mt[j] == t[a + j]);
            } else {
                assert(mt[j] == t[c + j - ip.len()]);
            }
        }
        lemma_digits_value_bound(mt);
        lemma_pow10_le(mt.len(), 36);
        lemma_pow10_35();
        assert(pow10(36) == 10 * pow10(35));
    }
    let frac_len = (d - c) as i64;
    let exp: i64 = if exp_negative { -(ev as i64) } else { ev as i64 };
    let k: i64 = places as i64 + exp - frac_len;
    assert(k == places + exponent_of(t) - (d - c));
    let mag: u128;
    if k >= 0 {
        match scale_up(mant, k as u64, limit) {
            Some(v) => { mag = v; }
            None => { mag = limit; }
        }
    } else {
        let m = scale_down(mant, (-k) as u64);
        mag = if m > limit { limit } else { m };
    }
    assert(mag == (if magnitude_at(t, places as nat) > limit { limit as nat } else { magnitude_at(t, places as nat) }));
    if a == 1 {
        Some(-(mag as i128))
    } else {
        Some(mag as i128)
    }
}

/// Parses an elapsed time in seconds into microseconds.
pub fn parse_micros(s: &Vec<char>) -> (r: Option<i64>)
    ensures
        r.is_some() == parses(s@),
        r.is_some() ==> r.unwrap() as int == micros_of(s@),
{
    match parse_fixed(s, ELAPSED_PLACES, ELAPSED_LIMIT) {
        Some(v) => Some(v as i64),
        None => None,
    }
}

/// Parses a metric value into units of `10^-VALUE_PLACES`.
pub fn parse_value(s: &Vec<char>) -> (r: Option<i128>)
    ensures
        r.is_some() == parses(s@),
        r.is_some() ==> r.unwrap() as int == metric_of(s@),
        r.is_some() ==> -(VALUE_LIMIT as int) <= r.unwrap() <= VALUE_LIMIT,
{
    parse_fixed(s, VALUE_PLACES, VALUE_LIMIT)
}

pub open spec fn all_digits(s: Seq<char>) -> bool {
    forall|j: int| 0 <= j < s.len() ==> is_digit(#[trigger] s[j])
}

/// A count written as at most twenty plain digits that fits in a `u64`.
pub open spec fn u64_text(s: Seq<char>) -> Option<u64> {
    if 0 < s.len() <= 20 && all_digits(s) && digits_value(s) <= u64::MAX {
        Some(digits_value(s) as u64)
    } else {
        None
    }
}

/// Parses an unsigned count.
pub fn parse_u64(s: &Vec<char>) -> (r: Option<u64>)
    ensures
        r == u64_text(s@),
{
    let n = s.len();
    if n == 0 || n > 20 {
        return None;
    }
    let end = scan_digits(s, 0);
    proof { lemma_digits_end_bounds(s@, 0); }
    if end != n {
        return None;
    }
    let v = accumulate(s, 0, n, 0, Ghost(Seq::empty()));
    assert(Seq::<char>::empty() + s@.subrange(0, n as int) =~= s@);
    if v > u64::MAX as u128 {
        None
    } else {
        Some(v as u64)
    }
}

} // verus!
