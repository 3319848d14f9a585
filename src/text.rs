//! Decimal text for counts, durations and fixed-point values.
use vstd::prelude::*;
use vstd::string::*;

verus! {

pub open spec fn digit_char(d: nat) -> char {
    seq!['0', '1', '2', '3', '4', '5', '6', '7', '8', '9'][d as int]
}

/// The decimal digits of `n`, without leading zeros.
pub open spec fn dec(n: nat) -> Seq<char>
    decreases n,
{
    if n < 10 {
        seq![digit_char(n)]
    } else {
        dec(n / 10).push(digit_char(n % 10))
    }
}

/// `n` in at least `w` digits, padded with zeros on the left.
pub open spec fn padded(n: nat, w: nat) -> Seq<char> {
    let d = dec(n);
    if d.len() < w { Seq::new((w - d.len()) as nat, |i: int| '0') + d } else { d }
}

/// Whole seconds as `HH:MM:SS`, or `MM:SS` under an hour.
pub open spec fn duration_text(secs: nat) -> Seq<char> {
    let h = secs / 3600;
    let m = (secs % 3600) / 60;
    let s = secs % 60;
    if h > 0 {
        padded(h, 2) + seq![':'] + padded(m, 2) + seq![':'] + padded(s, 2)
    } else {
        padded(m, 2) + seq![':'] + padded(s, 2)
    }
}

/// `value / 10^places` rounded half away from zero, written with exactly
/// `places` decimals and a leading `-` for negative values.
pub open spec fn fixed_text(negative: bool, units: nat, places: nat, scale: nat) -> Seq<char>
    recommends scale > 0,
{
    let q = (units + scale / 2) / scale;
    (if negative { seq!['-'] } else { Seq::empty() })
        + dec(q / crate::decimal::pow10(places))
        + seq!['.']
        + padded(q % crate::decimal::pow10(places), places)
}

proof fn lemma_dec_len(n: nat)
    ensures
        dec(n).len() >= 1,
        n < 10 ==> dec(n).len() == 1,
        n >= 10 ==> dec(n).len() >= 2,
        10 <= n < 100 ==> dec(n).len() == 2,
        100 <= n < 1000 ==> dec(n).len() == 3,
        1000 <= n < 10000 ==> dec(n).len() == 4,
        n >= 10000 ==> dec(n).len() >= 5,
    decreases n,
{
    if n >= 10 {
        lemma_dec_len(n / 10);
    }
}

/// Appends the decimal digits of `n`.
pub fn push_decimal(out: &mut String, n: u128)
    ensures
        final(out)@ == old(out)@ + dec(n as nat),
    decreases n,
{
    if n >= 10 {
        push_decimal(out, n / 10);
    }
    let d = (n % 10) as usize;
    let digits = "0123456789";
    proof { reveal_strlit("0123456789"); }
    let one = digits.substring_char(d, d + 1);
    assert(one@ =~= seq![digit_char(d as nat)]);
    out.append(one);
    assert(final(out)@ =~= old(out)@ + dec(n as nat));
}

/// Appends `n` padded with zeros to at least `w` digits.
pub fn push_padded(out: &mut String, n: u64, w: usize)
    requires
        w <= 4,
    ensures
        final(out)@ == old(out)@ + padded(n as nat, w as nat),
{
    proof { lemma_dec_len(n as nat); reveal_strlit("0"); }
    let len: usize = if n < 10 { 1 } else if n < 100 { 2 } else if n < 1000 { 3 } else { 4 };
    let ghost start = out@;
    let pad: usize = if len < w { w - len } else { 0 };
    let mut k: usize = 0;
    assert(out@ =~= start + Seq::new(0, |i: int| '0'));
    while k < pad
        invariant
            k <= pad,
            out@ == start + Seq::new(k as nat, |i: int| '0'),
        decreases pad - k,
    {
        proof { reveal_strlit("0"); }
        out.append("0");
        k = k + 1;
        assert(out@ =~= start + Seq::new(k as nat, |i: int| '0'));
    }
    let ghost zeros = out@;
    push_decimal(out, n as u128);
    proof {
        if dec(n as nat).len() < w {
            assert(dec(n as nat).len() == len);
            assert(out@ =~= start + padded(n as nat, w as nat));
        } else {
            assert(pad == 0);
            assert(out@ =~= start + padded(n as nat, w as nat));
        }
    }
}

/// Formats whole seconds as `HH:MM:SS`, or `MM:SS` under an hour.
pub fn format_duration(secs: u64) -> (r: String)
    ensures
        r@ == duration_text(secs as nat),
{
    proof { reveal_strlit(":"); }
    let h = secs / 3600;
    let m = (secs % 3600) / 60;
    let s = secs % 60;
    let mut out = String::new();
    if h > 0 {
        push_padded(&mut out, h, 2);
        out.append(":");
    }
    push_padded(&mut out, m, 2);
    out.append(":");
    push_padded(&mut out, s, 2);
    assert(out@ =~= duration_text(secs as nat));
    out
}

/// Writes `units / scale` rounded half away from zero with `places`
/// decimals, `-` first when `negative`.
pub fn format_fixed(negative: bool, units: u128, places: usize, scale: u128) -> (r: String)
    requires
        1 <= places <= 4,
        scale > 0,
        units as int + scale as int / 2 <= u128::MAX,
    ensures
        r@ == fixed_text(negative, units as nat, places as nat, scale as nat),
{
    proof { reveal_strlit("-"); reveal_strlit("."); reveal_with_fuel(crate::decimal::pow10, 5); }
    let q = (units + scale / 2) / scale;
    let p: u128 = if places == 1 { 10 } else if places == 2 { 100 } else if places == 3 { 1000 } else { 10000 };
    assert(p == crate::decimal::pow10(places as nat));
    let mut out = String::new();
    if negative {
        out.append("-");
    }
    push_decimal(&mut out, q / p);
    out.append(".");
    push_padded(&mut out, (q % p) as u64, places);
    assert(out@ =~= fixed_text(negative, units as nat, places as nat, scale as nat));
    out
}

} // verus!
