//! What a frame shows, derived from a session snapshot. Nothing here keeps
//! state: the same snapshot and viewport give the same result.
use std::collections::VecDeque;
use vstd::prelude::*;
use vstd::string::*;
use crate::json::{lower_of, lowercase};
use crate::session::{Rate, Session};
use crate::text::{duration_text, fixed_text, format_duration, format_fixed};

verus! {

/// Number of sparkline glyph levels.
pub const LEVELS: u8 = 8;

/// Direction of a metric's last move.
#[derive(Clone, Copy, PartialEq, Eq, Debug)]
pub enum Trend {
    Down,
    Up,
    Flat,
    Unknown,
}

pub open spec fn trend_spec(vals: Seq<i128>) -> Trend {
    if vals.len() < 2 {
        Trend::Unknown
    } else if vals.last() < vals[vals.len() - 2] {
        Trend::Down
    } else if vals.last() > vals[vals.len() - 2] {
        Trend::Up
    } else {
        Trend::Flat
    }
}

/// Compares the newest sample of a history with the one before it.
pub fn trend_of(vals: &VecDeque<i128>) -> (r: Trend)
    ensures
        r == trend_spec(vals@),
{
    let n = vals.len();
    if n < 2 {
        Trend::Unknown
    } else if vals[n - 1] < vals[n - 2] {
        Trend::Down
    } else if vals[n - 1] > vals[n - 2] {
        Trend::Up
    } else {
        Trend::Flat
    }
}

/// The trend of the history named `name`, or `Unknown` when there is none.
pub open spec fn named_trend(s: Session, name: Seq<char>) -> Trend {
    let hs = crate::session::histories_view(s.histories@);
    let k = crate::session::index_of(hs, name, 0);
    if k >= 0 { trend_spec(hs[k].1) } else { Trend::Unknown }
}

/// The accent a device name calls for.
#[derive(Clone, Copy, PartialEq, Eq, Debug)]
pub enum Accent {
    Apple,
    Nvidia,
    Other,
}

pub open spec fn contains(s: Seq<char>, p: Seq<char>) -> bool {
    exists|i: int| 0 <= i && i + p.len() <= s.len() && #[trigger] s.subrange(i, i + p.len()) == p
}

pub open spec fn accent_spec(d: Seq<char>) -> Accent {
    if contains(d, "mps"@) || contains(d, "apple"@) {
        Accent::Apple
    } else if contains(d, "cuda"@) || contains(d, "nvidia"@) {
        Accent::Nvidia
    } else {
        Accent::Other
    }
}

fn matches_at(s: &str, p: &str, i: usize) -> (r: bool)
    requires
        i + p@.len() <= s@.len(),
    ensures
        r == (s@.subrange(i as int, i + p@.len()) == p@),
{
    let ls = s.unicode_len();
    let lp = p.unicode_len();
    let mut k: usize = 0;
    while k < lp
        invariant
            ls == s@.len(),
            lp == p@.len(),
            i + lp <= s@.len(),
            0 <= k <= lp,
            forall|j: int| 0 <= j < k ==> s@[i + j] == p@[j],
        decreases lp - k,
    {
        if s.get_char(i + k) != p.get_char(k) {
            assert(s@.subrange(i as int, i + p@.len())[k as int] != p@[k as int]);
            return false;
        }
        k = k + 1;
    }
    assert(s@.subrange(i as int, i + p@.len()) =~= p@);
    true
}

/// Whether `p` occurs in `s`.
pub fn contains_text(s: &str, p: &str) -> (r: bool)
    ensures
        r == contains(s@, p@),
{
    let ls = s.unicode_len();
    let lp = p.unicode_len();
    if lp > ls {
        return false;
    }
    if lp == 0 {
        assert(s@.subrange(0, 0 + p@.len() as int) =~= p@);
        return true;
    }
    let mut i: usize = 0;
    while i <= ls - lp
        invariant
            ls == s@.len(),
            lp == p@.len(),
            0 < lp <= ls,
            forall|j: int| 0 <= j < i ==> #[trigger] s@.subrange(j, j + p@.len()) != p@,
        decreases ls - lp + 1 - i,
    {
        if matches_at(s, p, i) {
            assert(s@.subrange(i as int, i + p@.len()) == p@);
            return true;
        }
        i = i + 1;
    }
    false
}

/// Picks the accent for a device name that is already lower-cased.
pub fn accent_for_lowered(d: &str) -> (r: Accent)
    ensures
        r == accent_spec(d@),
{
    if contains_text(d, "mps") || contains_text(d, "apple") {
        Accent::Apple
    } else if contains_text(d, "cuda") || contains_text(d, "nvidia") {
        Accent::Nvidia
    } else {
        Accent::Other
    }
}

/// Picks the accent for a device name, ignoring case.
pub fn accent_color(device: &str) -> (r: Accent)
    ensures
        r == accent_spec(lower_of(device@)),
{
    let d = lowercase(device);
    accent_for_lowered(d.as_str())
}

/// The samples a row of `width` cells shows: the newest ones.
pub open spec fn window(vals: Seq<i128>, width: nat) -> Seq<i128> {
    if vals.len() > width { vals.subrange(vals.len() - width, vals.len() as int) } else { vals }
}

pub open spec fn seq_min(s: Seq<i128>) -> int
    decreases s.len(),
{
    if s.len() <= 1 {
        if s.len() == 1 { s[0] as int } else { 0 }
    } else {
        let m = seq_min(s.drop_last());
        if (s.last() as int) < m { s.last() as int } else { m }
    }
}

pub open spec fn seq_max(s: Seq<i128>) -> int
    decreases s.len(),
{
    if s.len() <= 1 {
        if s.len() == 1 { s[0] as int } else { 0 }
    } else {
        let m = seq_max(s.drop_last());
        if (s.last() as int) > m { s.last() as int } else { m }
    }
}

/// The glyph level of `v` between `lo` and `hi`: `7 * (v - lo) / (hi - lo)`
/// rounded to the nearest level, halves up; 0 when the range is flat.
pub open spec fn level(v: int, lo: int, hi: int) -> int {
    if hi <= lo { 0 } else { ((v - lo) * 14 + (hi - lo)) / (2 * (hi - lo)) }
}

/// The levels a sparkline of `width` cells shows, scaled to the visible
/// window's own minimum and maximum.
pub open spec fn sparkline_spec(vals: Seq<i128>, width: nat) -> Seq<int> {
    let w = window(vals, width);
    w.map_values(|v: i128| level(v as int, seq_min(w), seq_max(w)))
}

proof fn lemma_min_max(s: Seq<i128>)
    requires
        s.len() >= 1,
        crate::session::values_within(s),
    ensures
        forall|i: int| 0 <= i < s.len() ==> seq_min(s) <= #[trigger] s[i] <= seq_max(s),
        -(crate::decimal::VALUE_LIMIT as int) <= seq_min(s) <= seq_max(s) <= crate::decimal::VALUE_LIMIT,
    decreases s.len(),
{
    assert(-(crate::decimal::VALUE_LIMIT as int) <= s[s.len() - 1] <= crate::decimal::VALUE_LIMIT);
    assert(-(crate::decimal::VALUE_LIMIT as int) <= s[0] <= crate::decimal::VALUE_LIMIT);
    if s.len() > 1 {
        assert(crate::session::values_within(s.drop_last())) by {
            assert forall|j: int| 0 <= j < s.drop_last().len() implies
                -(crate::decimal::VALUE_LIMIT as int) <= #[trigger] s.drop_last()[j] <= crate::decimal::VALUE_LIMIT by {
                assert(s.drop_last()[j] == s[j]);
            }
        }
        lemma_min_max(s.drop_last());
        assert forall|i: int| 0 <= i < s.len() implies seq_min(s) <= #[trigger] s[i] <= seq_max(s) by {
            if i < s.len() - 1 {
                assert(s[i] == s.drop_last()[i]);
            }
        }
    }
}

/// The levels of the newest `width` samples, each in `0..LEVELS`.
pub fn sparkline(vals: &VecDeque<i128>, width: usize) -> (r: Vec<u8>)
    requires
        crate::session::values_within(vals@),
    ensures
        r@.map_values(|x: u8| x as int) == sparkline_spec(vals@, width as nat),
        forall|i: int| 0 <= i < r@.len() ==> #[trigger] r@[i] < LEVELS,
{
    let n = vals.len();
    let start: usize = if n > width { n - width } else { 0 };
    let ghost w = window(vals@, width as nat);
    assert(w =~= vals@.subrange(start as int, n as int));
    let mut out: Vec<u8> = Vec::new();
    if start == n {
        assert(w.len() == 0);
        assert(out@.map_values(|x: u8| x as int) =~= sparkline_spec(vals@, width as nat));
        return out;
    }
    let mut lo: i128 = vals[start];
    let mut hi: i128 = vals[start];
    let mut i: usize = start + 1;
    assert(w.subrange(0, 1).drop_last() =~= Seq::<i128>::empty());
    while i < n
        invariant
            start < i <= n,
            n == vals@.len(),
            w == vals@.subrange(start as int, n as int),
            lo == seq_min(w.subrange(0, i - start)),
            hi == seq_max(w.subrange(0, i - start)),
        decreases n - i,
    {
        assert(w.subrange(0, i + 1 - start).drop_last() =~= w.subrange(0, i - start));
        if vals[i] < lo {
            lo = vals[i];
        }
        if vals[i] > hi {
            hi = vals[i];
        }
        i = i + 1;
    }
    assert(w.subrange(0, w.len() as int) =~= w);
    proof {
        assert forall|j: int| 0 <= j < w.len() implies
            -(crate::decimal::VALUE_LIMIT as int) <= #[trigger] w[j] <= crate::decimal::VALUE_LIMIT by {
            assert(w[j] == vals@[start + j]);
        }
        lemma_min_max(w);
    }
    let range: i128 = hi as i128 - lo as i128;
    let mut j: usize = start;
    while j < n
        invariant
            start <= j <= n,
            n == vals@.len(),
            w == vals@.subrange(start as int, n as int),
            lo == seq_min(w),
            hi == seq_max(w),
            range == hi - lo,
            -(crate::decimal::VALUE_LIMIT as int) <= lo <= hi <= crate::decimal::VALUE_LIMIT,
            forall|k: int| 0 <= k < w.len() ==> lo <= #[trigger] w[k] <= hi,
            out@.len() == j - start,
            forall|k: int| 0 <= k < out@.len() ==> out@[k] as int == level(w[k] as int, lo as int, hi as int),
            forall|k: int| 0 <= k < out@.len() ==> #[trigger] out@[k] < LEVELS,
        decreases n - j,
    {
        let v = vals[j];
        assert(v == w[j - start]);
        let lv: u8 = if range <= 0 {
            0
        } else {
            let d: i128 = v as i128 - lo as i128;
            proof {
                assert(0 <= d <= range);
                assert(d * 14 + range < 2 * range * 8) by (nonlinear_arith)
                    requires 0 <= d <= range, range > 0;
                assert((d * 14 + range) / (2 * range) < 8) by (nonlinear_arith)
                    requires d * 14 + range < 2 * range * 8, range > 0;
                assert((d * 14 + range) / (2 * range) >= 0) by (nonlinear_arith)
                    requires d >= 0, range > 0;
                assert(d * 14 <= range * 14) by (nonlinear_arith)
                    requires d <= range;
            }
            ((d * 14 + range) / (2 * range)) as u8
        };
        out.push(lv);
        j = j + 1;
    }
    assert(out@.map_values(|x: u8| x as int) =~= sparkline_spec(vals@, width as nat));
    out
}

/// Older samples that a row no longer shows do not change how it is scaled:
/// putting any samples before the ones in view gives the same levels.
pub proof fn lemma_window_scaling(older: Seq<i128>, vals: Seq<i128>, width: nat)
    requires
        vals.len() >= width,
    ensures
        sparkline_spec(older + vals, width) == sparkline_spec(vals, width),
{
    let all = older + vals;
    assert(window(all, width) =~= window(vals, width));
}

/// A progress fraction `num / den` with `num <= den`.
#[derive(Clone, Copy, PartialEq, Eq, Debug)]
pub struct Ratio {
    pub num: u64,
    pub den: u64,
}

pub open spec fn progress_spec(s: Session) -> Ratio {
    match s.total_steps {
        Some(t) if t > 0 => Ratio { num: if s.current_step < t { s.current_step } else { t }, den: t },
        _ => Ratio { num: 0, den: 1 },
    }
}

/// Seconds left at the current speed, rounded down and capped at `u64::MAX`.
pub open spec fn eta_spec(s: Session) -> Option<u64> {
    match s.total_steps {
        Some(t) => if s.steps_per_sec.is_positive() && s.current_step < t {
            let q = ((t - s.current_step) * s.steps_per_sec.micros) / (s.steps_per_sec.steps * 1_000_000);
            Some(if q > u64::MAX { u64::MAX } else { q as u64 })
        } else {
            None
        },
        None => None,
    }
}

pub open spec fn eta_text_spec(s: Session) -> Seq<char> {
    match eta_spec(s) {
        Some(secs) => duration_text(secs as nat),
        None => crate::session::placeholder(),
    }
}

/// Whole seconds elapsed, negative readings counting as none.
pub open spec fn elapsed_secs(s: Session) -> nat {
    if s.elapsed > 0 { (s.elapsed / 1_000_000) as nat } else { 0 }
}

/// Hundredths of a step per second, rounded half up and capped at `u64::MAX`.
pub open spec fn rate_hundredths(r: Rate) -> nat {
    if r.micros > 0 {
        let h = (r.steps * 200_000_000 + r.micros) / (2 * r.micros);
        if h > u64::MAX { u64::MAX as nat } else { h as nat }
    } else {
        0
    }
}

impl Session {
    /// How far the run is: `current / total`, capped at one; zero while the
    /// total is unknown or zero.
    pub fn progress_ratio(&self) -> (r: Ratio)
        ensures
            r == progress_spec(*self),
            r.num <= r.den,
            r.den > 0,
    {
        match self.total_steps {
            Some(t) => {
                if t > 0 {
                    Ratio { num: if self.current_step < t { self.current_step } else { t }, den: t }
                } else {
                    Ratio { num: 0, den: 1 }
                }
            },
            None => Ratio { num: 0, den: 1 },
        }
    }

    /// Whole percent done, rounded down.
    pub fn progress_percent(&self) -> (r: u64)
        ensures
            r as int == (progress_spec(*self).num as int * 100) / (progress_spec(*self).den as int),
            r <= 100,
    {
        let p = self.progress_ratio();
        proof {
            assert(p.num * 100 <= p.den * 100) by (nonlinear_arith)
                requires p.num <= p.den;
            assert((p.num as int * 100) / (p.den as int) <= 100) by (nonlinear_arith)
                requires p.num * 100 <= p.den * 100, p.den > 0;
        }
        ((p.num as u128 * 100) / p.den as u128) as u64
    }

    /// Seconds left; `None` without a total, a positive speed, or steps to go.
    pub fn eta_seconds(&self) -> (r: Option<u64>)
        ensures
            r == eta_spec(*self),
            self.total_steps.is_none() || !self.steps_per_sec.is_positive() ==> r.is_none(),
    {
        match self.total_steps {
            Some(t) => {
                let rate = self.steps_per_sec;
                if rate.steps > 0 && rate.micros > 0 && self.current_step < t {
                    let left = (t - self.current_step) as u128;
                    proof {
                        assert(left * rate.micros <= u64::MAX * u64::MAX) by (nonlinear_arith)
                            requires left <= u64::MAX, rate.micros <= u64::MAX;
                    }
                    let q = (left * rate.micros as u128) / (rate.steps as u128 * 1_000_000);
                    Some(if q > u64::MAX as u128 { u64::MAX } else { q as u64 })
                } else {
                    None
                }
            },
            None => None,
        }
    }

    /// The time left as `HH:MM:SS` or `MM:SS`, or the placeholder when it
    /// cannot be told.
    pub fn eta_str(&self) -> (r: String)
        ensures
            r@ == eta_text_spec(*self),
            self.total_steps.is_none() || !self.steps_per_sec.is_positive() ==> r@ == crate::session::placeholder(),
    {
        match self.eta_seconds() {
            Some(secs) => format_duration(secs),
            None => {
                proof { reveal_strlit("—"); }
                String::from_str("—")
            },
        }
    }

    /// The elapsed time as `HH:MM:SS` or `MM:SS`.
    pub fn elapsed_str(&self) -> (r: String)
        ensures
            r@ == duration_text(elapsed_secs(*self)),
    {
        let secs: u64 = if self.elapsed > 0 { (self.elapsed / 1_000_000) as u64 } else { 0 };
        format_duration(secs)
    }

    /// The speed in steps per second with two decimals.
    pub fn speed_str(&self) -> (r: String)
        ensures
            r@ == fixed_text(false, rate_hundredths(self.steps_per_sec), 2, 1),
    {
        let rate = self.steps_per_sec;
        let h: u128 = if rate.micros > 0 {
            proof {
                assert(rate.steps * 200_000_000 + rate.micros <= u64::MAX * 200_000_001) by (nonlinear_arith)
                    requires rate.steps <= u64::MAX, rate.micros <= u64::MAX;
                assert((rate.steps * 200_000_000 + rate.micros) / (2 * rate.micros) <= rate.steps * 100_000_000 + 1) by (nonlinear_arith)
                    requires rate.micros > 0;
            }
            let raw = (rate.steps as u128 * 200_000_000 + rate.micros as u128) / (2 * rate.micros as u128);
            if raw > u64::MAX as u128 { u64::MAX as u128 } else { raw }
        } else {
            0
        };
        proof {
            reveal_with_fuel(crate::decimal::pow10, 3);
        }
        format_fixed(false, h, 2, 1)
    }
}

/// One line of the metrics table.
pub struct MetricRow {
    pub name: String,
    pub value: String,
    pub trend: Trend,
}

/// One line of the history panel: the metric's name, the cells its label
/// takes, and the glyph levels after it.
pub struct SparkRow {
    pub name: String,
    pub label_width: usize,
    pub levels: Vec<u8>,
}

pub open spec fn min_int(a: int, b: int) -> int {
    if a < b { a } else { b }
}

/// How many history rows a panel of `height` lines holds: none when there is
/// no history or no room inside the border.
pub open spec fn rows_shown(s: Session, height: int) -> int {
    if s.histories@.len() == 0 || height < 3 { 0 } else { min_int(s.histories@.len() as int, height - 2) }
}

pub open spec fn label_width_spec(name: Seq<char>, inner_width: int) -> int {
    min_int(name.len() as int + 2, inner_width)
}

pub open spec fn progress_label_spec(s: Session) -> Seq<char> {
    match s.total_steps {
        Some(t) => "Step "@ + crate::text::dec(s.current_step as nat) + seq!['/'] + crate::text::dec(t as nat)
            + " — "@ + crate::text::dec(((progress_spec(s).num as int * 100) / (progress_spec(s).den as int)) as nat) + seq!['%'],
        None => "Step "@ + crate::text::dec(s.current_step as nat),
    }
}

pub open spec fn footer_spec(s: Session) -> Seq<char> {
    if s.is_done {
        " ✅ Training Complete — "@ + crate::text::dec(s.current_step as nat) + " steps "@
    } else {
        " Press 'q' to detach from display (training continues) "@
    }
}

impl Session {
    /// The trend of the history named `name`.
    pub fn trend_for(&self, name: &String) -> (r: Trend)
        ensures
            r == named_trend(*self, name@),
    {
        let ghost hv = crate::session::histories_view(self.histories@);
        let mut k: usize = 0;
        while k < self.histories.len()
            invariant
                0 <= k <= self.histories@.len(),
                hv == crate::session::histories_view(self.histories@),
                crate::session::index_of(hv, name@, k as int) == crate::session::index_of(hv, name@, 0),
            decreases self.histories@.len() - k,
        {
            if String::eq(&self.histories[k].name, name) {
                return trend_of(&self.histories[k].values);
            }
            k = k + 1;
        }
        Trend::Unknown
    }

    /// The metrics table: one row per latest metric, in name order.
    pub fn metric_rows(&self) -> (r: Vec<MetricRow>)
        ensures
            r@.len() == self.latest_metrics@.len(),
            forall|i: int| 0 <= i < r@.len() ==> {
                let (n, v) = #[trigger] self.latest_metrics@[i];
                &&& r@[i].name@ == n@
                &&& r@[i].value@ == fixed_text(v < 0, (if v < 0 { -(v as int) } else { v as int }) as nat, 4, 100_000_000)
                &&& r@[i].trend == named_trend(*self, n@)
            },
    {
        let mut out: Vec<MetricRow> = Vec::new();
        let mut i: usize = 0;
        while i < self.latest_metrics.len()
            invariant
                0 <= i <= self.latest_metrics@.len(),
                out@.len() == i,
                forall|j: int| 0 <= j < i ==> {
                    let (n, v) = #[trigger] self.latest_metrics@[j];
                    &&& out@[j].name@ == n@
                    &&& out@[j].value@ == fixed_text(v < 0, (if v < 0 { -(v as int) } else { v as int }) as nat, 4, 100_000_000)
                    &&& out@[j].trend == named_trend(*self, n@)
                },
            decreases self.latest_metrics@.len() - i,
        {
            let name = &self.latest_metrics[i].0;
            let v = self.latest_metrics[i].1;
            let row = MetricRow { name: name.clone(), value: format_value(v), trend: self.trend_for(name) };
            out.push(row);
            i = i + 1;
        }
        out
    }

    /// The history panel for an area of `width` by `height` cells, border
    /// included: one row per metric, as many as fit.
    pub fn history_rows(&self, width: u16, height: u16) -> (r: Vec<SparkRow>)
        requires
            self.wf(),
        ensures
            r@.len() == rows_shown(*self, height as int),
            forall|i: int| 0 <= i < r@.len() ==> {
                let inner = if width >= 2 { width - 2 } else { 0int };
                let h = #[trigger] self.histories@[i];
                &&& r@[i].name@ == h.name@
                &&& r@[i].label_width == label_width_spec(h.name@, inner)
                &&& r@[i].levels@.map_values(|x: u8| x as int) == sparkline_spec(h.values@, (inner - r@[i].label_width) as nat)
            },
    {
        let mut out: Vec<SparkRow> = Vec::new();
        if self.histories.len() == 0 || height < 3 {
            return out;
        }
        let inner: usize = if width >= 2 { (width - 2) as usize } else { 0 };
        let room = (height - 2) as usize;
        let n = if self.histories.len() < room { self.histories.len() } else { room };
        let mut i: usize = 0;
        while i < n
            invariant
                0 <= i <= n,
                n == rows_shown(*self, height as int),
                n <= self.histories@.len(),
                inner == (if width >= 2 { width - 2 } else { 0int }),
                self.wf(),
                out@.len() == i,
                forall|j: int| 0 <= j < i ==> {
                    let h = #[trigger] self.histories@[j];
                    &&& out@[j].name@ == h.name@
                    &&& out@[j].label_width == label_width_spec(h.name@, inner as int)
                    &&& out@[j].levels@.map_values(|x: u8| x as int) == sparkline_spec(h.values@, (inner - out@[j].label_width) as nat)
                },
            decreases n - i,
        {
            let h = &self.histories[i];
            proof {
                let hv = crate::session::histories_view(self.histories@);
                assert(hv[i as int] == (h.name@, h.values@));
                assert(crate::session::values_within(hv[i as int].1));
            }
            let chars = h.name.as_str().unicode_len();
            let label_width = if chars < inner && chars + 2 < inner { chars + 2 } else { inner };
            let levels = sparkline(&h.values, inner - label_width);
            out.push(SparkRow { name: h.name.clone(), label_width, levels });
            i = i + 1;
        }
        out
    }

    /// The progress gauge's label: `Step c/t — p%`, or `Step c` without a total.
    pub fn progress_label(&self) -> (r: String)
        ensures
            r@ == progress_label_spec(*self),
    {
        proof { reveal_strlit("Step "); reveal_strlit("/"); reveal_strlit(" — "); reveal_strlit("%"); }
        let mut out = String::from_str("Step ");
        crate::text::push_decimal(&mut out, self.current_step as u128);
        match self.total_steps {
            Some(t) => {
                out.append("/");
                crate::text::push_decimal(&mut out, t as u128);
                out.append(" — ");
                let pct = self.progress_percent();
                crate::text::push_decimal(&mut out, pct as u128);
                out.append("%");
            },
            None => {},
        }
        assert(out@ =~= progress_label_spec(*self));
        out
    }

    /// The footer: the help line while running, the final step count once done.
    pub fn footer_text(&self) -> (r: String)
        ensures
            r@ == footer_spec(*self),
    {
        proof {
            reveal_strlit(" ✅ Training Complete — ");
            reveal_strlit(" steps ");
            reveal_strlit(" Press 'q' to detach from display (training continues) ");
        }
        if self.is_done {
            let mut out = String::from_str(" ✅ Training Complete — ");
            crate::text::push_decimal(&mut out, self.current_step as u128);
            out.append(" steps ");
            out
        } else {
            String::from_str(" Press 'q' to detach from display (training continues) ")
        }
    }
}

/// A metric value, kept in units of `10^-VALUE_PLACES`, with four decimals.
pub fn format_value(v: i128) -> (r: String)
    ensures
        r@ == fixed_text(v < 0, (if v < 0 { -(v as int) } else { v as int }) as nat, 4, 100_000_000),
{
    let mag: u128 = if v < 0 { (-(v + 1)) as u128 + 1 } else { v as u128 };
    proof {
        reveal_with_fuel(crate::decimal::pow10, 5);
    }
    format_fixed(v < 0, mag, 4, 100_000_000)
}

} // verus!
