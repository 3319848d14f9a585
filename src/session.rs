//! The session aggregate that status events update.
use std::collections::VecDeque;
use vstd::prelude::*;
use vstd::string::*;
use crate::event::{EventModel, InitInfo, StatusEvent, StepTick, metrics_view};
use crate::decode::{decode_line, decode_line_spec, in_range, values_in_range};
use crate::decimal::VALUE_LIMIT;

verus! {

/// Most samples a metric history keeps.
pub const HISTORY_CAPACITY: usize = 80;

/// Text shown for identity fields that were never supplied.
pub open spec fn placeholder() -> Seq<char> {
    seq!['—']
}

/// Device shown when none was supplied.
pub open spec fn default_device() -> Seq<char> {
    seq!['C', 'P', 'U']
}

/// A speed as `steps` over `micros` microseconds; no reading yet when `steps` is zero.
#[derive(Clone, Copy, PartialEq, Eq, Debug)]
pub struct Rate {
    pub steps: u64,
    pub micros: u64,
}

impl Rate {
    pub open spec fn is_positive(&self) -> bool {
        self.steps > 0 && self.micros > 0
    }
}

/// The most recent samples of one metric, oldest first.
pub struct MetricHistory {
    pub name: String,
    pub values: VecDeque<i128>,
}

/// Everything a frame is drawn from.
pub struct Session {
    pub exp_name: String,
    pub model_name: String,
    pub total_params: String,
    pub device: String,
    pub total_steps: Option<u64>,
    pub current_step: u64,
    /// Elapsed run time in microseconds, as last reported.
    pub elapsed: i64,
    pub steps_per_sec: Rate,
    pub is_done: bool,
    /// The last tick's metrics, sorted by name.
    pub latest_metrics: Vec<(String, i128)>,
    /// One history per metric name, in order of first sighting.
    pub histories: Vec<MetricHistory>,
    /// Step and elapsed time of the last tick, which speeds are measured from.
    pub last_tick_step: u64,
    pub last_tick_elapsed: i64,
}

pub open spec fn histories_view(hs: Seq<MetricHistory>) -> Seq<(Seq<char>, Seq<i128>)> {
    hs.map_values(|h: MetricHistory| (h.name@, h.values@))
}

/// Lexicographic order on names, character by character.
pub open spec fn common_prefix(a: Seq<char>, b: Seq<char>, i: int) -> int
    decreases a.len() - i,
{
    if 0 <= i < a.len() && i < b.len() && a[i] == b[i] {
        common_prefix(a, b, i + 1)
    } else {
        i
    }
}

pub open spec fn name_le(a: Seq<char>, b: Seq<char>) -> bool {
    let i = common_prefix(a, b, 0);
    i == a.len() || (i < b.len() && a[i] < b[i])
}

pub open spec fn sorted_by_name(l: Seq<(Seq<char>, i128)>) -> bool {
    forall|i: int| 0 <= i < l.len() - 1 ==> name_le(#[trigger] l[i].0, l[i + 1].0)
}

/// Appends a sample, evicting the oldest once the capacity is exceeded.
pub open spec fn push_sample(vals: Seq<i128>, v: i128) -> Seq<i128> {
    let p = vals.push(v);
    if p.len() > HISTORY_CAPACITY { p.drop_first() } else { p }
}

/// Index of the first history named `name` at or after `i`, or -1.
pub open spec fn index_of(hs: Seq<(Seq<char>, Seq<i128>)>, name: Seq<char>, i: int) -> int
    decreases hs.len() - i,
{
    if i < 0 || i >= hs.len() {
        -1
    } else if hs[i].0 == name {
        i
    } else {
        index_of(hs, name, i + 1)
    }
}

/// Records one sample, creating the metric's history on first sighting.
pub open spec fn record(hs: Seq<(Seq<char>, Seq<i128>)>, name: Seq<char>, v: i128) -> Seq<(Seq<char>, Seq<i128>)> {
    let k = index_of(hs, name, 0);
    if k >= 0 {
        hs.update(k, (name, push_sample(hs[k].1, v)))
    } else {
        hs.push((name, seq![v]))
    }
}

/// Records the samples of a tick in order.
pub open spec fn record_all(hs: Seq<(Seq<char>, Seq<i128>)>, ms: Seq<(Seq<char>, i128)>) -> Seq<(Seq<char>, Seq<i128>)>
    decreases ms.len(),
{
    if ms.len() == 0 {
        hs
    } else {
        record(record_all(hs, ms.drop_last()), ms.last().0, ms.last().1)
    }
}

pub open spec fn values_within(vals: Seq<i128>) -> bool {
    forall|j: int| 0 <= j < vals.len() ==> -(VALUE_LIMIT as int) <= #[trigger] vals[j] <= VALUE_LIMIT
}

/// Every history holds at most `HISTORY_CAPACITY` samples, each within `VALUE_LIMIT`.
pub open spec fn bounded(hs: Seq<(Seq<char>, Seq<i128>)>) -> bool {
    forall|i: int| 0 <= i < hs.len() ==> (#[trigger] hs[i]).1.len() <= HISTORY_CAPACITY && values_within(hs[i].1)
}

/// Steps made since the last tick, zero when the step went backwards.
pub open spec fn delta_steps(prev: u64, step: u64) -> int {
    if step >= prev { step - prev } else { 0 }
}

/// The speed a tick replaces the current one with, if it gives a positive reading.
pub open spec fn next_rate(cur: Rate, prev_step: u64, prev_elapsed: i64, step: u64, elapsed: i64) -> Rate {
    let ds = delta_steps(prev_step, step);
    let dt = elapsed - prev_elapsed;
    if dt > 0 && ds > 0 {
        Rate { steps: ds as u64, micros: dt as u64 }
    } else {
        cur
    }
}

proof fn lemma_index_of(hs: Seq<(Seq<char>, Seq<i128>)>, name: Seq<char>, i: int)
    requires
        0 <= i,
    ensures
        index_of(hs, name, i) == -1 || (i <= index_of(hs, name, i) < hs.len() && hs[index_of(hs, name, i)].0 == name),
    decreases hs.len() - i,
{
    if i < hs.len() && hs[i].0 != name {
        lemma_index_of(hs, name, i + 1);
    }
}

proof fn lemma_record_bounded(hs: Seq<(Seq<char>, Seq<i128>)>, name: Seq<char>, v: i128)
    requires
        bounded(hs),
        -(VALUE_LIMIT as int) <= v <= VALUE_LIMIT,
    ensures
        bounded(record(hs, name, v)),
{
    lemma_index_of(hs, name, 0);
    let r = record(hs, name, v);
    let k = index_of(hs, name, 0);
    if k >= 0 {
        let old_vals = hs[k].1;
        let p = old_vals.push(v);
        assert(values_within(old_vals));
        assert(values_within(p)) by {
            assert forall|j: int| 0 <= j < p.len() implies -(VALUE_LIMIT as int) <= #[trigger] p[j] <= VALUE_LIMIT by {
                if j < old_vals.len() {
                    assert(p[j] == old_vals[j]);
                }
            }
        }
        assert(values_within(push_sample(old_vals, v))) by {
            if p.len() > HISTORY_CAPACITY {
                let q = p.drop_first();
                assert forall|j: int| 0 <= j < q.len() implies -(VALUE_LIMIT as int) <= #[trigger] q[j] <= VALUE_LIMIT by {
                    assert(q[j] == p[j + 1]);
                }
            }
        }
    } else {
        assert(values_within(seq![v]));
    }
    assert forall|i: int| 0 <= i < r.len() implies (#[trigger] r[i]).1.len() <= HISTORY_CAPACITY && values_within(r[i].1) by {
        if i < hs.len() && i != k {
            assert(r[i] == hs[i]);
        }
    }
}

proof fn lemma_common_prefix(a: Seq<char>, b: Seq<char>, i: int)
    requires
        0 <= i <= a.len(),
        i <= b.len(),
        forall|j: int| 0 <= j < i ==> a[j] == b[j],
    ensures
        i <= common_prefix(a, b, i) <= a.len(),
        common_prefix(a, b, i) <= b.len(),
        common_prefix(a, b, i) == common_prefix(b, a, i),
        forall|j: int| 0 <= j < common_prefix(a, b, i) ==> a[j] == b[j],
        common_prefix(a, b, i) < a.len() && common_prefix(a, b, i) < b.len()
            ==> a[common_prefix(a, b, i)] != b[common_prefix(a, b, i)],
    decreases a.len() - i,
{
    if i < a.len() && i < b.len() && a[i] == b[i] {
        lemma_common_prefix(a, b, i + 1);
    }
}

/// Any two names are ordered one way or the other.
proof fn lemma_name_le_total(a: Seq<char>, b: Seq<char>)
    ensures
        name_le(a, b) || name_le(b, a),
{
    lemma_common_prefix(a, b, 0);
    let i = common_prefix(a, b, 0);
    if i < a.len() && i < b.len() {
        assert(a[i] != b[i]);
    }
}

fn names_le(a: &String, b: &String) -> (r: bool)
    ensures
        r == name_le(a@, b@),
{
    let sa = a.as_str();
    let sb = b.as_str();
    let la = sa.unicode_len();
    let lb = sb.unicode_len();
    let mut i: usize = 0;
    while i < la && i < lb && sa.get_char(i) == sb.get_char(i)
        invariant
            la == a@.len(),
            lb == b@.len(),
            sa@ == a@,
            sb@ == b@,
            0 <= i <= la,
            i <= lb,
            common_prefix(a@, b@, i as int) == common_prefix(a@, b@, 0),
        decreases la - i,
    {
        i = i + 1;
    }
    if i == la {
        true
    } else if i == lb {
        false
    } else {
        sa.get_char(i) < sb.get_char(i)
    }
}

fn eq_names(a: &String, b: &String) -> (r: bool)
    ensures
        r == (a@ == b@),
{
    String::eq(a, b)
}

impl Session {
    pub open spec fn wf(&self) -> bool {
        bounded(histories_view(self.histories@))
    }

    /// A session before any event.
    pub fn new() -> (r: Session)
        ensures
            r.wf(),
            r.exp_name@ == placeholder(),
            r.model_name@ == placeholder(),
            r.total_params@ == placeholder(),
            r.device@ == default_device(),
            r.total_steps.is_none(),
            r.current_step == 0,
            r.elapsed == 0,
            r.steps_per_sec == (Rate { steps: 0, micros: 0 }),
            !r.is_done,
            r.latest_metrics@.len() == 0,
            r.histories@.len() == 0,
            r.last_tick_step == 0,
            r.last_tick_elapsed == 0,
    {
        proof {
            reveal_strlit("—");
            reveal_strlit("CPU");
        }
        let r = Session {
            exp_name: String::from_str("—"),
            model_name: String::from_str("—"),
            total_params: String::from_str("—"),
            device: String::from_str("CPU"),
            total_steps: None,
            current_step: 0,
            elapsed: 0,
            steps_per_sec: Rate { steps: 0, micros: 0 },
            is_done: false,
            latest_metrics: Vec::new(),
            histories: Vec::new(),
            last_tick_step: 0,
            last_tick_elapsed: 0,
        };
        assert(histories_view(r.histories@) =~= Seq::empty());
        r
    }

    /// Takes a run's identity. Absent optional fields fall back to their
    /// placeholders; the step total is only ever set once.
    pub fn apply_init(&mut self, info: InitInfo)
        requires
            old(self).wf(),
        ensures
            final(self).wf(),
            final(self).exp_name@ == info.exp_name@,
            final(self).model_name@ == (match info.model_name { Some(m) => m@, None => placeholder() }),
            final(self).total_params@ == (match info.total_params { Some(m) => m@, None => placeholder() }),
            final(self).device@ == (match info.device { Some(m) => m@, None => default_device() }),
            final(self).total_steps == (if old(self).total_steps.is_some() { old(self).total_steps } else { info.total_steps }),
            final(self).current_step == old(self).current_step,
            final(self).elapsed == old(self).elapsed,
            final(self).steps_per_sec == old(self).steps_per_sec,
            final(self).is_done == old(self).is_done,
            final(self).latest_metrics@ == old(self).latest_metrics@,
            final(self).histories@ == old(self).histories@,
            final(self).last_tick_step == old(self).last_tick_step,
            final(self).last_tick_elapsed == old(self).last_tick_elapsed,
    {
        proof {
            reveal_strlit("—");
            reveal_strlit("CPU");
        }
        self.exp_name = info.exp_name;
        self.model_name = match info.model_name {
            Some(m) => m,
            None => String::from_str("—"),
        };
        self.total_params = match info.total_params {
            Some(m) => m,
            None => String::from_str("—"),
        };
        self.device = match info.device {
            Some(m) => m,
            None => String::from_str("CPU"),
        };
        if self.total_steps.is_none() {
            self.total_steps = info.total_steps;
        }
    }

    /// Appends one sample to the named history, creating it if needed.
    fn record_sample(&mut self, name: &String, v: i128)
        requires
            old(self).wf(),
            -(VALUE_LIMIT as int) <= v <= VALUE_LIMIT,
        ensures
            final(self).wf(),
            histories_view(final(self).histories@) == record(histories_view(old(self).histories@), name@, v),
            final(self).latest_metrics@ == old(self).latest_metrics@,
            final(self).exp_name == old(self).exp_name,
            final(self).model_name == old(self).model_name,
            final(self).total_params == old(self).total_params,
            final(self).device == old(self).device,
            final(self).total_steps == old(self).total_steps,
            final(self).current_step == old(self).current_step,
            final(self).elapsed == old(self).elapsed,
            final(self).steps_per_sec == old(self).steps_per_sec,
            final(self).is_done == old(self).is_done,
            final(self).last_tick_step == old(self).last_tick_step,
            final(self).last_tick_elapsed == old(self).last_tick_elapsed,
    {
        let ghost hv = histories_view(self.histories@);
        let mut k: usize = 0;
        while k < self.histories.len() && !eq_names(&self.histories[k].name, name)
            invariant
                0 <= k <= self.histories@.len(),
                hv == histories_view(self.histories@),
                index_of(hv, name@, k as int) == index_of(hv, name@, 0),
            decreases self.histories@.len() - k,
        {
            k = k + 1;
        }
        proof {
            lemma_record_bounded(hv, name@, v);
        }
        if k < self.histories.len() {
            let mut h = self.histories.remove(k);
            h.values.push_back(v);
            if h.values.len() > HISTORY_CAPACITY {
                h.values.pop_front();
            }
            self.histories.insert(k, h);
            assert(histories_view(self.histories@) =~= record(hv, name@, v));
        } else {
            let mut values: VecDeque<i128> = VecDeque::new();
            values.push_back(v);
            self.histories.push(MetricHistory { name: name.clone(), values });
            assert(histories_view(self.histories@) =~= record(hv, name@, v));
        }
    }

    /// Applies one progress tick.
    pub fn apply_step(&mut self, tick: StepTick)
        requires
            old(self).wf(),
            values_in_range(metrics_view(tick.metrics@)),
        ensures
            final(self).wf(),
            final(self).current_step == tick.step,
            final(self).elapsed == tick.elapsed,
            final(self).last_tick_step == tick.step,
            final(self).last_tick_elapsed == tick.elapsed,
            final(self).steps_per_sec == next_rate(old(self).steps_per_sec, old(self).last_tick_step,
                old(self).last_tick_elapsed, tick.step, tick.elapsed),
            histories_view(final(self).histories@) == record_all(histories_view(old(self).histories@), metrics_view(tick.metrics@)),
            metrics_view(final(self).latest_metrics@).to_multiset() == metrics_view(tick.metrics@).to_multiset(),
            sorted_by_name(metrics_view(final(self).latest_metrics@)),
            final(self).is_done == old(self).is_done,
            final(self).total_steps == old(self).total_steps,
            final(self).exp_name@ == old(self).exp_name@,
            final(self).model_name@ == old(self).model_name@,
            final(self).total_params@ == old(self).total_params@,
            final(self).device@ == old(self).device@,
    {
        let ds: u64 = if tick.step >= self.last_tick_step { tick.step - self.last_tick_step } else { 0 };
        let dt: i128 = tick.elapsed as i128 - self.last_tick_elapsed as i128;
        if dt > 0 && ds > 0 {
            self.steps_per_sec = Rate { steps: ds, micros: dt as u64 };
        }
        self.current_step = tick.step;
        self.elapsed = tick.elapsed;
        self.last_tick_step = tick.step;
        self.last_tick_elapsed = tick.elapsed;

        let ghost ms = metrics_view(tick.metrics@);
        let ghost h0 = histories_view(self.histories@);
        let mut sorted: Vec<(String, i128)> = Vec::new();
        let mut i: usize = 0;
        assert(metrics_view(sorted@) =~= Seq::empty());
        assert(ms.subrange(0, 0) =~= Seq::empty());
        assert(record_all(h0, ms.subrange(0, 0)) == h0);
        while i < tick.metrics.len()
            invariant
                self.wf(),
                0 <= i <= tick.metrics@.len(),
                ms == metrics_view(tick.metrics@),
                values_in_range(ms),
                histories_view(self.histories@) == record_all(h0, ms.subrange(0, i as int)),
                metrics_view(sorted@).to_multiset() == ms.subrange(0, i as int).to_multiset(),
                sorted_by_name(metrics_view(sorted@)),
                self.current_step == tick.step,
                self.elapsed == tick.elapsed,
                self.last_tick_step == tick.step,
                self.last_tick_elapsed == tick.elapsed,
                self.steps_per_sec == next_rate(old(self).steps_per_sec, old(self).last_tick_step,
                    old(self).last_tick_elapsed, tick.step, tick.elapsed),
                self.is_done == old(self).is_done,
                self.total_steps == old(self).total_steps,
                self.exp_name@ == old(self).exp_name@,
                self.model_name@ == old(self).model_name@,
                self.total_params@ == old(self).total_params@,
                self.device@ == old(self).device@,
            decreases tick.metrics@.len() - i,
        {
            let name = &tick.metrics[i].0;
            let v = tick.metrics[i].1;
            proof {
                assert(ms[i as int] == (name@, v));
                assert(-(VALUE_LIMIT as int) <= ms[i as int].1 <= VALUE_LIMIT);
                assert(ms.subrange(0, i + 1).drop_last() =~= ms.subrange(0, i as int));
                assert(ms.subrange(0, i + 1).last() == (name@, v));
            }
            self.record_sample(name, v);
            insert_sorted(&mut sorted, name.clone(), v);
            proof {
                assert(ms.subrange(0, i + 1) =~= ms.subrange(0, i as int).push((name@, v)));
                vstd::seq_lib::to_multiset_build(ms.subrange(0, i as int), (name@, v));
            }
            i = i + 1;
        }
        assert(ms.subrange(0, ms.len() as int) =~= ms);
        self.latest_metrics = sorted;
    }

    /// Marks the run finished at `step`.
    pub fn apply_done(&mut self, step: u64)
        requires
            old(self).wf(),
        ensures
            final(self).wf(),
            final(self).current_step == step,
            final(self).is_done,
            final(self).elapsed == old(self).elapsed,
            final(self).steps_per_sec == old(self).steps_per_sec,
            final(self).total_steps == old(self).total_steps,
            final(self).latest_metrics@ == old(self).latest_metrics@,
            final(self).histories@ == old(self).histories@,
            final(self).last_tick_step == old(self).last_tick_step,
            final(self).last_tick_elapsed == old(self).last_tick_elapsed,
            same_identity(*old(self), *final(self)),
    {
        self.current_step = step;
        self.is_done = true;
    }

    /// Marks the run finished because the event stream ended.
    pub fn finish(&mut self)
        requires
            old(self).wf(),
        ensures
            final(self).wf(),
            final(self).is_done,
            final(self).current_step == old(self).current_step,
            final(self).histories@ == old(self).histories@,
            final(self).latest_metrics@ == old(self).latest_metrics@,
            final(self).elapsed == old(self).elapsed,
            final(self).steps_per_sec == old(self).steps_per_sec,
            final(self).total_steps == old(self).total_steps,
            final(self).last_tick_step == old(self).last_tick_step,
            final(self).last_tick_elapsed == old(self).last_tick_elapsed,
            same_identity(*old(self), *final(self)),
    {
        self.is_done = true;
    }
}

/// The identity fields agree.
pub open spec fn same_identity(s: Session, t: Session) -> bool {
    &&& t.exp_name@ == s.exp_name@
    &&& t.model_name@ == s.model_name@
    &&& t.total_params@ == s.total_params@
    &&& t.device@ == s.device@
}

pub open spec fn or_default(v: Option<Seq<char>>, d: Seq<char>) -> Seq<char> {
    match v {
        Some(x) => x,
        None => d,
    }
}

/// The session an event leaves behind.
pub open spec fn applied(s: Session, t: Session, e: EventModel) -> bool {
    &&& t.wf()
    &&& match e {
        EventModel::Init { exp_name, model_name, total_params, device, total_steps } => {
            &&& t.exp_name@ == exp_name
            &&& t.model_name@ == or_default(model_name, placeholder())
            &&& t.total_params@ == or_default(total_params, placeholder())
            &&& t.device@ == or_default(device, default_device())
            &&& t.total_steps == (if s.total_steps.is_some() { s.total_steps } else { total_steps })
            &&& t.current_step == s.current_step
            &&& t.elapsed == s.elapsed
            &&& t.steps_per_sec == s.steps_per_sec
            &&& t.is_done == s.is_done
            &&& t.histories@ == s.histories@
            &&& t.latest_metrics@ == s.latest_metrics@
            &&& t.last_tick_step == s.last_tick_step
            &&& t.last_tick_elapsed == s.last_tick_elapsed
        },
        EventModel::Step { step, metrics, elapsed } => {
            &&& t.current_step == step
            &&& t.elapsed == elapsed
            &&& t.last_tick_step == step
            &&& t.last_tick_elapsed == elapsed
            &&& t.steps_per_sec == next_rate(s.steps_per_sec, s.last_tick_step, s.last_tick_elapsed, step, elapsed)
            &&& histories_view(t.histories@) == record_all(histories_view(s.histories@), metrics)
            &&& metrics_view(t.latest_metrics@).to_multiset() == metrics.to_multiset()
            &&& sorted_by_name(metrics_view(t.latest_metrics@))
            &&& t.is_done == s.is_done
            &&& t.total_steps == s.total_steps
            &&& same_identity(s, t)
        },
        EventModel::Done { step } => {
            &&& t.current_step == step
            &&& t.is_done
            &&& t.elapsed == s.elapsed
            &&& t.steps_per_sec == s.steps_per_sec
            &&& t.total_steps == s.total_steps
            &&& t.histories@ == s.histories@
            &&& t.latest_metrics@ == s.latest_metrics@
            &&& t.last_tick_step == s.last_tick_step
            &&& t.last_tick_elapsed == s.last_tick_elapsed
            &&& same_identity(s, t)
        },
    }
}

impl Session {
    /// Applies one event.
    pub fn apply(&mut self, e: StatusEvent)
        requires
            old(self).wf(),
            in_range(e.model()),
        ensures
            applied(*old(self), *final(self), e.model()),
    {
        match e {
            StatusEvent::Init(info) => self.apply_init(info),
            StatusEvent::Step(tick) => self.apply_step(tick),
            StatusEvent::Done(step) => self.apply_done(step),
        }
    }

    /// Decodes one line of the event stream and applies the event it holds;
    /// a line that holds none leaves the session as it was.
    pub fn ingest_line(&mut self, line: &str)
        requires
            old(self).wf(),
        ensures
            match decode_line_spec(line@) {
                Some(e) => applied(*old(self), *final(self), e),
                None => *final(self) == *old(self),
            },
    {
        match decode_line(line) {
            Some(e) => self.apply(e),
            None => {},
        }
    }
}

/// However many samples are recorded, no history holds more than
/// `HISTORY_CAPACITY` of them.
pub proof fn lemma_history_bounded(hs: Seq<(Seq<char>, Seq<i128>)>, ms: Seq<(Seq<char>, i128)>)
    requires
        bounded(hs),
        values_in_range(ms),
    ensures
        bounded(record_all(hs, ms)),
    decreases ms.len(),
{
    if ms.len() > 0 {
        assert(values_in_range(ms.drop_last())) by {
            assert forall|i: int| 0 <= i < ms.drop_last().len() implies
                -(VALUE_LIMIT as int) <= #[trigger] ms.drop_last()[i].1 <= VALUE_LIMIT by {
                assert(ms.drop_last()[i] == ms[i]);
            }
        }
        assert(-(VALUE_LIMIT as int) <= ms[ms.len() - 1].1 <= VALUE_LIMIT);
        lemma_history_bounded(hs, ms.drop_last());
        lemma_record_bounded(record_all(hs, ms.drop_last()), ms.last().0, ms.last().1);
    }
}

/// A tick that does not move forward in both steps and time leaves the speed
/// as it was; one that does replaces it with the steps made over the time taken.
pub proof fn lemma_rate_kept_unless_positive(cur: Rate, prev_step: u64, prev_elapsed: i64, step: u64, elapsed: i64)
    ensures
        elapsed - prev_elapsed <= 0 || delta_steps(prev_step, step) <= 0
            ==> next_rate(cur, prev_step, prev_elapsed, step, elapsed) == cur,
        elapsed - prev_elapsed > 0 && delta_steps(prev_step, step) > 0 ==> {
            let r = next_rate(cur, prev_step, prev_elapsed, step, elapsed);
            &&& r.is_positive()
            &&& r.steps == step - prev_step
            &&& r.micros == elapsed - prev_elapsed
        },
{
}

/// Inserts after every entry whose name is not greater, keeping the order.
fn insert_sorted(l: &mut Vec<(String, i128)>, name: String, v: i128)
    requires
        sorted_by_name(metrics_view(old(l)@)),
    ensures
        sorted_by_name(metrics_view(final(l)@)),
        metrics_view(final(l)@).to_multiset() == metrics_view(old(l)@).to_multiset().insert((name@, v)),
{
    let ghost lv = metrics_view(l@);
    let mut p: usize = 0;
    while p < l.len() && names_le(&l[p].0, &name)
        invariant
            0 <= p <= l@.len(),
            lv == metrics_view(l@),
            forall|j: int| 0 <= j < p ==> name_le(#[trigger] lv[j].0, name@),
        decreases l@.len() - p,
    {
        p = p + 1;
    }
    proof {
        if p < l@.len() {
            lemma_name_le_total(lv[p as int].0, name@);
        }
    }
    let ghost nv = name@;
    l.insert(p, (name, v));
    let ghost r = metrics_view(l@);
    assert(r =~= lv.insert(p as int, (nv, v)));
    proof {
        vstd::seq_lib::to_multiset_insert(lv, p as int, (nv, v));
        assert forall|i: int| 0 <= i < r.len() - 1 implies name_le(#[trigger] r[i].0, r[i + 1].0) by {
            if i < p - 1 {
                assert(r[i] == lv[i] && r[i + 1] == lv[i + 1]);
            } else if i == p - 1 {
                assert(r[i] == lv[i]);
            } else if i == p {
            } else {
                assert(r[i] == lv[i - 1] && r[i + 1] == lv[i]);
            }
        }
    }
}

} // verus!
