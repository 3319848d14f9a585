//! Turning one line of the event stream into a status event.
use vstd::prelude::*;
use vstd::string::*;
use crate::decimal::{parse_micros, parse_u64, parse_value, parses, metric_of, micros_of, u64_text, VALUE_LIMIT};
use crate::event::{EventModel, InitInfo, StatusEvent, StepTick};
use crate::json::{JsonValue, json_of, lower_of, lowercase, parse_json};

verus! {

/// Index of the first member named `key` at or after `i`, or -1.
pub open spec fn key_index(es: Seq<(String, JsonValue)>, key: Seq<char>, i: int) -> int
    decreases es.len() - i,
{
    if i < 0 || i >= es.len() {
        -1
    } else if es[i].0@ == key {
        i
    } else {
        key_index(es, key, i + 1)
    }
}

pub open spec fn member(es: Seq<(String, JsonValue)>, key: Seq<char>) -> Option<JsonValue> {
    let k = key_index(es, key, 0);
    if k >= 0 { Some(es[k].1) } else { None }
}

pub open spec fn as_text(v: Option<JsonValue>) -> Option<Seq<char>> {
    match v {
        Some(JsonValue::Text(s)) => Some(s@),
        _ => None,
    }
}

pub open spec fn as_count(v: Option<JsonValue>) -> Option<u64> {
    match v {
        Some(JsonValue::Number(t)) => u64_text(t@),
        _ => None,
    }
}

pub open spec fn as_micros(v: Option<JsonValue>) -> Option<i64> {
    match v {
        Some(JsonValue::Number(t)) => if parses(t@) { Some(micros_of(t@) as i64) } else { None },
        _ => None,
    }
}

pub open spec fn as_metric(v: Option<JsonValue>) -> Option<i128> {
    match v {
        Some(JsonValue::Number(t)) => if parses(t@) { Some(metric_of(t@) as i128) } else { None },
        _ => None,
    }
}

/// Every value lies within `VALUE_LIMIT` in magnitude.
pub open spec fn values_in_range(ms: Seq<(Seq<char>, i128)>) -> bool {
    forall|i: int| 0 <= i < ms.len() ==> -(VALUE_LIMIT as int) <= #[trigger] ms[i].1 <= VALUE_LIMIT
}

/// An optional text field: `Some(None)` when absent or null, `None` when
/// present with another kind of value.
pub open spec fn optional_text(v: Option<JsonValue>) -> Option<Option<Seq<char>>> {
    match v {
        None => Some(None),
        Some(JsonValue::Null) => Some(None),
        Some(JsonValue::Text(s)) => Some(Some(s@)),
        _ => None,
    }
}

pub open spec fn optional_count(v: Option<JsonValue>) -> Option<Option<u64>> {
    match v {
        None => Some(None),
        Some(JsonValue::Null) => Some(None),
        Some(JsonValue::Number(t)) => match u64_text(t@) {
            Some(n) => Some(Some(n)),
            None => None,
        },
        _ => None,
    }
}

/// The members of a metrics object whose values are numbers, in order.
pub open spec fn numeric_members(es: Seq<(String, JsonValue)>) -> Seq<(Seq<char>, i128)>
    decreases es.len(),
{
    if es.len() == 0 {
        Seq::empty()
    } else {
        let rest = numeric_members(es.drop_last());
        match as_metric(Some(es.last().1)) {
            Some(x) => rest.push((es.last().0@, x)),
            None => rest,
        }
    }
}

pub open spec fn metrics_of(v: JsonValue) -> Seq<(Seq<char>, i128)> {
    match v {
        JsonValue::Object(es) => numeric_members(es@),
        _ => Seq::empty(),
    }
}

pub open spec fn decode_init(es: Seq<(String, JsonValue)>) -> Option<EventModel> {
    match (as_text(member(es, "name"@)), optional_text(member(es, "model_name"@)),
        optional_text(member(es, "total_params"@)), optional_text(member(es, "device"@)),
        optional_count(member(es, "total_steps"@))) {
        (Some(n), Some(m), Some(p), Some(d), Some(t)) => Some(EventModel::Init {
            exp_name: n,
            model_name: m,
            total_params: p,
            device: d,
            total_steps: t,
        }),
        _ => None,
    }
}

pub open spec fn decode_step(es: Seq<(String, JsonValue)>) -> Option<EventModel> {
    match (as_count(member(es, "step"@)), member(es, "metrics"@), as_micros(member(es, "elapsed"@))) {
        (Some(s), Some(m), Some(e)) => Some(EventModel::Step { step: s, metrics: metrics_of(m), elapsed: e }),
        _ => None,
    }
}

pub open spec fn decode_done(es: Seq<(String, JsonValue)>) -> Option<EventModel> {
    match as_count(member(es, "step"@)) {
        Some(s) => Some(EventModel::Done { step: s }),
        None => None,
    }
}

/// The event an object describes once its kind, already lower-cased, is known.
pub open spec fn decoded(v: JsonValue, kind: Seq<char>) -> Option<EventModel> {
    match v {
        JsonValue::Object(es) => {
            if kind == "init"@ {
                decode_init(es@)
            } else if kind == "step"@ {
                decode_step(es@)
            } else if kind == "done"@ {
                decode_done(es@)
            } else {
                None
            }
        },
        _ => None,
    }
}

/// The discriminator of an object: its `type` member, when that is text.
pub open spec fn tag_of(v: JsonValue) -> Option<Seq<char>> {
    match v {
        JsonValue::Object(es) => as_text(member(es@, "type"@)),
        _ => None,
    }
}

pub open spec fn decode_value_spec(v: JsonValue) -> Option<EventModel> {
    match tag_of(v) {
        Some(t) => decoded(v, lower_of(t)),
        None => None,
    }
}

pub open spec fn decode_line_spec(line: Seq<char>) -> Option<EventModel> {
    match json_of(line) {
        Some(v) => decode_value_spec(v),
        None => None,
    }
}

/// A decoded tick's metric values lie within `VALUE_LIMIT`.
pub open spec fn in_range(e: EventModel) -> bool {
    match e {
        EventModel::Step { metrics, .. } => values_in_range(metrics),
        _ => true,
    }
}

pub open spec fn agrees(r: Option<StatusEvent>, m: Option<EventModel>) -> bool {
    match r {
        Some(e) => m == Some(e.model()),
        None => m.is_none(),
    }
}

fn same_text(a: &str, b: &str) -> (r: bool)
    ensures
        r == (a@ == b@),
{
    let la = a.unicode_len();
    let lb = b.unicode_len();
    if la != lb {
        return false;
    }
    let mut i: usize = 0;
    while i < la
        invariant
            la == a@.len(),
            lb == b@.len(),
            la == lb,
            0 <= i <= la,
            forall|j: int| 0 <= j < i ==> a@[j] == b@[j],
        decreases la - i,
    {
        if a.get_char(i) != b.get_char(i) {
            return false;
        }
        i = i + 1;
    }
    assert(a@ =~= b@);
    true
}

fn find_member<'a>(es: &'a Vec<(String, JsonValue)>, key: &str) -> (r: Option<&'a JsonValue>)
    ensures
        match r {
            Some(x) => member(es@, key@) == Some(*x),
            None => member(es@, key@).is_none(),
        },
{
    let mut i: usize = 0;
    while i < es.len()
        invariant
            0 <= i <= es@.len(),
            key_index(es@, key@, i as int) == key_index(es@, key@, 0),
        decreases es@.len() - i,
    {
        if same_text(es[i].0.as_str(), key) {
            return Some(&es[i].1);
        }
        i = i + 1;
    }
    None
}

fn text_member(es: &Vec<(String, JsonValue)>, key: &str) -> (r: Option<String>)
    ensures
        match r {
            Some(s) => as_text(member(es@, key@)) == Some(s@),
            None => as_text(member(es@, key@)).is_none(),
        },
{
    match find_member(es, key) {
        Some(JsonValue::Text(s)) => Some(s.clone()),
        _ => None,
    }
}

fn count_member(es: &Vec<(String, JsonValue)>, key: &str) -> (r: Option<u64>)
    ensures
        r == as_count(member(es@, key@)),
{
    match find_member(es, key) {
        Some(JsonValue::Number(t)) => parse_u64(t),
        _ => None,
    }
}

fn number_micros(v: &JsonValue) -> (r: Option<i64>)
    ensures
        r == as_micros(Some(*v)),
{
    match v {
        JsonValue::Number(t) => parse_micros(t),
        _ => None,
    }
}

fn number_value(v: &JsonValue) -> (r: Option<i128>)
    ensures
        r == as_metric(Some(*v)),
        r.is_some() ==> -(VALUE_LIMIT as int) <= r.unwrap() <= VALUE_LIMIT,
{
    match v {
        JsonValue::Number(t) => parse_value(t),
        _ => None,
    }
}

fn optional_text_member(es: &Vec<(String, JsonValue)>, key: &str) -> (r: Option<Option<String>>)
    ensures
        match r {
            Some(Some(s)) => optional_text(member(es@, key@)) == Some(Some(s@)),
            Some(None) => optional_text(member(es@, key@)) == Some(None::<Seq<char>>),
            None => optional_text(member(es@, key@)).is_none(),
        },
{
    match find_member(es, key) {
        None => Some(None),
        Some(JsonValue::Null) => Some(None),
        Some(JsonValue::Text(s)) => Some(Some(s.clone())),
        _ => None,
    }
}

fn optional_count_member(es: &Vec<(String, JsonValue)>, key: &str) -> (r: Option<Option<u64>>)
    ensures
        r == optional_count(member(es@, key@)),
{
    match find_member(es, key) {
        None => Some(None),
        Some(JsonValue::Null) => Some(None),
        Some(JsonValue::Number(t)) => match parse_u64(t) {
            Some(n) => Some(Some(n)),
            None => None,
        },
        _ => None,
    }
}

/// The numeric members of a metrics value, in order; anything else is dropped.
pub fn numeric_metrics(v: &JsonValue) -> (r: Vec<(String, i128)>)
    ensures
        crate::event::metrics_view(r@) == metrics_of(*v),
        values_in_range(metrics_of(*v)),
{
    let mut out: Vec<(String, i128)> = Vec::new();
    match v {
        JsonValue::Object(es) => {
            let mut i: usize = 0;
            assert(es@.subrange(0, 0) =~= Seq::<(String, JsonValue)>::empty());
            assert(crate::event::metrics_view(out@) =~= Seq::empty());
            while i < es.len()
                invariant
                    0 <= i <= es@.len(),
                    crate::event::metrics_view(out@) == numeric_members(es@.subrange(0, i as int)),
                    values_in_range(crate::event::metrics_view(out@)),
                decreases es@.len() - i,
            {
                assert(es@.subrange(0, i + 1).drop_last() =~= es@.subrange(0, i as int));
                match number_value(&es[i].1) {
                    Some(x) => {
                        out.push((es[i].0.clone(), x));
                        assert(crate::event::metrics_view(out@) =~= numeric_members(es@.subrange(0, i + 1)));
                    },
                    None => {},
                }
                i = i + 1;
            }
            assert(es@.subrange(0, es@.len() as int) =~= es@);
        },
        _ => {
            assert(crate::event::metrics_view(out@) =~= Seq::empty());
        },
    }
    out
}

/// Decodes an object whose kind, lower-cased, is `kind`.
pub fn decode_tagged(v: &JsonValue, kind: &str) -> (r: Option<StatusEvent>)
    ensures
        agrees(r, decoded(*v, kind@)),
        r.is_some() ==> in_range(r.unwrap().model()),
{
    proof {
        reveal_strlit("init");
        reveal_strlit("step");
        reveal_strlit("done");
        reveal_strlit("name");
        reveal_strlit("model_name");
        reveal_strlit("total_params");
        reveal_strlit("device");
        reveal_strlit("total_steps");
        reveal_strlit("metrics");
        reveal_strlit("elapsed");
    }
    let es = match v {
        JsonValue::Object(es) => es,
        _ => { return None; },
    };
    if same_text(kind, "init") {
        let name = text_member(es, "name");
        let model_name = optional_text_member(es, "model_name");
        let total_params = optional_text_member(es, "total_params");
        let device = optional_text_member(es, "device");
        let total_steps = optional_count_member(es, "total_steps");
        match (name, model_name, total_params, device, total_steps) {
            (Some(exp_name), Some(model_name), Some(total_params), Some(device), Some(total_steps)) => {
                Some(StatusEvent::Init(InitInfo { exp_name, model_name, total_params, device, total_steps }))
            },
            _ => None,
        }
    } else if same_text(kind, "step") {
        let step = count_member(es, "step");
        let metrics = find_member(es, "metrics");
        let elapsed = match find_member(es, "elapsed") {
            Some(x) => number_micros(x),
            None => None,
        };
        match (step, metrics, elapsed) {
            (Some(step), Some(m), Some(elapsed)) => {
                let metrics = numeric_metrics(m);
                Some(StatusEvent::Step(StepTick { step, metrics, elapsed }))
            },
            _ => None,
        }
    } else if same_text(kind, "done") {
        match count_member(es, "step") {
            Some(step) => Some(StatusEvent::Done(step)),
            None => None,
        }
    } else {
        None
    }
}

/// Decodes a parsed value: its `type` member, compared without regard to
/// case, picks the kind of event.
pub fn decode_value(v: &JsonValue) -> (r: Option<StatusEvent>)
    ensures
        agrees(r, decode_value_spec(*v)),
        r.is_some() ==> in_range(r.unwrap().model()),
{
    proof { reveal_strlit("type"); }
    match v {
        JsonValue::Object(es) => match text_member(es, "type") {
            Some(t) => {
                let kind = lowercase(t.as_str());
                decode_tagged(v, kind.as_str())
            },
            None => None,
        },
        _ => None,
    }
}

/// Decodes one line of the event stream. Anything that is not a valid event
/// gives `None`; nothing else is reported.
pub fn decode_line(line: &str) -> (r: Option<StatusEvent>)
    ensures
        agrees(r, decode_line_spec(line@)),
        r.is_some() ==> in_range(r.unwrap().model()),
{
    match parse_json(line) {
        Some(v) => decode_value(&v),
        None => None,
    }
}

} // verus!
