//! Typed status events.
use vstd::prelude::*;

verus! {

/// Run identity and optional metadata announced at the start of a run.
pub struct InitInfo {
    pub exp_name: String,
    pub model_name: Option<String>,
    pub total_params: Option<String>,
    pub device: Option<String>,
    pub total_steps: Option<u64>,
}

/// One progress tick: the step reached, its numeric metrics in units of
/// `10^-VALUE_PLACES`,
/// and the run's elapsed time in microseconds.
pub struct StepTick {
    pub step: u64,
    pub metrics: Vec<(String, i128)>,
    pub elapsed: i64,
}

/// A decoded status event.
pub enum StatusEvent {
    Init(InitInfo),
    Step(StepTick),
    Done(u64),
}

/// The metrics of a tick as names and values.
pub open spec fn metrics_view(ms: Seq<(String, i128)>) -> Seq<(Seq<char>, i128)> {
    ms.map_values(|m: (String, i128)| (m.0@, m.1))
}

/// A decoded event as plain values.
pub enum EventModel {
    Init {
        exp_name: Seq<char>,
        model_name: Option<Seq<char>>,
        total_params: Option<Seq<char>>,
        device: Option<Seq<char>>,
        total_steps: Option<u64>,
    },
    Step { step: u64, metrics: Seq<(Seq<char>, i128)>, elapsed: i64 },
    Done { step: u64 },
}

pub open spec fn text_view(t: Option<String>) -> Option<Seq<char>> {
    match t {
        Some(s) => Some(s@),
        None => None,
    }
}

impl StatusEvent {
    pub open spec fn model(&self) -> EventModel {
        match self {
            StatusEvent::Init(i) => EventModel::Init {
                exp_name: i.exp_name@,
                model_name: text_view(i.model_name),
                total_params: text_view(i.total_params),
                device: text_view(i.device),
                total_steps: i.total_steps,
            },
            StatusEvent::Step(t) => EventModel::Step {
                step: t.step,
                metrics: metrics_view(t.metrics@),
                elapsed: t.elapsed,
            },
            StatusEvent::Done(s) => EventModel::Done { step: *s },
        }
    }
}

} // verus!
