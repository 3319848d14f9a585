use std::collections::VecDeque;
use torchlit::control::{next_action, Action, KeyInput};
use torchlit::decimal::{parse_micros, parse_u64, parse_value};
use torchlit::decode::decode_line;
use torchlit::event::{InitInfo, StatusEvent, StepTick};
use torchlit::render::{accent_color, format_value, sparkline, trend_of, Accent, Trend};
use torchlit::session::{Rate, Session};
use torchlit::text::format_duration;

fn chars(s: &str) -> Vec<char> {
    s.chars().collect()
}

fn step(n: u64, metrics: &[(&str, i128)], elapsed: i64) -> StatusEvent {
    StatusEvent::Step(StepTick {
        step: n,
        metrics: metrics.iter().map(|(k, v)| (k.to_string(), *v)).collect(),
        elapsed,
    })
}

fn init(total: Option<u64>) -> StatusEvent {
    StatusEvent::Init(InitInfo {
        exp_name: "run1".to_string(),
        model_name: None,
        total_params: None,
        device: None,
        total_steps: total,
    })
}

#[test]
fn parses_plain_and_exponent_numbers() {
    assert_eq!(parse_micros(&chars("0.5")), Some(500_000));
    assert_eq!(parse_micros(&chars("-1.25e-3")), Some(-1_250));
    assert_eq!(parse_micros(&chars("1e+02")), Some(100_000_000));
    assert_eq!(parse_micros(&chars("3E-6")), Some(3));
    assert_eq!(parse_micros(&chars("12")), Some(12_000_000));
    assert_eq!(parse_micros(&chars("0.0000009")), Some(0));
    assert_eq!(parse_micros(&chars("abc")), None);
    assert_eq!(parse_micros(&chars("1.")), None);
    assert_eq!(parse_micros(&chars("")), None);
    assert_eq!(parse_micros(&chars("1e30")), Some(i64::MAX));
    assert_eq!(parse_micros(&chars("-1e30")), Some(-i64::MAX));
}

#[test]
fn parses_metric_values_wide() {
    assert_eq!(parse_value(&chars("0.5")), Some(500_000_000_000));
    assert_eq!(parse_value(&chars("1e-7")), Some(100_000));
    assert_eq!(parse_value(&chars("3e-12")), Some(3));
    assert_eq!(parse_value(&chars("1.5e13")), Some(15_000_000_000_000_000_000_000_000));
    assert_eq!(parse_value(&chars("1e30")), Some(1_000_000_000_000_000_000_000_000_000_000_000_000));
    assert_eq!(parse_value(&chars("-1e30")), Some(-1_000_000_000_000_000_000_000_000_000_000_000_000));
    assert_eq!(parse_value(&chars("x1")), None);
}

#[test]
fn parses_counts() {
    assert_eq!(parse_u64(&chars("123")), Some(123));
    assert_eq!(parse_u64(&chars("18446744073709551615")), Some(u64::MAX));
    assert_eq!(parse_u64(&chars("18446744073709551616")), None);
    assert_eq!(parse_u64(&chars("1.0")), None);
    assert_eq!(parse_u64(&chars("-1")), None);
}

#[test]
fn decodes_init_with_defaults() {
    match decode_line(r#"{"type":"init","name":"run1","total_steps":100}"#) {
        Some(StatusEvent::Init(i)) => {
            assert_eq!(i.exp_name, "run1");
            assert_eq!(i.model_name, None);
            assert_eq!(i.device, None);
            assert_eq!(i.total_steps, Some(100));
        }
        _ => panic!("expected an init event"),
    }
}

#[test]
fn decodes_discriminator_without_case() {
    assert!(matches!(decode_line(r#"{"type":"DONE","step":7}"#), Some(StatusEvent::Done(7))));
    assert!(matches!(decode_line(r#"{"type":"Init","name":"x"}"#), Some(StatusEvent::Init(_))));
}

#[test]
fn rejects_bad_lines() {
    assert!(decode_line("").is_none());
    assert!(decode_line("   ").is_none());
    assert!(decode_line("not json").is_none());
    assert!(decode_line(r#"{"type":"init"}"#).is_none());
    assert!(decode_line(r#"{"type":"init","exp_name":"x"}"#).is_none());
    assert!(decode_line(r#"{"type":"step","step":1,"elapsed":1.0}"#).is_none());
    assert!(decode_line(r#"{"type":"step","step":1,"metrics":{}}"#).is_none());
    assert!(decode_line(r#"{"type":"done"}"#).is_none());
    assert!(decode_line(r#"{"type":"pause","step":1}"#).is_none());
    assert!(decode_line(r#"[1,2]"#).is_none());
    assert!(decode_line(r#"{"type":"init","name":"x","device":5}"#).is_none());
}

#[test]
fn drops_non_numeric_metrics() {
    let line = r#"{"type":"step","step":3,"metrics":{"loss":0.25,"tag":"a","acc":1,"n":null},"elapsed":2.5}"#;
    match decode_line(line) {
        Some(StatusEvent::Step(t)) => {
            assert_eq!(t.step, 3);
            assert_eq!(t.elapsed, 2_500_000);
            let mut m = t.metrics.clone();
            m.sort();
            assert_eq!(m, vec![("acc".to_string(), 1_000_000_000_000), ("loss".to_string(), 250_000_000_000)]);
        }
        _ => panic!("expected a step event"),
    }
}

#[test]
fn rate_from_two_ticks() {
    let mut s = Session::new();
    s.apply(step(0, &[], 0));
    s.apply(step(10, &[], 5_000_000));
    assert_eq!(s.steps_per_sec, Rate { steps: 10, micros: 5_000_000 });
    assert_eq!(s.speed_str(), "2.00");
}

#[test]
fn stalled_tick_keeps_rate() {
    let mut s = Session::new();
    s.apply(step(0, &[], 0));
    s.apply(step(10, &[], 5_000_000));
    s.apply(step(10, &[], 6_000_000));
    assert_eq!(s.steps_per_sec, Rate { steps: 10, micros: 5_000_000 });
    s.apply(step(20, &[], 6_000_000));
    assert_eq!(s.steps_per_sec, Rate { steps: 10, micros: 5_000_000 });
    s.apply(step(5, &[], 7_000_000));
    assert_eq!(s.steps_per_sec, Rate { steps: 10, micros: 5_000_000 });
    assert_eq!(s.current_step, 5);
}

#[test]
fn progress_is_clamped() {
    let mut s = Session::new();
    s.apply(init(Some(100)));
    s.apply(step(150, &[], 1_000_000));
    let r = s.progress_ratio();
    assert_eq!(r.num, r.den);
    assert_eq!(s.progress_percent(), 100);
    let mut t = Session::new();
    assert_eq!(t.progress_ratio().num, 0);
    t.apply(init(Some(0)));
    assert_eq!(t.progress_ratio().num, 0);
}

#[test]
fn eta_placeholder_without_total_or_speed() {
    let mut s = Session::new();
    s.apply(step(0, &[], 0));
    s.apply(step(10, &[], 5_000_000));
    assert_eq!(s.eta_seconds(), None);
    assert_eq!(s.eta_str(), "—");
    let mut t = Session::new();
    t.apply(init(Some(100)));
    assert_eq!(t.eta_str(), "—");
}

#[test]
fn eta_from_speed() {
    let mut s = Session::new();
    s.apply(init(Some(100)));
    s.apply(step(0, &[], 0));
    s.apply(step(50, &[], 25_000_000));
    assert_eq!(s.eta_seconds(), Some(25));
    assert_eq!(s.eta_str(), "00:25");
    assert_eq!(s.elapsed_str(), "00:25");
    assert_eq!(s.progress_label(), "Step 50/100 — 50%");
}

#[test]
fn init_step_done_sequence() {
    let mut s = Session::new();
    s.ingest_line(r#"{"type":"init","name":"run1"}"#);
    s.ingest_line(r#"{"type":"step","step":1,"metrics":{"loss":0.5},"elapsed":1.0}"#);
    s.ingest_line(r#"{"type":"done","step":1}"#);
    assert!(s.is_done);
    assert_eq!(s.current_step, 1);
    assert_eq!(s.latest_metrics, vec![("loss".to_string(), 500_000_000_000)]);
    assert_eq!(s.exp_name, "run1");
    assert_eq!(s.model_name, "—");
    assert_eq!(s.device, "CPU");
    assert_eq!(s.footer_text(), " ✅ Training Complete — 1 steps ");
}

#[test]
fn total_steps_set_once() {
    let mut s = Session::new();
    s.apply(init(Some(100)));
    s.apply(init(Some(5)));
    assert_eq!(s.total_steps, Some(100));
}

#[test]
fn latest_metrics_sorted_and_replaced() {
    let mut s = Session::new();
    s.apply(step(1, &[("zeta", 1), ("alpha", 2), ("mid", 3)], 1));
    assert_eq!(
        s.latest_metrics,
        vec![("alpha".to_string(), 2), ("mid".to_string(), 3), ("zeta".to_string(), 1)]
    );
    s.apply(step(2, &[("beta", 4)], 2));
    assert_eq!(s.latest_metrics, vec![("beta".to_string(), 4)]);
    let names: Vec<&str> = s.histories.iter().map(|h| h.name.as_str()).collect();
    assert_eq!(names, vec!["zeta", "alpha", "mid", "beta"]);
}

#[test]
fn history_keeps_latest_eighty() {
    let mut s = Session::new();
    for i in 0..200i64 {
        s.apply(step(i as u64, &[("loss", i as i128)], i));
    }
    assert_eq!(s.histories.len(), 1);
    assert_eq!(s.histories[0].values.len(), 80);
    assert_eq!(s.histories[0].values[0], 120);
    assert_eq!(*s.histories[0].values.back().unwrap(), 199);
}

#[test]
fn sparkline_uses_visible_window_only() {
    let flat_then_rise = vec![5, 5, 5, 6];
    let with_spike = vec![1_000_000, -1_000_000, 5, 5, 5, 6];
    assert_eq!(sparkline(&VecDeque::from(flat_then_rise), 4), vec![0, 0, 0, 7]);
    assert_eq!(sparkline(&VecDeque::from(with_spike), 4), vec![0, 0, 0, 7]);
    assert_eq!(sparkline(&VecDeque::from(vec![3, 3, 3]), 10), vec![0, 0, 0]);
    assert_eq!(sparkline(&VecDeque::from(vec![0, 1, 2, 3, 4, 5, 6, 7]), 8), vec![0, 1, 2, 3, 4, 5, 6, 7]);
    assert_eq!(sparkline(&VecDeque::from(vec![0, 1, 2]), 0), Vec::<u8>::new());
}

#[test]
fn trend_of_last_two() {
    assert_eq!(trend_of(&VecDeque::from(vec![3, 2])), Trend::Down);
    assert_eq!(trend_of(&VecDeque::from(vec![2, 3])), Trend::Up);
    assert_eq!(trend_of(&VecDeque::from(vec![1, 3, 3])), Trend::Flat);
    assert_eq!(trend_of(&VecDeque::from(vec![3])), Trend::Unknown);
    let mut s = Session::new();
    s.apply(step(1, &[("loss", 5)], 1));
    s.apply(step(2, &[("loss", 4)], 2));
    let rows = s.metric_rows();
    assert_eq!(rows.len(), 1);
    assert_eq!(rows[0].trend, Trend::Down);
    assert_eq!(rows[0].value, "0.0000");
}

#[test]
fn accent_ignores_case() {
    assert_eq!(accent_color("Apple M2 (MPS)"), Accent::Apple);
    assert_eq!(accent_color("NVIDIA A100"), Accent::Nvidia);
    assert_eq!(accent_color("CUDA:0"), Accent::Nvidia);
    assert_eq!(accent_color("CPU"), Accent::Other);
}

#[test]
fn durations_and_values() {
    assert_eq!(format_duration(59), "00:59");
    assert_eq!(format_duration(61), "01:01");
    assert_eq!(format_duration(3661), "01:01:01");
    assert_eq!(format_duration(360000), "100:00:00");
    assert_eq!(format_value(500_000_000_000), "0.5000");
    assert_eq!(format_value(-1_234_567_000_000), "-1.2346");
    assert_eq!(format_value(12_000_050_000_000), "12.0001");
    assert_eq!(format_value(15_000_000_000_000_000_000_000_000), "15000000000000.0000");
    assert!(format_value(i128::MIN).starts_with("-1701411834604692317316873"));
}

#[test]
fn history_rows_fit_the_panel() {
    let mut s = Session::new();
    s.apply(step(1, &[("a", 1), ("bb", 2), ("c", 3)], 1));
    s.apply(step(2, &[("a", 2), ("bb", 2), ("c", 3)], 2));
    assert!(s.history_rows(40, 2).is_empty());
    let rows = s.history_rows(10, 4);
    assert_eq!(rows.len(), 2);
    assert_eq!(rows[0].name, "a");
    assert_eq!(rows[0].label_width, 3);
    assert_eq!(rows[0].levels, vec![0, 7]);
    assert_eq!(rows[1].label_width, 4);
}

#[test]
fn display_decisions() {
    assert_eq!(next_action(Some(KeyInput::Char('q')), false), Action::Exit);
    assert_eq!(next_action(Some(KeyInput::Esc), true), Action::Exit);
    assert_eq!(next_action(Some(KeyInput::Char('x')), false), Action::Continue);
    assert_eq!(next_action(None, true), Action::FinalFrame);
    assert_eq!(next_action(None, false), Action::Continue);
}
