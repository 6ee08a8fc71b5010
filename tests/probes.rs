use openusage::{
    classify, finish_unit, has_error_badge, Diagnostic, MetricLine, ProbeOutcome, ProbeOutput,
};

fn output_with(lines: Vec<MetricLine>) -> ProbeOutput {
    ProbeOutput { plugin_id: "p".to_string(), display_name: "P".to_string(), lines }
}

#[test]
fn scenario_crash_keeps_other_result_and_completion() {
    let outcomes = vec![
        ProbeOutcome::Crashed,
        ProbeOutcome::Finished(output_with(vec![MetricLine::Text {
            label: "Plan".to_string(),
            value: "Pro".to_string(),
        }])),
    ];
    let mut remaining = outcomes.len();
    let mut results = 0;
    let mut completions = 0;
    for o in &outcomes {
        let acts = finish_unit(remaining, o);
        remaining -= 1;
        if acts.emit_result {
            results += 1;
        }
        if acts.emit_complete {
            completions += 1;
            assert_eq!(remaining, 0);
        }
    }
    assert_eq!(results, 1);
    assert_eq!(completions, 1);
    let crash = finish_unit(2, &ProbeOutcome::Crashed);
    assert!(!crash.emit_result);
    assert!(!crash.emit_complete);
    assert_eq!(crash.diagnostic, Diagnostic::Error);
}

#[test]
fn scenario_error_badge_is_still_a_result() {
    let out = output_with(vec![MetricLine::Badge { label: "Error".to_string(), value: None }]);
    assert!(has_error_badge(&out));
    let acts = finish_unit(1, &ProbeOutcome::Finished(out));
    assert!(acts.emit_result);
    assert!(acts.emit_complete);
    assert_eq!(acts.diagnostic, Diagnostic::Warning);
}

#[test]
fn other_badges_are_not_errors() {
    let out = output_with(vec![
        MetricLine::Badge { label: "error".to_string(), value: Some("x".to_string()) },
        MetricLine::Text { label: "Error".to_string(), value: "x".to_string() },
        MetricLine::Progress { label: "Session".to_string(), used: 3, limit: 10 },
    ]);
    assert!(!has_error_badge(&out));
    assert_eq!(classify(&ProbeOutcome::Finished(out)), Diagnostic::Info);
}

#[test]
fn completion_only_on_last_decrement() {
    let out = ProbeOutcome::Finished(output_with(vec![]));
    assert!(!finish_unit(3, &out).emit_complete);
    assert!(!finish_unit(2, &out).emit_complete);
    assert!(finish_unit(1, &out).emit_complete);
}
