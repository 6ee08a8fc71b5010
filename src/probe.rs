//! What one probe run produces, and how its outcome is classified.

use vstd::prelude::*;

verus! {

/// One metric line of a probe's output.
#[derive(Debug, Clone)]
pub enum MetricLine {
    Text { label: String, value: String },
    Progress { label: String, used: u64, limit: u64 },
    Badge { label: String, value: Option<String> },
}

/// The output of one probe run.
#[derive(Debug, Clone)]
pub struct ProbeOutput {
    pub plugin_id: String,
    pub display_name: String,
    pub lines: Vec<MetricLine>,
}

/// How a probe run ended.
#[derive(Debug, Clone)]
pub enum ProbeOutcome {
    /// The probe returned normally.
    Finished(ProbeOutput),
    /// The probe's code faulted before it returned.
    Crashed,
}

/// The diagnostic level at which a finished unit is logged.
#[derive(Debug, Clone, Copy, PartialEq, Eq, Structural)]
pub enum Diagnostic {
    /// A normal result.
    Info,
    /// A result in which the plugin reported its own failure.
    Warning,
    /// A probe that faulted.
    Error,
}

/// A badge labelled "Error": the plugin reports its own failure.
pub open spec fn is_error_badge(l: MetricLine) -> bool {
    match l {
        MetricLine::Badge { label, .. } => label@ == "Error"@,
        _ => false,
    }
}

/// The output holds an error badge.
pub open spec fn reports_error(o: ProbeOutput) -> bool {
    exists|i: int| 0 <= i < o.lines@.len() && is_error_badge(#[trigger] o.lines@[i])
}

/// The diagnostic level of an outcome.
pub open spec fn diagnostic_of(o: ProbeOutcome) -> Diagnostic {
    match o {
        ProbeOutcome::Crashed => Diagnostic::Error,
        ProbeOutcome::Finished(out) => if reports_error(out) {
            Diagnostic::Warning
        } else {
            Diagnostic::Info
        },
    }
}

/// Whether the output holds an error badge.
pub fn has_error_badge(output: &ProbeOutput) -> (r: bool)
    ensures
        r == reports_error(*output),
{
    let sentinel = String::from_str("Error");
    let mut i: usize = 0;
    while i < output.lines.len()
        invariant
            i <= output.lines@.len(),
            sentinel@ == "Error"@,
            forall|t: int| 0 <= t < i ==> !is_error_badge(#[trigger] output.lines@[t]),
        decreases output.lines@.len() - i,
    {
        match &output.lines[i] {
            MetricLine::Badge { label, .. } => {
                if *label == sentinel {
                    assert(is_error_badge(output.lines@[i as int]));
                    return true;
                }
            },
            _ => {},
        }
        i = i + 1;
    }
    false
}

/// The diagnostic level at which an outcome is logged.
pub fn classify(outcome: &ProbeOutcome) -> (r: Diagnostic)
    ensures
        r == diagnostic_of(*outcome),
{
    match outcome {
        ProbeOutcome::Crashed => Diagnostic::Error,
        ProbeOutcome::Finished(out) => if has_error_badge(out) {
            Diagnostic::Warning
        } else {
            Diagnostic::Info
        },
    }
}

} // verus!
