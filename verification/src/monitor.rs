//! The run-lifecycle monitor's state machine: one observation step per
//! polled snapshot, emitting a state-change event exactly when the state
//! name differs from the last reported one, and classifying the outcome.
use vstd::prelude::*;
use vstd::string::*;
use crate::models::FlowRun;
use crate::models::is_terminal_spec;
use crate::models::short_id_spec;
use crate::strutil::str_eq;

verus! {

/// One reported state change.
#[derive(Debug)]
pub struct WatchEvent {
    pub state_name: String,
    pub state_type: String,
    /// The run's start time if present, else the first eight characters of
    /// its identifier, else a dash placeholder.
    pub timestamp: String,
}

/// What the loop does after a snapshot.
#[derive(Debug)]
pub enum WatchOutcome {
    /// Not terminal: poll again after the fixed interval.
    Continue,
    /// Terminal and completed.
    Success,
    /// Terminal otherwise; carries the state name and short identifier.
    Failed(String),
}

/// The display timestamp of a snapshot.
pub open spec fn display_timestamp_spec(run: &FlowRun) -> Seq<char> {
    match run.start_time {
        Some(t) => t@,
        None => if run.id@.len() >= 8 {
            run.id@.subrange(0, 8)
        } else {
            seq!['-']
        },
    }
}

/// The poll-loop state: the last state name reported. It starts empty, so
/// the first observed state is always reported.
pub struct RunWatch {
    pub last_state_name: String,
}

impl RunWatch {
    pub fn new() -> (r: RunWatch)
        ensures
            r.last_state_name@ == Seq::<char>::empty(),
    {
        RunWatch { last_state_name: String::new() }
    }

    /// Take one snapshot: report a state change exactly when the state name
    /// differs from the last reported one, and classify the run. A repeated
    /// identical snapshot emits nothing.
    pub fn observe(&mut self, run: &FlowRun) -> (r: (Option<WatchEvent>, WatchOutcome))
        ensures
            final(self).last_state_name@ == run.state_name@,
            (r.0 is Some) == (run.state_name@ != old(self).last_state_name@),
            (r.0 matches Some(e) ==> e.state_name@ == run.state_name@ && e.state_type@
                == run.state_type@ && e.timestamp@ == display_timestamp_spec(run)),
            (r.1 is Success) == (run.state_type@ == "COMPLETED"@),
            (r.1 is Continue) == !is_terminal_spec(run.state_type@),
            (r.1 matches WatchOutcome::Failed(m) ==> is_terminal_spec(run.state_type@)
                && run.state_type@
                != "COMPLETED"@ && m@ == run.state_name@ + " ("@ + short_id_spec(run.id@) + ")"@),
    {
        let event: Option<WatchEvent> = if !str_eq(
            run.state_name.as_str(),
            self.last_state_name.as_str(),
        ) {
            let timestamp: String = match &run.start_time {
                Some(t) => t.clone(),
                None => {
                    let n = run.id.as_str().unicode_len();
                    if n >= 8 {
                        run.id.as_str().substring_char(0, 8).to_owned()
                    } else {
                        let mut dash = String::new();
                        dash.append("-");
                        proof {
                            reveal_strlit("-");
                            assert(dash@ =~= seq!['-']);
                        }
                        dash
                    }
                },
            };
            Some(
                WatchEvent {
                    state_name: run.state_name.clone(),
                    state_type: run.state_type.clone(),
                    timestamp,
                },
            )
        } else {
            None
        };
        self.last_state_name = run.state_name.clone();
        let outcome = if run.is_terminal() {
            if run.is_success() {
                WatchOutcome::Success
            } else {
                let mut m = run.state_name.clone();
                m.append(" (");
                m.append(run.short_id());
                m.append(")");
                proof {
                    assert(m@ =~= run.state_name@ + " ("@ + short_id_spec(run.id@) + ")"@);
                }
                WatchOutcome::Failed(m)
            }
        } else {
            WatchOutcome::Continue
        };
        (event, outcome)
    }
}

/// The fixed number of seconds the loop suspends between polls.
pub const POLL_INTERVAL_SECS: u64 = 3;

} // verus!
