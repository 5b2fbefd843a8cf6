//! The plain records the client works over: deployments, flow runs, and log
//! entries, with their display helpers.
use vstd::prelude::*;
use vstd::string::*;
use crate::numtext::dec_str;
use crate::numtext::u64_to_dec;
use crate::params::ParamValue;
use crate::strutil::str_eq;

verus! {

/// A named, schedulable configuration of a workflow.
#[derive(Debug)]
pub struct Deployment {
    pub id: String,
    pub name: String,
    pub flow_name: String,
    pub description: Option<String>,
    pub paused: bool,
    pub work_pool_name: Option<String>,
    pub tags: Vec<String>,
    pub parameters: ParamValue,
}

/// The compound human-facing identity of a deployment.
pub open spec fn full_name_spec(d: &Deployment) -> Seq<char> {
    d.flow_name@ + seq!['/'] + d.name@
}

impl Deployment {
    /// `flow_name/name`, the sole identity used for matching and display.
    pub fn full_name(&self) -> (r: String)
        ensures
            r@ == full_name_spec(self),
    {
        let mut s = String::new();
        s.append(self.flow_name.as_str());
        s.append("/");
        s.append(self.name.as_str());
        proof {
            reveal_strlit("/");
            assert(s@ =~= full_name_spec(self));
        }
        s
    }

    /// `paused` or `active`.
    pub fn status_str(&self) -> (r: &'static str)
        ensures
            self.paused ==> r@ == "paused"@,
            !self.paused ==> r@ == "active"@,
    {
        if self.paused {
            "paused"
        } else {
            "active"
        }
    }
}

/// One execution instance of a deployment; the client only observes
/// snapshots of its server-side state machine.
#[derive(Debug)]
pub struct FlowRun {
    pub id: String,
    pub name: String,
    pub state_type: String,
    pub state_name: String,
    pub deployment_id: Option<String>,
    pub start_time: Option<String>,
    pub end_time: Option<String>,
    /// Whole seconds of accumulated run time.
    pub total_run_time: u64,
    pub parameters: ParamValue,
}

/// State types from which no further transition occurs.
pub open spec fn is_terminal_spec(state_type: Seq<char>) -> bool {
    state_type == "COMPLETED"@ || state_type == "FAILED"@ || state_type == "CANCELLED"@
        || state_type == "CRASHED"@
}

/// The first eight characters of an identifier, for compact display.
pub open spec fn short_id_spec(id: Seq<char>) -> Seq<char> {
    if id.len() >= 8 {
        id.subrange(0, 8)
    } else {
        id
    }
}

/// Two-digit zero-padded decimal text.
pub open spec fn dec2_str(n: int) -> Seq<char> {
    if n < 10 {
        seq!['0'] + dec_str(n)
    } else {
        dec_str(n)
    }
}

/// `45s`, or `2m 05s` from one minute on.
pub open spec fn duration_spec(secs: int) -> Seq<char> {
    if secs < 60 {
        dec_str(secs) + seq!['s']
    } else {
        dec_str(secs / 60) + seq!['m', ' '] + dec2_str(secs % 60) + seq!['s']
    }
}

/// The first sixteen characters with the date-time separator blanked, or the
/// whole text when shorter, or a dash placeholder.
pub open spec fn start_time_short_spec(start_time: Option<String>) -> Seq<char> {
    match start_time {
        Some(t) => if t@.len() >= 16 {
            Seq::new(
                16,
                |i: int|
                    if t@[i] == 'T' {
                        ' '
                    } else {
                        t@[i]
                    },
            )
        } else {
            t@
        },
        None => seq!['-'],
    }
}

impl FlowRun {
    /// Whether the observed state type is terminal; unrecognized values are
    /// not.
    pub fn is_terminal(&self) -> (r: bool)
        ensures
            r == is_terminal_spec(self.state_type@),
    {
        str_eq(self.state_type.as_str(), "COMPLETED") || str_eq(self.state_type.as_str(), "FAILED")
            || str_eq(self.state_type.as_str(), "CANCELLED") || str_eq(
            self.state_type.as_str(),
            "CRASHED",
        )
    }

    /// Whether the run ended in success.
    pub fn is_success(&self) -> (r: bool)
        ensures
            r == (self.state_type@ == "COMPLETED"@),
    {
        str_eq(self.state_type.as_str(), "COMPLETED")
    }

    /// Compact rendering of the accumulated run time.
    pub fn duration_str(&self) -> (r: String)
        ensures
            r@ == duration_spec(self.total_run_time as int),
    {
        let secs = self.total_run_time;
        proof {
            reveal_strlit("s");
            reveal_strlit("m ");
            reveal_strlit("0");
            assert("s"@ =~= seq!['s']);
            assert("m "@ =~= seq!['m', ' ']);
            assert("0"@ =~= seq!['0']);
        }
        if secs < 60 {
            let mut s = u64_to_dec(secs);
            s.append("s");
            proof {
                assert(s@ =~= duration_spec(self.total_run_time as int));
            }
            s
        } else {
            let mut s = u64_to_dec(secs / 60);
            s.append("m ");
            let rem = secs % 60;
            if rem < 10 {
                s.append("0");
            }
            let rest = u64_to_dec(rem);
            s.append(rest.as_str());
            s.append("s");
            proof {
                assert(s@ =~= duration_spec(self.total_run_time as int));
            }
            s
        }
    }

    /// The first eight characters of the identifier, or all of a shorter one.
    pub fn short_id(&self) -> (r: &str)
        ensures
            r@ == short_id_spec(self.id@),
    {
        let n = self.id.as_str().unicode_len();
        if n >= 8 {
            self.id.as_str().substring_char(0, 8)
        } else {
            self.id.as_str()
        }
    }

    /// The start time cut to date and minutes, with the separator blanked.
    pub fn start_time_short(&self) -> (r: String)
        ensures
            r@ == start_time_short_spec(self.start_time),
    {
        match &self.start_time {
            Some(t) => {
                let n = t.as_str().unicode_len();
                if n >= 16 {
                    let mut s = String::new();
                    let mut i: usize = 0;
                    while i < 16
                        invariant
                            n == t@.len() >= 16,
                            i <= 16,
                            s@ == start_time_short_spec(Some(*t)).subrange(0, i as int),
                        decreases 16 - i,
                    {
                        let c = t.as_str().get_char(i);
                        if c == 'T' {
                            s.append(" ");
                            proof {
                                reveal_strlit(" ");
                            }
                        } else {
                            let piece = t.as_str().substring_char(i, i + 1);
                            s.append(piece);
                        }
                        proof {
                            assert(s@ =~= start_time_short_spec(Some(*t)).subrange(0, i + 1));
                        }
                        i = i + 1;
                    }
                    proof {
                        assert(start_time_short_spec(Some(*t)).subrange(0, 16) =~= start_time_short_spec(
                            Some(*t),
                        ));
                        assert(start_time_short_spec(self.start_time) == start_time_short_spec(
                            Some(*t),
                        ));
                    }
                    s
                } else {
                    t.clone()
                }
            },
            None => {
                let mut s = String::new();
                s.append("-");
                proof {
                    reveal_strlit("-");
                    assert(s@ =~= seq!['-']);
                }
                s
            },
        }
    }
}

/// One log line: immutable, ordered by timestamp as the server returns them.
#[derive(Debug, Clone)]
pub struct LogEntry {
    pub level: String,
    pub message: String,
    pub timestamp: String,
}

/// A text cut to `max_len` characters, the last three of a cut text being
/// dots.
pub open spec fn truncate_spec(s: Seq<char>, max_len: int) -> Seq<char> {
    if s.len() <= max_len {
        s
    } else {
        s.subrange(0, max_len - 3) + seq!['.', '.', '.']
    }
}

/// Cut a text for a fixed-width column.
pub fn truncate(s: &str, max_len: usize) -> (r: String)
    requires
        s@.len() <= max_len || max_len >= 3,
    ensures
        r@ == truncate_spec(s@, max_len as int),
{
    let n = s.unicode_len();
    if n <= max_len {
        s.to_owned()
    } else {
        let mut r = s.substring_char(0, max_len - 3).to_owned();
        r.append("...");
        proof {
            reveal_strlit("...");
            assert(r@ =~= truncate_spec(s@, max_len as int));
        }
        r
    }
}

} // verus!
