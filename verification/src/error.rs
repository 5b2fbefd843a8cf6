//! The closed error taxonomy: every fallible operation of the library
//! declares exactly which of these it can produce.
use vstd::prelude::*;
use vstd::string::*;

verus! {

/// Every failure the library reports.
#[derive(Debug)]
pub enum PfpError {
    /// The server answered outside the 2xx range: status and body.
    Api(String),
    /// The transport failed before any response arrived.
    Http(String),
    /// Unusable configuration.
    Config(String),
    /// The selected profile names no API URL.
    NoApiUrl,
    /// No authentication string was provided.
    NoAuth,
    /// Resolution found no candidate.
    NoMatch(String),
    /// Resolution found two or more candidates; carries their rendering.
    AmbiguousMatch { query: String, candidates: String },
    /// A watched run reached a terminal state other than success.
    FlowRunFailed(String),
}

impl PfpError {
    /// Exit status: 1 when the orchestrated work itself failed, 2 when the
    /// client could not even ask.
    pub fn exit_code(&self) -> (r: i32)
        ensures
            r == if self is FlowRunFailed {
                1int
            } else {
                2int
            },
    {
        match self {
            PfpError::FlowRunFailed(_) => 1,
            _ => 2,
        }
    }

    /// The rendered message, character by character.
    pub open spec fn message_spec(&self) -> Seq<char> {
        match self {
            PfpError::Api(s) => "API error: "@ + s@,
            PfpError::Http(s) => "HTTP error: "@ + s@,
            PfpError::Config(s) => "Config error: "@ + s@,
            PfpError::NoApiUrl => "No PREFECT_API_URL found in profile"@,
            PfpError::NoAuth => "No PREFECT_API_AUTH_STRING found in environment"@,
            PfpError::NoMatch(s) => "No match: "@ + s@,
            PfpError::AmbiguousMatch { query, candidates } => "Ambiguous match '"@ + query@
                + "', candidates:\n"@ + candidates@,
            PfpError::FlowRunFailed(s) => "Flow run failed: "@ + s@,
        }
    }

    /// The human-readable message.
    pub fn message(&self) -> (r: String)
        ensures
            r@ == self.message_spec(),
    {
        let mut m = String::new();
        match self {
            PfpError::Api(s) => {
                m.append("API error: ");
                m.append(s.as_str());
            },
            PfpError::Http(s) => {
                m.append("HTTP error: ");
                m.append(s.as_str());
            },
            PfpError::Config(s) => {
                m.append("Config error: ");
                m.append(s.as_str());
            },
            PfpError::NoApiUrl => {
                m.append("No PREFECT_API_URL found in profile");
            },
            PfpError::NoAuth => {
                m.append("No PREFECT_API_AUTH_STRING found in environment");
            },
            PfpError::NoMatch(s) => {
                m.append("No match: ");
                m.append(s.as_str());
            },
            PfpError::AmbiguousMatch { query, candidates } => {
                m.append("Ambiguous match '");
                m.append(query.as_str());
                m.append("', candidates:\n");
                m.append(candidates.as_str());
            },
            PfpError::FlowRunFailed(s) => {
                m.append("Flow run failed: ");
                m.append(s.as_str());
            },
        }
        proof {
            assert(m@ =~= self.message_spec());
        }
        m
    }
}

} // verus!
