//! Resolution of a usable client configuration from already-read inputs:
//! the environment's API URL if set, else the active profile's; and a Basic
//! authorization header from the raw auth string.
use vstd::prelude::*;
use vstd::string::*;
use vstd::string::StringSliceAdditionalSpecFns;
use base64::Engine;
use crate::error::PfpError;
use crate::strutil::str_eq;

verus! {

/// A resolved, validated configuration; the transport is built from it.
#[derive(Debug)]
pub struct Config {
    pub api_url: String,
    pub auth_header: String,
}

/// One named profile's settings, already read from disk elsewhere.
#[derive(Debug)]
pub struct Profile {
    pub api_url: Option<String>,
}

/// The profiles file's content, as plain values.
#[derive(Debug)]
pub struct Profiles {
    pub active: Option<String>,
    pub entries: Vec<(String, Profile)>,
}

/// The profile name to use: the declared active one, or `default`.
pub open spec fn active_name(p: &Profiles) -> Seq<char> {
    match p.active {
        Some(a) => a@,
        None => "default"@,
    }
}

/// The first profile under the given name.
pub open spec fn find_profile(entries: Seq<(String, Profile)>, name: Seq<char>) -> Option<Profile>
    decreases entries.len(),
{
    if entries.len() == 0 {
        None
    } else if entries[0].0@ == name {
        Some(entries[0].1)
    } else {
        find_profile(entries.drop_first(), name)
    }
}

/// What `resolve_api_url` returns, case by case.
pub open spec fn api_url_ok(
    env_url: Option<String>,
    profiles: &Profiles,
    r: Result<String, PfpError>,
) -> bool {
    match env_url {
        Some(u) => r matches Ok(res) && res@ == u@,
        None => match find_profile(profiles.entries@, active_name(profiles)) {
            None => r matches Err(PfpError::Config(m)) && m@ == "Profile '"@ + active_name(
                profiles,
            ) + "' not found"@,
            Some(prof) => match prof.api_url {
                None => r is Err && r->Err_0 is NoApiUrl,
                Some(u) => r matches Ok(res) && res@ == u@,
            },
        },
    }
}

/// Pick the API URL: an environment override wins; otherwise the active
/// profile must exist and name one.
#[verifier::loop_isolation(false)]
pub fn resolve_api_url(env_url: Option<String>, profiles: &Profiles) -> (r: Result<
    String,
    PfpError,
>)
    ensures
        api_url_ok(env_url, profiles, r),
{
    if let Some(u) = env_url {
        return Ok(u);
    }
    let active: &str = match &profiles.active {
        Some(a) => a.as_str(),
        None => "default",
    };
    let mut i: usize = 0;
    while i < profiles.entries.len()
        invariant
            active@ == active_name(profiles),
            i <= profiles.entries@.len(),
            forall|j: int| 0 <= j < i ==> (#[trigger] profiles.entries@[j]).0@ != active@,
        decreases profiles.entries@.len() - i,
    {
        if str_eq(profiles.entries[i].0.as_str(), active) {
            proof {
                lemma_find_profile_at(profiles.entries@, active@, i as int);
            }
            match &profiles.entries[i].1.api_url {
                Some(u) => {
                    return Ok(u.clone());
                },
                None => {
                    return Err(PfpError::NoApiUrl);
                },
            }
        }
        i = i + 1;
    }
    proof {
        lemma_find_profile_absent(profiles.entries@, active@);
    }
    let mut m = String::new();
    m.append("Profile '");
    m.append(active);
    m.append("' not found");
    proof {
        assert(m@ =~= "Profile '"@ + active_name(profiles) + "' not found"@);
    }
    Err(PfpError::Config(m))
}

proof fn lemma_find_profile_at(entries: Seq<(String, Profile)>, name: Seq<char>, i: int)
    requires
        0 <= i < entries.len(),
        entries[i].0@ == name,
        forall|j: int| 0 <= j < i ==> (#[trigger] entries[j]).0@ != name,
    ensures
        find_profile(entries, name) == Some(entries[i].1),
    decreases i,
{
    if i > 0 {
        assert(forall|j: int|
            0 <= j < i - 1 ==> (#[trigger] entries.drop_first()[j]).0@ != name);
        lemma_find_profile_at(entries.drop_first(), name, i - 1);
    }
}

proof fn lemma_find_profile_absent(entries: Seq<(String, Profile)>, name: Seq<char>)
    requires
        forall|j: int| 0 <= j < entries.len() ==> (#[trigger] entries[j]).0@ != name,
    ensures
        find_profile(entries, name) is None,
    decreases entries.len(),
{
    if entries.len() > 0 {
        assert(forall|j: int|
            0 <= j < entries.drop_first().len() ==> (#[trigger] entries.drop_first()[j]).0@
                != name);
        lemma_find_profile_absent(entries.drop_first(), name);
    }
}

/// The base64 text of a byte string, standard alphabet with padding: it
/// depends on the bytes alone.
pub uninterp spec fn base64_std(bytes: Seq<u8>) -> Seq<char>;

/// Relies on the STANDARD engine's encode of the base64 crate: RFC 4648
/// base64 with the standard alphabet and padding, a function of the input
/// bytes alone.
#[verifier::external_body]
fn base64_encode(bytes: &[u8]) -> (r: String)
    ensures
        r@ == base64_std(bytes@),
{
    base64::engine::general_purpose::STANDARD.encode(bytes)
}

/// The Basic authorization header that `resolve_auth` builds.
pub open spec fn auth_header_spec(auth: &str) -> Seq<char> {
    "Basic "@ + base64_std(auth.spec_bytes())
}

/// Encode the raw auth string as a Basic authorization header; without one,
/// the configuration is unusable.
pub fn resolve_auth(auth_string: Option<&str>) -> (r: Result<String, PfpError>)
    ensures
        match auth_string {
            Some(s) => r matches Ok(h) && h@ == auth_header_spec(s),
            None => r is Err && r->Err_0 is NoAuth,
        },
{
    match auth_string {
        None => Err(PfpError::NoAuth),
        Some(s) => {
            let encoded = base64_encode(s.as_bytes());
            let mut h = String::new();
            h.append("Basic ");
            h.append(encoded.as_str());
            proof {
                assert(h@ =~= auth_header_spec(s));
            }
            Ok(h)
        },
    }
}

impl Config {
    /// Combine the resolved API URL and auth header; the first failure
    /// propagates.
    pub fn load(env_url: Option<String>, profiles: &Profiles, auth_string: Option<&str>) -> (r:
        Result<Config, PfpError>)
        ensures
            r matches Ok(c) ==> api_url_ok(env_url, profiles, Ok(c.api_url)) && (
            auth_string matches Some(s) && c.auth_header@ == auth_header_spec(s)),
            r matches Err(e) ==> api_url_ok(env_url, profiles, Err(e)) || (auth_string is None
                && e is NoAuth),
    {
        let api_url = match resolve_api_url(env_url, profiles) {
            Ok(u) => u,
            Err(e) => {
                return Err(e);
            },
        };
        let auth_header = match resolve_auth(auth_string) {
            Ok(h) => h,
            Err(e) => {
                return Err(e);
            },
        };
        Ok(Config { api_url, auth_header })
    }
}

} // verus!
