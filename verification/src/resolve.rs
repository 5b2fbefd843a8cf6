//! Entity resolution: an ambiguous human-typed query or identifier prefix
//! becomes exactly one deployment or flow run; zero or several matches are
//! reported deterministically, never guessed among.
use vstd::prelude::*;
use vstd::string::*;
use crate::error::PfpError;
use crate::models::Deployment;
use crate::models::FlowRun;
use crate::models::full_name_spec;
use crate::models::short_id_spec;
use crate::strutil::chars_of;
use crate::strutil::chars_start_with;
use crate::strutil::contains_seq;
use crate::strutil::hyphen_free_chars;
use crate::strutil::is_prefix;
use crate::strutil::str_contains;
use crate::strutil::strip_hyphens;

verus! {

/// A deployment matches when the query occurs anywhere in its full name,
/// case-sensitively and unanchored.
pub open spec fn dep_matches(d: Deployment, q: Seq<char>) -> bool {
    contains_seq(full_name_spec(&d), q)
}

/// The matching candidates, in listing order.
pub open spec fn dep_match_seq(candidates: Seq<Deployment>, q: Seq<char>) -> Seq<Deployment> {
    candidates.filter(|d: Deployment| dep_matches(d, q))
}

/// The ordered, newline-joined, two-space-indented rendering of the lines.
pub open spec fn candidate_lines(lines: Seq<Seq<char>>) -> Seq<char>
    decreases lines.len(),
{
    if lines.len() == 0 {
        Seq::empty()
    } else if lines.len() == 1 {
        seq![' ', ' '] + lines[0]
    } else {
        candidate_lines(lines.drop_last()) + seq!['\n', ' ', ' '] + lines.last()
    }
}

/// Resolve a query to the single deployment whose full name contains it.
#[verifier::loop_isolation(false)]
#[verifier::rlimit(60)]
pub fn resolve_deployment(query: &str, candidates: Vec<Deployment>) -> (r: Result<
    Deployment,
    PfpError,
>)
    ensures
        ({
            let ms = dep_match_seq(candidates@, query@);
            &&& (r is Ok <==> ms.len() == 1)
            &&& (ms.len() == 1 ==> (r matches Ok(d) && d == ms[0]))
            &&& (ms.len() == 0 ==> (r matches Err(PfpError::NoMatch(m)) && m@
                == "no deployment matching '"@ + query@ + "'"@))
            &&& (ms.len() >= 2 ==> (r matches Err(PfpError::AmbiguousMatch { query: q, candidates: c })
                && q@ == query@ && c@ == candidate_lines(
                ms.map_values(|d: Deployment| full_name_spec(&d)),
            )))
        }),
{
    let mut count: usize = 0;
    let mut first: usize = 0;
    let mut i: usize = 0;
    proof {
        assert(candidates@.subrange(0, 0) =~= Seq::<Deployment>::empty());
    }
    while i < candidates.len()
        invariant
            i <= candidates@.len(),
            count == dep_match_seq(candidates@.subrange(0, i as int), query@).len(),
            count > 0 ==> first < i && dep_match_seq(candidates@.subrange(0, i as int), query@)[0]
                == candidates@[first as int],
        decreases candidates@.len() - i,
    {
        proof {
            assert(candidates@.subrange(0, i + 1).drop_last() =~= candidates@.subrange(
                0,
                i as int,
            ));
            reveal_with_fuel(Seq::filter, 2);
        }
        let fname = candidates[i].full_name();
        if str_contains(fname.as_str(), query) {
            if count == 0 {
                first = i;
            }
            count = count + 1;
        }
        i = i + 1;
    }
    proof {
        assert(candidates@.subrange(0, candidates@.len() as int) =~= candidates@);
    }
    let ghost ms = dep_match_seq(candidates@, query@);
    if count == 0 {
        let mut m = String::new();
        m.append("no deployment matching '");
        m.append(query);
        m.append("'");
        proof {
            assert(m@ =~= "no deployment matching '"@ + query@ + "'"@);
        }
        Err(PfpError::NoMatch(m))
    } else if count == 1 {
        let mut candidates = candidates;
        let d = candidates.remove(first);
        Ok(d)
    } else {
        let mut text = String::new();
        let mut built: usize = 0;
        let mut j: usize = 0;
        proof {
            assert(candidates@.subrange(0, 0) =~= Seq::<Deployment>::empty());
            assert(text@ =~= candidate_lines(
                dep_match_seq(candidates@.subrange(0, 0), query@).map_values(
                    |d: Deployment| full_name_spec(&d),
                ),
            ));
        }
        while j < candidates.len()
            invariant
                j <= candidates@.len(),
                built == dep_match_seq(candidates@.subrange(0, j as int), query@).len(),
                text@ == candidate_lines(
                    dep_match_seq(candidates@.subrange(0, j as int), query@).map_values(
                        |d: Deployment| full_name_spec(&d),
                    ),
                ),
            decreases candidates@.len() - j,
        {
            proof {
                assert(candidates@.subrange(0, j + 1).drop_last() =~= candidates@.subrange(
                    0,
                    j as int,
                ));
                reveal_with_fuel(Seq::filter, 2);
            }
            let fname = candidates[j].full_name();
            if str_contains(fname.as_str(), query) {
                if built == 0 {
                    text.append("  ");
                } else {
                    text.append("\n  ");
                }
                text.append(fname.as_str());
                built = built + 1;
                proof {
                    reveal_strlit("  ");
                    reveal_strlit("\n  ");
                    let pre = dep_match_seq(candidates@.subrange(0, j as int), query@);
                    let now = dep_match_seq(candidates@.subrange(0, j + 1), query@);
                    assert(now == pre.push(candidates@[j as int]));
                    assert(now.map_values(|d: Deployment| full_name_spec(&d)) =~= pre.map_values(
                        |d: Deployment| full_name_spec(&d),
                    ).push(full_name_spec(&candidates@[j as int])));
                    assert(now.map_values(|d: Deployment| full_name_spec(&d)).drop_last()
                        =~= pre.map_values(|d: Deployment| full_name_spec(&d)));
                    assert(now.map_values(|d: Deployment| full_name_spec(&d)).last()
                        == full_name_spec(&candidates@[j as int]));
                    assert(text@ =~= candidate_lines(
                        now.map_values(|d: Deployment| full_name_spec(&d)),
                    ));
                }
            } else {
                proof {
                    assert(dep_match_seq(candidates@.subrange(0, j + 1), query@) == dep_match_seq(
                        candidates@.subrange(0, j as int),
                        query@,
                    ));
                }
            }
            j = j + 1;
        }
        proof {
            assert(candidates@.subrange(0, candidates@.len() as int) =~= candidates@);
        }
        Err(
            PfpError::AmbiguousMatch {
                query: query.to_owned(),
                candidates: text,
            },
        )
    }
}

/// A hexadecimal digit, either case.
pub open spec fn is_hex_digit(c: char) -> bool {
    (48 <= c as u32 <= 57) || (97 <= c as u32 <= 102) || (65 <= c as u32 <= 70)
}

/// A complete identifier: exactly 32 hexadecimal characters once hyphens
/// are stripped.
pub open spec fn is_full_uuid_spec(s: Seq<char>) -> bool {
    strip_hyphens(s).len() == 32 && forall|i: int|
        0 <= i < strip_hyphens(s).len() ==> is_hex_digit(#[trigger] strip_hyphens(s)[i])
}

/// Whether the input is a complete identifier, with or without hyphens.
pub fn is_full_uuid(input: &str) -> (r: bool)
    ensures
        r == is_full_uuid_spec(input@),
{
    let hex_only = hyphen_free_chars(input);
    if hex_only.len() != 32 {
        return false;
    }
    let mut i: usize = 0;
    while i < hex_only.len()
        invariant
            hex_only@ == strip_hyphens(input@),
            hex_only@.len() == 32,
            i <= 32,
            forall|j: int| 0 <= j < i ==> is_hex_digit(#[trigger] hex_only@[j]),
        decreases hex_only@.len() - i,
    {
        let cv = hex_only[i] as u32;
        let ok = (48 <= cv && cv <= 57) || (97 <= cv && cv <= 102) || (65 <= cv && cv <= 70);
        if !ok {
            return false;
        }
        i = i + 1;
    }
    true
}

/// A flow run matches when the input is a prefix of its identifier, taken
/// as given or with hyphens stripped.
pub open spec fn run_matches(fr: FlowRun, q: Seq<char>) -> bool {
    is_prefix(q, fr.id@) || is_prefix(q, strip_hyphens(fr.id@))
}

/// The matching runs, in listing order.
pub open spec fn run_match_seq(runs: Seq<FlowRun>, q: Seq<char>) -> Seq<FlowRun> {
    runs.filter(|fr: FlowRun| run_matches(fr, q))
}

/// One candidate line: the short identifier and the current state label.
pub open spec fn run_line(fr: FlowRun) -> Seq<char> {
    short_id_spec(fr.id@) + " ("@ + fr.state_name@ + ")"@
}

/// Resolve user input to one flow run identifier: a complete identifier is
/// returned as given without consulting the listing; otherwise it is an
/// identifier prefix to match among the runs.
#[verifier::loop_isolation(false)]
#[verifier::rlimit(60)]
pub fn resolve_flow_run(input: &str, runs: &Vec<FlowRun>) -> (r: Result<String, PfpError>)
    ensures
        is_full_uuid_spec(input@) ==> (r matches Ok(s) && s@ == input@),
        !is_full_uuid_spec(input@) ==> ({
            let ms = run_match_seq(runs@, input@);
            &&& (r is Ok <==> ms.len() == 1)
            &&& (ms.len() == 1 ==> (r matches Ok(s) && s@ == ms[0].id@))
            &&& (ms.len() == 0 ==> (r matches Err(PfpError::NoMatch(m)) && m@
                == "no flow run matching '"@ + input@ + "'"@))
            &&& (ms.len() >= 2 ==> (r matches Err(PfpError::AmbiguousMatch { query: q, candidates: c })
                && q@ == input@ && c@ == candidate_lines(ms.map_values(|fr: FlowRun| run_line(fr)))))
        }),
{
    if is_full_uuid(input) {
        return Ok(input.to_owned());
    }
    let qc = chars_of(input);
    let mut count: usize = 0;
    let mut first: usize = 0;
    let mut i: usize = 0;
    proof {
        assert(runs@.subrange(0, 0) =~= Seq::<FlowRun>::empty());
    }
    while i < runs.len()
        invariant
            qc@ == input@,
            i <= runs@.len(),
            count == run_match_seq(runs@.subrange(0, i as int), input@).len(),
            count > 0 ==> first < i && run_match_seq(runs@.subrange(0, i as int), input@)[0]
                == runs@[first as int],
        decreases runs@.len() - i,
    {
        proof {
            assert(runs@.subrange(0, i + 1).drop_last() =~= runs@.subrange(0, i as int));
            reveal_with_fuel(Seq::filter, 2);
        }
        let rc = chars_of(runs[i].id.as_str());
        let hc = hyphen_free_chars(runs[i].id.as_str());
        if chars_start_with(&rc, &qc) || chars_start_with(&hc, &qc) {
            if count == 0 {
                first = i;
            }
            count = count + 1;
        }
        i = i + 1;
    }
    proof {
        assert(runs@.subrange(0, runs@.len() as int) =~= runs@);
    }
    if count == 0 {
        let mut m = String::new();
        m.append("no flow run matching '");
        m.append(input);
        m.append("'");
        proof {
            assert(m@ =~= "no flow run matching '"@ + input@ + "'"@);
        }
        Err(PfpError::NoMatch(m))
    } else if count == 1 {
        Ok(runs[first].id.clone())
    } else {
        let mut text = String::new();
        let mut built: usize = 0;
        let mut j: usize = 0;
        proof {
            assert(runs@.subrange(0, 0) =~= Seq::<FlowRun>::empty());
            assert(text@ =~= candidate_lines(
                run_match_seq(runs@.subrange(0, 0), input@).map_values(|fr: FlowRun| run_line(fr)),
            ));
        }
        while j < runs.len()
            invariant
                qc@ == input@,
                j <= runs@.len(),
                built == run_match_seq(runs@.subrange(0, j as int), input@).len(),
                text@ == candidate_lines(
                    run_match_seq(runs@.subrange(0, j as int), input@).map_values(
                        |fr: FlowRun| run_line(fr),
                    ),
                ),
            decreases runs@.len() - j,
        {
            proof {
                assert(runs@.subrange(0, j + 1).drop_last() =~= runs@.subrange(0, j as int));
                reveal_with_fuel(Seq::filter, 2);
            }
            let rc = chars_of(runs[j].id.as_str());
            let hc = hyphen_free_chars(runs[j].id.as_str());
            if chars_start_with(&rc, &qc) || chars_start_with(&hc, &qc) {
                if built == 0 {
                    text.append("  ");
                } else {
                    text.append("\n  ");
                }
                text.append(runs[j].short_id());
                text.append(" (");
                text.append(runs[j].state_name.as_str());
                text.append(")");
                built = built + 1;
                proof {
                    reveal_strlit("  ");
                    reveal_strlit("\n  ");
                    let pre = run_match_seq(runs@.subrange(0, j as int), input@);
                    let now = run_match_seq(runs@.subrange(0, j + 1), input@);
                    assert(now == pre.push(runs@[j as int]));
                    assert(now.map_values(|fr: FlowRun| run_line(fr)) =~= pre.map_values(
                        |fr: FlowRun| run_line(fr),
                    ).push(run_line(runs@[j as int])));
                    assert(now.map_values(|fr: FlowRun| run_line(fr)).drop_last()
                        =~= pre.map_values(|fr: FlowRun| run_line(fr)));
                    assert(now.map_values(|fr: FlowRun| run_line(fr)).last() == run_line(
                        runs@[j as int],
                    ));
                    assert(text@ =~= candidate_lines(now.map_values(|fr: FlowRun| run_line(fr))));
                }
            } else {
                proof {
                    assert(run_match_seq(runs@.subrange(0, j + 1), input@) == run_match_seq(
                        runs@.subrange(0, j as int),
                        input@,
                    ));
                }
            }
            j = j + 1;
        }
        proof {
            assert(runs@.subrange(0, runs@.len() as int) =~= runs@);
        }
        Err(
            PfpError::AmbiguousMatch {
                query: input.to_owned(),
                candidates: text,
            },
        )
    }
}

} // verus!
