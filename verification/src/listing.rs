//! The deployment listing's combining step: the distinct workflow
//! identifiers of the first fetch feed one batched name lookup, whose
//! results are then written back onto the rows.
use vstd::prelude::*;
use vstd::string::*;
use crate::models::Deployment;
use crate::models::full_name_spec;
use crate::strutil::lemma_lex_le_connex;
use crate::strutil::lemma_lex_le_trans;
use crate::strutil::lex_le;
use crate::strutil::lex_le_str;
use crate::strutil::str_eq;

verus! {

/// Whether `s` occurs among the present identifiers.
pub open spec fn among_ids(ids: Seq<Option<String>>, s: Seq<char>) -> bool {
    exists|j: int| 0 <= j < ids.len() && ((#[trigger] ids[j]) matches Some(t) && t@ == s)
}

/// Whether some element of `v` reads as `s`.
pub open spec fn has_string(v: Seq<String>, s: Seq<char>) -> bool {
    exists|i: int| 0 <= i < v.len() && (#[trigger] v[i])@ == s
}

fn contains_string(v: &Vec<String>, s: &str) -> (r: bool)
    ensures
        r == has_string(v@, s@),
{
    let mut i: usize = 0;
    while i < v.len()
        invariant
            i <= v@.len(),
            forall|j: int| 0 <= j < i ==> (#[trigger] v@[j])@ != s@,
        decreases v@.len() - i,
    {
        if str_eq(v[i].as_str(), s) {
            return true;
        }
        i = i + 1;
    }
    false
}

/// The distinct identifiers among the rows' optional workflow references,
/// in first-occurrence order: one batched lookup is keyed by these, never
/// one per row.
pub fn distinct_ids(ids: &Vec<Option<String>>) -> (r: Vec<String>)
    ensures
        forall|i: int, j: int| 0 <= i < j < r@.len() ==> (#[trigger] r@[i])@ != (#[trigger] r@[j])@,
        forall|i: int| 0 <= i < r@.len() ==> among_ids(ids@, (#[trigger] r@[i])@),
        forall|j: int|
            0 <= j < ids@.len() ==> ((#[trigger] ids@[j]) matches Some(s) ==> has_string(r@, s@)),
{
    let mut out: Vec<String> = Vec::new();
    let mut j: usize = 0;
    while j < ids.len()
        invariant
            j <= ids@.len(),
            forall|a: int, b: int| 0 <= a < b < out@.len() ==> (#[trigger] out@[a])@ != (
            #[trigger] out@[b])@,
            forall|i: int| 0 <= i < out@.len() ==> among_ids(ids@, (#[trigger] out@[i])@),
            forall|k: int|
                0 <= k < j ==> ((#[trigger] ids@[k]) matches Some(s) ==> has_string(out@, s@)),
        decreases ids@.len() - j,
    {
        match &ids[j] {
            Some(s) => {
                if !contains_string(&out, s.as_str()) {
                    let ghost pre = out@;
                    out.push(s.clone());
                    proof {
                        assert(out@[out@.len() - 1]@ == s@);
                        assert forall|a: int, b: int| 0 <= a < b < out@.len() implies (
                        #[trigger] out@[a])@ != (#[trigger] out@[b])@ by {
                            if b == out@.len() - 1 {
                                assert(pre[a]@ != s@);
                            } else {
                                assert(out@[a] == pre[a] && out@[b] == pre[b]);
                            }
                        }
                        assert forall|i: int| 0 <= i < out@.len() implies among_ids(
                            ids@,
                            (#[trigger] out@[i])@,
                        ) by {
                            if i < pre.len() {
                                assert(out@[i] == pre[i]);
                            } else {
                                assert((ids@[j as int]) matches Some(t) && t@ == out@[i]@);
                            }
                        }
                        assert forall|k: int|
                            0 <= k < j + 1 implies ((#[trigger] ids@[k]) matches Some(t)
                            ==> has_string(out@, t@)) by {
                            if ids@[k] is Some {
                                let t = ids@[k]->0;
                                if k < j {
                                    assert(has_string(pre, t@));
                                    let w = choose|w: int|
                                        0 <= w < pre.len() && (#[trigger] pre[w])@ == t@;
                                    assert(out@[w]@ == t@);
                                } else {
                                    assert(out@[out@.len() - 1]@ == t@);
                                }
                            }
                        }
                    }
                }
            },
            None => {},
        }
        j = j + 1;
    }
    out
}

/// The first name paired with the given identifier, if any.
pub open spec fn name_lookup(names: Seq<(String, String)>, id: Seq<char>) -> Option<Seq<char>>
    decreases names.len(),
{
    if names.len() == 0 {
        None
    } else if names[0].0@ == id {
        Some(names[0].1@)
    } else {
        name_lookup(names.drop_first(), id)
    }
}

proof fn lemma_name_lookup_at(names: Seq<(String, String)>, id: Seq<char>, i: int)
    requires
        0 <= i < names.len(),
        names[i].0@ == id,
        forall|j: int| 0 <= j < i ==> (#[trigger] names[j]).0@ != id,
    ensures
        name_lookup(names, id) == Some(names[i].1@),
    decreases i,
{
    if i > 0 {
        assert(forall|j: int| 0 <= j < i - 1 ==> (#[trigger] names.drop_first()[j]).0@ != id);
        lemma_name_lookup_at(names.drop_first(), id, i - 1);
    }
}

proof fn lemma_name_lookup_absent(names: Seq<(String, String)>, id: Seq<char>)
    requires
        forall|j: int| 0 <= j < names.len() ==> (#[trigger] names[j]).0@ != id,
    ensures
        name_lookup(names, id) is None,
    decreases names.len(),
{
    if names.len() > 0 {
        assert(forall|j: int|
            0 <= j < names.drop_first().len() ==> (#[trigger] names.drop_first()[j]).0@ != id);
        lemma_name_lookup_absent(names.drop_first(), id);
    }
}

fn find_name<'a>(names: &'a Vec<(String, String)>, id: &str) -> (r: Option<&'a String>)
    ensures
        match r {
            Some(n) => name_lookup(names@, id@) == Some(n@),
            None => name_lookup(names@, id@) is None,
        },
{
    let mut i: usize = 0;
    while i < names.len()
        invariant
            i <= names@.len(),
            forall|j: int| 0 <= j < i ==> (#[trigger] names@[j]).0@ != id@,
        decreases names@.len() - i,
    {
        if str_eq(names[i].0.as_str(), id) {
            proof {
                lemma_name_lookup_at(names@, id@, i as int);
            }
            return Some(&names[i].1);
        }
        i = i + 1;
    }
    proof {
        lemma_name_lookup_absent(names@, id@);
    }
    None
}

/// The workflow name a row ends up with.
pub open spec fn applied_name(
    before: Seq<char>,
    id: Option<String>,
    names: Seq<(String, String)>,
) -> Seq<char> {
    match id {
        Some(fid) => match name_lookup(names, fid@) {
            Some(n) => n,
            None => before,
        },
        None => before,
    }
}

/// Write each row's workflow name from the batched lookup results; rows
/// whose reference is missing or unknown keep what they had. Everything
/// else about every row is unchanged.
#[verifier::loop_isolation(false)]
pub fn apply_flow_names(
    deps: &mut Vec<Deployment>,
    ids: &Vec<Option<String>>,
    names: &Vec<(String, String)>,
)
    requires
        old(deps)@.len() == ids@.len(),
    ensures
        final(deps)@.len() == old(deps)@.len(),
        forall|i: int|
            0 <= i < final(deps)@.len() ==> {
                let d0 = #[trigger] old(deps)@[i];
                let d1 = final(deps)@[i];
                d1.id == d0.id && d1.name == d0.name && d1.description == d0.description
                    && d1.paused == d0.paused && d1.work_pool_name == d0.work_pool_name && d1.tags
                    == d0.tags && d1.parameters == d0.parameters && d1.flow_name@ == applied_name(
                    d0.flow_name@,
                    ids@[i],
                    names@,
                )
            },
{
    let mut i: usize = 0;
    while i < deps.len()
        invariant
            deps@.len() == old(deps)@.len(),
            i <= deps@.len(),
            forall|k: int| i <= k < deps@.len() ==> #[trigger] deps@[k] == old(deps)@[k],
            forall|k: int|
                0 <= k < i ==> {
                    let d0 = #[trigger] old(deps)@[k];
                    let d1 = deps@[k];
                    d1.id == d0.id && d1.name == d0.name && d1.description == d0.description
                        && d1.paused == d0.paused && d1.work_pool_name == d0.work_pool_name
                        && d1.tags == d0.tags && d1.parameters == d0.parameters && d1.flow_name@
                        == applied_name(d0.flow_name@, ids@[k], names@)
                },
        decreases deps@.len() - i,
    {
        let looked: Option<String> = match &ids[i] {
            Some(fid) => match find_name(names, fid.as_str()) {
                Some(n) => Some(n.clone()),
                None => None,
            },
            None => None,
        };
        if let Some(n) = looked {
            let mut d = deps.remove(i);
            d.flow_name = n;
            deps.insert(i, d);
        }
        i = i + 1;
    }
}


/// Listing rows in ascending order of their full names.
pub open spec fn sorted_by_full_name(s: Seq<Deployment>) -> bool {
    forall|x: int, y: int|
        0 <= x < y < s.len() ==> lex_le(
            full_name_spec(&(#[trigger] s[x])),
            full_name_spec(&(#[trigger] s[y])),
        )
}

/// Sort a listing by full name, ascending: the result is a permutation of
/// the input in lexicographic display order.
#[verifier::loop_isolation(false)]
pub fn sort_deployments(deps: Vec<Deployment>) -> (r: Vec<Deployment>)
    ensures
        sorted_by_full_name(r@),
        r@.to_multiset() == deps@.to_multiset(),
{
    broadcast use vstd::seq_lib::group_to_multiset_ensures;

    let mut remaining = deps;
    let mut out: Vec<Deployment> = Vec::new();
    proof {
        assert(out@.to_multiset().add(remaining@.to_multiset()) =~= deps@.to_multiset());
    }
    while remaining.len() > 0
        invariant
            out@.to_multiset().add(remaining@.to_multiset()) == deps@.to_multiset(),
            sorted_by_full_name(out@),
            forall|x: int, y: int|
                0 <= x < out@.len() && 0 <= y < remaining@.len() ==> lex_le(
                    full_name_spec(&(#[trigger] out@[x])),
                    full_name_spec(&(#[trigger] remaining@[y])),
                ),
        decreases remaining@.len(),
    {
        let mut m: usize = 0;
        let mut i: usize = 1;
        proof {
            lemma_lex_le_connex(
                full_name_spec(&remaining@[0]),
                full_name_spec(&remaining@[0]),
            );
        }
        while i < remaining.len()
            invariant
                m < i <= remaining@.len(),
                forall|y: int|
                    0 <= y < i ==> lex_le(
                        full_name_spec(&remaining@[m as int]),
                        full_name_spec(&(#[trigger] remaining@[y])),
                    ),
            decreases remaining@.len() - i,
        {
            let a = remaining[m].full_name();
            let b = remaining[i].full_name();
            if !lex_le_str(a.as_str(), b.as_str()) {
                proof {
                    lemma_lex_le_connex(
                        full_name_spec(&remaining@[m as int]),
                        full_name_spec(&remaining@[i as int]),
                    );
                    assert forall|y: int| 0 <= y < i + 1 implies lex_le(
                        full_name_spec(&remaining@[i as int]),
                        full_name_spec(&(#[trigger] remaining@[y])),
                    ) by {
                        if y < i {
                            lemma_lex_le_trans(
                                full_name_spec(&remaining@[i as int]),
                                full_name_spec(&remaining@[m as int]),
                                full_name_spec(&remaining@[y]),
                            );
                        } else {
                            lemma_lex_le_connex(
                                full_name_spec(&remaining@[i as int]),
                                full_name_spec(&remaining@[i as int]),
                            );
                        }
                    }
                }
                m = i;
            } else {
                proof {
                    lemma_lex_le_connex(
                        full_name_spec(&remaining@[i as int]),
                        full_name_spec(&remaining@[i as int]),
                    );
                }
            }
            i = i + 1;
        }
        let ghost pre_rem = remaining@;
        let ghost pre_out = out@;
        let chosen = remaining.remove(m);
        out.push(chosen);
        proof {
            assert(remaining@.to_multiset() =~= pre_rem.to_multiset().remove(pre_rem[m as int]));
            assert(out@.to_multiset() =~= pre_out.to_multiset().insert(pre_rem[m as int]));
            assert(pre_rem.to_multiset().contains(pre_rem[m as int])) by {
                assert(pre_rem.contains(pre_rem[m as int]));
            }
            assert(out@.to_multiset().add(remaining@.to_multiset()) =~= deps@.to_multiset());
            assert forall|x: int, y: int|
                0 <= x < out@.len() && 0 <= y < remaining@.len() implies lex_le(
                full_name_spec(&(#[trigger] out@[x])),
                full_name_spec(&(#[trigger] remaining@[y])),
            ) by {
                let fy = if y < m { pre_rem[y] } else { pre_rem[y + 1] };
                assert(remaining@[y] == fy);
                if x < pre_out.len() {
                    assert(out@[x] == pre_out[x]);
                } else {
                    assert(out@[x] == pre_rem[m as int]);
                }
            }
            assert forall|x: int, y: int| 0 <= x < y < out@.len() implies lex_le(
                full_name_spec(&(#[trigger] out@[x])),
                full_name_spec(&(#[trigger] out@[y])),
            ) by {
                if y < pre_out.len() {
                    assert(out@[x] == pre_out[x] && out@[y] == pre_out[y]);
                } else {
                    assert(out@[x] == pre_out[x] && out@[y] == pre_rem[m as int]);
                }
            }
        }
    }
    proof {
        assert(out@.to_multiset().add(remaining@.to_multiset()) =~= out@.to_multiset());
    }
    out
}

} // verus!

