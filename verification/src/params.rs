//! Parameter trees and their composition: typed parsing of `key.path=value`
//! assignments, nested insertion, and deep merging of override trees over
//! deployment defaults.
use vstd::prelude::*;
use vstd::string::*;

verus! {

broadcast use vstd::std_specs::vec::axiom_vec_index_decreases, vstd::std_specs::vec::axiom_vec_decreases_to_view, vstd::seq::axiom_seq_index_decreases;

/// A JSON-like parameter value. Objects keep their entries in insertion
/// order; a float is carried as the verbatim text it was read from, since
/// its numeric value is never inspected here.
#[derive(Debug)]
pub enum ParamValue {
    Null,
    Bool(bool),
    Int(i64),
    Float(String),
    Text(String),
    Arr(Vec<ParamValue>),
    Obj(Vec<(String, ParamValue)>),
}

/// The mathematical shape of a parameter value.
#[verifier::ext_equal]
pub enum Pv {
    Null,
    Bool(bool),
    Int(int),
    Float(Seq<char>),
    Text(Seq<char>),
    Arr(Seq<Pv>),
    Obj(Seq<(Seq<char>, Pv)>),
}

/// The views of a sequence of values, element by element.
pub open spec fn seq_pv(items: Seq<ParamValue>) -> Seq<Pv>
    decreases items,
{
    Seq::new(
        items.len(),
        |i: int|
            if 0 <= i < items.len() {
                items[i]@
            } else {
                Pv::Null
            },
    )
}

/// The views of a sequence of object entries, element by element.
pub open spec fn seq_entries(entries: Seq<(String, ParamValue)>) -> Seq<(Seq<char>, Pv)>
    decreases entries,
{
    Seq::new(
        entries.len(),
        |i: int|
            if 0 <= i < entries.len() {
                (entries[i].0@, entries[i].1@)
            } else {
                (Seq::empty(), Pv::Null)
            },
    )
}

impl View for ParamValue {
    type V = Pv;

    open spec fn view(&self) -> Pv
        decreases self,
    {
        match self {
            ParamValue::Null => Pv::Null,
            ParamValue::Bool(b) => Pv::Bool(*b),
            ParamValue::Int(i) => Pv::Int(*i as int),
            ParamValue::Float(s) => Pv::Float(s@),
            ParamValue::Text(s) => Pv::Text(s@),
            ParamValue::Arr(items) => Pv::Arr(seq_pv(items@)),
            ParamValue::Obj(entries) => Pv::Obj(seq_entries(entries@)),
        }
    }
}

impl ParamValue {
    /// A structure-preserving copy.
    #[verifier::loop_isolation(false)]
    pub fn deep_copy(&self) -> (r: ParamValue)
        ensures
            r@ == self@,
        decreases self,
    {
        match self {
            ParamValue::Null => ParamValue::Null,
            ParamValue::Bool(b) => ParamValue::Bool(*b),
            ParamValue::Int(i) => ParamValue::Int(*i),
            ParamValue::Float(s) => ParamValue::Float(s.clone()),
            ParamValue::Text(s) => ParamValue::Text(s.clone()),
            ParamValue::Arr(items) => {
                let mut out: Vec<ParamValue> = Vec::new();
                let mut i: usize = 0;
                while i < items.len()
                    invariant
                        i <= items@.len(),
                        out@.len() == i,
                        forall|j: int| 0 <= j < i ==> out@[j]@ == items@[j]@,
                    decreases items@.len() - i,
                {
                    out.push(items[i].deep_copy());
                    i = i + 1;
                }
                proof {
                    assert(seq_pv(out@) =~= seq_pv(items@));
                }
                ParamValue::Arr(out)
            },
            ParamValue::Obj(entries) => {
                let mut out: Vec<(String, ParamValue)> = Vec::new();
                let mut i: usize = 0;
                while i < entries.len()
                    invariant
                        i <= entries@.len(),
                        out@.len() == i,
                        forall|j: int|
                            0 <= j < i ==> out@[j].0@ == entries@[j].0@ && out@[j].1@
                                == entries@[j].1@,
                    decreases entries@.len() - i,
                {
                    let k = entries[i].0.clone();
                    let v = entries[i].1.deep_copy();
                    out.push((k, v));
                    i = i + 1;
                }
                proof {
                    assert(seq_entries(out@) =~= seq_entries(entries@));
                }
                ParamValue::Obj(out)
            },
        }
    }
}

/// First value stored under key `k`, if any.
pub open spec fn obj_find(entries: Seq<(Seq<char>, Pv)>, k: Seq<char>) -> Option<Pv>
    decreases entries.len(),
{
    if entries.len() == 0 {
        None
    } else if entries[0].0 == k {
        Some(entries[0].1)
    } else {
        obj_find(entries.drop_first(), k)
    }
}

/// Replace the first entry under key `k` in place, or append a new one.
pub open spec fn upsert(entries: Seq<(Seq<char>, Pv)>, k: Seq<char>, v: Pv) -> Seq<
    (Seq<char>, Pv),
>
    decreases entries.len(),
{
    if entries.len() == 0 {
        seq![(k, v)]
    } else if entries[0].0 == k {
        seq![(k, v)] + entries.drop_first()
    } else {
        seq![entries[0]] + upsert(entries.drop_first(), k, v)
    }
}

/// Deep merge: where both sides hold objects the entries are merged key by
/// key; everywhere else the override value wins outright.
pub open spec fn merge_pv(base: Pv, over: Pv) -> Pv
    decreases over,
{
    match (base, over) {
        (Pv::Obj(b), Pv::Obj(o)) => Pv::Obj(merge_entries(b, o)),
        (_, v) => v,
    }
}

/// Fold the override entries into `acc`, left to right.
pub open spec fn merge_entries(
    acc: Seq<(Seq<char>, Pv)>,
    o: Seq<(Seq<char>, Pv)>,
) -> Seq<(Seq<char>, Pv)>
    decreases o,
{
    if o.len() == 0 {
        acc
    } else {
        let k = o[0].0;
        let existing = match obj_find(acc, k) {
            Some(bv) => bv,
            None => Pv::Null,
        };
        merge_entries(upsert(acc, k, merge_pv(existing, o[0].1)), o.drop_first())
    }
}

/// All characters of the path segments, joined by dots.
pub open spec fn join_dots(ps: Seq<Seq<char>>) -> Seq<char>
    decreases ps.len(),
{
    if ps.len() == 0 {
        Seq::empty()
    } else if ps.len() == 1 {
        ps[0]
    } else {
        ps[0] + seq!['.'] + join_dots(ps.drop_first())
    }
}

/// The message reported when an intermediate path segment holds a non-object.
pub open spec fn conflict_msg(path: Seq<Seq<char>>) -> Seq<char> {
    "Conflict: '"@ + path[0] + "' is not an object, cannot set '"@ + join_dots(path.drop_first())
        + "'"@
}

/// Walk `path` into nested objects, creating empty objects for missing
/// intermediate segments, and set the leaf; a non-object intermediate value
/// is a conflict.
pub open spec fn insert_pv(entries: Seq<(Seq<char>, Pv)>, path: Seq<Seq<char>>, v: Pv) -> Result<
    Seq<(Seq<char>, Pv)>,
    Seq<char>,
>
    decreases path.len(),
{
    if path.len() == 0 {
        Err("Empty key path"@)
    } else if path.len() == 1 {
        Ok(upsert(entries, path[0], v))
    } else {
        let sub = match obj_find(entries, path[0]) {
            Some(x) => x,
            None => Pv::Obj(Seq::empty()),
        };
        match sub {
            Pv::Obj(inner) => match insert_pv(inner, path.drop_first(), v) {
                Ok(inner2) => Ok(upsert(entries, path[0], Pv::Obj(inner2))),
                Err(m) => Err(m),
            },
            _ => Err(conflict_msg(path)),
        }
    }
}

/// Follow a key path through nested objects.
pub open spec fn lookup_pv(v: Pv, path: Seq<Seq<char>>) -> Option<Pv>
    decreases path.len(),
{
    if path.len() == 0 {
        Some(v)
    } else {
        match v {
            Pv::Obj(es) => match obj_find(es, path[0]) {
                Some(x) => lookup_pv(x, path.drop_first()),
                None => None,
            },
            _ => None,
        }
    }
}

pub open spec fn distinct_keys(entries: Seq<(Seq<char>, Pv)>) -> bool {
    forall|i: int, j: int|
        0 <= i < j < entries.len() ==> (#[trigger] entries[i]).0 != (#[trigger] entries[j]).0
}

/// Well-formed values: every object's keys are distinct, at every depth.
pub open spec fn wf_pv(v: Pv) -> bool
    decreases v,
{
    match v {
        Pv::Arr(items) => forall|i: int| 0 <= i < items.len() ==> wf_pv(#[trigger] items[i]),
        Pv::Obj(es) => distinct_keys(es) && forall|i: int|
            0 <= i < es.len() ==> wf_pv((#[trigger] es[i]).1),
        _ => true,
    }
}

pub proof fn lemma_obj_find_at(entries: Seq<(Seq<char>, Pv)>, k: Seq<char>, i: int)
    requires
        0 <= i < entries.len(),
        entries[i].0 == k,
        forall|j: int| 0 <= j < i ==> (#[trigger] entries[j]).0 != k,
    ensures
        obj_find(entries, k) == Some(entries[i].1),
    decreases i,
{
    if i > 0 {
        assert(forall|j: int|
            0 <= j < i - 1 ==> (#[trigger] entries.drop_first()[j]).0 != k);
        lemma_obj_find_at(entries.drop_first(), k, i - 1);
    }
}

pub proof fn lemma_obj_find_absent(entries: Seq<(Seq<char>, Pv)>, k: Seq<char>)
    requires
        forall|j: int| 0 <= j < entries.len() ==> (#[trigger] entries[j]).0 != k,
    ensures
        obj_find(entries, k) is None,
    decreases entries.len(),
{
    if entries.len() > 0 {
        assert(forall|j: int|
            0 <= j < entries.drop_first().len() ==> (#[trigger] entries.drop_first()[j]).0 != k);
        lemma_obj_find_absent(entries.drop_first(), k);
    }
}

/// A found value is some entry's value.
pub proof fn lemma_obj_find_member(entries: Seq<(Seq<char>, Pv)>, k: Seq<char>)
    requires
        obj_find(entries, k) is Some,
    ensures
        exists|i: int|
            0 <= i < entries.len() && (#[trigger] entries[i]).0 == k && entries[i].1 == obj_find(
                entries,
                k,
            )->Some_0,
    decreases entries.len(),
{
    if entries.len() > 0 && entries[0].0 != k {
        lemma_obj_find_member(entries.drop_first(), k);
        let i = choose|i: int|
            0 <= i < entries.drop_first().len() && (#[trigger] entries.drop_first()[i]).0 == k
                && entries.drop_first()[i].1 == obj_find(entries.drop_first(), k)->Some_0;
        assert(entries[i + 1] == entries.drop_first()[i]);
    }
}

pub proof fn lemma_upsert_at(entries: Seq<(Seq<char>, Pv)>, k: Seq<char>, v: Pv, i: int)
    requires
        0 <= i < entries.len(),
        entries[i].0 == k,
        forall|j: int| 0 <= j < i ==> (#[trigger] entries[j]).0 != k,
    ensures
        upsert(entries, k, v) == entries.update(i, (k, v)),
    decreases i,
{
    if i == 0 {
        assert(seq![(k, v)] + entries.drop_first() =~= entries.update(0, (k, v)));
    } else {
        assert(forall|j: int|
            0 <= j < i - 1 ==> (#[trigger] entries.drop_first()[j]).0 != k);
        lemma_upsert_at(entries.drop_first(), k, v, i - 1);
        assert(seq![entries[0]] + entries.drop_first().update(i - 1, (k, v)) =~= entries.update(
            i,
            (k, v),
        ));
    }
}

pub proof fn lemma_upsert_absent(entries: Seq<(Seq<char>, Pv)>, k: Seq<char>, v: Pv)
    requires
        forall|j: int| 0 <= j < entries.len() ==> (#[trigger] entries[j]).0 != k,
    ensures
        upsert(entries, k, v) == entries.push((k, v)),
    decreases entries.len(),
{
    if entries.len() == 0 {
        assert(seq![(k, v)] =~= entries.push((k, v)));
    } else {
        assert(forall|j: int|
            0 <= j < entries.drop_first().len() ==> (#[trigger] entries.drop_first()[j]).0 != k);
        lemma_upsert_absent(entries.drop_first(), k, v);
        assert(seq![entries[0]] + entries.drop_first().push((k, v)) =~= entries.push((k, v)));
    }
}

/// Folding one more override entry applies one upsert to the fold so far.
pub proof fn lemma_merge_entries_snoc(
    acc: Seq<(Seq<char>, Pv)>,
    o: Seq<(Seq<char>, Pv)>,
    e: (Seq<char>, Pv),
)
    ensures
        merge_entries(acc, o.push(e)) == upsert(
            merge_entries(acc, o),
            e.0,
            merge_pv(
                match obj_find(merge_entries(acc, o), e.0) {
                    Some(bv) => bv,
                    None => Pv::Null,
                },
                e.1,
            ),
        ),
    decreases o.len(),
{
    reveal_with_fuel(merge_entries, 3);
    if o.len() == 0 {
        assert(o.push(e)[0] == e);
        assert(o.push(e).drop_first() =~= Seq::<(Seq<char>, Pv)>::empty());
    } else {
        assert(o.push(e)[0] == o[0]);
        assert(o.push(e).drop_first() =~= o.drop_first().push(e));
        let existing = match obj_find(acc, o[0].0) {
            Some(bv) => bv,
            None => Pv::Null,
        };
        lemma_merge_entries_snoc(upsert(acc, o[0].0, merge_pv(existing, o[0].1)), o.drop_first(), e);
    }
}

/// Index of the first entry whose key reads `k`, if any.
pub fn obj_index_of(entries: &Vec<(String, ParamValue)>, k: &str) -> (r: Option<usize>)
    ensures
        match r {
            Some(p) => p < entries@.len() && entries@[p as int].0@ == k@ && forall|j: int|
                0 <= j < p ==> (#[trigger] entries@[j]).0@ != k@,
            None => forall|j: int| 0 <= j < entries@.len() ==> (#[trigger] entries@[j]).0@ != k@,
        },
{
    let mut i: usize = 0;
    while i < entries.len()
        invariant
            i <= entries@.len(),
            forall|j: int| 0 <= j < i ==> (#[trigger] entries@[j]).0@ != k@,
        decreases entries@.len() - i,
    {
        if crate::strutil::str_eq(entries[i].0.as_str(), k) {
            return Some(i);
        }
        i = i + 1;
    }
    None
}

/// Structural equality of two parameter values.
#[verifier::loop_isolation(false)]
impl ParamValue {
    pub fn equals(&self, other: &ParamValue) -> (r: bool)
        ensures
            r == (self@ == other@),
        decreases self,
    {
        match (self, other) {
            (ParamValue::Null, ParamValue::Null) => true,
            (ParamValue::Bool(a), ParamValue::Bool(b)) => a == b,
            (ParamValue::Int(a), ParamValue::Int(b)) => a == b,
            (ParamValue::Float(a), ParamValue::Float(b)) => crate::strutil::str_eq(
                a.as_str(),
                b.as_str(),
            ),
            (ParamValue::Text(a), ParamValue::Text(b)) => crate::strutil::str_eq(
                a.as_str(),
                b.as_str(),
            ),
            (ParamValue::Arr(x), ParamValue::Arr(y)) => {
                if x.len() != y.len() {
                    assert(seq_pv(x@).len() != seq_pv(y@).len());
                    return false;
                }
                let mut i: usize = 0;
                while i < x.len()
                    invariant
                        i <= x@.len(),
                        x@.len() == y@.len(),
                        forall|j: int| 0 <= j < i ==> x@[j]@ == y@[j]@,
                    decreases x@.len() - i,
                {
                    if !x[i].equals(&y[i]) {
                        assert(seq_pv(x@)[i as int] != seq_pv(y@)[i as int]);
                        return false;
                    }
                    i = i + 1;
                }
                proof {
                    assert(seq_pv(x@) =~= seq_pv(y@));
                }
                true
            },
            (ParamValue::Obj(x), ParamValue::Obj(y)) => {
                if x.len() != y.len() {
                    assert(seq_entries(x@).len() != seq_entries(y@).len());
                    return false;
                }
                let mut i: usize = 0;
                while i < x.len()
                    invariant
                        i <= x@.len(),
                        x@.len() == y@.len(),
                        forall|j: int| 0 <= j < i ==> x@[j].0@ == y@[j].0@ && x@[j].1@ == y@[j].1@,
                    decreases x@.len() - i,
                {
                    if !crate::strutil::str_eq(x[i].0.as_str(), y[i].0.as_str()) {
                        assert(seq_entries(x@)[i as int] != seq_entries(y@)[i as int]);
                        return false;
                    }
                    if !x[i].1.equals(&y[i].1) {
                        assert(seq_entries(x@)[i as int] != seq_entries(y@)[i as int]);
                        return false;
                    }
                    i = i + 1;
                }
                proof {
                    assert(seq_entries(x@) =~= seq_entries(y@));
                }
                true
            },
            (_, _) => {
                assert(self@ != other@);
                false
            },
        }
    }
}

/// An order-preserving copy of object entries.
#[verifier::loop_isolation(false)]
fn copy_entries(entries: &Vec<(String, ParamValue)>) -> (r: Vec<(String, ParamValue)>)
    ensures
        seq_entries(r@) == seq_entries(entries@),
{
    let mut out: Vec<(String, ParamValue)> = Vec::new();
    let mut i: usize = 0;
    while i < entries.len()
        invariant
            i <= entries@.len(),
            out@.len() == i,
            forall|j: int|
                0 <= j < i ==> (#[trigger] out@[j]).0@ == entries@[j].0@ && out@[j].1@
                    == entries@[j].1@,
        decreases entries@.len() - i,
    {
        let k = entries[i].0.clone();
        let v = entries[i].1.deep_copy();
        out.push((k, v));
        i = i + 1;
    }
    proof {
        assert(seq_entries(out@) =~= seq_entries(entries@));
    }
    out
}

/// Deep merge of `overrides` over `base`: recurse where both hold objects,
/// otherwise the override value replaces the base value outright.
#[verifier::loop_isolation(false)]
pub fn merge_params(base: &ParamValue, overrides: &ParamValue) -> (r: ParamValue)
    ensures
        r@ == merge_pv(base@, overrides@),
    decreases overrides,
{
    match (base, overrides) {
        (ParamValue::Obj(b), ParamValue::Obj(o)) => {
            let mut merged = copy_entries(b);
            let mut i: usize = 0;
            while i < o.len()
                invariant
                    i <= o@.len(),
                    seq_entries(merged@) == merge_entries(
                        seq_entries(b@),
                        seq_entries(o@).subrange(0, i as int),
                    ),
                decreases o@.len() - i,
            {
                proof {
                    assert(seq_entries(o@).subrange(0, i + 1) =~= seq_entries(o@).subrange(
                        0,
                        i as int,
                    ).push(seq_entries(o@)[i as int]));
                    lemma_merge_entries_snoc(
                        seq_entries(b@),
                        seq_entries(o@).subrange(0, i as int),
                        seq_entries(o@)[i as int],
                    );
                }
                let key = &o[i].0;
                let pos = obj_index_of(&merged, key.as_str());
                match pos {
                    Some(p) => {
                        proof {
                            lemma_obj_find_at(seq_entries(merged@), key@, p as int);
                            lemma_upsert_at(
                                seq_entries(merged@),
                                key@,
                                merge_pv(merged@[p as int].1@, o@[i as int].1@),
                                p as int,
                            );
                        }
                        let pair = merged.remove(p);
                        let newv = merge_params(&pair.1, &o[i].1);
                        merged.insert(p, (pair.0, newv));
                        proof {
                            assert(seq_entries(merged@) =~= merge_entries(
                                seq_entries(b@),
                                seq_entries(o@).subrange(0, i + 1),
                            ));
                        }
                    },
                    None => {
                        proof {
                            lemma_obj_find_absent(seq_entries(merged@), key@);
                            lemma_upsert_absent(
                                seq_entries(merged@),
                                key@,
                                merge_pv(Pv::Null, o@[i as int].1@),
                            );
                        }
                        let nul = ParamValue::Null;
                        let newv = merge_params(&nul, &o[i].1);
                        merged.push((key.clone(), newv));
                        proof {
                            assert(seq_entries(merged@) =~= merge_entries(
                                seq_entries(b@),
                                seq_entries(o@).subrange(0, i + 1),
                            ));
                        }
                    },
                }
                i = i + 1;
            }
            proof {
                assert(seq_entries(o@).subrange(0, o@.len() as int) =~= seq_entries(o@));
            }
            ParamValue::Obj(merged)
        },
        (_, v) => v.deep_copy(),
    }
}

/// A text accepted by the number reader below: it depends on the characters
/// alone.
pub uninterp spec fn is_number_text(s: Seq<char>) -> bool;

/// Relies on serde_json::Number's FromStr impl: the text parses as one
/// complete JSON number exactly when its characters form one whose value is
/// representable (not NaN, not infinite, not out of range).
#[verifier::external_body]
fn parses_as_number(s: &str) -> (r: bool)
    ensures
        r == is_number_text(s@),
{
    s.parse::<serde_json::Number>().is_ok()
}

/// Typed reading of an assignment's value text: the literals `true` and
/// `false`, then a 64-bit signed integer, then a representable number kept
/// as its text, and otherwise the text itself, in that order.
pub open spec fn auto_type_pv(s: Seq<char>) -> Pv {
    if s == seq!['t', 'r', 'u', 'e'] {
        Pv::Bool(true)
    } else if s == seq!['f', 'a', 'l', 's', 'e'] {
        Pv::Bool(false)
    } else if crate::numtext::is_i64_text(s) {
        Pv::Int(crate::numtext::int_text_val(s))
    } else if is_number_text(s) {
        Pv::Float(s)
    } else {
        Pv::Text(s)
    }
}

pub fn auto_type(val: &str) -> (r: ParamValue)
    ensures
        r@ == auto_type_pv(val@),
{
    proof {
        reveal_strlit("true");
        reveal_strlit("false");
        assert("true"@ =~= seq!['t', 'r', 'u', 'e']);
        assert("false"@ =~= seq!['f', 'a', 'l', 's', 'e']);
    }
    if crate::strutil::str_eq(val, "true") {
        return ParamValue::Bool(true);
    }
    if crate::strutil::str_eq(val, "false") {
        return ParamValue::Bool(false);
    }
    match crate::numtext::parse_i64(val) {
        Some(n) => {
            return ParamValue::Int(n);
        },
        None => {},
    }
    if parses_as_number(val) {
        return ParamValue::Float(val.to_owned());
    }
    ParamValue::Text(val.to_owned())
}

/// Index of the first occurrence of `c`, or -1.
pub open spec fn first_index_of(s: Seq<char>, c: char) -> int
    decreases s.len(),
{
    if s.len() == 0 {
        -1
    } else if s[0] == c {
        0
    } else {
        let r = first_index_of(s.drop_first(), c);
        if r == -1 {
            -1
        } else {
            r + 1
        }
    }
}

pub proof fn lemma_first_index_at(s: Seq<char>, c: char, i: int)
    requires
        0 <= i < s.len(),
        s[i] == c,
        forall|j: int| 0 <= j < i ==> s[j] != c,
    ensures
        first_index_of(s, c) == i,
    decreases i,
{
    if i > 0 {
        lemma_first_index_at(s.drop_first(), c, i - 1);
    }
}

pub proof fn lemma_first_index_absent(s: Seq<char>, c: char)
    requires
        forall|j: int| 0 <= j < s.len() ==> s[j] != c,
    ensures
        first_index_of(s, c) == -1,
    decreases s.len(),
{
    if s.len() > 0 {
        lemma_first_index_absent(s.drop_first(), c);
    }
}

/// The segments of a key, split on dots.
pub open spec fn split_dots(s: Seq<char>) -> Seq<Seq<char>>
    decreases s.len(),
{
    let ix = first_index_of(s, '.');
    if 0 <= ix < s.len() {
        seq![s.subrange(0, ix)] + split_dots(s.subrange(ix + 1, s.len() as int))
    } else {
        seq![s]
    }
}

/// The views of a sequence of strings.
pub open spec fn path_views(ps: Seq<String>) -> Seq<Seq<char>> {
    Seq::new(ps.len(), |i: int| ps[i]@)
}

/// Find the first occurrence of `c` in `s`.
fn find_char(s: &str, c: char) -> (r: Option<usize>)
    ensures
        match r {
            Some(i) => i < s@.len() && s@[i as int] == c && first_index_of(s@, c) == i,
            None => first_index_of(s@, c) == -1,
        },
{
    let n = s.unicode_len();
    let mut i: usize = 0;
    while i < n
        invariant
            n == s@.len(),
            i <= n,
            forall|j: int| 0 <= j < i ==> s@[j] != c,
        decreases n - i,
    {
        if s.get_char(i) == c {
            proof {
                lemma_first_index_at(s@, c, i as int);
            }
            return Some(i);
        }
        i = i + 1;
    }
    proof {
        lemma_first_index_absent(s@, c);
    }
    None
}

/// Split a key into its dot-separated segments.
fn split_dots_exec(s: &str) -> (r: Vec<String>)
    ensures
        path_views(r@) == split_dots(s@),
        r@.len() >= 1,
    decreases s@.len(),
{
    let n = s.unicode_len();
    match find_char(s, '.') {
        None => {
            let mut out: Vec<String> = Vec::new();
            out.push(s.to_owned());
            proof {
                assert(path_views(out@) =~= split_dots(s@));
            }
            out
        },
        Some(d) => {
            let head = s.substring_char(0, d).to_owned();
            let tail = s.substring_char(d + 1, n);
            let mut rest = split_dots_exec(tail);
            rest.insert(0, head);
            proof {
                assert(path_views(rest@) =~= split_dots(s@));
            }
            rest
        },
    }
}

/// One parsed assignment: the dotted key path, and the typed value.
pub open spec fn parse_assignment_pv(s: Seq<char>) -> Result<(Seq<Seq<char>>, Pv), Seq<char>> {
    let eq = first_index_of(s, '=');
    if !(0 <= eq < s.len()) {
        Err("Invalid --set format '"@ + s + "', expected key=value"@)
    } else {
        let key = s.subrange(0, eq);
        let val = s.subrange(eq + 1, s.len() as int);
        let path = split_dots(key);
        if exists|i: int| 0 <= i < path.len() && (#[trigger] path[i]).len() == 0 {
            Err("Empty segment in key path '"@ + key + "'"@)
        } else {
            Ok((path, auto_type_pv(val)))
        }
    }
}

/// Split one `key.path=value` text on its first `=`, split the key on dots,
/// and read the value's type.
pub fn parse_assignment(entry: &str) -> (r: Result<(Vec<String>, ParamValue), String>)
    ensures
        match r {
            Ok(pv) => parse_assignment_pv(entry@) matches Ok(spv) && path_views(pv.0@) == spv.0
                && pv.1@ == spv.1,
            Err(m) => parse_assignment_pv(entry@) matches Err(sm) && m@ == sm,
        },
{
    let n = entry.unicode_len();
    let eq = match find_char(entry, '=') {
        None => {
            let mut m = String::new();
            m.append("Invalid --set format '");
            m.append(entry);
            m.append("', expected key=value");
            return Err(m);
        },
        Some(d) => d,
    };
    let key = entry.substring_char(0, eq);
    let val = entry.substring_char(eq + 1, n);
    let path = split_dots_exec(key);
    let ghost geq = first_index_of(entry@, '=');
    let mut i: usize = 0;
    while i < path.len()
        invariant
            path_views(path@) == split_dots(key@),
            geq == first_index_of(entry@, '='),
            0 <= geq < entry@.len(),
            key@ == entry@.subrange(0, geq),
            i <= path@.len(),
            forall|j: int| 0 <= j < i ==> (#[trigger] path_views(path@)[j]).len() != 0,
        decreases path@.len() - i,
    {
        if path[i].as_str().is_empty() {
            assert(path_views(path@)[i as int].len() == 0);
            let mut m = String::new();
            m.append("Empty segment in key path '");
            m.append(key);
            m.append("'");
            proof {
                assert(geq == first_index_of(entry@, '='));
                assert(split_dots(entry@.subrange(0, first_index_of(entry@, '=')))[i as int].len()
                    == 0);
                assert(m@ =~= "Empty segment in key path '"@ + entry@.subrange(
                    0,
                    first_index_of(entry@, '='),
                ) + "'"@);
            }
            return Err(m);
        }
        i = i + 1;
    }
    let v = auto_type(val);
    Ok((path, v))
}

/// Dotted rendering of the path segments from `from` on.
pub fn join_dots_exec(parts: &Vec<String>, from: usize) -> (r: String)
    requires
        from < parts@.len(),
    ensures
        r@ == join_dots(path_views(parts@).skip(from as int)),
{
    let n = parts.len();
    let mut out = String::new();
    out.append(parts[from].as_str());
    let mut j = from + 1;
    while j < n
        invariant
            n == parts@.len(),
            from < j <= parts@.len(),
            out@ == join_dots(path_views(parts@).subrange(from as int, j as int)),
        decreases parts@.len() - j,
    {
        out.append(".");
        out.append(parts[j].as_str());
        proof {
            reveal_strlit(".");
            lemma_join_dots_snoc(path_views(parts@).subrange(from as int, j + 1));
            assert(path_views(parts@).subrange(from as int, j + 1).drop_last() =~= path_views(
                parts@,
            ).subrange(from as int, j as int));
        }
        j = j + 1;
    }
    proof {
        assert(path_views(parts@).subrange(from as int, parts@.len() as int) =~= path_views(
            parts@,
        ).skip(from as int));
    }
    out
}

proof fn lemma_join_dots_snoc(ps: Seq<Seq<char>>)
    requires
        ps.len() >= 2,
    ensures
        join_dots(ps) == join_dots(ps.drop_last()) + seq!['.'] + ps.last(),
    decreases ps.len(),
{
    if ps.len() == 2 {
        assert(ps.drop_first().drop_last() =~= ps.drop_last().drop_first());
        assert(ps.drop_last() =~= seq![ps[0]]);
        assert(join_dots(ps.drop_first()) == ps[1]);
    } else {
        lemma_join_dots_snoc(ps.drop_first());
        assert(ps.drop_first().drop_last() =~= ps.drop_last().drop_first());
        assert(join_dots(ps) == ps[0] + seq!['.'] + join_dots(ps.drop_first()));
        assert(ps.drop_last()[0] == ps[0]);
        assert((ps[0] + seq!['.'] + (join_dots(ps.drop_last().drop_first()) + seq!['.']
            + ps.last())) =~= ((ps[0] + seq!['.'] + join_dots(ps.drop_last().drop_first()))
            + seq!['.'] + ps.last()));
    }
}

/// Insert `value` at the path `parts[idx..]` within `entries`, creating
/// nested objects for missing intermediate segments.
#[verifier::loop_isolation(false)]
fn insert_at(
    entries: Vec<(String, ParamValue)>,
    parts: &Vec<String>,
    idx: usize,
    value: ParamValue,
) -> (r: Result<Vec<(String, ParamValue)>, String>)
    requires
        idx < parts@.len(),
    ensures
        match r {
            Ok(out) => insert_pv(seq_entries(entries@), path_views(parts@).skip(idx as int), value@)
                == Ok::<Seq<(Seq<char>, Pv)>, Seq<char>>(seq_entries(out@)),
            Err(m) => insert_pv(
                seq_entries(entries@),
                path_views(parts@).skip(idx as int),
                value@,
            ) matches Err(sm) && m@ == sm,
        },
    decreases parts@.len() - idx,
{
    let ghost path = path_views(parts@).skip(idx as int);
    proof {
        assert(path[0] == parts@[idx as int]@);
    }
    let mut entries = entries;
    let ghost pre = seq_entries(entries@);
    if idx == parts.len() - 1 {
        match obj_index_of(&entries, parts[idx].as_str()) {
            Some(p) => {
                proof {
                    lemma_upsert_at(pre, parts@[idx as int]@, value@, p as int);
                }
                let key = entries.remove(p).0;
                entries.insert(p, (key, value));
                proof {
                    assert(seq_entries(entries@) =~= pre.update(
                        p as int,
                        (parts@[idx as int]@, value@),
                    ));
                }
                Ok(entries)
            },
            None => {
                proof {
                    lemma_upsert_absent(pre, parts@[idx as int]@, value@);
                }
                let key = parts[idx].clone();
                entries.push((key, value));
                proof {
                    assert(seq_entries(entries@) =~= pre.push((parts@[idx as int]@, value@)));
                }
                Ok(entries)
            },
        }
    } else {
        proof {
            assert(path.drop_first() =~= path_views(parts@).skip(idx + 1));
        }
        match obj_index_of(&entries, parts[idx].as_str()) {
            Some(p) => {
                proof {
                    lemma_obj_find_at(pre, parts@[idx as int]@, p as int);
                }
                let pair = entries.remove(p);
                match pair.1 {
                    ParamValue::Obj(inner) => {
                        match insert_at(inner, parts, idx + 1, value) {
                            Ok(inner2) => {
                                proof {
                                    lemma_upsert_at(
                                        pre,
                                        parts@[idx as int]@,
                                        Pv::Obj(seq_entries(inner2@)),
                                        p as int,
                                    );
                                }
                                entries.insert(p, (pair.0, ParamValue::Obj(inner2)));
                                proof {
                                    assert(seq_entries(entries@) =~= pre.update(
                                        p as int,
                                        (
                                            parts@[idx as int]@,
                                            Pv::Obj(
                                                seq_entries(entries@[p as int].1->Obj_0@),
                                            ),
                                        ),
                                    ));
                                }
                                Ok(entries)
                            },
                            Err(m) => Err(m),
                        }
                    },
                    other => {
                        let mut m = String::new();
                        m.append("Conflict: '");
                        m.append(parts[idx].as_str());
                        m.append("' is not an object, cannot set '");
                        let rest = join_dots_exec(parts, idx + 1);
                        m.append(rest.as_str());
                        m.append("'");
                        proof {
                            assert(!(other@ is Obj));
                            assert(m@ =~= conflict_msg(path));
                        }
                        Err(m)
                    },
                }
            },
            None => {
                proof {
                    lemma_obj_find_absent(pre, parts@[idx as int]@);
                }
                let empty: Vec<(String, ParamValue)> = Vec::new();
                proof {
                    assert(seq_entries(empty@) =~= Seq::<(Seq<char>, Pv)>::empty());
                }
                match insert_at(empty, parts, idx + 1, value) {
                    Ok(inner2) => {
                        proof {
                            lemma_upsert_absent(
                                pre,
                                parts@[idx as int]@,
                                Pv::Obj(seq_entries(inner2@)),
                            );
                        }
                        let key = parts[idx].clone();
                        entries.push((key, ParamValue::Obj(inner2)));
                        proof {
                            assert(seq_entries(entries@) =~= pre.push(
                                (
                                    parts@[idx as int]@,
                                    Pv::Obj(
                                        seq_entries(
                                            entries@[entries@.len() - 1].1->Obj_0@,
                                        ),
                                    ),
                                ),
                            ));
                        }
                        Ok(entries)
                    },
                    Err(m) => Err(m),
                }
            },
        }
    }
}

/// Parsed assignments folded into one object, first error winning.
pub open spec fn build_pv(sets: Seq<Seq<char>>) -> Result<Seq<(Seq<char>, Pv)>, Seq<char>>
    decreases sets.len(),
{
    if sets.len() == 0 {
        Ok(Seq::empty())
    } else {
        match build_pv(sets.drop_last()) {
            Ok(acc) => match parse_assignment_pv(sets.last()) {
                Ok(pv) => insert_pv(acc, pv.0, pv.1),
                Err(m) => Err(m),
            },
            Err(m) => Err(m),
        }
    }
}

/// Once a prefix fails, every extension fails with the same message.
proof fn lemma_build_err_extends(sets: Seq<Seq<char>>, j: int)
    requires
        0 <= j <= sets.len(),
        build_pv(sets.subrange(0, j)) is Err,
    ensures
        build_pv(sets) == build_pv(sets.subrange(0, j)),
    decreases sets.len() - j,
{
    if j == sets.len() {
        assert(sets.subrange(0, j) =~= sets);
    } else {
        assert(sets.subrange(0, j + 1).drop_last() =~= sets.subrange(0, j));
        lemma_build_err_extends(sets, j + 1);
    }
}

/// Parse each `key.path=value` entry and insert it, in input order, into one
/// accumulated object; a later assignment to the same path wins.
#[verifier::loop_isolation(false)]
pub fn build_params(sets: &Vec<String>) -> (r: Result<ParamValue, String>)
    ensures
        match r {
            Ok(v) => build_pv(path_views(sets@)) matches Ok(t) && v@ == Pv::Obj(t),
            Err(m) => build_pv(path_views(sets@)) matches Err(sm) && m@ == sm,
        },
{
    let mut root: Vec<(String, ParamValue)> = Vec::new();
    let mut i: usize = 0;
    proof {
        assert(path_views(sets@).subrange(0, 0) =~= Seq::<Seq<char>>::empty());
        assert(seq_entries(root@) =~= Seq::<(Seq<char>, Pv)>::empty());
    }
    while i < sets.len()
        invariant
            i <= sets@.len(),
            build_pv(path_views(sets@).subrange(0, i as int)) == Ok::<
                Seq<(Seq<char>, Pv)>,
                Seq<char>,
            >(seq_entries(root@)),
        decreases sets@.len() - i,
    {
        proof {
            assert(path_views(sets@).subrange(0, i + 1).drop_last() =~= path_views(
                sets@,
            ).subrange(0, i as int));
            assert(path_views(sets@).subrange(0, i + 1).last() == sets@[i as int]@);
        }
        match parse_assignment(sets[i].as_str()) {
            Err(m) => {
                proof {
                    lemma_build_err_extends(path_views(sets@), i + 1);
                }
                return Err(m);
            },
            Ok((path, v)) => {
                proof {
                    assert(path_views(path@).skip(0) =~= path_views(path@));
                }
                match insert_at(root, &path, 0, v) {
                    Ok(next) => {
                        root = next;
                    },
                    Err(m) => {
                        proof {
                            lemma_build_err_extends(path_views(sets@), i + 1);
                        }
                        return Err(m);
                    },
                }
            },
        }
        i = i + 1;
    }
    proof {
        assert(path_views(sets@).subrange(0, sets@.len() as int) =~= path_views(sets@));
    }
    Ok(ParamValue::Obj(root))
}

/// Deployment defaults with override assignments composed over them.
pub open spec fn compose_pv(defaults: Pv, sets: Seq<Seq<char>>) -> Result<Pv, Seq<char>> {
    match build_pv(sets) {
        Ok(t) => Ok(merge_pv(defaults, Pv::Obj(t))),
        Err(m) => Err(m),
    }
}

/// Build the override tree from the assignments and merge it over the
/// defaults.
pub fn compose(defaults: &ParamValue, sets: &Vec<String>) -> (r: Result<ParamValue, String>)
    ensures
        match r {
            Ok(v) => compose_pv(defaults@, path_views(sets@)) matches Ok(c) && v@ == c,
            Err(m) => compose_pv(defaults@, path_views(sets@)) matches Err(sm) && m@ == sm,
        },
{
    match build_params(sets) {
        Err(m) => Err(m),
        Ok(o) => Ok(merge_params(defaults, &o)),
    }
}

pub proof fn lemma_find_upsert(entries: Seq<(Seq<char>, Pv)>, k: Seq<char>, v: Pv, k2: Seq<char>)
    ensures
        obj_find(upsert(entries, k, v), k2) == if k2 == k {
            Some(v)
        } else {
            obj_find(entries, k2)
        },
    decreases entries.len(),
{
    reveal_with_fuel(obj_find, 2);
    reveal_with_fuel(upsert, 2);
    if entries.len() == 0 {
        assert(seq![(k, v)].drop_first() =~= Seq::<(Seq<char>, Pv)>::empty());
    } else if entries[0].0 == k {
        assert((seq![(k, v)] + entries.drop_first()).drop_first() =~= entries.drop_first());
        assert((seq![(k, v)] + entries.drop_first())[0] == (k, v));
    } else {
        lemma_find_upsert(entries.drop_first(), k, v, k2);
        assert((seq![entries[0]] + upsert(entries.drop_first(), k, v)).drop_first() =~= upsert(
            entries.drop_first(),
            k,
            v,
        ));
        assert((seq![entries[0]] + upsert(entries.drop_first(), k, v))[0] == entries[0]);
    }
}

/// Every entry of an upsert is the new pair or one of the old entries.
proof fn lemma_upsert_membership(entries: Seq<(Seq<char>, Pv)>, k: Seq<char>, v: Pv)
    ensures
        forall|j: int|
            0 <= j < upsert(entries, k, v).len() ==> #[trigger] upsert(entries, k, v)[j] == (k, v)
                || exists|i: int| 0 <= i < entries.len() && #[trigger] entries[i] == upsert(
                entries,
                k,
                v,
            )[j],
    decreases entries.len(),
{
    let u = upsert(entries, k, v);
    if entries.len() == 0 {
    } else if entries[0].0 == k {
        assert forall|j: int| 0 <= j < u.len() implies #[trigger] u[j] == (k, v) || exists|i: int|
            0 <= i < entries.len() && #[trigger] entries[i] == u[j] by {
            if j > 0 {
                assert(u[j] == entries.drop_first()[j - 1]);
                assert(entries[j] == u[j]);
            }
        }
    } else {
        lemma_upsert_membership(entries.drop_first(), k, v);
        let u2 = upsert(entries.drop_first(), k, v);
        assert forall|j: int| 0 <= j < u.len() implies #[trigger] u[j] == (k, v) || exists|i: int|
            0 <= i < entries.len() && #[trigger] entries[i] == u[j] by {
            if j == 0 {
                assert(u[0] == entries[0]);
            } else {
                assert(u[j] == u2[j - 1]);
                if u2[j - 1] != (k, v) {
                    let i = choose|i: int|
                        0 <= i < entries.drop_first().len() && #[trigger] entries.drop_first()[i]
                            == u2[j - 1];
                    assert(entries[i + 1] == u[j]);
                }
            }
        }
    }
}

/// An upsert never introduces a duplicate key.
proof fn lemma_upsert_distinct(entries: Seq<(Seq<char>, Pv)>, k: Seq<char>, v: Pv)
    requires
        distinct_keys(entries),
    ensures
        distinct_keys(upsert(entries, k, v)),
    decreases entries.len(),
{
    let u = upsert(entries, k, v);
    if entries.len() == 0 {
    } else if entries[0].0 == k {
        let rest = entries.drop_first();
        assert forall|i: int, j: int| 0 <= i < j < u.len() implies (#[trigger] u[i]).0 != (
        #[trigger] u[j]).0 by {
            if i == 0 {
                assert(u[j] == rest[j - 1]);
                assert(entries[j].0 != entries[0].0);
            } else {
                assert(u[i] == rest[i - 1] && u[j] == rest[j - 1]);
                assert(entries[i].0 != entries[j].0);
            }
        }
    } else {
        let rest = entries.drop_first();
        assert(distinct_keys(rest)) by {
            assert forall|i: int, j: int| 0 <= i < j < rest.len() implies (#[trigger] rest[i]).0
                != (#[trigger] rest[j]).0 by {
                assert(rest[i] == entries[i + 1] && rest[j] == entries[j + 1]);
            }
        }
        lemma_upsert_distinct(rest, k, v);
        lemma_upsert_membership(rest, k, v);
        let u2 = upsert(rest, k, v);
        assert forall|i: int, j: int| 0 <= i < j < u.len() implies (#[trigger] u[i]).0 != (
        #[trigger] u[j]).0 by {
            if i == 0 {
                assert(u[0] == entries[0]);
                assert(u[j] == u2[j - 1]);
                if u2[j - 1] == (k, v) {
                    assert(u[i].0 != u[j].0);
                } else {
                    let m = choose|m: int|
                        0 <= m < rest.len() && #[trigger] rest[m] == u2[j - 1];
                    assert(entries[m + 1] == u2[j - 1]);
                    assert(entries[0].0 != entries[m + 1].0);
                }
            } else {
                assert(u[i] == u2[i - 1] && u[j] == u2[j - 1]);
            }
        }
    }
}

/// What a key finds after a fold of override entries: the override's value
/// merged over the base's where the override has the key, the base's value
/// alone otherwise.
pub proof fn lemma_merge_find(b: Seq<(Seq<char>, Pv)>, o: Seq<(Seq<char>, Pv)>, k: Seq<char>)
    requires
        distinct_keys(o),
    ensures
        obj_find(merge_entries(b, o), k) == (match obj_find(o, k) {
            Some(ov) => Some(
                merge_pv(
                    match obj_find(b, k) {
                        Some(bv) => bv,
                        None => Pv::Null,
                    },
                    ov,
                ),
            ),
            None => obj_find(b, k),
        }),
    decreases o.len(),
{
    if o.len() > 0 {
        let rest = o.drop_first();
        assert(distinct_keys(rest)) by {
            assert forall|i: int, j: int| 0 <= i < j < rest.len() implies (#[trigger] rest[i]).0
                != (#[trigger] rest[j]).0 by {
                assert(rest[i] == o[i + 1] && rest[j] == o[j + 1]);
            }
        }
        let k0 = o[0].0;
        let m0 = merge_pv(
            match obj_find(b, k0) {
                Some(bv) => bv,
                None => Pv::Null,
            },
            o[0].1,
        );
        let b2 = upsert(b, k0, m0);
        lemma_merge_find(b2, rest, k);
        lemma_find_upsert(b, k0, m0, k);
        if k == k0 {
            assert forall|j: int| 0 <= j < rest.len() implies (#[trigger] rest[j]).0 != k by {
                assert(rest[j] == o[j + 1]);
                assert(o[0].0 != o[j + 1].0);
            }
            lemma_obj_find_absent(rest, k);
        }
    }
}

/// Looking up the path just inserted yields the inserted value.
pub proof fn lemma_insert_lookup(entries: Seq<(Seq<char>, Pv)>, path: Seq<Seq<char>>, v: Pv)
    requires
        insert_pv(entries, path, v) is Ok,
    ensures
        lookup_pv(Pv::Obj(insert_pv(entries, path, v)->Ok_0), path) == Some(v),
    decreases path.len(),
{
    reveal_with_fuel(lookup_pv, 2);
    if path.len() == 1 {
        lemma_find_upsert(entries, path[0], v, path[0]);
        assert(path.drop_first() =~= Seq::<Seq<char>>::empty());
    } else {
        let sub = match obj_find(entries, path[0]) {
            Some(x) => x,
            None => Pv::Obj(Seq::empty()),
        };
        let inner = sub->Obj_0;
        let inner2 = insert_pv(inner, path.drop_first(), v)->Ok_0;
        lemma_find_upsert(entries, path[0], Pv::Obj(inner2), path[0]);
        lemma_insert_lookup(inner, path.drop_first(), v);
    }
}

/// Insertion into a well-formed object of well-formed values keeps every
/// object's keys distinct.
pub proof fn lemma_insert_wf(entries: Seq<(Seq<char>, Pv)>, path: Seq<Seq<char>>, v: Pv)
    requires
        wf_pv(Pv::Obj(entries)),
        wf_pv(v),
        insert_pv(entries, path, v) is Ok,
    ensures
        wf_pv(Pv::Obj(insert_pv(entries, path, v)->Ok_0)),
    decreases path.len(),
{
    if path.len() == 1 {
        lemma_upsert_distinct(entries, path[0], v);
        lemma_upsert_membership(entries, path[0], v);
        let u = upsert(entries, path[0], v);
        assert forall|j: int| 0 <= j < u.len() implies wf_pv((#[trigger] u[j]).1) by {
            if u[j] != (path[0], v) {
                let i = choose|i: int| 0 <= i < entries.len() && #[trigger] entries[i] == u[j];
                assert(wf_pv(entries[i].1));
            }
        }
    } else {
        let k0 = path[0];
        let sub = match obj_find(entries, k0) {
            Some(x) => x,
            None => Pv::Obj(Seq::empty()),
        };
        let inner = sub->Obj_0;
        assert(wf_pv(sub)) by {
            if obj_find(entries, k0) is Some {
                lemma_obj_find_member(entries, k0);
                let i = choose|i: int|
                    0 <= i < entries.len() && (#[trigger] entries[i]).0 == k0 && entries[i].1
                        == obj_find(entries, k0)->Some_0;
                assert(wf_pv(entries[i].1));
            } else {
                assert(wf_pv(Pv::Obj(Seq::<(Seq<char>, Pv)>::empty())));
            }
        }
        lemma_insert_wf(inner, path.drop_first(), v);
        let inner2 = insert_pv(inner, path.drop_first(), v)->Ok_0;
        lemma_upsert_distinct(entries, k0, Pv::Obj(inner2));
        lemma_upsert_membership(entries, k0, Pv::Obj(inner2));
        let u = upsert(entries, k0, Pv::Obj(inner2));
        assert forall|j: int| 0 <= j < u.len() implies wf_pv((#[trigger] u[j]).1) by {
            if u[j] != (k0, Pv::Obj(inner2)) {
                let i = choose|i: int| 0 <= i < entries.len() && #[trigger] entries[i] == u[j];
                assert(wf_pv(entries[i].1));
            }
        }
    }
}

/// A non-object value reachable in a well-formed override tree is still
/// reachable, unchanged, after the tree is merged over any base.
pub proof fn lemma_merge_lookup(base: Pv, over: Pv, path: Seq<Seq<char>>, v: Pv)
    requires
        wf_pv(over),
        path.len() >= 1,
        lookup_pv(over, path) == Some(v),
        !(v is Obj),
    ensures
        lookup_pv(merge_pv(base, over), path) == Some(v),
    decreases path.len(),
{
    let o = over->Obj_0;
    let k0 = path[0];
    let x = obj_find(o, k0)->Some_0;
    assert(wf_pv(x)) by {
        lemma_obj_find_member(o, k0);
        let i = choose|i: int|
            0 <= i < o.len() && (#[trigger] o[i]).0 == k0 && o[i].1 == obj_find(o, k0)->Some_0;
        assert(wf_pv(o[i].1));
    }
    match base {
        Pv::Obj(b) => {
            lemma_merge_find(b, o, k0);
            let bv = match obj_find(b, k0) {
                Some(bv) => bv,
                None => Pv::Null,
            };
            if path.len() == 1 {
                assert(path.drop_first() =~= Seq::<Seq<char>>::empty());
                assert(merge_pv(bv, x) == x);
            } else {
                lemma_merge_lookup(bv, x, path.drop_first(), v);
            }
        },
        _ => {},
    }
}

/// Law: merging an empty override object over any object returns it
/// unchanged.
pub proof fn lemma_merge_empty_overrides(base: Pv)
    requires
        base is Obj,
    ensures
        merge_pv(base, Pv::Obj(Seq::empty())) == base,
{
}

/// A successfully built override tree is well formed at every depth.
pub proof fn lemma_build_wf(sets: Seq<Seq<char>>)
    requires
        build_pv(sets) is Ok,
    ensures
        wf_pv(Pv::Obj(build_pv(sets)->Ok_0)),
    decreases sets.len(),
{
    if sets.len() == 0 {
        assert(wf_pv(Pv::Obj(Seq::<(Seq<char>, Pv)>::empty())));
    } else {
        let acc = build_pv(sets.drop_last())->Ok_0;
        lemma_build_wf(sets.drop_last());
        let (path, v) = parse_assignment_pv(sets.last())->Ok_0;
        assert(!(v is Obj) && wf_pv(v));
        lemma_insert_wf(acc, path, v);
    }
}

/// Law (round trip): whenever a non-empty override list composes over any
/// defaults, reading the last assignment's dotted key path back from the
/// result yields exactly the typed value that assignment parsed to; the
/// assignments before it, applied in input order, cannot disturb it.
pub proof fn lemma_compose_round_trip(defaults: Pv, sets: Seq<Seq<char>>)
    requires
        sets.len() >= 1,
        build_pv(sets) is Ok,
    ensures
        parse_assignment_pv(sets.last()) is Ok,
        compose_pv(defaults, sets) is Ok,
        ({
            let (path, v) = parse_assignment_pv(sets.last())->Ok_0;
            lookup_pv(compose_pv(defaults, sets)->Ok_0, path) == Some(v)
        }),
{
    let acc = build_pv(sets.drop_last())->Ok_0;
    lemma_build_wf(sets.drop_last());
    let (path, v) = parse_assignment_pv(sets.last())->Ok_0;
    assert(path.len() >= 1);
    assert(!(v is Obj) && wf_pv(v));
    let t = insert_pv(acc, path, v)->Ok_0;
    lemma_insert_wf(acc, path, v);
    lemma_insert_lookup(acc, path, v);
    lemma_merge_lookup(defaults, Pv::Obj(t), path, v);
}

} // verus!
