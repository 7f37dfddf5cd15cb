//! The grouping planner: ordering eligible directories and batching them
//! into the groups that become one scheduler job each.

use vstd::prelude::*;
use vstd::multiset::Multiset;
use crate::error::Error;
use crate::expr;
use crate::project::Project;
use crate::state::assoc_lookup;
use crate::text;
use crate::value::{spec_pointer, spec_value_cmp_seq, Json, Value};
use crate::workflow::{strs_model, Action};

verus! {

/// An element under the key sort: a directory name and its sort key.
pub type Keyed = (Seq<char>, Seq<Json>);

/// Name order: lexicographic by code point.
pub open spec fn spec_name_le(a: Seq<char>, b: Seq<char>) -> bool {
    text::spec_str_le(a, b)
}

/// Key order: by the element-wise value comparison; two keys that do not
/// compare are not ordered after one another.
pub open spec fn spec_key_le(a: Keyed, b: Keyed) -> bool {
    spec_value_cmp_seq(a.1, b.1) != Some(core::cmp::Ordering::Greater)
}

/// Stable insertion of `x` into a sorted run: after every element that is
/// `le` it.
pub open spec fn spec_insert_name(s: Seq<Seq<char>>, x: Seq<char>) -> Seq<Seq<char>>
    decreases s.len(),
{
    if s.len() == 0 {
        seq![x]
    } else if spec_name_le(s.last(), x) {
        s.push(x)
    } else {
        spec_insert_name(s.drop_last(), x).push(s.last())
    }
}

/// Stable insertion sort by name, processing left to right.
pub open spec fn spec_sort_names(s: Seq<Seq<char>>) -> Seq<Seq<char>>
    decreases s.len(),
{
    if s.len() == 0 {
        Seq::empty()
    } else {
        spec_insert_name(spec_sort_names(s.drop_last()), s.last())
    }
}

/// Stable insertion of a keyed element.
pub open spec fn spec_insert_keyed(s: Seq<Keyed>, x: Keyed) -> Seq<Keyed>
    decreases s.len(),
{
    if s.len() == 0 {
        seq![x]
    } else if spec_key_le(s.last(), x) {
        s.push(x)
    } else {
        spec_insert_keyed(s.drop_last(), x).push(s.last())
    }
}

/// Stable insertion sort by key, processing left to right.
pub open spec fn spec_sort_keyed(s: Seq<Keyed>) -> Seq<Keyed>
    decreases s.len(),
{
    if s.len() == 0 {
        Seq::empty()
    } else {
        spec_insert_keyed(spec_sort_keyed(s.drop_last()), s.last())
    }
}

/// The sort key of one directory: the values at the action's sort pointers.
pub open spec fn spec_sort_key(
    values: Seq<(Seq<char>, Json)>,
    sort_by: Seq<Seq<char>>,
    d: Seq<char>,
) -> Option<Seq<Json>>
    decreases sort_by.len(),
{
    match assoc_lookup(values, d) {
        None => None,
        Some(v) => spec_key_values(v, sort_by),
    }
}

/// The values of a value at each pointer, when they all resolve.
pub open spec fn spec_key_values(v: Json, sort_by: Seq<Seq<char>>) -> Option<Seq<Json>>
    decreases sort_by.len(),
{
    if sort_by.len() == 0 {
        Some(Seq::empty())
    } else {
        match (spec_pointer(v, sort_by[0]), spec_key_values(v, sort_by.drop_first())) {
            (Some(x), Some(rest)) => Some(seq![x] + rest),
            _ => None,
        }
    }
}

/// The keys of a run of directories, when they all resolve.
pub open spec fn spec_keyed_run(
    values: Seq<(Seq<char>, Json)>,
    sort_by: Seq<Seq<char>>,
    names: Seq<Seq<char>>,
) -> Option<Seq<Keyed>>
    decreases names.len(),
{
    if names.len() == 0 {
        Some(Seq::empty())
    } else {
        match (spec_sort_key(values, sort_by, names[0]), spec_keyed_run(
            values,
            sort_by,
            names.drop_first(),
        )) {
            (Some(k), Some(rest)) => Some(seq![(names[0], k)] + rest),
            _ => None,
        }
    }
}

/// A sorted keyed run split into maximal runs of equal keys.
pub open spec fn spec_split_runs(s: Seq<Keyed>) -> Seq<Seq<Seq<char>>>
    decreases s.len(),
{
    if s.len() == 0 {
        Seq::empty()
    } else {
        let prev = spec_split_runs(s.drop_last());
        if prev.len() > 0 && spec_value_cmp_seq(s[s.len() - 2].1, s.last().1) == Some(
            core::cmp::Ordering::Equal,
        ) {
            prev.update(prev.len() - 1, prev.last().push(s.last().0))
        } else {
            prev.push(seq![s.last().0])
        }
    }
}

/// One group chunked into groups of at most `m` directories.
pub open spec fn spec_chunk(g: Seq<Seq<char>>, m: int) -> Seq<Seq<Seq<char>>>
    decreases g.len(),
{
    if m <= 0 || g.len() == 0 {
        Seq::empty()
    } else if g.len() <= m {
        seq![g]
    } else {
        seq![g.take(m)] + spec_chunk(g.skip(m), m)
    }
}

/// Every group chunked.
pub open spec fn spec_chunk_all(gs: Seq<Seq<Seq<char>>>, m: int) -> Seq<Seq<Seq<char>>>
    decreases gs.len(),
{
    if gs.len() == 0 {
        Seq::empty()
    } else {
        spec_chunk_all(gs.drop_last(), m) + spec_chunk(gs.last(), m)
    }
}

/// The names of a keyed run.
pub open spec fn spec_names_of(s: Seq<Keyed>) -> Seq<Seq<char>> {
    s.map_values(|e: Keyed| e.0)
}

/// The grouping pipeline: sort by name; resolve the sort keys; sort by key
/// (when keys are configured); reverse when asked; split into runs of equal
/// keys when asked; chunk to the maximum size when a positive one is set
/// (a maximum of zero is read as no limit). `None` when a
/// directory is unknown or a sort pointer does not resolve.
pub open spec fn spec_groups(
    values: Seq<(Seq<char>, Json)>,
    g: crate::workflow::GroupModel,
    dirs: Seq<Seq<char>>,
) -> Option<Seq<Seq<Seq<char>>>> {
    if dirs.len() == 0 {
        Some(Seq::empty())
    } else {
        let by_name = spec_sort_names(dirs);
        let sort_by = match g.sort_by {
            Some(p) => p,
            None => Seq::empty(),
        };
        match spec_keyed_run(values, sort_by, by_name) {
            None => None,
            Some(keyed) => {
                let groups = if sort_by.len() == 0 {
                    let names = if spec_reverse(g) {
                        by_name.reverse()
                    } else {
                        by_name
                    };
                    seq![names]
                } else {
                    let sorted = spec_sort_keyed(keyed);
                    let sorted2 = if spec_reverse(g) {
                        sorted.reverse()
                    } else {
                        sorted
                    };
                    if g.split_by_sort_key == Some(true) {
                        spec_split_runs(sorted2)
                    } else {
                        seq![spec_names_of(sorted2)]
                    }
                };
                match g.maximum_size {
                    Some(m) => if m == 0 {
                        Some(groups)
                    } else {
                        Some(spec_chunk_all(groups, m as int))
                    },
                    None => Some(groups),
                }
            },
        }
    }
}

/// Whether the group reverses its sort.
pub open spec fn spec_reverse(g: crate::workflow::GroupModel) -> bool {
    g.reverse_sort == Some(true)
}

} // verus!

verus! {

/// The models of a group list.
pub open spec fn groups_model(v: Seq<Vec<String>>) -> Seq<Seq<Seq<char>>> {
    v.map_values(|g: Vec<String>| strs_model(g@))
}

/// Compare two equal-length keys.
#[verifier::loop_isolation(false)]
fn key_cmp(a: &Vec<Value>, b: &Vec<Value>) -> (r: Option<core::cmp::Ordering>)
    requires
        a@.len() == b@.len(),
    ensures
        r == spec_value_cmp_seq(
            crate::value::values_model(a@),
            crate::value::values_model(b@),
        ),
{
    let ghost am = crate::value::values_model(a@);
    let ghost bm = crate::value::values_model(b@);
    proof {
        crate::value::lemma_values_model(a@);
        crate::value::lemma_values_model(b@);
        assert(am.skip(0) =~= am);
        assert(bm.skip(0) =~= bm);
    }
    let mut i: usize = 0;
    while i < a.len()
        invariant
            i <= a@.len(),
            a@.len() == b@.len(),
            am.len() == a@.len(),
            bm.len() == b@.len(),
            spec_value_cmp_seq(am, bm) == spec_value_cmp_seq(
                am.skip(i as int),
                bm.skip(i as int),
            ),
        decreases a@.len() - i,
    {
        proof {
            assert(am.skip(i as int)[0] == am[i as int]);
            assert(bm.skip(i as int)[0] == bm[i as int]);
            assert(am[i as int] == crate::value::value_model(a@[i as int]));
            assert(bm[i as int] == crate::value::value_model(b@[i as int]));
            assert(am.skip(i as int).drop_first() =~= am.skip(i as int + 1));
            assert(bm.skip(i as int).drop_first() =~= bm.skip(i as int + 1));
        }
        let c = expr::partial_cmp_json_values(&a[i], &b[i]);
        match c {
            Some(core::cmp::Ordering::Equal) => {},
            _ => {
                return c;
            },
        }
        i = i + 1;
    }
    proof {
        assert(am.skip(a@.len() as int).len() == 0);
    }
    Some(core::cmp::Ordering::Equal)
}

/// Whether `a` sorts no later than `b` under the key order.
fn key_le(a: &Vec<Value>, b: &Vec<Value>) -> (r: bool)
    requires
        a@.len() == b@.len(),
    ensures
        r == spec_key_le(
            (Seq::<char>::empty(), crate::value::values_model(a@)),
            (Seq::<char>::empty(), crate::value::values_model(b@)),
        ),
{
    match key_cmp(a, b) {
        Some(core::cmp::Ordering::Greater) => false,
        _ => true,
    }
}

/// Sort a list of directory names, stably, by code-point order.
#[verifier::loop_isolation(false)]
#[verifier::rlimit(100)]
fn sort_names(mut v: Vec<String>) -> (r: Vec<String>)
    ensures
        strs_model(r@) == spec_sort_names(strs_model(v@)),
{
    let ghost dm = strs_model(v@);
    let mut out: Vec<String> = Vec::new();
    let mut i: usize = 0;
    proof {
        assert(dm.take(0) =~= Seq::<Seq<char>>::empty());
        assert(strs_model(out@) =~= spec_sort_names(dm.take(0)));
    }
    while i < v.len()
        invariant
            i <= v@.len(),
            dm == strs_model(v@),
            dm.len() == v@.len(),
            strs_model(out@) == spec_sort_names(dm.take(i as int)),
        decreases v@.len() - i,
    {
        let ghost before = strs_model(out@);
        let x = v[i].clone();
        // Scan from the end for the insertion point.
        let mut j: usize = out.len();
        proof {
            assert(before.take(before.len() as int) =~= before);
            assert(before.skip(before.len() as int) =~= Seq::<Seq<char>>::empty());
            assert(spec_insert_name(before.take(before.len() as int), x@) + before.skip(
                before.len() as int,
            ) =~= spec_insert_name(before, x@));
        }
        while j > 0 && !str_le_exec(out[j - 1].as_str(), x.as_str())
            invariant
                j <= out@.len(),
                before == strs_model(out@),
                spec_insert_name(before, x@) == spec_insert_name(before.take(j as int), x@)
                    + before.skip(j as int),
            decreases j,
        {
            proof {
                let t = before.take(j as int);
                assert(t.last() == before[j as int - 1]);
                assert(t.drop_last() =~= before.take(j as int - 1));
                assert(spec_insert_name(before.take(j as int - 1), x@).push(before[j as int - 1])
                    + before.skip(j as int) =~= spec_insert_name(before.take(j as int - 1), x@)
                    + before.skip(j as int - 1));
            }
            j = j - 1;
        }
        proof {
            if j > 0 {
                let t = before.take(j as int);
                assert(t.last() == before[j as int - 1]);
                assert(spec_insert_name(t, x@) == t.push(x@));
            } else {
                assert(before.take(0) =~= Seq::<Seq<char>>::empty());
            }
        }
        out.insert(j, x);
        proof {
            assert(strs_model(out@) =~= spec_insert_name(before, x@)) by {
                if j > 0 {
                    assert(strs_model(out@) =~= before.take(j as int).push(x@) + before.skip(
                        j as int,
                    ));
                } else {
                    assert(strs_model(out@) =~= seq![x@] + before.skip(0));
                    assert(spec_insert_name(before, x@) == spec_insert_name(
                        before.take(0),
                        x@,
                    ) + before.skip(0));
                }
            }
            assert(dm.take(i as int + 1).drop_last() =~= dm.take(i as int));
            assert(dm.take(i as int + 1).last() == dm[i as int]);
            assert(dm[i as int] == v@[i as int]@);
        }
        i = i + 1;
    }
    proof {
        assert(dm.take(v@.len() as int) =~= dm);
    }
    out
}

/// Whether one string sorts no later than another.
fn str_le_exec(a: &str, b: &str) -> (r: bool)
    ensures
        r == text::spec_str_le(a@, b@),
{
    match text::str_cmp(a, b) {
        core::cmp::Ordering::Greater => false,
        _ => true,
    }
}

} // verus!

verus! {

/// The model of one keyed element.
pub open spec fn keyed_model(e: (String, Vec<Value>)) -> Keyed {
    (e.0@, crate::value::values_model(e.1@))
}

/// The models of a keyed list.
pub open spec fn keyed_list_model(s: Seq<(String, Vec<Value>)>) -> Seq<Keyed> {
    s.map_values(|e: (String, Vec<Value>)| keyed_model(e))
}

/// Sort a keyed list, stably, by the key order.
#[verifier::loop_isolation(false)]
#[verifier::rlimit(100)]
fn sort_keyed(v: Vec<(String, Vec<Value>)>, ghost_key_len: usize) -> (r: Vec<
    (String, Vec<Value>),
>)
    requires
        forall|i: int| 0 <= i < v@.len() ==> (#[trigger] v@[i]).1@.len() == ghost_key_len,
    ensures
        keyed_list_model(r@) == spec_sort_keyed(keyed_list_model(v@)),
        forall|i: int| 0 <= i < r@.len() ==> (#[trigger] r@[i]).1@.len() == ghost_key_len,
{
    let ghost dm = keyed_list_model(v@);
    let mut out: Vec<(String, Vec<Value>)> = Vec::new();
    let mut i: usize = 0;
    proof {
        assert(dm.take(0) =~= Seq::<Keyed>::empty());
        assert(keyed_list_model(out@) =~= spec_sort_keyed(dm.take(0)));
    }
    while i < v.len()
        invariant
            i <= v@.len(),
            dm == keyed_list_model(v@),
            dm.len() == v@.len(),
            forall|x: int| 0 <= x < v@.len() ==> (#[trigger] v@[x]).1@.len() == ghost_key_len,
            forall|x: int|
                0 <= x < out@.len() ==> (#[trigger] out@[x]).1@.len() == ghost_key_len,
            keyed_list_model(out@) == spec_sort_keyed(dm.take(i as int)),
        decreases v@.len() - i,
    {
        let ghost before = keyed_list_model(out@);
        let name = v[i].0.clone();
        let key = crate::value::clone_value_vec(&v[i].1);
        let ghost x = dm[i as int];
        proof {
            assert(dm[i as int] == keyed_model(v@[i as int]));
            assert((name@, crate::value::values_model(key@)) == x);
        }
        let mut j: usize = out.len();
        proof {
            assert(before.take(before.len() as int) =~= before);
            assert(before.skip(before.len() as int) =~= Seq::<Keyed>::empty());
            assert(spec_insert_keyed(before.take(before.len() as int), x) + before.skip(
                before.len() as int,
            ) =~= spec_insert_keyed(before, x));
        }
        while j > 0 && !key_le(&out[j - 1].1, &key)
            invariant
                j <= out@.len(),
                before == keyed_list_model(out@),
                key@.len() == ghost_key_len,
                forall|y: int|
                    0 <= y < out@.len() ==> (#[trigger] out@[y]).1@.len() == ghost_key_len,
                (name@, crate::value::values_model(key@)) == x,
                spec_insert_keyed(before, x) == spec_insert_keyed(before.take(j as int), x)
                    + before.skip(j as int),
            decreases j,
        {
            proof {
                let t = before.take(j as int);
                assert(t.last() == before[j as int - 1]);
                assert(before[j as int - 1] == keyed_model(out@[j as int - 1]));
                assert(t.drop_last() =~= before.take(j as int - 1));
                assert(spec_insert_keyed(before.take(j as int - 1), x).push(
                    before[j as int - 1],
                ) + before.skip(j as int) =~= spec_insert_keyed(before.take(j as int - 1), x)
                    + before.skip(j as int - 1));
            }
            j = j - 1;
        }
        proof {
            if j > 0 {
                let t = before.take(j as int);
                assert(t.last() == before[j as int - 1]);
                assert(before[j as int - 1] == keyed_model(out@[j as int - 1]));
                assert(spec_insert_keyed(t, x) == t.push(x));
            } else {
                assert(before.take(0) =~= Seq::<Keyed>::empty());
            }
        }
        out.insert(j, (name, key));
        proof {
            assert(keyed_list_model(out@) =~= spec_insert_keyed(before, x)) by {
                if j > 0 {
                    assert(keyed_list_model(out@) =~= before.take(j as int).push(x)
                        + before.skip(j as int));
                } else {
                    assert(keyed_list_model(out@) =~= seq![x] + before.skip(0));
                    assert(spec_insert_keyed(before, x) == spec_insert_keyed(before.take(0), x)
                        + before.skip(0));
                }
            }
            assert(dm.take(i as int + 1).drop_last() =~= dm.take(i as int));
            assert(dm.take(i as int + 1).last() == dm[i as int]);
        }
        i = i + 1;
    }
    proof {
        assert(dm.take(v@.len() as int) =~= dm);
    }
    out
}

} // verus!

verus! {

/// Reverse a list of strings.
#[verifier::loop_isolation(false)]
fn reverse_names(v: Vec<String>) -> (r: Vec<String>)
    ensures
        strs_model(r@) == strs_model(v@).reverse(),
{
    let mut r: Vec<String> = Vec::new();
    let mut i: usize = v.len();
    while i > 0
        invariant
            i <= v@.len(),
            r@.len() == v@.len() - i,
            forall|j: int|
                0 <= j < r@.len() ==> (#[trigger] r@[j])@ == v@[v@.len() - 1 - j]@,
        decreases i,
    {
        r.push(v[i - 1].clone());
        i = i - 1;
    }
    proof {
        assert(strs_model(r@) =~= strs_model(v@).reverse());
    }
    r
}

/// Reverse a keyed list.
#[verifier::loop_isolation(false)]
fn reverse_keyed(v: Vec<(String, Vec<Value>)>) -> (r: Vec<(String, Vec<Value>)>)
    ensures
        keyed_list_model(r@) == keyed_list_model(v@).reverse(),
        r@.len() == v@.len(),
        forall|i: int|
            0 <= i < r@.len() ==> (#[trigger] r@[i]).1@.len() == v@[v@.len() - 1 - i].1@.len(),
{
    let mut r: Vec<(String, Vec<Value>)> = Vec::new();
    let mut i: usize = v.len();
    while i > 0
        invariant
            i <= v@.len(),
            r@.len() == v@.len() - i,
            forall|j: int|
                0 <= j < r@.len() ==> keyed_model(#[trigger] r@[j]) == keyed_model(
                    v@[v@.len() - 1 - j],
                ) && r@[j].1@.len() == v@[v@.len() - 1 - j].1@.len(),
        decreases i,
    {
        r.push((v[i - 1].0.clone(), crate::value::clone_value_vec(&v[i - 1].1)));
        i = i - 1;
    }
    proof {
        assert(keyed_list_model(r@) =~= keyed_list_model(v@).reverse());
    }
    r
}

impl Project {
    /// Separate directories into groups based on the action's group
    /// parameters: sort by name, then by the values at the sort pointers;
    /// reverse, split by equal sort keys, and bound the group size as the
    /// action asks. Succeeds exactly when every directory is known and every
    /// sort pointer resolves; the result is then exactly the grouping
    /// pipeline's.
    #[verifier::loop_isolation(false)]
    #[verifier::rlimit(100)]
    pub fn separate_into_groups(&self, action: &Action, directories: Vec<String>) -> (r: Result<
        Vec<Vec<String>>,
        Error,
    >)
        ensures
            match r {
                Ok(out) => spec_groups(
                    self.state.values_model(),
                    action@.group,
                    strs_model(directories@),
                ) == Some(groups_model(out@)),
                Err(_) => spec_groups(
                    self.state.values_model(),
                    action@.group,
                    strs_model(directories@),
                ) is None,
            },
    {
        let ghost vm = self.state.values_model();
        let ghost dm = strs_model(directories@);
        let ghost gm = action@.group;
        if directories.len() == 0 {
            let out: Vec<Vec<String>> = Vec::new();
            proof {
                assert(groups_model(out@) =~= Seq::<Seq<Seq<char>>>::empty());
            }
            return Ok(out);
        }
        // Sort by name.
        let by_name = sort_names(directories);
        let ghost bn = strs_model(by_name@);
        // Resolve each directory's sort key.
        let sort_by = action.group.sort_by();
        let ghost sbm = match gm.sort_by {
            Some(p) => p,
            None => Seq::<Seq<char>>::empty(),
        };
        proof {
            assert(strs_model(sort_by@) == sbm);
        }
        let keyed = match self.build_keyed(&by_name, &sort_by) {
            Ok(k) => k,
            Err(e) => {
                return Err(e);
            },
        };
        proof {
            assert(spec_keyed_run(vm, sbm, bn) == Some(keyed_list_model(keyed@)));
        }
        let reverse = action.group.reverse_sort();
        let split = action.group.split_by_sort_key();
        // Build the groups.
        let mut groups: Vec<Vec<String>> = Vec::new();
        if sort_by.len() == 0 {
            let names = if reverse {
                reverse_names(by_name)
            } else {
                by_name
            };
            groups.push(names);
            proof {
                assert(groups_model(groups@) =~= seq![
                    if spec_reverse(gm) {
                        bn.reverse()
                    } else {
                        bn
                    },
                ]);
            }
        } else {
            let sorted = sort_keyed(keyed, sort_by.len());
            let sorted2 = if reverse {
                reverse_keyed(sorted)
            } else {
                sorted
            };
            if split {
                groups = split_runs(sorted2);
            } else {
                let mut names: Vec<String> = Vec::new();
                let ghost s2 = keyed_list_model(sorted2@);
                let mut j: usize = 0;
                while j < sorted2.len()
                    invariant
                        j <= sorted2@.len(),
                        s2 == keyed_list_model(sorted2@),
                        s2.len() == sorted2@.len(),
                        names@.len() == j,
                        forall|x: int| 0 <= x < j ==> (#[trigger] names@[x])@ == s2[x].0,
                    decreases sorted2@.len() - j,
                {
                    proof {
                        assert(s2[j as int] == keyed_model(sorted2@[j as int]));
                    }
                    names.push(sorted2[j].0.clone());
                    j = j + 1;
                }
                proof {
                    assert(strs_model(names@) =~= spec_names_of(s2));
                }
                groups.push(names);
                proof {
                    assert(groups_model(groups@) =~= seq![spec_names_of(s2)]);
                }
            }
        }
        // Bound the group sizes. A maximum of zero could only drop
        // directories, so it is read as no limit at all.
        match action.group.maximum_size {
            None => Ok(groups),
            Some(m) => if m == 0 {
                Ok(groups)
            } else {
                Ok(chunk_groups(groups, m))
            },
        }
    }
}

impl Project {
    /// Resolve the sort key of every directory, in order: the values at the
    /// action's sort pointers. Fails exactly when a directory is unknown or
    /// a pointer does not resolve.
    #[verifier::loop_isolation(false)]
    #[verifier::rlimit(100)]
    fn build_keyed(&self, by_name: &Vec<String>, sort_by: &Vec<String>) -> (r: Result<
        Vec<(String, Vec<Value>)>,
        Error,
    >)
        ensures
            match r {
                Ok(keyed) => spec_keyed_run(
                    self.state.values_model(),
                    strs_model(sort_by@),
                    strs_model(by_name@),
                ) == Some(keyed_list_model(keyed@)) && keyed@.len() == by_name@.len() && (forall|
                    x: int,
                |
                    0 <= x < keyed@.len() ==> (#[trigger] keyed@[x]).1@.len() == sort_by@.len()),
                Err(_) => spec_keyed_run(
                    self.state.values_model(),
                    strs_model(sort_by@),
                    strs_model(by_name@),
                ) is None,
            },
    {
        let ghost vm = self.state.values_model();
        let ghost bn = strs_model(by_name@);
        let ghost sbm = strs_model(sort_by@);
        let mut keyed: Vec<(String, Vec<Value>)> = Vec::new();
        let mut i: usize = 0;
        proof {
            assert(bn.skip(0) =~= bn);
            assert(keyed_list_model(keyed@) =~= Seq::<Keyed>::empty());
        }
        while i < by_name.len()
            invariant
                i <= by_name@.len(),
                bn == strs_model(by_name@),
                bn.len() == by_name@.len(),
                sbm == strs_model(sort_by@),
                sbm.len() == sort_by@.len(),
                keyed@.len() == i,
                forall|x: int|
                    0 <= x < i ==> (#[trigger] keyed@[x]).1@.len() == sort_by@.len(),
                match spec_keyed_run(vm, sbm, bn.skip(i as int)) {
                    Some(t) => spec_keyed_run(vm, sbm, bn) == Some(keyed_list_model(keyed@) + t),
                    None => spec_keyed_run(vm, sbm, bn) is None,
                },
            decreases by_name@.len() - i,
        {
            let d = &by_name[i];
            let ghost dv = by_name@[i as int]@;
            proof {
                assert(bn.skip(i as int)[0] == dv);
                assert(bn.skip(i as int).drop_first() =~= bn.skip(i as int + 1));
            }
            match self.state.value_of(d.as_str()) {
                None => {
                    return Err(Error::DirectoryNotFound(d.clone()));
                },
                Some(value) => {
                    let mut key: Vec<Value> = Vec::new();
                    let mut k: usize = 0;
                    proof {
                        assert(sbm.skip(0) =~= sbm);
                        assert(crate::value::values_model(key@) =~= Seq::<Json>::empty());
                    }
                    while k < sort_by.len()
                        invariant
                            k <= sort_by@.len(),
                            sbm == strs_model(sort_by@),
                            sbm.len() == sort_by@.len(),
                            key@.len() == k,
                            match spec_key_values(value@, sbm.skip(k as int)) {
                                Some(t) => spec_key_values(value@, sbm) == Some(
                                    crate::value::values_model(key@) + t,
                                ),
                                None => spec_key_values(value@, sbm) is None,
                            },
                        decreases sort_by@.len() - k,
                    {
                        proof {
                            assert(sbm.skip(k as int)[0] == sbm[k as int]);
                            assert(sbm[k as int] == sort_by@[k as int]@);
                            assert(sbm.skip(k as int).drop_first() =~= sbm.skip(k as int + 1));
                        }
                        match value.pointer(sort_by[k].as_str()) {
                            None => {
                                return Err(
                                    Error::JSONPointerNotFound(d.clone(), sort_by[k].clone()),
                                );
                            },
                            Some(element) => {
                                let ghost beforek = crate::value::values_model(key@);
                                let ghost oldk = key@;
                                key.push(element.clone());
                                proof {
                                    crate::value::lemma_values_model(key@);
                                    crate::value::lemma_values_model(oldk);
                                    assert forall|y: int|
                                        0 <= y < oldk.len() implies crate::value::values_model(
                                        key@,
                                    )[y] == beforek[y] by {
                                        assert(crate::value::values_model(key@)[y]
                                            == crate::value::value_model(key@[y]));
                                        assert(beforek[y] == crate::value::value_model(oldk[y]));
                                        assert(key@[y] == oldk[y]);
                                    }
                                    assert(crate::value::values_model(key@)[oldk.len() as int]
                                        == crate::value::value_model(key@.last()));
                                    assert(crate::value::value_model(key@.last()) == element@);
                                    assert(crate::value::values_model(key@) =~= beforek + seq![
                                        element@,
                                    ]);
                                    let rr = spec_key_values(value@, sbm.skip(k as int + 1));
                                    if rr is Some {
                                        let t = rr->0;
                                        assert(beforek + (seq![element@] + t) =~= (beforek
                                            + seq![element@]) + t);
                                    }
                                }
                            },
                        }
                        k = k + 1;
                    }
                    proof {
                        assert(sbm.skip(sort_by@.len() as int).len() == 0);
                        assert(crate::value::values_model(key@) + Seq::<Json>::empty()
                            =~= crate::value::values_model(key@));
                    }
                    let ghost beforeq = keyed_list_model(keyed@);
                    keyed.push((d.clone(), key));
                    proof {
                        assert(keyed_list_model(keyed@) =~= beforeq.push(
                            keyed_model(keyed@.last()),
                        ));
                        let rr = spec_keyed_run(vm, sbm, bn.skip(i as int + 1));
                        if rr is Some {
                            let t = rr->0;
                            assert(beforeq + (seq![keyed_model(keyed@.last())] + t) =~= (beforeq
                                .push(keyed_model(keyed@.last()))) + t);
                        }
                    }
                },
            }
            i = i + 1;
        }
        proof {
            assert(bn.skip(by_name@.len() as int).len() == 0);
            assert(keyed_list_model(keyed@) + Seq::<Keyed>::empty() =~= keyed_list_model(
                keyed@,
            ));
        }
        Ok(keyed)
    }
}

/// Split a sorted keyed run into maximal runs of equal keys.
#[verifier::loop_isolation(false)]
#[verifier::rlimit(100)]
fn split_runs(sorted2: Vec<(String, Vec<Value>)>) -> (r: Vec<Vec<String>>)
    requires
        forall|x: int, y: int|
            0 <= x < sorted2@.len() && 0 <= y < sorted2@.len() ==> (#[trigger] sorted2@[x]).1@.len()
                == (#[trigger] sorted2@[y]).1@.len(),
    ensures
        groups_model(r@) == spec_split_runs(keyed_list_model(sorted2@)),
{
    let ghost s2 = keyed_list_model(sorted2@);
    let mut groups: Vec<Vec<String>> = Vec::new();
    let mut cur: Vec<String> = Vec::new();
    let mut j: usize = 0;
    proof {
        assert(spec_split_runs(s2.take(0)) =~= Seq::<Seq<Seq<char>>>::empty());
        assert(s2.take(0) =~= Seq::<Keyed>::empty());
    }
    while j < sorted2.len()
        invariant
            j <= sorted2@.len(),
            s2 == keyed_list_model(sorted2@),
            s2.len() == sorted2@.len(),
            forall|x: int, y: int|
                0 <= x < sorted2@.len() && 0 <= y < sorted2@.len() ==> (
                #[trigger] sorted2@[x]).1@.len() == (#[trigger] sorted2@[y]).1@.len(),
            j == 0 ==> cur@.len() == 0 && groups@.len() == 0,
            j > 0 ==> cur@.len() > 0 && spec_split_runs(s2.take(j as int)) == groups_model(
                groups@,
            ).push(strs_model(cur@)),
        decreases sorted2@.len() - j,
    {
        proof {
            assert(s2[j as int] == keyed_model(sorted2@[j as int]));
            assert(s2.take(j as int + 1).drop_last() =~= s2.take(j as int));
            assert(s2.take(j as int + 1).last() == s2[j as int]);
        }
        let same = if j > 0 {
            proof {
                assert(s2[j as int - 1] == keyed_model(sorted2@[j as int - 1]));
            }
            match key_cmp(&sorted2[j - 1].1, &sorted2[j].1) {
                Some(core::cmp::Ordering::Equal) => true,
                _ => false,
            }
        } else {
            false
        };
        if same {
            let ghost beforec = strs_model(cur@);
            cur.push(sorted2[j].0.clone());
            proof {
                assert(strs_model(cur@) =~= beforec.push(s2[j as int].0));
                assert(s2.take(j as int + 1)[j as int - 1] == s2[j as int - 1]);
                let prev = spec_split_runs(s2.take(j as int));
                assert(prev == groups_model(groups@).push(beforec));
                assert(prev.len() >= 1);
                assert(prev.last() == beforec);
                assert(spec_split_runs(s2.take(j as int + 1)) == prev.update(
                    prev.len() - 1,
                    prev.last().push(s2[j as int].0),
                ));
                assert(prev.update(prev.len() - 1, prev.last().push(s2[j as int].0))
                    =~= groups_model(groups@).push(beforec.push(s2[j as int].0)));
            }
        } else {
            if j > 0 {
                let done = cur;
                cur = Vec::new();
                let ghost beforeg = groups_model(groups@);
                groups.push(done);
                proof {
                    assert(groups_model(groups@) =~= beforeg.push(strs_model(groups@.last()@)));
                }
            }
            cur.push(sorted2[j].0.clone());
            proof {
                assert(strs_model(cur@) =~= seq![s2[j as int].0]);
                if j > 0 {
                    assert(s2.take(j as int + 1)[j as int - 1] == s2[j as int - 1]);
                }
            }
        }
        j = j + 1;
    }
    if cur.len() > 0 {
        let ghost beforeg = groups_model(groups@);
        groups.push(cur);
        proof {
            assert(groups_model(groups@) =~= beforeg.push(strs_model(groups@.last()@)));
        }
    }
    proof {
        assert(s2.take(sorted2@.len() as int) =~= s2);
    }
    groups
}

/// Chunk every group into groups of at most `m` directories.
#[verifier::loop_isolation(false)]
#[verifier::rlimit(100)]
fn chunk_groups(groups: Vec<Vec<String>>, m: usize) -> (r: Vec<Vec<String>>)
    ensures
        groups_model(r@) == spec_chunk_all(groups_model(groups@), m as int),
{
    let ghost g0 = groups_model(groups@);
    let mut chunked: Vec<Vec<String>> = Vec::new();
    let mut gi: usize = 0;
    proof {
        assert(spec_chunk_all(g0.take(0), m as int) =~= Seq::<Seq<Seq<char>>>::empty());
        assert(g0.take(0) =~= Seq::<Seq<Seq<char>>>::empty());
        assert(groups_model(chunked@) =~= Seq::<Seq<Seq<char>>>::empty());
    }
    while gi < groups.len()
        invariant
            gi <= groups@.len(),
            g0 == groups_model(groups@),
            g0.len() == groups@.len(),
            groups_model(chunked@) == spec_chunk_all(g0.take(gi as int), m as int),
        decreases groups@.len() - gi,
    {
        proof {
            assert(g0[gi as int] == strs_model(groups@[gi as int]@));
            assert(g0.take(gi as int + 1).drop_last() =~= g0.take(gi as int));
            assert(g0.take(gi as int + 1).last() == g0[gi as int]);
        }
        let g = &groups[gi];
        let ghost one = g0[gi as int];
        let ghost prefix = spec_chunk_all(g0.take(gi as int), m as int);
        if m == 0 {
            proof {
                assert(spec_chunk_all(g0.take(gi as int + 1), m as int) =~= prefix + spec_chunk(
                    one,
                    0,
                ));
                assert(prefix + spec_chunk(one, 0) =~= prefix);
            }
        } else {
            // Walk the group, peeling one chunk at a time off the front of
            // what remains.
            let mut j: usize = 0;
            proof {
                assert(one.skip(0) =~= one);
            }
            while j < g.len()
                invariant
                    m >= 1,
                    j <= g@.len(),
                    one == strs_model(g@),
                    one.len() == g@.len(),
                    groups_model(chunked@) + spec_chunk(one.skip(j as int), m as int) == prefix
                        + spec_chunk(one, m as int),
                decreases g@.len() - j,
            {
                let take = if g.len() - j < m {
                    g.len() - j
                } else {
                    m
                };
                let mut piece: Vec<String> = Vec::new();
                let mut t: usize = 0;
                while t < take
                    invariant
                        t <= take,
                        take >= 1,
                        j + take <= g@.len(),
                        one == strs_model(g@),
                        one.len() == g@.len(),
                        piece@.len() == t,
                        forall|x: int| 0 <= x < t ==> (#[trigger] piece@[x])@ == one[j + x],
                    decreases take - t,
                {
                    piece.push(g[j + t].clone());
                    t = t + 1;
                }
                let ghost beforep = groups_model(chunked@);
                let ghost rem = one.skip(j as int);
                chunked.push(piece);
                proof {
                    assert(groups_model(chunked@) =~= beforep.push(
                        strs_model(chunked@.last()@),
                    ));
                    // The pushed piece is the head chunk of the remainder.
                    if one.len() - j <= m {
                        assert(rem.len() <= m);
                        assert(strs_model(chunked@.last()@) =~= rem);
                        assert(spec_chunk(rem, m as int) == seq![rem]);
                        assert(one.skip(j as int + take as int).len() == 0);
                        assert(spec_chunk(one.skip(j as int + take as int), m as int)
                            =~= Seq::<Seq<Seq<char>>>::empty());
                        assert(beforep.push(rem) + Seq::<Seq<Seq<char>>>::empty() =~= beforep
                            + seq![rem]);
                        assert(beforep + spec_chunk(rem, m as int) =~= beforep + seq![rem]);
                    } else {
                        assert(rem.len() > m);
                        assert(strs_model(chunked@.last()@) =~= rem.take(m as int));
                        assert(spec_chunk(rem, m as int) == seq![rem.take(m as int)]
                            + spec_chunk(rem.skip(m as int), m as int));
                        assert(rem.skip(m as int) =~= one.skip(j as int + m));
                        assert(beforep.push(rem.take(m as int)) + spec_chunk(
                            one.skip(j as int + m),
                            m as int,
                        ) =~= beforep + (seq![rem.take(m as int)] + spec_chunk(
                            one.skip(j as int + m),
                            m as int,
                        )));
                    }
                }
                j = j + take;
            }
            proof {
                assert(one.skip(g@.len() as int).len() == 0);
                assert(spec_chunk(one.skip(g@.len() as int), m as int)
                    =~= Seq::<Seq<Seq<char>>>::empty());
                assert(groups_model(chunked@) + Seq::<Seq<Seq<char>>>::empty() =~= groups_model(
                    chunked@,
                ));
                assert(spec_chunk_all(g0.take(gi as int + 1), m as int) =~= prefix + spec_chunk(
                    one,
                    m as int,
                ));
            }
        }
        gi = gi + 1;
    }
    proof {
        assert(g0.take(groups@.len() as int) =~= g0);
    }
    chunked
}

} // verus!

verus! {

/// A run of directories whose sort keys all compare `Equal` is never split:
/// splitting by sort key yields the one group holding every name, in order.
pub proof fn lemma_split_single_run(s: Seq<Keyed>)
    requires
        s.len() > 0,
        forall|x: int, y: int|
            0 <= x < s.len() && 0 <= y < s.len() ==> spec_value_cmp_seq(
                (#[trigger] s[x]).1,
                (#[trigger] s[y]).1,
            ) == Some(core::cmp::Ordering::Equal),
    ensures
        spec_split_runs(s) == seq![spec_names_of(s)],
    decreases s.len(),
{
    if s.len() == 1 {
        assert(spec_split_runs(s.drop_last()) =~= Seq::<Seq<Seq<char>>>::empty());
        assert(seq![s.last().0] =~= spec_names_of(s));
        assert(spec_split_runs(s) =~= seq![spec_names_of(s)]);
    } else {
        let s0 = s.drop_last();
        assert(forall|x: int| 0 <= x < s0.len() ==> #[trigger] s0[x] == s[x]);
        lemma_split_single_run(s0);
        assert(spec_value_cmp_seq(s[s.len() - 2].1, s.last().1) == Some(
            core::cmp::Ordering::Equal,
        ));
        let prev = spec_split_runs(s0);
        assert(prev.len() == 1);
        assert(prev.last() == spec_names_of(s0));
        assert(spec_split_runs(s) == prev.update(0, spec_names_of(s0).push(s.last().0)));
        assert(spec_names_of(s) =~= spec_names_of(s0).push(s.last().0));
        assert(prev.update(0, spec_names_of(s0).push(s.last().0)) =~= seq![spec_names_of(s)]);
    }
}

} // verus!

verus! {

/// Inserting into a name run adds exactly that name: the sorted names are a
/// permutation of the names given.
pub proof fn lemma_insert_name_multiset(s: Seq<Seq<char>>, x: Seq<char>)
    ensures
        spec_insert_name(s, x).to_multiset() == s.to_multiset().insert(x),
    decreases s.len(),
{
    s.to_multiset_ensures();
    if s.len() == 0 {
        assert(spec_insert_name(s, x) =~= Seq::<Seq<char>>::empty().push(x));
        Seq::<Seq<char>>::empty().to_multiset_ensures();
        assert(Seq::<Seq<char>>::empty().to_multiset() =~= Multiset::<Seq<char>>::empty());
        assert(s.to_multiset() =~= Multiset::<Seq<char>>::empty());
    } else if text::spec_str_le(s.last(), x) {
    } else {
        let s0 = s.drop_last();
        lemma_insert_name_multiset(s0, x);
        s0.to_multiset_ensures();
        spec_insert_name(s0, x).to_multiset_ensures();
        assert(s =~= s0.push(s.last()));
        assert(spec_insert_name(s, x).to_multiset() == spec_insert_name(s0, x).to_multiset()
            .insert(s.last()));
        assert(s0.to_multiset().insert(x).insert(s.last()) =~= s0.to_multiset().insert(
            s.last(),
        ).insert(x));
    }
}

/// Sorting by name is a permutation of the input (one half of the partition
/// law: the grouping pipeline neither drops nor invents directories).
pub proof fn lemma_sort_names_permutation(s: Seq<Seq<char>>)
    ensures
        spec_sort_names(s).to_multiset() == s.to_multiset(),
    decreases s.len(),
{
    s.to_multiset_ensures();
    if s.len() == 0 {
        assert(s =~= Seq::<Seq<char>>::empty());
        assert(spec_sort_names(s) =~= Seq::<Seq<char>>::empty());
    } else {
        let s0 = s.drop_last();
        s0.to_multiset_ensures();
        lemma_sort_names_permutation(s0);
        lemma_insert_name_multiset(spec_sort_names(s0), s.last());
        assert(s =~= s0.push(s.last()));
        assert(s.to_multiset() == s0.to_multiset().insert(s.last()));
        assert(spec_sort_names(s) == spec_insert_name(spec_sort_names(s0), s.last()));
        assert(spec_sort_names(s).to_multiset() == spec_sort_names(s0).to_multiset().insert(
            s.last(),
        ));
    }
}

/// Inserting into a keyed run adds exactly that element.
pub proof fn lemma_insert_keyed_multiset(s: Seq<Keyed>, x: Keyed)
    ensures
        spec_insert_keyed(s, x).to_multiset() == s.to_multiset().insert(x),
    decreases s.len(),
{
    s.to_multiset_ensures();
    if s.len() == 0 {
        assert(spec_insert_keyed(s, x) =~= Seq::<Keyed>::empty().push(x));
        Seq::<Keyed>::empty().to_multiset_ensures();
        assert(Seq::<Keyed>::empty().to_multiset() =~= Multiset::<Keyed>::empty());
        assert(s.to_multiset() =~= Multiset::<Keyed>::empty());
    } else if spec_key_le(s.last(), x) {
    } else {
        let s0 = s.drop_last();
        lemma_insert_keyed_multiset(s0, x);
        s0.to_multiset_ensures();
        spec_insert_keyed(s0, x).to_multiset_ensures();
        assert(s =~= s0.push(s.last()));
        assert(spec_insert_keyed(s, x).to_multiset() == spec_insert_keyed(s0, x).to_multiset()
            .insert(s.last()));
        assert(s0.to_multiset().insert(x).insert(s.last()) =~= s0.to_multiset().insert(
            s.last(),
        ).insert(x));
    }
}

/// Sorting by key is a permutation of the keyed run (the other half of the
/// partition law).
pub proof fn lemma_sort_keyed_permutation(s: Seq<Keyed>)
    ensures
        spec_sort_keyed(s).to_multiset() == s.to_multiset(),
    decreases s.len(),
{
    s.to_multiset_ensures();
    if s.len() == 0 {
        assert(s =~= Seq::<Keyed>::empty());
        assert(spec_sort_keyed(s) =~= Seq::<Keyed>::empty());
    } else {
        let s0 = s.drop_last();
        s0.to_multiset_ensures();
        lemma_sort_keyed_permutation(s0);
        lemma_insert_keyed_multiset(spec_sort_keyed(s0), s.last());
        assert(s =~= s0.push(s.last()));
        assert(s.to_multiset() == s0.to_multiset().insert(s.last()));
        assert(spec_sort_keyed(s) == spec_insert_keyed(spec_sort_keyed(s0), s.last()));
        assert(spec_sort_keyed(s).to_multiset() == spec_sort_keyed(s0).to_multiset().insert(
            s.last(),
        ));
    }
}

} // verus!
