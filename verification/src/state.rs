//! The persistent state of a project: directory values, completed
//! directories per action, and submitted jobs, together with the merge and
//! synchronization discipline over them.
//!
//! The three sections are association lists keyed by name; the model of each
//! is the corresponding sequence of (key, model) pairs. The caches travel as
//! bytes: the callers that read and write files hand the encoded sections in
//! and out.

use vstd::prelude::*;
use crate::error::Error;
use crate::text;
use crate::value::{value_model, Json, Value};
use crate::workflow::{spec_action_name, strs_model, Workflow};

verus! {

/// A first-match lookup in an association sequence.
pub open spec fn assoc_lookup<V>(s: Seq<(Seq<char>, V)>, k: Seq<char>) -> Option<V>
    decreases s.len(),
{
    if s.len() == 0 {
        None
    } else if s[0].0 == k {
        Some(s[0].1)
    } else {
        assoc_lookup(s.drop_first(), k)
    }
}

/// Whether an association sequence binds a key.
pub open spec fn assoc_has<V>(s: Seq<(Seq<char>, V)>, k: Seq<char>) -> bool {
    assoc_lookup(s, k) is Some
}

/// The keys of an association sequence.
pub open spec fn assoc_keys<V>(s: Seq<(Seq<char>, V)>) -> Seq<Seq<char>> {
    s.map_values(|p: (Seq<char>, V)| p.0)
}

/// A key is bound exactly when some pair carries it.
pub proof fn lemma_assoc_lookup<V>(s: Seq<(Seq<char>, V)>, k: Seq<char>)
    ensures
        assoc_has(s, k) <==> exists|i: int| 0 <= i < s.len() && (#[trigger] s[i]).0 == k,
        assoc_lookup(s, k) matches Some(v) ==> exists|i: int|
            0 <= i < s.len() && (#[trigger] s[i]).0 == k && s[i].1 == v,
    decreases s.len(),
{
    if s.len() != 0 {
        lemma_assoc_lookup(s.drop_first(), k);
        if s[0].0 == k {
        } else {
            assert(forall|i: int| 1 <= i < s.len() ==> #[trigger] s[i] == s.drop_first()[i - 1]);
            if assoc_has(s.drop_first(), k) {
                let i = choose|i: int|
                    0 <= i < s.drop_first().len() && (#[trigger] s.drop_first()[i]).0 == k;
                assert(s[i + 1].0 == k);
            }
            if exists|i: int| 0 <= i < s.len() && (#[trigger] s[i]).0 == k {
                let i = choose|i: int| 0 <= i < s.len() && (#[trigger] s[i]).0 == k;
                assert(s.drop_first()[i - 1].0 == k);
            }
        }
    }
}

/// When the first binding of `k` stands at index `i`, the lookup returns it.
pub proof fn lemma_assoc_lookup_at<V>(s: Seq<(Seq<char>, V)>, i: int, k: Seq<char>)
    requires
        0 <= i < s.len(),
        s[i].0 == k,
        forall|x: int| 0 <= x < i ==> (#[trigger] s[x]).0 != k,
    ensures
        assoc_lookup(s, k) == Some(s[i].1),
    decreases s.len(),
{
    if i > 0 {
        assert(forall|x: int| 1 <= x < s.len() ==> #[trigger] s[x] == s.drop_first()[x - 1]);
        lemma_assoc_lookup_at(s.drop_first(), i - 1, k);
    }
}

/// The model of the values section.
pub open spec fn values_m(s: Seq<(String, Value)>) -> Seq<(Seq<char>, Json)> {
    s.map_values(|p: (String, Value)| (p.0@, value_model(p.1)))
}

/// The model of the completed section.
pub open spec fn completed_m(s: Seq<(String, Vec<String>)>) -> Seq<(Seq<char>, Seq<Seq<char>>)> {
    s.map_values(|p: (String, Vec<String>)| (p.0@, strs_model(p.1@)))
}

/// The model of one submitted entry: directory, cluster, job id.
pub type SubmittedEntry = (Seq<char>, Seq<char>, u32);

/// The model of the submitted section.
pub open spec fn submitted_m(s: Seq<(String, Vec<(String, String, u32)>)>) -> Seq<
    (Seq<char>, Seq<SubmittedEntry>),
> {
    s.map_values(
        |p: (String, Vec<(String, String, u32)>)|
            (p.0@, p.1@.map_values(|e: (String, String, u32)| (e.0@, e.1@, e.2))),
    )
}

/// The state of the project.
///
/// Tracks the value of each workspace directory, the directories completed
/// for each action, and the jobs submitted for each action, together with
/// one modified flag per section so that only changed sections are written
/// back.
#[derive(Debug)]
pub struct State {
    /// The cached value of each directory.
    pub values: Vec<(String, Value)>,
    /// Completed directories for each action.
    pub completed: Vec<(String, Vec<String>)>,
    /// Submitted jobs for each action: directory, cluster, job id.
    pub submitted: Vec<(String, Vec<(String, String, u32)>)>,
    /// Names of the staged completion files read while synchronizing.
    pub completed_file_names: Vec<String>,
    /// Whether `values` differs from the on-disk cache.
    pub values_modified: bool,
    /// Whether `completed` differs from the on-disk cache.
    pub completed_modified: bool,
    /// Whether `submitted` differs from the on-disk cache.
    pub submitted_modified: bool,
}

impl State {
    /// The model of the values section.
    pub open spec fn values_model(&self) -> Seq<(Seq<char>, Json)> {
        values_m(self.values@)
    }

    /// The model of the completed section.
    pub open spec fn completed_model(&self) -> Seq<(Seq<char>, Seq<Seq<char>>)> {
        completed_m(self.completed@)
    }

    /// The model of the submitted section.
    pub open spec fn submitted_model(&self) -> Seq<(Seq<char>, Seq<SubmittedEntry>)> {
        submitted_m(self.submitted@)
    }

    /// Whether a directory is known to the state.
    pub open spec fn spec_has_directory(&self, d: Seq<char>) -> bool {
        assoc_has(self.values_model(), d)
    }

    /// The set of directories submitted for an action.
    pub open spec fn spec_submitted_entries(&self, action: Seq<char>) -> Seq<SubmittedEntry> {
        match assoc_lookup(self.submitted_model(), action) {
            Some(es) => es,
            None => Seq::empty(),
        }
    }

    /// Whether a directory has a submitted job for an action.
    pub open spec fn spec_is_submitted(&self, action: Seq<char>, d: Seq<char>) -> bool {
        exists|i: int|
            0 <= i < self.spec_submitted_entries(action).len() && (#[trigger] self
                .spec_submitted_entries(action)[i]).0 == d
    }

    /// The set of directories completed for an action.
    pub open spec fn spec_completed_dirs(&self, action: Seq<char>) -> Seq<Seq<char>> {
        match assoc_lookup(self.completed_model(), action) {
            Some(ds) => ds,
            None => Seq::empty(),
        }
    }

    /// Whether a directory is recorded as completed for an action.
    pub open spec fn spec_is_completed(&self, action: Seq<char>, d: Seq<char>) -> bool {
        self.spec_completed_dirs(action).contains(d)
    }

    /// A fresh, empty state with no modified sections.
    pub fn new() -> (r: State)
        ensures
            r.values_model() =~= Seq::empty(),
            r.completed_model() =~= Seq::empty(),
            r.submitted_model() =~= Seq::empty(),
            !r.spec_values_modified(),
            !r.spec_completed_modified(),
            !r.spec_submitted_modified(),
    {
        State {
            values: Vec::new(),
            completed: Vec::new(),
            submitted: Vec::new(),
            completed_file_names: Vec::new(),
            values_modified: false,
            completed_modified: false,
            submitted_modified: false,
        }
    }

    /// Whether the values section was modified.
    pub open spec fn spec_values_modified(&self) -> bool {
        self.values_modified
    }

    /// Whether the completed section was modified.
    pub open spec fn spec_completed_modified(&self) -> bool {
        self.completed_modified
    }

    /// Whether the submitted section was modified.
    pub open spec fn spec_submitted_modified(&self) -> bool {
        self.submitted_modified
    }

    /// Get the directory values.
    pub fn values<'a>(&'a self) -> (r: &'a Vec<(String, Value)>)
        ensures
            r == self.values,
    {
        &self.values
    }

    /// Get the completed directories of every action.
    pub fn completed<'a>(&'a self) -> (r: &'a Vec<(String, Vec<String>)>)
        ensures
            r == self.completed,
    {
        &self.completed
    }

    /// Get the submitted jobs of every action.
    pub fn submitted<'a>(&'a self) -> (r: &'a Vec<(String, Vec<(String, String, u32)>)>)
        ensures
            r == self.submitted,
    {
        &self.submitted
    }

    /// Look a directory's value up.
    #[verifier::loop_isolation(false)]
    pub fn value_of<'a>(&'a self, directory: &str) -> (r: Option<&'a Value>)
        ensures
            match r {
                Some(v) => assoc_lookup(self.values_model(), directory@) == Some(v@),
                None => assoc_lookup(self.values_model(), directory@) is None,
            },
    {
        let ghost m = self.values_model();
        let mut i: usize = 0;
        proof {
            assert(m.skip(0) =~= m);
        }
        while i < self.values.len()
            invariant
                i <= self.values@.len(),
                assoc_lookup(m, directory@) == assoc_lookup(m.skip(i as int), directory@),
            decreases self.values@.len() - i,
        {
            proof {
                assert(m.skip(i as int)[0] == m[i as int]);
                assert(m[i as int] == (self.values@[i as int].0@, value_model(
                    self.values@[i as int].1,
                )));
                assert(m.skip(i as int).drop_first() =~= m.skip(i as int + 1));
            }
            if text::str_eq(self.values[i].0.as_str(), directory) {
                return Some(&self.values[i].1);
            }
            i = i + 1;
        }
        proof {
            assert(m.skip(self.values@.len() as int).len() == 0);
        }
        None
    }

    /// List all directories in the state.
    #[verifier::loop_isolation(false)]
    pub fn list_directories(&self) -> (r: Vec<String>)
        ensures
            strs_model(r@) == assoc_keys(self.values_model()),
    {
        let mut r: Vec<String> = Vec::new();
        let mut i: usize = 0;
        while i < self.values.len()
            invariant
                i <= self.values@.len(),
                r@.len() == i,
                forall|j: int| 0 <= j < i ==> (#[trigger] r@[j])@ == self.values@[j].0@,
            decreases self.values@.len() - i,
        {
            r.push(self.values[i].0.clone());
            i = i + 1;
        }
        proof {
            assert(strs_model(r@) =~= assoc_keys(self.values_model()));
        }
        r
    }

    /// Test whether a given directory has a submitted job for the action.
    #[verifier::loop_isolation(false)]
    pub fn is_submitted(&self, action_name: &str, directory: &str) -> (r: bool)
        ensures
            r == self.spec_is_submitted(action_name@, directory@),
    {
        let ghost m = self.submitted_model();
        let ghost es = self.spec_submitted_entries(action_name@);
        let mut i: usize = 0;
        proof {
            assert(m.skip(0) =~= m);
        }
        while i < self.submitted.len()
            invariant
                i <= self.submitted@.len(),
                assoc_lookup(m, action_name@) == assoc_lookup(m.skip(i as int), action_name@),
            decreases self.submitted@.len() - i,
        {
            proof {
                assert(m.skip(i as int)[0] == m[i as int]);
                assert(m[i as int].0 == self.submitted@[i as int].0@);
                assert(m.skip(i as int).drop_first() =~= m.skip(i as int + 1));
            }
            if text::str_eq(self.submitted[i].0.as_str(), action_name) {
                // Scan this action's entries for the directory.
                let entries = &self.submitted[i].1;
                proof {
                    assert(es == m[i as int].1);
                }
                let mut j: usize = 0;
                while j < entries.len()
                    invariant
                        j <= entries@.len(),
                        es.len() == entries@.len(),
                        es == m[i as int].1,
                        m[i as int].1 == entries@.map_values(
                            |e: (String, String, u32)| (e.0@, e.1@, e.2),
                        ),
                        forall|x: int| 0 <= x < j ==> (#[trigger] es[x]).0 != directory@,
                    decreases entries@.len() - j,
                {
                    proof {
                        assert(es[j as int] == (entries@[j as int].0@, entries@[j as int].1@,
                        entries@[j as int].2));
                    }
                    if text::str_eq(entries[j].0.as_str(), directory) {
                        return true;
                    }
                    j = j + 1;
                }
                return false;
            }
            i = i + 1;
        }
        proof {
            assert(m.skip(self.submitted@.len() as int).len() == 0);
        }
        false
    }
}

} // verus!

verus! {

/// Whether a string list contains a string.
#[verifier::loop_isolation(false)]
pub fn contains_str(v: &Vec<String>, s: &str) -> (r: bool)
    ensures
        r == strs_model(v@).contains(s@),
{
    let mut i: usize = 0;
    while i < v.len()
        invariant
            i <= v@.len(),
            forall|j: int| 0 <= j < i ==> (#[trigger] v@[j])@ != s@,
        decreases v@.len() - i,
    {
        if text::str_eq(v[i].as_str(), s) {
            proof {
                assert(strs_model(v@)[i as int] == s@);
            }
            return true;
        }
        i = i + 1;
    }
    proof {
        if strs_model(v@).contains(s@) {
            let j = choose|j: int| 0 <= j < strs_model(v@).len() && strs_model(v@)[j] == s@;
            assert(v@[j]@ == s@);
        }
    }
    false
}

/// Whether a number list contains a number.
#[verifier::loop_isolation(false)]
pub fn contains_u32(v: &Vec<u32>, x: u32) -> (r: bool)
    ensures
        r == v@.contains(x),
{
    let mut i: usize = 0;
    while i < v.len()
        invariant
            i <= v@.len(),
            forall|j: int| 0 <= j < i ==> v@[j] != x,
        decreases v@.len() - i,
    {
        if v[i] == x {
            return true;
        }
        i = i + 1;
    }
    false
}

/// The cluster and job recorded for a directory among an action's entries.
pub open spec fn spec_entry_job(es: Seq<SubmittedEntry>, d: Seq<char>) -> Option<(Seq<char>, u32)>
    decreases es.len(),
{
    if es.len() == 0 {
        None
    } else if es[0].0 == d {
        Some((es[0].1, es[0].2))
    } else {
        spec_entry_job(es.drop_first(), d)
    }
}

impl State {
    /// The cluster and job recorded for a directory under an action.
    pub open spec fn spec_submitted_job(&self, action: Seq<char>, d: Seq<char>) -> Option<
        (Seq<char>, u32),
    > {
        spec_entry_job(self.spec_submitted_entries(action), d)
    }

    /// Add a submitted job: record `(cluster, job_id)` for every given
    /// directory under the action, leaving every other record alone.
    #[verifier::loop_isolation(false)]
    #[verifier::rlimit(100)]
    pub fn add_submitted(
        &mut self,
        action_name: &str,
        directories: &Vec<String>,
        cluster_name: &str,
        job_id: u32,
    )
        ensures
            final(self).values == old(self).values,
            final(self).completed == old(self).completed,
            final(self).completed_file_names == old(self).completed_file_names,
            final(self).values_modified == old(self).values_modified,
            final(self).completed_modified == old(self).completed_modified,
            final(self).submitted_modified,
            forall|d: Seq<char>|
                strs_model(directories@).contains(d) ==> final(self).spec_submitted_job(
                    action_name@,
                    d,
                ) == Some((cluster_name@, job_id)),
            forall|a: Seq<char>, d: Seq<char>|
                !(a == action_name@ && strs_model(directories@).contains(d))
                    ==> final(self).spec_submitted_job(a, d) == old(self).spec_submitted_job(
                    a,
                    d,
                ),
            forall|a: Seq<char>|
                assoc_has(final(self).submitted_model(), a) <==> assoc_has(
                    old(self).submitted_model(),
                    a,
                ) || (a == action_name@ && directories@.len() > 0),
    {
        let ghost dm = strs_model(directories@);
        let mut k: usize = 0;
        while k < directories.len()
            invariant
                k <= directories@.len(),
                dm == strs_model(directories@),
                self.values == old(self).values,
                self.completed == old(self).completed,
                self.completed_file_names == old(self).completed_file_names,
                self.values_modified == old(self).values_modified,
                self.completed_modified == old(self).completed_modified,
                forall|d: Seq<char>|
                    dm.take(k as int).contains(d) ==> self.spec_submitted_job(action_name@, d)
                        == Some((cluster_name@, job_id)),
                forall|a: Seq<char>, d: Seq<char>|
                    !(a == action_name@ && dm.take(k as int).contains(d))
                        ==> self.spec_submitted_job(a, d) == old(self).spec_submitted_job(a, d),
                forall|a: Seq<char>|
                    assoc_has(self.submitted_model(), a) <==> assoc_has(
                        old(self).submitted_model(),
                        a,
                    ) || (a == action_name@ && k > 0),
            decreases directories@.len() - k,
        {
            let ghost prev = *self;
            let dk = directories[k].clone();
            self.put_submitted(action_name, &dk, cluster_name, job_id);
            proof {
                assert(dk@ == directories@[k as int]@);
            }
            proof {
                assert(dm.take(k as int + 1) =~= dm.take(k as int).push(dm[k as int]));
                assert(dm[k as int] == directories@[k as int]@);
                assert forall|d: Seq<char>| dm.take(k as int + 1).contains(d) implies self
                    .spec_submitted_job(action_name@, d) == Some((cluster_name@, job_id)) by {
                    if !dm.take(k as int).contains(d) {
                        assert(d == dm[k as int]);
                    } else {
                        if d != dm[k as int] {
                            assert(self.spec_submitted_job(action_name@, d) == prev
                                .spec_submitted_job(action_name@, d));
                        }
                    }
                }
                assert forall|a: Seq<char>, d: Seq<char>|
                    !(a == action_name@ && dm.take(k as int + 1).contains(d)) implies self
                    .spec_submitted_job(a, d) == old(self).spec_submitted_job(a, d) by {
                    if !(a == action_name@ && d == directories@[k as int]@) {
                        assert(self.spec_submitted_job(a, d) == prev.spec_submitted_job(a, d));
                        if dm.take(k as int).contains(d) {
                            let x = choose|x: int|
                                0 <= x < k && dm.take(k as int)[x] == d;
                            assert(dm.take(k as int + 1)[x] == d);
                        }
                    } else {
                        assert(dm.take(k as int + 1)[k as int] == d);
                        assert(dm.take(k as int + 1).contains(d));
                    }
                }
            }
            k = k + 1;
        }
        proof {
            assert(dm.take(directories@.len() as int) =~= dm);
        }
        self.submitted_modified = true;
    }

    /// Record one directory's job under an action.
    #[verifier::loop_isolation(false)]
    #[verifier::rlimit(100)]
    fn put_submitted(&mut self, action_name: &str, directory: &String, cluster_name: &str, job_id: u32)
        ensures
            final(self).values == old(self).values,
            final(self).completed == old(self).completed,
            final(self).completed_file_names == old(self).completed_file_names,
            final(self).values_modified == old(self).values_modified,
            final(self).completed_modified == old(self).completed_modified,
            final(self).submitted_modified == old(self).submitted_modified,
            final(self).spec_submitted_job(action_name@, directory@) == Some(
                (cluster_name@, job_id),
            ),
            forall|a: Seq<char>, d: Seq<char>|
                !(a == action_name@ && d == directory@) ==> final(self).spec_submitted_job(a, d)
                    == old(self).spec_submitted_job(a, d),
            forall|a: Seq<char>|
                assoc_has(final(self).submitted_model(), a) <==> assoc_has(
                    old(self).submitted_model(),
                    a,
                ) || a == action_name@,
    {
        let ghost m0 = self.submitted_model();
        let mut i: usize = 0;
        let n = self.submitted.len();
        while i < n
            invariant
                i <= n,
                n == self.submitted@.len(),
                self == old(self),
                forall|j: int| 0 <= j < i ==> (#[trigger] m0[j]).0 != action_name@,
                m0 == self.submitted_model(),
            decreases n - i,
        {
            proof {
                assert(m0[i as int].0 == self.submitted@[i as int].0@);
            }
            if text::str_eq(self.submitted[i].0.as_str(), action_name) {
                // Found the action: record the directory in its entries.
                let ghost es0 = m0[i as int].1;
                let mut entries = clone_submitted_entries(&self.submitted[i].1);
                let mut j: usize = 0;
                let mut replaced = false;
                let ghost em = es0;
                while j < entries.len()
                    invariant
                        j <= entries@.len(),
                        !replaced ==> submitted_entries_m(entries@) == es0,
                        !replaced ==> forall|x: int|
                            0 <= x < j ==> (#[trigger] es0[x]).0 != directory@,
                        replaced ==> submitted_entries_m(entries@) =~= es0.update(
                            spec_entry_first(es0, directory@),
                            (directory@, cluster_name@, job_id),
                        ) && spec_entry_first(es0, directory@) < j,
                        replaced ==> 0 <= spec_entry_first(es0, directory@) < es0.len()
                            && es0[spec_entry_first(es0, directory@)].0 == directory@ && forall|
                            x: int,
                        |
                            0 <= x < spec_entry_first(es0, directory@) ==> (#[trigger] es0[x]).0
                                != directory@,
                        entries@.len() == es0.len(),
                    decreases entries@.len() - j,
                {
                    if !replaced {
                        proof {
                            assert(submitted_entries_m(entries@)[j as int] == (
                            entries@[j as int].0@,
                            entries@[j as int].1@,
                            entries@[j as int].2,
                            ));
                        }
                        if text::str_eq(entries[j].0.as_str(), directory.as_str()) {
                            let ghost pre = submitted_entries_m(entries@);
                            entries.set(
                                j,
                                (directory.clone(), cluster_name.to_owned(), job_id),
                            );
                            replaced = true;
                            proof {
                                assert(spec_entry_first(es0, directory@) == j) by {
                                    lemma_entry_first(es0, directory@);
                                }
                                assert(submitted_entries_m(entries@) =~= es0.update(
                                    j as int,
                                    (directory@, cluster_name@, job_id),
                                ));
                            }
                        }
                    }
                    j = j + 1;
                }
                if !replaced {
                    entries.push((directory.clone(), cluster_name.to_owned(), job_id));
                    proof {
                        assert(submitted_entries_m(entries@) =~= es0.push(
                            (directory@, cluster_name@, job_id),
                        ));
                    }
                }
                let ghost em_new = submitted_entries_m(entries@);
                let key = self.submitted[i].0.clone();
                self.submitted.set(i, (key, entries));
                proof {
                    if !replaced {
                        lemma_entry_first(es0, directory@);
                        if spec_entry_first(es0, directory@) < es0.len() {
                            assert((es0[spec_entry_first(es0, directory@)]).0 != directory@);
                            assert(false);
                        }
                    } else {
                        lemma_entry_first(es0, directory@);
                    }
                    assert(self.submitted_model() =~= m0.update(
                        i as int,
                        (m0[i as int].0, em_new),
                    ));
                    lemma_assoc_lookup_update(m0, i as int, em_new, action_name@);
                    lemma_entry_job_update(es0, em_new, directory@, cluster_name@, job_id);
                    assert(assoc_lookup(self.submitted_model(), action_name@) == Some(em_new));
                    assert(self.spec_submitted_entries(action_name@) == em_new);
                    lemma_assoc_lookup_at(m0, i as int, action_name@);
                    assert(assoc_lookup(m0, action_name@) == Some(es0));
                    assert forall|a: Seq<char>, d: Seq<char>|
                        !(a == action_name@ && d == directory@) implies self.spec_submitted_job(
                        a,
                        d,
                    ) == old(self).spec_submitted_job(a, d) by {
                        if a == action_name@ {
                            assert(old(self).spec_submitted_entries(a) == es0);
                            assert(spec_entry_job(em_new, d) == spec_entry_job(es0, d));
                        } else {
                            assert(assoc_lookup(self.submitted_model(), a) == assoc_lookup(
                                m0,
                                a,
                            ));
                        }
                    }
                    assert forall|a: Seq<char>|
                        assoc_has(self.submitted_model(), a) <==> assoc_has(m0, a) || a
                            == action_name@ by {
                        if a == action_name@ {
                            assert(assoc_has(m0, a)) by {
                                lemma_assoc_lookup(m0, a);
                            }
                        } else {
                            assert(assoc_lookup(self.submitted_model(), a) == assoc_lookup(
                                m0,
                                a,
                            ));
                        }
                    }
                }
                return ;
            }
            i = i + 1;
        }
        // The action has no entries yet: append a singleton.
        let mut entries: Vec<(String, String, u32)> = Vec::new();
        entries.push((directory.clone(), cluster_name.to_owned(), job_id));
        self.submitted.push((action_name.to_owned(), entries));
        proof {
            let ghost em_new = submitted_entries_m(entries@);
            assert(em_new =~= Seq::<SubmittedEntry>::empty().push(
                (directory@, cluster_name@, job_id),
            ));
            assert(self.submitted_model() =~= m0.push((action_name@, em_new)));
            lemma_assoc_lookup_push(m0, action_name@, em_new);
            assert(!assoc_has(m0, action_name@)) by {
                lemma_assoc_lookup(m0, action_name@);
                if assoc_has(m0, action_name@) {
                    let x = choose|x: int| 0 <= x < m0.len() && (#[trigger] m0[x]).0
                        == action_name@;
                    assert(m0[x].0 != action_name@);
                }
            }
            assert(assoc_lookup(self.submitted_model(), action_name@) == Some(em_new));
            assert(spec_entry_job(em_new, directory@) == Some((cluster_name@, job_id)));
            assert forall|a: Seq<char>, d: Seq<char>|
                !(a == action_name@ && d == directory@) implies self.spec_submitted_job(a, d)
                    == old(self).spec_submitted_job(a, d) by {
                if a == action_name@ {
                    assert(assoc_lookup(old(self).submitted_model(), a) is None);
                    assert(old(self).spec_submitted_entries(a) == Seq::<SubmittedEntry>::empty());
                    assert(em_new.drop_first() =~= Seq::<SubmittedEntry>::empty());
                    assert(spec_entry_job(em_new, d) == spec_entry_job(em_new.drop_first(), d));
                } else {
                    if assoc_has(m0, a) {
                        assert(assoc_lookup(self.submitted_model(), a) == assoc_lookup(m0, a));
                    } else {
                        assert(assoc_lookup(self.submitted_model(), a) is None);
                        assert(assoc_lookup(m0, a) is None);
                    }
                }
            }
            assert forall|a: Seq<char>|
                assoc_has(self.submitted_model(), a) <==> assoc_has(m0, a) || a
                    == action_name@ by {
                if a != action_name@ {
                    if assoc_has(m0, a) {
                        assert(assoc_lookup(self.submitted_model(), a) == assoc_lookup(m0, a));
                    } else {
                        assert(assoc_lookup(self.submitted_model(), a) is None);
                    }
                }
            }
        }
    }
}

/// The model of one action's submitted entries.
pub open spec fn submitted_entries_m(s: Seq<(String, String, u32)>) -> Seq<SubmittedEntry> {
    s.map_values(|e: (String, String, u32)| (e.0@, e.1@, e.2))
}

/// First index of a directory among an action's entries.
pub open spec fn spec_entry_first(es: Seq<SubmittedEntry>, d: Seq<char>) -> int
    decreases es.len(),
{
    if es.len() == 0 {
        0
    } else if es[0].0 == d {
        0
    } else {
        1 + spec_entry_first(es.drop_first(), d)
    }
}

/// `spec_entry_first` finds the first entry for the directory.
pub proof fn lemma_entry_first(es: Seq<SubmittedEntry>, d: Seq<char>)
    ensures
        0 <= spec_entry_first(es, d) <= es.len(),
        spec_entry_first(es, d) < es.len() ==> es[spec_entry_first(es, d)].0 == d,
        forall|x: int| 0 <= x < spec_entry_first(es, d) ==> (#[trigger] es[x]).0 != d,
    decreases es.len(),
{
    if es.len() != 0 && es[0].0 != d {
        lemma_entry_first(es.drop_first(), d);
        assert(forall|x: int| 1 <= x < es.len() ==> #[trigger] es[x] == es.drop_first()[x - 1]);
    }
}

/// Copy an action's submitted entries.
#[verifier::loop_isolation(false)]
fn clone_submitted_entries(v: &Vec<(String, String, u32)>) -> (r: Vec<(String, String, u32)>)
    ensures
        submitted_entries_m(r@) == submitted_entries_m(v@),
        r@.len() == v@.len(),
{
    let mut r: Vec<(String, String, u32)> = Vec::new();
    let mut i: usize = 0;
    while i < v.len()
        invariant
            i <= v@.len(),
            r@.len() == i,
            forall|j: int|
                0 <= j < i ==> (#[trigger] r@[j]).0@ == v@[j].0@ && r@[j].1@ == v@[j].1@
                    && r@[j].2 == v@[j].2,
        decreases v@.len() - i,
    {
        r.push((v[i].0.clone(), v[i].1.clone(), v[i].2));
        i = i + 1;
    }
    proof {
        assert(submitted_entries_m(r@) =~= submitted_entries_m(v@));
    }
    r
}

/// After updating the first entry bound to `k`, lookups of `k` see the new
/// value and lookups of other keys are unchanged.
pub proof fn lemma_assoc_lookup_update<V>(s: Seq<(Seq<char>, V)>, j: int, v: V, k: Seq<char>)
    requires
        0 <= j < s.len(),
        s[j].0 == k,
        forall|x: int| 0 <= x < j ==> (#[trigger] s[x]).0 != k,
    ensures
        assoc_lookup(s.update(j, (s[j].0, v)), k) == Some(v),
        forall|k2: Seq<char>|
            k2 != k ==> assoc_lookup(s.update(j, (s[j].0, v)), k2) == assoc_lookup(s, k2),
    decreases s.len(),
{
    let s2 = s.update(j, (s[j].0, v));
    if j == 0 {
        assert(s2[0] == (s[0].0, v));
        assert forall|k2: Seq<char>| k2 != k implies assoc_lookup(s2, k2) == assoc_lookup(
            s,
            k2,
        ) by {
            assert(s2.drop_first() =~= s.drop_first());
        }
    } else {
        lemma_assoc_lookup_update(s.drop_first(), j - 1, v, k);
        assert(s2.drop_first() =~= s.drop_first().update(j - 1, (s.drop_first()[j - 1].0, v)));
        assert(s2[0] == s[0]);
        assert(s[0].0 != k);
        let sd2 = s.drop_first().update(j - 1, (s.drop_first()[j - 1].0, v));
        assert(s2.drop_first() == sd2);
        assert(assoc_lookup(s2, k) == Some(v)) by {
            assert(assoc_lookup(s2, k) == assoc_lookup(s2.drop_first(), k));
            assert(assoc_lookup(s2.drop_first(), k) == assoc_lookup(sd2, k));
            assert(assoc_lookup(sd2, k) == Some(v));
        }
        assert forall|k2: Seq<char>| k2 != k implies assoc_lookup(s2, k2) == assoc_lookup(
            s,
            k2,
        ) by {
            if s2[0].0 == k2 {
                assert(assoc_lookup(s2, k2) == Some(s2[0].1));
                assert(assoc_lookup(s, k2) == Some(s[0].1));
            } else {
                assert(assoc_lookup(s2, k2) == assoc_lookup(s2.drop_first(), k2));
                assert(assoc_lookup(s, k2) == assoc_lookup(s.drop_first(), k2));
                assert(assoc_lookup(s2.drop_first(), k2) == assoc_lookup(sd2, k2));
                assert(assoc_lookup(sd2, k2) == assoc_lookup(s.drop_first(), k2));
            }
        }
    }
}

/// After pushing a binding, lookups of already-bound keys are unchanged, the
/// pushed key resolves (to the pushed value when it was unbound), and other
/// keys stay unbound.
pub proof fn lemma_assoc_lookup_push<V>(s: Seq<(Seq<char>, V)>, k: Seq<char>, v: V)
    ensures
        forall|k2: Seq<char>|
            assoc_has(s, k2) ==> assoc_lookup(s.push((k, v)), k2) == assoc_lookup(s, k2),
        !assoc_has(s, k) ==> assoc_lookup(s.push((k, v)), k) == Some(v),
        forall|k2: Seq<char>|
            !assoc_has(s, k2) && k2 != k ==> assoc_lookup(s.push((k, v)), k2) is None,
    decreases s.len(),
{
    let s2 = s.push((k, v));
    if s.len() == 0 {
        assert(s2[0] == (k, v));
        assert(s2.drop_first() =~= Seq::<(Seq<char>, V)>::empty());
        assert(assoc_lookup(s2, k) == Some(v));
        assert forall|k2: Seq<char>| !assoc_has(s, k2) && k2 != k implies assoc_lookup(
            s2,
            k2,
        ) is None by {
            assert(assoc_lookup(s2, k2) == assoc_lookup(s2.drop_first(), k2));
        }
    } else {
        lemma_assoc_lookup_push(s.drop_first(), k, v);
        let sd2 = s.drop_first().push((k, v));
        assert(s2.drop_first() =~= sd2);
        assert(s2[0] == s[0]);
        assert forall|k2: Seq<char>| assoc_has(s, k2) implies assoc_lookup(s2, k2)
            == assoc_lookup(s, k2) by {
            if s[0].0 == k2 {
                assert(assoc_lookup(s2, k2) == Some(s2[0].1));
                assert(assoc_lookup(s, k2) == Some(s[0].1));
            } else {
                assert(assoc_has(s.drop_first(), k2));
                assert(assoc_lookup(s2, k2) == assoc_lookup(s2.drop_first(), k2));
                assert(assoc_lookup(s, k2) == assoc_lookup(s.drop_first(), k2));
                assert(assoc_lookup(s2.drop_first(), k2) == assoc_lookup(sd2, k2));
                assert(assoc_lookup(sd2, k2) == assoc_lookup(s.drop_first(), k2));
            }
        }
        if !assoc_has(s, k) {
            assert(s[0].0 != k);
            assert(!assoc_has(s.drop_first(), k));
            assert(assoc_lookup(s2, k) == assoc_lookup(s2.drop_first(), k));
            assert(assoc_lookup(s2.drop_first(), k) == assoc_lookup(sd2, k));
            assert(assoc_lookup(sd2, k) == Some(v));
        }
        assert forall|k2: Seq<char>| !assoc_has(s, k2) && k2 != k implies assoc_lookup(
            s2,
            k2,
        ) is None by {
            assert(s[0].0 != k2);
            assert(!assoc_has(s.drop_first(), k2));
            assert(assoc_lookup(s2, k2) == assoc_lookup(s2.drop_first(), k2));
            assert(assoc_lookup(s2.drop_first(), k2) == assoc_lookup(sd2, k2));
            assert(assoc_lookup(sd2, k2) is None);
        }
    }
}

/// Updating an action's entries at the first index of `d` records the new
/// job for `d` and no other directory.
pub proof fn lemma_entry_job_update(
    es0: Seq<SubmittedEntry>,
    es1: Seq<SubmittedEntry>,
    d: Seq<char>,
    c: Seq<char>,
    j: u32,
)
    requires
        spec_entry_first(es0, d) < es0.len() ==> es1 == es0.update(
            spec_entry_first(es0, d),
            (d, c, j),
        ),
        spec_entry_first(es0, d) == es0.len() ==> es1 == es0.push((d, c, j)),
        0 <= spec_entry_first(es0, d) <= es0.len(),
        spec_entry_first(es0, d) < es0.len() ==> es0[spec_entry_first(es0, d)].0 == d,
        forall|x: int| 0 <= x < spec_entry_first(es0, d) ==> (#[trigger] es0[x]).0 != d,
    ensures
        spec_entry_job(es1, d) == Some((c, j)),
        forall|d2: Seq<char>| d2 != d ==> spec_entry_job(es1, d2) == spec_entry_job(es0, d2),
    decreases es0.len(),
{
    let f = spec_entry_first(es0, d);
    if es0.len() == 0 {
        assert(es1[0] == (d, c, j));
        assert(es1.drop_first() =~= Seq::<SubmittedEntry>::empty());
        assert forall|d2: Seq<char>| d2 != d implies spec_entry_job(es1, d2) == spec_entry_job(
            es0,
            d2,
        ) by {
            assert(spec_entry_job(es1, d2) == spec_entry_job(es1.drop_first(), d2));
        }
    } else if f == 0 {
        assert(es1[0] == (d, c, j));
        assert forall|d2: Seq<char>| d2 != d implies spec_entry_job(es1, d2) == spec_entry_job(
            es0,
            d2,
        ) by {
            assert(es1.drop_first() =~= es0.drop_first());
            assert(es0[0].0 == d);
            assert(spec_entry_job(es1, d2) == spec_entry_job(es1.drop_first(), d2));
            assert(spec_entry_job(es0, d2) == spec_entry_job(es0.drop_first(), d2));
        }
    } else {
        assert(es1[0] == es0[0]);
        assert(es0[0].0 != d);
        assert(spec_entry_first(es0.drop_first(), d) == f - 1);
        if f < es0.len() {
            assert(es1.drop_first() =~= es0.drop_first().update(f - 1, (d, c, j)));
        } else {
            assert(es1.drop_first() =~= es0.drop_first().push((d, c, j)));
        }
        assert(forall|x: int|
            1 <= x < es0.len() ==> #[trigger] es0[x] == es0.drop_first()[x - 1]);
        lemma_entry_job_update(es0.drop_first(), es1.drop_first(), d, c, j);
        assert(spec_entry_job(es1, d) == spec_entry_job(es1.drop_first(), d));
        assert forall|d2: Seq<char>| d2 != d implies spec_entry_job(es1, d2) == spec_entry_job(
            es0,
            d2,
        ) by {
            if es0[0].0 == d2 {
                assert(spec_entry_job(es1, d2) == Some((es1[0].1, es1[0].2)));
                assert(spec_entry_job(es0, d2) == Some((es0[0].1, es0[0].2)));
            } else {
                assert(spec_entry_job(es1, d2) == spec_entry_job(es1.drop_first(), d2));
                assert(spec_entry_job(es0, d2) == spec_entry_job(es0.drop_first(), d2));
            }
        }
    }
}

} // verus!

verus! {

/// Whether a stack of staged packs records `(action, directory)`.
pub open spec fn spec_packs_have(
    packs: Seq<Seq<(Seq<char>, Seq<Seq<char>>)>>,
    a: Seq<char>,
    d: Seq<char>,
) -> bool {
    exists|p: int, i: int|
        0 <= p < packs.len() && 0 <= i < packs[p].len() && (#[trigger] packs[p][i]).0 == a
            && packs[p][i].1.contains(d)
}

/// Whether one pack records `(action, directory)`.
pub open spec fn spec_pack_has(
    pack: Seq<(Seq<char>, Seq<Seq<char>>)>,
    a: Seq<char>,
    d: Seq<char>,
) -> bool {
    exists|i: int| 0 <= i < pack.len() && (#[trigger] pack[i]).0 == a && pack[i].1.contains(d)
}

/// Whether a pack binds an action at all.
pub open spec fn spec_pack_has_key(pack: Seq<(Seq<char>, Seq<Seq<char>>)>, a: Seq<char>) -> bool {
    exists|i: int| 0 <= i < pack.len() && (#[trigger] pack[i]).0 == a
}

/// Append a directory to a set-like list unless it is already there.
#[verifier::loop_isolation(false)]
fn push_missing(dirs: &mut Vec<String>, d: &String)
    ensures
        strs_model(final(dirs)@) == spec_add_dir(strs_model(old(dirs)@), d@),
{
    let ghost before = strs_model(old(dirs)@);
    let had = contains_str(dirs, d.as_str());
    if !had {
        dirs.push(d.clone());
        proof {
            assert(strs_model(dirs@) =~= before.push(d@));
        }
    }
}

/// A directory added to a set-like list, unless already present.
pub open spec fn spec_add_dir(ds: Seq<Seq<char>>, d: Seq<char>) -> Seq<Seq<char>> {
    if ds.contains(d) {
        ds
    } else {
        ds.push(d)
    }
}

/// The union of a set-like list with a prefix of another list.
pub open spec fn spec_add_dirs(ds: Seq<Seq<char>>, new: Seq<Seq<char>>, j: int) -> Seq<Seq<char>>
    decreases j,
{
    if j <= 0 {
        ds
    } else {
        spec_add_dir(spec_add_dirs(ds, new, j - 1), new[j - 1])
    }
}

/// Membership in the built union.
pub proof fn lemma_add_dirs_contains(ds: Seq<Seq<char>>, new: Seq<Seq<char>>, j: int)
    requires
        0 <= j <= new.len(),
    ensures
        forall|d: Seq<char>|
            spec_add_dirs(ds, new, j).contains(d) <==> ds.contains(d) || new.take(j).contains(
                d,
            ),
    decreases j,
{
    if j > 0 {
        lemma_add_dirs_contains(ds, new, j - 1);
        let prev = spec_add_dirs(ds, new, j - 1);
        let cur = spec_add_dirs(ds, new, j);
        assert forall|d: Seq<char>|
            cur.contains(d) <==> ds.contains(d) || new.take(j).contains(d) by {
            if cur.contains(d) {
                if !prev.contains(d) {
                    let i = choose|i: int| 0 <= i < cur.len() && cur[i] == d;
                    if i < prev.len() {
                        assert(prev[i] == d);
                    } else {
                        assert(d == new[j - 1]);
                        assert(new.take(j)[j - 1] == d);
                    }
                } else {
                    if !ds.contains(d) {
                        let x = choose|x: int| 0 <= x < j - 1 && #[trigger] new.take(j - 1)[x] == d;
                        assert(new.take(j)[x] == d);
                    }
                }
            }
            if ds.contains(d) {
                if prev.contains(d) {
                    let i = choose|i: int| 0 <= i < prev.len() && prev[i] == d;
                    if cur != prev {
                        assert(cur[i] == d);
                    }
                }
            }
            if new.take(j).contains(d) {
                let x = choose|x: int| 0 <= x < j && new.take(j)[x] == d;
                if x < j - 1 {
                    assert(new.take(j - 1)[x] == d);
                    let i = choose|i: int| 0 <= i < prev.len() && prev[i] == d;
                    if cur != prev {
                        assert(cur[i] == d);
                    }
                } else {
                    assert(d == new[j - 1]);
                    if !prev.contains(d) {
                        assert(cur == prev.push(d));
                        assert(cur[prev.len() as int] == d);
                    }
                }
            }
        }
    }
}

impl State {
    /// Merge one staged completion pack into the completed section: the
    /// union, action by action.
    #[verifier::loop_isolation(false)]
    #[verifier::rlimit(100)]
    pub fn insert_staged_completed(&mut self, new_complete: &Vec<(String, Vec<String>)>)
        ensures
            final(self).values == old(self).values,
            final(self).submitted == old(self).submitted,
            final(self).completed_file_names == old(self).completed_file_names,
            final(self).values_modified == old(self).values_modified,
            final(self).submitted_modified == old(self).submitted_modified,
            final(self).completed_modified == (old(self).completed_modified
                || new_complete@.len() > 0),
            forall|a: Seq<char>, d: Seq<char>|
                final(self).spec_is_completed(a, d) <==> old(self).spec_is_completed(a, d)
                    || spec_pack_has(completed_m(new_complete@), a, d),
            forall|a: Seq<char>|
                assoc_has(final(self).completed_model(), a) <==> assoc_has(
                    old(self).completed_model(),
                    a,
                ) || spec_pack_has_key(completed_m(new_complete@), a),
    {
        let ghost pm = completed_m(new_complete@);
        let mut k: usize = 0;
        while k < new_complete.len()
            invariant
                k <= new_complete@.len(),
                pm == completed_m(new_complete@),
                pm.len() == new_complete@.len(),
                self.values == old(self).values,
                self.submitted == old(self).submitted,
                self.completed_file_names == old(self).completed_file_names,
                self.values_modified == old(self).values_modified,
                self.submitted_modified == old(self).submitted_modified,
                self.completed_modified == old(self).completed_modified,
                forall|a: Seq<char>, d: Seq<char>|
                    self.spec_is_completed(a, d) <==> old(self).spec_is_completed(a, d)
                        || spec_pack_has(pm.take(k as int), a, d),
                forall|a: Seq<char>|
                    assoc_has(self.completed_model(), a) <==> assoc_has(
                        old(self).completed_model(),
                        a,
                    ) || spec_pack_has_key(pm.take(k as int), a),
            decreases new_complete@.len() - k,
        {
            let ghost prev = *self;
            self.merge_completed_entry(&new_complete[k].0, &new_complete[k].1);
            proof {
                assert(pm[k as int] == (new_complete@[k as int].0@, strs_model(
                    new_complete@[k as int].1@,
                )));
                assert(pm.take(k as int + 1) =~= pm.take(k as int).push(pm[k as int]));
                assert forall|a: Seq<char>, d: Seq<char>|
                    self.spec_is_completed(a, d) <==> (old(self).spec_is_completed(a, d)
                        || spec_pack_has(pm.take(k as int + 1), a, d)) by {
                    if self.spec_is_completed(a, d) {
                        if !prev.spec_is_completed(a, d) {
                            assert(a == pm[k as int].0 && pm[k as int].1.contains(d));
                            assert(pm.take(k as int + 1)[k as int] == pm[k as int]);
                        } else {
                            if !old(self).spec_is_completed(a, d) {
                                let i0 = choose|i: int|
                                    0 <= i < pm.take(k as int).len() && (#[trigger] pm.take(
                                        k as int,
                                    )[i]).0 == a && pm.take(k as int)[i].1.contains(d);
                                assert(pm.take(k as int + 1)[i0] == pm.take(k as int)[i0]);
                            }
                        }
                    }
                    if spec_pack_has(pm.take(k as int + 1), a, d) && !spec_pack_has(
                        pm.take(k as int),
                        a,
                        d,
                    ) {
                        let i0 = choose|i: int|
                            0 <= i < pm.take(k as int + 1).len() && (#[trigger] pm.take(
                                k as int + 1,
                            )[i]).0 == a && pm.take(k as int + 1)[i].1.contains(d);
                        if i0 < k {
                            assert(pm.take(k as int)[i0] == pm.take(k as int + 1)[i0]);
                        } else {
                            assert(pm.take(k as int + 1)[i0] == pm[k as int]);
                        }
                    }
                }
                assert forall|a: Seq<char>|
                    assoc_has(self.completed_model(), a) <==> (assoc_has(
                        old(self).completed_model(),
                        a,
                    ) || spec_pack_has_key(pm.take(k as int + 1), a)) by {
                    if spec_pack_has_key(pm.take(k as int + 1), a) && !spec_pack_has_key(
                        pm.take(k as int),
                        a,
                    ) {
                        let i0 = choose|i: int|
                            0 <= i < pm.take(k as int + 1).len() && (#[trigger] pm.take(
                                k as int + 1,
                            )[i]).0 == a;
                        if i0 < k {
                            assert(pm.take(k as int)[i0] == pm.take(k as int + 1)[i0]);
                        } else {
                            assert(pm.take(k as int + 1)[i0] == pm[k as int]);
                        }
                    }
                    if spec_pack_has_key(pm.take(k as int), a) {
                        let i0 = choose|i: int|
                            0 <= i < pm.take(k as int).len() && (#[trigger] pm.take(
                                k as int,
                            )[i]).0 == a;
                        assert(pm.take(k as int + 1)[i0] == pm.take(k as int)[i0]);
                    }
                    if a == pm[k as int].0 {
                        assert(pm.take(k as int + 1)[k as int] == pm[k as int]);
                        assert(spec_pack_has_key(pm.take(k as int + 1), a));
                    }
                }
            }
            k = k + 1;
        }
        proof {
            assert(pm.take(new_complete@.len() as int) =~= pm);
            assert(forall|a: Seq<char>, d: Seq<char>|
                self.spec_is_completed(a, d) <==> old(self).spec_is_completed(a, d)
                    || spec_pack_has(pm, a, d));
            assert(forall|a: Seq<char>|
                assoc_has(self.completed_model(), a) <==> assoc_has(
                    old(self).completed_model(),
                    a,
                ) || spec_pack_has_key(pm, a));
        }
        if new_complete.len() > 0 {
            self.completed_modified = true;
        }
    }

    /// Union one action's completed directories in.
    #[verifier::loop_isolation(false)]
    #[verifier::rlimit(100)]
    fn merge_completed_entry(&mut self, action_name: &String, directories: &Vec<String>)
        ensures
            final(self).values == old(self).values,
            final(self).submitted == old(self).submitted,
            final(self).completed_file_names == old(self).completed_file_names,
            final(self).values_modified == old(self).values_modified,
            final(self).submitted_modified == old(self).submitted_modified,
            final(self).completed_modified == old(self).completed_modified,
            forall|a: Seq<char>, d: Seq<char>|
                final(self).spec_is_completed(a, d) <==> old(self).spec_is_completed(a, d) || (a
                    == action_name@ && strs_model(directories@).contains(d)),
            forall|a: Seq<char>|
                assoc_has(final(self).completed_model(), a) <==> assoc_has(
                    old(self).completed_model(),
                    a,
                ) || a == action_name@,
    {
        let ghost m0 = self.completed_model();
        let ghost dm = strs_model(directories@);
        let mut i: usize = 0;
        let n = self.completed.len();
        while i < n
            invariant
                i <= n,
                n == self.completed@.len(),
                self == old(self),
                forall|j: int| 0 <= j < i ==> (#[trigger] m0[j]).0 != action_name@,
                m0 == self.completed_model(),
            decreases n - i,
        {
            proof {
                assert(m0[i as int].0 == self.completed@[i as int].0@);
            }
            if text::str_eq(self.completed[i].0.as_str(), action_name.as_str()) {
                let ghost ds0 = m0[i as int].1;
                let mut dirs = crate::workflow::clone_string_vec(&self.completed[i].1);
                let mut j: usize = 0;
                while j < directories.len()
                    invariant
                        j <= directories@.len(),
                        dm == strs_model(directories@),
                        dm.len() == directories@.len(),
                        strs_model(dirs@) == spec_add_dirs(ds0, dm, j as int),
                    decreases directories@.len() - j,
                {
                    push_missing(&mut dirs, &directories[j]);
                    proof {
                        assert(dm[j as int] == directories@[j as int]@);
                    }
                    j = j + 1;
                }
                let ghost ds1 = strs_model(dirs@);
                proof {
                    lemma_add_dirs_contains(ds0, dm, directories@.len() as int);
                    assert(dm.take(directories@.len() as int) =~= dm);
                    assert(forall|d: Seq<char>|
                        ds1.contains(d) <==> ds0.contains(d) || dm.contains(d));
                }
                let key = self.completed[i].0.clone();
                self.completed.set(i, (key, dirs));
                proof {
                    assert(self.completed_model() =~= m0.update(
                        i as int,
                        (m0[i as int].0, ds1),
                    ));
                    lemma_assoc_lookup_update(m0, i as int, ds1, action_name@);
                    lemma_assoc_lookup_at(m0, i as int, action_name@);
                    lemma_assoc_lookup(m0, action_name@);
                    assert forall|a: Seq<char>, d: Seq<char>|
                        self.spec_is_completed(a, d) <==> (old(self).spec_is_completed(a, d) || (
                        a == action_name@ && dm.contains(d))) by {
                        if a == action_name@ {
                            assert(assoc_lookup(self.completed_model(), a) == Some(ds1));
                            assert(assoc_lookup(m0, a) == Some(ds0));
                        } else {
                            assert(assoc_lookup(self.completed_model(), a) == assoc_lookup(
                                m0,
                                a,
                            ));
                        }
                    }
                    assert forall|a: Seq<char>|
                        assoc_has(self.completed_model(), a) <==> (assoc_has(m0, a) || a
                            == action_name@) by {
                        if a != action_name@ {
                            assert(assoc_lookup(self.completed_model(), a) == assoc_lookup(
                                m0,
                                a,
                            ));
                        }
                    }
                }
                return ;
            }
            i = i + 1;
        }
        // No entry for this action yet: append a deduplicated copy.
        let mut dirs: Vec<String> = Vec::new();
        let mut j: usize = 0;
        while j < directories.len()
            invariant
                j <= directories@.len(),
                dm == strs_model(directories@),
                dm.len() == directories@.len(),
                strs_model(dirs@) == spec_add_dirs(Seq::empty(), dm, j as int),
            decreases directories@.len() - j,
        {
            push_missing(&mut dirs, &directories[j]);
            proof {
                assert(dm[j as int] == directories@[j as int]@);
            }
            j = j + 1;
        }
        let ghost ds1 = strs_model(dirs@);
        proof {
            lemma_add_dirs_contains(Seq::empty(), dm, directories@.len() as int);
            assert(dm.take(directories@.len() as int) =~= dm);
            assert forall|d: Seq<char>| ds1.contains(d) <==> dm.contains(d) by {
                assert(spec_add_dirs(Seq::<Seq<char>>::empty(), dm, directories@.len() as int)
                    .contains(d) <==> Seq::<Seq<char>>::empty().contains(d) || dm.take(
                    directories@.len() as int,
                ).contains(d));
                assert(!Seq::<Seq<char>>::empty().contains(d));
            }
        }
        self.completed.push((action_name.clone(), dirs));
        proof {
            assert(self.completed_model() =~= m0.push((action_name@, ds1)));
            lemma_assoc_lookup_push(m0, action_name@, ds1);
            assert(!assoc_has(m0, action_name@)) by {
                lemma_assoc_lookup(m0, action_name@);
                if assoc_has(m0, action_name@) {
                    let x = choose|x: int|
                        0 <= x < m0.len() && (#[trigger] m0[x]).0 == action_name@;
                    assert(m0[x].0 != action_name@);
                }
            }
            assert forall|a: Seq<char>, d: Seq<char>|
                self.spec_is_completed(a, d) <==> (old(self).spec_is_completed(a, d) || (a
                    == action_name@ && dm.contains(d))) by {
                if a == action_name@ {
                    assert(assoc_lookup(self.completed_model(), a) == Some(ds1));
                    assert(assoc_lookup(m0, a) is None);
                } else {
                    if assoc_has(m0, a) {
                        assert(assoc_lookup(self.completed_model(), a) == assoc_lookup(m0, a));
                    } else {
                        assert(assoc_lookup(self.completed_model(), a) is None);
                    }
                }
            }
            assert forall|a: Seq<char>|
                assoc_has(self.completed_model(), a) <==> (assoc_has(m0, a) || a
                    == action_name@) by {
                if a != action_name@ {
                    if assoc_has(m0, a) {
                        assert(assoc_lookup(self.completed_model(), a) == assoc_lookup(m0, a));
                    } else {
                        assert(assoc_lookup(self.completed_model(), a) is None);
                    }
                }
            }
        }
    }
}

} // verus!

verus! {

/// Whether a submitted entry survives a queue report: it runs on another
/// cluster, or the scheduler still reports its job active.
pub open spec fn spec_entry_active(
    e: SubmittedEntry,
    cluster: Seq<char>,
    active: Seq<u32>,
) -> bool {
    e.1 != cluster || active.contains(e.2)
}

/// An action's entries with the inactive jobs of one cluster removed, in
/// order.
pub open spec fn spec_retain_active(
    es: Seq<SubmittedEntry>,
    cluster: Seq<char>,
    active: Seq<u32>,
) -> Seq<SubmittedEntry>
    decreases es.len(),
{
    if es.len() == 0 {
        Seq::empty()
    } else {
        let rest = spec_retain_active(es.drop_first(), cluster, active);
        if spec_entry_active(es[0], cluster, active) {
            seq![es[0]] + rest
        } else {
            rest
        }
    }
}

/// Retaining each action's active entries leaves lookups pointing at the
/// retained entries.
proof fn lemma_retain_lookup(
    m: Seq<(Seq<char>, Seq<SubmittedEntry>)>,
    m2: Seq<(Seq<char>, Seq<SubmittedEntry>)>,
    cluster: Seq<char>,
    active: Seq<u32>,
    k: Seq<char>,
)
    requires
        m2.len() == m.len(),
        forall|i: int|
            0 <= i < m.len() ==> (#[trigger] m2[i]).0 == m[i].0 && m2[i].1 == spec_retain_active(
                m[i].1,
                cluster,
                active,
            ),
    ensures
        assoc_lookup(m2, k) == match assoc_lookup(m, k) {
            Some(es) => Some(spec_retain_active(es, cluster, active)),
            None => None::<Seq<SubmittedEntry>>,
        },
    decreases m.len(),
{
    if m.len() != 0 {
        assert(m2[0].0 == m[0].0);
        if m[0].0 != k {
            assert(forall|i: int|
                0 <= i < m.drop_first().len() ==> #[trigger] m.drop_first()[i] == m[i + 1]
                    && m2.drop_first()[i] == m2[i + 1]);
            lemma_retain_lookup(m.drop_first(), m2.drop_first(), cluster, active, k);
        }
    }
}

impl State {
    /// Remove inactive jobs on the given cluster: keep only the entries
    /// whose cluster differs, or whose job is in the given active set.
    #[verifier::loop_isolation(false)]
    #[verifier::rlimit(100)]
    pub fn remove_inactive_submitted(&mut self, cluster_name: &str, active_job_ids: &Vec<u32>)
        ensures
            final(self).values == old(self).values,
            final(self).completed == old(self).completed,
            final(self).completed_file_names == old(self).completed_file_names,
            final(self).values_modified == old(self).values_modified,
            final(self).completed_modified == old(self).completed_modified,
            final(self).submitted_modified,
            forall|a: Seq<char>|
                final(self).spec_submitted_entries(a) == spec_retain_active(
                    old(self).spec_submitted_entries(a),
                    cluster_name@,
                    active_job_ids@,
                ),
    {
        let ghost m0 = self.submitted_model();
        let mut i: usize = 0;
        let n = self.submitted.len();
        while i < n
            invariant
                i <= n,
                n == self.submitted@.len(),
                self.values == old(self).values,
                self.completed == old(self).completed,
                self.completed_file_names == old(self).completed_file_names,
                self.values_modified == old(self).values_modified,
                self.completed_modified == old(self).completed_modified,
                self.submitted_modified == old(self).submitted_modified,
                m0 == old(self).submitted_model(),
                m0.len() == n,
                self.submitted_model().len() == n,
                forall|x: int|
                    0 <= x < i ==> (#[trigger] self.submitted_model()[x]).0 == m0[x].0 && self
                        .submitted_model()[x].1 == spec_retain_active(
                        m0[x].1,
                        cluster_name@,
                        active_job_ids@,
                    ),
                forall|x: int|
                    i <= x < n ==> #[trigger] self.submitted_model()[x] == m0[x],
            decreases n - i,
        {
            let ghost es0 = m0[i as int].1;
            let entries = &self.submitted[i].1;
            proof {
                assert(self.submitted_model()[i as int] == (self.submitted@[i as int].0@,
                submitted_entries_m(self.submitted@[i as int].1@)));
            }
            let mut kept: Vec<(String, String, u32)> = Vec::new();
            let mut j: usize = 0;
            proof {
                assert(es0.skip(0) =~= es0);
                assert(submitted_entries_m(kept@) =~= Seq::<SubmittedEntry>::empty());
            }
            while j < entries.len()
                invariant
                    j <= entries@.len(),
                    es0 == submitted_entries_m(entries@),
                    es0.len() == entries@.len(),
                    match spec_retain_active(
                        es0.skip(j as int),
                        cluster_name@,
                        active_job_ids@,
                    ) {
                        t => spec_retain_active(es0, cluster_name@, active_job_ids@)
                            == submitted_entries_m(kept@) + t,
                    },
                decreases entries@.len() - j,
            {
                proof {
                    assert(es0.skip(j as int)[0] == es0[j as int]);
                    assert(es0[j as int] == (entries@[j as int].0@, entries@[j as int].1@,
                    entries@[j as int].2));
                    assert(es0.skip(j as int).drop_first() =~= es0.skip(j as int + 1));
                }
                if !text::str_eq(entries[j].1.as_str(), cluster_name) || contains_u32(
                    active_job_ids,
                    entries[j].2,
                ) {
                    let ghost before = submitted_entries_m(kept@);
                    kept.push((entries[j].0.clone(), entries[j].1.clone(), entries[j].2));
                    proof {
                        assert(submitted_entries_m(kept@) =~= before + seq![es0[j as int]]);
                        let t = spec_retain_active(
                            es0.skip(j as int + 1),
                            cluster_name@,
                            active_job_ids@,
                        );
                        assert(before + (seq![es0[j as int]] + t) =~= (before + seq![
                            es0[j as int],
                        ]) + t);
                    }
                }
                j = j + 1;
            }
            proof {
                assert(es0.skip(entries@.len() as int).len() == 0);
                assert(submitted_entries_m(kept@) + Seq::<SubmittedEntry>::empty()
                    =~= submitted_entries_m(kept@));
            }
            let ghost prev = self.submitted_model();
            let key = self.submitted[i].0.clone();
            self.submitted.set(i, (key, kept));
            proof {
                assert forall|x: int| 0 <= x < n implies #[trigger] self.submitted_model()[x]
                    == (if x == i {
                    (m0[i as int].0, spec_retain_active(
                        es0,
                        cluster_name@,
                        active_job_ids@,
                    ))
                } else {
                    prev[x]
                }) by {
                    assert(self.submitted_model()[x] == (self.submitted@[x].0@,
                    submitted_entries_m(self.submitted@[x].1@)));
                    if x != i {
                        assert(prev[x] == (old(self).submitted@[x].0@, submitted_entries_m(
                            old(self).submitted@[x].1@,
                        )) || prev[x] == self.submitted_model()[x]);
                    }
                }
            }
            i = i + 1;
        }
        self.submitted_modified = true;
        proof {
            assert forall|a: Seq<char>|
                self.spec_submitted_entries(a) == spec_retain_active(
                    old(self).spec_submitted_entries(a),
                    cluster_name@,
                    active_job_ids@,
                ) by {
                lemma_retain_lookup(
                    m0,
                    self.submitted_model(),
                    cluster_name@,
                    active_job_ids@,
                    a,
                );
                if assoc_lookup(m0, a) is None {
                    assert(spec_retain_active(
                        Seq::<SubmittedEntry>::empty(),
                        cluster_name@,
                        active_job_ids@,
                    ) =~= Seq::<SubmittedEntry>::empty());
                }
            }
        }
    }

    /// Whether any entry records job `id` on cluster `c`.
    pub open spec fn spec_job_on(&self, c: Seq<char>, id: u32) -> bool {
        exists|x: int, y: int|
            0 <= x < self.submitted_model().len() && 0 <= y < (#[trigger] self
                .submitted_model()[x]).1.len() && (#[trigger] self.submitted_model()[x].1[y]).1
                == c && self.submitted_model()[x].1[y].2 == id
    }

    /// Get all submitted jobs on a given cluster, each id once.
    #[verifier::loop_isolation(false)]
    #[verifier::rlimit(100)]
    pub fn jobs_submitted_on(&self, cluster_name: &str) -> (r: Vec<u32>)
        ensures
            r@.no_duplicates(),
            forall|id: u32| r@.contains(id) <==> self.spec_job_on(cluster_name@, id),
    {
        let ghost m = self.submitted_model();
        let mut out: Vec<u32> = Vec::new();
        let mut i: usize = 0;
        while i < self.submitted.len()
            invariant
                i <= self.submitted@.len(),
                m == self.submitted_model(),
                m.len() == self.submitted@.len(),
                out@.no_duplicates(),
                forall|id: u32|
                    out@.contains(id) <==> exists|x: int, y: int|
                        0 <= x < i && 0 <= y < (#[trigger] m[x]).1.len() && (#[trigger] m[x].1[y]).1
                            == cluster_name@ && m[x].1[y].2 == id,
            decreases self.submitted@.len() - i,
        {
            let entries = &self.submitted[i].1;
            let ghost es = m[i as int].1;
            proof {
                assert(m[i as int] == (self.submitted@[i as int].0@, submitted_entries_m(
                    self.submitted@[i as int].1@,
                )));
            }
            let mut j: usize = 0;
            while j < entries.len()
                invariant
                    j <= entries@.len(),
                    i < self.submitted@.len(),
                    m == self.submitted_model(),
                    m.len() == self.submitted@.len(),
                    es == m[i as int].1,
                    es == submitted_entries_m(entries@),
                    es.len() == entries@.len(),
                    out@.no_duplicates(),
                    forall|id: u32|
                        out@.contains(id) <==> (exists|x: int, y: int|
                            0 <= x < i && 0 <= y < (#[trigger] m[x]).1.len() && (
                            #[trigger] m[x].1[y]).1 == cluster_name@ && m[x].1[y].2 == id)
                            || (exists|y: int|
                            0 <= y < j && (#[trigger] es[y]).1 == cluster_name@ && es[y].2
                                == id),
                decreases entries@.len() - j,
            {
                proof {
                    assert(es[j as int] == (entries@[j as int].0@, entries@[j as int].1@,
                    entries@[j as int].2));
                }
                let ghost before = out@;
                let on_cluster = text::str_eq(entries[j].1.as_str(), cluster_name);
                let dup = if on_cluster {
                    contains_u32(&out, entries[j].2)
                } else {
                    false
                };
                if on_cluster && !dup {
                    out.push(entries[j].2);
                    proof {
                        assert(out@ =~= before.push(es[j as int].2));
                        assert forall|id: u32| out@.contains(id) <==> before.contains(id) || id
                            == es[j as int].2 by {
                            if before.contains(id) {
                                let x = choose|x: int|
                                    0 <= x < before.len() && before[x] == id;
                                assert(out@[x] == id);
                            }
                            if id == es[j as int].2 {
                                assert(out@[before.len() as int] == id);
                            }
                            if out@.contains(id) {
                                let x = choose|x: int| 0 <= x < out@.len() && out@[x] == id;
                                if x < before.len() {
                                    assert(before[x] == id);
                                }
                            }
                        }
                        assert(out@.no_duplicates()) by {
                            assert forall|x: int, y: int|
                                0 <= x < out@.len() && 0 <= y < out@.len() && x != y implies
                                out@[x] != out@[y] by {
                                if x < before.len() && y < before.len() {
                                    assert(before[x] == out@[x] && before[y] == out@[y]);
                                } else if x < before.len() {
                                    assert(before[x] == out@[x]);
                                    if out@[x] == out@[y] {
                                        assert(before.contains(out@[y]));
                                    }
                                } else if y < before.len() {
                                    assert(before[y] == out@[y]);
                                    if out@[x] == out@[y] {
                                        assert(before.contains(out@[x]));
                                    }
                                }
                            }
                        }
                    }
                }
                proof {
                    assert forall|id: u32|
                        out@.contains(id) <==> (exists|x: int, y: int|
                            0 <= x < i && 0 <= y < (#[trigger] m[x]).1.len() && (
                            #[trigger] m[x].1[y]).1 == cluster_name@ && m[x].1[y].2 == id)
                            || (exists|y: int|
                            0 <= y < j + 1 && (#[trigger] es[y]).1 == cluster_name@ && es[y].2
                                == id) by {
                        let in_prefix = (exists|x: int, y: int|
                            0 <= x < i && 0 <= y < (#[trigger] m[x]).1.len() && (
                            #[trigger] m[x].1[y]).1 == cluster_name@ && m[x].1[y].2 == id);
                        let in_row = (exists|y: int|
                            0 <= y < j && (#[trigger] es[y]).1 == cluster_name@ && es[y].2
                                == id);
                        if in_row {
                            let y = choose|y: int|
                                0 <= y < j && (#[trigger] es[y]).1 == cluster_name@ && es[y].2
                                    == id;
                            assert(0 <= y < j + 1 && es[y].1 == cluster_name@ && es[y].2 == id);
                        }
                        // The invariant relates `before` to the scanned part.
                        assert(before.contains(id) <==> in_prefix || in_row);
                        if on_cluster && !dup {
                            assert(out@.contains(id) <==> before.contains(id) || id
                                == es[j as int].2);
                        } else {
                            assert(out@ == before);
                        }
                        if out@.contains(id) && !before.contains(id) {
                            assert(id == es[j as int].2 && es[j as int].1 == cluster_name@);
                        }
                        if exists|y: int|
                            0 <= y < j + 1 && (#[trigger] es[y]).1 == cluster_name@ && es[y].2
                                == id {
                            let y = choose|y: int|
                                0 <= y < j + 1 && (#[trigger] es[y]).1 == cluster_name@
                                    && es[y].2 == id;
                            if y == j {
                                assert(on_cluster && es[j as int].2 == id);
                                if dup {
                                    assert(before.contains(id));
                                } else {
                                    assert(out@.contains(id));
                                }
                            } else {
                                assert(in_row);
                            }
                        }
                    }
                }
                j = j + 1;
            }
            proof {
                assert forall|id: u32|
                    out@.contains(id) <==> exists|x: int, y: int|
                        0 <= x < i + 1 && 0 <= y < (#[trigger] m[x]).1.len() && (
                        #[trigger] m[x].1[y]).1 == cluster_name@ && m[x].1[y].2 == id by {
                    if exists|y: int|
                        0 <= y < es.len() && (#[trigger] es[y]).1 == cluster_name@ && es[y].2
                            == id {
                        let y = choose|y: int|
                            0 <= y < es.len() && (#[trigger] es[y]).1 == cluster_name@
                                && es[y].2 == id;
                        assert(m[i as int].1[y].1 == cluster_name@ && m[i as int].1[y].2 == id);
                    }
                    if exists|x: int, y: int|
                        0 <= x < i + 1 && 0 <= y < (#[trigger] m[x]).1.len() && (
                        #[trigger] m[x].1[y]).1 == cluster_name@ && m[x].1[y].2 == id {
                        let (x, y) = choose|x: int, y: int|
                            0 <= x < i + 1 && 0 <= y < (#[trigger] m[x]).1.len() && (
                            #[trigger] m[x].1[y]).1 == cluster_name@ && m[x].1[y].2 == id;
                        if x == i {
                            assert(0 <= y < es.len() && es[y].1 == cluster_name@ && es[y].2
                                == id);
                        }
                    }
                }
            }
            i = i + 1;
        }
        out
    }
}

} // verus!

verus! {

use crate::workflow::Action;

/// Whether some action in the list bears the given name.
pub open spec fn spec_has_action_named(actions: Seq<Action>, a: Seq<char>) -> bool {
    exists|i: int|
        0 <= i < actions.len() && spec_action_name((#[trigger] actions[i])@) == a
}

/// The invariant the key-filling walk maintains: keys grow by exactly the
/// first `i` action names, existing entries keep their lookups, and added
/// entries are empty.
pub open spec fn spec_keys_filled(
    now: Seq<(Seq<char>, Seq<Seq<char>>)>,
    m0: Seq<(Seq<char>, Seq<Seq<char>>)>,
    actions: Seq<Action>,
    i: int,
) -> bool {
    &&& forall|a: Seq<char>|
        assoc_has(now, a) <==> assoc_has(m0, a) || (exists|x: int|
            0 <= x < i && spec_action_name((#[trigger] actions[x])@) == a)
    &&& forall|a: Seq<char>| assoc_has(m0, a) ==> assoc_lookup(now, a) == assoc_lookup(m0, a)
    &&& forall|a: Seq<char>|
        !assoc_has(m0, a) && assoc_has(now, a) ==> assoc_lookup(now, a) == Some(
            Seq::<Seq<char>>::empty(),
        )
}

impl State {
    /// Ensure the completed section has a key for every workflow action:
    /// the discipline a freshly loaded state keeps. Actions without an entry
    /// get an empty one; existing entries are left untouched.
    #[verifier::loop_isolation(false)]
    #[verifier::rlimit(100)]
    pub fn ensure_completed_keys(&mut self, actions: &Vec<Action>)
        ensures
            final(self).values == old(self).values,
            final(self).submitted == old(self).submitted,
            final(self).completed_file_names == old(self).completed_file_names,
            final(self).values_modified == old(self).values_modified,
            final(self).completed_modified == old(self).completed_modified,
            final(self).submitted_modified == old(self).submitted_modified,
            forall|a: Seq<char>|
                assoc_has(final(self).completed_model(), a) <==> assoc_has(
                    old(self).completed_model(),
                    a,
                ) || spec_has_action_named(actions@, a),
            forall|a: Seq<char>, d: Seq<char>|
                final(self).spec_is_completed(a, d) == old(self).spec_is_completed(a, d),
    {
        let ghost m0 = self.completed_model();
        proof {
            assert(spec_keys_filled(m0, m0, actions@, 0)) by {
                assert forall|a: Seq<char>|
                    assoc_has(m0, a) <==> assoc_has(m0, a) || (exists|x: int|
                        0 <= x < 0 && spec_action_name((#[trigger] actions@[x])@) == a) by {}
            }
        }
        let mut i: usize = 0;
        while i < actions.len()
            invariant
                i <= actions@.len(),
                self.values == old(self).values,
                self.submitted == old(self).submitted,
                self.completed_file_names == old(self).completed_file_names,
                self.values_modified == old(self).values_modified,
                self.completed_modified == old(self).completed_modified,
                self.submitted_modified == old(self).submitted_modified,
                m0 == old(self).completed_model(),
                spec_keys_filled(self.completed_model(), m0, actions@, i as int),
            decreases actions@.len() - i,
        {
            let name = actions[i].name();
            let ghost nm = spec_action_name(actions@[i as int]@);
            let ghost before = self.completed_model();
            // Scan for an existing entry under this name.
            let mut j: usize = 0;
            let mut found = false;
            let n = self.completed.len();
            while j < n
                invariant
                    j <= n,
                    n == self.completed@.len(),
                    before == self.completed_model(),
                    nm == name@,
                    found ==> assoc_has(before, nm),
                    !found ==> forall|x: int| 0 <= x < j ==> (#[trigger] before[x]).0 != nm,
                decreases n - j,
            {
                if !found {
                    proof {
                        assert(before[j as int].0 == self.completed@[j as int].0@);
                    }
                    if text::str_eq(self.completed[j].0.as_str(), name) {
                        proof {
                            lemma_assoc_lookup(before, nm);
                        }
                        found = true;
                    }
                }
                j = j + 1;
            }
            if !found {
                proof {
                    assert(!assoc_has(before, nm)) by {
                        lemma_assoc_lookup(before, nm);
                        if assoc_has(before, nm) {
                            let x = choose|x: int|
                                0 <= x < before.len() && (#[trigger] before[x]).0 == nm;
                            assert(before[x].0 != nm);
                        }
                    }
                }
                let empty: Vec<String> = Vec::new();
                self.completed.push((name.to_owned(), empty));
                proof {
                    assert(strs_model(Seq::<String>::empty()) =~= Seq::<Seq<char>>::empty());
                    assert(self.completed_model() =~= before.push(
                        (nm, Seq::<Seq<char>>::empty()),
                    ));
                    lemma_assoc_lookup_push(before, nm, Seq::<Seq<char>>::empty());
                    assert forall|a: Seq<char>|
                        assoc_has(self.completed_model(), a) <==> assoc_has(before, a) || a
                            == nm by {
                        if a != nm {
                            if assoc_has(before, a) {
                                assert(assoc_lookup(self.completed_model(), a) == assoc_lookup(
                                    before,
                                    a,
                                ));
                            } else {
                                assert(assoc_lookup(self.completed_model(), a) is None);
                            }
                        }
                    }
                }
            }
            proof {
                if found {
                    assert(self.completed_model() == before);
                }
                assert(spec_keys_filled(before, m0, actions@, i as int));
                assert forall|a: Seq<char>|
                    assoc_has(self.completed_model(), a) <==> assoc_has(m0, a) || (exists|x: int|
                        0 <= x < i + 1 && spec_action_name((#[trigger] actions@[x])@) == a) by {
                    if !found && a != nm {
                        if assoc_has(before, a) {
                            assert(assoc_lookup(self.completed_model(), a) == assoc_lookup(
                                before,
                                a,
                            ));
                        } else {
                            assert(assoc_lookup(self.completed_model(), a) is None);
                        }
                    }
                    assert(assoc_has(before, a) <==> assoc_has(m0, a) || (exists|x: int|
                        0 <= x < i && spec_action_name((#[trigger] actions@[x])@) == a));
                    if exists|x: int|
                        0 <= x < i && spec_action_name((#[trigger] actions@[x])@) == a {
                        let x = choose|x: int|
                            0 <= x < i && spec_action_name((#[trigger] actions@[x])@) == a;
                        assert(0 <= x < i + 1 && spec_action_name(actions@[x]@) == a);
                        assert(assoc_has(before, a));
                        if !found && a != nm {
                            assert(assoc_lookup(self.completed_model(), a) == assoc_lookup(
                                before,
                                a,
                            ));
                        }
                        if !found && a == nm {
                            assert(assoc_has(self.completed_model(), a));
                        }
                    }
                    if assoc_has(m0, a) {
                        assert(assoc_has(before, a));
                        if !found && a != nm {
                            assert(assoc_lookup(self.completed_model(), a) == assoc_lookup(
                                before,
                                a,
                            ));
                        }
                        if !found && a == nm {
                            assert(assoc_has(self.completed_model(), a));
                        }
                    }
                    if exists|x: int|
                        0 <= x < i + 1 && spec_action_name((#[trigger] actions@[x])@) == a {
                        let x = choose|x: int|
                            0 <= x < i + 1 && spec_action_name((#[trigger] actions@[x])@) == a;
                        if x == i {
                            assert(a == nm);
                            if !found {
                                assert(assoc_has(self.completed_model(), a));
                            } else {
                                assert(assoc_has(before, nm));
                            }
                        }
                    }
                }
                assert(spec_keys_filled(self.completed_model(), m0, actions@, i as int + 1));
                assert forall|a: Seq<char>|
                    assoc_has(m0, a) implies assoc_lookup(self.completed_model(), a)
                    == assoc_lookup(m0, a) by {
                    assert(assoc_has(before, a));
                    if !found {
                        assert(assoc_lookup(self.completed_model(), a) == assoc_lookup(
                            before,
                            a,
                        ));
                    }
                }
                assert forall|a: Seq<char>|
                    !assoc_has(m0, a) && assoc_has(self.completed_model(), a) implies
                    assoc_lookup(self.completed_model(), a) == Some(
                    Seq::<Seq<char>>::empty(),
                ) by {
                    if !found && a == nm {
                        assert(assoc_lookup(self.completed_model(), a) == Some(
                            Seq::<Seq<char>>::empty(),
                        ));
                    } else {
                        assert(assoc_has(before, a));
                        if !found {
                            assert(assoc_lookup(self.completed_model(), a) == assoc_lookup(
                                before,
                                a,
                            ));
                        }
                        assert(assoc_lookup(before, a) == Some(Seq::<Seq<char>>::empty()));
                    }
                }
            }
            i = i + 1;
        }
        proof {
            assert forall|a: Seq<char>, d: Seq<char>|
                self.spec_is_completed(a, d) == old(self).spec_is_completed(a, d) by {
                if assoc_has(m0, a) {
                    assert(assoc_lookup(self.completed_model(), a) == assoc_lookup(m0, a));
                } else {
                    if assoc_has(self.completed_model(), a) {
                        assert(assoc_lookup(self.completed_model(), a) == Some(
                            Seq::<Seq<char>>::empty(),
                        ));
                    }
                }
            }
        }
    }
}

} // verus!
