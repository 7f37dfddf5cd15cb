//! Launcher configuration: command-line fragments (like `srun --ntasks=`)
//! composed in front of user commands based on the requested resources.

use vstd::prelude::*;
use crate::error::Error;
use crate::text;
use crate::workflow::{
    clone_opt_string, opt_str_model, spec_total_processes, Resources,
};

verus! {

/// One element of the launcher configuration.
#[derive(Debug, Default, PartialEq)]
pub struct Launcher {
    /// The executable prefix, when any.
    pub executable: Option<String>,
    /// Flag text completed with the GPUs per process.
    pub gpus_per_process: Option<String>,
    /// Flag text completed with the total process count.
    pub processes: Option<String>,
    /// Flag text completed with the threads per process.
    pub threads_per_process: Option<String>,
}

/// The model of a launcher.
#[verifier::ext_equal]
pub struct LauncherModel {
    pub executable: Option<Seq<char>>,
    pub gpus_per_process: Option<Seq<char>>,
    pub processes: Option<Seq<char>>,
    pub threads_per_process: Option<Seq<char>>,
}

impl View for Launcher {
    type V = LauncherModel;

    open spec fn view(&self) -> LauncherModel {
        LauncherModel {
            executable: opt_str_model(self.executable),
            gpus_per_process: opt_str_model(self.gpus_per_process),
            processes: opt_str_model(self.processes),
            threads_per_process: opt_str_model(self.threads_per_process),
        }
    }
}

impl Clone for Launcher {
    /// A copy with the same model.
    fn clone(&self) -> (r: Self)
        ensures
            r@ == self@,
    {
        Launcher {
            executable: clone_opt_string(&self.executable),
            gpus_per_process: clone_opt_string(&self.gpus_per_process),
            processes: clone_opt_string(&self.processes),
            threads_per_process: clone_opt_string(&self.threads_per_process),
        }
    }
}

/// The space-separated fragments of a launcher prefix for the given
/// resources: the executable, then each configured flag completed with its
/// count. Flags whose resource is not requested are left out.
pub open spec fn spec_prefix_pieces(l: LauncherModel, r: Resources, n: nat) -> Seq<Seq<char>> {
    (match l.executable {
        Some(e) => seq![e],
        None => Seq::empty(),
    }) + (match l.processes {
        Some(p) => seq![p + text::spec_dec_nat(spec_total_processes(r, n))],
        None => Seq::empty(),
    }) + (match (l.threads_per_process, r.threads_per_process) {
        (Some(t), Some(c)) => seq![t + text::spec_dec_nat(c as nat)],
        _ => Seq::empty(),
    }) + (match (l.gpus_per_process, r.gpus_per_process) {
        (Some(g), Some(c)) => seq![g + text::spec_dec_nat(c as nat)],
        _ => Seq::empty(),
    })
}

/// Fragments joined with single spaces, with a trailing space after a
/// nonempty result.
pub open spec fn spec_join_spaced(pieces: Seq<Seq<char>>) -> Seq<char>
    decreases pieces.len(),
{
    if pieces.len() == 0 {
        Seq::empty()
    } else if pieces.len() == 1 {
        pieces[0] + seq![' ']
    } else {
        spec_join_spaced(pieces.drop_last()) + pieces.last() + seq![' ']
    }
}

/// The launcher prefix: the joined fragments.
pub open spec fn spec_launcher_prefix(l: LauncherModel, r: Resources, n: nat) -> Seq<char> {
    spec_join_spaced(spec_prefix_pieces(l, r, n))
}

impl Launcher {
    /// Build the launcher prefix appropriate for the given resources.
    #[verifier::rlimit(100)]
    pub fn prefix(&self, resources: &Resources, n_directories: usize) -> (r: String)
        requires
            spec_total_processes(*resources, n_directories as nat) <= usize::MAX,
        ensures
            r@ == spec_launcher_prefix(self@, *resources, n_directories as nat),
    {
        let ghost pieces = spec_prefix_pieces(self@, *resources, n_directories as nat);
        let mut result = String::new();
        let mut need_space = false;
        let ghost mut done: int = 0;

        match &self.executable {
            Some(executable) => {
                text::push_str(&mut result, executable.as_str());
                need_space = true;
                proof {
                    done = 1;
                }
            },
            None => {},
        }
        proof {
            assert(spec_join_partial(pieces, done) == result@ + (if done > 0 {
                seq![' ']
            } else {
                Seq::<char>::empty()
            })) by {
                lemma_join_partial_unfold(pieces, done);
            }
        }
        match &self.processes {
            Some(processes) => {
                if need_space {
                    text::push_char(&mut result, ' ');
                }
                text::push_str(&mut result, processes.as_str());
                let total = resources.total_processes(n_directories);
                text::push_dec_u64(total as u64, &mut result);
                need_space = true;
                proof {
                    lemma_join_partial_unfold(pieces, done + 1);
                    done = done + 1;
                }
            },
            None => {},
        }
        match (&self.threads_per_process, resources.threads_per_process) {
            (Some(self_threads), Some(resources_threads)) => {
                if need_space {
                    text::push_char(&mut result, ' ');
                }
                text::push_str(&mut result, self_threads.as_str());
                text::push_dec_u64(resources_threads as u64, &mut result);
                need_space = true;
                proof {
                    lemma_join_partial_unfold(pieces, done + 1);
                    done = done + 1;
                }
            },
            _ => {},
        }
        match (&self.gpus_per_process, resources.gpus_per_process) {
            (Some(self_gpus), Some(resources_gpus)) => {
                if need_space {
                    text::push_char(&mut result, ' ');
                }
                text::push_str(&mut result, self_gpus.as_str());
                text::push_dec_u64(resources_gpus as u64, &mut result);
                need_space = true;
                proof {
                    lemma_join_partial_unfold(pieces, done + 1);
                    done = done + 1;
                }
            },
            _ => {},
        }
        if need_space {
            text::push_char(&mut result, ' ');
        }
        proof {
            assert(done == pieces.len());
            assert(pieces.take(done) =~= pieces);
        }
        result
    }
}

/// The join of the first `k` fragments, without the final trailing space.
pub open spec fn spec_join_partial(pieces: Seq<Seq<char>>, k: int) -> Seq<char> {
    if k <= 0 {
        Seq::empty()
    } else {
        spec_join_spaced(pieces.take(k))
    }
}

/// Unfold one step of the partial join.
pub proof fn lemma_join_partial_unfold(pieces: Seq<Seq<char>>, k: int)
    requires
        0 <= k <= pieces.len(),
    ensures
        k == 0 ==> spec_join_partial(pieces, k) == Seq::<char>::empty(),
        k == 1 ==> spec_join_partial(pieces, k) == pieces[0] + seq![' '],
        k > 1 ==> spec_join_partial(pieces, k) == spec_join_partial(pieces, k - 1) + pieces[k - 1]
            + seq![' '],
{
    if k == 1 {
        assert(pieces.take(1).len() == 1);
        assert(pieces.take(1)[0] == pieces[0]);
    } else if k > 1 {
        assert(pieces.take(k).drop_last() =~= pieces.take(k - 1));
        assert(pieces.take(k).last() == pieces[k - 1]);
    }
}

/// Launcher configuration: for each launcher name, the per-cluster entries,
/// keyed by cluster name with `default` as the fallback.
#[derive(Debug, Default, PartialEq)]
pub struct Configuration {
    /// The launcher configurations.
    pub launchers: Vec<(String, Vec<(String, Launcher)>)>,
}

/// The model of the per-cluster table of one launcher.
pub open spec fn launcher_entries_model(s: Seq<(String, Launcher)>) -> Seq<
    (Seq<char>, LauncherModel),
> {
    s.map_values(|p: (String, Launcher)| (p.0@, p.1@))
}

/// The model of a whole launcher configuration.
pub open spec fn launchers_model(s: Seq<(String, Vec<(String, Launcher)>)>) -> Seq<
    (Seq<char>, Seq<(Seq<char>, LauncherModel)>),
> {
    s.map_values(|p: (String, Vec<(String, Launcher)>)| (p.0@, launcher_entries_model(p.1@)))
}

/// First entry bound to `k`, when any.
pub open spec fn spec_entry_for(
    s: Seq<(Seq<char>, LauncherModel)>,
    k: Seq<char>,
) -> Option<LauncherModel>
    decreases s.len(),
{
    if s.len() == 0 {
        None
    } else if s[0].0 == k {
        Some(s[0].1)
    } else {
        spec_entry_for(s.drop_first(), k)
    }
}

/// Whether every launcher defines a `default` entry.
pub open spec fn spec_all_have_default(m: Seq<(Seq<char>, Seq<(Seq<char>, LauncherModel)>)>) -> bool {
    forall|i: int|
        0 <= i < m.len() ==> spec_entry_for((#[trigger] m[i]).1, "default"@) is Some
}

/// Look an entry up by key.
#[verifier::loop_isolation(false)]
fn entry_for<'a>(v: &'a Vec<(String, Launcher)>, k: &str) -> (r: Option<&'a Launcher>)
    ensures
        match r {
            Some(l) => spec_entry_for(launcher_entries_model(v@), k@) == Some(l@),
            None => spec_entry_for(launcher_entries_model(v@), k@) is None,
        },
{
    let ghost m = launcher_entries_model(v@);
    let mut i: usize = 0;
    proof {
        assert(m.skip(0) =~= m);
    }
    while i < v.len()
        invariant
            i <= v@.len(),
            spec_entry_for(m, k@) == spec_entry_for(m.skip(i as int), k@),
        decreases v@.len() - i,
    {
        proof {
            assert(m.skip(i as int)[0] == m[i as int]);
            assert(m[i as int] == (v@[i as int].0@, v@[i as int].1@));
            assert(m.skip(i as int).drop_first() =~= m.skip(i as int + 1));
        }
        if text::str_eq(v[i].0.as_str(), k) {
            return Some(&v[i].1);
        }
        i = i + 1;
    }
    proof {
        assert(m.skip(v@.len() as int).len() == 0);
    }
    None
}

impl Configuration {
    /// Validate that the configuration is correct: every launcher must have
    /// a `default` entry.
    #[verifier::loop_isolation(false)]
    pub fn validate(&self) -> (r: Result<(), Error>)
        ensures
            r is Ok <==> spec_all_have_default(launchers_model(self.launchers@)),
            r matches Err(e) ==> e matches Error::LauncherMissingDefault(_),
    {
        let ghost m = launchers_model(self.launchers@);
        let mut i: usize = 0;
        while i < self.launchers.len()
            invariant
                i <= self.launchers@.len(),
                m == launchers_model(self.launchers@),
                m.len() == self.launchers@.len(),
                forall|j: int|
                    0 <= j < i ==> spec_entry_for((#[trigger] m[j]).1, "default"@) is Some,
            decreases self.launchers@.len() - i,
        {
            proof {
                assert(m[i as int] == (self.launchers@[i as int].0@, launcher_entries_model(
                    self.launchers@[i as int].1@,
                )));
            }
            match entry_for(&self.launchers[i].1, "default") {
                Some(_) => {},
                None => {
                    return Err(Error::LauncherMissingDefault(self.launchers[i].0.clone()));
                },
            }
            i = i + 1;
        }
        Ok(())
    }

    /// Get all launchers for a specific cluster: for each launcher name, the
    /// cluster-specific entry when present, else the `default` entry.
    #[verifier::loop_isolation(false)]
    pub fn by_cluster(&self, cluster_name: &str) -> (r: Vec<(String, Launcher)>)
        requires
            spec_all_have_default(launchers_model(self.launchers@)),
        ensures
            launcher_entries_model(r@).len() == self.launchers@.len(),
            forall|i: int|
                0 <= i < self.launchers@.len() ==> {
                    let m = launchers_model(self.launchers@);
                    &&& (#[trigger] launcher_entries_model(r@)[i]).0 == m[i].0
                    &&& launcher_entries_model(r@)[i].1 == (match spec_entry_for(
                        m[i].1,
                        cluster_name@,
                    ) {
                        Some(l) => l,
                        None => spec_entry_for(m[i].1, "default"@)->0,
                    })
                },
    {
        let ghost m = launchers_model(self.launchers@);
        let mut result: Vec<(String, Launcher)> = Vec::new();
        let mut i: usize = 0;
        while i < self.launchers.len()
            invariant
                i <= self.launchers@.len(),
                m == launchers_model(self.launchers@),
                m.len() == self.launchers@.len(),
                result@.len() == i,
                forall|j: int|
                    0 <= j < i ==> {
                        &&& (#[trigger] launcher_entries_model(result@)[j]).0 == m[j].0
                        &&& launcher_entries_model(result@)[j].1 == (match spec_entry_for(
                            m[j].1,
                            cluster_name@,
                        ) {
                            Some(l) => l,
                            None => spec_entry_for(m[j].1, "default"@)->0,
                        })
                    },
            decreases self.launchers@.len() - i,
        {
            proof {
                assert(m[i as int] == (self.launchers@[i as int].0@, launcher_entries_model(
                    self.launchers@[i as int].1@,
                )));
            }
            let launcher = match entry_for(&self.launchers[i].1, cluster_name) {
                Some(l) => l.clone(),
                None => {
                    match entry_for(&self.launchers[i].1, "default") {
                        Some(l) => l.clone(),
                        None => {
                            proof {
                                assert(false);
                            }
                            Launcher {
                                executable: None,
                                gpus_per_process: None,
                                processes: None,
                                threads_per_process: None,
                            }
                        },
                    }
                },
            };
            proof {
                assert(launcher@ == (match spec_entry_for(m[i as int].1, cluster_name@) {
                    Some(l) => l,
                    None => spec_entry_for(m[i as int].1, "default"@)->0,
                }));
            }
            let ghost prev = result@;
            result.push((self.launchers[i].0.clone(), launcher));
            proof {
                assert forall|j: int| 0 <= j < i + 1 implies {
                    &&& (#[trigger] launcher_entries_model(result@)[j]).0 == m[j].0
                    &&& launcher_entries_model(result@)[j].1 == (match spec_entry_for(
                        m[j].1,
                        cluster_name@,
                    ) {
                        Some(l) => l,
                        None => spec_entry_for(m[j].1, "default"@)->0,
                    })
                } by {
                    assert(launcher_entries_model(result@)[j] == (result@[j].0@, result@[j].1@));
                    if j < i {
                        assert(result@[j] == prev[j]);
                        assert(launcher_entries_model(prev)[j] == (prev[j].0@, prev[j].1@));
                    }
                }
            }
            i = i + 1;
        }
        result
    }

    /// Get the complete launcher configuration.
    pub fn full_config<'a>(&'a self) -> (r: &'a Vec<(String, Vec<(String, Launcher)>)>)
        ensures
            r == self.launchers,
    {
        &self.launchers
    }
}

} // verus!

verus! {

/// First index bound to `k` in a per-cluster table, when any.
pub open spec fn spec_entry_index(s: Seq<(Seq<char>, LauncherModel)>, k: Seq<char>) -> Option<int>
    decreases s.len(),
{
    if s.len() == 0 {
        None
    } else if s[0].0 == k {
        Some(0int)
    } else {
        match spec_entry_index(s.drop_first(), k) {
            Some(i) => Some(i + 1),
            None => None,
        }
    }
}

/// One entry put into a per-cluster table: overriding the entry that shares
/// its key, or appended when the key is new.
pub open spec fn spec_put_entry(
    s: Seq<(Seq<char>, LauncherModel)>,
    e: (Seq<char>, LauncherModel),
) -> Seq<(Seq<char>, LauncherModel)> {
    match spec_entry_index(s, e.0) {
        Some(j) => s.update(j, (s[j].0, e.1)),
        None => s.push(e),
    }
}

/// A whole per-cluster table extended entry by entry, in order; later
/// entries override earlier ones with the same key.
pub open spec fn spec_extend_entries(
    s: Seq<(Seq<char>, LauncherModel)>,
    t: Seq<(Seq<char>, LauncherModel)>,
) -> Seq<(Seq<char>, LauncherModel)>
    decreases t.len(),
{
    if t.len() == 0 {
        s
    } else {
        spec_extend_entries(spec_put_entry(s, t[0]), t.drop_first())
    }
}

/// First index bound to launcher name `k`, when any.
pub open spec fn spec_launcher_index(
    s: Seq<(Seq<char>, Seq<(Seq<char>, LauncherModel)>)>,
    k: Seq<char>,
) -> Option<int>
    decreases s.len(),
{
    if s.len() == 0 {
        None
    } else if s[0].0 == k {
        Some(0int)
    } else {
        match spec_launcher_index(s.drop_first(), k) {
            Some(i) => Some(i + 1),
            None => None,
        }
    }
}

/// One launcher's table merged into a configuration: the other table's
/// entries extend the launcher's own, or the launcher is appended whole.
pub open spec fn spec_apply_launcher(
    m: Seq<(Seq<char>, Seq<(Seq<char>, LauncherModel)>)>,
    e: (Seq<char>, Seq<(Seq<char>, LauncherModel)>),
) -> Seq<(Seq<char>, Seq<(Seq<char>, LauncherModel)>)> {
    match spec_launcher_index(m, e.0) {
        Some(j) => m.update(j, (m[j].0, spec_extend_entries(m[j].1, e.1))),
        None => m.push(e),
    }
}

/// A whole configuration merged launcher by launcher, in order.
pub open spec fn spec_merge_launchers(
    m: Seq<(Seq<char>, Seq<(Seq<char>, LauncherModel)>)>,
    t: Seq<(Seq<char>, Seq<(Seq<char>, LauncherModel)>)>,
) -> Seq<(Seq<char>, Seq<(Seq<char>, LauncherModel)>)>
    decreases t.len(),
{
    if t.len() == 0 {
        m
    } else {
        spec_merge_launchers(spec_apply_launcher(m, t[0]), t.drop_first())
    }
}

/// `spec_entry_index` finds the first entry with the given key.
proof fn lemma_entry_index(s: Seq<(Seq<char>, LauncherModel)>, k: Seq<char>)
    ensures
        match spec_entry_index(s, k) {
            None => forall|i: int| 0 <= i < s.len() ==> (#[trigger] s[i]).0 != k,
            Some(j) => 0 <= j < s.len() && s[j].0 == k && forall|i: int|
                0 <= i < j ==> (#[trigger] s[i]).0 != k,
        },
    decreases s.len(),
{
    if s.len() != 0 && s[0].0 != k {
        lemma_entry_index(s.drop_first(), k);
        assert(forall|i: int| 1 <= i < s.len() ==> #[trigger] s[i] == s.drop_first()[i - 1]);
    }
}

/// `spec_launcher_index` finds the first launcher with the given name.
proof fn lemma_launcher_index(
    s: Seq<(Seq<char>, Seq<(Seq<char>, LauncherModel)>)>,
    k: Seq<char>,
)
    ensures
        match spec_launcher_index(s, k) {
            None => forall|i: int| 0 <= i < s.len() ==> (#[trigger] s[i]).0 != k,
            Some(j) => 0 <= j < s.len() && s[j].0 == k && forall|i: int|
                0 <= i < j ==> (#[trigger] s[i]).0 != k,
        },
    decreases s.len(),
{
    if s.len() != 0 && s[0].0 != k {
        lemma_launcher_index(s.drop_first(), k);
        assert(forall|i: int| 1 <= i < s.len() ==> #[trigger] s[i] == s.drop_first()[i - 1]);
    }
}

/// Copy a per-cluster table. The copy has the same model.
#[verifier::loop_isolation(false)]
fn clone_launcher_entries(v: &Vec<(String, Launcher)>) -> (r: Vec<(String, Launcher)>)
    ensures
        launcher_entries_model(r@) == launcher_entries_model(v@),
{
    let mut r: Vec<(String, Launcher)> = Vec::new();
    let mut i: usize = 0;
    while i < v.len()
        invariant
            i <= v@.len(),
            r@.len() == i,
            forall|j: int|
                0 <= j < i ==> (#[trigger] r@[j]).0@ == v@[j].0@ && r@[j].1@ == v@[j].1@,
        decreases v@.len() - i,
    {
        r.push((v[i].0.clone(), v[i].1.clone()));
        i = i + 1;
    }
    proof {
        assert(launcher_entries_model(r@) =~= launcher_entries_model(v@));
    }
    r
}

/// Put one entry into a per-cluster table.
#[verifier::loop_isolation(false)]
fn put_entry(dst: &mut Vec<(String, Launcher)>, name: &String, launcher: &Launcher)
    ensures
        launcher_entries_model(final(dst)@) == spec_put_entry(
            launcher_entries_model(old(dst)@),
            (name@, launcher@),
        ),
{
    let ghost m0 = launcher_entries_model(old(dst)@);
    proof {
        lemma_entry_index(m0, name@);
    }
    let mut i: usize = 0;
    while i < dst.len()
        invariant
            i <= dst@.len(),
            dst@ == old(dst)@,
            forall|j: int| 0 <= j < i ==> (#[trigger] m0[j]).0 != name@,
        decreases dst@.len() - i,
    {
        proof {
            assert(m0[i as int] == (dst@[i as int].0@, dst@[i as int].1@));
        }
        if dst[i].0.eq(name) {
            proof {
                if spec_entry_index(m0, name@) is None {
                    assert(false);
                }
                let x = spec_entry_index(m0, name@)->0;
                if x < i {
                    assert(m0[x].0 != name@);
                }
                if x > i {
                    assert(m0[i as int].0 != name@);
                }
            }
            let key = dst[i].0.clone();
            dst.set(i, (key, launcher.clone()));
            proof {
                assert(launcher_entries_model(dst@) =~= m0.update(
                    i as int,
                    (m0[i as int].0, launcher@),
                ));
            }
            return ;
        }
        i = i + 1;
    }
    proof {
        if spec_entry_index(m0, name@) is Some {
            let x = spec_entry_index(m0, name@)->0;
            assert(m0[x].0 != name@);
        }
    }
    dst.push((name.clone(), launcher.clone()));
    proof {
        assert(launcher_entries_model(dst@) =~= m0.push((name@, launcher@)));
    }
}

/// Extend a per-cluster table with another's entries, in order.
#[verifier::loop_isolation(false)]
fn extend_entries(dst: &mut Vec<(String, Launcher)>, src: &Vec<(String, Launcher)>)
    ensures
        launcher_entries_model(final(dst)@) == spec_extend_entries(
            launcher_entries_model(old(dst)@),
            launcher_entries_model(src@),
        ),
{
    let ghost m0 = launcher_entries_model(old(dst)@);
    let ghost tm = launcher_entries_model(src@);
    let mut i: usize = 0;
    proof {
        assert(tm.skip(0) =~= tm);
    }
    while i < src.len()
        invariant
            i <= src@.len(),
            spec_extend_entries(launcher_entries_model(dst@), tm.skip(i as int))
                == spec_extend_entries(m0, tm),
        decreases src@.len() - i,
    {
        let ghost before = launcher_entries_model(dst@);
        put_entry(dst, &src[i].0, &src[i].1);
        proof {
            assert(tm.skip(i as int)[0] == tm[i as int]);
            assert(tm[i as int] == (src@[i as int].0@, src@[i as int].1@));
            assert(tm.skip(i as int).drop_first() =~= tm.skip(i as int + 1));
            assert(launcher_entries_model(dst@) == spec_put_entry(before, tm[i as int]));
        }
        i = i + 1;
    }
    proof {
        assert(tm.skip(src@.len() as int).len() == 0);
    }
}

impl Configuration {
    /// Merge keys from another configuration into this one. Merging adds new
    /// launchers and entries from `b`, overriding entries present in both.
    #[verifier::loop_isolation(false)]
    pub fn merge(&mut self, b: Configuration)
        ensures
            launchers_model(final(self).launchers@) == spec_merge_launchers(
                launchers_model(old(self).launchers@),
                launchers_model(b.launchers@),
            ),
    {
        let ghost m0 = launchers_model(old(self).launchers@);
        let ghost tm = launchers_model(b.launchers@);
        let mut i: usize = 0;
        proof {
            assert(tm.skip(0) =~= tm);
        }
        while i < b.launchers.len()
            invariant
                i <= b.launchers@.len(),
                spec_merge_launchers(launchers_model(self.launchers@), tm.skip(i as int))
                    == spec_merge_launchers(m0, tm),
            decreases b.launchers@.len() - i,
        {
            let ghost before = launchers_model(self.launchers@);
            let ghost e = tm[i as int];
            proof {
                assert(tm[i as int] == (b.launchers@[i as int].0@, launcher_entries_model(
                    b.launchers@[i as int].1@,
                )));
                lemma_launcher_index(before, e.0);
            }
            // Find the launcher with this name, when present.
            let mut j: usize = 0;
            let mut found: Option<usize> = None;
            while j < self.launchers.len()
                invariant
                    j <= self.launchers@.len(),
                    before == launchers_model(self.launchers@),
                    e == tm[i as int],
                    i < b.launchers@.len(),
                    e.0 == b.launchers@[i as int].0@,
                    match found {
                        Some(x) => x < self.launchers@.len() && spec_launcher_index(before, e.0)
                            == Some(x as int),
                        None => forall|k: int|
                            0 <= k < j ==> (#[trigger] before[k]).0 != e.0,
                    },
                decreases self.launchers@.len() - j,
            {
                if found.is_none() {
                    proof {
                        assert(before[j as int] == (self.launchers@[j as int].0@,
                        launcher_entries_model(self.launchers@[j as int].1@)));
                    }
                    if self.launchers[j].0.eq(&b.launchers[i].0) {
                        proof {
                            if spec_launcher_index(before, e.0) is None {
                                assert(false);
                            }
                            let x = spec_launcher_index(before, e.0)->0;
                            if x < j {
                                assert(before[x].0 != e.0);
                            }
                            if x > j {
                                assert(before[j as int].0 != e.0);
                            }
                        }
                        found = Some(j);
                    }
                }
                j = j + 1;
            }
            match found {
                Some(x) => {
                    // Move the entry out, extend it, and put it back.
                    let mut entry = clone_launcher_entries(&self.launchers[x].1);
                    let ghost entry0 = launcher_entries_model(self.launchers@[x as int].1@);
                    extend_entries(&mut entry, &b.launchers[i].1);
                    let key = self.launchers[x].0.clone();
                    self.launchers.set(x, (key, entry));
                    proof {
                        assert(launchers_model(self.launchers@) =~= before.update(
                            x as int,
                            (before[x as int].0, spec_extend_entries(entry0, e.1)),
                        ));
                        assert(before[x as int].1 == entry0);
                    }
                },
                None => {
                    proof {
                        if spec_launcher_index(before, e.0) is Some {
                            let x = spec_launcher_index(before, e.0)->0;
                            assert(before[x].0 != e.0);
                        }
                    }
                    let entry = clone_launcher_entries(&b.launchers[i].1);
                    self.launchers.push((b.launchers[i].0.clone(), entry));
                    proof {
                        assert(launchers_model(self.launchers@) =~= before.push(e));
                    }
                },
            }
            proof {
                assert(tm.skip(i as int)[0] == tm[i as int]);
                assert(tm.skip(i as int).drop_first() =~= tm.skip(i as int + 1));
            }
            i = i + 1;
        }
        proof {
            assert(tm.skip(b.launchers@.len() as int).len() == 0);
        }
    }
}

} // verus!
