//! The project facade: the workflow, the state, and the active cluster name,
//! with the matching, status, and grouping operations over them.

use vstd::prelude::*;
use vstd::multiset::Multiset;
use vstd::seq_lib::group_seq_properties;
use crate::error::Error;
use crate::expr;
use crate::state::{assoc_lookup, State};
use crate::text;
use crate::value::{spec_pointer, spec_value_cmp_seq, Json, Value};
use crate::workflow::{
    spec_action_name, strs_model, Action, ActionModel, ConditionModel, Selector, SelectorModel,
    Workflow,
};

verus! {

broadcast use group_seq_properties;

/// Individual sets of directories, separated by status for a given action.
#[derive(Debug)]
pub struct Status {
    /// Directories that have completed.
    pub completed: Vec<String>,
    /// Directories that have been submitted to the scheduler.
    pub submitted: Vec<String>,
    /// Directories that are eligible to execute.
    pub eligible: Vec<String>,
    /// Directories that are waiting on previous actions to complete.
    pub waiting: Vec<String>,
}

/// Whether every previous action of `a` lists `d` as completed in `s`.
pub open spec fn spec_all_previous_completed(s: State, a: ActionModel, d: Seq<char>) -> bool {
    match a.previous_actions {
        Some(ps) => forall|k: int|
            0 <= k < ps.len() ==> s.spec_is_completed(#[trigger] ps[k], d),
        None => true,
    }
}

/// The status of one directory for one action: the state machine of the
/// engine. Terminal state first: completed beats submitted beats eligible;
/// everything else waits.
pub open spec fn spec_dir_completed(s: State, a: ActionModel, d: Seq<char>) -> bool {
    s.spec_is_completed(spec_action_name(a), d)
}

pub open spec fn spec_dir_submitted(s: State, a: ActionModel, d: Seq<char>) -> bool {
    !spec_dir_completed(s, a, d) && s.spec_is_submitted(spec_action_name(a), d)
}

pub open spec fn spec_dir_eligible(s: State, a: ActionModel, d: Seq<char>) -> bool {
    !spec_dir_completed(s, a, d) && !s.spec_is_submitted(spec_action_name(a), d)
        && spec_all_previous_completed(s, a, d)
}

pub open spec fn spec_dir_waiting(s: State, a: ActionModel, d: Seq<char>) -> bool {
    !spec_dir_completed(s, a, d) && !s.spec_is_submitted(spec_action_name(a), d)
        && !spec_all_previous_completed(s, a, d)
}

/// Encapsulate the workflow, state, and active cluster name of a project.
#[derive(Debug)]
pub struct Project {
    /// The project's workflow definition.
    pub workflow: Workflow,
    /// The state associated with the directories of the project.
    pub state: State,
    /// The active cluster's name.
    pub cluster_name: String,
}

impl Project {
    /// Assemble a project from its parts.
    pub fn new(workflow: Workflow, state: State, cluster_name: String) -> (r: Project)
        ensures
            r.workflow == workflow,
            r.state == state,
            r.cluster_name == cluster_name,
    {
        Project { workflow, state, cluster_name }
    }

    /// Get the project's workflow definition.
    pub fn workflow<'a>(&'a self) -> (r: &'a Workflow)
        ensures
            r == self.workflow,
    {
        &self.workflow
    }

    /// Get the state of the project's workspace.
    pub fn state<'a>(&'a self) -> (r: &'a State)
        ensures
            r == self.state,
    {
        &self.state
    }

    /// Add a new submitted job on the active cluster.
    pub fn add_submitted(&mut self, action_name: &str, directories: &Vec<String>, job_id: u32)
        ensures
            final(self).workflow == old(self).workflow,
            final(self).cluster_name == old(self).cluster_name,
            forall|d: Seq<char>|
                strs_model(directories@).contains(d) ==> final(self).state.spec_submitted_job(
                    action_name@,
                    d,
                ) == Some((old(self).cluster_name@, job_id)),
            forall|a: Seq<char>, d: Seq<char>|
                !(a == action_name@ && strs_model(directories@).contains(d))
                    ==> final(self).state.spec_submitted_job(a, d) == old(
                    self,
                ).state.spec_submitted_job(a, d),
    {
        let cluster = self.cluster_name.clone();
        self.state.add_submitted(action_name, directories, cluster.as_str(), job_id);
    }

    /// Separate a set of directories by their status for an action.
    ///
    /// Succeeds exactly when every given directory is known to the state;
    /// each of the four lists then holds, in the input order, the directories
    /// in the corresponding status.
    #[verifier::loop_isolation(false)]
    #[verifier::rlimit(100)]
    pub fn separate_by_status(&self, action: &Action, directories: Vec<String>) -> (r: Result<
        Status,
        Error,
    >)
        ensures
            r is Ok <==> (forall|i: int|
                0 <= i < directories@.len() ==> self.state.spec_has_directory(
                    (#[trigger] directories@[i])@,
                )),
            r matches Ok(st) ==> {
                let dm = strs_model(directories@);
                &&& strs_model(st.completed@) == dm.filter(
                    |d: Seq<char>| spec_dir_completed(self.state, action@, d),
                )
                &&& strs_model(st.submitted@) == dm.filter(
                    |d: Seq<char>| spec_dir_submitted(self.state, action@, d),
                )
                &&& strs_model(st.eligible@) == dm.filter(
                    |d: Seq<char>| spec_dir_eligible(self.state, action@, d),
                )
                &&& strs_model(st.waiting@) == dm.filter(
                    |d: Seq<char>| spec_dir_waiting(self.state, action@, d),
                )
            },
            r matches Err(e) ==> e matches Error::DirectoryNotFound(_),
    {
        let ghost dm = strs_model(directories@);
        let mut completed: Vec<String> = Vec::new();
        let mut submitted: Vec<String> = Vec::new();
        let mut eligible: Vec<String> = Vec::new();
        let mut waiting: Vec<String> = Vec::new();
        let ghost pc = |d: Seq<char>| spec_dir_completed(self.state, action@, d);
        let ghost ps = |d: Seq<char>| spec_dir_submitted(self.state, action@, d);
        let ghost pe = |d: Seq<char>| spec_dir_eligible(self.state, action@, d);
        let ghost pw = |d: Seq<char>| spec_dir_waiting(self.state, action@, d);
        let mut i: usize = 0;
        proof {
            reveal_with_fuel(Seq::filter, 2);
            assert(dm.take(0) =~= Seq::<Seq<char>>::empty());
            assert(dm.take(0).filter(pc) =~= Seq::<Seq<char>>::empty());
            assert(dm.take(0).filter(ps) =~= Seq::<Seq<char>>::empty());
            assert(dm.take(0).filter(pe) =~= Seq::<Seq<char>>::empty());
            assert(dm.take(0).filter(pw) =~= Seq::<Seq<char>>::empty());
        }
        while i < directories.len()
            invariant
                i <= directories@.len(),
                dm == strs_model(directories@),
                dm.len() == directories@.len(),
                strs_model(completed@) == dm.take(i as int).filter(pc),
                strs_model(submitted@) == dm.take(i as int).filter(ps),
                strs_model(eligible@) == dm.take(i as int).filter(pe),
                strs_model(waiting@) == dm.take(i as int).filter(pw),
                forall|j: int|
                    0 <= j < i ==> self.state.spec_has_directory((#[trigger] directories@[j])@),
                pc == |d: Seq<char>| spec_dir_completed(self.state, action@, d),
                ps == |d: Seq<char>| spec_dir_submitted(self.state, action@, d),
                pe == |d: Seq<char>| spec_dir_eligible(self.state, action@, d),
                pw == |d: Seq<char>| spec_dir_waiting(self.state, action@, d),
            decreases directories@.len() - i,
        {
            let d = &directories[i];
            let ghost dv = directories@[i as int]@;
            proof {
                reveal_with_fuel(Seq::filter, 2);
                Seq::filter_distributes_over_add(dm.take(i as int), seq![dv], pc);
                Seq::filter_distributes_over_add(dm.take(i as int), seq![dv], ps);
                Seq::filter_distributes_over_add(dm.take(i as int), seq![dv], pe);
                Seq::filter_distributes_over_add(dm.take(i as int), seq![dv], pw);
                assert(dm[i as int] == dv);
                assert(dm.take(i as int + 1) =~= dm.take(i as int) + seq![dv]);
                assert(seq![dv].filter(pc) =~= if pc(dv) {
                    seq![dv]
                } else {
                    Seq::<Seq<char>>::empty()
                });
                assert(seq![dv].filter(ps) =~= if ps(dv) {
                    seq![dv]
                } else {
                    Seq::<Seq<char>>::empty()
                });
                assert(seq![dv].filter(pe) =~= if pe(dv) {
                    seq![dv]
                } else {
                    Seq::<Seq<char>>::empty()
                });
                assert(seq![dv].filter(pw) =~= if pw(dv) {
                    seq![dv]
                } else {
                    Seq::<Seq<char>>::empty()
                });
            }
            match self.state.value_of(d.as_str()) {
                None => {
                    proof {
                        assert(!self.state.spec_has_directory(directories@[i as int]@));
                    }
                    return Err(Error::DirectoryNotFound(d.clone()));
                },
                Some(_) => {},
            }
            let name = action.name();
            if self.is_completed_dir(name, d.as_str()) {
                let ghost before = strs_model(completed@);
                completed.push(d.clone());
                proof {
                    assert(strs_model(completed@) =~= before + seq![dv]);
                    assert(pc(dv) && !ps(dv) && !pe(dv) && !pw(dv));
                }
            } else if self.state.is_submitted(name, d.as_str()) {
                let ghost before = strs_model(submitted@);
                submitted.push(d.clone());
                proof {
                    assert(strs_model(submitted@) =~= before + seq![dv]);
                    assert(!pc(dv) && ps(dv) && !pe(dv) && !pw(dv));
                }
            } else if self.all_previous_completed(action, d.as_str()) {
                let ghost before = strs_model(eligible@);
                eligible.push(d.clone());
                proof {
                    assert(strs_model(eligible@) =~= before + seq![dv]);
                    assert(!pc(dv) && !ps(dv) && pe(dv) && !pw(dv));
                }
            } else {
                let ghost before = strs_model(waiting@);
                waiting.push(d.clone());
                proof {
                    assert(strs_model(waiting@) =~= before + seq![dv]);
                    assert(!pc(dv) && !ps(dv) && !pe(dv) && pw(dv));
                }
            }
            i = i + 1;
        }
        proof {
            assert(dm.take(directories@.len() as int) =~= dm);
        }
        Ok(Status { completed, submitted, eligible, waiting })
    }

    /// Whether the state records `directory` as completed for the action
    /// named `name`.
    fn is_completed_dir(&self, name: &str, directory: &str) -> (r: bool)
        ensures
            r == self.state.spec_is_completed(name@, directory@),
    {
        let ghost cm = self.state.completed_model();
        let completed = self.state.completed();
        let mut i: usize = 0;
        proof {
            assert(cm.skip(0) =~= cm);
        }
        #[verifier::loop_isolation(false)]
        while i < completed.len()
            invariant
                i <= completed@.len(),
                assoc_lookup(cm, name@) == assoc_lookup(cm.skip(i as int), name@),
            decreases completed@.len() - i,
        {
            proof {
                assert(cm.skip(i as int)[0] == cm[i as int]);
                assert(cm[i as int] == (completed@[i as int].0@, strs_model(
                    completed@[i as int].1@,
                )));
                assert(cm.skip(i as int).drop_first() =~= cm.skip(i as int + 1));
            }
            if text::str_eq(completed[i].0.as_str(), name) {
                return crate::state::contains_str(&completed[i].1, directory);
            }
            i = i + 1;
        }
        proof {
            assert(cm.skip(completed@.len() as int).len() == 0);
        }
        false
    }

    /// Whether every previous action of `action` lists `directory` as
    /// completed.
    #[verifier::loop_isolation(false)]
    fn all_previous_completed(&self, action: &Action, directory: &str) -> (r: bool)
        ensures
            r == spec_all_previous_completed(self.state, action@, directory@),
    {
        let previous = action.previous_actions();
        let ghost pm = match action@.previous_actions {
            Some(ps) => ps,
            None => Seq::empty(),
        };
        proof {
            assert(strs_model(previous@) == pm);
        }
        let mut k: usize = 0;
        while k < previous.len()
            invariant
                k <= previous@.len(),
                pm.len() == previous@.len(),
                strs_model(previous@) == pm,
                forall|x: int|
                    0 <= x < k ==> self.state.spec_is_completed(#[trigger] pm[x], directory@),
            decreases previous@.len() - k,
        {
            proof {
                assert(pm[k as int] == previous@[k as int]@);
            }
            if !self.is_completed_dir(previous[k].as_str(), directory) {
                return false;
            }
            k = k + 1;
        }
        true
    }
}

/// The four statuses are mutually exclusive and exhaustive, so the four
/// status lists partition the input: every directory lands in exactly one
/// of them, and together they carry exactly the input's directories.
pub proof fn lemma_status_partition(s: State, a: ActionModel, dm: Seq<Seq<char>>)
    ensures
        dm.filter(|d: Seq<char>| spec_dir_completed(s, a, d)).to_multiset().add(
            dm.filter(|d: Seq<char>| spec_dir_submitted(s, a, d)).to_multiset(),
        ).add(
            dm.filter(|d: Seq<char>| spec_dir_eligible(s, a, d)).to_multiset().add(
                dm.filter(|d: Seq<char>| spec_dir_waiting(s, a, d)).to_multiset(),
            ),
        ) == dm.to_multiset(),
    decreases dm.len(),
{
    reveal_with_fuel(Seq::filter, 2);
    let pc = |d: Seq<char>| spec_dir_completed(s, a, d);
    let ps = |d: Seq<char>| spec_dir_submitted(s, a, d);
    let pe = |d: Seq<char>| spec_dir_eligible(s, a, d);
    let pw = |d: Seq<char>| spec_dir_waiting(s, a, d);
    if dm.len() == 0 {
        assert(dm.filter(pc) =~= Seq::<Seq<char>>::empty());
        assert(dm.filter(ps) =~= Seq::<Seq<char>>::empty());
        assert(dm.filter(pe) =~= Seq::<Seq<char>>::empty());
        assert(dm.filter(pw) =~= Seq::<Seq<char>>::empty());
        assert(dm.filter(pc).to_multiset().add(dm.filter(ps).to_multiset()).add(
            dm.filter(pe).to_multiset().add(dm.filter(pw).to_multiset()),
        ) =~= dm.to_multiset());
    } else {
        let rest = dm.drop_last();
        let x = dm.last();
        lemma_status_partition(s, a, rest);
        assert(dm =~= rest + seq![x]);
        Seq::filter_distributes_over_add(rest, seq![x], pc);
        Seq::filter_distributes_over_add(rest, seq![x], ps);
        Seq::filter_distributes_over_add(rest, seq![x], pe);
        Seq::filter_distributes_over_add(rest, seq![x], pw);
        assert(seq![x].filter(pc) =~= if pc(x) {
            seq![x]
        } else {
            Seq::<Seq<char>>::empty()
        });
        assert(seq![x].filter(ps) =~= if ps(x) {
            seq![x]
        } else {
            Seq::<Seq<char>>::empty()
        });
        assert(seq![x].filter(pe) =~= if pe(x) {
            seq![x]
        } else {
            Seq::<Seq<char>>::empty()
        });
        assert(seq![x].filter(pw) =~= if pw(x) {
            seq![x]
        } else {
            Seq::<Seq<char>>::empty()
        });
        assert(pc(x) || ps(x) || pe(x) || pw(x));
        assert((dm.filter(pc)).to_multiset().add((dm.filter(ps)).to_multiset()).add(
            (dm.filter(pe)).to_multiset().add((dm.filter(pw)).to_multiset()),
        ) =~= dm.to_multiset()) by {
            assert(dm.filter(pc) =~= rest.filter(pc) + seq![x].filter(pc));
            assert(dm.filter(ps) =~= rest.filter(ps) + seq![x].filter(ps));
            assert(dm.filter(pe) =~= rest.filter(pe) + seq![x].filter(pe));
            assert(dm.filter(pw) =~= rest.filter(pw) + seq![x].filter(pw));
            rest.to_multiset_ensures();
            dm.to_multiset_ensures();
            (rest.filter(pc)).to_multiset_ensures();
            (rest.filter(ps)).to_multiset_ensures();
            (rest.filter(pe)).to_multiset_ensures();
            (rest.filter(pw)).to_multiset_ensures();
            lemma_to_multiset_add(rest.filter(pc), seq![x].filter(pc));
            lemma_to_multiset_add(rest.filter(ps), seq![x].filter(ps));
            lemma_to_multiset_add(rest.filter(pe), seq![x].filter(pe));
            lemma_to_multiset_add(rest.filter(pw), seq![x].filter(pw));
            lemma_to_multiset_add(rest, seq![x]);
        }
    }
}

/// Concatenation turns into multiset addition.
pub proof fn lemma_to_multiset_add<A>(a: Seq<A>, b: Seq<A>)
    ensures
        (a + b).to_multiset() == a.to_multiset().add(b.to_multiset()),
    decreases b.len(),
{
    a.to_multiset_ensures();
    b.to_multiset_ensures();
    (a + b).to_multiset_ensures();
    if b.len() == 0 {
        assert(a + b =~= a);
        assert(b.to_multiset() =~= Multiset::<A>::empty());
        assert(a.to_multiset().add(b.to_multiset()) =~= a.to_multiset());
    } else {
        let b0 = b.drop_last();
        lemma_to_multiset_add(a, b0);
        assert(a + b =~= (a + b0).push(b.last()));
        (a + b0).to_multiset_ensures();
        b0.to_multiset_ensures();
        assert((a + b0).push(b.last()).to_multiset() =~= (a + b0).to_multiset().insert(
            b.last(),
        ));
        assert(b0.push(b.last()).to_multiset() =~= b0.to_multiset().insert(b.last()));
        assert(b =~= b0.push(b.last()));
        assert(a.to_multiset().add(b0.to_multiset().insert(b.last())) =~= a.to_multiset().add(
            b0.to_multiset(),
        ).insert(b.last()));
    }
}

} // verus!

verus! {

/// One condition evaluated against a directory's value: `None` when the
/// pointer does not resolve or the two values cannot be ordered.
pub open spec fn spec_condition_eval(c: ConditionModel, v: Json) -> Option<bool> {
    match spec_pointer(v, c.pointer) {
        None => None,
        Some(actual) => expr::spec_evaluate_comparison(c.comparison, actual, c.value),
    }
}

/// A conjunction of conditions: `None` when any member fails to evaluate,
/// else whether all hold.
pub open spec fn spec_conditions_eval(cs: Seq<ConditionModel>, v: Json) -> Option<bool>
    decreases cs.len(),
{
    if cs.len() == 0 {
        Some(true)
    } else {
        match (spec_condition_eval(cs[0], v), spec_conditions_eval(cs.drop_first(), v)) {
            (Some(b), Some(r)) => Some(b && r),
            _ => None,
        }
    }
}

/// One selector evaluated against a directory's value.
pub open spec fn spec_selector_eval(s: SelectorModel, v: Json) -> Option<bool> {
    match s {
        SelectorModel::Condition(c) => spec_condition_eval(c, v),
        SelectorModel::All(cs) => spec_conditions_eval(cs, v),
    }
}

/// A disjunction of selectors, evaluated in order: the first `true` decides;
/// an evaluation failure before that surfaces as `None`.
pub open spec fn spec_selectors_eval(g: Seq<SelectorModel>, v: Json) -> Option<bool>
    decreases g.len(),
{
    if g.len() == 0 {
        Some(false)
    } else {
        match spec_selector_eval(g[0], v) {
            None => None,
            Some(true) => Some(true),
            Some(false) => spec_selectors_eval(g.drop_first(), v),
        }
    }
}

/// The directories of `dirs` that the selectors admit, in order: directories
/// without a value are skipped; an empty selector list admits everything;
/// `None` when any evaluation fails.
pub open spec fn spec_find_matching(
    values: Seq<(Seq<char>, Json)>,
    sels: Seq<SelectorModel>,
    dirs: Seq<Seq<char>>,
) -> Option<Seq<Seq<char>>>
    decreases dirs.len(),
{
    if dirs.len() == 0 {
        Some(Seq::empty())
    } else {
        let rest = spec_find_matching(values, sels, dirs.drop_first());
        match assoc_lookup(values, dirs[0]) {
            None => rest,
            Some(v) => if sels.len() == 0 {
                match rest {
                    None => None,
                    Some(t) => Some(seq![dirs[0]] + t),
                }
            } else {
                match spec_selectors_eval(sels, v) {
                    None => None,
                    Some(true) => match rest {
                        None => None,
                        Some(t) => Some(seq![dirs[0]] + t),
                    },
                    Some(false) => rest,
                }
            },
        }
    }
}

impl Project {
    /// Find the directories the action's selectors admit, in the given
    /// order. Directories unknown to the state are skipped. Fails exactly
    /// when a selector fails to evaluate on some known directory: a pointer
    /// that does not resolve, or values that cannot be ordered.
    #[verifier::loop_isolation(false)]
    #[verifier::rlimit(100)]
    pub fn find_matching_directories(&self, action: &Action, directories: Vec<String>) -> (r:
        Result<Vec<String>, Error>)
        ensures
            match r {
                Ok(out) => spec_find_matching(
                    self.state.values_model(),
                    match action@.group.included {
                        Some(g) => g,
                        None => Seq::empty(),
                    },
                    strs_model(directories@),
                ) == Some(strs_model(out@)),
                Err(_) => spec_find_matching(
                    self.state.values_model(),
                    match action@.group.included {
                        Some(g) => g,
                        None => Seq::empty(),
                    },
                    strs_model(directories@),
                ) is None,
            },
    {
        let ghost vm = self.state.values_model();
        let ghost dm = strs_model(directories@);
        let selectors = action.group.included();
        let ghost sm = match action@.group.included {
            Some(g) => g,
            None => Seq::<SelectorModel>::empty(),
        };
        proof {
            assert(crate::workflow::selectors_model(selectors@) == sm);
            assert(dm.skip(0) =~= dm);
        }
        let mut out: Vec<String> = Vec::new();
        let mut i: usize = 0;
        while i < directories.len()
            invariant
                i <= directories@.len(),
                dm == strs_model(directories@),
                dm.len() == directories@.len(),
                sm == crate::workflow::selectors_model(selectors@),
                selectors@.len() == sm.len(),
                match spec_find_matching(vm, sm, dm.skip(i as int)) {
                    Some(t) => spec_find_matching(vm, sm, dm) == Some(strs_model(out@) + t),
                    None => spec_find_matching(vm, sm, dm) is None,
                },
            decreases directories@.len() - i,
        {
            let d = &directories[i];
            let ghost dv = directories@[i as int]@;
            proof {
                assert(dm.skip(i as int)[0] == dv);
                assert(dm.skip(i as int).drop_first() =~= dm.skip(i as int + 1));
            }
            match self.state.value_of(d.as_str()) {
                None => {},
                Some(value) => {
                    if selectors.len() == 0 {
                        let ghost before = strs_model(out@);
                        out.push(d.clone());
                        proof {
                            assert(strs_model(out@) =~= before + seq![dv]);
                            let rr = spec_find_matching(vm, sm, dm.skip(i as int + 1));
                            if rr is Some {
                                let t = rr->0;
                                assert(before + (seq![dv] + t) =~= (before + seq![dv]) + t);
                            }
                        }
                    } else {
                        match self.evaluate_selectors(&selectors, value) {
                            None => {
                                return Err(Error::CannotCompareInclude(d.clone()));
                            },
                            Some(true) => {
                                let ghost before = strs_model(out@);
                                out.push(d.clone());
                                proof {
                                    assert(strs_model(out@) =~= before + seq![dv]);
                                    let rr = spec_find_matching(vm, sm, dm.skip(i as int + 1));
                                    if rr is Some {
                                        let t = rr->0;
                                        assert(before + (seq![dv] + t) =~= (before + seq![dv])
                                            + t);
                                    }
                                }
                            },
                            Some(false) => {},
                        }
                    }
                },
            }
            i = i + 1;
        }
        proof {
            assert(dm.skip(directories@.len() as int).len() == 0);
            assert(strs_model(out@) + Seq::<Seq<char>>::empty() =~= strs_model(out@));
        }
        Ok(out)
    }

    /// Evaluate a selector list against one value.
    #[verifier::loop_isolation(false)]
    fn evaluate_selectors(&self, selectors: &Vec<Selector>, value: &Value) -> (r: Option<bool>)
        ensures
            r == spec_selectors_eval(crate::workflow::selectors_model(selectors@), value@),
    {
        let ghost sm = crate::workflow::selectors_model(selectors@);
        let mut i: usize = 0;
        proof {
            assert(sm.skip(0) =~= sm);
        }
        while i < selectors.len()
            invariant
                i <= selectors@.len(),
                sm.len() == selectors@.len(),
                spec_selectors_eval(sm, value@) == spec_selectors_eval(
                    sm.skip(i as int),
                    value@,
                ),
            decreases selectors@.len() - i,
        {
            proof {
                assert(sm.skip(i as int)[0] == sm[i as int]);
                assert(sm[i as int] == selectors@[i as int]@);
                assert(sm.skip(i as int).drop_first() =~= sm.skip(i as int + 1));
            }
            let sel_result = match &selectors[i] {
                Selector::Condition(c) => self.evaluate_condition(c, value),
                Selector::All(cs) => self.evaluate_conditions(cs, value),
            };
            match sel_result {
                None => {
                    return None;
                },
                Some(true) => {
                    return Some(true);
                },
                Some(false) => {},
            }
            i = i + 1;
        }
        proof {
            assert(sm.skip(selectors@.len() as int).len() == 0);
        }
        Some(false)
    }

    /// Evaluate one condition against one value.
    fn evaluate_condition(&self, c: &crate::workflow::Condition, value: &Value) -> (r: Option<
        bool,
    >)
        ensures
            r == spec_condition_eval(c@, value@),
    {
        match value.pointer(c.pointer.as_str()) {
            None => None,
            Some(actual) => expr::evaluate_json_comparison(&c.comparison, actual, &c.value),
        }
    }

    /// Evaluate a conjunction of conditions against one value.
    #[verifier::loop_isolation(false)]
    fn evaluate_conditions(&self, cs: &Vec<crate::workflow::Condition>, value: &Value) -> (r:
        Option<bool>)
        ensures
            r == spec_conditions_eval(crate::workflow::conditions_model(cs@), value@),
    {
        let ghost cm = crate::workflow::conditions_model(cs@);
        let mut i: usize = 0;
        let mut all = true;
        proof {
            assert(cm.skip(0) =~= cm);
        }
        while i < cs.len()
            invariant
                i <= cs@.len(),
                cm.len() == cs@.len(),
                match spec_conditions_eval(cm.skip(i as int), value@) {
                    Some(rest) => spec_conditions_eval(cm, value@) == Some(all && rest),
                    None => spec_conditions_eval(cm, value@) is None,
                },
            decreases cs@.len() - i,
        {
            proof {
                assert(cm.skip(i as int)[0] == cm[i as int]);
                assert(cm[i as int] == cs@[i as int]@);
                assert(cm.skip(i as int).drop_first() =~= cm.skip(i as int + 1));
            }
            match self.evaluate_condition(&cs[i], value) {
                None => {
                    return None;
                },
                Some(b) => {
                    all = all && b;
                },
            }
            i = i + 1;
        }
        proof {
            assert(cm.skip(cs@.len() as int).len() == 0);
        }
        Some(all)
    }
}

} // verus!

