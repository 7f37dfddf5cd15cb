//! The workflow model: workspace parameters, actions, resources, and groups.
//!
//! A workflow is the in-memory realization of the user-provided project
//! manifest: an ordered list of actions over a workspace, together with a
//! table of defaults. [`Workflow::validate_and_set_defaults`] resolves every
//! action against its `from` reference and the default action, and checks the
//! rules that the rest of the engine relies on.
//!
//! Contracts speak of the model structs ([`WorkflowModel`], [`ActionModel`],
//! ...): the view of each type is its model.

use vstd::prelude::*;
use vstd::string::StrSliceExecFns;
use crate::value::{value_model, Json, Value};

verus! {

/// Comparison operations usable in include conditions.
#[derive(Clone, Copy, Debug, PartialEq, Eq)]
pub enum Comparison {
    LessThan,
    LessThanOrEqualTo,
    EqualTo,
    GreaterThanOrEqualTo,
    GreaterThan,
}

/// The workspace definition: where directories live and which file inside
/// each holds its value.
#[derive(Debug, PartialEq)]
pub struct Workspace {
    /// The workspace directory, relative to the project root.
    pub path: String,
    /// Name of the value file, when one is configured.
    pub value_file: Option<String>,
}

/// The model of a workspace definition.
#[verifier::ext_equal]
pub struct WorkspaceModel {
    pub path: Seq<char>,
    pub value_file: Option<Seq<char>>,
}

impl View for Workspace {
    type V = WorkspaceModel;

    open spec fn view(&self) -> WorkspaceModel {
        WorkspaceModel { path: self.path@, value_file: opt_str_model(self.value_file) }
    }
}

/// The cluster-specific submission options of a workflow or action.
#[derive(Debug, Default, PartialEq)]
pub struct SubmitOptions {
    /// The account.
    pub account: Option<String>,
    /// Setup commands.
    pub setup: Option<String>,
    /// Custom options.
    pub custom: Vec<String>,
    /// The partition.
    pub partition: Option<String>,
}

/// The model of submission options.
#[verifier::ext_equal]
pub struct SubmitOptionsModel {
    pub account: Option<Seq<char>>,
    pub setup: Option<Seq<char>>,
    pub custom: Seq<Seq<char>>,
    pub partition: Option<Seq<char>>,
}

impl View for SubmitOptions {
    type V = SubmitOptionsModel;

    open spec fn view(&self) -> SubmitOptionsModel {
        SubmitOptionsModel {
            account: opt_str_model(self.account),
            setup: opt_str_model(self.setup),
            custom: strs_model(self.custom@),
            partition: opt_str_model(self.partition),
        }
    }
}

/// The model of an optional string.
pub open spec fn opt_str_model(o: Option<String>) -> Option<Seq<char>> {
    match o {
        Some(s) => Some(s@),
        None => None,
    }
}

/// The models of a sequence of strings.
pub open spec fn strs_model(s: Seq<String>) -> Seq<Seq<char>> {
    s.map_values(|x: String| x@)
}

/// The model of an optional string list.
pub open spec fn opt_strs_model(o: Option<Vec<String>>) -> Option<Seq<Seq<char>>> {
    match o {
        Some(v) => Some(strs_model(v@)),
        None => None,
    }
}

/// A process count: per submission, or per directory in the submission.
#[derive(Clone, Copy, Debug, PartialEq, Eq)]
pub enum Processes {
    PerSubmission(usize),
    PerDirectory(usize),
}

/// A walltime in whole seconds: per submission, or per directory.
#[derive(Clone, Copy, Debug, PartialEq, Eq)]
pub enum Walltime {
    PerSubmission(u64),
    PerDirectory(u64),
}

impl Default for Processes {
    /// One process per submission.
    fn default() -> (r: Self)
        ensures
            r == Processes::PerSubmission(1usize),
    {
        Processes::PerSubmission(1)
    }
}

impl Default for Walltime {
    /// One hour per directory.
    fn default() -> (r: Self)
        ensures
            r == Walltime::PerDirectory(3600u64),
    {
        Walltime::PerDirectory(3600)
    }
}

/// Resources used by an action. All fields are plain counts, so the model of
/// a `Resources` is itself.
#[derive(Clone, Copy, Debug, Default, PartialEq)]
pub struct Resources {
    /// Number of processes.
    pub processes: Option<Processes>,
    /// Threads per process.
    pub threads_per_process: Option<usize>,
    /// GPUs per process.
    pub gpus_per_process: Option<usize>,
    /// Walltime.
    pub walltime: Option<Walltime>,
}

/// A single selection condition: the value at `pointer` must stand in the
/// relation `comparison` to `value`.
#[derive(Debug, PartialEq)]
pub struct Condition {
    pub pointer: String,
    pub comparison: Comparison,
    pub value: Value,
}

/// The model of a single selection condition.
#[verifier::ext_equal]
pub struct ConditionModel {
    pub pointer: Seq<char>,
    pub comparison: Comparison,
    pub value: Json,
}

impl View for Condition {
    type V = ConditionModel;

    open spec fn view(&self) -> ConditionModel {
        ConditionModel {
            pointer: self.pointer@,
            comparison: self.comparison,
            value: value_model(self.value),
        }
    }
}

/// One member of an include list: a single condition, or a conjunction that
/// holds only when all of its conditions do.
#[derive(Debug, PartialEq)]
pub enum Selector {
    Condition(Condition),
    All(Vec<Condition>),
}

/// The model of a selector.
#[verifier::ext_equal]
pub enum SelectorModel {
    Condition(ConditionModel),
    All(Seq<ConditionModel>),
}

/// The models of a condition list.
pub open spec fn conditions_model(s: Seq<Condition>) -> Seq<ConditionModel> {
    s.map_values(|c: Condition| c@)
}

impl View for Selector {
    type V = SelectorModel;

    open spec fn view(&self) -> SelectorModel {
        match self {
            Selector::Condition(c) => SelectorModel::Condition(c@),
            Selector::All(cs) => SelectorModel::All(conditions_model(cs@)),
        }
    }
}

/// Group definition: which directories an action includes, and how they are
/// ordered and batched.
#[derive(Debug, Default, PartialEq)]
pub struct Group {
    /// Include directories matching any selector in this list.
    pub included: Option<Vec<Selector>>,
    /// Sort by the values at these JSON pointers.
    pub sort_by: Option<Vec<String>>,
    /// Split into groups by the sort keys.
    pub split_by_sort_key: Option<bool>,
    /// Reverse the sort.
    pub reverse_sort: Option<bool>,
    /// Maximum size of a submitted group.
    pub maximum_size: Option<usize>,
    /// Submit only whole groups when true.
    pub submit_whole: Option<bool>,
}

/// The model of a group definition.
#[verifier::ext_equal]
pub struct GroupModel {
    pub included: Option<Seq<SelectorModel>>,
    pub sort_by: Option<Seq<Seq<char>>>,
    pub split_by_sort_key: Option<bool>,
    pub reverse_sort: Option<bool>,
    pub maximum_size: Option<usize>,
    pub submit_whole: Option<bool>,
}

/// The models of a selector list.
pub open spec fn selectors_model(s: Seq<Selector>) -> Seq<SelectorModel> {
    s.map_values(|x: Selector| x@)
}

impl View for Group {
    type V = GroupModel;

    open spec fn view(&self) -> GroupModel {
        GroupModel {
            included: match self.included {
                Some(v) => Some(selectors_model(v@)),
                None => None,
            },
            sort_by: opt_strs_model(self.sort_by),
            split_by_sort_key: self.split_by_sort_key,
            reverse_sort: self.reverse_sort,
            maximum_size: self.maximum_size,
            submit_whole: self.submit_whole,
        }
    }
}

/// The action definition: a named command with its resources, grouping, and
/// submission options.
#[derive(Debug, Default, PartialEq)]
pub struct Action {
    /// Unique name defining the action.
    pub name: Option<String>,
    /// The command to execute for this action.
    pub command: Option<String>,
    /// Names of the launchers to use when executing the action.
    pub launchers: Option<Vec<String>>,
    /// Names of the previous actions that must complete first.
    pub previous_actions: Option<Vec<String>>,
    /// The product files this action creates.
    pub products: Option<Vec<String>>,
    /// Resources used by this action.
    pub resources: Resources,
    /// The cluster-specific submission options, keyed by cluster name.
    pub submit_options: Vec<(String, SubmitOptions)>,
    /// The group of jobs to submit.
    pub group: Group,
    /// Name of the action to copy defaults from.
    pub from: Option<String>,
}

/// The model of an action definition.
#[verifier::ext_equal]
pub struct ActionModel {
    pub name: Option<Seq<char>>,
    pub command: Option<Seq<char>>,
    pub launchers: Option<Seq<Seq<char>>>,
    pub previous_actions: Option<Seq<Seq<char>>>,
    pub products: Option<Seq<Seq<char>>>,
    pub resources: Resources,
    pub submit_options: Seq<(Seq<char>, SubmitOptionsModel)>,
    pub group: GroupModel,
    pub from: Option<Seq<char>>,
}

/// The models of a submit-options table.
pub open spec fn submit_options_model(s: Seq<(String, SubmitOptions)>) -> Seq<
    (Seq<char>, SubmitOptionsModel),
> {
    s.map_values(|p: (String, SubmitOptions)| (p.0@, p.1@))
}

impl View for Action {
    type V = ActionModel;

    open spec fn view(&self) -> ActionModel {
        ActionModel {
            name: opt_str_model(self.name),
            command: opt_str_model(self.command),
            launchers: opt_strs_model(self.launchers),
            previous_actions: opt_strs_model(self.previous_actions),
            products: opt_strs_model(self.products),
            resources: self.resources,
            submit_options: submit_options_model(self.submit_options@),
            group: self.group@,
            from: opt_str_model(self.from),
        }
    }
}

/// Default tables: default options for the other tables of the manifest.
#[derive(Debug, Default, PartialEq)]
pub struct DefaultTables {
    pub action: Action,
}

/// The workflow definition: the in-memory realization of the user-provided
/// project manifest.
#[derive(Debug, PartialEq)]
pub struct Workflow {
    /// The root directory of the project (absolute).
    pub root: String,
    /// The workspace parameters.
    pub workspace: Workspace,
    /// Default tables.
    pub default: DefaultTables,
    /// The actions.
    pub action: Vec<Action>,
}

/// The model of a workflow definition.
#[verifier::ext_equal]
pub struct WorkflowModel {
    pub root: Seq<char>,
    pub workspace: WorkspaceModel,
    pub default_action: ActionModel,
    pub actions: Seq<ActionModel>,
}

/// The models of an action list.
pub open spec fn actions_model(s: Seq<Action>) -> Seq<ActionModel> {
    s.map_values(|a: Action| a@)
}

impl View for Workflow {
    type V = WorkflowModel;

    open spec fn view(&self) -> WorkflowModel {
        WorkflowModel {
            root: self.root@,
            workspace: self.workspace@,
            default_action: self.default.action@,
            actions: actions_model(self.action@),
        }
    }
}

/// The name of an action model: the empty sequence when unset.
pub open spec fn spec_action_name(a: ActionModel) -> Seq<char> {
    match a.name {
        Some(n) => n,
        None => Seq::empty(),
    }
}

/// The command of an action model: the empty sequence when unset.
pub open spec fn spec_action_command(a: ActionModel) -> Seq<char> {
    match a.command {
        Some(c) => c,
        None => Seq::empty(),
    }
}

impl Action {
    /// Get the action's `name`, or `""` when unset.
    pub fn name(&self) -> (r: &str)
        ensures
            r@ == spec_action_name(self@),
    {
        match &self.name {
            Some(n) => n.as_str(),
            None => {
                proof {
                    reveal_strlit("");
                }
                ""
            },
        }
    }

    /// Get the action's `command`, or `""` when unset.
    pub fn command(&self) -> (r: &str)
        ensures
            r@ == match self@.command {
                Some(c) => c,
                None => Seq::<char>::empty(),
            },
    {
        match &self.command {
            Some(c) => c.as_str(),
            None => {
                proof {
                    reveal_strlit("");
                }
                ""
            },
        }
    }
}

/// The default value for `workspace.path`.
pub fn default_workspace_path() -> (r: String)
    ensures
        r@ == "workspace"@,
{
    let r = "workspace".to_owned();
    r
}

impl Default for Workspace {
    /// The `workspace` sub-directory, with no value file.
    fn default() -> (r: Self)
        ensures
            r@.path == "workspace"@,
            r@.value_file is None,
    {
        Workspace { path: default_workspace_path(), value_file: None }
    }
}

} // verus!

verus! {

/// Copy a string vector. The copy has the same model.
#[verifier::loop_isolation(false)]
pub fn clone_string_vec(v: &Vec<String>) -> (r: Vec<String>)
    ensures
        strs_model(r@) == strs_model(v@),
        r@.len() == v@.len(),
{
    let mut r: Vec<String> = Vec::new();
    let mut i: usize = 0;
    while i < v.len()
        invariant
            i <= v@.len(),
            r@.len() == i,
            forall|j: int| 0 <= j < i ==> (#[trigger] r@[j])@ == v@[j]@,
        decreases v@.len() - i,
    {
        r.push(v[i].clone());
        i = i + 1;
    }
    proof {
        assert(strs_model(r@) =~= strs_model(v@));
    }
    r
}

/// Copy an optional string list. The copy has the same model.
pub fn clone_opt_string_vec(v: &Option<Vec<String>>) -> (r: Option<Vec<String>>)
    ensures
        opt_strs_model(r) == opt_strs_model(*v),
        r is Some <==> v is Some,
{
    match v {
        Some(x) => Some(clone_string_vec(x)),
        None => None,
    }
}

/// Copy an optional string.
pub fn clone_opt_string(v: &Option<String>) -> (r: Option<String>)
    ensures
        r == *v,
{
    match v {
        Some(x) => Some(x.clone()),
        None => None,
    }
}

impl Clone for Condition {
    /// A copy with the same model.
    fn clone(&self) -> (r: Self)
        ensures
            r@ == self@,
    {
        Condition {
            pointer: self.pointer.clone(),
            comparison: self.comparison,
            value: self.value.clone(),
        }
    }
}

impl Clone for Selector {
    /// A copy with the same model.
    #[verifier::loop_isolation(false)]
    fn clone(&self) -> (r: Self)
        ensures
            r@ == self@,
    {
        match self {
            Selector::Condition(c) => Selector::Condition(c.clone()),
            Selector::All(cs) => {
                let mut r: Vec<Condition> = Vec::new();
                let mut i: usize = 0;
                while i < cs.len()
                    invariant
                        i <= cs@.len(),
                        r@.len() == i,
                        forall|j: int| 0 <= j < i ==> (#[trigger] r@[j])@ == cs@[j]@,
                    decreases cs@.len() - i,
                {
                    r.push(cs[i].clone());
                    i = i + 1;
                }
                proof {
                    assert(conditions_model(r@) =~= conditions_model(cs@));
                }
                Selector::All(r)
            },
        }
    }
}

/// Copy a selector list. The copy has the same model.
#[verifier::loop_isolation(false)]
pub fn clone_selector_vec(v: &Vec<Selector>) -> (r: Vec<Selector>)
    ensures
        selectors_model(r@) == selectors_model(v@),
        r@.len() == v@.len(),
{
    let mut r: Vec<Selector> = Vec::new();
    let mut i: usize = 0;
    while i < v.len()
        invariant
            i <= v@.len(),
            r@.len() == i,
            forall|j: int| 0 <= j < i ==> (#[trigger] r@[j])@ == v@[j]@,
        decreases v@.len() - i,
    {
        r.push(v[i].clone());
        i = i + 1;
    }
    proof {
        assert(selectors_model(r@) =~= selectors_model(v@));
    }
    r
}

impl Clone for Group {
    /// A copy with the same model.
    fn clone(&self) -> (r: Self)
        ensures
            r@ == self@,
    {
        Group {
            included: match &self.included {
                Some(v) => Some(clone_selector_vec(v)),
                None => None,
            },
            sort_by: clone_opt_string_vec(&self.sort_by),
            split_by_sort_key: self.split_by_sort_key,
            reverse_sort: self.reverse_sort,
            maximum_size: self.maximum_size,
            submit_whole: self.submit_whole,
        }
    }
}

impl Clone for SubmitOptions {
    /// A copy with the same model.
    fn clone(&self) -> (r: Self)
        ensures
            r@ == self@,
    {
        SubmitOptions {
            account: clone_opt_string(&self.account),
            setup: clone_opt_string(&self.setup),
            custom: clone_string_vec(&self.custom),
            partition: clone_opt_string(&self.partition),
        }
    }
}

impl Clone for Action {
    /// A copy with the same model.
    #[verifier::loop_isolation(false)]
    fn clone(&self) -> (r: Self)
        ensures
            r@ == self@,
    {
        let mut submit_options: Vec<(String, SubmitOptions)> = Vec::new();
        let mut i: usize = 0;
        while i < self.submit_options.len()
            invariant
                i <= self.submit_options@.len(),
                submit_options@.len() == i,
                forall|j: int|
                    0 <= j < i ==> (#[trigger] submit_options@[j]).0@
                        == self.submit_options@[j].0@ && submit_options@[j].1@
                        == self.submit_options@[j].1@,
            decreases self.submit_options@.len() - i,
        {
            submit_options.push(
                (self.submit_options[i].0.clone(), self.submit_options[i].1.clone()),
            );
            i = i + 1;
        }
        proof {
            assert(submit_options_model(submit_options@) =~= submit_options_model(
                self.submit_options@,
            ));
        }
        Action {
            name: clone_opt_string(&self.name),
            command: clone_opt_string(&self.command),
            launchers: clone_opt_string_vec(&self.launchers),
            previous_actions: clone_opt_string_vec(&self.previous_actions),
            products: clone_opt_string_vec(&self.products),
            resources: self.resources,
            submit_options,
            group: self.group.clone(),
            from: clone_opt_string(&self.from),
        }
    }
}

impl Clone for Workspace {
    /// A copy with the same model.
    fn clone(&self) -> (r: Self)
        ensures
            r@ == self@,
    {
        Workspace { path: self.path.clone(), value_file: clone_opt_string(&self.value_file) }
    }
}

impl Clone for DefaultTables {
    /// A copy whose action has the same model.
    fn clone(&self) -> (r: Self)
        ensures
            r.action@ == self.action@,
    {
        DefaultTables { action: self.action.clone() }
    }
}

/// Copy an action list. The copy has the same model.
#[verifier::loop_isolation(false)]
pub fn clone_action_vec(v: &Vec<Action>) -> (r: Vec<Action>)
    ensures
        actions_model(r@) == actions_model(v@),
        r@.len() == v@.len(),
{
    let mut r: Vec<Action> = Vec::new();
    let mut i: usize = 0;
    while i < v.len()
        invariant
            i <= v@.len(),
            r@.len() == i,
            forall|j: int| 0 <= j < i ==> (#[trigger] r@[j])@ == v@[j]@,
        decreases v@.len() - i,
    {
        r.push(v[i].clone());
        i = i + 1;
    }
    proof {
        assert(actions_model(r@) =~= actions_model(v@));
    }
    r
}

impl Clone for Workflow {
    /// A copy with the same model.
    fn clone(&self) -> (r: Self)
        ensures
            r@ == self@,
    {
        Workflow {
            root: self.root.clone(),
            workspace: self.workspace.clone(),
            default: self.default.clone(),
            action: clone_action_vec(&self.action),
        }
    }
}

impl Action {
    /// Get the action's `launchers`, or the empty list when unset.
    pub fn launchers(&self) -> (r: Vec<String>)
        ensures
            strs_model(r@) == match self@.launchers {
                Some(l) => l,
                None => Seq::empty(),
            },
    {
        match &self.launchers {
            Some(l) => clone_string_vec(l),
            None => {
                let r: Vec<String> = Vec::new();
                proof {
                    assert(strs_model(r@) =~= Seq::<Seq<char>>::empty());
                }
                r
            },
        }
    }

    /// Get the action's `previous_actions`, or the empty list when unset.
    pub fn previous_actions(&self) -> (r: Vec<String>)
        ensures
            strs_model(r@) == match self@.previous_actions {
                Some(l) => l,
                None => Seq::empty(),
            },
    {
        match &self.previous_actions {
            Some(l) => clone_string_vec(l),
            None => {
                let r: Vec<String> = Vec::new();
                proof {
                    assert(strs_model(r@) =~= Seq::<Seq<char>>::empty());
                }
                r
            },
        }
    }

    /// Get the action's `products`, or the empty list when unset.
    pub fn products(&self) -> (r: Vec<String>)
        ensures
            strs_model(r@) == match self@.products {
                Some(l) => l,
                None => Seq::empty(),
            },
    {
        match &self.products {
            Some(l) => clone_string_vec(l),
            None => {
                let r: Vec<String> = Vec::new();
                proof {
                    assert(strs_model(r@) =~= Seq::<Seq<char>>::empty());
                }
                r
            },
        }
    }
}

impl Group {
    /// Get the group's selectors, or the empty list when unset.
    pub fn included(&self) -> (r: Vec<Selector>)
        ensures
            selectors_model(r@) == match self@.included {
                Some(l) => l,
                None => Seq::empty(),
            },
    {
        match &self.included {
            Some(l) => clone_selector_vec(l),
            None => {
                let r: Vec<Selector> = Vec::new();
                proof {
                    assert(selectors_model(r@) =~= Seq::<SelectorModel>::empty());
                }
                r
            },
        }
    }

    /// Get the group's `sort_by`, or the empty list when unset.
    pub fn sort_by(&self) -> (r: Vec<String>)
        ensures
            strs_model(r@) == match self@.sort_by {
                Some(l) => l,
                None => Seq::empty(),
            },
    {
        match &self.sort_by {
            Some(l) => clone_string_vec(l),
            None => {
                let r: Vec<String> = Vec::new();
                proof {
                    assert(strs_model(r@) =~= Seq::<Seq<char>>::empty());
                }
                r
            },
        }
    }

    /// Get the group's `split_by_sort_key`; `false` when unset.
    pub fn split_by_sort_key(&self) -> (r: bool)
        ensures
            r == match self@.split_by_sort_key {
                Some(b) => b,
                None => false,
            },
    {
        match self.split_by_sort_key {
            Some(b) => b,
            None => false,
        }
    }

    /// Get the group's `reverse_sort`; `false` when unset.
    pub fn reverse_sort(&self) -> (r: bool)
        ensures
            r == match self@.reverse_sort {
                Some(b) => b,
                None => false,
            },
    {
        match self.reverse_sort {
            Some(b) => b,
            None => false,
        }
    }

    /// Get the group's `submit_whole`; `false` when unset.
    pub fn submit_whole(&self) -> (r: bool)
        ensures
            r == match self@.submit_whole {
                Some(b) => b,
                None => false,
            },
    {
        match self.submit_whole {
            Some(b) => b,
            None => false,
        }
    }
}

/// The effective process count of a resource specification.
pub open spec fn spec_processes(r: Resources) -> Processes {
    match r.processes {
        Some(p) => p,
        None => Processes::PerSubmission(1usize),
    }
}

/// The effective walltime of a resource specification.
pub open spec fn spec_walltime(r: Resources) -> Walltime {
    match r.walltime {
        Some(w) => w,
        None => Walltime::PerDirectory(3600u64),
    }
}

/// The total number of processes a submission over `n` directories uses.
pub open spec fn spec_total_processes(r: Resources, n: nat) -> nat {
    match spec_processes(r) {
        Processes::PerDirectory(p) => (p * n) as nat,
        Processes::PerSubmission(p) => p as nat,
    }
}

/// The total number of CPU cores: processes times threads (one thread when
/// unset).
pub open spec fn spec_total_cpus(r: Resources, n: nat) -> nat {
    spec_total_processes(r, n) * match r.threads_per_process {
        Some(t) => t as nat,
        None => 1,
    }
}

/// The total number of GPUs: processes times GPUs per process (zero when
/// unset).
pub open spec fn spec_total_gpus(r: Resources, n: nat) -> nat {
    spec_total_processes(r, n) * match r.gpus_per_process {
        Some(g) => g as nat,
        None => 0,
    }
}

/// The total walltime in seconds of a submission over `n` directories.
pub open spec fn spec_total_walltime(r: Resources, n: nat) -> nat {
    match spec_walltime(r) {
        Walltime::PerDirectory(w) => (w * n) as nat,
        Walltime::PerSubmission(w) => w as nat,
    }
}

/// Resource cost of an action execution, in process-seconds.
///
/// When GPUs are requested the cost is counted in GPU-seconds alone;
/// otherwise in CPU-seconds (scaled by the thread count when set).
#[derive(Clone, Copy, Debug, PartialEq, Eq, Structural)]
pub struct ResourceCost {
    /// CPU seconds.
    pub cpu_seconds: u64,
    /// GPU seconds.
    pub gpu_seconds: u64,
}

impl ResourceCost {
    /// Create a zero-valued cost.
    pub fn new() -> (r: Self)
        ensures
            r.cpu_seconds == 0 && r.gpu_seconds == 0,
    {
        Self { cpu_seconds: 0, gpu_seconds: 0 }
    }

    /// Create a cost with the given CPU and GPU seconds.
    pub fn with_values(cpu_seconds: u64, gpu_seconds: u64) -> (r: Self)
        ensures
            r.cpu_seconds == cpu_seconds && r.gpu_seconds == gpu_seconds,
    {
        Self { cpu_seconds, gpu_seconds }
    }

    /// Check whether the cost is exactly zero.
    pub fn is_zero(&self) -> (r: bool)
        ensures
            r == (self.cpu_seconds == 0 && self.gpu_seconds == 0),
    {
        self.cpu_seconds == 0 && self.gpu_seconds == 0
    }

    /// The sum of two costs.
    pub fn add(self, other: Self) -> (r: Self)
        requires
            self.cpu_seconds + other.cpu_seconds <= u64::MAX,
            self.gpu_seconds + other.gpu_seconds <= u64::MAX,
        ensures
            r.cpu_seconds == self.cpu_seconds + other.cpu_seconds,
            r.gpu_seconds == self.gpu_seconds + other.gpu_seconds,
    {
        Self {
            cpu_seconds: self.cpu_seconds + other.cpu_seconds,
            gpu_seconds: self.gpu_seconds + other.gpu_seconds,
        }
    }
}

/// The resource cost of a submission over `n` directories: total process
/// seconds attributed to GPUs when any are requested, else to CPUs.
pub open spec fn spec_cost(r: Resources, n: nat) -> ResourceCost {
    let process_seconds = spec_total_processes(r, n) * spec_total_walltime(r, n);
    match r.gpus_per_process {
        Some(g) => ResourceCost {
            cpu_seconds: 0,
            gpu_seconds: (process_seconds * g) as u64,
        },
        None => match r.threads_per_process {
            Some(t) => ResourceCost { cpu_seconds: (process_seconds * t) as u64, gpu_seconds: 0 },
            None => ResourceCost { cpu_seconds: process_seconds as u64, gpu_seconds: 0 },
        },
    }
}

impl Resources {
    /// The effective process count.
    pub fn processes(&self) -> (r: Processes)
        ensures
            r == spec_processes(*self),
    {
        match self.processes {
            Some(p) => p,
            None => Processes::PerSubmission(1),
        }
    }

    /// The effective walltime.
    pub fn walltime(&self) -> (r: Walltime)
        ensures
            r == spec_walltime(*self),
    {
        match self.walltime {
            Some(w) => w,
            None => Walltime::PerDirectory(3600),
        }
    }

    /// Determine the total number of processes this action will use.
    pub fn total_processes(&self, n_directories: usize) -> (r: usize)
        requires
            spec_total_processes(*self, n_directories as nat) <= usize::MAX,
        ensures
            r == spec_total_processes(*self, n_directories as nat),
    {
        match self.processes() {
            Processes::PerDirectory(p) => p * n_directories,
            Processes::PerSubmission(p) => p,
        }
    }

    /// Determine the total number of CPUs this action will use.
    pub fn total_cpus(&self, n_directories: usize) -> (r: usize)
        requires
            spec_total_cpus(*self, n_directories as nat) <= usize::MAX,
            spec_total_processes(*self, n_directories as nat) <= usize::MAX,
        ensures
            r == spec_total_cpus(*self, n_directories as nat),
    {
        let threads = match self.threads_per_process {
            Some(t) => t,
            None => 1,
        };
        self.total_processes(n_directories) * threads
    }

    /// Determine the total number of GPUs this action will use.
    pub fn total_gpus(&self, n_directories: usize) -> (r: usize)
        requires
            spec_total_gpus(*self, n_directories as nat) <= usize::MAX,
            spec_total_processes(*self, n_directories as nat) <= usize::MAX,
        ensures
            r == spec_total_gpus(*self, n_directories as nat),
    {
        let gpus = match self.gpus_per_process {
            Some(g) => g,
            None => 0,
        };
        self.total_processes(n_directories) * gpus
    }

    /// Determine the total walltime of this action, in seconds.
    pub fn total_walltime(&self, n_directories: usize) -> (r: u64)
        requires
            spec_total_walltime(*self, n_directories as nat) <= u64::MAX,
        ensures
            r == spec_total_walltime(*self, n_directories as nat),
    {
        match self.walltime() {
            Walltime::PerDirectory(w) => w * (n_directories as u64),
            Walltime::PerSubmission(w) => w,
        }
    }

    /// Compute the total resource cost of an action execution, assuming every
    /// job runs to its full requested walltime.
    pub fn cost(&self, n_directories: usize) -> (r: ResourceCost)
        requires
            spec_total_processes(*self, n_directories as nat) <= usize::MAX,
            spec_total_walltime(*self, n_directories as nat) <= u64::MAX,
            spec_total_processes(*self, n_directories as nat) * spec_total_walltime(
                *self,
                n_directories as nat,
            ) <= u64::MAX,
            spec_total_processes(*self, n_directories as nat) * spec_total_walltime(
                *self,
                n_directories as nat,
            ) * (match self.gpus_per_process {
                Some(g) => g as nat,
                None => 1,
            }) <= u64::MAX,
            spec_total_processes(*self, n_directories as nat) * spec_total_walltime(
                *self,
                n_directories as nat,
            ) * (match self.threads_per_process {
                Some(t) => t as nat,
                None => 1,
            }) <= u64::MAX,
        ensures
            r == spec_cost(*self, n_directories as nat),
    {
        let tp = self.total_processes(n_directories) as u64;
        let tw = self.total_walltime(n_directories);
        let process_seconds = tp * tw;
        match self.gpus_per_process {
            Some(g) => ResourceCost { cpu_seconds: 0, gpu_seconds: process_seconds * (g as u64) },
            None => match self.threads_per_process {
                Some(t) => ResourceCost {
                    cpu_seconds: process_seconds * (t as u64),
                    gpu_seconds: 0,
                },
                None => ResourceCost { cpu_seconds: process_seconds, gpu_seconds: 0 },
            },
        }
    }
}

} // verus!

verus! {

use crate::error::Error;
use crate::text;

/// `a` when set, else `b`.
pub open spec fn spec_or<T>(a: Option<T>, b: Option<T>) -> Option<T> {
    if a is Some {
        a
    } else {
        b
    }
}

/// Field-wise resolution of resources from a template.
pub open spec fn spec_resolve_resources(a: Resources, t: Resources) -> Resources {
    Resources {
        processes: spec_or(a.processes, t.processes),
        threads_per_process: spec_or(a.threads_per_process, t.threads_per_process),
        gpus_per_process: spec_or(a.gpus_per_process, t.gpus_per_process),
        walltime: spec_or(a.walltime, t.walltime),
    }
}

/// Field-wise resolution of a group from a template.
pub open spec fn spec_resolve_group(a: GroupModel, t: GroupModel) -> GroupModel {
    GroupModel {
        included: spec_or(a.included, t.included),
        sort_by: spec_or(a.sort_by, t.sort_by),
        split_by_sort_key: spec_or(a.split_by_sort_key, t.split_by_sort_key),
        reverse_sort: spec_or(a.reverse_sort, t.reverse_sort),
        maximum_size: spec_or(a.maximum_size, t.maximum_size),
        submit_whole: spec_or(a.submit_whole, t.submit_whole),
    }
}

impl Resources {
    /// Resolve omitted keys from the given template.
    pub fn resolve(&mut self, template: &Resources)
        ensures
            *final(self) == spec_resolve_resources(*old(self), *template),
    {
        if self.processes.is_none() {
            self.processes = template.processes;
        }
        if self.threads_per_process.is_none() {
            self.threads_per_process = template.threads_per_process;
        }
        if self.gpus_per_process.is_none() {
            self.gpus_per_process = template.gpus_per_process;
        }
        if self.walltime.is_none() {
            self.walltime = template.walltime;
        }
    }
}

impl Group {
    /// Resolve omitted keys from the given template.
    pub fn resolve(&mut self, template: &Group)
        ensures
            final(self)@ == spec_resolve_group(old(self)@, template@),
    {
        if self.included.is_none() {
            self.included = match &template.included {
                Some(v) => Some(clone_selector_vec(v)),
                None => None,
            };
        }
        if self.sort_by.is_none() {
            self.sort_by = clone_opt_string_vec(&template.sort_by);
        }
        if self.split_by_sort_key.is_none() {
            self.split_by_sort_key = template.split_by_sort_key;
        }
        if self.reverse_sort.is_none() {
            self.reverse_sort = template.reverse_sort;
        }
        if self.maximum_size.is_none() {
            self.maximum_size = template.maximum_size;
        }
        if self.submit_whole.is_none() {
            self.submit_whole = template.submit_whole;
        }
        proof {
            assert(self@ =~= spec_resolve_group(old(self)@, template@));
        }
    }
}

/// First index bound to `k` in a submit-options table, when any.
pub open spec fn spec_find_key(
    s: Seq<(Seq<char>, SubmitOptionsModel)>,
    k: Seq<char>,
) -> Option<int>
    decreases s.len(),
{
    if s.len() == 0 {
        None
    } else if s[0].0 == k {
        Some(0int)
    } else {
        match spec_find_key(s.drop_first(), k) {
            Some(i) => Some(i + 1),
            None => None,
        }
    }
}

/// `spec_find_key` finds the first index bound to `k`.
pub proof fn lemma_find_key(s: Seq<(Seq<char>, SubmitOptionsModel)>, k: Seq<char>)
    ensures
        match spec_find_key(s, k) {
            None => forall|i: int| 0 <= i < s.len() ==> (#[trigger] s[i]).0 != k,
            Some(j) => 0 <= j < s.len() && s[j].0 == k && forall|i: int|
                0 <= i < j ==> (#[trigger] s[i]).0 != k,
        },
    decreases s.len(),
{
    if s.len() != 0 && s[0].0 != k {
        lemma_find_key(s.drop_first(), k);
        assert(forall|i: int| 1 <= i < s.len() ==> #[trigger] s[i] == s.drop_first()[i - 1]);
    }
}

/// A template's entry merged under an action's entry: unset fields fall back
/// to the template; an empty custom list falls back too.
pub open spec fn spec_merged_entry(
    a: SubmitOptionsModel,
    t: SubmitOptionsModel,
) -> SubmitOptionsModel {
    SubmitOptionsModel {
        account: spec_or(a.account, t.account),
        setup: spec_or(a.setup, t.setup),
        custom: if a.custom.len() == 0 {
            t.custom
        } else {
            a.custom
        },
        partition: spec_or(a.partition, t.partition),
    }
}

/// One template entry applied to a submit-options table: merged under the
/// entry that shares its key, or appended when the key is new.
pub open spec fn spec_apply_submit_entry(
    a: Seq<(Seq<char>, SubmitOptionsModel)>,
    e: (Seq<char>, SubmitOptionsModel),
) -> Seq<(Seq<char>, SubmitOptionsModel)> {
    match spec_find_key(a, e.0) {
        Some(j) => a.update(j, (a[j].0, spec_merged_entry(a[j].1, e.1))),
        None => a.push(e),
    }
}

/// A whole template table applied entry by entry, in order.
pub open spec fn spec_merge_submit_options(
    a: Seq<(Seq<char>, SubmitOptionsModel)>,
    t: Seq<(Seq<char>, SubmitOptionsModel)>,
) -> Seq<(Seq<char>, SubmitOptionsModel)>
    decreases t.len(),
{
    if t.len() == 0 {
        a
    } else {
        spec_merge_submit_options(spec_apply_submit_entry(a, t[0]), t.drop_first())
    }
}

/// Find the first entry with the given key.
#[verifier::loop_isolation(false)]
fn find_submit_key(v: &Vec<(String, SubmitOptions)>, k: &String) -> (r: Option<usize>)
    ensures
        match r {
            Some(j) => j < v@.len() && spec_find_key(submit_options_model(v@), k@) == Some(
                j as int,
            ),
            None => spec_find_key(submit_options_model(v@), k@) is None,
        },
{
    let ghost m = submit_options_model(v@);
    proof {
        lemma_find_key(m, k@);
    }
    let mut i: usize = 0;
    while i < v.len()
        invariant
            i <= v@.len(),
            forall|j: int| 0 <= j < i ==> (#[trigger] m[j]).0 != k@,
        decreases v@.len() - i,
    {
        if v[i].0.eq(k) {
            proof {
                assert(m[i as int].0 == k@);
                if spec_find_key(m, k@) is None {
                    assert(false);
                }
                let j = spec_find_key(m, k@)->0;
                if j < i {
                    assert(m[j].0 != k@);
                }
                if j > i {
                    assert(m[i as int].0 != k@);
                }
            }
            return Some(i);
        }
        i = i + 1;
    }
    proof {
        if spec_find_key(m, k@) is Some {
            let j = spec_find_key(m, k@)->0;
            assert(m[j].0 != k@);
        }
    }
    None
}

/// Apply one template entry to a submit-options table.
fn apply_submit_entry(dst: &mut Vec<(String, SubmitOptions)>, name: &String, opts: &SubmitOptions)
    ensures
        submit_options_model(final(dst)@) == spec_apply_submit_entry(
            submit_options_model(old(dst)@),
            (name@, opts@),
        ),
{
    let ghost m0 = submit_options_model(old(dst)@);
    let found = find_submit_key(dst, name);
    match found {
        Some(j) => {
            let merged = SubmitOptions {
                account: if dst[j].1.account.is_some() {
                    clone_opt_string(&dst[j].1.account)
                } else {
                    clone_opt_string(&opts.account)
                },
                setup: if dst[j].1.setup.is_some() {
                    clone_opt_string(&dst[j].1.setup)
                } else {
                    clone_opt_string(&opts.setup)
                },
                custom: if dst[j].1.custom.len() > 0 {
                    clone_string_vec(&dst[j].1.custom)
                } else {
                    clone_string_vec(&opts.custom)
                },
                partition: if dst[j].1.partition.is_some() {
                    clone_opt_string(&dst[j].1.partition)
                } else {
                    clone_opt_string(&opts.partition)
                },
            };
            let key = dst[j].0.clone();
            proof {
                assert(merged@ =~= spec_merged_entry(m0[j as int].1, opts@));
            }
            dst.set(j, (key, merged));
            proof {
                assert(submit_options_model(dst@) =~= m0.update(
                    j as int,
                    (m0[j as int].0, spec_merged_entry(m0[j as int].1, opts@)),
                ));
            }
        },
        None => {
            dst.push((name.clone(), opts.clone()));
            proof {
                assert(submit_options_model(dst@) =~= m0.push((name@, opts@)));
            }
        },
    }
}

/// Merge a whole template table into an action's table.
#[verifier::loop_isolation(false)]
fn merge_submit_options(
    dst: &mut Vec<(String, SubmitOptions)>,
    template: &Vec<(String, SubmitOptions)>,
)
    ensures
        submit_options_model(final(dst)@) == spec_merge_submit_options(
            submit_options_model(old(dst)@),
            submit_options_model(template@),
        ),
{
    let ghost m0 = submit_options_model(old(dst)@);
    let ghost tm = submit_options_model(template@);
    let mut i: usize = 0;
    proof {
        assert(tm.skip(0) =~= tm);
    }
    while i < template.len()
        invariant
            i <= template@.len(),
            spec_merge_submit_options(submit_options_model(dst@), tm.skip(i as int))
                == spec_merge_submit_options(m0, tm),
        decreases template@.len() - i,
    {
        let ghost before = submit_options_model(dst@);
        apply_submit_entry(dst, &template[i].0, &template[i].1);
        proof {
            assert(tm.skip(i as int)[0] == tm[i as int]);
            assert(tm[i as int] == (template@[i as int].0@, template@[i as int].1@));
            assert(tm.skip(i as int).drop_first() =~= tm.skip(i as int + 1));
            assert(submit_options_model(dst@) == spec_apply_submit_entry(before, tm[i as int]));
        }
        i = i + 1;
    }
    proof {
        assert(tm.skip(template@.len() as int).len() == 0);
    }
}

/// An action resolved from a template: unset fields are filled from the
/// template, the resources and group are resolved field-wise, and the
/// template's submit options are merged in.
pub open spec fn spec_resolve_action(a: ActionModel, t: ActionModel) -> ActionModel {
    ActionModel {
        name: spec_or(a.name, t.name),
        command: spec_or(a.command, t.command),
        launchers: spec_or(a.launchers, t.launchers),
        previous_actions: spec_or(a.previous_actions, t.previous_actions),
        products: spec_or(a.products, t.products),
        resources: spec_resolve_resources(a.resources, t.resources),
        submit_options: spec_merge_submit_options(a.submit_options, t.submit_options),
        group: spec_resolve_group(a.group, t.group),
        from: a.from,
    }
}

impl Action {
    /// Resolve the action's omitted keys from the given template.
    pub fn resolve(&mut self, template: &Action)
        ensures
            final(self)@ == spec_resolve_action(old(self)@, template@),
    {
        if self.name.is_none() {
            self.name = clone_opt_string(&template.name);
        }
        if self.command.is_none() {
            self.command = clone_opt_string(&template.command);
        }
        if self.launchers.is_none() {
            self.launchers = clone_opt_string_vec(&template.launchers);
        }
        if self.previous_actions.is_none() {
            self.previous_actions = clone_opt_string_vec(&template.previous_actions);
        }
        if self.products.is_none() {
            self.products = clone_opt_string_vec(&template.products);
        }
        self.resources.resolve(&template.resources);
        self.group.resolve(&template.group);
        merge_submit_options(&mut self.submit_options, &template.submit_options);
        proof {
            assert(self@ =~= spec_resolve_action(old(self)@, template@));
        }
    }
}

/// First index of an action whose resolved name is `n`, when any.
pub open spec fn spec_find_by_name(actions: Seq<ActionModel>, n: Seq<char>) -> Option<int>
    decreases actions.len(),
{
    if actions.len() == 0 {
        None
    } else if spec_action_name(actions[0]) == n {
        Some(0int)
    } else {
        match spec_find_by_name(actions.drop_first(), n) {
            Some(i) => Some(i + 1),
            None => None,
        }
    }
}

/// `spec_find_by_name` finds the first action with the given name.
pub proof fn lemma_find_by_name(s: Seq<ActionModel>, n: Seq<char>)
    ensures
        match spec_find_by_name(s, n) {
            None => forall|i: int| 0 <= i < s.len() ==> spec_action_name(#[trigger] s[i]) != n,
            Some(j) => 0 <= j < s.len() && spec_action_name(s[j]) == n && forall|i: int|
                0 <= i < j ==> spec_action_name(#[trigger] s[i]) != n,
        },
    decreases s.len(),
{
    if s.len() != 0 && spec_action_name(s[0]) != n {
        lemma_find_by_name(s.drop_first(), n);
        assert(forall|i: int| 1 <= i < s.len() ==> #[trigger] s[i] == s.drop_first()[i - 1]);
    }
}

impl Workflow {
    /// Find the action that matches the given name: the first one, when
    /// several share it.
    #[verifier::loop_isolation(false)]
    pub fn action_by_name<'a>(&'a self, name: &str) -> (r: Option<&'a Action>)
        ensures
            match r {
                Some(a) => spec_find_by_name(self@.actions, name@) is Some && a@
                    == self@.actions[spec_find_by_name(self@.actions, name@)->0],
                None => spec_find_by_name(self@.actions, name@) is None,
            },
    {
        let ghost m = self@.actions;
        proof {
            lemma_find_by_name(m, name@);
        }
        let mut i: usize = 0;
        while i < self.action.len()
            invariant
                i <= self.action@.len(),
                m == actions_model(self.action@),
                m.len() == self.action@.len(),
                forall|j: int| 0 <= j < i ==> spec_action_name(#[trigger] m[j]) != name@,
            decreases self.action@.len() - i,
        {
            if text::str_eq(self.action[i].name(), name) {
                proof {
                    assert(actions_model(self.action@)[i as int] == self.action@[i as int]@);
                    assert(m[i as int] == self.action@[i as int]@);
                    assert(spec_action_name(m[i as int]) == name@);
                    if spec_find_by_name(m, name@) is None {
                        assert(false);
                    }
                    let j = spec_find_by_name(m, name@)->0;
                    if j < i {
                        assert(spec_action_name(m[j]) != name@);
                    }
                    if j > i {
                        assert(spec_action_name(m[i as int]) != name@);
                    }
                }
                return Some(&self.action[i]);
            }
            proof {
                assert(actions_model(self.action@)[i as int] == self.action@[i as int]@);
                assert(m[i as int] == self.action@[i as int]@);
            }
            i = i + 1;
        }
        proof {
            if spec_find_by_name(m, name@) is Some {
                let j = spec_find_by_name(m, name@)->0;
                assert(spec_action_name(m[j]) != name@);
            }
        }
        None
    }
}

} // verus!

verus! {

/// Whether an action's `from` reference is in order: absent, or naming an
/// existing action that does not itself set `from`.
pub open spec fn spec_from_ok(w: WorkflowModel, i: int) -> bool {
    match w.actions[i].from {
        None => true,
        Some(f) => match spec_find_by_name(w.actions, f) {
            Some(j) => w.actions[j].from is None,
            None => false,
        },
    }
}

/// The action at index `i`, resolved: first from the action named by `from`
/// (when set and found), then from the default action.
pub open spec fn spec_resolved_action(w: WorkflowModel, i: int) -> ActionModel {
    let a = w.actions[i];
    let a1 = match a.from {
        Some(f) => match spec_find_by_name(w.actions, f) {
            Some(j) => spec_resolve_action(a, w.actions[j]),
            None => a,
        },
        None => a,
    };
    spec_resolve_action(a1, w.default_action)
}

/// All actions of the workflow, resolved.
pub open spec fn spec_resolved_actions(w: WorkflowModel) -> Seq<ActionModel> {
    Seq::new(w.actions.len(), |i: int| spec_resolved_action(w, i))
}

/// A valid workflow: the default action sets no `from`; every `from` names
/// an existing action without a chained `from`; every resolved action has a
/// name and a command; every previous-action reference names an existing
/// action; actions that share a name agree on `previous_actions` and
/// `products`.
pub open spec fn spec_valid_workflow(w: WorkflowModel) -> bool {
    let ra = spec_resolved_actions(w);
    &&& w.default_action.from is None
    &&& forall|i: int| 0 <= i < w.actions.len() ==> spec_from_ok(w, i)
    &&& forall|i: int| 0 <= i < ra.len() ==> spec_action_name(#[trigger] ra[i]).len() > 0
    &&& forall|i: int| 0 <= i < ra.len() ==> spec_action_command(#[trigger] ra[i]).len() > 0
    &&& forall|i: int|
        0 <= i < ra.len() ==> match (#[trigger] ra[i]).previous_actions {
            Some(ps) => forall|k: int|
                0 <= k < ps.len() ==> spec_find_by_name(ra, #[trigger] ps[k]) is Some,
            None => true,
        }
    &&& forall|i: int|
        0 <= i < ra.len() ==> {
            let j = spec_find_by_name(ra, spec_action_name(#[trigger] ra[i]));
            &&& j is Some
            &&& ra[j->0].previous_actions == ra[i].previous_actions
            &&& ra[j->0].products == ra[i].products
        }
}

/// Compare two optional string lists by their models.
fn opt_string_vec_eq(a: &Option<Vec<String>>, b: &Option<Vec<String>>) -> (r: bool)
    ensures
        r == (opt_strs_model(*a) == opt_strs_model(*b)),
{
    match (a, b) {
        (None, None) => true,
        (Some(x), Some(y)) => {
            if x.len() != y.len() {
                proof {
                    assert(strs_model(x@).len() == x@.len());
                    assert(strs_model(y@).len() == y@.len());
                }
                return false;
            }
            let mut i: usize = 0;
            #[verifier::loop_isolation(false)]
            while i < x.len()
                invariant
                    i <= x@.len(),
                    x@.len() == y@.len(),
                    forall|j: int| 0 <= j < i ==> (#[trigger] x@[j])@ == y@[j]@,
                decreases x@.len() - i,
            {
                if !text::str_eq(x[i].as_str(), y[i].as_str()) {
                    proof {
                        assert(strs_model(x@)[i as int] != strs_model(y@)[i as int]);
                    }
                    return false;
                }
                i = i + 1;
            }
            proof {
                assert(strs_model(x@) =~= strs_model(y@));
            }
            true
        },
        _ => false,
    }
}

/// The cause each validation error reports: every error the validation can
/// return points at a real violation in the workflow.
pub open spec fn spec_validate_error_cause(w: WorkflowModel, e: Error) -> bool {
    let ra = spec_resolved_actions(w);
    match e {
        Error::DefaultActionSetsFrom => w.default_action.from is Some,
        Error::FromActionNotFound(f) => exists|i: int|
            0 <= i < w.actions.len() && (#[trigger] w.actions[i]).from == Some(f@)
                && spec_find_by_name(w.actions, f@) is None,
        Error::RecursiveFrom(n) => exists|i: int|
            0 <= i < w.actions.len() && match (#[trigger] w.actions[i]).from {
                Some(g) => match spec_find_by_name(w.actions, g) {
                    Some(j) => w.actions[j].from == Some(n@),
                    None => false,
                },
                None => false,
            },
        Error::PreviousActionNotFound(p, nm) => exists|i: int|
            0 <= i < ra.len() && match (#[trigger] ra[i]).previous_actions {
                Some(ps) => ps.contains(p@) && spec_find_by_name(ra, p@) is None && nm@
                    == spec_action_name(ra[i]),
                None => false,
            },
        Error::ActionMissingName(idx) => idx < w.actions.len() && spec_action_name(
            spec_resolved_action(w, idx as int),
        ).len() == 0,
        Error::ActionMissingCommand(nm) => exists|i: int|
            0 <= i < ra.len() && spec_action_command(#[trigger] ra[i]).len() == 0 && nm@
                == spec_action_name(ra[i]),
        Error::DuplicateActionsDifferentPreviousActions(nm) => exists|i: int, j: int|
            0 <= i < ra.len() && 0 <= j < ra.len() && spec_action_name(#[trigger] ra[i]) == nm@
                && spec_action_name(#[trigger] ra[j]) == nm@ && ra[i].previous_actions
                != ra[j].previous_actions,
        Error::DuplicateActionsDifferentProducts(nm) => exists|i: int, j: int|
            0 <= i < ra.len() && 0 <= j < ra.len() && spec_action_name(#[trigger] ra[i]) == nm@
                && spec_action_name(#[trigger] ra[j]) == nm@ && ra[i].products != ra[j].products,
        _ => false,
    }
}

impl Workflow {
    /// Validate the workflow and populate defaults.
    ///
    /// Resolves each action from the action named by its `from` key and from
    /// the default action, in that order, and then checks the workflow rules.
    /// Succeeds exactly on valid workflows - in particular every resolved
    /// action must have a non-empty name and command; the result then
    /// carries the resolved actions, with everything else unchanged.
    #[verifier::loop_isolation(false)]
    #[verifier::rlimit(100)]
    pub fn validate_and_set_defaults(self) -> (r: Result<Workflow, Error>)
        ensures
            r is Ok <==> spec_valid_workflow(self@),
            r matches Err(e) ==> spec_validate_error_cause(self@, e),
            r matches Ok(w) ==> {
                &&& w@.root == self@.root
                &&& w@.workspace == self@.workspace
                &&& w@.default_action == self@.default_action
                &&& w@.actions =~= spec_resolved_actions(self@)
            },
    {
        let ghost wm = self@;
        let ghost ra = spec_resolved_actions(wm);
        let Workflow { root, workspace, default, action } = self;
        if default.action.from.is_some() {
            proof {
                assert(wm.default_action.from is Some);
            }
            return Err(Error::DefaultActionSetsFrom);
        }
        let n = action.len();
        let mut resolved: Vec<Action> = Vec::new();
        let mut i: usize = 0;
        while i < n
            invariant
                i <= n,
                n == wm.actions.len(),
                actions_model(action@) == wm.actions,
                action@.len() == n,
                default.action@ == wm.default_action,
                resolved@.len() == i,
                forall|j: int| 0 <= j < i ==> (#[trigger] resolved@[j])@ == ra[j],
                forall|j: int| 0 <= j < i ==> spec_from_ok(wm, j),
                forall|j: int| 0 <= j < i ==> spec_action_name(#[trigger] ra[j]).len() > 0,
                forall|j: int| 0 <= j < i ==> spec_action_command(#[trigger] ra[j]).len() > 0,
            decreases n - i,
        {
            proof {
                assert(actions_model(action@)[i as int] == action@[i as int]@);
            }
            let mut a = action[i].clone();
            let has_from = a.from.is_some();
            if has_from {
                let from = match clone_opt_string(&a.from) {
                    Some(f) => f,
                    None => {
                        proof {
                            assert(false);
                        }
                        String::new()
                    },
                };
                proof {
                    lemma_find_by_name(wm.actions, from@);
                }
                // Find the referenced action in the unresolved list.
                let mut j: usize = 0;
                let mut found: Option<usize> = None;
                while j < n
                    invariant
                        j <= n,
                        n == action@.len(),
                        actions_model(action@) == wm.actions,
                        n == wm.actions.len(),
                        match found {
                            Some(x) => x < n && spec_find_by_name(wm.actions, from@) == Some(
                                x as int,
                            ),
                            None => forall|k: int|
                                0 <= k < j ==> spec_action_name(#[trigger] wm.actions[k]) != from@,
                        },
                    decreases n - j,
                {
                    if found.is_none() {
                        proof {
                            assert(actions_model(action@)[j as int] == action@[j as int]@);
                        }
                        if text::str_eq(action[j].name(), from.as_str()) {
                            proof {
                                if spec_find_by_name(wm.actions, from@) is None {
                                    assert(false);
                                }
                                let x = spec_find_by_name(wm.actions, from@)->0;
                                if x < j {
                                    assert(spec_action_name(wm.actions[x]) != from@);
                                }
                                if x > j {
                                    assert(spec_action_name(wm.actions[j as int]) != from@);
                                }
                            }
                            found = Some(j);
                        }
                    }
                    j = j + 1;
                }
                match found {
                    None => {
                        proof {
                            if spec_find_by_name(wm.actions, from@) is Some {
                                let x = spec_find_by_name(wm.actions, from@)->0;
                                assert(spec_action_name(wm.actions[x]) != from@);
                            }
                            assert(!spec_from_ok(wm, i as int));
                            assert(wm.actions[i as int].from == Some(from@));
                        }
                        return Err(Error::FromActionNotFound(from));
                    },
                    Some(x) => {
                        proof {
                            assert(actions_model(action@)[x as int] == action@[x as int]@);
                        }
                        if action[x].from.is_some() {
                            let recursive_from = match clone_opt_string(&action[x].from) {
                                Some(f) => f,
                                None => String::new(),
                            };
                            proof {
                                assert(!spec_from_ok(wm, i as int));
                                assert(wm.actions[i as int].from == Some(from@));
                                assert(wm.actions[x as int].from == Some(recursive_from@));
                            }
                            return Err(Error::RecursiveFrom(recursive_from));
                        }
                        a.resolve(&action[x]);
                    },
                }
            }
            a.resolve(&default.action);
            proof {
                assert(a@ == spec_resolved_action(wm, i as int));
                assert(ra[i as int] == spec_resolved_action(wm, i as int));
            }
            if a.name.is_none() || a.name().unicode_len() == 0 {
                proof {
                    assert(spec_action_name(ra[i as int]).len() == 0);
                    assert(!spec_valid_workflow(wm));
                }
                return Err(Error::ActionMissingName(i));
            }
            if a.command.is_none() || a.command().unicode_len() == 0 {
                proof {
                    assert(spec_action_command(ra[i as int]).len() == 0);
                    assert(!spec_valid_workflow(wm));
                }
                let nm = a.name().to_owned();
                proof {
                    assert(nm@ == spec_action_name(ra[i as int]));
                }
                return Err(Error::ActionMissingCommand(nm));
            }
            resolved.push(a);
            i = i + 1;
        }
        proof {
            assert(actions_model(resolved@) =~= ra);
        }
        // Check previous-action references and duplicate agreement.
        let mut i2: usize = 0;
        while i2 < n
            invariant
                i2 <= n,
                n == wm.actions.len(),
                resolved@.len() == n,
                actions_model(resolved@) == ra,
                ra.len() == n,
                forall|j: int|
                    0 <= j < i2 ==> match (#[trigger] ra[j]).previous_actions {
                        Some(ps) => forall|k: int|
                            0 <= k < ps.len() ==> spec_find_by_name(ra, #[trigger] ps[k]) is Some,
                        None => true,
                    },
                forall|j: int|
                    0 <= j < i2 ==> {
                        let f = spec_find_by_name(ra, spec_action_name(#[trigger] ra[j]));
                        &&& f is Some
                        &&& ra[f->0].previous_actions == ra[j].previous_actions
                        &&& ra[f->0].products == ra[j].products
                    },
            decreases n - i2,
        {
            proof {
                assert(actions_model(resolved@)[i2 as int] == resolved@[i2 as int]@);
            }
            let previous = resolved[i2].previous_actions();
            let ghost pm = match ra[i2 as int].previous_actions {
                Some(ps) => ps,
                None => Seq::empty(),
            };
            proof {
                assert(strs_model(previous@) == pm);
                assert(strs_model(previous@).len() == previous@.len());
            }
            let mut k: usize = 0;
            while k < previous.len()
                invariant
                    k <= previous@.len(),
                    previous@.len() == pm.len(),
                    strs_model(previous@) == pm,
                    i2 < n,
                    n == wm.actions.len(),
                    resolved@.len() == n,
                    actions_model(resolved@) == ra,
                    ra.len() == n,
                    forall|x: int|
                        0 <= x < k ==> spec_find_by_name(ra, #[trigger] pm[x]) is Some,
                decreases previous@.len() - k,
            {
                proof {
                    lemma_find_by_name(ra, pm[k as int]);
                    assert(strs_model(previous@)[k as int] == previous@[k as int]@);
                }
                let mut j: usize = 0;
                let mut ok: bool = false;
                while j < n
                    invariant
                        j <= n,
                        k < previous@.len(),
                        strs_model(previous@) == pm,
                        previous@.len() == pm.len(),
                        n == wm.actions.len(),
                        resolved@.len() == n,
                        actions_model(resolved@) == ra,
                        ra.len() == n,
                        ok ==> spec_find_by_name(ra, pm[k as int]) is Some,
                        !ok ==> forall|x: int|
                            0 <= x < j ==> spec_action_name(#[trigger] ra[x]) != pm[k as int],
                    decreases n - j,
                {
                    if !ok {
                        proof {
                            assert(actions_model(resolved@)[j as int] == resolved@[j as int]@);
                        }
                        if text::str_eq(resolved[j].name(), previous[k].as_str()) {
                            proof {
                                lemma_find_by_name(ra, pm[k as int]);
                                if spec_find_by_name(ra, pm[k as int]) is None {
                                    assert(spec_action_name(ra[j as int]) != pm[k as int]);
                                }
                            }
                            ok = true;
                        }
                    }
                    j = j + 1;
                }
                if !ok {
                    proof {
                        lemma_find_by_name(ra, pm[k as int]);
                        if spec_find_by_name(ra, pm[k as int]) is Some {
                            let x = spec_find_by_name(ra, pm[k as int])->0;
                            assert(spec_action_name(ra[x]) != pm[k as int]);
                        }
                        assert(ra[i2 as int].previous_actions matches Some(ps) && ps == pm);
                        assert(!spec_valid_workflow(wm));
                    }
                    let p = previous[k].clone();
                    let nm = resolved[i2].name().to_owned();
                    proof {
                        assert(p@ == pm[k as int]);
                        assert(pm.contains(p@));
                        assert(nm@ == spec_action_name(ra[i2 as int]));
                    }
                    return Err(Error::PreviousActionNotFound(p, nm));
                }
                k = k + 1;
            }
            // Find the first action sharing this action's name; it must agree.
            proof {
                lemma_find_by_name(ra, spec_action_name(ra[i2 as int]));
            }
            let mut j: usize = 0;
            let mut first: usize = i2;
            let mut have_first: bool = false;
            while j < n
                invariant
                    j <= n,
                    i2 < n,
                    n == wm.actions.len(),
                    resolved@.len() == n,
                    actions_model(resolved@) == ra,
                    ra.len() == n,
                    have_first ==> first < n && spec_find_by_name(
                        ra,
                        spec_action_name(ra[i2 as int]),
                    ) == Some(first as int),
                    !have_first ==> forall|x: int|
                        0 <= x < j ==> spec_action_name(#[trigger] ra[x]) != spec_action_name(
                            ra[i2 as int],
                        ),
                decreases n - j,
            {
                if !have_first {
                    proof {
                        assert(actions_model(resolved@)[j as int] == resolved@[j as int]@);
                    }
                    if text::str_eq(resolved[j].name(), resolved[i2].name()) {
                        proof {
                            if spec_find_by_name(ra, spec_action_name(ra[i2 as int])) is None {
                                assert(spec_action_name(ra[j as int]) != spec_action_name(
                                    ra[i2 as int],
                                ));
                            }
                            let x = spec_find_by_name(ra, spec_action_name(ra[i2 as int]))->0;
                            if x < j {
                                assert(spec_action_name(ra[x]) != spec_action_name(
                                    ra[i2 as int],
                                ));
                            }
                            if x > j {
                                assert(spec_action_name(ra[j as int]) != spec_action_name(
                                    ra[i2 as int],
                                ));
                            }
                        }
                        first = j;
                        have_first = true;
                    }
                }
                j = j + 1;
            }
            proof {
                if !have_first {
                    let x = spec_find_by_name(ra, spec_action_name(ra[i2 as int]))->0;
                    if spec_find_by_name(ra, spec_action_name(ra[i2 as int])) is Some {
                        assert(spec_action_name(ra[x]) != spec_action_name(ra[i2 as int]));
                    }
                    assert(spec_action_name(ra[i2 as int]) == spec_action_name(ra[i2 as int]));
                    assert(false);
                }
                assert(actions_model(resolved@)[first as int] == resolved@[first as int]@);
            }
            if !opt_string_vec_eq(&resolved[i2].previous_actions, &resolved[first].previous_actions)
             {
                proof {
                    assert(ra[first as int].previous_actions != ra[i2 as int].previous_actions);
                    assert(!spec_valid_workflow(wm));
                }
                let nm = resolved[i2].name().to_owned();
                proof {
                    assert(nm@ == spec_action_name(ra[i2 as int]));
                    assert(spec_action_name(ra[first as int]) == spec_action_name(
                        ra[i2 as int],
                    ));
                }
                return Err(Error::DuplicateActionsDifferentPreviousActions(nm));
            }
            if !opt_string_vec_eq(&resolved[i2].products, &resolved[first].products) {
                proof {
                    assert(ra[first as int].products != ra[i2 as int].products);
                    assert(!spec_valid_workflow(wm));
                }
                let nm = resolved[i2].name().to_owned();
                proof {
                    assert(nm@ == spec_action_name(ra[i2 as int]));
                    assert(spec_action_name(ra[first as int]) == spec_action_name(
                        ra[i2 as int],
                    ));
                }
                return Err(Error::DuplicateActionsDifferentProducts(nm));
            }
            i2 = i2 + 1;
        }
        proof {
            assert(spec_valid_workflow(wm));
        }
        Ok(Workflow { root, workspace, default, action: resolved })
    }
}

} // verus!
