//! Cluster configuration: named clusters with their identification methods,
//! scheduler kinds, global submit options, and partitions.

use vstd::prelude::*;
use crate::error::Error;
use crate::text;
use crate::workflow::{
    clone_string_vec, spec_total_cpus, spec_total_gpus, spec_total_processes, strs_model,
    Resources,
};

verus! {

/// Methods to identify clusters.
#[derive(Debug, PartialEq)]
pub enum IdentificationMethod {
    /// Identify a cluster when an environment variable equals a value.
    ByEnvironment(String, String),
    /// Identify a cluster always (true) or never (false).
    Always(bool),
}

/// The model of an identification method.
#[verifier::ext_equal]
pub enum IdentificationMethodModel {
    ByEnvironment(Seq<char>, Seq<char>),
    Always(bool),
}

impl View for IdentificationMethod {
    type V = IdentificationMethodModel;

    open spec fn view(&self) -> IdentificationMethodModel {
        match self {
            IdentificationMethod::ByEnvironment(k, v) => IdentificationMethodModel::ByEnvironment(
                k@,
                v@,
            ),
            IdentificationMethod::Always(b) => IdentificationMethodModel::Always(*b),
        }
    }
}

impl Clone for IdentificationMethod {
    /// A copy with the same model.
    fn clone(&self) -> (r: Self)
        ensures
            r@ == self@,
    {
        match self {
            IdentificationMethod::ByEnvironment(k, v) => IdentificationMethod::ByEnvironment(
                k.clone(),
                v.clone(),
            ),
            IdentificationMethod::Always(b) => IdentificationMethod::Always(*b),
        }
    }
}

/// Types of schedulers.
#[derive(Clone, Copy, Debug, PartialEq, Eq, Structural)]
pub enum SchedulerType {
    /// Submit jobs to run immediately in bash.
    Bash,
    /// Submit jobs to a Slurm queue.
    Slurm,
}

/// Partition parameters: a cluster queue with capability constraints.
#[derive(Debug, PartialEq)]
pub struct Partition {
    /// The partition's name.
    pub name: String,
    /// Maximum number of CPUs per job.
    pub maximum_cpus_per_job: Option<usize>,
    /// Require CPUs to be a multiple of this value.
    pub require_cpus_multiple_of: Option<usize>,
    /// Warn if CPUs are not a multiple of this value.
    pub warn_cpus_multiple_of: Option<usize>,
    /// Memory per CPU.
    pub memory_per_cpu: Option<String>,
    /// CPUs per node.
    pub cpus_per_node: Option<usize>,
    /// Minimum number of GPUs per job.
    pub minimum_gpus_per_job: Option<usize>,
    /// Maximum number of GPUs per job.
    pub maximum_gpus_per_job: Option<usize>,
    /// Require GPUs to be a multiple of this value.
    pub require_gpus_multiple_of: Option<usize>,
    /// Warn if GPUs are not a multiple of this value.
    pub warn_gpus_multiple_of: Option<usize>,
    /// Memory per GPU.
    pub memory_per_gpu: Option<String>,
    /// GPUs per node.
    pub gpus_per_node: Option<usize>,
    /// Prevent auto-selection.
    pub prevent_auto_select: bool,
    /// Suffix for the account name.
    pub account_suffix: Option<String>,
}

/// The model of a partition.
#[verifier::ext_equal]
pub struct PartitionModel {
    pub name: Seq<char>,
    pub maximum_cpus_per_job: Option<usize>,
    pub require_cpus_multiple_of: Option<usize>,
    pub warn_cpus_multiple_of: Option<usize>,
    pub memory_per_cpu: Option<Seq<char>>,
    pub cpus_per_node: Option<usize>,
    pub minimum_gpus_per_job: Option<usize>,
    pub maximum_gpus_per_job: Option<usize>,
    pub require_gpus_multiple_of: Option<usize>,
    pub warn_gpus_multiple_of: Option<usize>,
    pub memory_per_gpu: Option<Seq<char>>,
    pub gpus_per_node: Option<usize>,
    pub prevent_auto_select: bool,
    pub account_suffix: Option<Seq<char>>,
}

impl View for Partition {
    type V = PartitionModel;

    open spec fn view(&self) -> PartitionModel {
        PartitionModel {
            name: self.name@,
            maximum_cpus_per_job: self.maximum_cpus_per_job,
            require_cpus_multiple_of: self.require_cpus_multiple_of,
            warn_cpus_multiple_of: self.warn_cpus_multiple_of,
            memory_per_cpu: crate::workflow::opt_str_model(self.memory_per_cpu),
            cpus_per_node: self.cpus_per_node,
            minimum_gpus_per_job: self.minimum_gpus_per_job,
            maximum_gpus_per_job: self.maximum_gpus_per_job,
            require_gpus_multiple_of: self.require_gpus_multiple_of,
            warn_gpus_multiple_of: self.warn_gpus_multiple_of,
            memory_per_gpu: crate::workflow::opt_str_model(self.memory_per_gpu),
            gpus_per_node: self.gpus_per_node,
            prevent_auto_select: self.prevent_auto_select,
            account_suffix: crate::workflow::opt_str_model(self.account_suffix),
        }
    }
}

impl Clone for Partition {
    /// A copy with the same model.
    fn clone(&self) -> (r: Self)
        ensures
            r@ == self@,
    {
        Partition {
            name: self.name.clone(),
            maximum_cpus_per_job: self.maximum_cpus_per_job,
            require_cpus_multiple_of: self.require_cpus_multiple_of,
            warn_cpus_multiple_of: self.warn_cpus_multiple_of,
            memory_per_cpu: crate::workflow::clone_opt_string(&self.memory_per_cpu),
            cpus_per_node: self.cpus_per_node,
            minimum_gpus_per_job: self.minimum_gpus_per_job,
            maximum_gpus_per_job: self.maximum_gpus_per_job,
            require_gpus_multiple_of: self.require_gpus_multiple_of,
            warn_gpus_multiple_of: self.warn_gpus_multiple_of,
            memory_per_gpu: crate::workflow::clone_opt_string(&self.memory_per_gpu),
            gpus_per_node: self.gpus_per_node,
            prevent_auto_select: self.prevent_auto_select,
            account_suffix: crate::workflow::clone_opt_string(&self.account_suffix),
        }
    }
}

impl Default for Partition {
    /// A partition named `partition` with no constraints.
    fn default() -> (r: Self)
        ensures
            r@.name == "partition"@,
            r@.maximum_cpus_per_job is None,
            r@.require_cpus_multiple_of is None,
            r@.warn_cpus_multiple_of is None,
            r@.memory_per_cpu is None,
            r@.cpus_per_node is None,
            r@.minimum_gpus_per_job is None,
            r@.maximum_gpus_per_job is None,
            r@.require_gpus_multiple_of is None,
            r@.warn_gpus_multiple_of is None,
            r@.memory_per_gpu is None,
            r@.gpus_per_node is None,
            !r@.prevent_auto_select,
            r@.account_suffix is None,
    {
        let name = "partition".to_owned();
        Partition {
            name,
            maximum_cpus_per_job: None,
            require_cpus_multiple_of: None,
            warn_cpus_multiple_of: None,
            memory_per_cpu: None,
            cpus_per_node: None,
            minimum_gpus_per_job: None,
            maximum_gpus_per_job: None,
            require_gpus_multiple_of: None,
            warn_gpus_multiple_of: None,
            memory_per_gpu: None,
            gpus_per_node: None,
            prevent_auto_select: false,
            account_suffix: None,
        }
    }
}

/// Cluster: everything needed to define a single cluster.
#[derive(Debug, PartialEq)]
pub struct Cluster {
    /// The cluster's name.
    pub name: String,
    /// The method used to automatically identify this cluster.
    pub identify: IdentificationMethod,
    /// The scheduler used on the cluster.
    pub scheduler: SchedulerType,
    /// Options to pass to the scheduler on every submission.
    pub submit_options: Vec<String>,
    /// The partitions in the cluster's queue.
    pub partition: Vec<Partition>,
}

/// The model of a cluster.
#[verifier::ext_equal]
pub struct ClusterModel {
    pub name: Seq<char>,
    pub identify: IdentificationMethodModel,
    pub scheduler: SchedulerType,
    pub submit_options: Seq<Seq<char>>,
    pub partition: Seq<PartitionModel>,
}

/// The models of a partition list.
pub open spec fn partitions_model(s: Seq<Partition>) -> Seq<PartitionModel> {
    s.map_values(|p: Partition| p@)
}

impl View for Cluster {
    type V = ClusterModel;

    open spec fn view(&self) -> ClusterModel {
        ClusterModel {
            name: self.name@,
            identify: self.identify@,
            scheduler: self.scheduler,
            submit_options: strs_model(self.submit_options@),
            partition: partitions_model(self.partition@),
        }
    }
}

impl Clone for Cluster {
    /// A copy with the same model.
    #[verifier::loop_isolation(false)]
    fn clone(&self) -> (r: Self)
        ensures
            r@ == self@,
    {
        let mut partition: Vec<Partition> = Vec::new();
        let mut i: usize = 0;
        while i < self.partition.len()
            invariant
                i <= self.partition@.len(),
                partition@.len() == i,
                forall|j: int| 0 <= j < i ==> (#[trigger] partition@[j])@ == self.partition@[j]@,
            decreases self.partition@.len() - i,
        {
            partition.push(self.partition[i].clone());
            i = i + 1;
        }
        proof {
            assert(partitions_model(partition@) =~= partitions_model(self.partition@));
        }
        Cluster {
            name: self.name.clone(),
            identify: self.identify.clone(),
            scheduler: self.scheduler,
            submit_options: clone_string_vec(&self.submit_options),
            partition,
        }
    }
}

/// Cluster configuration: the configuration of every defined cluster.
#[derive(Debug, Default, PartialEq)]
pub struct Configuration {
    /// The cluster configurations, in identification order.
    pub cluster: Vec<Cluster>,
}

/// The models of a cluster list.
pub open spec fn clusters_model(s: Seq<Cluster>) -> Seq<ClusterModel> {
    s.map_values(|c: Cluster| c@)
}

impl Clone for Configuration {
    /// A copy with the same model.
    #[verifier::loop_isolation(false)]
    fn clone(&self) -> (r: Self)
        ensures
            clusters_model(r.cluster@) == clusters_model(self.cluster@),
    {
        let mut cluster: Vec<Cluster> = Vec::new();
        let mut i: usize = 0;
        while i < self.cluster.len()
            invariant
                i <= self.cluster@.len(),
                cluster@.len() == i,
                forall|j: int| 0 <= j < i ==> (#[trigger] cluster@[j])@ == self.cluster@[j]@,
            decreases self.cluster@.len() - i,
        {
            cluster.push(self.cluster[i].clone());
            i = i + 1;
        }
        proof {
            assert(clusters_model(cluster@) =~= clusters_model(self.cluster@));
        }
        Configuration { cluster }
    }
}

/// The value bound to `key` in an environment listing, when any: the first
/// binding wins.
pub open spec fn spec_env_lookup(env: Seq<(Seq<char>, Seq<char>)>, key: Seq<char>) -> Option<
    Seq<char>,
>
    decreases env.len(),
{
    if env.len() == 0 {
        None
    } else if env[0].0 == key {
        Some(env[0].1)
    } else {
        spec_env_lookup(env.drop_first(), key)
    }
}

/// The model of an environment listing.
pub open spec fn env_model(env: Seq<(String, String)>) -> Seq<(Seq<char>, Seq<char>)> {
    env.map_values(|p: (String, String)| (p.0@, p.1@))
}

/// Whether a cluster's identification method matches the given environment.
pub open spec fn spec_identity_matches(
    c: ClusterModel,
    env: Seq<(Seq<char>, Seq<char>)>,
) -> bool {
    match c.identify {
        IdentificationMethodModel::Always(condition) => condition,
        IdentificationMethodModel::ByEnvironment(variable, value) => spec_env_lookup(env, variable)
            == Some(value),
    }
}

/// Look a variable up in an environment listing.
#[verifier::loop_isolation(false)]
fn env_lookup<'a>(env: &'a Vec<(String, String)>, key: &String) -> (r: Option<&'a String>)
    ensures
        match r {
            Some(v) => spec_env_lookup(env_model(env@), key@) == Some(v@),
            None => spec_env_lookup(env_model(env@), key@) is None,
        },
{
    let ghost m = env_model(env@);
    let mut i: usize = 0;
    proof {
        assert(m.skip(0) =~= m);
    }
    while i < env.len()
        invariant
            i <= env@.len(),
            spec_env_lookup(m, key@) == spec_env_lookup(m.skip(i as int), key@),
        decreases env@.len() - i,
    {
        proof {
            assert(m.skip(i as int)[0] == m[i as int]);
            assert(m[i as int] == (env@[i as int].0@, env@[i as int].1@));
        }
        if env[i].0.eq(key) {
            return Some(&env[i].1);
        }
        proof {
            assert(m.skip(i as int).drop_first() =~= m.skip(i as int + 1));
        }
        i = i + 1;
    }
    proof {
        assert(m.skip(env@.len() as int).len() == 0);
    }
    None
}

impl Cluster {
    /// Check whether the cluster's identification method matches the given
    /// environment listing.
    pub fn identity_matches(&self, environment: &Vec<(String, String)>) -> (r: bool)
        ensures
            r == spec_identity_matches(self@, env_model(environment@)),
    {
        match &self.identify {
            IdentificationMethod::Always(condition) => *condition,
            IdentificationMethod::ByEnvironment(variable, value) => {
                match env_lookup(environment, variable) {
                    Some(v) => v.eq(value),
                    None => false,
                }
            },
        }
    }
}

/// Whether a partition accepts a job over `n` directories with the given
/// resources: no cap exceeded, every required multiple respected, and the
/// partition not reserved for manual selection. A violated warning threshold
/// accepts the partition at once.
pub open spec fn spec_partition_matches(p: PartitionModel, r: Resources, n: nat) -> bool {
    let cpus = spec_total_cpus(r, n);
    let gpus = spec_total_gpus(r, n);
    if p.prevent_auto_select {
        false
    } else if p.maximum_cpus_per_job matches Some(x) && cpus > x {
        false
    } else if p.require_cpus_multiple_of matches Some(x) && x != 0 && cpus % (x as nat) != 0 {
        false
    } else if p.warn_cpus_multiple_of matches Some(x) && x != 0 && cpus % (x as nat) != 0 {
        true
    } else if p.minimum_gpus_per_job matches Some(x) && gpus < x {
        false
    } else if p.maximum_gpus_per_job matches Some(x) && gpus > x {
        false
    } else if p.require_gpus_multiple_of matches Some(x) && x != 0 && (gpus == 0 || gpus % (
    x as nat) != 0) {
        false
    } else {
        true
    }
}

/// The line `matches` appends when it rejects a partition: the partition's
/// name and the first reason that rejects it. Empty when the partition is
/// accepted (also when a violated warning threshold accepts it).
pub open spec fn spec_match_note(p: PartitionModel, r: Resources, n: nat) -> Seq<char> {
    let cpus = spec_total_cpus(r, n);
    let gpus = spec_total_gpus(r, n);
    if p.prevent_auto_select {
        p.name + ": Must be manually selected.\n"@
    } else if p.maximum_cpus_per_job matches Some(x) && cpus > x {
        p.name + ": Too many CPUs.\n"@
    } else if p.require_cpus_multiple_of matches Some(x) && x != 0 && cpus % (x as nat) != 0 {
        p.name + ": CPUs not a required multiple.\n"@
    } else if p.warn_cpus_multiple_of matches Some(x) && x != 0 && cpus % (x as nat) != 0 {
        Seq::empty()
    } else if p.minimum_gpus_per_job matches Some(x) && gpus < x {
        p.name + ": Not enough GPUs.\n"@
    } else if p.maximum_gpus_per_job matches Some(x) && gpus > x {
        p.name + ": Too many GPUs.\n"@
    } else if p.require_gpus_multiple_of matches Some(x) && x != 0 && (gpus == 0 || gpus % (
    x as nat) != 0) {
        p.name + ": GPUs not a required multiple.\n"@
    } else {
        Seq::empty()
    }
}

impl Partition {
    /// Check whether a given job may use this partition. On a failed check a
    /// line naming this partition and the reason is appended to `reason`.
    pub fn matches(&self, resources: &Resources, n_directories: usize, reason: &mut String) -> (r:
        bool)
        requires
            spec_total_cpus(*resources, n_directories as nat) <= usize::MAX,
            spec_total_gpus(*resources, n_directories as nat) <= usize::MAX,
            spec_total_processes(*resources, n_directories as nat) <= usize::MAX,
        ensures
            r == spec_partition_matches(self@, *resources, n_directories as nat),
            final(reason)@ == old(reason)@ + spec_match_note(
                self@,
                *resources,
                n_directories as nat,
            ),
    {
        let total_cpus = resources.total_cpus(n_directories);
        let total_gpus = resources.total_gpus(n_directories);

        if self.prevent_auto_select {
            text::push_str(reason, self.name.as_str());
            text::push_str(reason, ": Must be manually selected.\n");
            proof {
                assert(reason@ =~= old(reason)@ + (self@.name + ": Must be manually selected.\n"@));
            }
            return false;
        }
        match self.maximum_cpus_per_job {
            Some(x) => {
                if total_cpus > x {
                    text::push_str(reason, self.name.as_str());
                    text::push_str(reason, ": Too many CPUs.\n");
                    proof {
                        assert(reason@ =~= old(reason)@ + (self@.name + ": Too many CPUs.\n"@));
                    }
                    return false;
                }
            },
            None => {},
        }
        match self.require_cpus_multiple_of {
            Some(x) => {
                if x != 0 && total_cpus % x != 0 {
                    text::push_str(reason, self.name.as_str());
                    text::push_str(reason, ": CPUs not a required multiple.\n");
                    proof {
                        assert(reason@ =~= old(reason)@ + (self@.name + ": CPUs not a required multiple.\n"@));
                    }
                    return false;
                }
            },
            None => {},
        }
        match self.warn_cpus_multiple_of {
            Some(x) => {
                if x != 0 && total_cpus % x != 0 {
                    // A violated warning does not prevent use of the partition.
                    proof {
                        assert(reason@ =~= old(reason)@ + Seq::<char>::empty());
                    }
                    return true;
                }
            },
            None => {},
        }
        match self.minimum_gpus_per_job {
            Some(x) => {
                if total_gpus < x {
                    text::push_str(reason, self.name.as_str());
                    text::push_str(reason, ": Not enough GPUs.\n");
                    proof {
                        assert(reason@ =~= old(reason)@ + (self@.name + ": Not enough GPUs.\n"@));
                    }
                    return false;
                }
            },
            None => {},
        }
        match self.maximum_gpus_per_job {
            Some(x) => {
                if total_gpus > x {
                    text::push_str(reason, self.name.as_str());
                    text::push_str(reason, ": Too many GPUs.\n");
                    proof {
                        assert(reason@ =~= old(reason)@ + (self@.name + ": Too many GPUs.\n"@));
                    }
                    return false;
                }
            },
            None => {},
        }
        match self.require_gpus_multiple_of {
            Some(x) => {
                if x != 0 && (total_gpus == 0 || total_gpus % x != 0) {
                    text::push_str(reason, self.name.as_str());
                    text::push_str(reason, ": GPUs not a required multiple.\n");
                    proof {
                        assert(reason@ =~= old(reason)@ + (self@.name + ": GPUs not a required multiple.\n"@));
                    }
                    return false;
                }
            },
            None => {},
        }
        proof {
            assert(reason@ =~= old(reason)@ + Seq::<char>::empty());
        }
        true
    }
}

/// The rejection notes of every partition, in order: what the reason buffer
/// holds when no partition accepts a job.
pub open spec fn spec_all_notes(ps: Seq<PartitionModel>, r: Resources, n: nat) -> Seq<char>
    decreases ps.len(),
{
    if ps.len() == 0 {
        Seq::empty()
    } else {
        spec_all_notes(ps.drop_last(), r, n) + spec_match_note(ps.last(), r, n)
    }
}

/// First partition of the cluster that accepts the job, when any.
pub open spec fn spec_auto_partition(c: ClusterModel, r: Resources, n: nat) -> Option<int>
    decreases c.partition.len(),
{
    if c.partition.len() == 0 {
        None
    } else if spec_partition_matches(c.partition[0], r, n) {
        Some(0int)
    } else {
        match spec_auto_partition(
            ClusterModel { partition: c.partition.drop_first(), ..c },
            r,
            n,
        ) {
            Some(i) => Some(i + 1),
            None => None,
        }
    }
}

/// First partition with the given name, when any.
pub open spec fn spec_partition_by_name(s: Seq<PartitionModel>, name: Seq<char>) -> Option<int>
    decreases s.len(),
{
    if s.len() == 0 {
        None
    } else if s[0].name == name {
        Some(0int)
    } else {
        match spec_partition_by_name(s.drop_first(), name) {
            Some(i) => Some(i + 1),
            None => None,
        }
    }
}

impl Cluster {
    /// Find the partition to use for the given job.
    ///
    /// With a name, that partition is returned when it exists and accepts the
    /// job; without one, the first accepting partition is returned. The
    /// errors say which of the two look-ups failed.
    #[verifier::loop_isolation(false)]
    pub fn find_partition<'a>(
        &'a self,
        partition_name: Option<&str>,
        resources: &Resources,
        n_directories: usize,
    ) -> (r: Result<&'a Partition, Error>)
        requires
            spec_total_cpus(*resources, n_directories as nat) <= usize::MAX,
            spec_total_gpus(*resources, n_directories as nat) <= usize::MAX,
            spec_total_processes(*resources, n_directories as nat) <= usize::MAX,
        ensures
            match r {
                Ok(p) => match partition_name {
                    Some(name) => spec_partition_by_name(self@.partition, name@) is Some && p@
                        == self@.partition[spec_partition_by_name(self@.partition, name@)->0]
                        && spec_partition_matches(p@, *resources, n_directories as nat),
                    None => spec_auto_partition(self@, *resources, n_directories as nat) is Some
                        && p@ == self@.partition[spec_auto_partition(
                        self@,
                        *resources,
                        n_directories as nat,
                    )->0],
                },
                Err(e) => match partition_name {
                    Some(name) => (e matches Error::PartitionNameNotFound(_)
                        && spec_partition_by_name(self@.partition, name@) is None) || (
                    e matches Error::PartitionNotFound(s) && spec_partition_by_name(
                        self@.partition,
                        name@,
                    ) is Some && !spec_partition_matches(
                        self@.partition[spec_partition_by_name(self@.partition, name@)->0],
                        *resources,
                        n_directories as nat,
                    ) && s@ == spec_match_note(
                        self@.partition[spec_partition_by_name(self@.partition, name@)->0],
                        *resources,
                        n_directories as nat,
                    )),
                    None => e matches Error::PartitionNotFound(s) && spec_auto_partition(
                        self@,
                        *resources,
                        n_directories as nat,
                    ) is None && s@ == spec_all_notes(
                        self@.partition,
                        *resources,
                        n_directories as nat,
                    ),
                },
            },
    {
        let mut reason = String::new();
        match partition_name {
            Some(name) => {
                let ghost pm = self@.partition;
                let mut i: usize = 0;
                proof {
                    assert(pm.skip(0) =~= pm);
                }
                while i < self.partition.len()
                    invariant
                        i <= self.partition@.len(),
                        pm.len() == self.partition@.len(),
                        reason@ == Seq::<char>::empty(),
                        forall|j: int| 0 <= j < i ==> (#[trigger] pm[j]).name != name@,
                        spec_partition_by_name(pm, name@) == match spec_partition_by_name(
                            pm.skip(i as int),
                            name@,
                        ) {
                            Some(x) => Some(x + i),
                            None => None::<int>,
                        },
                    decreases self.partition@.len() - i,
                {
                    proof {
                        assert(pm[i as int] == self.partition@[i as int]@);
                        assert(pm.skip(i as int)[0] == pm[i as int]);
                        assert(pm.skip(i as int).drop_first() =~= pm.skip(i as int + 1));
                    }
                    if text::str_eq(self.partition[i].name.as_str(), name) {
                        if self.partition[i].matches(resources, n_directories, &mut reason) {
                            return Ok(&self.partition[i]);
                        } else {
                            proof {
                                assert(reason@ =~= spec_match_note(
                                    pm[i as int],
                                    *resources,
                                    n_directories as nat,
                                ));
                            }
                            return Err(Error::PartitionNotFound(reason));
                        }
                    }
                    i = i + 1;
                }
                proof {
                    assert(pm.skip(pm.len() as int).len() == 0);
                }
                Err(Error::PartitionNameNotFound(name.to_owned()))
            },
            None => {
                let ghost cm = self@;
                let mut i: usize = 0;
                proof {
                    assert(cm.partition.skip(0) =~= cm.partition);
                    assert(ClusterModel { partition: cm.partition.skip(0), ..cm } =~= cm);
                    assert(cm.partition.take(0) =~= Seq::<PartitionModel>::empty());
                    assert(reason@ =~= spec_all_notes(
                        cm.partition.take(0),
                        *resources,
                        n_directories as nat,
                    ));
                }
                while i < self.partition.len()
                    invariant
                        i <= self.partition@.len(),
                        cm == self@,
                        cm.partition.len() == self.partition@.len(),
                        reason@ == spec_all_notes(
                            cm.partition.take(i as int),
                            *resources,
                            n_directories as nat,
                        ),
                        spec_auto_partition(cm, *resources, n_directories as nat) == match
                            spec_auto_partition(
                            ClusterModel { partition: cm.partition.skip(i as int), ..cm },
                            *resources,
                            n_directories as nat,
                        ) {
                            Some(x) => Some(x + i),
                            None => None::<int>,
                        },
                    decreases self.partition@.len() - i,
                {
                    proof {
                        assert(cm.partition[i as int] == self.partition@[i as int]@);
                        assert(cm.partition.skip(i as int)[0] == cm.partition[i as int]);
                        assert(ClusterModel {
                            partition: cm.partition.skip(i as int),
                            ..cm
                        }.partition.drop_first() =~= cm.partition.skip(i as int + 1));
                    }
                    let ghost before = reason@;
                    if self.partition[i].matches(resources, n_directories, &mut reason) {
                        return Ok(&self.partition[i]);
                    }
                    proof {
                        assert(cm.partition.take(i as int + 1).drop_last() =~= cm.partition.take(
                            i as int,
                        ));
                        assert(cm.partition.take(i as int + 1).last() == cm.partition[i as int]);
                    }
                    i = i + 1;
                }
                proof {
                    assert(cm.partition.skip(cm.partition.len() as int).len() == 0);
                    assert(cm.partition.take(cm.partition.len() as int) =~= cm.partition);
                }
                Err(Error::PartitionNotFound(reason))
            },
        }
    }
}

/// First cluster with the given name, when any.
pub open spec fn spec_cluster_by_name(s: Seq<ClusterModel>, name: Seq<char>) -> Option<int>
    decreases s.len(),
{
    if s.len() == 0 {
        None
    } else if s[0].name == name {
        Some(0int)
    } else {
        match spec_cluster_by_name(s.drop_first(), name) {
            Some(i) => Some(i + 1),
            None => None,
        }
    }
}

/// First cluster whose identification method matches the environment.
pub open spec fn spec_identified_cluster(
    s: Seq<ClusterModel>,
    env: Seq<(Seq<char>, Seq<char>)>,
) -> Option<int>
    decreases s.len(),
{
    if s.len() == 0 {
        None
    } else if spec_identity_matches(s[0], env) {
        Some(0int)
    } else {
        match spec_identified_cluster(s.drop_first(), env) {
            Some(i) => Some(i + 1),
            None => None,
        }
    }
}

impl Configuration {
    /// Identify the cluster: by its name when one is given, else the first
    /// cluster whose identification method matches the environment.
    #[verifier::loop_isolation(false)]
    pub fn identify(self, name: Option<&str>, environment: &Vec<(String, String)>) -> (r: Result<
        Cluster,
        Error,
    >)
        ensures
            match r {
                Ok(c) => match name {
                    Some(n) => spec_cluster_by_name(clusters_model(self.cluster@), n@) is Some
                        && c@ == clusters_model(self.cluster@)[spec_cluster_by_name(
                        clusters_model(self.cluster@),
                        n@,
                    )->0],
                    None => spec_identified_cluster(
                        clusters_model(self.cluster@),
                        env_model(environment@),
                    ) is Some && c@ == clusters_model(self.cluster@)[spec_identified_cluster(
                        clusters_model(self.cluster@),
                        env_model(environment@),
                    )->0],
                },
                Err(e) => match name {
                    Some(n) => e matches Error::ClusterNameNotFound(_) && spec_cluster_by_name(
                        clusters_model(self.cluster@),
                        n@,
                    ) is None,
                    None => e matches Error::ClusterNotFound && spec_identified_cluster(
                        clusters_model(self.cluster@),
                        env_model(environment@),
                    ) is None,
                },
            },
    {
        let ghost cm = clusters_model(self.cluster@);
        let ghost em = env_model(environment@);
        let mut i: usize = 0;
        let n_clusters = self.cluster.len();
        match name {
            Some(n) => {
                proof {
                    assert(cm.skip(0) =~= cm);
                }
                while i < n_clusters
                    invariant
                        i <= self.cluster@.len(),
                        n_clusters == self.cluster@.len(),
                        cm == clusters_model(self.cluster@),
                        cm.len() == self.cluster@.len(),
                        spec_cluster_by_name(cm, n@) == match spec_cluster_by_name(
                            cm.skip(i as int),
                            n@,
                        ) {
                            Some(x) => Some(x + i),
                            None => None::<int>,
                        },
                    decreases self.cluster@.len() - i,
                {
                    proof {
                        assert(cm[i as int] == self.cluster@[i as int]@);
                        assert(cm.skip(i as int)[0] == cm[i as int]);
                        assert(cm.skip(i as int).drop_first() =~= cm.skip(i as int + 1));
                    }
                    if text::str_eq(self.cluster[i].name.as_str(), n) {
                        return Ok(self.cluster[i].clone());
                    }
                    i = i + 1;
                }
                proof {
                    assert(cm.skip(cm.len() as int).len() == 0);
                }
                Err(Error::ClusterNameNotFound(n.to_owned()))
            },
            None => {
                proof {
                    assert(cm.skip(0) =~= cm);
                }
                while i < n_clusters
                    invariant
                        i <= self.cluster@.len(),
                        n_clusters == self.cluster@.len(),
                        cm == clusters_model(self.cluster@),
                        cm.len() == self.cluster@.len(),
                        em == env_model(environment@),
                        spec_identified_cluster(cm, em) == match spec_identified_cluster(
                            cm.skip(i as int),
                            em,
                        ) {
                            Some(x) => Some(x + i),
                            None => None::<int>,
                        },
                    decreases self.cluster@.len() - i,
                {
                    proof {
                        assert(cm[i as int] == self.cluster@[i as int]@);
                        assert(cm.skip(i as int)[0] == cm[i as int]);
                        assert(cm.skip(i as int).drop_first() =~= cm.skip(i as int + 1));
                    }
                    if self.cluster[i].identity_matches(environment) {
                        return Ok(self.cluster[i].clone());
                    }
                    i = i + 1;
                }
                proof {
                    assert(cm.skip(cm.len() as int).len() == 0);
                }
                Err(Error::ClusterNotFound)
            },
        }
    }

    /// Merge keys from another configuration into this one: the other
    /// configuration's clusters come first, so they take precedence when
    /// identifying.
    #[verifier::loop_isolation(false)]
    pub fn merge(&mut self, b: &Configuration)
        ensures
            clusters_model(final(self).cluster@) == clusters_model(b.cluster@) + clusters_model(
                old(self).cluster@,
            ),
    {
        let mut merged: Vec<Cluster> = Vec::new();
        let mut i: usize = 0;
        while i < b.cluster.len()
            invariant
                i <= b.cluster@.len(),
                merged@.len() == i,
                forall|j: int| 0 <= j < i ==> (#[trigger] merged@[j])@ == b.cluster@[j]@,
            decreases b.cluster@.len() - i,
        {
            merged.push(b.cluster[i].clone());
            i = i + 1;
        }
        let mut k: usize = 0;
        let ghost b_len = b.cluster@.len();
        while k < self.cluster.len()
            invariant
                k <= self.cluster@.len(),
                self.cluster@ == old(self).cluster@,
                b_len == b.cluster@.len(),
                merged@.len() == b_len + k,
                forall|j: int| 0 <= j < b_len ==> (#[trigger] merged@[j])@ == b.cluster@[j]@,
                forall|j: int|
                    b_len <= j < b_len + k ==> (#[trigger] merged@[j])@ == self.cluster@[j
                        - b_len]@,
            decreases self.cluster@.len() - k,
        {
            merged.push(self.cluster[k].clone());
            k = k + 1;
        }
        self.cluster = merged;
        proof {
            assert(clusters_model(self.cluster@) =~= clusters_model(b.cluster@) + clusters_model(
                old(self).cluster@,
            ));
        }
    }
}

} // verus!
