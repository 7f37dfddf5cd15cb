//! The bash scheduler: runs submissions immediately in a local shell and
//! never leaves jobs in any queue.

use vstd::prelude::*;
use crate::cluster::Cluster;
use crate::launcher::Launcher;

verus! {

/// The bash scheduler: a snapshot of the cluster configuration and the
/// launchers available on it.
#[derive(Debug)]
pub struct Bash {
    /// The cluster this scheduler runs on.
    pub cluster: Cluster,
    /// The launchers available on the cluster, by name.
    pub launchers: Vec<(String, Launcher)>,
}

impl Bash {
    /// Construct a new bash scheduler.
    pub fn new(cluster: Cluster, launchers: Vec<(String, Launcher)>) -> (r: Bash)
        ensures
            r.cluster == cluster,
            r.launchers == launchers,
    {
        Bash { cluster, launchers }
    }
}

/// The deferred answer of the bash scheduler's queue query. Jobs run to
/// completion at submission time, so nothing is ever still active.
#[derive(Debug)]
pub struct ActiveBashJobs {}

impl ActiveBashJobs {
    /// Complete the query: the bash scheduler reports no active jobs.
    pub fn get(self) -> (r: Vec<u32>)
        ensures
            r@ == Seq::<u32>::empty(),
    {
        Vec::new()
    }
}

} // verus!
