//! The built-in catalog of known clusters and launchers.

use vstd::prelude::*;
use crate::cluster;
use crate::cluster::{Cluster, IdentificationMethod, Partition, SchedulerType};
use crate::launcher;
use crate::launcher::Launcher;

verus! {

/// OLCF Andes.
pub fn andes() -> (r: Cluster)
    ensures
        r@.name == "andes"@,
        r.scheduler == SchedulerType::Slurm,
{
    Cluster {
        name: "andes".to_owned(),
        identify: IdentificationMethod::ByEnvironment(
            "LMOD_SYSTEM_NAME".to_owned(),
            "andes".to_owned(),
        ),
        scheduler: SchedulerType::Slurm,
        submit_options: Vec::new(),
        partition: {
            let mut v: Vec<Partition> = Vec::new();
            v.push(
                Partition {
                    name: "batch".to_owned(),
                    maximum_gpus_per_job: Some(0),
                    warn_cpus_multiple_of: Some(32),
                    cpus_per_node: Some(32),
                    ..Partition::default()
                },
            );
            v
        },
    }
}

/// Purdue Anvil.
pub fn anvil() -> (r: Cluster)
    ensures
        r@.name == "anvil"@,
        r.scheduler == SchedulerType::Slurm,
{
    let mut partition: Vec<Partition> = Vec::new();
    partition.push(
        Partition {
            name: "shared".to_owned(),
            maximum_cpus_per_job: Some(127),
            maximum_gpus_per_job: Some(0),
            ..Partition::default()
        },
    );
    partition.push(
        Partition {
            name: "wholenode".to_owned(),
            require_cpus_multiple_of: Some(128),
            maximum_gpus_per_job: Some(0),
            ..Partition::default()
        },
    );
    partition.push(
        Partition {
            name: "gpu".to_owned(),
            minimum_gpus_per_job: Some(1),
            gpus_per_node: Some(4),
            ..Partition::default()
        },
    );
    partition.push(
        Partition {
            name: "wide".to_owned(),
            require_cpus_multiple_of: Some(128),
            maximum_gpus_per_job: Some(0),
            prevent_auto_select: true,
            ..Partition::default()
        },
    );
    partition.push(
        Partition {
            name: "highmem".to_owned(),
            maximum_gpus_per_job: Some(0),
            prevent_auto_select: true,
            ..Partition::default()
        },
    );
    partition.push(
        Partition {
            name: "debug".to_owned(),
            maximum_gpus_per_job: Some(0),
            prevent_auto_select: true,
            ..Partition::default()
        },
    );
    partition.push(
        Partition {
            name: "gpu-debug".to_owned(),
            minimum_gpus_per_job: Some(1),
            prevent_auto_select: true,
            ..Partition::default()
        },
    );
    Cluster {
        name: "anvil".to_owned(),
        identify: IdentificationMethod::ByEnvironment(
            "RCAC_CLUSTER".to_owned(),
            "anvil".to_owned(),
        ),
        scheduler: SchedulerType::Slurm,
        submit_options: Vec::new(),
        partition,
    }
}

/// NCSA Delta.
pub fn delta() -> (r: Cluster)
    ensures
        r@.name == "delta"@,
        r.scheduler == SchedulerType::Slurm,
{
    let mut submit_options: Vec<String> = Vec::new();
    submit_options.push("--constraint=\"scratch\"".to_owned());
    let mut partition: Vec<Partition> = Vec::new();
    partition.push(
        Partition {
            name: "cpu".to_owned(),
            maximum_gpus_per_job: Some(0),
            cpus_per_node: Some(128),
            memory_per_cpu: Some("1970M".to_owned()),
            account_suffix: Some("-cpu".to_owned()),
            ..Partition::default()
        },
    );
    partition.push(
        Partition {
            name: "gpuA100x4".to_owned(),
            minimum_gpus_per_job: Some(1),
            memory_per_gpu: Some("62200M".to_owned()),
            gpus_per_node: Some(4),
            account_suffix: Some("-gpu".to_owned()),
            ..Partition::default()
        },
    );
    partition.push(
        Partition {
            name: "gpuA100x8".to_owned(),
            minimum_gpus_per_job: Some(1),
            memory_per_gpu: Some("256000M".to_owned()),
            gpus_per_node: Some(8),
            account_suffix: Some("-gpu".to_owned()),
            prevent_auto_select: true,
            ..Partition::default()
        },
    );
    partition.push(
        Partition {
            name: "gpuA40x4".to_owned(),
            minimum_gpus_per_job: Some(1),
            memory_per_gpu: Some("62200M".to_owned()),
            gpus_per_node: Some(4),
            account_suffix: Some("-gpu".to_owned()),
            prevent_auto_select: true,
            ..Partition::default()
        },
    );
    partition.push(
        Partition {
            name: "gpuMI100x8".to_owned(),
            minimum_gpus_per_job: Some(1),
            memory_per_gpu: Some("256000M".to_owned()),
            gpus_per_node: Some(8),
            account_suffix: Some("-gpu".to_owned()),
            prevent_auto_select: true,
            ..Partition::default()
        },
    );
    Cluster {
        name: "delta".to_owned(),
        identify: IdentificationMethod::ByEnvironment(
            "LMOD_SYSTEM_NAME".to_owned(),
            "Delta".to_owned(),
        ),
        scheduler: SchedulerType::Slurm,
        submit_options,
        partition,
    }
}

/// OLCF Frontier.
pub fn frontier() -> (r: Cluster)
    ensures
        r@.name == "frontier"@,
        r.scheduler == SchedulerType::Slurm,
{
    let mut submit_options: Vec<String> = Vec::new();
    submit_options.push("--constraint=\"nvme\"".to_owned());
    let mut partition: Vec<Partition> = Vec::new();
    partition.push(
        Partition {
            name: "batch".to_owned(),
            warn_gpus_multiple_of: Some(8),
            gpus_per_node: Some(8),
            ..Partition::default()
        },
    );
    Cluster {
        name: "frontier".to_owned(),
        identify: IdentificationMethod::ByEnvironment(
            "LMOD_SYSTEM_NAME".to_owned(),
            "frontier".to_owned(),
        ),
        scheduler: SchedulerType::Slurm,
        submit_options,
        partition,
    }
}

/// University of Michigan Great Lakes.
pub fn greatlakes() -> (r: Cluster)
    ensures
        r@.name == "greatlakes"@,
        r.scheduler == SchedulerType::Slurm,
{
    let mut partition: Vec<Partition> = Vec::new();
    partition.push(
        Partition {
            name: "standard".to_owned(),
            maximum_gpus_per_job: Some(0),
            cpus_per_node: Some(36),
            memory_per_cpu: Some("5G".to_owned()),
            ..Partition::default()
        },
    );
    partition.push(
        Partition {
            name: "gpu_mig40,gpu".to_owned(),
            minimum_gpus_per_job: Some(1),
            maximum_gpus_per_job: Some(1),
            memory_per_gpu: Some("60G".to_owned()),
            ..Partition::default()
        },
    );
    partition.push(
        Partition {
            name: "gpu".to_owned(),
            minimum_gpus_per_job: Some(1),
            memory_per_gpu: Some("60G".to_owned()),
            ..Partition::default()
        },
    );
    partition.push(
        Partition {
            name: "gpu_mig40".to_owned(),
            minimum_gpus_per_job: Some(1),
            memory_per_gpu: Some("125G".to_owned()),
            prevent_auto_select: true,
            ..Partition::default()
        },
    );
    partition.push(
        Partition {
            name: "spgpu".to_owned(),
            minimum_gpus_per_job: Some(1),
            memory_per_gpu: Some("47000M".to_owned()),
            prevent_auto_select: true,
            ..Partition::default()
        },
    );
    partition.push(
        Partition {
            name: "largemem".to_owned(),
            maximum_gpus_per_job: Some(0),
            prevent_auto_select: true,
            ..Partition::default()
        },
    );
    partition.push(
        Partition {
            name: "standard-oc".to_owned(),
            maximum_gpus_per_job: Some(0),
            cpus_per_node: Some(36),
            memory_per_cpu: Some("5G".to_owned()),
            prevent_auto_select: true,
            ..Partition::default()
        },
    );
    partition.push(
        Partition {
            name: "debug".to_owned(),
            maximum_gpus_per_job: Some(0),
            cpus_per_node: Some(36),
            memory_per_cpu: Some("5G".to_owned()),
            prevent_auto_select: true,
            ..Partition::default()
        },
    );
    Cluster {
        name: "greatlakes".to_owned(),
        identify: IdentificationMethod::ByEnvironment(
            "CLUSTER_NAME".to_owned(),
            "greatlakes".to_owned(),
        ),
        scheduler: SchedulerType::Slurm,
        submit_options: Vec::new(),
        partition,
    }
}

/// The fallback cluster: always identified, runs everything in bash.
pub fn none() -> (r: Cluster)
    ensures
        r@.name == "none"@,
        r.scheduler == SchedulerType::Bash,
        r@.identify == cluster::IdentificationMethodModel::Always(true),
{
    let mut partition: Vec<Partition> = Vec::new();
    partition.push(Partition { name: "none".to_owned(), ..Partition::default() });
    Cluster {
        name: "none".to_owned(),
        identify: IdentificationMethod::Always(true),
        scheduler: SchedulerType::Bash,
        submit_options: Vec::new(),
        partition,
    }
}

impl cluster::Configuration {
    /// The built-in cluster catalog, with the fallback cluster last.
    pub fn built_in() -> (r: cluster::Configuration)
        ensures
            r.cluster@.len() == 6,
            r.cluster@[5]@.identify == cluster::IdentificationMethodModel::Always(true),
    {
        let mut cluster: Vec<Cluster> = Vec::new();
        cluster.push(andes());
        cluster.push(anvil());
        cluster.push(delta());
        cluster.push(frontier());
        cluster.push(greatlakes());
        cluster.push(none());
        cluster::Configuration { cluster }
    }
}

impl launcher::Configuration {
    /// The built-in launchers: `openmp` and `mpi`, each with a `default`
    /// entry.
    pub fn built_in() -> (r: launcher::Configuration)
        ensures
            launcher::spec_all_have_default(launcher::launchers_model(r.launchers@)),
    {
        let mut openmp: Vec<(String, Launcher)> = Vec::new();
        openmp.push(
            (
                "default".to_owned(),
                Launcher {
                    executable: None,
                    gpus_per_process: None,
                    processes: None,
                    threads_per_process: Some("OMP_NUM_THREADS=".to_owned()),
                },
            ),
        );
        let mut mpi: Vec<(String, Launcher)> = Vec::new();
        mpi.push(
            (
                "default".to_owned(),
                Launcher {
                    executable: Some("srun".to_owned()),
                    processes: Some("--ntasks=".to_owned()),
                    threads_per_process: Some("--cpus-per-task=".to_owned()),
                    gpus_per_process: Some("--tres-per-task=gres/gpu:".to_owned()),
                },
            ),
        );
        mpi.push(
            (
                "anvil".to_owned(),
                Launcher {
                    executable: Some("srun --mpi=pmi2".to_owned()),
                    processes: Some("--ntasks=".to_owned()),
                    threads_per_process: Some("--cpus-per-task=".to_owned()),
                    gpus_per_process: Some("--tres-per-task=gres/gpu:".to_owned()),
                },
            ),
        );
        mpi.push(
            (
                "none".to_owned(),
                Launcher {
                    executable: Some("mpirun".to_owned()),
                    processes: Some("-n ".to_owned()),
                    threads_per_process: None,
                    gpus_per_process: None,
                },
            ),
        );
        let mut launchers: Vec<(String, Vec<(String, Launcher)>)> = Vec::new();
        launchers.push(("openmp".to_owned(), openmp));
        launchers.push(("mpi".to_owned(), mpi));
        let r = launcher::Configuration { launchers };
        proof {
            let m = launcher::launchers_model(r.launchers@);
            assert forall|i: int|
                0 <= i < m.len() implies launcher::spec_entry_for(
                (#[trigger] m[i]).1,
                "default"@,
            ) is Some by {
                assert(m[i].1[0].0 == "default"@);
            }
        }
        r
    }
}

} // verus!
