//! Tests of the cluster and launcher configuration.

use row::cluster::{Cluster, Configuration, IdentificationMethod, Partition, SchedulerType};
use row::error::Error;
use row::launcher;
use row::workflow::{Processes, Resources};

fn bare_cluster(name: &str, identify: IdentificationMethod) -> Cluster {
    Cluster {
        name: name.to_string(),
        identify,
        scheduler: SchedulerType::Bash,
        submit_options: Vec::new(),
        partition: Vec::new(),
    }
}

#[test]
fn identify() {
    let clusters = vec![
        bare_cluster("cluster0", IdentificationMethod::Always(false)),
        bare_cluster(
            "cluster1",
            IdentificationMethod::ByEnvironment("_row_select".to_string(), "a".to_string()),
        ),
        bare_cluster(
            "cluster2",
            IdentificationMethod::ByEnvironment("_row_select".to_string(), "b".to_string()),
        ),
        bare_cluster("cluster3", IdentificationMethod::Always(true)),
        bare_cluster(
            "cluster4",
            IdentificationMethod::ByEnvironment("_row_Select".to_string(), "b".to_string()),
        ),
    ];
    let configuration = Configuration { cluster: clusters };

    let no_env: Vec<(String, String)> = Vec::new();
    let env_b = vec![("_row_select".to_string(), "b".to_string())];
    let env_a = vec![("_row_select".to_string(), "a".to_string())];

    let c = configuration
        .clone()
        .identify(Some("cluster4"), &no_env)
        .unwrap();
    assert_eq!(c.name, "cluster4");

    assert!(matches!(
        configuration.clone().identify(Some("not a cluster"), &no_env),
        Err(Error::ClusterNameNotFound(_))
    ));

    let c = configuration.clone().identify(None, &no_env).unwrap();
    assert_eq!(c.name, "cluster3");

    let c = configuration.clone().identify(None, &env_b).unwrap();
    assert_eq!(c.name, "cluster2");

    let c = configuration.clone().identify(None, &env_a).unwrap();
    assert_eq!(c.name, "cluster1");

    let c = configuration.clone().identify(Some("cluster0"), &no_env).unwrap();
    assert_eq!(c.name, "cluster0");
}

#[test]
fn empty_partition() {
    let partition = Partition::default();
    let resources = Resources {
        processes: Some(Processes::PerDirectory(1)),
        threads_per_process: Some(2),
        gpus_per_process: Some(3),
        ..Resources::default()
    };
    let mut reason = String::new();
    assert!(partition.matches(&resources, 10, &mut reason));
}

#[test]
fn partition_checks() {
    let resources = Resources {
        processes: Some(Processes::PerDirectory(1)),
        threads_per_process: Some(2),
        gpus_per_process: Some(3),
        ..Resources::default()
    };
    let mut reason = String::new();

    let partition = Partition {
        maximum_cpus_per_job: Some(10),
        ..Partition::default()
    };
    assert!(!partition.matches(&resources, 6, &mut reason));
    assert!(partition.matches(&resources, 5, &mut reason));

    let partition = Partition {
        require_cpus_multiple_of: Some(10),
        ..Partition::default()
    };
    assert!(!partition.matches(&resources, 6, &mut reason));
    assert!(partition.matches(&resources, 5, &mut reason));
    assert!(partition.matches(&resources, 10, &mut reason));
    assert!(partition.matches(&resources, 15, &mut reason));

    let partition = Partition {
        minimum_gpus_per_job: Some(9),
        ..Partition::default()
    };
    assert!(!partition.matches(&resources, 1, &mut reason));
    assert!(!partition.matches(&resources, 2, &mut reason));
    assert!(partition.matches(&resources, 3, &mut reason));

    let partition = Partition {
        maximum_gpus_per_job: Some(9),
        ..Partition::default()
    };
    assert!(partition.matches(&resources, 1, &mut reason));
    assert!(partition.matches(&resources, 2, &mut reason));
    assert!(partition.matches(&resources, 3, &mut reason));
    assert!(!partition.matches(&resources, 4, &mut reason));

    let partition = Partition {
        require_gpus_multiple_of: Some(9),
        ..Partition::default()
    };
    assert!(!partition.matches(&resources, 1, &mut reason));
    assert!(!partition.matches(&resources, 2, &mut reason));
    assert!(partition.matches(&resources, 3, &mut reason));
    assert!(!partition.matches(&resources, 4, &mut reason));
    assert!(!partition.matches(&resources, 5, &mut reason));
    assert!(partition.matches(&resources, 6, &mut reason));

    let partition = Partition {
        prevent_auto_select: true,
        ..Partition::default()
    };
    assert!(!partition.matches(&resources, 1, &mut reason));
    assert!(!partition.matches(&resources, 6, &mut reason));
}

#[test]
fn find_partition() {
    let partitions = vec![
        Partition {
            name: "cpu".to_string(),
            maximum_cpus_per_job: Some(10),
            maximum_gpus_per_job: Some(0),
            ..Partition::default()
        },
        Partition {
            name: "gpu".to_string(),
            maximum_gpus_per_job: Some(10),
            minimum_gpus_per_job: Some(1),
            ..Partition::default()
        },
        Partition {
            name: "other".to_string(),
            maximum_cpus_per_job: Some(20),
            maximum_gpus_per_job: Some(20),
            ..Partition::default()
        },
    ];
    let cluster = Cluster {
        name: "cluster".to_string(),
        identify: IdentificationMethod::Always(true),
        scheduler: SchedulerType::Bash,
        submit_options: Vec::new(),
        partition: partitions,
    };

    let cpu_resources = Resources {
        processes: Some(Processes::PerDirectory(1)),
        ..Resources::default()
    };
    let gpu_resources = Resources {
        processes: Some(Processes::PerDirectory(1)),
        gpus_per_process: Some(1),
        ..Resources::default()
    };

    assert_eq!(cluster.find_partition(None, &cpu_resources, 1).unwrap().name, "cpu");
    assert_eq!(cluster.find_partition(None, &cpu_resources, 10).unwrap().name, "cpu");
    assert_eq!(cluster.find_partition(None, &gpu_resources, 1).unwrap().name, "gpu");
    assert_eq!(cluster.find_partition(None, &gpu_resources, 10).unwrap().name, "gpu");
    assert_eq!(cluster.find_partition(None, &cpu_resources, 11).unwrap().name, "other");
    assert_eq!(cluster.find_partition(None, &gpu_resources, 11).unwrap().name, "other");
    assert_eq!(cluster.find_partition(None, &cpu_resources, 20).unwrap().name, "other");
    assert_eq!(cluster.find_partition(None, &gpu_resources, 20).unwrap().name, "other");

    assert!(matches!(
        cluster.find_partition(None, &cpu_resources, 21),
        Err(Error::PartitionNotFound(_))
    ));
    assert!(matches!(
        cluster.find_partition(Some("not_a_partition"), &cpu_resources, 1),
        Err(Error::PartitionNameNotFound(_))
    ));
    assert_eq!(
        cluster.find_partition(Some("other"), &gpu_resources, 20).unwrap().name,
        "other"
    );
    assert!(matches!(
        cluster.find_partition(Some("other"), &cpu_resources, 21),
        Err(Error::PartitionNotFound(_))
    ));
}

fn launcher_for<'a>(
    table: &'a [(String, row::launcher::Launcher)],
    name: &str,
) -> Option<&'a row::launcher::Launcher> {
    table.iter().find(|e| e.0 == name).map(|e| &e.1)
}

#[test]
fn unset_launcher() {
    let launchers = launcher::Configuration::built_in();
    let by_cluster = launchers.by_cluster("any_cluster");
    assert!(launcher_for(&by_cluster, "unset_launcher").is_none());
}

#[test]
fn openmp_prefix() {
    let launchers = launcher::Configuration::built_in();
    let by_cluster = launchers.by_cluster("any_cluster");
    let openmp = launcher_for(&by_cluster, "openmp").unwrap();

    let no_threads = Resources::default();
    assert_eq!(openmp.prefix(&no_threads, 10), "");
    assert_eq!(openmp.prefix(&no_threads, 1), "");

    let threads = Resources {
        threads_per_process: Some(5),
        ..Resources::default()
    };
    assert_eq!(openmp.prefix(&threads, 10), "OMP_NUM_THREADS=5 ");
    assert_eq!(openmp.prefix(&threads, 1), "OMP_NUM_THREADS=5 ");
}

#[test]
fn mpi_prefix_none() {
    let launchers = launcher::Configuration::built_in();
    let by_cluster = launchers.by_cluster("none");
    let mpi = launcher_for(&by_cluster, "mpi").unwrap();

    let one_proc = Resources::default();
    assert_eq!(mpi.prefix(&one_proc, 10), "mpirun -n 1 ");
    assert_eq!(mpi.prefix(&one_proc, 1), "mpirun -n 1 ");

    let procs_per_directory = Resources {
        processes: Some(Processes::PerDirectory(2)),
        ..Resources::default()
    };
    assert_eq!(mpi.prefix(&procs_per_directory, 11), "mpirun -n 22 ");
    assert_eq!(mpi.prefix(&procs_per_directory, 1), "mpirun -n 2 ");

    let all = Resources {
        processes: Some(Processes::PerDirectory(6)),
        threads_per_process: Some(3),
        gpus_per_process: Some(8),
        ..Resources::default()
    };
    assert_eq!(mpi.prefix(&all, 11), "mpirun -n 66 ");
    assert_eq!(mpi.prefix(&all, 1), "mpirun -n 6 ");
}

#[test]
fn mpi_prefix_default() {
    let launchers = launcher::Configuration::built_in();
    let by_cluster = launchers.by_cluster("any_cluster");
    let mpi = launcher_for(&by_cluster, "mpi").unwrap();

    let one_proc = Resources::default();
    assert_eq!(mpi.prefix(&one_proc, 10), "srun --ntasks=1 ");
    assert_eq!(mpi.prefix(&one_proc, 1), "srun --ntasks=1 ");

    let procs_per_directory = Resources {
        processes: Some(Processes::PerDirectory(2)),
        ..Resources::default()
    };
    assert_eq!(mpi.prefix(&procs_per_directory, 11), "srun --ntasks=22 ");
    assert_eq!(mpi.prefix(&procs_per_directory, 1), "srun --ntasks=2 ");

    let all = Resources {
        processes: Some(Processes::PerDirectory(6)),
        threads_per_process: Some(3),
        gpus_per_process: Some(8),
        ..Resources::default()
    };
    assert_eq!(
        mpi.prefix(&all, 11),
        "srun --ntasks=66 --cpus-per-task=3 --tres-per-task=gres/gpu:8 "
    );
    assert_eq!(
        mpi.prefix(&all, 1),
        "srun --ntasks=6 --cpus-per-task=3 --tres-per-task=gres/gpu:8 "
    );
}
