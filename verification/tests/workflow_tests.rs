//! Tests of the workflow model: resources, resolution, and validation.

use row::error::Error;
use row::workflow::{
    Action, DefaultTables, Processes, Resources, Walltime, Workflow, Workspace,
};

fn workflow_of(actions: Vec<Action>) -> Workflow {
    Workflow {
        root: "/project".to_string(),
        workspace: Workspace::default(),
        default: DefaultTables::default(),
        action: actions,
    }
}

fn named_action(name: &str, command: &str) -> Action {
    Action {
        name: Some(name.to_string()),
        command: Some(command.to_string()),
        ..Action::default()
    }
}

#[test]
fn total_processes() {
    let r = Resources {
        processes: Some(Processes::PerSubmission(10)),
        ..Resources::default()
    };
    assert_eq!(r.total_processes(10), 10);
    assert_eq!(r.total_processes(100), 10);
    assert_eq!(r.total_processes(1000), 10);

    let r = Resources {
        processes: Some(Processes::PerDirectory(10)),
        ..Resources::default()
    };
    assert_eq!(r.total_processes(10), 100);
    assert_eq!(r.total_processes(100), 1000);
    assert_eq!(r.total_processes(1000), 10000);
}

#[test]
fn total_cpus() {
    let r = Resources {
        processes: Some(Processes::PerSubmission(10)),
        threads_per_process: Some(2),
        ..Resources::default()
    };
    assert_eq!(r.total_cpus(10), 20);
    assert_eq!(r.total_cpus(100), 20);
    assert_eq!(r.total_cpus(1000), 20);

    let r = Resources {
        processes: Some(Processes::PerDirectory(10)),
        threads_per_process: None,
        ..Resources::default()
    };
    assert_eq!(r.total_cpus(10), 100);
    assert_eq!(r.total_cpus(100), 1000);
    assert_eq!(r.total_cpus(1000), 10000);
}

#[test]
fn total_gpus() {
    let r = Resources {
        processes: Some(Processes::PerSubmission(10)),
        gpus_per_process: Some(2),
        ..Resources::default()
    };
    assert_eq!(r.total_gpus(10), 20);
    assert_eq!(r.total_gpus(100), 20);
    assert_eq!(r.total_gpus(1000), 20);

    let r = Resources {
        processes: Some(Processes::PerDirectory(10)),
        gpus_per_process: None,
        ..Resources::default()
    };
    assert_eq!(r.total_gpus(10), 0);
    assert_eq!(r.total_gpus(100), 0);
    assert_eq!(r.total_gpus(1000), 0);
}

#[test]
fn total_walltime() {
    // One day plus one hour per directory.
    let r = Resources {
        walltime: Some(Walltime::PerDirectory(86400 + 3600)),
        ..Resources::default()
    };
    assert_eq!(r.total_walltime(2), 2 * (86400 + 3600));
    assert_eq!(r.total_walltime(4), 4 * (86400 + 3600));
    assert_eq!(r.total_walltime(8), 8 * (86400 + 3600));

    let r = Resources {
        walltime: Some(Walltime::PerSubmission(86400 + 3600)),
        ..Resources::default()
    };
    assert_eq!(r.total_walltime(2), 86400 + 3600);
    assert_eq!(r.total_walltime(4), 86400 + 3600);
    assert_eq!(r.total_walltime(8), 86400 + 3600);
}

#[test]
fn resource_cost() {
    // Ten processes for one hour per directory: ten CPU-hours per directory.
    let r = Resources {
        processes: Some(Processes::PerSubmission(10)),
        walltime: Some(Walltime::PerDirectory(3600)),
        ..Resources::default()
    };
    assert_eq!(r.cost(1).cpu_seconds, 10 * 3600);
    assert_eq!(r.cost(2).cpu_seconds, 20 * 3600);
    assert_eq!(r.cost(4).cpu_seconds, 40 * 3600);
    assert_eq!(r.cost(4).gpu_seconds, 0);

    let r = Resources {
        processes: Some(Processes::PerSubmission(10)),
        walltime: Some(Walltime::PerDirectory(3600)),
        threads_per_process: Some(4),
        ..Resources::default()
    };
    assert_eq!(r.cost(1).cpu_seconds, 40 * 3600);
    assert_eq!(r.cost(2).cpu_seconds, 80 * 3600);

    let r = Resources {
        processes: Some(Processes::PerSubmission(10)),
        walltime: Some(Walltime::PerDirectory(3600)),
        threads_per_process: Some(4),
        gpus_per_process: Some(2),
    };
    assert_eq!(r.cost(1).cpu_seconds, 0);
    assert_eq!(r.cost(1).gpu_seconds, 20 * 3600);
    assert_eq!(r.cost(2).gpu_seconds, 40 * 3600);
}

#[test]
fn action_defaults() {
    let w = workflow_of(vec![named_action("b", "c")]).validate_and_set_defaults().unwrap();
    assert_eq!(w.action.len(), 1);
    let action = &w.action[0];
    assert_eq!(action.name(), "b");
    assert_eq!(action.command(), "c");
    assert!(action.previous_actions.is_none());
    assert!(action.products.is_none());
    assert!(action.launchers.is_none());
    assert_eq!(action.resources.processes, None);
    assert_eq!(action.resources.processes(), Processes::PerSubmission(1));
    assert_eq!(action.resources.walltime(), Walltime::PerDirectory(3600));
    assert!(action.submit_options.is_empty());
    assert!(action.group.included.is_none());
    assert!(action.group.included().is_empty());
    assert!(action.group.sort_by().is_empty());
    assert!(!action.group.split_by_sort_key());
    assert_eq!(action.group.maximum_size, None);
    assert!(!action.group.submit_whole());
    assert!(!action.group.reverse_sort());
}

#[test]
fn action_no_name() {
    let w = workflow_of(vec![Action {
        command: Some("c".to_string()),
        ..Action::default()
    }]);
    let result = w.validate_and_set_defaults();
    assert!(result.is_err());
    assert!(result.unwrap_err().message().contains("missing `name`"));
}

#[test]
fn action_no_command() {
    let w = workflow_of(vec![Action {
        name: Some("a".to_string()),
        ..Action::default()
    }]);
    let result = w.validate_and_set_defaults();
    assert!(result.is_err());
    assert!(result.unwrap_err().message().contains("missing `command`"));
}

#[test]
fn action_empty_name() {
    let w = workflow_of(vec![named_action("", "c")]);
    let result = w.validate_and_set_defaults();
    assert!(result.is_err());
    assert!(result.unwrap_err().message().contains("missing `name`"));
}

#[test]
fn action_empty_command() {
    let w = workflow_of(vec![named_action("a", "")]);
    let result = w.validate_and_set_defaults();
    assert!(result.is_err());
    assert!(result.unwrap_err().message().contains("missing `command`"));
}

#[test]
fn action_duplicate() {
    let w = workflow_of(vec![named_action("b", "c"), named_action("b", "d")]);
    assert!(w.validate_and_set_defaults().is_ok());
}

#[test]
fn action_duplicate_different_products() {
    let mut one = named_action("b", "c");
    one.products = Some(vec!["e".to_string()]);
    let mut two = named_action("b", "d");
    two.products = Some(vec!["b".to_string()]);
    let result = workflow_of(vec![one, two]).validate_and_set_defaults();
    assert!(matches!(
        result,
        Err(Error::DuplicateActionsDifferentProducts(_))
    ));
    assert!(result
        .unwrap_err()
        .message()
        .contains("must have the same `products`"));
}

#[test]
fn action_duplicate_different_previous_actions() {
    let mut two = named_action("b", "d");
    two.previous_actions = Some(vec!["a".to_string()]);
    let result = workflow_of(vec![
        named_action("b", "c"),
        two,
        named_action("a", "e"),
    ])
    .validate_and_set_defaults();
    assert!(matches!(
        result,
        Err(Error::DuplicateActionsDifferentPreviousActions(_))
    ));
    assert!(result
        .unwrap_err()
        .message()
        .contains("must have the same `previous_actions`"));
}

#[test]
fn previous_action_error() {
    let mut a = named_action("b", "c");
    a.previous_actions = Some(vec!["a".to_string()]);
    let result = workflow_of(vec![a]).validate_and_set_defaults();
    assert!(result.is_err());
    assert!(result
        .unwrap_err()
        .message()
        .starts_with("Previous action 'a' not found"));
}

#[test]
fn default_action_from() {
    let mut w = workflow_of(Vec::new());
    w.default.action.from = Some("a".to_string());
    let result = w.validate_and_set_defaults();
    assert!(result.is_err());
    assert!(result.unwrap_err().message().contains("must not set `from`"));
}

#[test]
fn action_from() {
    let mut base = named_action("a", "b");
    base.launchers = Some(vec!["c".to_string()]);
    base.previous_actions = Some(vec!["d".to_string()]);
    base.products = Some(vec!["e".to_string()]);
    let derived = Action {
        from: Some("a".to_string()),
        ..Action::default()
    };
    let w = workflow_of(vec![base, derived, named_action("d", "e")])
        .validate_and_set_defaults()
        .unwrap();
    assert_eq!(w.action.len(), 3);
    let action = &w.action[1];
    assert_eq!(action.name(), "a");
    assert_eq!(action.command(), "b");
    assert_eq!(action.launchers(), vec!["c".to_string()]);
    assert_eq!(action.previous_actions(), vec!["d".to_string()]);
    assert_eq!(action.products(), vec!["e".to_string()]);
    assert_eq!(action.from, Some("a".to_string()));
}

#[test]
fn recursive_from() {
    let mut base = named_action("a", "b");
    base.from = Some("z".to_string());
    let z = named_action("z", "y");
    let derived = Action {
        from: Some("a".to_string()),
        ..Action::default()
    };
    let result = workflow_of(vec![base, z, derived]).validate_and_set_defaults();
    assert!(matches!(result, Err(Error::RecursiveFrom(_))));
}

#[test]
fn from_not_found() {
    let derived = Action {
        from: Some("a".to_string()),
        ..Action::default()
    };
    let result = workflow_of(vec![derived]).validate_and_set_defaults();
    assert!(matches!(result, Err(Error::FromActionNotFound(_))));
}

#[test]
fn action_override_mixed() {
    let mut w = workflow_of(Vec::new());
    w.default.action.resources.threads_per_process = Some(2);
    let mut base = named_action("a", "b");
    base.resources.gpus_per_process = Some(4);
    let mut derived = Action {
        from: Some("a".to_string()),
        ..Action::default()
    };
    derived.resources.processes = Some(Processes::PerDirectory(8));
    w.action = vec![base, derived];
    let w = w.validate_and_set_defaults().unwrap();
    assert_eq!(w.action.len(), 2);
    let action = &w.action[1];
    assert_eq!(action.name(), "a");
    assert_eq!(action.command(), "b");
    assert_eq!(action.resources.processes(), Processes::PerDirectory(8));
    assert_eq!(action.resources.threads_per_process, Some(2));
    assert_eq!(action.resources.gpus_per_process, Some(4));
}

#[test]
fn action_by_name() {
    let w = workflow_of(vec![named_action("b", "c"), named_action("d", "e")])
        .validate_and_set_defaults()
        .unwrap();
    assert_eq!(w.action_by_name("b").unwrap().command(), "c");
    assert_eq!(w.action_by_name("d").unwrap().command(), "e");
    assert!(w.action_by_name("f").is_none());
}
