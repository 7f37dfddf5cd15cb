//! Tests of the state store and the project operations over it.

use row::project::{Project, Status};
use row::scheduler::bash::ActiveBashJobs;
use row::scheduler::slurm::{parse_active_jobs, parse_job_id, squeue_jobs_argument};
use row::state::State;
use row::value::Value;
use row::workflow::{
    Action, Comparison, Condition, DefaultTables, Group, Selector, Workflow, Workspace,
};

fn named_action(name: &str, command: &str) -> Action {
    Action {
        name: Some(name.to_string()),
        command: Some(command.to_string()),
        ..Action::default()
    }
}

/// A project over directories `dir0..dirN-1`, each valued `{"v": i, "j": (n - 1 - i) / 2}`.
fn project(n: i64, actions: Vec<Action>) -> Project {
    let mut state = State::new();
    for i in 0..n {
        state.values.push((
            format!("dir{}", i),
            Value::Object(vec![
                ("v".to_string(), Value::Int(i)),
                ("j".to_string(), Value::Int((n - 1 - i) / 2)),
            ]),
        ));
    }
    let workflow = Workflow {
        root: "/project".to_string(),
        workspace: Workspace::default(),
        default: DefaultTables::default(),
        action: actions,
    }
    .validate_and_set_defaults()
    .unwrap();
    Project::new(workflow, state, "none".to_string())
}

fn all_directories(p: &Project) -> Vec<String> {
    let mut v = p.state().list_directories();
    v.sort();
    v
}

#[test]
fn new_submitted() {
    let mut state = State::new();
    state.values.push(("dir1".to_string(), Value::Null));
    state.values.push(("dir2".to_string(), Value::Null));
    state.add_submitted("b", &vec!["dir1".to_string()], "cluster1", 11);
    state.add_submitted("e", &vec!["dir2".to_string()], "cluster2", 13);

    assert!(state.is_submitted("b", "dir1"));
    assert!(!state.is_submitted("b", "dir2"));
    assert!(!state.is_submitted("e", "dir1"));
    assert!(state.is_submitted("e", "dir2"));
    assert!(state.submitted_modified);
}

#[test]
fn jobs_submitted_on() {
    let mut state = State::new();
    state.add_submitted(
        "b",
        &vec!["dir1".to_string(), "dir5".to_string()],
        "cluster1",
        11,
    );
    state.add_submitted(
        "b",
        &vec!["dir3".to_string(), "dir4".to_string()],
        "cluster2",
        12,
    );
    state.add_submitted(
        "e",
        &vec!["dir6".to_string(), "dir7".to_string()],
        "cluster2",
        13,
    );
    assert_eq!(state.jobs_submitted_on("cluster1"), vec![11]);
    let mut on_cluster2 = state.jobs_submitted_on("cluster2");
    on_cluster2.sort();
    assert_eq!(on_cluster2, vec![12, 13]);
    assert!(state.jobs_submitted_on("cluster3").is_empty());
}

#[test]
fn remove_inactive() {
    let mut state = State::new();
    state.add_submitted(
        "b",
        &vec!["dir1".to_string(), "dir5".to_string()],
        "cluster1",
        11,
    );
    state.add_submitted(
        "b",
        &vec!["dir3".to_string(), "dir4".to_string()],
        "cluster2",
        12,
    );
    state.add_submitted(
        "e",
        &vec!["dir6".to_string(), "dir7".to_string()],
        "cluster2",
        13,
    );

    state.remove_inactive_submitted("cluster2", &vec![13]);
    assert!(state.is_submitted("b", "dir1"));
    assert!(state.is_submitted("b", "dir5"));
    assert!(!state.is_submitted("b", "dir3"));
    assert!(!state.is_submitted("b", "dir4"));
    assert!(state.is_submitted("e", "dir6"));
    assert!(state.is_submitted("e", "dir7"));

    state.remove_inactive_submitted("cluster1", &Vec::new());
    assert!(!state.is_submitted("b", "dir1"));
    assert!(!state.is_submitted("b", "dir5"));
}

#[test]
fn find_completed() {
    let mut one = named_action("one", "c");
    one.products = Some(vec!["1".to_string()]);
    let mut two = named_action("two", "c");
    two.products = Some(vec!["2".to_string()]);
    let mut three = named_action("three", "c");
    three.products = Some(vec!["3".to_string(), "4".to_string()]);
    let actions = vec![one, two, three];

    let listings = vec![
        ("dir1".to_string(), vec!["1".to_string()]),
        ("dir2".to_string(), vec!["2".to_string()]),
        ("dir3".to_string(), vec!["1".to_string(), "2".to_string()]),
        ("dir4".to_string(), vec!["3".to_string(), "4".to_string()]),
        ("dir5".to_string(), vec!["3".to_string()]),
    ];
    let pack = row::workspace::find_completed_directories(&actions, &listings);

    let of = |name: &str| -> Vec<String> {
        pack.iter()
            .find(|e| e.0 == name)
            .map(|e| e.1.clone())
            .unwrap_or_default()
    };
    assert_eq!(of("one"), vec!["dir1", "dir3"]);
    assert_eq!(of("two"), vec!["dir2", "dir3"]);
    assert_eq!(of("three"), vec!["dir4"]);
    assert!(pack.iter().all(|e| e.0 != "four"));
}

#[test]
fn completed_keys_for_every_action() {
    // A loaded state gets one completed key per workflow action; existing
    // entries are kept.
    let mut state = State::new();
    state
        .completed
        .push(("one".to_string(), vec!["dir0".to_string()]));
    let actions = vec![named_action("one", "c"), named_action("two", "c")];
    state.ensure_completed_keys(&actions);

    let of = |name: &str| -> Option<Vec<String>> {
        state
            .completed
            .iter()
            .find(|e| e.0 == name)
            .map(|e| e.1.clone())
    };
    assert_eq!(of("one"), Some(vec!["dir0".to_string()]));
    assert_eq!(of("two"), Some(Vec::new()));
    assert_eq!(of("three"), None);
}

#[test]
fn staged_completion_merge() {
    // The main cache already holds dirC; two staged packs add dirA and dirB.
    let mut state = State::new();
    state
        .completed
        .push(("action_x".to_string(), vec!["dirC".to_string()]));
    state.insert_staged_completed(&vec![("action_x".to_string(), vec!["dirA".to_string()])]);
    state.insert_staged_completed(&vec![("action_x".to_string(), vec!["dirB".to_string()])]);

    let entry = state.completed.iter().find(|e| e.0 == "action_x").unwrap();
    let mut dirs = entry.1.clone();
    dirs.sort();
    assert_eq!(dirs, vec!["dirA", "dirB", "dirC"]);
}

#[test]
fn staged_completion_idempotent() {
    // Merging the same pack twice changes nothing the second time.
    let pack = vec![("one".to_string(), vec!["dirA".to_string(), "dirB".to_string()])];
    let mut state = State::new();
    state.insert_staged_completed(&pack);
    let once = state.completed.clone();
    state.insert_staged_completed(&pack);
    assert_eq!(state.completed, once);
}

#[test]
fn project_status() {
    let mut actions = vec![named_action("one", "c"), named_action("two", "c")];
    actions[1].previous_actions = Some(vec!["one".to_string()]);
    let mut p = project(8, actions);
    // one: dir0..dir3 completed; dir4 submitted.
    p.state
        .completed
        .push(("one".to_string(), vec![
            "dir0".to_string(),
            "dir1".to_string(),
            "dir2".to_string(),
            "dir3".to_string(),
        ]));
    p.state
        .add_submitted("one", &vec!["dir4".to_string()], "none", 7);

    let all = all_directories(&p);
    let action = p.workflow.action[0].clone();
    let status: Status = p.separate_by_status(&action, all.clone()).unwrap();
    assert_eq!(status.completed, vec!["dir0", "dir1", "dir2", "dir3"]);
    assert_eq!(status.submitted, vec!["dir4"]);
    assert_eq!(status.eligible, vec!["dir5", "dir6", "dir7"]);
    assert!(status.waiting.is_empty());

    // two: waits on one.
    let action = p.workflow.action[1].clone();
    let status = p.separate_by_status(&action, all.clone()).unwrap();
    assert!(status.completed.is_empty());
    assert!(status.submitted.is_empty());
    assert_eq!(status.eligible, vec!["dir0", "dir1", "dir2", "dir3"]);
    assert_eq!(status.waiting, vec!["dir4", "dir5", "dir6", "dir7"]);
}

#[test]
fn eligible_without_previous_actions() {
    // An action with no previous actions: every directory is eligible unless
    // completed.
    let mut p = project(4, vec![named_action("one", "c")]);
    p.state
        .completed
        .push(("one".to_string(), vec!["dir0".to_string()]));
    let all = all_directories(&p);
    let action = p.workflow.action[0].clone();
    let status = p.separate_by_status(&action, all).unwrap();
    assert_eq!(status.completed, vec!["dir0"]);
    assert!(status.submitted.is_empty());
    assert_eq!(status.eligible, vec!["dir1", "dir2", "dir3"]);
    assert!(status.waiting.is_empty());
}

#[test]
fn matching() {
    let p = project(8, vec![named_action("one", "c")]);
    let all = all_directories(&p);

    // No selectors: everything matches.
    let action = p.workflow.action[0].clone();
    assert_eq!(p.find_matching_directories(&action, all.clone()).unwrap(), all);

    // A conjunction: 3 < v < 6.
    let mut action = p.workflow.action[0].clone();
    action.group.included = Some(vec![Selector::All(vec![
        Condition {
            pointer: "/v".to_string(),
            comparison: Comparison::LessThan,
            value: Value::Int(6),
        },
        Condition {
            pointer: "/v".to_string(),
            comparison: Comparison::GreaterThan,
            value: Value::Int(3),
        },
    ])]);
    assert_eq!(
        p.find_matching_directories(&action, all.clone()).unwrap(),
        vec!["dir4", "dir5"]
    );

    // A disjunction of two single conditions.
    let mut action = p.workflow.action[0].clone();
    action.group.included = Some(vec![
        Selector::Condition(Condition {
            pointer: "/v".to_string(),
            comparison: Comparison::EqualTo,
            value: Value::Int(0),
        }),
        Selector::Condition(Condition {
            pointer: "/v".to_string(),
            comparison: Comparison::EqualTo,
            value: Value::Int(7),
        }),
    ]);
    assert_eq!(
        p.find_matching_directories(&action, all.clone()).unwrap(),
        vec!["dir0", "dir7"]
    );
}

#[test]
fn group() {
    let p = project(8, vec![named_action("one", "c")]);
    let all = all_directories(&p);
    let action = p.workflow.action[0].clone();
    let groups = p.separate_into_groups(&action, all.clone()).unwrap();
    assert_eq!(groups, vec![all]);
}

#[test]
fn group_reverse() {
    let p = project(8, vec![named_action("one", "c")]);
    let all = all_directories(&p);
    let mut reversed = all.clone();
    reversed.reverse();
    let mut action = p.workflow.action[0].clone();
    action.group.reverse_sort = Some(true);
    let groups = p.separate_into_groups(&action, all).unwrap();
    assert_eq!(groups, vec![reversed]);
}

#[test]
fn group_max_size() {
    let p = project(8, vec![named_action("one", "c")]);
    let all = all_directories(&p);
    let mut action = p.workflow.action[0].clone();
    action.group.maximum_size = Some(3);
    let groups = p.separate_into_groups(&action, all.clone()).unwrap();
    assert_eq!(
        groups,
        vec![
            all[0..3].to_vec(),
            all[3..6].to_vec(),
            all[6..8].to_vec()
        ]
    );
}

#[test]
fn group_sort() {
    let p = project(8, vec![named_action("one", "c")]);
    let all = all_directories(&p);
    let mut action = p.workflow.action[0].clone();
    action.group.sort_by = Some(vec!["/j".to_string()]);
    let groups = p.separate_into_groups(&action, all).unwrap();
    assert_eq!(
        groups,
        vec![vec![
            "dir6".to_string(),
            "dir7".to_string(),
            "dir4".to_string(),
            "dir5".to_string(),
            "dir2".to_string(),
            "dir3".to_string(),
            "dir0".to_string(),
            "dir1".to_string(),
        ]]
    );
}

#[test]
fn group_sort_and_split() {
    let p = project(8, vec![named_action("one", "c")]);
    let all = all_directories(&p);
    let mut action = p.workflow.action[0].clone();
    action.group.sort_by = Some(vec!["/j".to_string()]);
    action.group.split_by_sort_key = Some(true);
    let groups = p.separate_into_groups(&action, all).unwrap();
    assert_eq!(
        groups,
        vec![
            vec!["dir6".to_string(), "dir7".to_string()],
            vec!["dir4".to_string(), "dir5".to_string()],
            vec!["dir2".to_string(), "dir3".to_string()],
            vec!["dir0".to_string(), "dir1".to_string()],
        ]
    );
}

#[test]
fn group_split_all_equal_keys() {
    // Equal sort keys with split_by_sort_key: one group.
    let mut p = project(4, vec![named_action("one", "c")]);
    for e in p.state.values.iter_mut() {
        e.1 = Value::Object(vec![("j".to_string(), Value::Int(1))]);
    }
    let all = all_directories(&p);
    let mut action = p.workflow.action[0].clone();
    action.group.sort_by = Some(vec!["/j".to_string()]);
    action.group.split_by_sort_key = Some(true);
    let groups = p.separate_into_groups(&action, all.clone()).unwrap();
    assert_eq!(groups, vec![all]);
}

#[test]
fn group_empty() {
    let p = project(4, vec![named_action("one", "c")]);
    let action = p.workflow.action[0].clone();
    let groups = p.separate_into_groups(&action, Vec::new()).unwrap();
    assert!(groups.is_empty());
}

#[test]
fn bash_reports_no_active_jobs() {
    let deferred = ActiveBashJobs {};
    assert!(deferred.get().is_empty());
}

#[test]
fn squeue_zero_jobs() {
    // Zero jobs: no subprocess would be spawned at all.
    assert!(squeue_jobs_argument(&Vec::new()).is_none());
}

#[test]
fn squeue_arguments() {
    assert_eq!(squeue_jobs_argument(&vec![11]).unwrap(), "1,11,");
    assert_eq!(squeue_jobs_argument(&vec![11, 12]).unwrap(), "11,12,");
}

#[test]
fn active_jobs_parsing() {
    assert_eq!(parse_active_jobs(""), Some(Vec::new()));
    assert_eq!(parse_active_jobs("11\n12\n"), Some(vec![11, 12]));
    assert_eq!(parse_active_jobs("11\n11\n12"), Some(vec![11, 12]));
    assert_eq!(parse_active_jobs("11\nx\n"), None);
}

#[test]
fn job_id_parsing() {
    assert_eq!(parse_job_id("12345\n"), Some(12345));
    assert_eq!(parse_job_id("7"), Some(7));
    assert_eq!(parse_job_id("  \n"), None);
    assert_eq!(parse_job_id("12a45"), None);
    assert_eq!(parse_job_id("99999999999999"), None);
}
