use score_showcases::config::{parse, ExampleConfig, ProcessSpec};
use score_showcases::json::Json;
use score_showcases::runner::{exit_status, launch_plan, startup_delay, Launch, Outcome, Policy, Status, Tally};

fn outcome(index: usize, path: &str, status: Status) -> Outcome {
    Outcome { index, path: path.to_string(), status }
}

fn spec(path: &str, delay: Option<u64>) -> ProcessSpec {
    ProcessSpec { path: path.to_string(), dir: None, args: vec![], env: vec![], delay }
}

#[test]
fn fail_fast_stops_at_missing_executable() {
    let mut t = Tally::new(Policy::FailFast);
    assert!(t.record(outcome(1, "/bin/true", Status::Success)));
    assert!(!t.record(outcome(2, "/no/such/exe", Status::SpawnFailure)));
    assert!(!t.record(outcome(3, "/bin/true", Status::Success)));
    let r = t.finish();
    assert!(!r.overall_success);
    assert_eq!(r.outcomes.len(), 2);
    let failures: Vec<&Outcome> = r.outcomes.iter().filter(|o| o.status != Status::Success).collect();
    assert_eq!(failures.len(), 1);
    assert_eq!(failures[0].index, 2);
    assert_eq!(failures[0].status, Status::SpawnFailure);
}

#[test]
fn best_effort_collects_every_outcome() {
    let mut t = Tally::new(Policy::BestEffort);
    assert!(t.record(outcome(1, "/bin/true", Status::Success)));
    assert!(t.record(outcome(2, "/bin/false", exit_status(Some(1)))));
    assert!(t.record(outcome(3, "/bin/true", Status::Success)));
    let r = t.finish();
    assert_eq!(r.outcomes.len(), 3);
    assert_eq!(r.outcomes[0].status, Status::Success);
    assert_eq!(r.outcomes[1].status, Status::NonZeroExit { code: Some(1) });
    assert_eq!(r.outcomes[1].index, 2);
    assert_eq!(r.outcomes[2].status, Status::Success);
    assert!(!r.overall_success);
}

#[test]
fn demo_example_runs_successfully_under_both_policies() {
    let doc = Json::Object(vec![
        ("name".to_string(), Json::Str("demo".to_string())),
        ("description".to_string(), Json::Str("d".to_string())),
        (
            "apps".to_string(),
            Json::Array(vec![Json::Object(vec![
                ("path".to_string(), Json::Str("/bin/true".to_string())),
                ("args".to_string(), Json::Array(vec![])),
                ("env".to_string(), Json::Object(vec![])),
                ("delay".to_string(), Json::Unsigned(0)),
            ])]),
        ),
    ]);
    let c = parse(&doc).unwrap();
    assert_eq!(launch_plan(&c), vec![Launch { index: 1, sleep: None }]);
    for policy in [Policy::FailFast, Policy::BestEffort] {
        let mut t = Tally::new(policy);
        for l in launch_plan(&c) {
            let p = &c.processes[l.index - 1];
            t.record(outcome(l.index, &p.path, exit_status(Some(0))));
        }
        let r = t.finish();
        assert!(r.overall_success);
        assert_eq!(r.outcomes.len(), 1);
        assert_eq!(r.outcomes[0].index, 1);
        assert_eq!(r.outcomes[0].status, Status::Success);
    }
}

#[test]
fn each_start_sleeps_its_own_delay() {
    let c = ExampleConfig {
        name: "d".to_string(),
        description: String::new(),
        processes: vec![spec("/a", Some(2)), spec("/b", None), spec("/c", Some(0)), spec("/d", Some(5))],
    };
    assert_eq!(
        launch_plan(&c),
        vec![
            Launch { index: 1, sleep: Some(2) },
            Launch { index: 2, sleep: None },
            Launch { index: 3, sleep: None },
            Launch { index: 4, sleep: Some(5) },
        ]
    );
    assert_eq!(startup_delay(&spec("/a", Some(2))), Some(2));
    assert_eq!(startup_delay(&spec("/a", Some(0))), None);
}

#[test]
fn exit_codes_map_to_statuses() {
    assert_eq!(exit_status(Some(0)), Status::Success);
    assert_eq!(exit_status(Some(1)), Status::NonZeroExit { code: Some(1) });
    assert_eq!(exit_status(None), Status::NonZeroExit { code: None });
}

#[test]
fn empty_tally_is_a_success() {
    let r = Tally::new(Policy::FailFast).finish();
    assert!(r.overall_success);
    assert!(r.outcomes.is_empty());
}

#[test]
fn fail_fast_flag_selects_policy() {
    assert_eq!(Policy::from_fail_fast(true), Policy::FailFast);
    assert_eq!(Policy::from_fail_fast(false), Policy::BestEffort);
}

#[test]
fn wait_failure_stops_fail_fast() {
    let mut t = Tally::new(Policy::FailFast);
    assert!(!t.record(outcome(1, "/bin/x", Status::WaitFailure)));
    assert!(!t.finish().overall_success);
}
