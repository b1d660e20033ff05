use forgejo_actions_orchestrator::alert::{post, Alerts, Kind, REPEAT_AFTER};
use forgejo_actions_orchestrator::json::Json;

#[test]
fn first_failure_warns_and_repeats_escalate() {
    let mut alerts = Alerts::new();
    let first = alerts.raise(Kind::SweepFailed, "box-1", "boom", 5);
    assert_eq!(alerts.count(Kind::SweepFailed, "box-1"), 1);
    assert!(first.post);
    let second = alerts.raise(Kind::SweepFailed, "box-1", "boom", 6);
    assert_eq!(alerts.count(Kind::SweepFailed, "box-1"), 2);
    assert!(!second.post);
    assert_eq!(second.elapsed, 1);
}

#[test]
fn success_clears_the_streak() {
    let mut alerts = Alerts::new();
    alerts.raise(Kind::SweepFailed, "box-1", "boom", 0);
    alerts.clear(Kind::SweepFailed, "box-1");
    assert!(alerts.is_empty());
    assert!(alerts.raise(Kind::SweepFailed, "box-1", "boom", 1).post);
}

#[test]
fn streaks_are_tracked_per_subject() {
    let mut alerts = Alerts::new();
    alerts.raise(Kind::SweepFailed, "box-1", "boom", 0);
    alerts.raise(Kind::SweepFailed, "box-2", "boom", 0);
    alerts.raise(Kind::PollFailed, "box-1", "boom", 0);
    assert_eq!(alerts.count(Kind::SweepFailed, "box-1"), 1);
    assert_eq!(alerts.count(Kind::SweepFailed, "box-2"), 1);
    assert_eq!(alerts.count(Kind::PollFailed, "box-1"), 1);
    assert_eq!(alerts.count(Kind::Abandoned, "box-1"), 0);
}

#[test]
fn a_long_streak_is_told_of_again() {
    let mut alerts = Alerts::new();
    alerts.raise(Kind::Abandoned, "box-1", "boom", 0);
    assert!(!alerts.raise(Kind::Abandoned, "box-1", "boom", REPEAT_AFTER - 1).post);
    let told = alerts.raise(Kind::Abandoned, "box-1", "boom", REPEAT_AFTER);
    assert!(told.post);
    assert_eq!(told.count, 3);
    assert!(
        !alerts.raise(Kind::Abandoned, "box-1", "boom", REPEAT_AFTER + 1).post,
        "the quiet starts anew"
    );
}

#[test]
fn a_post_names_the_streak() {
    let mut alerts = Alerts::new();
    let raised = alerts.raise(Kind::CreateFailed, "H1", "no room", 0);
    match post(&raised) {
        Json::Object(fields) => {
            let shown: Vec<String> = fields
                .iter()
                .map(|(key, value)| format!("{key}={value:?}"))
                .collect();
            assert_eq!(
                shown,
                vec![
                    "kind=Text(\"create_failed\")",
                    "subject=Text(\"H1\")",
                    "detail=Text(\"no room\")",
                    "consecutive=Unsigned(1)",
                ]
            );
        }
        other => panic!("{other:?}"),
    }
}
