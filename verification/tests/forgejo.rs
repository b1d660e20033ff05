use forgejo_actions_orchestrator::config::Repo;
use forgejo_actions_orchestrator::forgejo::{
    confirmed, expect_success, require_ephemeral, runner_deleted, sha_from, status_target_sha, truncate,
    undecoded, Client, Registration, Run, Runner, StatusState,
};
use forgejo_actions_orchestrator::http::{Method, Payload, Reply};
use forgejo_actions_orchestrator::json::Json;

fn run(event: &str, payload: &str) -> Run {
    Run {
        event: event.into(),
        trigger_event: String::new(),
        is_fork_pull_request: false,
        commit_sha: Some("run-commit".into()),
        event_payload: Some(payload.into()),
        html_url: None,
    }
}

fn named(event: &str, trigger_event: &str) -> Run {
    Run {
        event: event.into(),
        trigger_event: trigger_event.into(),
        is_fork_pull_request: false,
        commit_sha: None,
        event_payload: None,
        html_url: None,
    }
}

fn runner(ephemeral: bool) -> Runner {
    Runner {
        id: 7,
        name: "check-1".into(),
        ephemeral,
    }
}

fn repo() -> Repo {
    Repo {
        owner: "acme".into(),
        name: "widgets".into(),
    }
}

fn client() -> Client {
    Client::new("https://git.example.org//", "runner-tok".into(), "status-tok".into())
}

fn reply(code: u16, status: &str, body: &str) -> Reply {
    Reply {
        code,
        status: status.into(),
        body: body.into(),
    }
}

#[test]
fn a_runner_the_server_reports_as_ephemeral_is_accepted() {
    assert!(require_ephemeral(&runner(true), "check-1").is_ok());
}

#[test]
fn a_runner_that_is_not_ephemeral_refuses_to_boot() {
    let error = require_ephemeral(&runner(false), "check-1").unwrap_err();
    assert!(error.contains("check-1"), "got {error}");
    assert!(error.contains("7"), "got {error}");
    assert!(error.contains("not ephemeral"), "got {error}");
}

#[test]
fn a_registration_stands_only_for_an_ephemeral_runner() {
    let registration = || Registration {
        id: 7,
        uuid: "u-1".into(),
        token: "tok".into(),
    };
    assert_eq!(confirmed(registration(), &runner(true), "check-1").unwrap().id, 7);
    let error = confirmed(registration(), &runner(false), "check-1").unwrap_err();
    assert!(error.contains("not ephemeral"), "got {error}");
}

#[test]
fn takes_the_pull_request_head_not_the_run_commit() {
    let run = run(
        "pull_request",
        r#"{"pull_request":{"head":{"sha":"head-sha"}}}"#,
    );
    assert_eq!(status_target_sha(&run).as_deref(), Some("head-sha"));
}

#[test]
fn takes_the_head_commit_for_a_push() {
    let run = run("push", r#"{"head_commit":{"id":"push-sha"}}"#);
    assert_eq!(status_target_sha(&run).as_deref(), Some("push-sha"));
}

#[test]
fn falls_back_to_the_run_commit_for_other_events() {
    let run = run("workflow_dispatch", "{}");
    assert_eq!(status_target_sha(&run).as_deref(), Some("run-commit"));
}

#[test]
fn has_no_sha_when_there_is_nothing_to_use() {
    let mut run = run("workflow_dispatch", "{}");
    run.commit_sha = None;
    assert_eq!(status_target_sha(&run), None);
}

#[test]
fn an_unreadable_payload_leaves_no_commit() {
    assert_eq!(status_target_sha(&run("push", "not json")), None);
    assert_eq!(status_target_sha(&run("workflow_dispatch", "not json")), None);
    let mut absent = run("push", "{}");
    absent.event_payload = None;
    assert_eq!(status_target_sha(&absent), None);
}

#[test]
fn a_payload_without_the_commit_falls_back() {
    assert_eq!(
        status_target_sha(&run("push", r#"{"head_commit":{"id":5}}"#)).as_deref(),
        Some("run-commit")
    );
    assert_eq!(
        status_target_sha(&run("pull_request_sync", r#"[{"pull_request":1}]"#)).as_deref(),
        Some("run-commit")
    );
}

#[test]
fn the_commit_comes_from_what_was_found() {
    let push = run("push", "{}");
    assert_eq!(sha_from(&push, None), None);
    assert_eq!(sha_from(&push, Some(None)).as_deref(), Some("run-commit"));
    assert_eq!(sha_from(&push, Some(Some("s".into()))).as_deref(), Some("s"));
    let other = run("release", "{}");
    assert_eq!(
        sha_from(&other, Some(Some("s".into()))).as_deref(),
        Some("run-commit")
    );
}

#[test]
fn a_push_run_reports_its_event() {
    assert_eq!(named("push", "push").triggering_event(), "push");
}

#[test]
fn a_manual_dispatch_names_itself_only_in_trigger_event() {
    assert_eq!(
        named("", "workflow_dispatch").triggering_event(),
        "workflow_dispatch",
        "reading only `event` refuses every manually dispatched run"
    );
}

#[test]
fn a_scheduled_run_is_not_mistaken_for_a_push() {
    assert_eq!(
        named("push", "schedule").triggering_event(),
        "schedule",
        "a cron run must not spend a push allowance"
    );
}

#[test]
fn a_pull_request_synchronize_stays_a_pull_request() {
    assert_eq!(
        named("pull_request", "pull_request_sync").triggering_event(),
        "pull_request",
        "Forgejo normalizes PR sub-events; allowed_events lists the normalized name"
    );
}

#[test]
fn truncates_long_descriptions() {
    assert_eq!(truncate("abcdef", 3), "abc…");
    assert_eq!(truncate("ab", 3), "ab");
    assert_eq!(truncate("äöü", 3), "äöü");
}

#[test]
fn asks_for_the_jobs_of_a_repository() {
    let call = client().waiting_jobs(&repo(), &["build".to_string(), "check".to_string()]);
    assert_eq!(call.method, Method::Get);
    assert_eq!(
        call.url,
        "https://git.example.org/api/v1/repos/acme/widgets/actions/runners/jobs"
    );
    assert_eq!(call.query, vec![("labels".to_string(), "build,check".to_string())]);
    assert_eq!(
        call.credential,
        ("Authorization".to_string(), "token runner-tok".to_string())
    );
}

#[test]
fn asks_for_runs_and_runners() {
    let api = "https://git.example.org/api/v1/repos/acme/widgets";
    assert_eq!(client().run(&repo(), -3).url, format!("{api}/actions/runs/-3"));
    assert_eq!(client().runner(&repo(), 7).url, format!("{api}/actions/runners/7"));
    let deletion = client().delete_runner(&repo(), 7);
    assert_eq!(deletion.url, format!("{api}/actions/runners/7"));
    assert_eq!(deletion.method, Method::Delete);
    let listing = client().runners(&repo());
    assert_eq!(listing.query, vec![("limit".to_string(), "100".to_string())]);
}

#[test]
fn registers_an_ephemeral_runner() {
    let call = client().register_runner(&repo(), "ci-orc-check-h1");
    assert_eq!(call.method, Method::Post);
    match call.payload {
        Payload::Json(Json::Object(fields)) => {
            assert_eq!(fields.len(), 2);
            assert_eq!(fields[0].0, "name");
            assert!(matches!(&fields[0].1, Json::Text(name) if name == "ci-orc-check-h1"));
            assert_eq!(fields[1].0, "ephemeral");
            assert!(matches!(fields[1].1, Json::Bool(true)));
        }
        other => panic!("{other:?}"),
    }
}

#[test]
fn posts_a_shortened_status_with_the_other_token() {
    let long = "x".repeat(150);
    let call = client().set_status(&repo(), "abc", StatusState::Pending, "ctx", &long, None);
    assert_eq!(
        call.url,
        "https://git.example.org/api/v1/repos/acme/widgets/statuses/abc"
    );
    assert_eq!(call.credential.1, "token status-tok");
    match call.payload {
        Payload::Json(Json::Object(fields)) => {
            assert!(matches!(&fields[0].1, Json::Text(state) if state == "pending"));
            assert!(matches!(&fields[2].1, Json::Text(text) if *text == "x".repeat(100) + "…"));
            assert!(matches!(&fields[3].1, Json::Text(url) if url.is_empty()));
        }
        other => panic!("{other:?}"),
    }
}

#[test]
fn a_refused_request_is_told_with_its_body() {
    assert!(expect_success(&reply(204, "204 No Content", ""), "x").is_ok());
    assert_eq!(
        expect_success(&reply(403, "403 Forbidden", "no"), "polling jobs").unwrap_err(),
        "polling jobs: HTTP 403 Forbidden: no"
    );
    assert_eq!(undecoded(&reply(200, "200 OK", "<html>"), "x"), "x: decoding <html>");
}

#[test]
fn a_runner_that_is_gone_is_deleted() {
    assert!(runner_deleted(&reply(404, "404 Not Found", "")).is_ok());
    assert!(runner_deleted(&reply(204, "204 No Content", "")).is_ok());
    assert_eq!(
        runner_deleted(&reply(500, "500 Internal Server Error", "boom")).unwrap_err(),
        "deleting runner: HTTP 500 Internal Server Error: boom"
    );
}
