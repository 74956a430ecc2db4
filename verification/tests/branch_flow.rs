use thingy::branch::{BranchActor, BranchDetails, BuildDetails, BuildStatus, initial_counter};
use thingy::json::{emit_branch_details, parse_branch_details};
use thingy::models::Job;

fn sample_job() -> Job {
    Job {
        name: "job1".to_string(),
        repo_url: "https://example.invalid/repo.git".to_string(),
        build_script: "build.sh".to_string(),
        poll_interval_seconds: Some(60),
        branch: None,
        branches: None,
        ignore_branches: None,
        auth: None,
    }
}

#[test]
fn fresh_branch_single_build_two_polls() {
    // A fresh branch directory: no counter file, no data file.
    let counter = initial_counter(None);
    assert_eq!(counter, 0);
    let mut actor = BranchActor::recover(sample_job(), "main".to_string(), counter, None);

    // First commit: a build is reserved, the checkout succeeds, the
    // record is appended in building status.
    let bn = actor
        .handle_new_commit(&"abc".to_string())
        .expect("a new commit must start a build");
    assert_eq!(bn, 1);
    actor.record_build(bn, Some("abc".to_string()), true);
    assert_eq!(actor.counter, 1);
    assert!(actor.has_live_build(1));
    let details = actor.handle_get_details();
    assert_eq!(details.last_seen_commit, Some("abc".to_string()));
    assert_eq!(details.builds.len(), 1);
    assert_eq!(details.builds[0].build_num, 1);
    assert_eq!(details.builds[0].status, BuildStatus::Building);

    // The build script exits 0: the record resolves to finished and the
    // live worker is gone.
    actor.handle_build_stopped(1, BuildStatus::Finished);
    assert!(!actor.has_live_build(1));
    let details = actor.handle_get_details();
    assert_eq!(details.builds[0].status, BuildStatus::Finished);
    assert_eq!(details.builds[0].commit_hash, Some("abc".to_string()));

    // Second poll with the same hash is a no-op.
    let again = actor.handle_new_commit(&"abc".to_string());
    assert_eq!(again, None);
    assert_eq!(actor.counter, 1);
    assert_eq!(actor.handle_get_details().builds.len(), 1);
}

#[test]
fn new_commit_triggers_second_build() {
    let state = BranchDetails {
        last_seen_commit: Some("abc".to_string()),
        builds: vec![BuildDetails {
            build_num: 1,
            commit_hash: Some("abc".to_string()),
            status: BuildStatus::Finished,
        }],
    };
    let mut actor = BranchActor::recover(sample_job(), "main".to_string(), 1, Some(state));
    let bn = actor
        .handle_new_commit(&"def".to_string())
        .expect("a changed head must start a build");
    assert_eq!(bn, 2);
    assert_eq!(actor.counter, 2);
    actor.record_build(bn, Some("def".to_string()), true);
    let details = actor.handle_get_details();
    assert_eq!(details.last_seen_commit, Some("def".to_string()));
    assert_eq!(details.builds.len(), 2);
    assert_eq!(details.builds[1].build_num, 2);
    assert_eq!(details.builds[1].status, BuildStatus::Building);
}

#[test]
fn force_build_keeps_last_seen() {
    let state = BranchDetails {
        last_seen_commit: Some("abc".to_string()),
        builds: vec![BuildDetails {
            build_num: 1,
            commit_hash: Some("abc".to_string()),
            status: BuildStatus::Finished,
        }],
    };
    let mut actor = BranchActor::recover(sample_job(), "main".to_string(), 1, Some(state));
    let bn = actor.handle_build_now();
    assert_eq!(bn, 2);
    actor.record_build(bn, None, true);
    let details = actor.handle_get_details();
    assert_eq!(details.last_seen_commit, Some("abc".to_string()));
    assert_eq!(details.builds[1].commit_hash, None);
    assert_eq!(details.builds[1].status, BuildStatus::Building);
    actor.handle_build_stopped(bn, BuildStatus::Finished);
    assert_eq!(actor.handle_get_details().builds[1].status, BuildStatus::Finished);
}

#[test]
fn failed_clone_leaves_no_live_build() {
    let mut actor = BranchActor::recover(sample_job(), "main".to_string(), 0, None);
    let bn = actor.handle_new_commit(&"abc".to_string()).unwrap();
    actor.record_build(bn, Some("abc".to_string()), false);
    assert!(!actor.has_live_build(bn));
    let details = actor.handle_get_details();
    assert_eq!(details.builds.len(), 1);
    assert_eq!(details.builds[0].status, BuildStatus::Building);
    assert_eq!(details.last_seen_commit, Some("abc".to_string()));
}

#[test]
fn restart_recovers_exact_state() {
    let mut actor = BranchActor::recover(sample_job(), "main".to_string(), 0, None);
    let bn = actor.handle_new_commit(&"abc".to_string()).unwrap();
    actor.record_build(bn, Some("abc".to_string()), true);
    actor.handle_build_stopped(bn, BuildStatus::Error);
    let bn2 = actor.handle_build_now();
    actor.record_build(bn2, None, true);

    // Persist, then rebuild a worker from the persisted text and the
    // counter file contents, as a restart would.
    let data = emit_branch_details(&actor.state);
    let counter_text = thingy::text::format_u64(actor.counter);
    let reread = parse_branch_details(data.as_str()).expect("own data file must parse");
    let counter = initial_counter(Some(&counter_text));
    assert_eq!(counter, actor.counter);
    let restarted = BranchActor::recover(sample_job(), "main".to_string(), counter, Some(reread));
    assert_eq!(restarted.state, actor.state);
    assert_eq!(restarted.counter, actor.counter);
    assert_eq!(restarted.live_builds.len(), 0);
}

#[test]
fn tampered_counter_falls_back_to_empty_history() {
    // A counter below the recorded build numbers is incoherent; the
    // history is dropped but the counter is kept.
    let state = BranchDetails {
        last_seen_commit: None,
        builds: vec![BuildDetails { build_num: 7, commit_hash: None, status: BuildStatus::Finished }],
    };
    let actor = BranchActor::recover(sample_job(), "main".to_string(), 2, Some(state));
    assert_eq!(actor.handle_get_details().builds.len(), 0);
    assert_eq!(actor.counter, 2);
}

#[test]
fn log_pagination_over_a_hundred_lines() {
    let state = BranchDetails {
        last_seen_commit: Some("abc".to_string()),
        builds: vec![BuildDetails {
            build_num: 1,
            commit_hash: Some("abc".to_string()),
            status: BuildStatus::Finished,
        }],
    };
    let actor = BranchActor::recover(sample_job(), "main".to_string(), 1, Some(state));
    let mut lines: Vec<String> = Vec::new();
    for i in 0..100u32 {
        let tag = if i % 2 == 0 { "[out]" } else { "[err]" };
        lines.push(format!("{} line {}", tag, i));
    }

    let first = actor.handle_get_log(1, Some(&lines), 0, 10);
    assert_eq!(first.lines.len(), 10);
    assert_eq!(first.lines[0], "[out] line 0".to_string());
    assert!(first.has_more);
    assert_eq!(first.status, Some("finished".to_string()));

    let last = actor.handle_get_log(1, Some(&lines), 95, 10);
    assert_eq!(last.lines.len(), 5);
    assert_eq!(last.lines[4], "[err] line 99".to_string());
    assert!(!last.has_more);
    assert_eq!(last.status, Some("finished".to_string()));

    // The exact window boundary: ten remaining lines and ten asked for
    // means nothing follows the window.
    let edge = actor.handle_get_log(1, Some(&lines), 90, 10);
    assert_eq!(edge.lines.len(), 10);
    assert!(!edge.has_more);

    // A build number without a record reports no status.
    let other = actor.handle_get_log(2, Some(&lines), 0, 1);
    assert_eq!(other.status, None);

    // A missing log file reads as empty.
    let missing = actor.handle_get_log(1, None, 0, 10);
    assert_eq!(missing.lines.len(), 0);
    assert!(!missing.has_more);
    assert_eq!(missing.status, None);
}

#[test]
fn get_log_is_idempotent_for_a_settled_build() {
    let state = BranchDetails {
        last_seen_commit: None,
        builds: vec![BuildDetails { build_num: 3, commit_hash: None, status: BuildStatus::Error }],
    };
    let actor = BranchActor::recover(sample_job(), "main".to_string(), 3, Some(state));
    let lines: Vec<String> = vec!["a".to_string(), "b".to_string(), "c".to_string()];
    let one = actor.handle_get_log(3, Some(&lines), 1, 5);
    let two = actor.handle_get_log(3, Some(&lines), 1, 5);
    assert_eq!(one.lines, two.lines);
    assert_eq!(one.has_more, two.has_more);
    assert_eq!(one.status, two.status);
}
