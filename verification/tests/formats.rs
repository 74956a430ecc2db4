use thingy::branch::{BranchDetails, BuildDetails, BuildStatus, status_str};
use thingy::command::{format_log_line, parse_command, status_of_exit};
use thingy::json::{emit_branch_details, parse_branch_details};
use thingy::models::{GitAuth, Job, Workspace};
use thingy::root::Thingy;
use thingy::text::{format_u64, parse_u64, trim};
use thingy::yaml::{emit_workspace, parse_workspace_yaml};

fn sample_state() -> BranchDetails {
    BranchDetails {
        last_seen_commit: Some("abc".to_string()),
        builds: vec![
            BuildDetails {
                build_num: 1,
                commit_hash: Some("abc".to_string()),
                status: BuildStatus::Finished,
            },
            BuildDetails { build_num: 2, commit_hash: None, status: BuildStatus::Building },
        ],
    }
}

#[test]
fn data_json_has_the_exact_wire_form() {
    let text = emit_branch_details(&sample_state());
    let expected = "{\"last_seen_commit\":\"abc\",\"builds\":[\
{\"build_num\":1,\"commit_hash\":\"abc\",\"status\":\"finished\"},\
{\"build_num\":2,\"commit_hash\":null,\"status\":\"building\"}]}";
    assert_eq!(text, expected.to_string());

    let empty = BranchDetails { last_seen_commit: None, builds: vec![] };
    assert_eq!(
        emit_branch_details(&empty),
        "{\"last_seen_commit\":null,\"builds\":[]}".to_string()
    );
}

#[test]
fn data_json_round_trips() {
    let state = sample_state();
    let text = emit_branch_details(&state);
    let back = parse_branch_details(text.as_str()).expect("emitted text must parse");
    assert_eq!(back, state);

    let empty = BranchDetails { last_seen_commit: None, builds: vec![] };
    let back = parse_branch_details(emit_branch_details(&empty).as_str()).unwrap();
    assert_eq!(back, empty);
}

#[test]
fn data_json_escapes_are_decoded() {
    let odd = BranchDetails {
        last_seen_commit: Some("a\"b\\c\nd\te\r".to_string()),
        builds: vec![],
    };
    let text = emit_branch_details(&odd);
    assert_eq!(
        text,
        "{\"last_seen_commit\":\"a\\\"b\\\\c\\nd\\te\\r\",\"builds\":[]}".to_string()
    );
    let back = parse_branch_details(text.as_str()).unwrap();
    assert_eq!(back, odd);
}

#[test]
fn data_json_rejects_foreign_texts() {
    assert_eq!(parse_branch_details(""), None);
    assert_eq!(parse_branch_details("{}"), None);
    assert_eq!(parse_branch_details("{\"last_seen_commit\":null,\"builds\":[]} "), None);
    assert_eq!(
        parse_branch_details("{\"last_seen_commit\":null,\"builds\":[{\"build_num\":x}]}"),
        None
    );
}

#[test]
fn data_json_is_valid_json_for_an_outside_reader() {
    let text = emit_branch_details(&sample_state());
    let v: serde_json::Value = serde_json::from_str(text.as_str()).expect("valid JSON");
    assert_eq!(v["last_seen_commit"], serde_json::Value::String("abc".to_string()));
    assert_eq!(v["builds"][0]["build_num"], serde_json::Value::from(1u64));
    assert_eq!(v["builds"][1]["status"], serde_json::Value::String("building".to_string()));
}

fn full_job() -> Job {
    Job {
        name: "job1".to_string(),
        repo_url: "https://example.invalid/repo.git".to_string(),
        build_script: "ci/build.sh --fast".to_string(),
        poll_interval_seconds: Some(30),
        branch: None,
        branches: Some(vec!["main".to_string(), "dev".to_string()]),
        ignore_branches: Some(vec![]),
        auth: Some(GitAuth::PrivateKey {
            path: "/home/ci/.ssh/id".to_string(),
            passphrase: Some("SECRET-REDACTED".to_string()),
        }),
    }
}

#[test]
fn workspace_yaml_has_the_exact_wire_form() {
    let ws = Workspace { jobs: vec![full_job()] };
    let text = emit_workspace(&ws);
    let expected = "jobs:\n  - name: \"job1\"\n    repo_url: \"https://example.invalid/repo.git\"\n    build_script: \"ci/build.sh --fast\"\n    poll_interval_seconds: 30\n    branch: null\n    branches:\n      - \"main\"\n      - \"dev\"\n    ignore_branches: []\n    auth:\n      PrivateKey:\n        path: \"/home/ci/.ssh/id\"\n        passphrase: \"SECRET-REDACTED\"\n";
    assert_eq!(text, expected.to_string());

    let empty = Workspace { jobs: vec![] };
    assert_eq!(emit_workspace(&empty), "jobs: []\n".to_string());
}

#[test]
fn workspace_yaml_round_trips() {
    let mut other = full_job();
    other.name = "job2".to_string();
    other.poll_interval_seconds = None;
    other.branch = Some("release".to_string());
    other.branches = None;
    other.ignore_branches = None;
    other.auth = Some(GitAuth::UserPass {
        username: "ci".to_string(),
        password: "SECRET-REDACTED".to_string(),
    });
    let ws = Workspace { jobs: vec![full_job(), other] };
    let text = emit_workspace(&ws);
    let back = parse_workspace_yaml(text.as_str()).expect("own file must parse");
    assert_eq!(back, ws.jobs);

    let empty = Workspace { jobs: vec![] };
    let back = parse_workspace_yaml(emit_workspace(&empty).as_str()).unwrap();
    assert_eq!(back, Vec::<Job>::new());
}

#[test]
fn workspace_yaml_survives_job_changes() {
    let ws = Workspace { jobs: vec![full_job()] };
    let mut root = Thingy::new(ws);
    let mut second = full_job();
    second.name = "job2".to_string();
    second.branches = None;
    root.add_job(second).unwrap();
    root.remove_job(&"job1".to_string());

    let text = root.sync_ws_to_disk();
    let back = parse_workspace_yaml(text.as_str()).expect("persisted file must parse");
    assert_eq!(back, root.get_jobs());
    assert_eq!(back.len(), 1);
    assert_eq!(back[0].name, "job2".to_string());
}

#[test]
fn workspace_yaml_is_valid_yaml_for_an_outside_reader() {
    let ws = Workspace { jobs: vec![full_job()] };
    let text = emit_workspace(&ws);
    let v: serde_yaml::Value = serde_yaml::from_str(text.as_str()).expect("valid YAML");
    let jobs = v.get("jobs").and_then(|j| j.as_sequence()).expect("a jobs list");
    assert_eq!(jobs.len(), 1);
    assert_eq!(
        jobs[0].get("name").and_then(|n| n.as_str()),
        Some("job1")
    );
    assert_eq!(
        jobs[0].get("poll_interval_seconds").and_then(|n| n.as_u64()),
        Some(30)
    );
    assert!(jobs[0].get("branch").unwrap().is_null());
}

#[test]
fn counter_text_round_trips() {
    assert_eq!(format_u64(0), "0".to_string());
    assert_eq!(format_u64(40), "40".to_string());
    assert_eq!(format_u64(u64::MAX), "18446744073709551615".to_string());
    assert_eq!(parse_u64("0"), Some(0));
    assert_eq!(parse_u64("18446744073709551615"), Some(u64::MAX));
    assert_eq!(parse_u64("18446744073709551616"), None);
    assert_eq!(parse_u64(""), None);
    assert_eq!(parse_u64("12a"), None);
    assert_eq!(parse_u64(format_u64(981).as_str()), Some(981));
}

#[test]
fn trim_matches_the_configured_whitespace() {
    assert_eq!(trim("  a b \t\n"), "a b".to_string());
    assert_eq!(trim(""), String::new());
    assert_eq!(trim(" \r\n\t "), String::new());
    assert_eq!(trim("x"), "x".to_string());
}

#[test]
fn command_splits_on_spaces() {
    let (prog, args) = parse_command("ci/build.sh --fast  -j 4").expect("tokens expected");
    assert_eq!(prog, "ci/build.sh".to_string());
    assert_eq!(args, vec!["--fast".to_string(), "-j".to_string(), "4".to_string()]);

    let (prog, args) = parse_command("run.sh").unwrap();
    assert_eq!(prog, "run.sh".to_string());
    assert_eq!(args, Vec::<String>::new());

    assert_eq!(parse_command("   "), None);
    assert_eq!(parse_command(""), None);
}

#[test]
fn exit_codes_map_to_statuses() {
    assert_eq!(status_of_exit(Some(0)), BuildStatus::Finished);
    assert_eq!(status_of_exit(Some(1)), BuildStatus::Error);
    assert_eq!(status_of_exit(Some(-9)), BuildStatus::Error);
    assert_eq!(status_of_exit(None), BuildStatus::Error);
    assert_eq!(status_str(BuildStatus::Finished), "finished");
    assert_eq!(status_str(BuildStatus::Error), "error");
    assert_eq!(status_str(BuildStatus::Building), "building");
}

#[test]
fn log_lines_carry_their_stream_tag() {
    assert_eq!(format_log_line(false, "hello"), "[out] hello\n".to_string());
    assert_eq!(format_log_line(true, "oops"), "[err] oops\n".to_string());
}
