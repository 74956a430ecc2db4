use thingy::job::{strip_heads_prefix, BranchHead, JobActor, PollAction};
use thingy::models::{GitAuth, Job, Workspace};
use thingy::root::Thingy;

fn job_with_filter(branches: Option<Vec<&str>>, ignore: Option<Vec<&str>>) -> Job {
    Job {
        name: "job1".to_string(),
        repo_url: "https://example.invalid/repo.git".to_string(),
        build_script: "build.sh".to_string(),
        poll_interval_seconds: None,
        branch: None,
        branches: branches.map(|v| v.into_iter().map(|s| s.to_string()).collect()),
        ignore_branches: ignore.map(|v| v.into_iter().map(|s| s.to_string()).collect()),
        auth: None,
    }
}

fn head(branch: &str, commit: &str) -> BranchHead {
    BranchHead { branch: branch.to_string(), commit: commit.to_string() }
}

#[test]
fn poll_creates_then_notifies() {
    let mut actor = JobActor::new(job_with_filter(None, None));
    let actions = actor.handle_poll(&vec![head("main", "abc")]);
    assert_eq!(
        actions,
        vec![PollAction::Create { branch: "main".to_string(), commit: "abc".to_string() }]
    );
    assert!(actor.tracks_branch(&"main".to_string()));

    let actions = actor.handle_poll(&vec![head("main", "def")]);
    assert_eq!(
        actions,
        vec![PollAction::Notify { branch: "main".to_string(), commit: "def".to_string() }]
    );
    let details = actor.get_details();
    assert_eq!(details.name, "job1".to_string());
    assert_eq!(details.branches, vec!["main".to_string()]);
}

#[test]
fn branch_filter_allows_only_listed_branches() {
    let mut actor = JobActor::new(job_with_filter(Some(vec!["main"]), None));
    let polled = vec![head("main", "h1"), head("feature", "h2")];
    let actions = actor.handle_poll(&polled);
    assert_eq!(
        actions,
        vec![PollAction::Create { branch: "main".to_string(), commit: "h1".to_string() }]
    );
    assert!(actor.tracks_branch(&"main".to_string()));
    assert!(!actor.tracks_branch(&"feature".to_string()));

    // Even on repolls the filtered branch stays ignored.
    let actions = actor.handle_poll(&polled);
    assert_eq!(
        actions,
        vec![PollAction::Notify { branch: "main".to_string(), commit: "h1".to_string() }]
    );
    assert!(!actor.tracks_branch(&"feature".to_string()));
}

#[test]
fn deprecated_single_branch_field_acts_as_allow_list() {
    let mut base = job_with_filter(None, None);
    base.branch = Some("main".to_string());
    let mut actor = JobActor::new(base);
    let actions = actor.handle_poll(&vec![head("main", "h1"), head("other", "h2")]);
    assert_eq!(actions.len(), 1);
    assert!(actor.tracks_branch(&"main".to_string()));
    assert!(!actor.tracks_branch(&"other".to_string()));
}

#[test]
fn ignore_list_hides_branches() {
    let mut actor = JobActor::new(job_with_filter(None, Some(vec!["wip"])));
    let actions = actor.handle_poll(&vec![head("main", "h1"), head("wip", "h2")]);
    assert_eq!(
        actions,
        vec![PollAction::Create { branch: "main".to_string(), commit: "h1".to_string() }]
    );
    assert!(!actor.tracks_branch(&"wip".to_string()));
}

#[test]
fn vanished_branch_is_removed() {
    let mut actor = JobActor::new(job_with_filter(None, None));
    actor.handle_poll(&vec![head("main", "h1"), head("feature", "h2")]);
    assert!(actor.tracks_branch(&"feature".to_string()));

    let actions = actor.handle_poll(&vec![head("main", "h1")]);
    assert_eq!(
        actions,
        vec![
            PollAction::Notify { branch: "main".to_string(), commit: "h1".to_string() },
            PollAction::Remove { branch: "feature".to_string() },
        ]
    );
    assert!(!actor.tracks_branch(&"feature".to_string()));
    assert_eq!(actor.get_details().branches, vec!["main".to_string()]);
}

#[test]
fn add_job_validates_and_rejects_duplicates() {
    let ws = Workspace { jobs: vec![job_with_filter(None, None)] };
    let mut root = Thingy::new(ws);

    let mut dup = job_with_filter(None, None);
    dup.name = " job1 ".to_string();
    let err = root.add_job(dup).unwrap_err();
    assert_eq!(err, "Job with this name already exists".to_string());
    assert_eq!(root.get_jobs().len(), 1);

    let mut bad = job_with_filter(None, None);
    bad.name = "job2".to_string();
    bad.repo_url = "   ".to_string();
    let err = root.add_job(bad).unwrap_err();
    assert_eq!(err, "Repository url is empty.".to_string());

    let mut fresh = job_with_filter(None, None);
    fresh.name = "job2".to_string();
    assert!(root.add_job(fresh).is_ok());
    assert_eq!(root.get_jobs().len(), 2);
    assert!(root.get_job_worker(&"job2".to_string()).is_some());
}

#[test]
fn remove_job_drops_only_the_named_job() {
    let mut second = job_with_filter(None, None);
    second.name = "job2".to_string();
    let ws = Workspace { jobs: vec![job_with_filter(None, None), second] };
    let mut root = Thingy::new(ws);
    root.remove_job(&"job1".to_string());
    let left = root.get_jobs();
    assert_eq!(left.len(), 1);
    assert_eq!(left[0].name, "job2".to_string());
    assert!(root.get_job_worker(&"job1".to_string()).is_none());
}

#[test]
fn job_validation_reports_first_broken_rule() {
    let mut j = job_with_filter(None, None);
    j.name = "  ".to_string();
    assert_eq!(j.validate().unwrap_err(), "Job name is empty.".to_string());

    let mut j = job_with_filter(None, None);
    j.build_script = "\t".to_string();
    assert_eq!(j.validate().unwrap_err(), "Build script path is empty.".to_string());

    let mut j = job_with_filter(None, None);
    j.poll_interval_seconds = Some(0);
    assert_eq!(j.validate().unwrap_err(), "Poll interval must be > 0.".to_string());

    let mut j = job_with_filter(Some(vec!["main"]), None);
    j.branch = Some("main".to_string());
    assert_eq!(
        j.validate().unwrap_err(),
        "Cannot set both 'branch' and 'branches'.".to_string()
    );

    let mut j = job_with_filter(None, None);
    j.auth = Some(GitAuth::UserPass { username: "u".to_string(), password: "p".to_string() });
    assert!(j.validate().is_ok());
}

#[test]
fn workspace_load_reports_name_rules_first() {
    let a = job_with_filter(None, None);
    let mut b = job_with_filter(None, None);
    b.name = " job1".to_string();
    let err = Workspace::from_jobs(vec![a, b]).unwrap_err();
    assert_eq!(
        err,
        "Workspace config contains duplicate jobs with name 'job1'. Note that names are trimmed when read."
            .to_string()
    );

    let mut empty_name = job_with_filter(None, None);
    empty_name.name = " ".to_string();
    let err = Workspace::from_jobs(vec![empty_name]).unwrap_err();
    assert_eq!(err, "Found job with empty name.".to_string());

    let mut bad = job_with_filter(None, None);
    bad.name = "job2".to_string();
    bad.repo_url = String::new();
    let err = Workspace::from_jobs(vec![job_with_filter(None, None), bad]).unwrap_err();
    assert_eq!(
        err,
        "Configuration for job2 is invalid: Repository url is empty.".to_string()
    );

    let ok = Workspace::from_jobs(vec![job_with_filter(None, None)]).unwrap();
    assert_eq!(ok.jobs.len(), 1);
}

#[test]
fn refs_heads_prefix_is_stripped() {
    assert_eq!(strip_heads_prefix("refs/heads/main"), Some("main".to_string()));
    assert_eq!(strip_heads_prefix("refs/heads/feature/x"), Some("feature/x".to_string()));
    assert_eq!(strip_heads_prefix("refs/tags/v1"), None);
    assert_eq!(strip_heads_prefix("refs/heads/"), Some(String::new()));
    assert_eq!(strip_heads_prefix("short"), None);
}
