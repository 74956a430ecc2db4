//! Workspace configuration: jobs, authentication, validation rules and
//! the branch filter each job applies to polled remote heads.

use vstd::prelude::*;

use crate::text::{is_blank, trim, trim_spec, trimmed_empty};

verus! {

/// Authentication used for git fetches, when the repository needs one.
#[derive(Debug, Clone, PartialEq, Eq)]
pub enum GitAuth {
    /// An SSH private key on disk, with an optional passphrase.
    PrivateKey { path: String, passphrase: Option<String> },
    /// A username and password pair.
    UserPass { username: String, password: String },
}

/// Mathematical model of a [`GitAuth`] value.
pub ghost enum GitAuthView {
    PrivateKey { path: Seq<char>, passphrase: Option<Seq<char>> },
    UserPass { username: Seq<char>, password: Seq<char> },
}

impl View for GitAuth {
    type V = GitAuthView;

    open spec fn view(&self) -> GitAuthView {
        match self {
            GitAuth::PrivateKey { path, passphrase } => GitAuthView::PrivateKey {
                path: path@,
                passphrase: passphrase.deep_view(),
            },
            GitAuth::UserPass { username, password } => GitAuthView::UserPass {
                username: username@,
                password: password@,
            },
        }
    }
}

/// One build job: a repository to poll and a script to run per new commit.
#[derive(Debug, Clone, PartialEq, Eq)]
pub struct Job {
    /// Name of the job; must be unique within a workspace once trimmed.
    pub name: String,
    /// Git fetch URL.
    pub repo_url: String,
    /// Path of the build script inside the checkout.
    pub build_script: String,
    /// Seconds between automatic polls; no automatic polling when absent.
    pub poll_interval_seconds: Option<u64>,
    /// Single allowed branch (older form of `branches`).
    pub branch: Option<String>,
    /// Allow-list of branch names; all branches pass when absent.
    pub branches: Option<Vec<String>>,
    /// Deny-list of branch names.
    pub ignore_branches: Option<Vec<String>>,
    /// Authentication for git operations, if required.
    pub auth: Option<GitAuth>,
}

/// Mathematical model of a [`Job`].
pub ghost struct JobView {
    pub name: Seq<char>,
    pub repo_url: Seq<char>,
    pub build_script: Seq<char>,
    pub poll_interval_seconds: Option<u64>,
    pub branch: Option<Seq<char>>,
    pub branches: Option<Seq<Seq<char>>>,
    pub ignore_branches: Option<Seq<Seq<char>>>,
    pub auth: Option<GitAuthView>,
}

impl View for Job {
    type V = JobView;

    open spec fn view(&self) -> JobView {
        JobView {
            name: self.name@,
            repo_url: self.repo_url@,
            build_script: self.build_script@,
            poll_interval_seconds: self.poll_interval_seconds,
            branch: self.branch.deep_view(),
            branches: self.branches.deep_view(),
            ignore_branches: self.ignore_branches.deep_view(),
            auth: match self.auth {
                Some(ref a) => Some(a@),
                None => None,
            },
        }
    }
}

impl DeepView for Job {
    type V = JobView;

    open spec fn deep_view(&self) -> JobView {
        self@
    }
}

/// The validation rules a job descriptor must meet before it is accepted.
pub open spec fn job_valid(j: JobView) -> bool {
    &&& !trimmed_empty(j.name)
    &&& !trimmed_empty(j.repo_url)
    &&& !trimmed_empty(j.build_script)
    &&& (j.poll_interval_seconds matches Some(p) ==> p > 0)
    &&& !(j.branch is Some && j.branches is Some)
}

/// Message reported for the first validation rule `j` breaks.
pub open spec fn job_error_msg(j: JobView) -> Seq<char> {
    if trimmed_empty(j.name) {
        "Job name is empty."@
    } else if trimmed_empty(j.repo_url) {
        "Repository url is empty."@
    } else if trimmed_empty(j.build_script) {
        "Build script path is empty."@
    } else if !(j.poll_interval_seconds matches Some(p) ==> p > 0) {
        "Poll interval must be > 0."@
    } else {
        "Cannot set both 'branch' and 'branches'."@
    }
}

impl Job {
    /// Checks the descriptor against the validation rules; `Ok` exactly
    /// when every rule holds, else the message of the first broken rule.
    pub fn validate(&mut self) -> (r: Result<(), String>)
        ensures
            *final(self) == *old(self),
            r is Ok <==> job_valid(old(self)@),
            r matches Err(m) ==> m@ == job_error_msg(old(self)@),
    {
        if is_blank(self.name.as_str()) {
            return Err(String::from_str("Job name is empty."));
        }
        if is_blank(self.repo_url.as_str()) {
            return Err(String::from_str("Repository url is empty."));
        }
        if is_blank(self.build_script.as_str()) {
            return Err(String::from_str("Build script path is empty."));
        }
        match self.poll_interval_seconds {
            Some(p) if p == 0 => {
                return Err(String::from_str("Poll interval must be > 0."));
            },
            _ => {},
        }
        if self.branch.is_some() && self.branches.is_some() {
            return Err(String::from_str("Cannot set both 'branch' and 'branches'."));
        }
        Ok(())
    }

    /// A copy whose model equals `self`'s.
    pub fn duplicate(&self) -> (r: Job)
        ensures
            r@ == self@,
    {
        Job {
            name: self.name.clone(),
            repo_url: self.repo_url.clone(),
            build_script: self.build_script.clone(),
            poll_interval_seconds: self.poll_interval_seconds,
            branch: clone_opt_string(&self.branch),
            branches: clone_opt_string_vec(&self.branches),
            ignore_branches: clone_opt_string_vec(&self.ignore_branches),
            auth: match &self.auth {
                Some(GitAuth::PrivateKey { path, passphrase }) => Some(
                    GitAuth::PrivateKey {
                        path: path.clone(),
                        passphrase: clone_opt_string(passphrase),
                    },
                ),
                Some(GitAuth::UserPass { username, password }) => Some(
                    GitAuth::UserPass { username: username.clone(), password: password.clone() },
                ),
                None => None,
            },
        }
    }
}

/// A copy of an optional string, equal to the original.
pub fn clone_opt_string(v: &Option<String>) -> (r: Option<String>)
    ensures
        r == *v,
{
    match v {
        Some(s) => Some(s.clone()),
        None => None,
    }
}

/// A copy of a string list whose entries equal the original's.
pub fn clone_string_vec(v: &Vec<String>) -> (r: Vec<String>)
    ensures
        r@ == v@,
        r.deep_view() == v.deep_view(),
{
    let r = v.clone();
    proof {
        assert forall|i: int| 0 <= i < v@.len() implies r@[i] == v@[i] by {
            assert(cloned::<String>(v[i], r[i]));
        }
        assert(r@ =~= v@);
        assert(r.deep_view() =~= v.deep_view());
    }
    r
}

/// A copy of an optional string list with the same contents.
pub fn clone_opt_string_vec(v: &Option<Vec<String>>) -> (r: Option<Vec<String>>)
    ensures
        r.deep_view() == v.deep_view(),
{
    match v {
        Some(list) => Some(clone_string_vec(list)),
        None => None,
    }
}

/// Equality of two optional strings, by contents.
pub fn opt_string_eq(a: &Option<String>, b: &Option<String>) -> (r: bool)
    ensures
        r == (a.deep_view() == b.deep_view()),
{
    match (a, b) {
        (Some(x), Some(y)) => x.eq(y),
        (None, None) => true,
        _ => {
            proof {
                assert(a.deep_view() != b.deep_view());
            }
            false
        },
    }
}

/// Whether `list` holds a string whose characters equal `s`.
pub fn vec_contains_string(list: &Vec<String>, s: &String) -> (r: bool)
    ensures
        r == list.deep_view().contains(s@),
{
    let mut i: usize = 0;
    while i < list.len()
        invariant
            0 <= i <= list.len(),
            forall|m: int| 0 <= m < i ==> list@[m]@ != s@,
        decreases list.len() - i,
    {
        if list[i].eq(s) {
            proof {
                assert(list.deep_view()[i as int] == s@);
            }
            return true;
        }
        i = i + 1;
    }
    proof {
        assert forall|m: int| 0 <= m < list.deep_view().len() implies list.deep_view()[m]
            != s@ by {
            assert(list.deep_view()[m] == list@[m]@);
        }
    }
    false
}

/// The allow-list in force for `j`: the `branches` list when set, else
/// the single `branch` when set, else none (every branch passes).
pub open spec fn effective_branches(j: JobView) -> Option<Seq<Seq<char>>> {
    if j.branches is Some {
        j.branches
    } else {
        match j.branch {
            Some(b) => Some(seq![b]),
            None => None,
        }
    }
}

/// The branch filter of §polling: a branch passes when the allow-list is
/// unset or holds it, and the deny-list is unset or does not hold it.
pub open spec fn branch_allowed_spec(j: JobView, b: Seq<char>) -> bool {
    &&& (match effective_branches(j) {
        Some(list) => list.contains(b),
        None => true,
    })
    &&& (match j.ignore_branches {
        Some(list) => !list.contains(b),
        None => true,
    })
}

impl Job {
    /// Whether the job's branch filter lets branch `b` through.
    pub fn branch_allowed(&self, b: &String) -> (r: bool)
        ensures
            r == branch_allowed_spec(self@, b@),
    {
        let in_allow = match &self.branches {
            Some(list) => vec_contains_string(list, b),
            None => match &self.branch {
                Some(one) => {
                    let eq = one.eq(b);
                    proof {
                        let single = seq![one@];
                        if one@ == b@ {
                            assert(single[0] == b@);
                            assert(single.contains(b@));
                        } else {
                            assert(forall|m: int| 0 <= m < single.len() ==> single[m] != b@);
                        }
                    }
                    eq
                },
                None => true,
            },
        };
        let in_ignore = match &self.ignore_branches {
            Some(list) => vec_contains_string(list, b),
            None => false,
        };
        in_allow && !in_ignore
    }
}

/// A workspace: the ordered jobs rooted at one directory.
#[derive(Debug, Clone, PartialEq, Eq)]
pub struct Workspace {
    pub jobs: Vec<Job>,
}

impl View for Workspace {
    type V = Seq<JobView>;

    open spec fn view(&self) -> Seq<JobView> {
        Seq::new(self.jobs@.len(), |i: int| self.jobs@[i]@)
    }
}

/// Pairwise distinct trimmed job names.
pub open spec fn names_unique(jobs: Seq<JobView>) -> bool {
    forall|i: int, j: int|
        0 <= i < j < jobs.len() ==> trim_spec(jobs[i].name) != trim_spec(jobs[j].name)
}

/// A well-formed workspace: every job valid, names unique once trimmed.
pub open spec fn ws_valid(jobs: Seq<JobView>) -> bool {
    &&& forall|i: int| 0 <= i < jobs.len() ==> job_valid(#[trigger] jobs[i])
    &&& names_unique(jobs)
}

/// Whether job `i` breaks a name rule: its trimmed name is empty, or an
/// earlier job bears the same trimmed name.
pub open spec fn name_issue_at(jobs: Seq<JobView>, i: int) -> bool {
    trimmed_empty(jobs[i].name) || exists|j: int|
        0 <= j < i && trim_spec(#[trigger] jobs[j].name) == trim_spec(jobs[i].name)
}

/// Index of the first name rule broken at or after `k`, if any.
pub open spec fn first_name_issue_from(jobs: Seq<JobView>, k: int) -> Option<int>
    decreases jobs.len() - k,
{
    if !(0 <= k < jobs.len()) {
        None
    } else if name_issue_at(jobs, k) {
        Some(k)
    } else {
        first_name_issue_from(jobs, k + 1)
    }
}

/// Index of the first invalid job at or after `k`, if any.
pub open spec fn first_invalid_from(jobs: Seq<JobView>, k: int) -> Option<int>
    decreases jobs.len() - k,
{
    if !(0 <= k < jobs.len()) {
        None
    } else if !job_valid(jobs[k]) {
        Some(k)
    } else {
        first_invalid_from(jobs, k + 1)
    }
}

/// Message reported for the first rule a whole workspace breaks: name
/// rules are checked for every job first, then each job's own rules.
pub open spec fn ws_error_msg(jobs: Seq<JobView>) -> Seq<char> {
    match first_name_issue_from(jobs, 0) {
        Some(i) => if trimmed_empty(jobs[i].name) {
            "Found job with empty name."@
        } else {
            "Workspace config contains duplicate jobs with name '"@ + trim_spec(jobs[i].name)
                + "'. Note that names are trimmed when read."@
        },
        None => match first_invalid_from(jobs, 0) {
            Some(i) => "Configuration for "@ + jobs[i].name + " is invalid: "@ + job_error_msg(
                jobs[i],
            ),
            None => Seq::empty(),
        },
    }
}

proof fn lemma_first_name_issue_from(jobs: Seq<JobView>, k: int, i: int)
    requires
        0 <= k <= i < jobs.len(),
        forall|m: int| k <= m < i ==> !name_issue_at(jobs, m),
        name_issue_at(jobs, i),
    ensures
        first_name_issue_from(jobs, k) == Some(i),
    decreases i - k,
{
    if k < i {
        lemma_first_name_issue_from(jobs, k + 1, i);
    }
}

proof fn lemma_no_name_issue_from(jobs: Seq<JobView>, k: int)
    requires
        0 <= k,
        forall|m: int| k <= m < jobs.len() ==> !name_issue_at(jobs, m),
    ensures
        first_name_issue_from(jobs, k) is None,
    decreases jobs.len() - k,
{
    if k < jobs.len() {
        lemma_no_name_issue_from(jobs, k + 1);
    }
}

proof fn lemma_first_invalid_from(jobs: Seq<JobView>, k: int, i: int)
    requires
        0 <= k <= i < jobs.len(),
        forall|m: int| k <= m < i ==> job_valid(#[trigger] jobs[m]),
        !job_valid(jobs[i]),
    ensures
        first_invalid_from(jobs, k) == Some(i),
    decreases i - k,
{
    if k < i {
        lemma_first_invalid_from(jobs, k + 1, i);
    }
}

proof fn lemma_no_invalid_from(jobs: Seq<JobView>, k: int)
    requires
        0 <= k,
        forall|m: int| k <= m < jobs.len() ==> job_valid(#[trigger] jobs[m]),
    ensures
        first_invalid_from(jobs, k) is None,
    decreases jobs.len() - k,
{
    if k < jobs.len() {
        lemma_no_invalid_from(jobs, k + 1);
    }
}

impl Workspace {
    /// Builds the workspace over `jobs` as loaded from the
    /// configuration file: accepted exactly when every name rule and
    /// every job's own rules hold; else the message of the first rule
    /// broken, in the order the rules are checked.
    pub fn from_jobs(jobs: Vec<Job>) -> (r: Result<Workspace, String>)
        ensures
            r is Ok <==> ws_valid(jobs.deep_view()),
            r matches Ok(ws) ==> ws@ == jobs.deep_view(),
            r matches Err(m) ==> m@ == ws_error_msg(jobs.deep_view()),
    {
        let ghost jv = jobs.deep_view();
        proof {
            assert(jv.len() == jobs@.len());
            assert(forall|m: int| 0 <= m < jv.len() ==> jv[m] == jobs@[m]@);
        }
        let n = jobs.len();
        let mut i: usize = 0;
        while i < n
            invariant
                0 <= i <= n,
                n == jobs.len(),
                jv == jobs.deep_view(),
                forall|m: int| 0 <= m < i ==> !name_issue_at(jv, m),
            decreases n - i,
        {
            let ni = trim(jobs[i].name.as_str());
            if ni.as_str().is_empty() {
                proof {
                    lemma_first_name_issue_from(jv, 0, i as int);
                }
                return Err(String::from_str("Found job with empty name."));
            }
            let mut j: usize = 0;
            while j < i
                invariant
                    0 <= j <= i < n,
                    n == jobs.len(),
                    jv == jobs.deep_view(),
                    ni@ == trim_spec(jv[i as int].name),
                    ni@.len() > 0,
                    forall|m: int| 0 <= m < i ==> !name_issue_at(jv, m),
                    forall|m: int|
                        0 <= m < j ==> trim_spec(#[trigger] jv[m].name) != trim_spec(
                            jv[i as int].name,
                        ),
                decreases i - j,
            {
                let nj = trim(jobs[j].name.as_str());
                if nj.eq(&ni) {
                    proof {
                        assert(jv[j as int] == jobs@[j as int]@);
                        assert(trim_spec(jv[j as int].name) == trim_spec(jv[i as int].name));
                        assert(name_issue_at(jv, i as int));
                        lemma_first_name_issue_from(jv, 0, i as int);
                        assert(!trimmed_empty(jv[i as int].name));
                    }
                    let msg = String::from_str(
                        "Workspace config contains duplicate jobs with name '",
                    ).concat(ni.as_str()).concat("'. Note that names are trimmed when read.");
                    proof {
                        assert(msg@ =~= ws_error_msg(jv));
                    }
                    return Err(msg);
                }
                j = j + 1;
            }
            proof {
                assert(!name_issue_at(jv, i as int));
            }
            i = i + 1;
        }
        proof {
            lemma_no_name_issue_from(jv, 0);
        }
        let mut k: usize = 0;
        while k < n
            invariant
                0 <= k <= n,
                n == jobs.len(),
                jv == jobs.deep_view(),
                first_name_issue_from(jv, 0) is None,
                forall|m: int| 0 <= m < k ==> job_valid(#[trigger] jv[m]),
            decreases n - k,
        {
            let mut candidate = jobs[k].duplicate();
            if let Err(e) = candidate.validate() {
                proof {
                    lemma_first_invalid_from(jv, 0, k as int);
                }
                let msg = String::from_str("Configuration for ").concat(
                    jobs[k].name.as_str(),
                ).concat(" is invalid: ").concat(e.as_str());
                proof {
                    assert(msg@ =~= ws_error_msg(jv));
                }
                return Err(msg);
            }
            k = k + 1;
        }
        proof {
            lemma_no_invalid_from(jv, 0);
            assert(names_unique(jv)) by {
                assert forall|a: int, b: int|
                    0 <= a < b < jv.len() implies trim_spec(jv[a].name) != trim_spec(
                    jv[b].name,
                ) by {
                    assert(!name_issue_at(jv, b));
                }
            }
        }
        let ws = Workspace { jobs };
        proof {
            assert(ws@ =~= jv);
        }
        Ok(ws)
    }

    /// Index of the job whose trimmed name equals the trimmed `name`;
    /// the first such index, or `None` when no job matches.
    pub fn find_job(&self, name: &String) -> (r: Option<usize>)
        ensures
            match r {
                Some(i) => {
                    &&& 0 <= i < self@.len()
                    &&& trim_spec(self@[i as int].name) == trim_spec(name@)
                    &&& forall|m: int|
                        0 <= m < i ==> trim_spec(self@[m].name) != trim_spec(name@)
                },
                None => forall|m: int|
                    0 <= m < self@.len() ==> trim_spec(self@[m].name) != trim_spec(name@),
            },
    {
        let target = trim(name.as_str());
        let mut i: usize = 0;
        while i < self.jobs.len()
            invariant
                target@ == trim_spec(name@),
                0 <= i <= self.jobs.len(),
                self@.len() == self.jobs@.len(),
                forall|m: int| 0 <= m < i ==> trim_spec(self@[m].name) != trim_spec(name@),
            decreases self.jobs.len() - i,
        {
            let jn = trim(self.jobs[i].name.as_str());
            if jn.eq(&target) {
                return Some(i);
            }
            i = i + 1;
        }
        None
    }
}

} // verus!
