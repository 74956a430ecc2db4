//! Per-repository job worker: reconciling the watched branch workers
//! with the branch heads observed on the remote.

use vstd::prelude::*;

use crate::models::{branch_allowed_spec, clone_string_vec, vec_contains_string, Job, JobView};

verus! {

/// One branch head observed on the remote: a branch name and the commit
/// it points at.
#[derive(Debug, Clone, PartialEq, Eq)]
pub struct BranchHead {
    pub branch: String,
    pub commit: String,
}

/// Mathematical model of a [`BranchHead`].
pub ghost struct BranchHeadView {
    pub branch: Seq<char>,
    pub commit: Seq<char>,
}

impl View for BranchHead {
    type V = BranchHeadView;

    open spec fn view(&self) -> BranchHeadView {
        BranchHeadView { branch: self.branch@, commit: self.commit@ }
    }
}

impl DeepView for BranchHead {
    type V = BranchHeadView;

    open spec fn deep_view(&self) -> BranchHeadView {
        self@
    }
}

/// What the surrounding process must do after a poll, in order.
#[derive(Debug, Clone, PartialEq, Eq)]
pub enum PollAction {
    /// Create the branch directory, start a worker for `branch`, and
    /// hand it `commit` as a new commit.
    Create { branch: String, commit: String },
    /// Hand the existing worker of `branch` the observed `commit`.
    Notify { branch: String, commit: String },
    /// Drop the worker of `branch`; its directory stays on disk.
    Remove { branch: String },
}

/// Mathematical model of a [`PollAction`].
pub ghost enum PollActionView {
    Create { branch: Seq<char>, commit: Seq<char> },
    Notify { branch: Seq<char>, commit: Seq<char> },
    Remove { branch: Seq<char> },
}

impl View for PollAction {
    type V = PollActionView;

    open spec fn view(&self) -> PollActionView {
        match self {
            PollAction::Create { branch, commit } => PollActionView::Create {
                branch: branch@,
                commit: commit@,
            },
            PollAction::Notify { branch, commit } => PollActionView::Notify {
                branch: branch@,
                commit: commit@,
            },
            PollAction::Remove { branch } => PollActionView::Remove { branch: branch@ },
        }
    }
}

impl DeepView for PollAction {
    type V = PollActionView;

    open spec fn deep_view(&self) -> PollActionView {
        self@
    }
}

/// The names of the polled branch heads, in polled order.
pub open spec fn polled_names(polled: Seq<BranchHeadView>) -> Seq<Seq<char>> {
    polled.map_values(|h: BranchHeadView| h.branch)
}

/// The polled branch names that pass the job's branch filter, in polled
/// order.
pub open spec fn allowed_names(job: JobView, polled: Seq<BranchHeadView>) -> Seq<Seq<char>>
    decreases polled.len(),
{
    if polled.len() == 0 {
        Seq::empty()
    } else {
        let rest = allowed_names(job, polled.drop_last());
        if branch_allowed_spec(job, polled.last().branch) {
            rest.push(polled.last().branch)
        } else {
            rest
        }
    }
}

/// Actions of the forward pass of a poll: one `Create` or `Notify` per
/// polled branch that passes the filter, depending on whether the
/// branch was already watched before the poll.
pub open spec fn pass_actions(
    job: JobView,
    watched: Seq<Seq<char>>,
    polled: Seq<BranchHeadView>,
) -> Seq<PollActionView>
    decreases polled.len(),
{
    if polled.len() == 0 {
        Seq::empty()
    } else {
        let rest = pass_actions(job, watched, polled.drop_last());
        let h = polled.last();
        if branch_allowed_spec(job, h.branch) {
            if watched.contains(h.branch) {
                rest.push(PollActionView::Notify { branch: h.branch, commit: h.commit })
            } else {
                rest.push(PollActionView::Create { branch: h.branch, commit: h.commit })
            }
        } else {
            rest
        }
    }
}

/// Removal actions of a poll: one `Remove` per watched branch whose
/// name did not appear among the polled heads at all.
pub open spec fn removal_actions(
    watched: Seq<Seq<char>>,
    polled: Seq<BranchHeadView>,
) -> Seq<PollActionView>
    decreases watched.len(),
{
    if watched.len() == 0 {
        Seq::empty()
    } else {
        let rest = removal_actions(watched.drop_last(), polled);
        if polled_names(polled).contains(watched.last()) {
            rest
        } else {
            rest.push(PollActionView::Remove { branch: watched.last() })
        }
    }
}

/// A name is among [`allowed_names`] exactly when it was polled and
/// passes the filter.
pub proof fn lemma_allowed_names_membership(job: JobView, polled: Seq<BranchHeadView>, b: Seq<char>)
    ensures
        allowed_names(job, polled).contains(b) <==> (polled_names(polled).contains(b)
            && branch_allowed_spec(job, b)),
    decreases polled.len(),
{
    if polled.len() == 0 {
    } else {
        lemma_allowed_names_membership(job, polled.drop_last(), b);
        let names = polled_names(polled);
        let restnames = polled_names(polled.drop_last());
        assert(restnames =~= names.drop_last());
        assert(names.last() == polled.last().branch);
        let al = allowed_names(job, polled);
        let restal = allowed_names(job, polled.drop_last());
        if al.contains(b) {
            let i = choose|i: int| 0 <= i < al.len() && al[i] == b;
            if branch_allowed_spec(job, polled.last().branch) && i == al.len() - 1 {
                assert(b == polled.last().branch);
                assert(names[names.len() - 1] == b);
            } else {
                assert(restal[i] == b);
                assert(restal.contains(b));
                let j = choose|j: int| 0 <= j < restnames.len() && restnames[j] == b;
                assert(names[j] == b);
            }
        }
        if polled_names(polled).contains(b) && branch_allowed_spec(job, b) {
            let i = choose|i: int| 0 <= i < names.len() && names[i] == b;
            if i == names.len() - 1 {
                assert(polled.last().branch == b);
                assert(al.last() == b);
            } else {
                assert(restnames[i] == b);
                assert(restnames.contains(b));
                assert(restal.contains(b));
                let j = choose|j: int| 0 <= j < restal.len() && restal[j] == b;
                if branch_allowed_spec(job, polled.last().branch) {
                    assert(al[j] == b);
                } else {
                    assert(al.contains(b));
                }
            }
        }
    }
}

/// Whether a polled head carries the branch name `name`.
pub fn polled_contains_name(polled: &Vec<BranchHead>, name: &String) -> (r: bool)
    ensures
        r == polled_names(polled.deep_view()).contains(name@),
{
    let ghost names = polled_names(polled.deep_view());
    let mut i: usize = 0;
    while i < polled.len()
        invariant
            0 <= i <= polled.len(),
            names == polled_names(polled.deep_view()),
            names.len() == polled.len(),
            forall|m: int| 0 <= m < i ==> names[m] != name@,
        decreases polled.len() - i,
    {
        if polled[i].branch.eq(name) {
            proof {
                assert(names[i as int] == name@);
            }
            return true;
        }
        i = i + 1;
    }
    false
}

/// The branch name carried by a `refs/heads/` reference, when the
/// reference is one; other references (tags, remotes) yield `None`.
pub fn strip_heads_prefix(name: &str) -> (r: Option<String>)
    ensures
        match r {
            Some(b) => name@.len() >= "refs/heads/"@.len() && name@.subrange(
                0,
                "refs/heads/"@.len() as int,
            ) == "refs/heads/"@ && b@ == name@.skip("refs/heads/"@.len() as int),
            None => !(name@.len() >= "refs/heads/"@.len() && name@.subrange(
                0,
                "refs/heads/"@.len() as int,
            ) == "refs/heads/"@),
        },
{
    let cs = crate::text::str_chars(name);
    let ps = crate::text::str_chars("refs/heads/");
    let m = ps.len();
    if cs.len() < m {
        return None;
    }
    let mut k: usize = 0;
    while k < m
        invariant
            0 <= k <= m,
            m == ps.len(),
            ps@ == "refs/heads/"@,
            cs@ == name@,
            m <= cs@.len(),
            cs@.len() <= usize::MAX,
            forall|t: int| 0 <= t < k ==> cs@[t] == ps@[t],
        decreases m - k,
    {
        if cs[k] != ps[k] {
            proof {
                if name@.subrange(0, m as int) == "refs/heads/"@ {
                    assert(name@.subrange(0, m as int)[k as int] == "refs/heads/"@[k as int]);
                }
            }
            return None;
        }
        k = k + 1;
    }
    let mut rest: Vec<char> = Vec::new();
    let mut t: usize = m;
    while t < cs.len()
        invariant
            m <= t <= cs.len(),
            cs@ == name@,
            rest@ =~= cs@.subrange(m as int, t as int),
        decreases cs.len() - t,
    {
        rest.push(cs[t]);
        proof {
            assert(rest@ =~= cs@.subrange(m as int, t + 1));
        }
        t = t + 1;
    }
    proof {
        assert(name@.subrange(0, m as int) =~= "refs/heads/"@);
        assert(cs@.subrange(m as int, cs@.len() as int) =~= name@.skip(m as int));
    }
    Some(crate::text::chars_to_string(&rest))
}

/// The worker owning one job: it tracks one branch worker per branch
/// currently observed (and allowed) on the remote.
pub struct JobActor {
    /// The job's descriptor.
    pub job: Job,
    /// Names of the branches whose workers are alive, in the order of
    /// the poll that produced them.
    pub branches: Vec<String>,
}

/// Mathematical model of a [`JobActor`].
pub ghost struct JobActorView {
    pub job: JobView,
    pub branches: Seq<Seq<char>>,
}

impl View for JobActor {
    type V = JobActorView;

    open spec fn view(&self) -> JobActorView {
        JobActorView { job: self.job@, branches: self.branches.deep_view() }
    }
}

impl JobActor {
    /// Invariant of a job worker: watched branch names are distinct and
    /// all of them pass the job's branch filter.
    pub open spec fn wf(self) -> bool {
        &&& forall|i: int, j: int|
            0 <= i < j < self@.branches.len() ==> self@.branches[i] != self@.branches[j]
        &&& forall|i: int|
            0 <= i < self@.branches.len() ==> branch_allowed_spec(
                self@.job,
                #[trigger] self@.branches[i],
            )
    }

    /// A fresh job worker tracking no branches yet.
    pub fn new(job: Job) -> (r: JobActor)
        ensures
            r.wf(),
            r@.job == job@,
            r@.branches.len() == 0,
    {
        JobActor { job, branches: Vec::new() }
    }

    /// One poll of the remote produced the heads `polled` (with distinct
    /// branch names).  The watched set becomes exactly the polled
    /// branches that pass the filter; the returned actions are the
    /// creations and notifications of the forward pass followed by the
    /// removal of every watched branch that vanished from the remote.
    pub fn handle_poll(&mut self, polled: &Vec<BranchHead>) -> (actions: Vec<PollAction>)
        requires
            old(self).wf(),
            forall|i: int, j: int|
                0 <= i < j < polled.deep_view().len() ==> polled.deep_view()[i].branch
                    != polled.deep_view()[j].branch,
        ensures
            final(self).wf(),
            final(self)@.job == old(self)@.job,
            final(self)@.branches == allowed_names(old(self)@.job, polled.deep_view()),
            forall|b: Seq<char>|
                #[trigger] final(self)@.branches.contains(b) <==> (polled_names(
                    polled.deep_view(),
                ).contains(b) && branch_allowed_spec(old(self)@.job, b)),
            actions.deep_view() == pass_actions(
                old(self)@.job,
                old(self)@.branches,
                polled.deep_view(),
            ) + removal_actions(old(self)@.branches, polled.deep_view()),
    {
        let ghost pv = polled.deep_view();
        let ghost watched = self@.branches;
        let mut actions: Vec<PollAction> = Vec::new();
        let mut fresh_names: Vec<String> = Vec::new();
        let mut i: usize = 0;
        while i < polled.len()
            invariant
                0 <= i <= polled.len(),
                pv == polled.deep_view(),
                pv.len() == polled.len(),
                watched == self@.branches,
                *self == *old(self),
                old(self).wf(),
                forall|a: int, b: int| 0 <= a < b < pv.len() ==> pv[a].branch != pv[b].branch,
                actions.deep_view() =~= pass_actions(self@.job, watched, pv.subrange(0, i as int)),
                fresh_names.deep_view() =~= allowed_names(self@.job, pv.subrange(0, i as int)),
            decreases polled.len() - i,
        {
            let ghost pre = pv.subrange(0, i as int);
            let ghost cur = pv.subrange(0, i + 1);
            proof {
                assert(cur.drop_last() =~= pre);
                assert(cur.last() == pv[i as int]);
            }
            let head = &polled[i];
            proof {
                assert(head@ == pv[i as int]);
            }
            let ghost adv = actions.deep_view();
            let ghost ndv = fresh_names.deep_view();
            if self.job.branch_allowed(&head.branch) {
                if vec_contains_string(&self.branches, &head.branch) {
                    actions.push(
                        PollAction::Notify {
                            branch: head.branch.clone(),
                            commit: head.commit.clone(),
                        },
                    );
                    proof {
                        assert(actions.deep_view() =~= adv.push(
                            PollActionView::Notify {
                                branch: pv[i as int].branch,
                                commit: pv[i as int].commit,
                            },
                        ));
                    }
                } else {
                    actions.push(
                        PollAction::Create {
                            branch: head.branch.clone(),
                            commit: head.commit.clone(),
                        },
                    );
                    proof {
                        assert(actions.deep_view() =~= adv.push(
                            PollActionView::Create {
                                branch: pv[i as int].branch,
                                commit: pv[i as int].commit,
                            },
                        ));
                    }
                }
                fresh_names.push(head.branch.clone());
                proof {
                    assert(fresh_names.deep_view() =~= ndv.push(pv[i as int].branch));
                }
            }
            i = i + 1;
        }
        proof {
            assert(pv.subrange(0, pv.len() as int) =~= pv);
        }
        let mut k: usize = 0;
        while k < self.branches.len()
            invariant
                0 <= k <= self.branches.len(),
                pv == polled.deep_view(),
                watched == self@.branches,
                *self == *old(self),
                actions.deep_view() =~= pass_actions(self@.job, watched, pv) + removal_actions(
                    watched.subrange(0, k as int),
                    pv,
                ),
            decreases self.branches.len() - k,
        {
            let ghost pre = watched.subrange(0, k as int);
            let ghost cur = watched.subrange(0, k + 1);
            proof {
                assert(cur.drop_last() =~= pre);
                assert(cur.last() == watched[k as int]);
                assert(self.branches@[k as int]@ == watched[k as int]);
            }
            let ghost adv = actions.deep_view();
            if !polled_contains_name(polled, &self.branches[k]) {
                actions.push(PollAction::Remove { branch: self.branches[k].clone() });
                proof {
                    assert(actions.deep_view() =~= adv.push(
                        PollActionView::Remove { branch: watched[k as int] },
                    ));
                }
            }
            k = k + 1;
        }
        proof {
            assert(watched.subrange(0, watched.len() as int) =~= watched);
        }
        let ghost ntv = fresh_names.deep_view();
        self.branches = fresh_names;
        proof {
            assert(self@.branches == ntv);
            assert forall|b: Seq<char>| #[trigger]
                self@.branches.contains(b) <==> (polled_names(pv).contains(b)
                    && branch_allowed_spec(old(self)@.job, b)) by {
                lemma_allowed_names_membership(old(self)@.job, pv, b);
            }
            assert(self.wf()) by {
                lemma_allowed_names_wf(old(self)@.job, pv);
            }
        }
        actions
    }

    /// Whether a branch worker is watched under `name`.
    pub fn tracks_branch(&self, name: &String) -> (r: bool)
        ensures
            r == self@.branches.contains(name@),
    {
        vec_contains_string(&self.branches, name)
    }

    /// The job's name and currently watched branches, as served to
    /// detail queries.
    pub fn get_details(&self) -> (r: JobDetailsResponse)
        ensures
            r@.name == self@.job.name,
            r@.branches == self@.branches,
    {
        JobDetailsResponse {
            name: self.job.name.clone(),
            branches: clone_string_vec(&self.branches),
        }
    }
}

/// The allowed names of distinct polled heads are distinct, and all of
/// them pass the filter.
proof fn lemma_allowed_names_wf(job: JobView, polled: Seq<BranchHeadView>)
    requires
        forall|i: int, j: int|
            0 <= i < j < polled.len() ==> polled[i].branch != polled[j].branch,
    ensures
        forall|i: int, j: int|
            0 <= i < j < allowed_names(job, polled).len() ==> allowed_names(job, polled)[i]
                != allowed_names(job, polled)[j],
        forall|i: int|
            0 <= i < allowed_names(job, polled).len() ==> branch_allowed_spec(
                job,
                #[trigger] allowed_names(job, polled)[i],
            ),
    decreases polled.len(),
{
    if polled.len() > 0 {
        let rest = polled.drop_last();
        lemma_allowed_names_wf(job, rest);
        let al = allowed_names(job, polled);
        let restal = allowed_names(job, rest);
        assert forall|i: int, j: int| 0 <= i < j < al.len() implies al[i] != al[j] by {
            if j < restal.len() {
                assert(restal[i] != restal[j]);
            } else {
                assert(al[j] == polled.last().branch);
                assert(restal.contains(al[i]) || al[i] == restal[i]) by {
                    assert(restal[i] == al[i]);
                }
                assert(restal.contains(al[i]));
                lemma_allowed_names_membership(job, rest, al[i]);
                let w = choose|w: int|
                    0 <= w < polled_names(rest).len() && polled_names(rest)[w] == al[i];
                assert(polled[w].branch == al[i]);
                assert(polled[w].branch != polled.last().branch);
            }
        }
        assert forall|i: int|
            0 <= i < al.len() implies branch_allowed_spec(job, #[trigger] al[i]) by {
            if i < restal.len() {
                assert(branch_allowed_spec(job, restal[i]));
            }
        }
    }
}

/// The job's name and the branches it currently tracks.
#[derive(Debug, Clone, PartialEq, Eq)]
pub struct JobDetailsResponse {
    pub name: String,
    pub branches: Vec<String>,
}

/// Mathematical model of a [`JobDetailsResponse`].
pub ghost struct JobDetailsResponseView {
    pub name: Seq<char>,
    pub branches: Seq<Seq<char>>,
}

impl View for JobDetailsResponse {
    type V = JobDetailsResponseView;

    open spec fn view(&self) -> JobDetailsResponseView {
        JobDetailsResponseView { name: self.name@, branches: self.branches.deep_view() }
    }
}

} // verus!
