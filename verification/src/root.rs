//! Root supervisor: it owns the workspace, mediates job addition and
//! removal, and answers directory queries.  One job worker runs per
//! configured job; the surrounding process spawns and drops them as the
//! workspace changes here.

use vstd::prelude::*;

use crate::models::{job_error_msg, job_valid, names_unique, ws_valid, Job, JobView, Workspace};
use crate::text::{trim, trim_spec};

verus! {

/// The root supervisor's state: the workspace it owns.
pub struct Thingy {
    pub workspace: Workspace,
}

impl View for Thingy {
    type V = Seq<JobView>;

    open spec fn view(&self) -> Seq<JobView> {
        self.workspace@
    }
}

/// Message reported when a job is added under a name already taken.
pub open spec fn duplicate_job_msg() -> Seq<char> {
    "Job with this name already exists"@
}

impl Thingy {
    /// Invariant of the root supervisor: the workspace stays valid.
    pub open spec fn wf(self) -> bool {
        ws_valid(self@)
    }

    /// A root supervisor over a loaded, validated workspace.
    pub fn new(workspace: Workspace) -> (r: Thingy)
        requires
            ws_valid(workspace@),
        ensures
            r.wf(),
            r@ == workspace@,
    {
        Thingy { workspace }
    }

    /// Copies of the configured jobs, as served to the job list query.
    pub fn get_jobs(&self) -> (r: Vec<Job>)
        ensures
            r@.len() == self@.len(),
            forall|i: int| 0 <= i < r@.len() ==> r@[i]@ == self@[i],
    {
        let mut out: Vec<Job> = Vec::new();
        let mut i: usize = 0;
        while i < self.workspace.jobs.len()
            invariant
                0 <= i <= self.workspace.jobs.len(),
                self@.len() == self.workspace.jobs@.len(),
                out@.len() == i,
                forall|m: int| 0 <= m < i ==> out@[m]@ == self@[m],
            decreases self.workspace.jobs.len() - i,
        {
            out.push(self.workspace.jobs[i].duplicate());
            i = i + 1;
        }
        out
    }

    /// Index of the job worker registered under the trimmed `name`.
    pub fn get_job_worker(&self, name: &String) -> (r: Option<usize>)
        ensures
            match r {
                Some(i) => 0 <= i < self@.len() && trim_spec(self@[i as int].name) == trim_spec(
                    name@,
                ),
                None => forall|m: int|
                    0 <= m < self@.len() ==> trim_spec(self@[m].name) != trim_spec(name@),
            },
    {
        self.workspace.find_job(name)
    }

    /// Adds `job` to the workspace: accepted exactly when the
    /// descriptor is valid and no job already bears its trimmed name.
    /// On success the job is appended; on failure nothing changes and
    /// the message names the first broken rule or the duplicate.
    pub fn add_job(&mut self, job: Job) -> (r: Result<(), String>)
        requires
            old(self).wf(),
        ensures
            final(self).wf(),
            r is Ok <==> (job_valid(job@) && forall|m: int|
                0 <= m < old(self)@.len() ==> trim_spec(#[trigger] old(self)@[m].name)
                    != trim_spec(job@.name)),
            r is Ok ==> final(self)@ == old(self)@.push(job@),
            r is Err ==> final(self)@ == old(self)@,
            r matches Err(m) ==> m@ == (if !job_valid(job@) {
                job_error_msg(job@)
            } else {
                duplicate_job_msg()
            }),
    {
        let mut job = job;
        if let Err(msg) = job.validate() {
            return Err(msg);
        }
        if self.workspace.find_job(&job.name).is_some() {
            return Err(String::from_str("Job with this name already exists"));
        }
        proof {
            let jv = job@;
            let pre = self@;
            assert forall|i: int, j: int|
                0 <= i < j < pre.push(jv).len() implies trim_spec(pre.push(jv)[i].name)
                != trim_spec(pre.push(jv)[j].name) by {
                if j < pre.len() {
                    assert(names_unique(pre));
                } else {
                    assert(pre.push(jv)[i] == pre[i]);
                }
            }
        }
        self.workspace.jobs.push(job);
        proof {
            assert(self@ =~= old(self)@.push(self@[self@.len() - 1]));
        }
        Ok(())
    }

    /// The full `thingy.yaml` text for the current workspace, written
    /// out anew after every mutation.
    pub fn sync_ws_to_disk(&self) -> (r: String)
        ensures
            r@ == crate::yaml::yaml_workspace(self@),
    {
        crate::yaml::emit_workspace(&self.workspace)
    }

    /// Removes every job whose trimmed name equals the trimmed `name`
    /// (at most one exists in a valid workspace), along with its worker.
    pub fn remove_job(&mut self, name: &String)
        requires
            old(self).wf(),
        ensures
            final(self).wf(),
            final(self)@ == old(self)@.filter(
                (|j: JobView| trim_spec(j.name) != trim_spec(name@)),
            ),
    {
        let ghost pred = (|j: JobView| trim_spec(j.name) != trim_spec(name@));
        let ghost oldjobs = self@;
        let target = trim(name.as_str());
        let mut kept: Vec<Job> = Vec::new();
        let mut i: usize = 0;
        while i < self.workspace.jobs.len()
            invariant
                0 <= i <= self.workspace.jobs.len(),
                target@ == trim_spec(name@),
                oldjobs == self@,
                *self == *old(self),
                old(self).wf(),
                oldjobs.len() == self.workspace.jobs@.len(),
                kept.deep_view() =~= oldjobs.subrange(0, i as int).filter(pred),
                pred == (|j: JobView| trim_spec(j.name) != trim_spec(name@)),
            decreases self.workspace.jobs.len() - i,
        {
            let ghost pre = oldjobs.subrange(0, i as int);
            let ghost cur = oldjobs.subrange(0, i + 1);
            proof {
                reveal(Seq::filter);
                assert(cur.drop_last() =~= pre);
                assert(cur.last() == oldjobs[i as int]);
                assert(self.workspace.jobs@[i as int]@ == oldjobs[i as int]);
            }
            let ghost kdv = kept.deep_view();
            let jn = trim(self.workspace.jobs[i].name.as_str());
            if !jn.eq(&target) {
                kept.push(self.workspace.jobs[i].duplicate());
                proof {
                    assert(kept.deep_view() =~= kdv.push(oldjobs[i as int]));
                }
            }
            i = i + 1;
        }
        proof {
            assert(oldjobs.subrange(0, oldjobs.len() as int) =~= oldjobs);
        }
        self.workspace.jobs = kept;
        proof {
            assert(self@ =~= oldjobs.filter(pred));
            lemma_filter_keeps_validity(oldjobs, pred);
        }
    }
}

/// Filtering a valid workspace's jobs keeps every remaining job valid
/// and the names unique.
proof fn lemma_filter_keeps_validity(jobs: Seq<JobView>, pred: spec_fn(JobView) -> bool)
    requires
        ws_valid(jobs),
    ensures
        ws_valid(jobs.filter(pred)),
    decreases jobs.len(),
{
    reveal(Seq::filter);
    if jobs.len() > 0 {
        let rest = jobs.drop_last();
        assert(ws_valid(rest)) by {
            assert(forall|i: int| 0 <= i < rest.len() ==> rest[i] == jobs[i]);
        }
        lemma_filter_keeps_validity(rest, pred);
        let f = jobs.filter(pred);
        let rf = rest.filter(pred);
        if pred(jobs.last()) {
            assert(f == rf.push(jobs.last()));
            assert forall|i: int| 0 <= i < f.len() implies job_valid(#[trigger] f[i]) by {
                if i < rf.len() {
                    assert(job_valid(rf[i]));
                } else {
                    assert(f[i] == jobs.last());
                    assert(job_valid(jobs[jobs.len() - 1]));
                }
            }
            assert forall|i: int, j: int|
                0 <= i < j < f.len() implies trim_spec(f[i].name) != trim_spec(f[j].name) by {
                if j < rf.len() {
                    assert(names_unique(rf));
                } else {
                    assert(f[j] == jobs.last());
                    lemma_filter_member_has_source(rest, pred, i);
                    let w = choose|w: int| 0 <= w < rest.len() && rest[w] == rf[i];
                    assert(trim_spec(jobs[w].name) != trim_spec(jobs[jobs.len() - 1].name));
                }
            }
        } else {
            assert(f == rf);
        }
    }
}

/// Every element of a filtered sequence occurs in the source.
proof fn lemma_filter_member_has_source<A>(s: Seq<A>, pred: spec_fn(A) -> bool, i: int)
    requires
        0 <= i < s.filter(pred).len(),
    ensures
        exists|w: int| 0 <= w < s.len() && s[w] == s.filter(pred)[i],
    decreases s.len(),
{
    reveal(Seq::filter);
    if s.len() > 0 {
        let rest = s.drop_last();
        let f = s.filter(pred);
        let rf = rest.filter(pred);
        if pred(s.last()) && i == f.len() - 1 {
            assert(s[s.len() - 1] == f[i]);
        } else {
            assert(rf[i] == f[i]);
            lemma_filter_member_has_source(rest, pred, i);
            let w = choose|w: int| 0 <= w < rest.len() && rest[w] == rf[i];
            assert(s[w] == f[i]);
        }
    }
}

} // verus!
