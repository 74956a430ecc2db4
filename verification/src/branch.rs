//! Per-branch build history and the branch worker's state machine.
//!
//! A branch worker owns the persisted [`BranchDetails`] of one branch,
//! a monotonic build counter mirrored in `build_num.txt`, and the set of
//! build numbers whose build workers are still alive.  Every mutation is
//! a total function on this state; the surrounding process performs the
//! directory, git and subprocess work between the two halves of starting
//! a build.

use vstd::prelude::*;

use crate::models::{clone_opt_string, opt_string_eq, Job, JobView};

verus! {

/// Status of one recorded build.
#[derive(Clone, Copy, PartialEq, Eq, Structural, Debug)]
pub enum BuildStatus {
    /// The build was started and no terminal status has been recorded.
    Building,
    /// The build script exited with code zero.
    Finished,
    /// The build script failed, was killed, or could not be started.
    Error,
}

/// The text form a status takes in `data.json`.
pub open spec fn status_str_spec(s: BuildStatus) -> Seq<char> {
    match s {
        BuildStatus::Building => "building"@,
        BuildStatus::Finished => "finished"@,
        BuildStatus::Error => "error"@,
    }
}

/// Text form of a status.
pub fn status_str(s: BuildStatus) -> (r: &'static str)
    ensures
        r@ == status_str_spec(s),
{
    match s {
        BuildStatus::Building => "building",
        BuildStatus::Finished => "finished",
        BuildStatus::Error => "error",
    }
}

/// One build in a branch's history.
#[derive(Debug, Clone, PartialEq, Eq)]
pub struct BuildDetails {
    /// Number of the build, unique and increasing within its branch.
    pub build_num: u64,
    /// Commit the build was started for; absent for a forced build.
    pub commit_hash: Option<String>,
    /// Current status of the build.
    pub status: BuildStatus,
}

/// Mathematical model of a [`BuildDetails`].
pub ghost struct BuildDetailsView {
    pub build_num: u64,
    pub commit_hash: Option<Seq<char>>,
    pub status: BuildStatus,
}

impl View for BuildDetails {
    type V = BuildDetailsView;

    open spec fn view(&self) -> BuildDetailsView {
        BuildDetailsView {
            build_num: self.build_num,
            commit_hash: self.commit_hash.deep_view(),
            status: self.status,
        }
    }
}

impl DeepView for BuildDetails {
    type V = BuildDetailsView;

    open spec fn deep_view(&self) -> BuildDetailsView {
        self@
    }
}

impl BuildDetails {
    /// A copy whose model equals `self`'s.
    pub fn duplicate(&self) -> (r: BuildDetails)
        ensures
            r@ == self@,
    {
        BuildDetails {
            build_num: self.build_num,
            commit_hash: clone_opt_string(&self.commit_hash),
            status: self.status,
        }
    }
}

/// Persisted state of one branch: the last commit seen and the build
/// history, in the order the builds were started.
#[derive(Debug, Clone, PartialEq, Eq)]
pub struct BranchDetails {
    /// Commit hash most recently handed to this branch, if any.
    pub last_seen_commit: Option<String>,
    /// All recorded builds, oldest first.
    pub builds: Vec<BuildDetails>,
}

/// Mathematical model of a [`BranchDetails`].
pub ghost struct BranchDetailsView {
    pub last_seen_commit: Option<Seq<char>>,
    pub builds: Seq<BuildDetailsView>,
}

impl View for BranchDetails {
    type V = BranchDetailsView;

    open spec fn view(&self) -> BranchDetailsView {
        BranchDetailsView {
            last_seen_commit: self.last_seen_commit.deep_view(),
            builds: Seq::new(self.builds@.len(), |i: int| self.builds@[i]@),
        }
    }
}

impl BranchDetails {
    /// The state of a branch that has never seen a commit or a build.
    pub fn empty() -> (r: BranchDetails)
        ensures
            r@.last_seen_commit is None,
            r@.builds.len() == 0,
    {
        BranchDetails { last_seen_commit: None, builds: Vec::new() }
    }

    /// A copy whose model equals `self`'s.
    pub fn duplicate(&self) -> (r: BranchDetails)
        ensures
            r@ == self@,
    {
        let mut builds: Vec<BuildDetails> = Vec::new();
        let mut i: usize = 0;
        while i < self.builds.len()
            invariant
                0 <= i <= self.builds.len(),
                builds@.len() == i,
                forall|m: int| 0 <= m < i ==> builds@[m]@ == self.builds@[m]@,
            decreases self.builds.len() - i,
        {
            builds.push(self.builds[i].duplicate());
            i = i + 1;
        }
        let r = BranchDetails { last_seen_commit: clone_opt_string(&self.last_seen_commit), builds };
        proof {
            assert(r@.builds =~= self@.builds);
        }
        r
    }
}

/// Status of the build numbered `bn` in `builds`: the status of the
/// first record carrying that number, or `None` when no record does.
pub open spec fn record_status_spec(builds: Seq<BuildDetailsView>, bn: u64) -> Option<BuildStatus>
    decreases builds.len(),
{
    if builds.len() == 0 {
        None
    } else if builds[0].build_num == bn {
        Some(builds[0].status)
    } else {
        record_status_spec(builds.drop_first(), bn)
    }
}

/// Well-formedness of a branch's persisted state against its counter:
/// build numbers are positive, strictly increasing, and never exceed the
/// value of the persistent counter.
pub open spec fn branch_state_wf(state: BranchDetailsView, counter: u64) -> bool {
    &&& forall|i: int, j: int|
        0 <= i < j < state.builds.len() ==> state.builds[i].build_num < state.builds[j].build_num
    &&& forall|i: int|
        0 <= i < state.builds.len() ==> 1 <= (#[trigger] state.builds[i]).build_num <= counter
}

/// The worker owning one branch of one job.
pub struct BranchActor {
    /// The job this branch belongs to.
    pub job: Job,
    /// Name of the branch.
    pub branch: String,
    /// Build numbers whose build workers are still alive.
    pub live_builds: Vec<u64>,
    /// Persisted history of the branch.
    pub state: BranchDetails,
    /// Value of the persistent build counter `build_num.txt`.
    pub counter: u64,
}

/// Mathematical model of a [`BranchActor`].
pub ghost struct BranchActorView {
    pub job: JobView,
    pub branch: Seq<char>,
    pub live_builds: Seq<u64>,
    pub state: BranchDetailsView,
    pub counter: u64,
}

impl View for BranchActor {
    type V = BranchActorView;

    open spec fn view(&self) -> BranchActorView {
        BranchActorView {
            job: self.job@,
            branch: self.branch@,
            live_builds: self.live_builds@,
            state: self.state@,
            counter: self.counter,
        }
    }
}

/// Some record in `builds` carries number `bn` and is still `Building`.
pub open spec fn has_building_record(builds: Seq<BuildDetailsView>, bn: u64) -> bool {
    exists|k: int|
        0 <= k < builds.len() && (#[trigger] builds[k]).build_num == bn && builds[k].status
            == BuildStatus::Building
}

impl BranchActor {
    /// Invariant of a branch worker: the persisted state is well formed
    /// against the counter, live build numbers are distinct, and each
    /// live build has a record still in `Building` status.
    pub open spec fn wf(self) -> bool {
        &&& branch_state_wf(self@.state, self@.counter)
        &&& forall|i: int, j: int|
            0 <= i < j < self@.live_builds.len() ==> self@.live_builds[i] != self@.live_builds[j]
        &&& forall|i: int|
            0 <= i < self@.live_builds.len() ==> has_building_record(
                self@.state.builds,
                #[trigger] self@.live_builds[i],
            )
    }

    /// A fresh worker over explicit state, as rebuilt from disk.
    pub fn new(job: Job, branch: String, state: BranchDetails, counter: u64) -> (r: BranchActor)
        requires
            branch_state_wf(state@, counter),
        ensures
            r.wf(),
            r@.job == job@,
            r@.branch == branch@,
            r@.state == state@,
            r@.counter == counter,
            r@.live_builds.len() == 0,
    {
        BranchActor { job, branch, live_builds: Vec::new(), state, counter }
    }

    /// Start-up from what the branch directory held: the recorded state
    /// and counter when they are coherent, else an empty history (the
    /// counter is kept either way, so build numbers never repeat).
    pub fn recover(job: Job, branch: String, counter: u64, state: Option<BranchDetails>) -> (r:
        BranchActor)
        ensures
            r.wf(),
            r@.job == job@,
            r@.branch == branch@,
            r@.counter == counter,
            r@.live_builds.len() == 0,
            match state {
                Some(s) => if branch_state_wf(s@, counter) {
                    r@.state == s@
                } else {
                    r@.state.last_seen_commit is None && r@.state.builds.len() == 0
                },
                None => r@.state.last_seen_commit is None && r@.state.builds.len() == 0,
            },
    {
        match state {
            Some(s) => {
                if Self::check_state(&s, counter) {
                    Self::new(job, branch, s, counter)
                } else {
                    Self::new(job, branch, BranchDetails::empty(), counter)
                }
            },
            None => Self::new(job, branch, BranchDetails::empty(), counter),
        }
    }

    /// Runtime test for [`branch_state_wf`].
    pub fn check_state(state: &BranchDetails, counter: u64) -> (r: bool)
        ensures
            r == branch_state_wf(state@, counter),
    {
        let n = state.builds.len();
        let mut i: usize = 0;
        while i < n
            invariant
                n == state.builds.len(),
                0 <= i <= n,
                forall|a: int, b: int|
                    0 <= a < b < i ==> state@.builds[a].build_num < state@.builds[b].build_num,
                forall|a: int| 0 <= a < i ==> 1 <= (#[trigger] state@.builds[a]).build_num <= counter,
            decreases n - i,
        {
            let bn = state.builds[i].build_num;
            if bn < 1 || bn > counter {
                proof {
                    assert(state@.builds[i as int].build_num == bn);
                    assert(!branch_state_wf(state@, counter));
                }
                return false;
            }
            if i > 0 && state.builds[i - 1].build_num >= bn {
                proof {
                    assert(state@.builds[i - 1].build_num >= state@.builds[i as int].build_num);
                    if branch_state_wf(state@, counter) {
                        assert(state@.builds[i - 1].build_num < state@.builds[i as int].build_num);
                    }
                }
                return false;
            }
            proof {
                assert forall|a: int, b: int|
                    0 <= a < b < i + 1 implies state@.builds[a].build_num
                    < state@.builds[b].build_num by {
                    if b == i as int && a < i - 1 {
                        assert(state@.builds[a].build_num < state@.builds[i - 1].build_num);
                    }
                }
            }
            i = i + 1;
        }
        true
    }

    /// A commit was observed on the branch.  Returns `None`, changing
    /// nothing, when the commit is the one last seen; otherwise the next
    /// build number is reserved, exactly as the counter file records.
    pub fn handle_new_commit(&mut self, hash: &String) -> (r: Option<u64>)
        requires
            old(self).wf(),
            old(self)@.counter < u64::MAX,
        ensures
            final(self).wf(),
            old(self)@.state.last_seen_commit == Some(hash@) ==> r is None && final(self)@ == old(
                self,
            )@,
            old(self)@.state.last_seen_commit != Some(hash@) ==> r == Some(
                (old(self)@.counter + 1) as u64,
            ) && final(self)@ == (BranchActorView {
                counter: (old(self)@.counter + 1) as u64,
                ..old(self)@
            }),
    {
        let same = match &self.state.last_seen_commit {
            Some(seen) => seen.eq(hash),
            None => false,
        };
        if same {
            None
        } else {
            Some(self.reserve_build_num())
        }
    }

    /// A build was requested regardless of commits: the next build
    /// number is reserved unconditionally.
    pub fn handle_build_now(&mut self) -> (r: u64)
        requires
            old(self).wf(),
            old(self)@.counter < u64::MAX,
        ensures
            final(self).wf(),
            r == old(self)@.counter + 1,
            final(self)@ == (BranchActorView { counter: (old(self)@.counter + 1) as u64, ..old(
                self,
            )@ }),
    {
        self.reserve_build_num()
    }

    /// Reserves the next build number: the counter moves up by one and
    /// its new value is the reserved number, so the counter stays ahead
    /// of every recorded build.
    fn reserve_build_num(&mut self) -> (r: u64)
        requires
            old(self).wf(),
            old(self)@.counter < u64::MAX,
        ensures
            final(self).wf(),
            r == old(self)@.counter + 1,
            final(self)@ == (BranchActorView { counter: (old(self)@.counter + 1) as u64, ..old(
                self,
            )@ }),
    {
        self.counter = self.counter + 1;
        proof {
            lemma_same_history_wf(*old(self), *self);
        }
        self.counter
    }

    /// Records the build `bn` reserved for `hash`, after the checkout
    /// attempt ended with `clone_ok`.  A record in `Building` status is
    /// appended either way; only a successful checkout yields a live
    /// build worker; a supplied commit becomes the last seen one.  On a
    /// failed checkout the record deliberately stays `Building` with no
    /// worker to resolve it, so the failure is visible in the history.
    pub fn record_build(&mut self, bn: u64, hash: Option<String>, clone_ok: bool)
        requires
            old(self).wf(),
            bn == old(self)@.counter,
            forall|i: int|
                0 <= i < old(self)@.state.builds.len() ==> (#[trigger] old(
                    self,
                )@.state.builds[i]).build_num < bn,
            bn >= 1,
            forall|i: int|
                0 <= i < old(self)@.live_builds.len() ==> old(self)@.live_builds[i] != bn,
        ensures
            final(self).wf(),
            final(self)@.job == old(self)@.job,
            final(self)@.branch == old(self)@.branch,
            final(self)@.counter == old(self)@.counter,
            final(self)@.state.builds == old(self)@.state.builds.push(
                BuildDetailsView {
                    build_num: bn,
                    commit_hash: hash.deep_view(),
                    status: BuildStatus::Building,
                },
            ),
            final(self)@.state.last_seen_commit == (if hash is Some {
                hash.deep_view()
            } else {
                old(self)@.state.last_seen_commit
            }),
            final(self)@.live_builds == (if clone_ok {
                old(self)@.live_builds.push(bn)
            } else {
                old(self)@.live_builds
            }),
    {
        if clone_ok {
            self.live_builds.push(bn);
        }
        if hash.is_some() {
            self.state.last_seen_commit = clone_opt_string(&hash);
        }
        let ghost hv = hash.deep_view();
        let record = BuildDetails { build_num: bn, commit_hash: hash, status: BuildStatus::Building };
        self.state.builds.push(record);
        proof {
            let ob = old(self)@.state.builds;
            let nb = self@.state.builds;
            let newrec = BuildDetailsView {
                build_num: bn,
                commit_hash: hv,
                status: BuildStatus::Building,
            };
            assert(nb =~= ob.push(newrec));
            assert forall|i: int, j: int|
                0 <= i < j < nb.len() implies nb[i].build_num < nb[j].build_num by {
                if j < ob.len() {
                    assert(ob[i].build_num < ob[j].build_num);
                } else {
                    assert(nb[i] == ob[i]);
                    assert(ob[i].build_num < bn);
                }
            }
            assert forall|i: int|
                0 <= i < nb.len() implies 1 <= (#[trigger] nb[i]).build_num
                    <= self@.counter by {
                if i < ob.len() {
                    assert(1 <= ob[i].build_num <= old(self)@.counter);
                }
            }
            let nl = self@.live_builds;
            let ol = old(self)@.live_builds;
            assert forall|i: int, j: int|
                0 <= i < j < nl.len() implies nl[i] != nl[j] by {
                if j < ol.len() {
                    assert(ol[i] != ol[j]);
                } else {
                    assert(ol[i] != bn);
                }
            }
            assert forall|i: int|
                0 <= i < nl.len() implies has_building_record(nb, #[trigger] nl[i]) by {
                if i < ol.len() {
                    assert(has_building_record(ob, ol[i]));
                    let k = choose|k: int|
                        0 <= k < ob.len() && (#[trigger] ob[k]).build_num == ol[i] && ob[k].status
                            == BuildStatus::Building;
                    assert(nb[k] == ob[k]);
                    assert(nb[k].build_num == nl[i] && nb[k].status == BuildStatus::Building);
                } else {
                    assert(nl[i] == bn);
                    assert(nb[ob.len() as int] == newrec);
                    assert(nb[ob.len() as int].build_num == nl[i] && nb[ob.len() as int].status
                        == BuildStatus::Building);
                }
            }
        }
    }

    /// A build worker reported its terminal status: the build leaves the
    /// live set and every record carrying its number takes the status.
    #[verifier::loop_isolation(false)]
    pub fn handle_build_stopped(&mut self, build_num: u64, status: BuildStatus)
        requires
            old(self).wf(),
            status != BuildStatus::Building,
        ensures
            final(self).wf(),
            final(self)@.job == old(self)@.job,
            final(self)@.branch == old(self)@.branch,
            final(self)@.counter == old(self)@.counter,
            final(self)@.state.last_seen_commit == old(self)@.state.last_seen_commit,
            final(self)@.live_builds == old(self)@.live_builds.filter(
                (|x: u64| x != build_num),
            ),
            !final(self)@.live_builds.contains(build_num),
            final(self)@.state.builds == Seq::new(
                old(self)@.state.builds.len(),
                (|i: int|
                    if old(self)@.state.builds[i].build_num == build_num {
                        BuildDetailsView { status, ..old(self)@.state.builds[i] }
                    } else {
                        old(self)@.state.builds[i]
                    }),
            ),
    {
        let ghost pred = (|x: u64| x != build_num);
        let ghost oldlive = old(self)@.live_builds;
        let mut kept: Vec<u64> = Vec::new();
        let mut i: usize = 0;
        while i < self.live_builds.len()
            invariant
                0 <= i <= self.live_builds.len(),
                oldlive == self.live_builds@,
                forall|a: int, b: int| 0 <= a < b < oldlive.len() ==> oldlive[a] != oldlive[b],
                kept@ =~= oldlive.subrange(0, i as int).filter(pred),
                forall|m: int| 0 <= m < kept@.len() ==> #[trigger] kept@[m] != build_num,
                forall|m: int|
                    0 <= m < kept@.len() ==> oldlive.subrange(0, i as int).contains(
                        #[trigger] kept@[m],
                    ),
                forall|a: int, b: int| 0 <= a < b < kept@.len() ==> kept@[a] != kept@[b],
                pred == (|x: u64| x != build_num),
            decreases self.live_builds.len() - i,
        {
            let x = self.live_builds[i];
            let ghost prekept = kept@;
            if x != build_num {
                kept.push(x);
                proof {
                    let pre = oldlive.subrange(0, i as int);
                    let cur = oldlive.subrange(0, i + 1);
                    assert forall|m: int|
                        0 <= m < kept@.len() implies cur.contains(#[trigger] kept@[m]) by {
                        if m < prekept.len() {
                            let j = choose|j: int| 0 <= j < pre.len() && pre[j] == prekept[m];
                            assert(cur[j] == kept@[m]);
                        } else {
                            assert(cur[i as int] == kept@[m]);
                        }
                    }
                    assert forall|a: int, b: int|
                        0 <= a < b < kept@.len() implies kept@[a] != kept@[b] by {
                        if b == kept@.len() - 1 {
                            let j = choose|j: int| 0 <= j < pre.len() && pre[j] == prekept[a];
                            assert(oldlive[j] != oldlive[i as int]);
                        }
                    }
                }
            }
            proof {
                reveal(Seq::filter);
                let pre = oldlive.subrange(0, i as int);
                let cur = oldlive.subrange(0, i + 1);
                assert(cur.drop_last() =~= pre);
                assert(cur.last() == x);
            }
            i = i + 1;
        }
        proof {
            assert(oldlive.subrange(0, oldlive.len() as int) =~= oldlive);
        }
        let ghost keptv = kept@;
        self.live_builds = kept;
        proof {
            assert(self.live_builds@ == keptv);
            assert forall|m: int|
                0 <= m < keptv.len() implies oldlive.contains(#[trigger] keptv[m]) by {
                assert(oldlive.subrange(0, oldlive.len() as int).contains(keptv[m]));
            }
        }
        let n = self.state.builds.len();
        let mut k: usize = 0;
        while k < n
            invariant
                n == self.state.builds.len(),
                0 <= k <= n,
                self@.state.builds.len() == n,
                forall|m: int|
                    k <= m < n ==> self@.state.builds[m] == old(self)@.state.builds[m],
                forall|m: int|
                    0 <= m < k ==> self@.state.builds[m] == (if old(
                        self,
                    )@.state.builds[m].build_num == build_num {
                        BuildDetailsView { status, ..old(self)@.state.builds[m] }
                    } else {
                        old(self)@.state.builds[m]
                    }),
                self@.state.last_seen_commit == old(self)@.state.last_seen_commit,
                self@.live_builds == old(self)@.live_builds.filter(pred),
                self@.live_builds == keptv,
                forall|m: int| 0 <= m < keptv.len() ==> #[trigger] keptv[m] != build_num,
                forall|m: int| 0 <= m < keptv.len() ==> oldlive.contains(#[trigger] keptv[m]),
                forall|a: int, b: int| 0 <= a < b < keptv.len() ==> keptv[a] != keptv[b],
                self@.counter == old(self)@.counter,
                self@.job == old(self)@.job,
                self@.branch == old(self)@.branch,
                pred == (|x: u64| x != build_num),
            decreases n - k,
        {
            let ghost pre_builds = self.state.builds@;
            let ghost pre_view = self@.state.builds;
            if self.state.builds[k].build_num == build_num {
                let hash = clone_opt_string(&self.state.builds[k].commit_hash);
                let bn = self.state.builds[k].build_num;
                self.state.builds[k] = BuildDetails { build_num: bn, commit_hash: hash, status };
                proof {
                    assert(self.state.builds@ == pre_builds.update(
                        k as int,
                        self.state.builds@[k as int],
                    ));
                    assert(self@.state.builds[k as int] == BuildDetailsView {
                        status,
                        ..old(self)@.state.builds[k as int]
                    });
                }
            }
            proof {
                assert forall|m: int| 0 <= m < n && m != k implies self@.state.builds[m]
                    == pre_view[m] by {
                    assert(self.state.builds@[m] == pre_builds[m]);
                }
                assert(self@.state.builds.len() == n);
                assert forall|m: int|
                    0 <= m < k + 1 implies self@.state.builds[m] == (if old(
                    self,
                )@.state.builds[m].build_num == build_num {
                    BuildDetailsView { status, ..old(self)@.state.builds[m] }
                } else {
                    old(self)@.state.builds[m]
                }) by {
                    if m < k as int {
                        assert(self@.state.builds[m] == pre_view[m]);
                    } else {
                        assert(pre_view[m] == old(self)@.state.builds[m]);
                        if old(self)@.state.builds[m].build_num != build_num {
                            assert(self@.state.builds[m] == pre_view[m]);
                        }
                    }
                }
                assert forall|m: int|
                    k + 1 <= m < n implies self@.state.builds[m] == old(
                    self,
                )@.state.builds[m] by {
                    assert(self@.state.builds[m] == pre_view[m]);
                }
            }
            k = k + 1;
        }
        proof {
            assert(self@.state.builds =~= Seq::new(
                old(self)@.state.builds.len(),
                (|i: int|
                    if old(self)@.state.builds[i].build_num == build_num {
                        BuildDetailsView { status, ..old(self)@.state.builds[i] }
                    } else {
                        old(self)@.state.builds[i]
                    }),
            ));
            let live = self@.live_builds;
            assert(forall|i: int|
                0 <= i < self@.state.builds.len() ==> (#[trigger] self@.state.builds[i]).build_num
                    == old(self)@.state.builds[i].build_num);
            if live.contains(build_num) {
                let w = choose|i: int| 0 <= i < live.len() && live[i] == build_num;
                assert(keptv[w] != build_num);
            }
            assert(self.wf()) by {
                assert forall|i: int|
                    0 <= i < live.len() implies has_building_record(
                    self@.state.builds,
                    #[trigger] live[i],
                ) by {
                    assert(oldlive.contains(keptv[i]));
                    let j = choose|j: int| 0 <= j < oldlive.len() && oldlive[j] == keptv[i];
                    assert(has_building_record(old(self)@.state.builds, oldlive[j]));
                    let k2 = choose|k2: int|
                        0 <= k2 < old(self)@.state.builds.len() && (#[trigger] old(
                            self,
                        )@.state.builds[k2]).build_num == oldlive[j] && old(
                            self,
                        )@.state.builds[k2].status == BuildStatus::Building;
                    assert(live[i] != build_num);
                    assert(self@.state.builds[k2] == old(self)@.state.builds[k2]);
                    assert(self@.state.builds[k2].build_num == live[i]);
                    assert(self@.state.builds[k2].status == BuildStatus::Building);
                }
            }
        }
    }

    /// Whether a live build worker exists for build number `bn`.
    pub fn has_live_build(&self, bn: u64) -> (r: bool)
        ensures
            r == self@.live_builds.contains(bn),
    {
        let mut i: usize = 0;
        while i < self.live_builds.len()
            invariant
                0 <= i <= self.live_builds.len(),
                forall|m: int| 0 <= m < i ==> self.live_builds@[m] != bn,
            decreases self.live_builds.len() - i,
        {
            if self.live_builds[i] == bn {
                return true;
            }
            i = i + 1;
        }
        false
    }

    /// A copy of the branch's persisted state, as served to detail
    /// queries.
    pub fn handle_get_details(&self) -> (r: BranchDetails)
        ensures
            r@ == self@.state,
    {
        self.state.duplicate()
    }
}

/// The counter value recovered from what `build_num.txt` held: a
/// missing file or unparsable contents count as zero, matching how the
/// engine treats a branch directory it has not numbered builds in yet.
pub fn initial_counter(contents: Option<&String>) -> (r: u64)
    ensures
        r == match contents {
            None => 0u64,
            Some(s) => match crate::text::parse_u64_spec(s@) {
                Some(v) => v,
                None => 0u64,
            },
        },
{
    match contents {
        None => 0,
        Some(s) => match crate::text::parse_u64(s.as_str()) {
            Some(v) => v,
            None => 0,
        },
    }
}

/// Live builds only ever point at records whose status is `Building`:
/// once a record is terminal (`Finished` or `Error`), a well-formed
/// worker holds no live build worker for its number.
pub proof fn lemma_terminal_records_have_no_live_build(a: BranchActor, k: int)
    requires
        a.wf(),
        0 <= k < a@.state.builds.len(),
        a@.state.builds[k].status != BuildStatus::Building,
    ensures
        !a@.live_builds.contains(a@.state.builds[k].build_num),
{
    let bn = a@.state.builds[k].build_num;
    if a@.live_builds.contains(bn) {
        let i = choose|i: int| 0 <= i < a@.live_builds.len() && a@.live_builds[i] == bn;
        assert(has_building_record(a@.state.builds, a@.live_builds[i]));
        let k2 = choose|k2: int|
            0 <= k2 < a@.state.builds.len() && (#[trigger] a@.state.builds[k2]).build_num
                == a@.live_builds[i] && a@.state.builds[k2].status == BuildStatus::Building;
        assert(a@.state.builds[k2].build_num == bn);
        if k2 < k {
            assert(a@.state.builds[k2].build_num < a@.state.builds[k].build_num);
        } else if k2 > k {
            assert(a@.state.builds[k].build_num < a@.state.builds[k2].build_num);
        }
    }
}

/// The persistent counter dominates every recorded build number: what
/// `build_num.txt` holds is at least every `build_num` in `data.json`.
pub proof fn lemma_counter_dominates_records(a: BranchActor, i: int)
    requires
        a.wf(),
        0 <= i < a@.state.builds.len(),
    ensures
        a@.state.builds[i].build_num <= a@.counter,
{
}

/// A worker whose history and live set are unchanged and whose counter
/// has not decreased stays well formed.
pub proof fn lemma_same_history_wf(a: BranchActor, b: BranchActor)
    requires
        a.wf(),
        b@.state == a@.state,
        b@.live_builds == a@.live_builds,
        b@.counter >= a@.counter,
    ensures
        b.wf(),
{
    assert forall|i: int|
        0 <= i < b@.state.builds.len() implies 1 <= (#[trigger] b@.state.builds[i]).build_num
            <= b@.counter by {
        assert(1 <= a@.state.builds[i].build_num <= a@.counter);
    }
    assert forall|i: int, j: int|
        0 <= i < j < b@.live_builds.len() implies b@.live_builds[i] != b@.live_builds[j] by {
        assert(a@.live_builds[i] != a@.live_builds[j]);
    }
    assert forall|i: int|
        0 <= i < b@.live_builds.len() implies has_building_record(
        b@.state.builds,
        #[trigger] b@.live_builds[i],
    ) by {
        assert(has_building_record(a@.state.builds, a@.live_builds[i]));
    }
    assert forall|i: int, j: int|
        0 <= i < j < b@.state.builds.len() implies b@.state.builds[i].build_num
            < b@.state.builds[j].build_num by {
        assert(a@.state.builds[i].build_num < a@.state.builds[j].build_num);
    }
}

} // verus!
