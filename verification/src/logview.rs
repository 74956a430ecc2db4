//! Log queries: paging through the captured lines of one build's log
//! file, as served by the branch worker.

use vstd::prelude::*;

use crate::branch::{record_status_spec, status_str, status_str_spec, BranchActor, BuildStatus};

verus! {

/// One page of a build log.
#[derive(Debug, Clone, PartialEq, Eq)]
pub struct LogResponse {
    /// The lines of the requested window, in file order.
    pub lines: Vec<String>,
    /// Whether at least one more line follows the window.
    pub has_more: bool,
    /// Status text of the matching build record, if one exists.
    pub status: Option<String>,
}

/// Mathematical model of a [`LogResponse`].
pub ghost struct LogResponseView {
    pub lines: Seq<Seq<char>>,
    pub has_more: bool,
    pub status: Option<Seq<char>>,
}

impl View for LogResponse {
    type V = LogResponseView;

    open spec fn view(&self) -> LogResponseView {
        LogResponseView {
            lines: self.lines.deep_view(),
            has_more: self.has_more,
            status: self.status.deep_view(),
        }
    }
}

/// The window of `lines` that a query for `num` lines from `start`
/// returns: everything from `start` up to `num` lines, clipped at the
/// end of the file.
pub open spec fn page_lines(lines: Seq<Seq<char>>, start: int, num: int) -> Seq<Seq<char>> {
    if start >= lines.len() {
        Seq::empty()
    } else if start + num <= lines.len() {
        lines.subrange(start, start + num)
    } else {
        lines.subrange(start, lines.len() as int)
    }
}

/// What a log query returns, as a function of the branch's records, the
/// file's lines (`None` when the file does not exist) and the window.
pub open spec fn get_log_spec(
    builds: Seq<crate::branch::BuildDetailsView>,
    build_num: u64,
    file_lines: Option<Seq<Seq<char>>>,
    start: u32,
    num_lines: u32,
) -> LogResponseView {
    match file_lines {
        None => LogResponseView { lines: Seq::empty(), has_more: false, status: None },
        Some(ls) => LogResponseView {
            lines: page_lines(ls, start as int, num_lines as int),
            has_more: ls.len() > start + num_lines,
            status: match record_status_spec(builds, build_num) {
                Some(st) => Some(status_str_spec(st)),
                None => None,
            },
        },
    }
}

impl BranchActor {
    /// Status of the first record numbered `bn`, if any.
    pub fn record_status(&self, bn: u64) -> (r: Option<BuildStatus>)
        ensures
            r == record_status_spec(self@.state.builds, bn),
    {
        let ghost builds = self@.state.builds;
        let n = self.state.builds.len();
        proof {
            assert(builds.subrange(0, n as int) =~= builds);
        }
        let mut i: usize = 0;
        while i < n
            invariant
                0 <= i <= n,
                n == self.state.builds.len(),
                builds == self@.state.builds,
                builds.len() == n,
                record_status_spec(builds, bn) == record_status_spec(
                    builds.subrange(i as int, n as int),
                    bn,
                ),
            decreases n - i,
        {
            let ghost tail = builds.subrange(i as int, n as int);
            proof {
                assert(tail[0] == builds[i as int]);
                assert(tail.drop_first() =~= builds.subrange(i + 1, n as int));
            }
            if self.state.builds[i].build_num == bn {
                return Some(self.state.builds[i].status);
            }
            i = i + 1;
        }
        proof {
            assert(builds.subrange(n as int, n as int).len() == 0);
        }
        None
    }

    /// Serves a log query over the lines read from the build's log file
    /// (`None` when the file does not exist): the requested window, one
    /// extra line peeked to set `has_more`, and the record's status.
    pub fn handle_get_log(
        &self,
        build_num: u64,
        file_lines: Option<&Vec<String>>,
        start: u32,
        num_lines: u32,
    ) -> (r: LogResponse)
        ensures
            r@ == get_log_spec(
                self@.state.builds,
                build_num,
                match file_lines {
                    Some(ls) => Some(ls.deep_view()),
                    None => None,
                },
                start,
                num_lines,
            ),
    {
        match file_lines {
            None => {
                let r = LogResponse { lines: Vec::new(), has_more: false, status: None };
                proof {
                    assert(r@.lines =~= Seq::<Seq<char>>::empty());
                }
                r
            },
            Some(ls) => {
                let ghost lv = ls.deep_view();
                let n = ls.len();
                let s = start as usize;
                let mut out: Vec<String> = Vec::new();
                let take: usize = if s >= n {
                    0
                } else if (num_lines as usize) <= n - s {
                    num_lines as usize
                } else {
                    n - s
                };
                let mut t: usize = 0;
                while t < take
                    invariant
                        0 <= t <= take,
                        take == 0 || s + take <= n,
                        n == ls.len(),
                        lv == ls.deep_view(),
                        lv.len() == n,
                        out@.len() == t,
                        forall|m: int| 0 <= m < t ==> out@[m]@ == lv[s + m],
                    decreases take - t,
                {
                    out.push(ls[s + t].clone());
                    proof {
                        assert(lv[s + t] == ls@[s + t as int]@);
                    }
                    t = t + 1;
                }
                let has_more = if n <= s {
                    false
                } else {
                    (n - s) > (num_lines as usize)
                };
                let status = match self.record_status(build_num) {
                    Some(st) => Some(String::from_str(status_str(st))),
                    None => None,
                };
                let r = LogResponse { lines: out, has_more, status };
                proof {
                    assert(r@.lines =~= page_lines(lv, start as int, num_lines as int));
                }
                r
            },
        }
    }
}

/// Serving a log query changes nothing, so querying the same window of
/// a build that is no longer being written twice returns identical
/// lines, `has_more` and status both times.
pub proof fn lemma_get_log_idempotent(
    builds: Seq<crate::branch::BuildDetailsView>,
    build_num: u64,
    file_lines: Option<Seq<Seq<char>>>,
    start: u32,
    num_lines: u32,
    r1: LogResponseView,
    r2: LogResponseView,
)
    requires
        r1 == get_log_spec(builds, build_num, file_lines, start, num_lines),
        r2 == get_log_spec(builds, build_num, file_lines, start, num_lines),
    ensures
        r1 == r2,
        r1.lines == r2.lines,
{
}

} // verus!
