//! Build worker logic: the command tokenizer, the mapping from process
//! outcomes to build statuses, and the shape of captured log lines.

use vstd::prelude::*;

use crate::branch::BuildStatus;
use crate::text::{chars_to_string, str_chars, trim_spec, trimmed_empty, is_space_char,
    trim_start_spec, trim_end_spec};

verus! {

/// Tokens of a build command: the maximal runs of non-space characters,
/// in order; splitting is on single spaces and empty tokens vanish.
pub open spec fn tokens(s: Seq<char>) -> Seq<Seq<char>>
    decreases s.len(),
{
    if s.len() == 0 {
        Seq::empty()
    } else {
        let rest = tokens(s.drop_last());
        let c = s.last();
        if c == ' ' {
            rest
        } else if s.len() >= 2 && s[s.len() - 2] != ' ' {
            rest.update(rest.len() - 1, rest.last().push(c))
        } else {
            rest.push(seq![c])
        }
    }
}

/// A string ending in a non-space character has at least one token.
proof fn lemma_tokens_nonempty_last(s: Seq<char>)
    requires
        s.len() > 0,
        s.last() != ' ',
    ensures
        tokens(s).len() > 0,
    decreases s.len(),
{
    if s.len() >= 2 && s[s.len() - 2] != ' ' {
        lemma_tokens_nonempty_last(s.drop_last());
    }
}

/// A string holding any non-space character has at least one token.
proof fn lemma_tokens_nonempty(s: Seq<char>, i: int)
    requires
        0 <= i < s.len(),
        s[i] != ' ',
    ensures
        tokens(s).len() > 0,
    decreases s.len(),
{
    if i == s.len() - 1 {
        lemma_tokens_nonempty_last(s);
    } else {
        lemma_tokens_nonempty(s.drop_last(), i);
    }
}

proof fn lemma_all_space_trims_empty(s: Seq<char>)
    requires
        forall|i: int| 0 <= i < s.len() ==> is_space_char(s[i]),
    ensures
        trim_spec(s).len() == 0,
    decreases s.len(),
{
    if s.len() > 0 {
        assert(is_space_char(s[0]));
        let t = s.drop_first();
        assert(forall|i: int| 0 <= i < t.len() ==> is_space_char(t[i]));
        lemma_all_space_trims_empty(t);
        assert(trim_start_spec(s) == trim_start_spec(t));
    } else {
        assert(trim_start_spec(s) == s);
        assert(trim_end_spec(s) == s);
    }
}

/// A command that does not trim to nothing has at least one token, so
/// every valid job's build script yields a program to run.
pub proof fn lemma_nonblank_has_tokens(s: Seq<char>)
    requires
        !trimmed_empty(s),
    ensures
        tokens(s).len() > 0,
{
    if forall|i: int| 0 <= i < s.len() ==> is_space_char(s[i]) {
        lemma_all_space_trims_empty(s);
    } else {
        let i = choose|i: int| 0 <= i < s.len() && !is_space_char(s[i]);
        lemma_tokens_nonempty(s, i);
    }
}

/// Splits a build command into the program (its first token) and the
/// arguments (the remaining tokens).  `None` exactly when the command
/// has no token at all; a command that does not trim to nothing always
/// yields a program.
pub fn parse_command(cmd: &str) -> (r: Option<(String, Vec<String>)>)
    ensures
        match r {
            Some(pa) => tokens(cmd@).len() > 0 && pa.0@ == tokens(cmd@)[0] && pa.1.deep_view()
                == tokens(cmd@).drop_first(),
            None => tokens(cmd@).len() == 0,
        },
        !trimmed_empty(cmd@) ==> r is Some,
{
    let cs = str_chars(cmd);
    let n = cs.len();
    let mut toks: Vec<Vec<char>> = Vec::new();
    let mut i: usize = 0;
    while i < n
        invariant
            cs@ == cmd@,
            n == cs.len(),
            0 <= i <= n,
            toks.deep_view() == tokens(cs@.subrange(0, i as int)),
        decreases n - i,
    {
        let ghost pre = cs@.subrange(0, i as int);
        let ghost cur = cs@.subrange(0, i + 1);
        proof {
            assert(cur.drop_last() =~= pre);
            assert(cur.last() == cs@[i as int]);
            if i > 0 {
                assert(cur[cur.len() - 2] == cs@[i - 1]);
            }
        }
        let c = cs[i];
        if c != ' ' {
            let ghost tev = toks@;
            let ghost tdv = toks.deep_view();
            if i > 0 && cs[i - 1] != ' ' {
                proof {
                    lemma_tokens_nonempty_last(pre);
                }
                let mut lastv = match toks.pop() {
                    Some(v) => v,
                    None => Vec::new(),
                };
                proof {
                    assert(lastv@ == tev.last()@);
                }
                lastv.push(c);
                let ghost lv = lastv@;
                toks.push(lastv);
                proof {
                    let goal = tdv.update(tdv.len() - 1, tdv.last().push(c));
                    assert forall|m: int|
                        0 <= m < toks.deep_view().len() implies toks.deep_view()[m]
                        == goal[m] by {
                        assert(toks.deep_view()[m] == toks@[m]@);
                        if m < tdv.len() - 1 {
                            assert(toks@[m] == tev[m]);
                            assert(tdv[m] == tev[m]@);
                        } else {
                            assert(toks@[m]@ == lv);
                            assert(tdv.last() == tev.last()@);
                        }
                    }
                    assert(toks.deep_view() =~= goal);
                    assert(toks.deep_view() =~= tokens(cur));
                }
            } else {
                let mut single: Vec<char> = Vec::new();
                single.push(c);
                proof {
                    assert(single@ =~= seq![cs@[i as int]]);
                }
                let ghost sv = single@;
                toks.push(single);
                proof {
                    let goal = tdv.push(seq![cs@[i as int]]);
                    assert forall|m: int|
                        0 <= m < toks.deep_view().len() implies toks.deep_view()[m]
                        == goal[m] by {
                        assert(toks.deep_view()[m] == toks@[m]@);
                        if m < tdv.len() {
                            assert(toks@[m] == tev[m]);
                            assert(tdv[m] == tev[m]@);
                        } else {
                            assert(toks@[m]@ == sv);
                        }
                    }
                    assert(toks.deep_view() =~= goal);
                    assert(toks.deep_view() =~= tokens(cur));
                }
            }
        }
        i = i + 1;
    }
    proof {
        assert(cs@.subrange(0, n as int) =~= cs@);
    }
    if toks.len() == 0 {
        proof {
            if !trimmed_empty(cmd@) {
                lemma_nonblank_has_tokens(cmd@);
            }
        }
        return None;
    }
    let prog = chars_to_string(&toks[0]);
    let mut args: Vec<String> = Vec::new();
    let mut k: usize = 1;
    while k < toks.len()
        invariant
            1 <= k <= toks.len(),
            toks.deep_view() == tokens(cmd@),
            args.deep_view() =~= toks.deep_view().subrange(1, k as int),
        decreases toks.len() - k,
    {
        let ghost aev = args@;
        let ghost adv = args.deep_view();
        args.push(chars_to_string(&toks[k]));
        proof {
            let goal = adv.push(toks.deep_view()[k as int]);
            assert forall|m: int|
                0 <= m < args.deep_view().len() implies args.deep_view()[m] == goal[m] by {
                assert(args.deep_view()[m] == args@[m]@);
                if m < adv.len() {
                    assert(args@[m] == aev[m]);
                    assert(adv[m] == aev[m]@);
                } else {
                    assert(args@[m]@ == toks@[k as int]@);
                    assert(toks.deep_view()[k as int] == toks@[k as int]@);
                }
            }
            assert(args.deep_view() =~= goal);
            assert(args.deep_view() =~= toks.deep_view().subrange(1, k + 1));
        }
        k = k + 1;
    }
    proof {
        assert(toks.deep_view().subrange(1, toks.deep_view().len() as int) =~= toks.deep_view()
            .drop_first());
        assert(prog@ == tokens(cmd@)[0]);
    }
    Some((prog, args))
}

/// Status a finished build takes from its subprocess outcome: exit code
/// zero means success; any other exit, a signal or kill (no code), or a
/// failure to start the process at all, is an error.
pub fn status_of_exit(code: Option<i32>) -> (r: BuildStatus)
    ensures
        r == (if code == Some(0i32) {
            BuildStatus::Finished
        } else {
            BuildStatus::Error
        }),
{
    match code {
        Some(c) if c == 0 => BuildStatus::Finished,
        _ => BuildStatus::Error,
    }
}

/// A captured log line as written to the log file: the stream tag, the
/// line, and the terminating newline.
pub fn format_log_line(from_err: bool, line: &str) -> (r: String)
    ensures
        r@ == (if from_err {
            "[err] "@
        } else {
            "[out] "@
        }) + line@ + "\n"@,
{
    let prefix = if from_err {
        "[err] "
    } else {
        "[out] "
    };
    String::from_str(prefix).concat(line).concat("\n")
}

} // verus!
