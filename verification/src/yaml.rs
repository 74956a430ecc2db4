//! The text form of `thingy.yaml`: the workspace is written as one
//! fixed-shape YAML document (every optional field spelled out, strings
//! double-quoted), and read back by a parser that accepts exactly what
//! the engine writes, so a workspace saved after job changes reloads
//! unchanged.

use vstd::prelude::*;

use crate::json::{esc, expect_lit, json_opt_string, json_string, lemma_parse_num_dec,
    lemma_parse_opt_string, lemma_parse_qstring_esc, lemma_starts_with_concat, parse_num,
    parse_num_at, parse_opt_string, parse_opt_string_at, parse_qstring, parse_qstring_at,
    push_json_string, push_lit, push_opt_string, push_u64, starts_with};
use crate::models::{GitAuth, GitAuthView, Job, JobView, Workspace};
use crate::text::{chars_to_string, dec_spec, is_dec_digit, str_chars};

verus! {

/// A number or `null`.
pub open spec fn yaml_opt_num(v: Option<u64>) -> Seq<char> {
    match v {
        None => "null"@,
        Some(n) => dec_spec(n as int),
    }
}

/// The lines of a block list of quoted strings, one item per line.
pub open spec fn yaml_items(items: Seq<Seq<char>>) -> Seq<char>
    decreases items.len(),
{
    if items.len() == 0 {
        Seq::empty()
    } else {
        "      - "@ + json_string(items[0]) + "\n"@ + yaml_items(items.drop_first())
    }
}

/// An optional list field: `null`, `[]`, or a block list.
pub open spec fn yaml_opt_list(label: Seq<char>, v: Option<Seq<Seq<char>>>) -> Seq<char> {
    match v {
        None => label + ": null\n"@,
        Some(items) => if items.len() == 0 {
            label + ": []\n"@
        } else {
            label + ":\n"@ + yaml_items(items)
        },
    }
}

/// The `auth` field of a job.
pub open spec fn yaml_auth(a: Option<GitAuthView>) -> Seq<char> {
    match a {
        None => "    auth: null\n"@,
        Some(GitAuthView::PrivateKey { path, passphrase }) => "    auth:\n      PrivateKey:\n        path: "@
            + json_string(path) + "\n        passphrase: "@ + json_opt_string(passphrase)
            + "\n"@,
        Some(GitAuthView::UserPass { username, password }) => "    auth:\n      UserPass:\n        username: "@
            + json_string(username) + "\n        password: "@ + json_string(password) + "\n"@,
    }
}

/// One job entry of the workspace file.
pub open spec fn yaml_job(j: JobView) -> Seq<char> {
    "  - name: "@ + json_string(j.name) + "\n    repo_url: "@ + json_string(j.repo_url)
        + "\n    build_script: "@ + json_string(j.build_script)
        + "\n    poll_interval_seconds: "@ + yaml_opt_num(j.poll_interval_seconds) + "\n"@
        + "    branch: "@ + json_opt_string(j.branch) + "\n"@ + yaml_opt_list(
        "    branches"@,
        j.branches,
    ) + yaml_opt_list("    ignore_branches"@, j.ignore_branches) + yaml_auth(j.auth)
}

/// The job entries, in order.
pub open spec fn yaml_jobs(jobs: Seq<JobView>) -> Seq<char>
    decreases jobs.len(),
{
    if jobs.len() == 0 {
        Seq::empty()
    } else {
        yaml_job(jobs[0]) + yaml_jobs(jobs.drop_first())
    }
}

/// The whole `thingy.yaml` text for a workspace.
pub open spec fn yaml_workspace(jobs: Seq<JobView>) -> Seq<char> {
    if jobs.len() == 0 {
        "jobs: []\n"@
    } else {
        "jobs:\n"@ + yaml_jobs(jobs)
    }
}

proof fn lemma_yaml_items_push(items: Seq<Seq<char>>, x: Seq<char>)
    ensures
        yaml_items(items.push(x)) == yaml_items(items) + ("      - "@ + json_string(x) + "\n"@),
    decreases items.len(),
{
    if items.len() == 0 {
        assert(items.push(x)[0] == x);
        assert(items.push(x).drop_first() =~= Seq::<Seq<char>>::empty());
        assert(yaml_items(items.push(x)) == "      - "@ + json_string(x) + "\n"@ + yaml_items(
            items.push(x).drop_first(),
        ));
        assert(yaml_items(items.push(x)) =~= yaml_items(items) + ("      - "@ + json_string(x)
            + "\n"@));
    } else {
        assert(items.push(x)[0] == items[0]);
        assert(items.push(x).drop_first() =~= items.drop_first().push(x));
        lemma_yaml_items_push(items.drop_first(), x);
        assert(yaml_items(items.push(x)) == "      - "@ + json_string(items[0]) + "\n"@
            + yaml_items(items.drop_first().push(x)));
        assert(yaml_items(items.push(x)) =~= yaml_items(items) + ("      - "@ + json_string(x)
            + "\n"@));
    }
}

proof fn lemma_yaml_jobs_push(jobs: Seq<JobView>, x: JobView)
    ensures
        yaml_jobs(jobs.push(x)) == yaml_jobs(jobs) + yaml_job(x),
    decreases jobs.len(),
{
    if jobs.len() == 0 {
        assert(jobs.push(x)[0] == x);
        assert(jobs.push(x).drop_first() =~= Seq::<JobView>::empty());
        assert(yaml_jobs(jobs.push(x)) == yaml_job(x) + yaml_jobs(jobs.push(x).drop_first()));
        assert(yaml_jobs(jobs.push(x)) =~= yaml_jobs(jobs) + yaml_job(x));
    } else {
        assert(jobs.push(x)[0] == jobs[0]);
        assert(jobs.push(x).drop_first() =~= jobs.drop_first().push(x));
        lemma_yaml_jobs_push(jobs.drop_first(), x);
        assert(yaml_jobs(jobs.push(x)) == yaml_job(jobs[0]) + yaml_jobs(
            jobs.drop_first().push(x),
        ));
        assert(yaml_jobs(jobs.push(x)) =~= yaml_jobs(jobs) + yaml_job(x));
    }
}

fn push_opt_num(buf: &mut Vec<char>, v: &Option<u64>)
    ensures
        final(buf)@ == old(buf)@ + yaml_opt_num(*v),
{
    match v {
        None => push_lit(buf, "null"),
        Some(n) => push_u64(buf, *n),
    }
}

fn push_opt_list(buf: &mut Vec<char>, label: &str, v: &Option<Vec<String>>)
    ensures
        final(buf)@ == old(buf)@ + yaml_opt_list(label@, v.deep_view()),
{
    match v {
        None => {
            push_lit(buf, label);
            push_lit(buf, ": null\n");
            proof {
                assert(buf@ =~= old(buf)@ + (label@ + ": null\n"@));
            }
        },
        Some(items) => {
            if items.len() == 0 {
                push_lit(buf, label);
                push_lit(buf, ": []\n");
                proof {
                    assert(items.deep_view().len() == 0);
                    assert(buf@ =~= old(buf)@ + (label@ + ": []\n"@));
                }
            } else {
                push_lit(buf, label);
                push_lit(buf, ":\n");
                let ghost head = buf@;
                let ghost iv = items.deep_view();
                let n = items.len();
                let mut i: usize = 0;
                proof {
                    assert(iv.subrange(0, 0) =~= Seq::<Seq<char>>::empty());
                }
                while i < n
                    invariant
                        n == items.len(),
                        0 <= i <= n,
                        iv == items.deep_view(),
                        iv.len() == n,
                        buf@ == head + yaml_items(iv.subrange(0, i as int)),
                    decreases n - i,
                {
                    let ghost pre = iv.subrange(0, i as int);
                    push_lit(buf, "      - ");
                    push_json_string(buf, items[i].as_str());
                    push_lit(buf, "\n");
                    proof {
                        assert(items@[i as int]@ == iv[i as int]);
                        lemma_yaml_items_push(pre, iv[i as int]);
                        assert(pre.push(iv[i as int]) =~= iv.subrange(0, i + 1));
                        assert(buf@ =~= head + yaml_items(iv.subrange(0, i + 1)));
                    }
                    i = i + 1;
                }
                proof {
                    assert(iv.subrange(0, n as int) =~= iv);
                    assert(buf@ =~= old(buf)@ + (label@ + ":\n"@ + yaml_items(iv)));
                }
            }
        },
    }
}

fn push_auth(buf: &mut Vec<char>, a: &Option<GitAuth>)
    ensures
        final(buf)@ == old(buf)@ + yaml_auth(match a {
            Some(x) => Some(x@),
            None => None,
        }),
{
    match a {
        None => push_lit(buf, "    auth: null\n"),
        Some(GitAuth::PrivateKey { path, passphrase }) => {
            push_lit(buf, "    auth:\n      PrivateKey:\n        path: ");
            push_json_string(buf, path.as_str());
            push_lit(buf, "\n        passphrase: ");
            push_opt_string(buf, passphrase);
            push_lit(buf, "\n");
            proof {
                assert(buf@ =~= old(buf)@ + yaml_auth(Some(
                    GitAuthView::PrivateKey {
                        path: path@,
                        passphrase: passphrase.deep_view(),
                    },
                )));
            }
        },
        Some(GitAuth::UserPass { username, password }) => {
            push_lit(buf, "    auth:\n      UserPass:\n        username: ");
            push_json_string(buf, username.as_str());
            push_lit(buf, "\n        password: ");
            push_json_string(buf, password.as_str());
            push_lit(buf, "\n");
            proof {
                assert(buf@ =~= old(buf)@ + yaml_auth(Some(
                    GitAuthView::UserPass { username: username@, password: password@ },
                )));
            }
        },
    }
}

#[verifier::rlimit(100)]
fn push_job(buf: &mut Vec<char>, j: &Job)
    ensures
        final(buf)@ == old(buf)@ + yaml_job(j@),
{
    push_lit(buf, "  - name: ");
    push_json_string(buf, j.name.as_str());
    push_lit(buf, "\n    repo_url: ");
    push_json_string(buf, j.repo_url.as_str());
    push_lit(buf, "\n    build_script: ");
    push_json_string(buf, j.build_script.as_str());
    push_lit(buf, "\n    poll_interval_seconds: ");
    push_opt_num(buf, &j.poll_interval_seconds);
    push_lit(buf, "\n");
    push_lit(buf, "    branch: ");
    push_opt_string(buf, &j.branch);
    push_lit(buf, "\n");
    push_opt_list(buf, "    branches", &j.branches);
    push_opt_list(buf, "    ignore_branches", &j.ignore_branches);
    push_auth(buf, &j.auth);
    proof {
        assert(buf@ =~= old(buf)@ + yaml_job(j@));
    }
}

/// The `thingy.yaml` text for the workspace `ws`.
pub fn emit_workspace(ws: &Workspace) -> (r: String)
    ensures
        r@ == yaml_workspace(ws@),
{
    let mut buf: Vec<char> = Vec::new();
    if ws.jobs.len() == 0 {
        push_lit(&mut buf, "jobs: []\n");
        proof {
            assert(buf@ =~= yaml_workspace(ws@));
        }
    } else {
        push_lit(&mut buf, "jobs:\n");
        let ghost head = buf@;
        let n = ws.jobs.len();
        let mut i: usize = 0;
        proof {
            assert(ws@.subrange(0, 0) =~= Seq::<JobView>::empty());
        }
        while i < n
            invariant
                n == ws.jobs.len(),
                0 <= i <= n,
                ws@.len() == n,
                buf@ == head + yaml_jobs(ws@.subrange(0, i as int)),
            decreases n - i,
        {
            let ghost pre = ws@.subrange(0, i as int);
            push_job(&mut buf, &ws.jobs[i]);
            proof {
                assert(ws.jobs@[i as int]@ == ws@[i as int]);
                lemma_yaml_jobs_push(pre, ws@[i as int]);
                assert(pre.push(ws@[i as int]) =~= ws@.subrange(0, i + 1));
                assert(buf@ =~= head + yaml_jobs(ws@.subrange(0, i + 1)));
            }
            i = i + 1;
        }
        proof {
            assert(ws@.subrange(0, n as int) =~= ws@);
            assert(buf@ =~= yaml_workspace(ws@));
        }
    }
    chars_to_string(&buf)
}


/// `starts_with` fails as soon as one position disagrees.
proof fn lemma_not_starts(a: Seq<char>, b: Seq<char>, k: int)
    requires
        0 <= k < b.len(),
        k < a.len() ==> a[k] != b[k],
    ensures
        !starts_with(a, b),
{
    if starts_with(a, b) {
        assert(a.subrange(0, b.len() as int)[k] == a[k]);
    }
}

/// Parse of a number or `null`.
pub open spec fn parse_yaml_opt_num(inp: Seq<char>) -> Option<(Option<u64>, Seq<char>)> {
    if starts_with(inp, "null"@) {
        Some((None, inp.skip("null"@.len() as int)))
    } else {
        match parse_num(inp) {
            Some(p) => Some((Some(p.0), p.1)),
            None => None,
        }
    }
}

proof fn lemma_parse_yaml_opt_num(v: Option<u64>, tail: Seq<char>)
    requires
        tail.len() > 0 ==> !is_dec_digit(tail[0]),
        tail.len() > 0 ==> tail[0] != 'n',
    ensures
        parse_yaml_opt_num(yaml_opt_num(v) + tail) == Some((v, tail)),
{
    reveal_strlit("null");
    let inp = yaml_opt_num(v) + tail;
    match v {
        None => {
            lemma_starts_with_concat("null"@, tail);
        },
        Some(n) => {
            crate::text::lemma_dec_spec_digits(n as int);
            assert(inp[0] == dec_spec(n as int)[0]);
            assert(is_dec_digit(inp[0]));
            lemma_not_starts(inp, "null"@, 0);
            lemma_parse_num_dec(n, tail);
        },
    }
}

/// Parse of block list items: `      - "item"` lines, zero or more.
pub open spec fn parse_yaml_items(inp: Seq<char>) -> Option<(Seq<Seq<char>>, Seq<char>)>
    decreases inp.len(),
{
    if starts_with(inp, "      - \""@) {
        match parse_qstring(inp.skip("      - \""@.len() as int)) {
            Some(p) => if starts_with(p.1, "\n"@) {
                let rest = p.1.skip("\n"@.len() as int);
                if rest.len() < inp.len() {
                    match parse_yaml_items(rest) {
                        Some(q) => Some((seq![p.0] + q.0, q.1)),
                        None => None,
                    }
                } else {
                    None
                }
            } else {
                None
            },
            None => None,
        }
    } else {
        Some((Seq::empty(), inp))
    }
}

proof fn lemma_parse_yaml_items(items: Seq<Seq<char>>, tail: Seq<char>)
    requires
        !starts_with(tail, "      - \""@),
    ensures
        parse_yaml_items(yaml_items(items) + tail) == Some((items, tail)),
    decreases items.len(),
{
    reveal_strlit("      - \"");
    reveal_strlit("      - ");
    reveal_strlit("\n");
    let inp = yaml_items(items) + tail;
    if items.len() == 0 {
        assert(inp =~= tail);
    } else {
        let x = items[0];
        let sub = yaml_items(items.drop_first()) + tail;
        assert("      - \""@ =~= "      - "@ + seq!['"']);
        assert(inp =~= "      - \""@ + (esc(x) + seq!['"'] + (seq!['\n'] + sub)));
        lemma_starts_with_concat("      - \""@, esc(x) + seq!['"'] + (seq!['\n'] + sub));
        assert(starts_with(inp, "      - \""@) && inp.skip("      - \""@.len() as int) == esc(x)
            + seq!['"'] + (seq!['\n'] + sub)) by {
            assert(inp == "      - \""@ + (esc(x) + seq!['"'] + (seq!['\n'] + sub)));
        }
        lemma_parse_qstring_esc(x, seq!['\n'] + sub);
        assert("\n"@ =~= seq!['\n']);
        lemma_starts_with_concat("\n"@, sub);
        assert(seq!['\n'] + sub == "\n"@ + sub);
        assert(sub.len() < inp.len()) by {
            assert(inp.len() == "      - \""@.len() + esc(x).len() + 1 + 1 + sub.len());
        }
        lemma_parse_yaml_items(items.drop_first(), tail);
        assert(seq![x] + items.drop_first() =~= items);
    }
}

/// Parse of an optional list field labelled `label`.
pub open spec fn parse_yaml_opt_list(label: Seq<char>, inp: Seq<char>) -> Option<
    (Option<Seq<Seq<char>>>, Seq<char>),
> {
    if starts_with(inp, label + ": null\n"@) {
        Some((None, inp.skip((label + ": null\n"@).len() as int)))
    } else if starts_with(inp, label + ": []\n"@) {
        Some((Some(Seq::empty()), inp.skip((label + ": []\n"@).len() as int)))
    } else if starts_with(inp, label + ":\n"@) {
        match parse_yaml_items(inp.skip((label + ":\n"@).len() as int)) {
            Some(p) => Some((Some(p.0), p.1)),
            None => None,
        }
    } else {
        None
    }
}

proof fn lemma_parse_yaml_opt_list(label: Seq<char>, v: Option<Seq<Seq<char>>>, tail: Seq<char>)
    requires
        !starts_with(tail, "      - \""@),
    ensures
        parse_yaml_opt_list(label, yaml_opt_list(label, v) + tail) == Some((v, tail)),
{
    reveal_strlit(": null\n");
    reveal_strlit(": []\n");
    reveal_strlit(":\n");
    let inp = yaml_opt_list(label, v) + tail;
    match v {
        None => {
            assert(inp =~= (label + ": null\n"@) + tail);
            lemma_starts_with_concat(label + ": null\n"@, tail);
            assert(starts_with(inp, label + ": null\n"@) && inp.skip((label
                + ": null\n"@).len() as int) == tail) by {
                assert(inp == (label + ": null\n"@) + tail);
            }
        },
        Some(items) => {
            if items.len() == 0 {
                assert(inp =~= (label + ": []\n"@) + tail);
                let k = label.len() as int + 2;
                assert((label + ": null\n"@)[k] == 'n');
                assert(inp[k] == '[') by {
                    assert(inp[k] == (label + ": []\n"@)[k]);
                    assert((label + ": []\n"@)[k] == ": []\n"@[2]);
                }
                lemma_not_starts(inp, label + ": null\n"@, k);
                lemma_starts_with_concat(label + ": []\n"@, tail);
                assert(starts_with(inp, label + ": []\n"@) && inp.skip((label
                    + ": []\n"@).len() as int) == tail) by {
                    assert(inp == (label + ": []\n"@) + tail);
                }
            } else {
                let body = yaml_items(items) + tail;
                assert(inp =~= (label + ":\n"@) + body);
                let k = label.len() as int + 1;
                assert((label + ": null\n"@)[k] == ' ');
                assert((label + ": []\n"@)[k] == ' ');
                assert(inp[k] == '\n') by {
                    assert(inp[k] == (label + ":\n"@)[k]);
                    assert((label + ":\n"@)[k] == ":\n"@[1]);
                }
                lemma_not_starts(inp, label + ": null\n"@, k);
                lemma_not_starts(inp, label + ": []\n"@, k);
                lemma_starts_with_concat(label + ":\n"@, body);
                assert(starts_with(inp, label + ":\n"@) && inp.skip((label + ":\n"@).len() as int)
                    == body) by {
                    assert(inp == (label + ":\n"@) + body);
                }
                lemma_parse_yaml_items(items, tail);
            }
        },
    }
}

/// Parse of the `auth` field.
pub open spec fn parse_yaml_auth(inp: Seq<char>) -> Option<(Option<GitAuthView>, Seq<char>)> {
    if starts_with(inp, "    auth: null\n"@) {
        Some((None, inp.skip("    auth: null\n"@.len() as int)))
    } else if starts_with(inp, "    auth:\n      PrivateKey:\n        path: \""@) {
        match parse_qstring(inp.skip("    auth:\n      PrivateKey:\n        path: \""@.len() as int)) {
            Some(p1) => if starts_with(p1.1, "\n        passphrase: "@) {
                match parse_opt_string(p1.1.skip("\n        passphrase: "@.len() as int)) {
                    Some(p2) => if starts_with(p2.1, "\n"@) {
                        Some(
                            (
                                Some(
                                    GitAuthView::PrivateKey {
                                        path: p1.0,
                                        passphrase: p2.0,
                                    },
                                ),
                                p2.1.skip("\n"@.len() as int),
                            ),
                        )
                    } else {
                        None
                    },
                    None => None,
                }
            } else {
                None
            },
            None => None,
        }
    } else if starts_with(inp, "    auth:\n      UserPass:\n        username: \""@) {
        match parse_qstring(
            inp.skip("    auth:\n      UserPass:\n        username: \""@.len() as int),
        ) {
            Some(p1) => if starts_with(p1.1, "\n        password: \""@) {
                match parse_qstring(p1.1.skip("\n        password: \""@.len() as int)) {
                    Some(p2) => if starts_with(p2.1, "\n"@) {
                        Some(
                            (
                                Some(
                                    GitAuthView::UserPass {
                                        username: p1.0,
                                        password: p2.0,
                                    },
                                ),
                                p2.1.skip("\n"@.len() as int),
                            ),
                        )
                    } else {
                        None
                    },
                    None => None,
                }
            } else {
                None
            },
            None => None,
        }
    } else {
        None
    }
}

proof fn lemma_parse_yaml_auth(a: Option<GitAuthView>, tail: Seq<char>)
    ensures
        parse_yaml_auth(yaml_auth(a) + tail) == Some((a, tail)),
{
    reveal_strlit("    auth: null\n");
    reveal_strlit("    auth:\n      PrivateKey:\n        path: ");
    reveal_strlit("    auth:\n      PrivateKey:\n        path: \"");
    reveal_strlit("    auth:\n      UserPass:\n        username: ");
    reveal_strlit("    auth:\n      UserPass:\n        username: \"");
    reveal_strlit("\n        passphrase: ");
    reveal_strlit("\n        password: ");
    reveal_strlit("\n        password: \"");
    reveal_strlit("\n");
    let inp = yaml_auth(a) + tail;
    let lit_null = "    auth: null\n"@;
    let lit_pk = "    auth:\n      PrivateKey:\n        path: \""@;
    let lit_up = "    auth:\n      UserPass:\n        username: \""@;
    match a {
        None => {
            assert(inp =~= lit_null + tail);
            lemma_starts_with_concat(lit_null, tail);
            assert(starts_with(inp, lit_null) && inp.skip(lit_null.len() as int) == tail) by {
                assert(inp == lit_null + tail);
            }
        },
        Some(GitAuthView::PrivateKey { path, passphrase }) => {
            let after = esc(path) + seq!['"'] + ("\n        passphrase: "@ + (json_opt_string(
                passphrase,
            ) + ("\n"@ + tail)));
            assert(lit_pk =~= "    auth:\n      PrivateKey:\n        path: "@ + seq!['"']);
            assert(inp =~= lit_pk + after);
            assert(lit_null[9] == ' ');
            assert(inp[9] == '\n') by {
                assert(inp[9] == lit_pk[9]);
            }
            lemma_not_starts(inp, lit_null, 9);
            lemma_starts_with_concat(lit_pk, after);
            assert(starts_with(inp, lit_pk) && inp.skip(lit_pk.len() as int) == after) by {
                assert(inp == lit_pk + after);
            }
            lemma_parse_qstring_esc(
                path,
                "\n        passphrase: "@ + (json_opt_string(passphrase) + ("\n"@ + tail)),
            );
            let mid = json_opt_string(passphrase) + ("\n"@ + tail);
            lemma_starts_with_concat("\n        passphrase: "@, mid);
            lemma_parse_opt_string(passphrase, "\n"@ + tail);
            lemma_starts_with_concat("\n"@, tail);
        },
        Some(GitAuthView::UserPass { username, password }) => {
            let after = esc(username) + seq!['"'] + ("\n        password: \""@ + (esc(password)
                + seq!['"'] + ("\n"@ + tail)));
            assert(lit_up =~= "    auth:\n      UserPass:\n        username: "@ + seq!['"']);
            assert(inp =~= lit_up + after);
            assert(lit_null[9] == ' ');
            assert(inp[9] == '\n') by {
                assert(inp[9] == lit_up[9]);
            }
            lemma_not_starts(inp, lit_null, 9);
            assert(lit_pk[16] == 'P');
            assert(inp[16] == 'U') by {
                assert(inp[16] == lit_up[16]);
            }
            lemma_not_starts(inp, lit_pk, 16);
            lemma_starts_with_concat(lit_up, after);
            assert(starts_with(inp, lit_up) && inp.skip(lit_up.len() as int) == after) by {
                assert(inp == lit_up + after);
            }
            lemma_parse_qstring_esc(
                username,
                "\n        password: \""@ + (esc(password) + seq!['"'] + ("\n"@ + tail)),
            );
            let mid = esc(password) + seq!['"'] + ("\n"@ + tail);
            assert("\n        password: \""@ =~= "\n        password: "@ + seq!['"']);
            lemma_starts_with_concat("\n        password: \""@, mid);
            lemma_parse_qstring_esc(password, "\n"@ + tail);
            lemma_starts_with_concat("\n"@, tail);
        },
    }
}


/// Parse of one job entry.
pub open spec fn parse_yaml_job(inp: Seq<char>) -> Option<(JobView, Seq<char>)> {
    if !starts_with(inp, "  - name: \""@) {
        None
    } else {
        match parse_qstring(inp.skip("  - name: \""@.len() as int)) {
            None => None,
            Some(p1) => if !starts_with(p1.1, "\n    repo_url: \""@) {
                None
            } else {
                match parse_qstring(p1.1.skip("\n    repo_url: \""@.len() as int)) {
                    None => None,
                    Some(p2) => if !starts_with(p2.1, "\n    build_script: \""@) {
                        None
                    } else {
                        match parse_qstring(p2.1.skip("\n    build_script: \""@.len() as int)) {
                            None => None,
                            Some(p3) => if !starts_with(p3.1, "\n    poll_interval_seconds: "@) {
                                None
                            } else {
                                match parse_yaml_opt_num(
                                    p3.1.skip("\n    poll_interval_seconds: "@.len() as int),
                                ) {
                                    None => None,
                                    Some(p4) => if !starts_with(p4.1, "\n    branch: "@) {
                                        None
                                    } else {
                                        match parse_opt_string(
                                            p4.1.skip("\n    branch: "@.len() as int),
                                        ) {
                                            None => None,
                                            Some(p5) => if !starts_with(p5.1, "\n"@) {
                                                None
                                            } else {
                                                parse_yaml_job_rest(
                                                    p1.0,
                                                    p2.0,
                                                    p3.0,
                                                    p4.0,
                                                    p5.0,
                                                    p5.1.skip("\n"@.len() as int),
                                                )
                                            },
                                        }
                                    },
                                }
                            },
                        }
                    },
                }
            },
        }
    }
}

/// Parse of the list and auth fields closing a job entry.
pub open spec fn parse_yaml_job_rest(
    name: Seq<char>,
    repo_url: Seq<char>,
    build_script: Seq<char>,
    poll: Option<u64>,
    branch: Option<Seq<char>>,
    inp: Seq<char>,
) -> Option<(JobView, Seq<char>)> {
    match parse_yaml_opt_list("    branches"@, inp) {
        None => None,
        Some(p6) => match parse_yaml_opt_list("    ignore_branches"@, p6.1) {
            None => None,
            Some(p7) => match parse_yaml_auth(p7.1) {
                None => None,
                Some(p8) => Some(
                    (
                        JobView {
                            name,
                            repo_url,
                            build_script,
                            poll_interval_seconds: poll,
                            branch,
                            branches: p6.0,
                            ignore_branches: p7.0,
                            auth: p8.0,
                        },
                        p8.1,
                    ),
                ),
            },
        },
    }
}

/// The text of an optional list field never begins like a list item.
proof fn lemma_opt_list_not_item(label: Seq<char>, v: Option<Seq<Seq<char>>>, tail: Seq<char>)
    requires
        label.len() > 4,
        label[4] != ' ',
    ensures
        !starts_with(yaml_opt_list(label, v) + tail, "      - \""@),
{
    reveal_strlit("      - \"");
    let a = yaml_opt_list(label, v) + tail;
    assert(a[4] == label[4]) by {
        match v {
            None => {
                assert(a[4] == (label + ": null\n"@)[4]);
            },
            Some(items) => {
                if items.len() == 0 {
                    assert(a[4] == (label + ": []\n"@)[4]);
                } else {
                    assert(a[4] == (label + ":\n"@)[4]);
                }
            },
        }
    }
    lemma_not_starts(a, "      - \""@, 4);
}

/// The text of the auth field never begins like a list item.
proof fn lemma_auth_not_item(a: Option<GitAuthView>, tail: Seq<char>)
    ensures
        !starts_with(yaml_auth(a) + tail, "      - \""@),
{
    reveal_strlit("      - \"");
    reveal_strlit("    auth: null\n");
    reveal_strlit("    auth:\n      PrivateKey:\n        path: \"");
    reveal_strlit("    auth:\n      UserPass:\n        username: \"");
    reveal_strlit("    auth:\n      PrivateKey:\n        path: ");
    reveal_strlit("    auth:\n      UserPass:\n        username: ");
    let t = yaml_auth(a) + tail;
    match a {
        None => {
            assert(yaml_auth(a) == "    auth: null\n"@);
            assert(t[4] == "    auth: null\n"@[4]);
            assert(t[4] == 'a');
        },
        Some(GitAuthView::PrivateKey { path, passphrase }) => {
            let lead = "    auth:\n      PrivateKey:\n        path: "@;
            assert(yaml_auth(a) == lead + json_string(path) + "\n        passphrase: "@
                + json_opt_string(passphrase) + "\n"@);
            assert(t[4] == lead[4]);
            assert(t[4] == 'a');
        },
        Some(GitAuthView::UserPass { username, password }) => {
            let lead = "    auth:\n      UserPass:\n        username: "@;
            assert(yaml_auth(a) == lead + json_string(username) + "\n        password: "@
                + json_string(password) + "\n"@);
            assert(t[4] == lead[4]);
            assert(t[4] == 'a');
        },
    }
    lemma_not_starts(t, "      - \""@, 4);
}

/// Reading back a written job entry recovers it exactly.
#[verifier::rlimit(100)]
proof fn lemma_parse_yaml_job(j: JobView, tail: Seq<char>)
    ensures
        parse_yaml_job(yaml_job(j) + tail) == Some((j, tail)),
{
    reveal_strlit("  - name: ");
    reveal_strlit("  - name: \"");
    reveal_strlit("\n    repo_url: ");
    reveal_strlit("\n    repo_url: \"");
    reveal_strlit("\n    build_script: ");
    reveal_strlit("\n    build_script: \"");
    reveal_strlit("\n    poll_interval_seconds: ");
    reveal_strlit("\n    branch: ");
    reveal_strlit("    branch: ");
    reveal_strlit("\n");
    reveal_strlit("    branches");
    reveal_strlit("    ignore_branches");
    let lit1 = "  - name: \""@;
    let lit2 = "\n    repo_url: \""@;
    let lit3 = "\n    build_script: \""@;
    let lit4 = "\n    poll_interval_seconds: "@;
    let lit5 = "\n    branch: "@;
    let inp = yaml_job(j) + tail;
    let r_lists = yaml_opt_list("    branches"@, j.branches) + (yaml_opt_list(
        "    ignore_branches"@,
        j.ignore_branches,
    ) + (yaml_auth(j.auth) + tail));
    let r5 = json_opt_string(j.branch) + ("\n"@ + r_lists);
    let r4 = yaml_opt_num(j.poll_interval_seconds) + (lit5 + r5);
    let r3 = esc(j.build_script) + seq!['"'] + (lit4 + r4);
    let r2 = esc(j.repo_url) + seq!['"'] + (lit3 + r3);
    let r1 = esc(j.name) + seq!['"'] + (lit2 + r2);
    assert(lit1 =~= "  - name: "@ + seq!['"']);
    assert(lit2 =~= "\n    repo_url: "@ + seq!['"']);
    assert(lit3 =~= "\n    build_script: "@ + seq!['"']);
    assert(lit5 =~= "\n"@ + "    branch: "@);
    assert(inp =~= lit1 + r1);
    lemma_starts_with_concat(lit1, r1);
    assert(starts_with(inp, lit1) && inp.skip(lit1.len() as int) == r1) by {
        assert(inp == lit1 + r1);
    }
    lemma_parse_qstring_esc(j.name, lit2 + r2);
    lemma_starts_with_concat(lit2, r2);
    lemma_parse_qstring_esc(j.repo_url, lit3 + r3);
    lemma_starts_with_concat(lit3, r3);
    lemma_parse_qstring_esc(j.build_script, lit4 + r4);
    lemma_starts_with_concat(lit4, r4);
    assert((lit5 + r5).len() > 0 && !is_dec_digit((lit5 + r5)[0]) && (lit5 + r5)[0] != 'n') by {
        assert((lit5 + r5)[0] == lit5[0]);
    }
    lemma_parse_yaml_opt_num(j.poll_interval_seconds, lit5 + r5);
    lemma_starts_with_concat(lit5, r5);
    lemma_parse_opt_string(j.branch, "\n"@ + r_lists);
    lemma_starts_with_concat("\n"@, r_lists);
    lemma_opt_list_not_item(
        "    ignore_branches"@,
        j.ignore_branches,
        yaml_auth(j.auth) + tail,
    );
    lemma_parse_yaml_opt_list(
        "    branches"@,
        j.branches,
        yaml_opt_list("    ignore_branches"@, j.ignore_branches) + (yaml_auth(j.auth) + tail),
    );
    lemma_auth_not_item(j.auth, tail);
    lemma_parse_yaml_opt_list("    ignore_branches"@, j.ignore_branches, yaml_auth(j.auth) + tail);
    lemma_parse_yaml_auth(j.auth, tail);
}

/// Parse of the job entries: as many as begin with the entry prefix.
pub open spec fn parse_yaml_jobs(inp: Seq<char>) -> Option<(Seq<JobView>, Seq<char>)>
    decreases inp.len(),
{
    if starts_with(inp, "  - name: \""@) {
        match parse_yaml_job(inp) {
            Some(p) => if p.1.len() < inp.len() {
                match parse_yaml_jobs(p.1) {
                    Some(q) => Some((seq![p.0] + q.0, q.1)),
                    None => None,
                }
            } else {
                None
            },
            None => None,
        }
    } else {
        Some((Seq::empty(), inp))
    }
}

/// A written job entry begins with the entry prefix.
proof fn lemma_yaml_job_head(j: JobView)
    ensures
        yaml_job(j).len() > "  - name: \""@.len(),
        starts_with(yaml_job(j), "  - name: \""@),
{
    reveal_strlit("  - name: ");
    reveal_strlit("  - name: \"");
    let t = yaml_job(j);
    let a0 = "  - name: "@;
    let js = json_string(j.name);
    assert(js[0] == '"');
    assert(js.len() >= 2);
    assert(a0.len() == 10);
    assert("  - name: \""@.len() == 11);
    assert(t.len() > 11);
    assert forall|m: int| 0 <= m < 11 implies t[m] == "  - name: \""@[m] by {
        if m < 10 {
            assert(t[m] == a0[m]);
            assert("  - name: \""@[m] == a0[m]);
        } else {
            assert(t[10] == js[0]);
        }
    }
    assert(t.subrange(0, 11) =~= "  - name: \""@);
}

#[verifier::rlimit(100)]
proof fn lemma_parse_yaml_jobs(jobs: Seq<JobView>, tail: Seq<char>)
    requires
        !starts_with(tail, "  - name: \""@),
    ensures
        parse_yaml_jobs(yaml_jobs(jobs) + tail) == Some((jobs, tail)),
    decreases jobs.len(),
{
    reveal_strlit("  - name: ");
    reveal_strlit("  - name: \"");
    let inp = yaml_jobs(jobs) + tail;
    if jobs.len() == 0 {
        assert(inp =~= tail);
    } else {
        let sub = yaml_jobs(jobs.drop_first()) + tail;
        assert(inp =~= yaml_job(jobs[0]) + sub);
        lemma_parse_yaml_job(jobs[0], sub);
        lemma_yaml_job_head(jobs[0]);
        assert(starts_with(inp, "  - name: \""@)) by {
            assert(forall|m: int|
                0 <= m < "  - name: \""@.len() ==> inp[m] == yaml_job(jobs[0])[m]);
            assert(forall|m: int|
                0 <= m < "  - name: \""@.len() ==> yaml_job(jobs[0])[m] == yaml_job(
                    jobs[0],
                ).subrange(0, "  - name: \""@.len() as int)[m]);
            assert(inp.subrange(0, "  - name: \""@.len() as int) =~= "  - name: \""@);
        }
        assert(sub.len() < inp.len()) by {
            assert(inp.len() == yaml_job(jobs[0]).len() + sub.len());
        }
        lemma_parse_yaml_jobs(jobs.drop_first(), tail);
        assert(seq![jobs[0]] + jobs.drop_first() =~= jobs);
    }
}

/// Parse of a whole `thingy.yaml` text: the job list, provided nothing
/// follows it.
pub open spec fn parse_yaml_workspace(s: Seq<char>) -> Option<Seq<JobView>> {
    if starts_with(s, "jobs: []\n"@) {
        if s.skip("jobs: []\n"@.len() as int).len() == 0 {
            Some(Seq::empty())
        } else {
            None
        }
    } else if starts_with(s, "jobs:\n"@) {
        match parse_yaml_jobs(s.skip("jobs:\n"@.len() as int)) {
            Some(p) => if p.1.len() == 0 {
                Some(p.0)
            } else {
                None
            },
            None => None,
        }
    } else {
        None
    }
}

/// What the engine writes to `thingy.yaml` it reads back unchanged:
/// the workspace round-trips through its text form.
pub proof fn lemma_workspace_yaml_round_trip(jobs: Seq<JobView>)
    ensures
        parse_yaml_workspace(yaml_workspace(jobs)) == Some(jobs),
{
    reveal_strlit("jobs: []\n");
    reveal_strlit("jobs:\n");
    reveal_strlit("  - name: \"");
    let s = yaml_workspace(jobs);
    if jobs.len() == 0 {
        lemma_starts_with_concat("jobs: []\n"@, Seq::<char>::empty());
        assert(s =~= "jobs: []\n"@ + Seq::<char>::empty());
        assert(starts_with(s, "jobs: []\n"@) && s.skip("jobs: []\n"@.len() as int)
            == Seq::<char>::empty()) by {
            assert(s == "jobs: []\n"@ + Seq::<char>::empty());
        }
    } else {
        let body = yaml_jobs(jobs) + Seq::<char>::empty();
        assert(s =~= "jobs:\n"@ + body);
        assert("jobs: []\n"@[5] == ' ');
        assert(s[5] == '\n') by {
            assert(s[5] == "jobs:\n"@[5]);
        }
        lemma_not_starts(s, "jobs: []\n"@, 5);
        lemma_starts_with_concat("jobs:\n"@, body);
        assert(starts_with(s, "jobs:\n"@) && s.skip("jobs:\n"@.len() as int) == body) by {
            assert(s == "jobs:\n"@ + body);
        }
        assert(!starts_with(Seq::<char>::empty(), "  - name: \""@));
        lemma_parse_yaml_jobs(jobs, Seq::<char>::empty());
    }
}


fn parse_yaml_opt_num_at(cs: &Vec<char>, i: usize) -> (r: Option<(Option<u64>, usize)>)
    requires
        i <= cs@.len(),
    ensures
        match r {
            Some(p) => i <= p.1 <= cs@.len() && parse_yaml_opt_num(cs@.skip(i as int)) == Some(
                (p.0, cs@.skip(p.1 as int)),
            ),
            None => parse_yaml_opt_num(cs@.skip(i as int)) is None,
        },
{
    match expect_lit(cs, i, "null") {
        Some(j) => {
            proof {
                assert(cs@.skip(i as int).skip("null"@.len() as int) =~= cs@.skip(j as int));
            }
            return Some((None, j));
        },
        None => {},
    }
    match parse_num_at(cs, i) {
        Some(p) => Some((Some(p.0), p.1)),
        None => None,
    }
}

fn parse_yaml_items_at(cs: &Vec<char>, i: usize) -> (r: Option<(Vec<String>, usize)>)
    requires
        i <= cs@.len(),
    ensures
        match r {
            Some(p) => i <= p.1 <= cs@.len() && parse_yaml_items(cs@.skip(i as int)) == Some(
                (p.0.deep_view(), cs@.skip(p.1 as int)),
            ),
            None => parse_yaml_items(cs@.skip(i as int)) is None,
        },
{
    let mut out: Vec<String> = Vec::new();
    let mut p: usize = i;
    let n = cs.len();
    proof {
        assert(out.deep_view() =~= Seq::<Seq<char>>::empty());
    }
    loop
        invariant
            i <= p <= n,
            n == cs@.len(),
            parse_yaml_items(cs@.skip(i as int)) == (match parse_yaml_items(
                cs@.skip(p as int),
            ) {
                Some(q) => Some((out.deep_view() + q.0, q.1)),
                None => None,
            }),
        decreases n - p,
    {
        match expect_lit(cs, p, "      - \"") {
            None => {
                proof {
                    assert(out.deep_view() + Seq::<Seq<char>>::empty() =~= out.deep_view());
                }
                return Some((out, p));
            },
            Some(q0) => {
                proof {
                    assert(cs@.skip(p as int).skip("      - \""@.len() as int) =~= cs@.skip(
                        q0 as int,
                    ));
                }
                let (item, q1) = match parse_qstring_at(cs, q0) {
                    Some(x) => x,
                    None => {
                        return None;
                    },
                };
                let q2 = match expect_lit(cs, q1, "\n") {
                    Some(x) => x,
                    None => {
                        return None;
                    },
                };
                proof {
                    assert(cs@.skip(q1 as int).skip("\n"@.len() as int) =~= cs@.skip(q2 as int));
                    assert(cs@.skip(q2 as int).len() < cs@.skip(p as int).len()) by {
                        reveal_strlit("      - \"");
                        reveal_strlit("\n");
                    }
                }
                let ghost preout = out.deep_view();
                let ghost oev = out@;
                let ghost itv = item@;
                out.push(item);
                p = q2;
                proof {
                    assert forall|m: int|
                        0 <= m < out.deep_view().len() implies out.deep_view()[m] == preout.push(
                        itv,
                    )[m] by {
                        assert(out.deep_view()[m] == out@[m]@);
                        if m < preout.len() {
                            assert(out@[m] == oev[m]);
                            assert(preout[m] == oev[m]@);
                        }
                    }
                    assert(out.deep_view() =~= preout.push(itv));
                    match parse_yaml_items(cs@.skip(p as int)) {
                        Some(q) => {
                            assert(out.deep_view() + q.0 =~= preout + (seq![itv] + q.0));
                        },
                        None => {},
                    }
                }
            },
        }
    }
}

fn parse_yaml_opt_list_at(cs: &Vec<char>, i: usize, label: &str) -> (r: Option<
    (Option<Vec<String>>, usize),
>)
    requires
        i <= cs@.len(),
    ensures
        match r {
            Some(p) => i <= p.1 <= cs@.len() && parse_yaml_opt_list(label@, cs@.skip(i as int))
                == Some((p.0.deep_view(), cs@.skip(p.1 as int))),
            None => parse_yaml_opt_list(label@, cs@.skip(i as int)) is None,
        },
{
    match expect_lit(cs, i, label) {
        None => {
            proof {
                lemma_label_prefix_needed(label@, cs@.skip(i as int));
            }
            return None;
        },
        Some(j0) => {
            proof {
                assert(cs@.skip(i as int).skip(label@.len() as int) =~= cs@.skip(j0 as int));
            }
            match expect_lit(cs, j0, ": null\n") {
                Some(j) => {
                    proof {
                        lemma_split_label(label@, ": null\n"@, cs@.skip(i as int));
                        assert(cs@.skip(j0 as int).skip(": null\n"@.len() as int) =~= cs@.skip(
                            j as int,
                        ));
                    }
                    return Some((None, j));
                },
                None => {},
            }
            match expect_lit(cs, j0, ": []\n") {
                Some(j) => {
                    proof {
                        lemma_split_label(label@, ": null\n"@, cs@.skip(i as int));
                        lemma_split_label(label@, ": []\n"@, cs@.skip(i as int));
                        assert(cs@.skip(j0 as int).skip(": []\n"@.len() as int) =~= cs@.skip(
                            j as int,
                        ));
                    }
                    let empty_items: Vec<String> = Vec::new();
                    proof {
                        assert(empty_items.deep_view() =~= Seq::<Seq<char>>::empty());
                    }
                    return Some((Some(empty_items), j));
                },
                None => {},
            }
            match expect_lit(cs, j0, ":\n") {
                Some(j) => {
                    proof {
                        lemma_split_label(label@, ": null\n"@, cs@.skip(i as int));
                        lemma_split_label(label@, ": []\n"@, cs@.skip(i as int));
                        lemma_split_label(label@, ":\n"@, cs@.skip(i as int));
                        assert(cs@.skip(j0 as int).skip(":\n"@.len() as int) =~= cs@.skip(
                            j as int,
                        ));
                    }
                    match parse_yaml_items_at(cs, j) {
                        Some(p) => {
                            return Some((Some(p.0), p.1));
                        },
                        None => {
                            return None;
                        },
                    }
                },
                None => {
                    proof {
                        lemma_split_label(label@, ": null\n"@, cs@.skip(i as int));
                        lemma_split_label(label@, ": []\n"@, cs@.skip(i as int));
                        lemma_split_label(label@, ":\n"@, cs@.skip(i as int));
                    }
                    return None;
                },
            }
        },
    }
}

/// `starts_with` over a two-part prefix splits into the label and the
/// rest.
proof fn lemma_split_label(label: Seq<char>, rest: Seq<char>, inp: Seq<char>)
    ensures
        starts_with(inp, label + rest) <==> (starts_with(inp, label) && starts_with(
            inp.skip(label.len() as int),
            rest,
        )),
        starts_with(inp, label + rest) ==> inp.skip(label.len() as int).skip(rest.len() as int)
            == inp.skip((label + rest).len() as int),
{
    let both = label + rest;
    if starts_with(inp, both) {
        assert forall|m: int|
            0 <= m < label.len() implies inp.subrange(0, label.len() as int)[m] == label[m] by {
            assert(inp.subrange(0, both.len() as int)[m] == both[m]);
        }
        assert(inp.subrange(0, label.len() as int) =~= label);
        assert forall|m: int|
            0 <= m < rest.len() implies inp.skip(label.len() as int).subrange(
            0,
            rest.len() as int,
        )[m] == rest[m] by {
            assert(inp.subrange(0, both.len() as int)[label.len() + m] == both[label.len() + m]);
        }
        assert(inp.skip(label.len() as int).subrange(0, rest.len() as int) =~= rest);
        assert(inp.skip(label.len() as int).skip(rest.len() as int) =~= inp.skip(
            both.len() as int,
        ));
    }
    if starts_with(inp, label) && starts_with(inp.skip(label.len() as int), rest) {
        assert forall|m: int|
            0 <= m < both.len() implies inp.subrange(0, both.len() as int)[m] == both[m] by {
            if m < label.len() {
                assert(inp.subrange(0, label.len() as int)[m] == label[m]);
            } else {
                assert(inp.skip(label.len() as int).subrange(0, rest.len() as int)[m
                    - label.len()] == rest[m - label.len()]);
            }
        }
        assert(inp.subrange(0, both.len() as int) =~= both);
    }
}

/// Without its label no branch of an optional list field applies.
proof fn lemma_label_prefix_needed(label: Seq<char>, inp: Seq<char>)
    requires
        !starts_with(inp, label),
    ensures
        parse_yaml_opt_list(label, inp) is None,
{
    lemma_split_label(label, ": null\n"@, inp);
    lemma_split_label(label, ": []\n"@, inp);
    lemma_split_label(label, ":\n"@, inp);
}

fn parse_yaml_auth_at(cs: &Vec<char>, i: usize) -> (r: Option<(Option<GitAuth>, usize)>)
    requires
        i <= cs@.len(),
    ensures
        match r {
            Some(p) => i <= p.1 <= cs@.len() && parse_yaml_auth(cs@.skip(i as int)) == Some(
                (
                    match p.0 {
                        Some(ref a) => Some(a@),
                        None => None,
                    },
                    cs@.skip(p.1 as int),
                ),
            ),
            None => parse_yaml_auth(cs@.skip(i as int)) is None,
        },
{
    match expect_lit(cs, i, "    auth: null\n") {
        Some(j) => {
            proof {
                assert(cs@.skip(i as int).skip("    auth: null\n"@.len() as int) =~= cs@.skip(
                    j as int,
                ));
            }
            return Some((None, j));
        },
        None => {},
    }
    match expect_lit(cs, i, "    auth:\n      PrivateKey:\n        path: \"") {
        Some(j0) => {
            proof {
                assert(cs@.skip(i as int).skip(
                    "    auth:\n      PrivateKey:\n        path: \""@.len() as int,
                ) =~= cs@.skip(j0 as int));
            }
            let (path, j1) = match parse_qstring_at(cs, j0) {
                Some(x) => x,
                None => {
                    return None;
                },
            };
            let j2 = match expect_lit(cs, j1, "\n        passphrase: ") {
                Some(x) => x,
                None => {
                    return None;
                },
            };
            proof {
                assert(cs@.skip(j1 as int).skip("\n        passphrase: "@.len() as int)
                    =~= cs@.skip(j2 as int));
            }
            let (passphrase, j3) = match parse_opt_string_at(cs, j2) {
                Some(x) => x,
                None => {
                    return None;
                },
            };
            let j4 = match expect_lit(cs, j3, "\n") {
                Some(x) => x,
                None => {
                    return None;
                },
            };
            proof {
                assert(cs@.skip(j3 as int).skip("\n"@.len() as int) =~= cs@.skip(j4 as int));
            }
            return Some((Some(GitAuth::PrivateKey { path, passphrase }), j4));
        },
        None => {},
    }
    match expect_lit(cs, i, "    auth:\n      UserPass:\n        username: \"") {
        Some(j0) => {
            proof {
                assert(cs@.skip(i as int).skip(
                    "    auth:\n      UserPass:\n        username: \""@.len() as int,
                ) =~= cs@.skip(j0 as int));
            }
            let (username, j1) = match parse_qstring_at(cs, j0) {
                Some(x) => x,
                None => {
                    return None;
                },
            };
            let j2 = match expect_lit(cs, j1, "\n        password: \"") {
                Some(x) => x,
                None => {
                    return None;
                },
            };
            proof {
                assert(cs@.skip(j1 as int).skip("\n        password: \""@.len() as int)
                    =~= cs@.skip(j2 as int));
            }
            let (password, j3) = match parse_qstring_at(cs, j2) {
                Some(x) => x,
                None => {
                    return None;
                },
            };
            let j4 = match expect_lit(cs, j3, "\n") {
                Some(x) => x,
                None => {
                    return None;
                },
            };
            proof {
                assert(cs@.skip(j3 as int).skip("\n"@.len() as int) =~= cs@.skip(j4 as int));
            }
            return Some((Some(GitAuth::UserPass { username, password }), j4));
        },
        None => {},
    }
    None
}

#[verifier::rlimit(100)]
fn parse_yaml_job_at(cs: &Vec<char>, i: usize) -> (r: Option<(Job, usize)>)
    requires
        i <= cs@.len(),
    ensures
        match r {
            Some(p) => i < p.1 <= cs@.len() && parse_yaml_job(cs@.skip(i as int)) == Some(
                (p.0@, cs@.skip(p.1 as int)),
            ),
            None => parse_yaml_job(cs@.skip(i as int)) is None,
        },
{
    let j1 = match expect_lit(cs, i, "  - name: \"") {
        Some(j) => j,
        None => {
            return None;
        },
    };
    proof {
        reveal_strlit("  - name: \"");
        assert(j1 > i);
        assert(cs@.skip(i as int).skip("  - name: \""@.len() as int) =~= cs@.skip(j1 as int));
    }
    let (name, j2) = match parse_qstring_at(cs, j1) {
        Some(p) => p,
        None => {
            return None;
        },
    };
    let j3 = match expect_lit(cs, j2, "\n    repo_url: \"") {
        Some(j) => j,
        None => {
            return None;
        },
    };
    proof {
        assert(cs@.skip(j2 as int).skip("\n    repo_url: \""@.len() as int) =~= cs@.skip(
            j3 as int,
        ));
    }
    let (repo_url, j4) = match parse_qstring_at(cs, j3) {
        Some(p) => p,
        None => {
            return None;
        },
    };
    let j5 = match expect_lit(cs, j4, "\n    build_script: \"") {
        Some(j) => j,
        None => {
            return None;
        },
    };
    proof {
        assert(cs@.skip(j4 as int).skip("\n    build_script: \""@.len() as int) =~= cs@.skip(
            j5 as int,
        ));
    }
    let (build_script, j6) = match parse_qstring_at(cs, j5) {
        Some(p) => p,
        None => {
            return None;
        },
    };
    let j7 = match expect_lit(cs, j6, "\n    poll_interval_seconds: ") {
        Some(j) => j,
        None => {
            return None;
        },
    };
    proof {
        assert(cs@.skip(j6 as int).skip("\n    poll_interval_seconds: "@.len() as int)
            =~= cs@.skip(j7 as int));
    }
    let (poll, j8) = match parse_yaml_opt_num_at(cs, j7) {
        Some(p) => p,
        None => {
            return None;
        },
    };
    let j9 = match expect_lit(cs, j8, "\n    branch: ") {
        Some(j) => j,
        None => {
            return None;
        },
    };
    proof {
        assert(cs@.skip(j8 as int).skip("\n    branch: "@.len() as int) =~= cs@.skip(j9 as int));
    }
    let (branch, j10) = match parse_opt_string_at(cs, j9) {
        Some(p) => p,
        None => {
            return None;
        },
    };
    let j11 = match expect_lit(cs, j10, "\n") {
        Some(j) => j,
        None => {
            return None;
        },
    };
    proof {
        assert(cs@.skip(j10 as int).skip("\n"@.len() as int) =~= cs@.skip(j11 as int));
    }
    let (branches, j12) = match parse_yaml_opt_list_at(cs, j11, "    branches") {
        Some(p) => p,
        None => {
            return None;
        },
    };
    let (ignore_branches, j13) = match parse_yaml_opt_list_at(cs, j12, "    ignore_branches") {
        Some(p) => p,
        None => {
            return None;
        },
    };
    let (auth, j14) = match parse_yaml_auth_at(cs, j13) {
        Some(p) => p,
        None => {
            return None;
        },
    };
    let job = Job {
        name,
        repo_url,
        build_script,
        poll_interval_seconds: poll,
        branch,
        branches,
        ignore_branches,
        auth,
    };
    Some((job, j14))
}

/// Reads a `thingy.yaml` text back into its job list; `None` exactly
/// when the text is not one the engine writes.
#[verifier::rlimit(100)]
pub fn parse_workspace_yaml(s: &str) -> (r: Option<Vec<Job>>)
    ensures
        match r {
            Some(v) => parse_yaml_workspace(s@) == Some(v.deep_view()),
            None => parse_yaml_workspace(s@) is None,
        },
{
    let cs = str_chars(s);
    proof {
        assert(cs@.skip(0) =~= cs@);
    }
    match expect_lit(&cs, 0, "jobs: []\n") {
        Some(j) => {
            if j == cs.len() {
                let out: Vec<Job> = Vec::new();
                proof {
                    assert(cs@.skip(0).skip("jobs: []\n"@.len() as int) =~= cs@.skip(j as int));
                    assert(out.deep_view() =~= Seq::<JobView>::empty());
                }
                return Some(out);
            } else {
                proof {
                    assert(cs@.skip(0).skip("jobs: []\n"@.len() as int) =~= cs@.skip(j as int));
                    assert(cs@.skip(j as int).len() != 0);
                }
                return None;
            }
        },
        None => {},
    }
    let j0 = match expect_lit(&cs, 0, "jobs:\n") {
        Some(j) => j,
        None => {
            return None;
        },
    };
    proof {
        assert(cs@.skip(0).skip("jobs:\n"@.len() as int) =~= cs@.skip(j0 as int));
    }
    let mut out: Vec<Job> = Vec::new();
    let mut p: usize = j0;
    let n = cs.len();
    proof {
        assert(out.deep_view() =~= Seq::<JobView>::empty());
    }
    loop
        invariant
            j0 <= p <= n,
            n == cs@.len(),
            cs@ == s@,
            parse_yaml_jobs(cs@.skip(j0 as int)) == (match parse_yaml_jobs(cs@.skip(p as int)) {
                Some(q) => Some((out.deep_view() + q.0, q.1)),
                None => None,
            }),
            parse_yaml_workspace(cs@) == (match parse_yaml_jobs(cs@.skip(j0 as int)) {
                Some(q) => if q.1.len() == 0 {
                    Some(q.0)
                } else {
                    None
                },
                None => None,
            }),
        decreases n - p,
    {
        match expect_lit(&cs, p, "  - name: \"") {
            None => {
                if p == n {
                    proof {
                        assert(cs@.skip(p as int).len() == 0);
                        assert(out.deep_view() + Seq::<JobView>::empty() =~= out.deep_view());
                    }
                    return Some(out);
                } else {
                    proof {
                        assert(cs@.skip(p as int).len() != 0);
                    }
                    return None;
                }
            },
            Some(_) => {
                let (job, p2) = match parse_yaml_job_at(&cs, p) {
                    Some(q) => q,
                    None => {
                        return None;
                    },
                };
                proof {
                    assert(cs@.skip(p2 as int).len() < cs@.skip(p as int).len()) by {
                        reveal_strlit("  - name: \"");
                    }
                }
                let ghost preout = out.deep_view();
                let ghost oev = out@;
                let ghost jv = job@;
                out.push(job);
                p = p2;
                proof {
                    assert forall|m: int|
                        0 <= m < out.deep_view().len() implies out.deep_view()[m] == preout.push(
                        jv,
                    )[m] by {
                        assert(out.deep_view()[m] == out@[m]@);
                        if m < preout.len() {
                            assert(out@[m] == oev[m]);
                            assert(preout[m] == oev[m]@);
                        }
                    }
                    assert(out.deep_view() =~= preout.push(jv));
                    match parse_yaml_jobs(cs@.skip(p as int)) {
                        Some(q) => {
                            assert(out.deep_view() + q.0 =~= preout + (seq![jv] + q.0));
                        },
                        None => {},
                    }
                }
            },
        }
    }
}

} // verus!
