//! The text form of `data.json`: the branch state is written as one
//! compact JSON object, and read back by a parser that accepts exactly
//! what the engine writes, so that a branch worker restarted over its
//! own file recovers its state unchanged.

use vstd::prelude::*;

use crate::branch::{status_str, status_str_spec, BranchDetails, BranchDetailsView, BuildDetails,
    BuildDetailsView, BuildStatus};
use crate::text::{chars_to_string, dec_spec, dec_val, format_u64, is_dec_digit, str_chars};

verus! {

/// The escaped form of one character inside a quoted string: quote,
/// backslash, newline, carriage return and tab take a two-character
/// escape; everything else stands for itself.
pub open spec fn esc_char(c: char) -> Seq<char> {
    if c == '"' {
        seq!['\\', '"']
    } else if c == '\\' {
        seq!['\\', '\\']
    } else if c == '\n' {
        seq!['\\', 'n']
    } else if c == '\r' {
        seq!['\\', 'r']
    } else if c == '\t' {
        seq!['\\', 't']
    } else {
        seq![c]
    }
}

/// The escaped form of a whole string.
pub open spec fn esc(s: Seq<char>) -> Seq<char>
    decreases s.len(),
{
    if s.len() == 0 {
        Seq::empty()
    } else {
        esc_char(s[0]) + esc(s.drop_first())
    }
}

proof fn lemma_esc_push(s: Seq<char>, c: char)
    ensures
        esc(s.push(c)) == esc(s) + esc_char(c),
    decreases s.len(),
{
    if s.len() == 0 {
        assert(s.push(c).len() == 1);
        assert(s.push(c)[0] == c);
        assert(s.push(c).drop_first() =~= Seq::<char>::empty());
        assert(esc(s.push(c)) == esc_char(c) + esc(Seq::<char>::empty()));
        assert(esc(Seq::<char>::empty()) == Seq::<char>::empty());
        assert(esc_char(c) + Seq::<char>::empty() =~= esc_char(c));
        assert(esc(s) + esc_char(c) =~= esc_char(c));
    } else {
        assert(s.push(c)[0] == s[0]);
        assert(s.push(c).drop_first() =~= s.drop_first().push(c));
        lemma_esc_push(s.drop_first(), c);
        assert(esc(s.push(c)) =~= esc(s) + esc_char(c)) by {
            assert(esc(s.push(c)) == esc_char(s[0]) + (esc(s.drop_first()) + esc_char(c)));
            assert(esc(s) + esc_char(c) == (esc_char(s[0]) + esc(s.drop_first())) + esc_char(c));
        }
    }
}

/// A quoted JSON string.
pub open spec fn json_string(s: Seq<char>) -> Seq<char> {
    seq!['"'] + esc(s) + seq!['"']
}

/// A JSON string or `null`.
pub open spec fn json_opt_string(v: Option<Seq<char>>) -> Seq<char> {
    match v {
        None => "null"@,
        Some(s) => json_string(s),
    }
}

/// One build record as written to `data.json`.
pub open spec fn json_record(r: BuildDetailsView) -> Seq<char> {
    "{\"build_num\":"@ + dec_spec(r.build_num as int) + ",\"commit_hash\":"@ + json_opt_string(
        r.commit_hash,
    ) + ",\"status\":"@ + json_string(status_str_spec(r.status)) + "}"@
}

/// The comma-separated build records.
pub open spec fn json_records(rs: Seq<BuildDetailsView>) -> Seq<char>
    decreases rs.len(),
{
    if rs.len() == 0 {
        Seq::empty()
    } else if rs.len() == 1 {
        json_record(rs[0])
    } else {
        json_records(rs.drop_last()) + ","@ + json_record(rs.last())
    }
}

/// The whole branch state as written to `data.json`.
pub open spec fn json_branch_details(d: BranchDetailsView) -> Seq<char> {
    "{\"last_seen_commit\":"@ + json_opt_string(d.last_seen_commit) + ",\"builds\":["@
        + json_records(d.builds) + "]}"@
}

pub(crate) fn push_lit(buf: &mut Vec<char>, lit: &str)
    ensures
        final(buf)@ == old(buf)@ + lit@,
{
    let mut t = str_chars(lit);
    buf.append(&mut t);
}

pub(crate) fn push_escaped(buf: &mut Vec<char>, s: &str)
    ensures
        final(buf)@ == old(buf)@ + esc(s@),
{
    let cs = str_chars(s);
    let n = cs.len();
    let mut i: usize = 0;
    while i < n
        invariant
            cs@ == s@,
            n == cs.len(),
            0 <= i <= n,
            buf@ == old(buf)@ + esc(cs@.subrange(0, i as int)),
        decreases n - i,
    {
        let ghost pre = cs@.subrange(0, i as int);
        let c = cs[i];
        if c == '"' {
            buf.push('\\');
            buf.push('"');
        } else if c == '\\' {
            buf.push('\\');
            buf.push('\\');
        } else if c == '\n' {
            buf.push('\\');
            buf.push('n');
        } else if c == '\r' {
            buf.push('\\');
            buf.push('r');
        } else if c == '\t' {
            buf.push('\\');
            buf.push('t');
        } else {
            buf.push(c);
        }
        proof {
            lemma_esc_push(pre, cs@[i as int]);
            assert(cs@.subrange(0, i + 1) =~= pre.push(cs@[i as int]));
            assert(buf@ =~= old(buf)@ + esc(cs@.subrange(0, i + 1)));
        }
        i = i + 1;
    }
    proof {
        assert(cs@.subrange(0, n as int) =~= cs@);
    }
}

pub(crate) fn push_json_string(buf: &mut Vec<char>, s: &str)
    ensures
        final(buf)@ == old(buf)@ + json_string(s@),
{
    buf.push('"');
    push_escaped(buf, s);
    buf.push('"');
    proof {
        assert(buf@ =~= old(buf)@ + json_string(s@));
    }
}

pub(crate) fn push_opt_string(buf: &mut Vec<char>, v: &Option<String>)
    ensures
        final(buf)@ == old(buf)@ + json_opt_string(v.deep_view()),
{
    match v {
        None => push_lit(buf, "null"),
        Some(s) => push_json_string(buf, s.as_str()),
    }
}

pub(crate) fn push_u64(buf: &mut Vec<char>, n: u64)
    ensures
        final(buf)@ == old(buf)@ + dec_spec(n as int),
{
    let s = format_u64(n);
    push_lit(buf, s.as_str());
}

fn push_record(buf: &mut Vec<char>, r: &BuildDetails)
    ensures
        final(buf)@ == old(buf)@ + json_record(r@),
{
    push_lit(buf, "{\"build_num\":");
    push_u64(buf, r.build_num);
    push_lit(buf, ",\"commit_hash\":");
    push_opt_string(buf, &r.commit_hash);
    push_lit(buf, ",\"status\":");
    push_json_string(buf, status_str(r.status));
    push_lit(buf, "}");
    proof {
        assert(buf@ =~= old(buf)@ + json_record(r@));
    }
}

/// The `data.json` text for the branch state `d`.
pub fn emit_branch_details(d: &BranchDetails) -> (r: String)
    ensures
        r@ == json_branch_details(d@),
{
    let mut buf: Vec<char> = Vec::new();
    push_lit(&mut buf, "{\"last_seen_commit\":");
    push_opt_string(&mut buf, &d.last_seen_commit);
    push_lit(&mut buf, ",\"builds\":[");
    let ghost head = buf@;
    let n = d.builds.len();
    let mut i: usize = 0;
    while i < n
        invariant
            n == d.builds.len(),
            0 <= i <= n,
            d@.builds.len() == n,
            buf@ == head + json_records(d@.builds.subrange(0, i as int)),
        decreases n - i,
    {
        let ghost pre = d@.builds.subrange(0, i as int);
        let ghost cur = d@.builds.subrange(0, i + 1);
        proof {
            assert(cur.drop_last() =~= pre);
            assert(cur.last() == d@.builds[i as int]);
            assert(d.builds@[i as int]@ == d@.builds[i as int]);
        }
        if i > 0 {
            push_lit(&mut buf, ",");
        }
        push_record(&mut buf, &d.builds[i]);
        proof {
            if i == 0 {
                assert(json_records(pre).len() == 0);
                assert(cur.len() == 1);
                assert(json_records(cur) == json_record(cur[0]));
                assert(cur[0] == d@.builds[0]);
                assert(buf@ =~= head + json_records(cur));
            } else {
                assert(json_records(cur) == json_records(pre) + ","@ + json_record(cur.last()));
                assert(buf@ =~= head + json_records(cur));
            }
        }
        i = i + 1;
    }
    proof {
        assert(d@.builds.subrange(0, n as int) =~= d@.builds);
    }
    push_lit(&mut buf, "]}");
    proof {
        assert(buf@ =~= json_branch_details(d@));
    }
    chars_to_string(&buf)
}


/// The character an escape letter stands for, when it is one the
/// emitter writes.
pub open spec fn unesc_char_of(c: char) -> Option<char> {
    if c == '"' {
        Some('"')
    } else if c == '\\' {
        Some('\\')
    } else if c == 'n' {
        Some('\n')
    } else if c == 'r' {
        Some('\r')
    } else if c == 't' {
        Some('\t')
    } else {
        None
    }
}

/// Parse of a quoted string, entered just after the opening quote:
/// the decoded characters and the input after the closing quote.
pub open spec fn parse_qstring(inp: Seq<char>) -> Option<(Seq<char>, Seq<char>)>
    decreases inp.len(),
{
    if inp.len() == 0 {
        None
    } else if inp[0] == '"' {
        Some((Seq::empty(), inp.drop_first()))
    } else if inp[0] == '\\' {
        if inp.len() >= 2 {
            match unesc_char_of(inp[1]) {
                Some(u) => match parse_qstring(inp.skip(2)) {
                    Some(p) => Some((seq![u] + p.0, p.1)),
                    None => None,
                },
                None => None,
            }
        } else {
            None
        }
    } else {
        match parse_qstring(inp.drop_first()) {
            Some(p) => Some((seq![inp[0]] + p.0, p.1)),
            None => None,
        }
    }
}

/// Reading back an escaped string recovers it exactly.
pub(crate) proof fn lemma_parse_qstring_esc(s: Seq<char>, tail: Seq<char>)
    ensures
        parse_qstring(esc(s) + seq!['"'] + tail) == Some((s, tail)),
    decreases s.len(),
{
    let inp = esc(s) + seq!['"'] + tail;
    if s.len() == 0 {
        assert(inp =~= seq!['"'] + tail);
        assert(inp[0] == '"');
        assert(inp.drop_first() =~= tail);
    } else {
        let c = s[0];
        let rest = s.drop_first();
        assert(esc(s) == esc_char(c) + esc(rest));
        let sub = esc(rest) + seq!['"'] + tail;
        if c == '"' || c == '\\' || c == '\n' || c == '\r' || c == '\t' {
            assert(esc_char(c).len() == 2 && esc_char(c)[0] == '\\');
            assert(inp =~= esc_char(c) + sub);
            assert(inp[0] == '\\');
            assert(inp[1] == esc_char(c)[1]);
            assert(unesc_char_of(esc_char(c)[1]) == Some(c));
            assert(inp.skip(2) =~= sub);
            lemma_parse_qstring_esc(rest, tail);
            assert(seq![c] + rest =~= s);
        } else {
            assert(esc_char(c) =~= seq![c]);
            assert(inp[0] == c);
            assert(c != '"' && c != '\\');
            assert(inp.drop_first() =~= sub);
            lemma_parse_qstring_esc(rest, tail);
            assert(seq![c] + rest =~= s);
        }
    }
}

/// Length of the leading run of decimal digits.
pub open spec fn digit_prefix_len(inp: Seq<char>) -> int
    decreases inp.len(),
{
    if inp.len() > 0 && is_dec_digit(inp[0]) {
        1 + digit_prefix_len(inp.drop_first())
    } else {
        0
    }
}

proof fn lemma_digit_prefix_len_le(inp: Seq<char>)
    ensures
        0 <= digit_prefix_len(inp) <= inp.len(),
    decreases inp.len(),
{
    if inp.len() > 0 && is_dec_digit(inp[0]) {
        lemma_digit_prefix_len_le(inp.drop_first());
    }
}

/// Parse of a decimal number: the leading digit run read in base ten,
/// refused when absent or when its value does not fit in a `u64`.
pub open spec fn parse_num(inp: Seq<char>) -> Option<(u64, Seq<char>)> {
    let n = digit_prefix_len(inp);
    if n == 0 {
        None
    } else if dec_val(inp.subrange(0, n)) > u64::MAX {
        None
    } else {
        Some((dec_val(inp.subrange(0, n)) as u64, inp.skip(n)))
    }
}

pub(crate) proof fn lemma_dpl_concat(s: Seq<char>, t: Seq<char>)
    requires
        forall|m: int| 0 <= m < s.len() ==> is_dec_digit(s[m]),
        t.len() == 0 || !is_dec_digit(t[0]),
    ensures
        digit_prefix_len(s + t) == s.len(),
    decreases s.len(),
{
    if s.len() == 0 {
        assert(s + t =~= t);
    } else {
        assert((s + t)[0] == s[0]);
        assert((s + t).drop_first() =~= s.drop_first() + t);
        lemma_dpl_concat(s.drop_first(), t);
    }
}

/// Reading back a written number recovers it, provided what follows
/// does not begin with a digit.
pub(crate) proof fn lemma_parse_num_dec(n: u64, tail: Seq<char>)
    requires
        tail.len() == 0 || !is_dec_digit(tail[0]),
    ensures
        parse_num(dec_spec(n as int) + tail) == Some((n, tail)),
{
    let ds = dec_spec(n as int);
    crate::text::lemma_dec_spec_digits(n as int);
    crate::text::lemma_dec_val_of_dec_spec(n as int);
    lemma_dpl_concat(ds, tail);
    let inp = ds + tail;
    assert(inp.subrange(0, ds.len() as int) =~= ds);
    assert(inp.skip(ds.len() as int) =~= tail);
}

/// Whether `inp` begins with `lit`.
pub open spec fn starts_with(inp: Seq<char>, lit: Seq<char>) -> bool {
    inp.len() >= lit.len() && inp.subrange(0, lit.len() as int) == lit
}

pub(crate) proof fn lemma_starts_with_concat(lit: Seq<char>, rest: Seq<char>)
    ensures
        starts_with(lit + rest, lit),
        (lit + rest).skip(lit.len() as int) == rest,
{
    assert((lit + rest).subrange(0, lit.len() as int) =~= lit);
    assert((lit + rest).skip(lit.len() as int) =~= rest);
}

/// Parse of a JSON string or `null`.
pub open spec fn parse_opt_string(inp: Seq<char>) -> Option<(Option<Seq<char>>, Seq<char>)> {
    if starts_with(inp, "null"@) {
        Some((None, inp.skip("null"@.len() as int)))
    } else if inp.len() > 0 && inp[0] == '"' {
        match parse_qstring(inp.drop_first()) {
            Some(p) => Some((Some(p.0), p.1)),
            None => None,
        }
    } else {
        None
    }
}

pub(crate) proof fn lemma_parse_opt_string(v: Option<Seq<char>>, tail: Seq<char>)
    ensures
        parse_opt_string(json_opt_string(v) + tail) == Some((v, tail)),
{
    reveal_strlit("null");
    let inp = json_opt_string(v) + tail;
    match v {
        None => {
            lemma_starts_with_concat("null"@, tail);
        },
        Some(s) => {
            assert(json_string(s) == seq!['"'] + esc(s) + seq!['"']);
            assert(inp =~= seq!['"'] + (esc(s) + seq!['"'] + tail));
            assert(inp[0] == '"');
            assert(!starts_with(inp, "null"@)) by {
                if starts_with(inp, "null"@) {
                    assert(inp.subrange(0, 4)[0] == inp[0]);
                    assert("null"@[0] == 'n');
                }
            }
            assert(inp.drop_first() =~= esc(s) + seq!['"'] + tail);
            lemma_parse_qstring_esc(s, tail);
        },
    }
}

/// The status a status string stands for, if any.
pub open spec fn status_of_str(s: Seq<char>) -> Option<BuildStatus> {
    if s == status_str_spec(BuildStatus::Building) {
        Some(BuildStatus::Building)
    } else if s == status_str_spec(BuildStatus::Finished) {
        Some(BuildStatus::Finished)
    } else if s == status_str_spec(BuildStatus::Error) {
        Some(BuildStatus::Error)
    } else {
        None
    }
}

proof fn lemma_status_round_trip(st: BuildStatus)
    ensures
        status_of_str(status_str_spec(st)) == Some(st),
{
    reveal_strlit("building");
    reveal_strlit("finished");
    reveal_strlit("error");
    assert("building"@.len() == 8);
    assert("finished"@.len() == 8);
    assert("error"@.len() == 5);
    assert("building"@[0] == 'b');
    assert("finished"@[0] == 'f');
}

/// Parse of one build record.
pub open spec fn parse_record(inp: Seq<char>) -> Option<(BuildDetailsView, Seq<char>)> {
    if !starts_with(inp, "{\"build_num\":"@) {
        None
    } else {
        match parse_num(inp.skip("{\"build_num\":"@.len() as int)) {
            None => None,
            Some(p1) => if !starts_with(p1.1, ",\"commit_hash\":"@) {
                None
            } else {
                match parse_opt_string(p1.1.skip(",\"commit_hash\":"@.len() as int)) {
                    None => None,
                    Some(p2) => if !starts_with(p2.1, ",\"status\":\""@) {
                        None
                    } else {
                        match parse_qstring(p2.1.skip(",\"status\":\""@.len() as int)) {
                            None => None,
                            Some(p3) => match status_of_str(p3.0) {
                                None => None,
                                Some(st) => if !starts_with(p3.1, "}"@) {
                                    None
                                } else {
                                    Some(
                                        (
                                            BuildDetailsView {
                                                build_num: p1.0,
                                                commit_hash: p2.0,
                                                status: st,
                                            },
                                            p3.1.skip("}"@.len() as int),
                                        ),
                                    )
                                },
                            },
                        }
                    },
                }
            },
        }
    }
}

/// Reading back a written record recovers it exactly.
proof fn lemma_parse_record(r: BuildDetailsView, tail: Seq<char>)
    ensures
        parse_record(json_record(r) + tail) == Some((r, tail)),
{
    let lit1 = "{\"build_num\":"@;
    let lit2 = ",\"commit_hash\":"@;
    let lit3 = ",\"status\":"@;
    let lit4 = "}"@;
    let ds = dec_spec(r.build_num as int);
    let os = json_opt_string(r.commit_hash);
    let ss = json_string(status_str_spec(r.status));
    let inp = json_record(r) + tail;
    let rest1 = ds + (lit2 + (os + (lit3 + (ss + (lit4 + tail)))));
    assert(inp =~= lit1 + rest1);
    lemma_starts_with_concat(lit1, rest1);
    assert(parse_record(inp) == parse_record(lit1 + rest1)) by {
        assert(inp == lit1 + rest1);
    }
    let a = rest1;
    let rest2 = lit2 + (os + (lit3 + (ss + (lit4 + tail))));
    assert(a =~= ds + rest2);
    assert(rest2.len() > 0 && !is_dec_digit(rest2[0])) by {
        reveal_strlit(",\"commit_hash\":");
        assert(rest2[0] == lit2[0]);
        assert(lit2[0] == ',');
    }
    lemma_parse_num_dec(r.build_num, rest2);
    let b = rest2;
    let rest3 = os + (lit3 + (ss + (lit4 + tail)));
    lemma_starts_with_concat(lit2, rest3);
    assert(b =~= lit2 + rest3);
    let c0 = rest3;
    let rest4 = lit3 + (ss + (lit4 + tail));
    assert(c0 =~= os + rest4);
    lemma_parse_opt_string(r.commit_hash, rest4);
    let d0 = rest4;
    let lit3q = ",\"status\":\""@;
    let rest5 = esc(status_str_spec(r.status)) + seq!['"'] + (lit4 + tail);
    assert(d0 =~= lit3q + rest5) by {
        reveal_strlit(",\"status\":");
        reveal_strlit(",\"status\":\"");
        assert(ss =~= seq!['"'] + esc(status_str_spec(r.status)) + seq!['"']);
        assert(lit3q =~= lit3 + seq!['"']);
    }
    lemma_starts_with_concat(lit3q, rest5);
    assert(starts_with(d0, lit3q) && d0.skip(lit3q.len() as int) == rest5) by {
        assert(d0 == lit3q + rest5);
    }
    lemma_parse_qstring_esc(status_str_spec(r.status), lit4 + tail);
    lemma_status_round_trip(r.status);
    let f0 = lit4 + tail;
    lemma_starts_with_concat(lit4, tail);
}


/// The records after the first, each preceded by a comma.
pub open spec fn json_records_more(rs: Seq<BuildDetailsView>) -> Seq<char>
    decreases rs.len(),
{
    if rs.len() == 0 {
        Seq::empty()
    } else {
        ","@ + json_record(rs[0]) + json_records_more(rs.drop_first())
    }
}

proof fn lemma_records_more_push(rs: Seq<BuildDetailsView>, x: BuildDetailsView)
    ensures
        json_records_more(rs.push(x)) == json_records_more(rs) + ","@ + json_record(x),
    decreases rs.len(),
{
    if rs.len() == 0 {
        assert(rs.push(x)[0] == x);
        assert(rs.push(x).drop_first() =~= Seq::<BuildDetailsView>::empty());
        assert(json_records_more(rs.push(x)) == ","@ + json_record(x) + json_records_more(
            rs.push(x).drop_first(),
        ));
        assert(json_records_more(rs.push(x).drop_first()) == Seq::<char>::empty());
        assert(json_records_more(rs) == Seq::<char>::empty());
        assert(json_records_more(rs.push(x)) =~= json_records_more(rs) + ","@ + json_record(x));
    } else {
        assert(rs.push(x)[0] == rs[0]);
        assert(rs.push(x).drop_first() =~= rs.drop_first().push(x));
        lemma_records_more_push(rs.drop_first(), x);
        assert(json_records_more(rs.push(x)) == ","@ + json_record(rs[0]) + json_records_more(
            rs.drop_first().push(x),
        ));
        assert(json_records_more(rs) == ","@ + json_record(rs[0]) + json_records_more(
            rs.drop_first(),
        ));
        assert(json_records_more(rs.push(x)) =~= json_records_more(rs) + ","@ + json_record(x));
    }
}

/// The back-recursive and front-recursive forms of the record list
/// agree.
proof fn lemma_records_front(rs: Seq<BuildDetailsView>)
    requires
        rs.len() > 0,
    ensures
        json_records(rs) == json_record(rs[0]) + json_records_more(rs.drop_first()),
    decreases rs.len(),
{
    if rs.len() == 1 {
        assert(rs.drop_first().len() == 0);
        assert(json_records(rs) =~= json_record(rs[0]) + json_records_more(rs.drop_first()));
    } else {
        let pre = rs.drop_last();
        lemma_records_front(pre);
        assert(pre[0] == rs[0]);
        assert(pre.drop_first() =~= rs.drop_first().drop_last());
        lemma_records_more_push(rs.drop_first().drop_last(), rs.last());
        assert(rs.drop_first().drop_last().push(rs.last()) =~= rs.drop_first());
        assert(json_records(rs) == json_records(pre) + ","@ + json_record(rs.last()));
        assert(json_records(rs) =~= json_record(rs[0]) + json_records_more(rs.drop_first()));
    }
}

/// Parse of `,record` repetitions closed by `]`, entered after the
/// first record.
pub open spec fn parse_records_more(inp: Seq<char>) -> Option<
    (Seq<BuildDetailsView>, Seq<char>),
>
    decreases inp.len(),
{
    if inp.len() == 0 {
        None
    } else if inp[0] == ']' {
        Some((Seq::empty(), inp.drop_first()))
    } else if inp[0] == ',' {
        match parse_record(inp.drop_first()) {
            Some(p) => if p.1.len() < inp.len() {
                match parse_records_more(p.1) {
                    Some(q) => Some((seq![p.0] + q.0, q.1)),
                    None => None,
                }
            } else {
                None
            },
            None => None,
        }
    } else {
        None
    }
}

/// Parse of the bracketed record list, entered after the `[`.
pub open spec fn parse_records(inp: Seq<char>) -> Option<(Seq<BuildDetailsView>, Seq<char>)> {
    if inp.len() == 0 {
        None
    } else if inp[0] == ']' {
        Some((Seq::empty(), inp.drop_first()))
    } else {
        match parse_record(inp) {
            Some(p) => match parse_records_more(p.1) {
                Some(q) => Some((seq![p.0] + q.0, q.1)),
                None => None,
            },
            None => None,
        }
    }
}

proof fn lemma_parse_records_more(rs: Seq<BuildDetailsView>, tail: Seq<char>)
    ensures
        parse_records_more(json_records_more(rs) + "]"@ + tail) == Some((rs, tail)),
    decreases rs.len(),
{
    reveal_strlit("]");
    reveal_strlit(",");
    let inp = json_records_more(rs) + "]"@ + tail;
    if rs.len() == 0 {
        assert(inp =~= "]"@ + tail);
        assert("]"@[0] == ']');
        assert(inp[0] == ']');
        assert(inp.drop_first() =~= tail);
    } else {
        let sub = json_records_more(rs.drop_first()) + "]"@ + tail;
        assert(inp =~= ","@ + (json_record(rs[0]) + sub));
        assert(","@[0] == ',');
        assert(inp[0] == ',');
        assert(inp[0] != ']');
        assert(inp.drop_first() =~= json_record(rs[0]) + sub);
        lemma_parse_record(rs[0], sub);
        assert(sub.len() < inp.len()) by {
            assert(inp.len() == 1 + json_record(rs[0]).len() + sub.len());
        }
        lemma_parse_records_more(rs.drop_first(), tail);
        assert(seq![rs[0]] + rs.drop_first() =~= rs);
    }
}

proof fn lemma_parse_records(rs: Seq<BuildDetailsView>, tail: Seq<char>)
    ensures
        parse_records(json_records(rs) + "]"@ + tail) == Some((rs, tail)),
{
    reveal_strlit("]");
    let inp = json_records(rs) + "]"@ + tail;
    if rs.len() == 0 {
        assert(inp =~= "]"@ + tail);
        assert(inp[0] == ']');
        assert(inp.drop_first() =~= tail);
    } else {
        lemma_records_front(rs);
        let sub = json_records_more(rs.drop_first()) + "]"@ + tail;
        assert(inp =~= json_record(rs[0]) + sub);
        assert(starts_with(json_record(rs[0]), "{\"build_num\":"@)) by {
            lemma_starts_with_concat(
                "{\"build_num\":"@,
                dec_spec(rs[0].build_num as int) + ",\"commit_hash\":"@ + json_opt_string(
                    rs[0].commit_hash,
                ) + ",\"status\":"@ + json_string(status_str_spec(rs[0].status)) + "}"@,
            );
            assert(json_record(rs[0]) =~= "{\"build_num\":"@ + (dec_spec(rs[0].build_num as int)
                + ",\"commit_hash\":"@ + json_opt_string(rs[0].commit_hash) + ",\"status\":"@
                + json_string(status_str_spec(rs[0].status)) + "}"@));
        }
        assert(inp[0] == '{') by {
            reveal_strlit("{\"build_num\":");
            assert(json_record(rs[0])[0] == "{\"build_num\":"@[0]);
        }
        assert(inp[0] != ']');
        lemma_parse_record(rs[0], sub);
        lemma_parse_records_more(rs.drop_first(), tail);
        assert(seq![rs[0]] + rs.drop_first() =~= rs);
    }
}

/// Parse of the whole branch state object.
pub open spec fn parse_branch_details_at(inp: Seq<char>) -> Option<
    (BranchDetailsView, Seq<char>),
> {
    if !starts_with(inp, "{\"last_seen_commit\":"@) {
        None
    } else {
        match parse_opt_string(inp.skip("{\"last_seen_commit\":"@.len() as int)) {
            None => None,
            Some(p1) => if !starts_with(p1.1, ",\"builds\":["@) {
                None
            } else {
                match parse_records(p1.1.skip(",\"builds\":["@.len() as int)) {
                    None => None,
                    Some(p2) => if !starts_with(p2.1, "}"@) {
                        None
                    } else {
                        Some(
                            (
                                BranchDetailsView {
                                    last_seen_commit: p1.0,
                                    builds: p2.0,
                                },
                                p2.1.skip("}"@.len() as int),
                            ),
                        )
                    },
                }
            },
        }
    }
}

/// Parse of a whole `data.json` text: the branch state, provided
/// nothing follows it.
pub open spec fn parse_data_json(s: Seq<char>) -> Option<BranchDetailsView> {
    match parse_branch_details_at(s) {
        Some(p) => if p.1.len() == 0 {
            Some(p.0)
        } else {
            None
        },
        None => None,
    }
}

/// What the engine writes to `data.json` it reads back unchanged: the
/// branch state round-trips through its text form.
pub proof fn lemma_data_json_round_trip(d: BranchDetailsView)
    ensures
        parse_data_json(json_branch_details(d)) == Some(d),
{
    let lit1 = "{\"last_seen_commit\":"@;
    let lit2 = ",\"builds\":["@;
    let lit3 = "}"@;
    let os = json_opt_string(d.last_seen_commit);
    let inp = json_branch_details(d);
    reveal_strlit("]}");
    reveal_strlit("]");
    reveal_strlit("}");
    assert("]}"@ =~= "]"@ + "}"@);
    assert(inp =~= lit1 + (os + (lit2 + (json_records(d.builds) + "]"@ + lit3))));
    let rest_a = os + (lit2 + (json_records(d.builds) + "]"@ + lit3));
    lemma_starts_with_concat(lit1, rest_a);
    assert(starts_with(inp, lit1) && inp.skip(lit1.len() as int) == rest_a) by {
        assert(inp == lit1 + rest_a);
    }
    let rest_b = lit2 + (json_records(d.builds) + "]"@ + lit3);
    assert(rest_a =~= os + rest_b);
    lemma_parse_opt_string(d.last_seen_commit, rest_b);
    let rest_c = json_records(d.builds) + "]"@ + lit3;
    lemma_starts_with_concat(lit2, rest_c);
    assert(rest_b == lit2 + rest_c);
    assert(rest_c =~= json_records(d.builds) + "]"@ + lit3);
    lemma_parse_records(d.builds, lit3);
    lemma_starts_with_concat(lit3, Seq::<char>::empty());
    assert(lit3 + Seq::<char>::empty() =~= lit3);
    assert(starts_with(lit3, lit3) && lit3.skip(lit3.len() as int) =~= Seq::<char>::empty());
}


pub(crate) fn expect_lit(cs: &Vec<char>, i: usize, lit: &str) -> (r: Option<usize>)
    requires
        i <= cs@.len(),
    ensures
        match r {
            Some(j) => starts_with(cs@.skip(i as int), lit@) && j == i + lit@.len() && i <= j
                <= cs@.len(),
            None => !starts_with(cs@.skip(i as int), lit@),
        },
{
    let ls = str_chars(lit);
    let m = ls.len();
    if cs.len() - i < m {
        return None;
    }
    let mut k: usize = 0;
    while k < m
        invariant
            0 <= k <= m,
            m == ls.len(),
            ls@ == lit@,
            i + m <= cs@.len(),
            cs@.len() <= usize::MAX,
            forall|t: int| 0 <= t < k ==> cs@[i + t] == ls@[t],
        decreases m - k,
    {
        if cs[i + k] != ls[k] {
            proof {
                if starts_with(cs@.skip(i as int), lit@) {
                    assert(cs@.skip(i as int).subrange(0, m as int)[k as int] == lit@[k as int]);
                    assert(cs@.skip(i as int)[k as int] == cs@[i + k]);
                }
            }
            return None;
        }
        k = k + 1;
    }
    proof {
        assert(cs@.skip(i as int).subrange(0, m as int) =~= lit@);
    }
    Some(i + m)
}

fn unesc_char(c: char) -> (r: Option<char>)
    ensures
        r == unesc_char_of(c),
{
    if c == '"' {
        Some('"')
    } else if c == '\\' {
        Some('\\')
    } else if c == 'n' {
        Some('\n')
    } else if c == 'r' {
        Some('\r')
    } else if c == 't' {
        Some('\t')
    } else {
        None
    }
}

pub(crate) fn parse_qstring_at(cs: &Vec<char>, i: usize) -> (r: Option<(String, usize)>)
    requires
        i <= cs@.len(),
    ensures
        match r {
            Some(p) => i <= p.1 <= cs@.len() && parse_qstring(cs@.skip(i as int)) == Some(
                (p.0@, cs@.skip(p.1 as int)),
            ),
            None => parse_qstring(cs@.skip(i as int)) is None,
        },
{
    let n = cs.len();
    let mut out: Vec<char> = Vec::new();
    let mut p: usize = i;
    loop
        invariant
            i <= p <= n,
            n == cs@.len(),
            parse_qstring(cs@.skip(i as int)) == (match parse_qstring(cs@.skip(p as int)) {
                Some(q) => Some((out@ + q.0, q.1)),
                None => None,
            }),
        decreases n - p,
    {
        if p >= n {
            proof {
                assert(cs@.skip(p as int).len() == 0);
            }
            return None;
        }
        let c = cs[p];
        proof {
            assert(cs@.skip(p as int)[0] == c);
        }
        if c == '"' {
            proof {
                assert(cs@.skip(p as int).drop_first() =~= cs@.skip(p + 1));
                assert(out@ + Seq::<char>::empty() =~= out@);
            }
            return Some((chars_to_string(&out), p + 1));
        } else if c == '\\' {
            if p + 1 >= n {
                proof {
                    assert(cs@.skip(p as int).len() < 2);
                }
                return None;
            }
            let e = cs[p + 1];
            proof {
                assert(cs@.skip(p as int)[1] == e);
            }
            match unesc_char(e) {
                Some(u) => {
                    let ghost preout = out@;
                    out.push(u);
                    p = p + 2;
                    proof {
                        assert(cs@.skip(p - 2).skip(2) =~= cs@.skip(p as int));
                        match parse_qstring(cs@.skip(p as int)) {
                            Some(q) => {
                                assert(out@ + q.0 =~= preout + (seq![u] + q.0));
                            },
                            None => {},
                        }
                    }
                },
                None => {
                    return None;
                },
            }
        } else {
            let ghost preout = out@;
            out.push(c);
            p = p + 1;
            proof {
                assert(cs@.skip(p - 1).drop_first() =~= cs@.skip(p as int));
                match parse_qstring(cs@.skip(p as int)) {
                    Some(q) => {
                        assert(out@ + q.0 =~= preout + (seq![c] + q.0));
                    },
                    None => {},
                }
            }
        }
    }
}

fn is_digit_char(c: char) -> (r: bool)
    ensures
        r == is_dec_digit(c),
{
    let u = c as u32;
    48 <= u && u <= 57
}

proof fn lemma_dpl_range(s: Seq<char>, k: int)
    requires
        0 <= k <= s.len(),
        forall|m: int| 0 <= m < k ==> is_dec_digit(s[m]),
        k < s.len() ==> !is_dec_digit(s[k]),
    ensures
        digit_prefix_len(s) == k,
    decreases k,
{
    if k == 0 {
    } else {
        assert(is_dec_digit(s[0]));
        let t = s.drop_first();
        assert(forall|m: int| 0 <= m < k - 1 ==> is_dec_digit(t[m]));
        assert(k - 1 < t.len() ==> !is_dec_digit(t[k - 1]));
        lemma_dpl_range(t, k - 1);
    }
}

pub(crate) fn parse_num_at(cs: &Vec<char>, i: usize) -> (r: Option<(u64, usize)>)
    requires
        i <= cs@.len(),
    ensures
        match r {
            Some(p) => i < p.1 <= cs@.len() && parse_num(cs@.skip(i as int)) == Some(
                (p.0, cs@.skip(p.1 as int)),
            ),
            None => parse_num(cs@.skip(i as int)) is None,
        },
{
    let n = cs.len();
    let mut j: usize = i;
    while j < n && is_digit_char(cs[j])
        invariant
            i <= j <= n,
            n == cs@.len(),
            forall|m: int| i <= m < j ==> is_dec_digit(cs@[m]),
        decreases n - j,
    {
        j = j + 1;
    }
    proof {
        let tail = cs@.skip(i as int);
        assert(forall|m: int| 0 <= m < j - i ==> tail[m] == cs@[i + m]);
        assert(j < n ==> tail[j - i] == cs@[j as int]);
        lemma_dpl_range(tail, j - i);
    }
    if j == i {
        return None;
    }
    let ghost seg = cs@.subrange(i as int, j as int);
    proof {
        assert(cs@.skip(i as int).subrange(0, j - i) =~= seg);
        assert(forall|m: int| 0 <= m < seg.len() ==> is_dec_digit(seg[m]));
    }
    let mut acc: u64 = 0;
    let mut k: usize = i;
    while k < j
        invariant
            i < j,
            i <= k <= j <= n,
            n == cs@.len(),
            seg == cs@.subrange(i as int, j as int),
            digit_prefix_len(cs@.skip(i as int)) == j - i,
            cs@.skip(i as int).subrange(0, j - i) == seg,
            forall|m: int| 0 <= m < seg.len() ==> is_dec_digit(seg[m]),
            acc as int == dec_val(cs@.subrange(i as int, k as int)),
        decreases j - k,
    {
        let c = cs[k];
        let u = c as u32;
        proof {
            assert(cs@[k as int] == seg[k - i]);
            assert(is_dec_digit(c));
        }
        let d: u64 = (u - 48) as u64;
        let next = match acc.checked_mul(10) {
            Some(m) => m.checked_add(d),
            None => None,
        };
        match next {
            Some(v) => {
                proof {
                    let pre = cs@.subrange(i as int, k as int);
                    let cur = cs@.subrange(i as int, k + 1);
                    assert(cur.drop_last() =~= pre);
                    assert(cur.last() == cs@[k as int]);
                    assert(crate::text::digit_val(cs@[k as int]) == d);
                }
                acc = v;
            },
            None => {
                proof {
                    let cur = cs@.subrange(i as int, k + 1);
                    assert(cur.drop_last() =~= cs@.subrange(i as int, k as int));
                    assert(cur.last() == cs@[k as int]);
                    assert(crate::text::digit_val(cs@[k as int]) == d);
                    assert(dec_val(cur) > u64::MAX);
                    assert(cur =~= seg.subrange(0, k + 1 - i));
                    crate::text::lemma_dec_val_grows(seg, k + 1 - i);
                }
                return None;
            },
        }
        k = k + 1;
    }
    proof {
        assert(cs@.subrange(i as int, j as int) =~= seg);
        assert(cs@.skip(i as int).skip(j - i) =~= cs@.skip(j as int));
        crate::text::lemma_dec_val_nonneg(seg);
    }
    Some((acc, j))
}

pub(crate) fn parse_opt_string_at(cs: &Vec<char>, i: usize) -> (r: Option<(Option<String>, usize)>)
    requires
        i <= cs@.len(),
    ensures
        match r {
            Some(p) => i <= p.1 <= cs@.len() && parse_opt_string(cs@.skip(i as int)) == Some(
                (p.0.deep_view(), cs@.skip(p.1 as int)),
            ),
            None => parse_opt_string(cs@.skip(i as int)) is None,
        },
{
    match expect_lit(cs, i, "null") {
        Some(j) => {
            proof {
                assert(cs@.skip(i as int).skip("null"@.len() as int) =~= cs@.skip(j as int));
            }
            return Some((None, j));
        },
        None => {},
    }
    if i < cs.len() {
        let c = cs[i];
        proof {
            assert(cs@.skip(i as int)[0] == c);
        }
        if c == '"' {
            proof {
                assert(cs@.skip(i as int).drop_first() =~= cs@.skip(i + 1));
            }
            match parse_qstring_at(cs, i + 1) {
                Some(p) => {
                    return Some((Some(p.0), p.1));
                },
                None => {
                    return None;
                },
            }
        }
    }
    proof {
        assert(cs@.skip(i as int).len() > 0 ==> cs@.skip(i as int)[0] != '"');
    }
    None
}

fn status_of_string(st: &String) -> (r: Option<BuildStatus>)
    ensures
        r == status_of_str(st@),
{
    if st.eq(&String::from_str("building")) {
        Some(BuildStatus::Building)
    } else if st.eq(&String::from_str("finished")) {
        Some(BuildStatus::Finished)
    } else if st.eq(&String::from_str("error")) {
        Some(BuildStatus::Error)
    } else {
        None
    }
}

fn parse_record_at(cs: &Vec<char>, i: usize) -> (r: Option<(BuildDetails, usize)>)
    requires
        i <= cs@.len(),
    ensures
        match r {
            Some(p) => i < p.1 <= cs@.len() && parse_record(cs@.skip(i as int)) == Some(
                (p.0@, cs@.skip(p.1 as int)),
            ),
            None => parse_record(cs@.skip(i as int)) is None,
        },
{
    let j1 = match expect_lit(cs, i, "{\"build_num\":") {
        Some(j) => j,
        None => {
            return None;
        },
    };
    proof {
        assert(cs@.skip(i as int).skip("{\"build_num\":"@.len() as int) =~= cs@.skip(j1 as int));
    }
    let (bn, j2) = match parse_num_at(cs, j1) {
        Some(p) => p,
        None => {
            return None;
        },
    };
    let j3 = match expect_lit(cs, j2, ",\"commit_hash\":") {
        Some(j) => j,
        None => {
            return None;
        },
    };
    proof {
        assert(cs@.skip(j2 as int).skip(",\"commit_hash\":"@.len() as int) =~= cs@.skip(
            j3 as int,
        ));
    }
    let (ch, j4) = match parse_opt_string_at(cs, j3) {
        Some(p) => p,
        None => {
            return None;
        },
    };
    let j5 = match expect_lit(cs, j4, ",\"status\":\"") {
        Some(j) => j,
        None => {
            return None;
        },
    };
    proof {
        assert(cs@.skip(j4 as int).skip(",\"status\":\""@.len() as int) =~= cs@.skip(j5 as int));
    }
    let (ss, j6) = match parse_qstring_at(cs, j5) {
        Some(p) => p,
        None => {
            return None;
        },
    };
    let st = match status_of_string(&ss) {
        Some(v) => v,
        None => {
            return None;
        },
    };
    let j7 = match expect_lit(cs, j6, "}") {
        Some(j) => j,
        None => {
            return None;
        },
    };
    proof {
        assert(cs@.skip(j6 as int).skip("}"@.len() as int) =~= cs@.skip(j7 as int));
        reveal_strlit("}");
    }
    let rec = BuildDetails { build_num: bn, commit_hash: ch, status: st };
    Some((rec, j7))
}

fn parse_records_at(cs: &Vec<char>, i: usize) -> (r: Option<(Vec<BuildDetails>, usize)>)
    requires
        i <= cs@.len(),
    ensures
        match r {
            Some(p) => i <= p.1 <= cs@.len() && parse_records(cs@.skip(i as int)) == Some(
                (p.0.deep_view(), cs@.skip(p.1 as int)),
            ),
            None => parse_records(cs@.skip(i as int)) is None,
        },
{
    let n = cs.len();
    if i >= n {
        proof {
            assert(cs@.skip(i as int).len() == 0);
        }
        return None;
    }
    let c0 = cs[i];
    proof {
        assert(cs@.skip(i as int)[0] == c0);
    }
    if c0 == ']' {
        let out: Vec<BuildDetails> = Vec::new();
        proof {
            assert(cs@.skip(i as int).drop_first() =~= cs@.skip(i + 1));
            assert(out.deep_view() =~= Seq::<BuildDetailsView>::empty());
        }
        return Some((out, i + 1));
    }
    let (r0, first_end) = match parse_record_at(cs, i) {
        Some(p) => p,
        None => {
            return None;
        },
    };
    let mut out: Vec<BuildDetails> = Vec::new();
    let ghost r0v = r0@;
    out.push(r0);
    let mut p: usize = first_end;
    proof {
        assert(out.deep_view() =~= seq![r0v]);
    }
    loop
        invariant
            i <= p <= n,
            n == cs@.len(),
            parse_records(cs@.skip(i as int)) == (match parse_records_more(cs@.skip(p as int)) {
                Some(q) => Some((out.deep_view() + q.0, q.1)),
                None => None,
            }),
        decreases n - p,
    {
        if p >= n {
            proof {
                assert(cs@.skip(p as int).len() == 0);
            }
            return None;
        }
        let c = cs[p];
        proof {
            assert(cs@.skip(p as int)[0] == c);
        }
        if c == ']' {
            proof {
                assert(cs@.skip(p as int).drop_first() =~= cs@.skip(p + 1));
                assert(out.deep_view() + Seq::<BuildDetailsView>::empty() =~= out.deep_view());
            }
            return Some((out, p + 1));
        }
        if c != ',' {
            return None;
        }
        proof {
            assert(cs@.skip(p as int).drop_first() =~= cs@.skip(p + 1));
        }
        let (rk, p2) = match parse_record_at(cs, p + 1) {
            Some(q) => q,
            None => {
                return None;
            },
        };
        proof {
            assert(cs@.skip(p2 as int).len() < cs@.skip(p as int).len());
        }
        let ghost preout = out.deep_view();
        let ghost rkv = rk@;
        let ghost oev = out@;
        out.push(rk);
        p = p2;
        proof {
            assert forall|m: int|
                0 <= m < out.deep_view().len() implies out.deep_view()[m] == preout.push(rkv)[m]
                by {
                assert(out.deep_view()[m] == out@[m]@);
                if m < preout.len() {
                    assert(out@[m] == oev[m]);
                    assert(preout[m] == oev[m]@);
                }
            }
            assert(out.deep_view() =~= preout.push(rkv));
            match parse_records_more(cs@.skip(p as int)) {
                Some(q) => {
                    assert(out.deep_view() + q.0 =~= preout + (seq![rkv] + q.0));
                },
                None => {},
            }
        }
    }
}

/// Reads a `data.json` text back into a branch state; `None` exactly
/// when the text is not one the engine writes.
pub fn parse_branch_details(s: &str) -> (r: Option<BranchDetails>)
    ensures
        match r {
            Some(d) => parse_data_json(s@) == Some(d@),
            None => parse_data_json(s@) is None,
        },
{
    let cs = str_chars(s);
    proof {
        assert(cs@.skip(0) =~= cs@);
    }
    let j1 = match expect_lit(&cs, 0, "{\"last_seen_commit\":") {
        Some(j) => j,
        None => {
            return None;
        },
    };
    proof {
        assert(cs@.skip(0).skip("{\"last_seen_commit\":"@.len() as int) =~= cs@.skip(j1 as int));
    }
    let (lsc, j2) = match parse_opt_string_at(&cs, j1) {
        Some(p) => p,
        None => {
            return None;
        },
    };
    let j3 = match expect_lit(&cs, j2, ",\"builds\":[") {
        Some(j) => j,
        None => {
            return None;
        },
    };
    proof {
        assert(cs@.skip(j2 as int).skip(",\"builds\":["@.len() as int) =~= cs@.skip(j3 as int));
    }
    let (builds, j4) = match parse_records_at(&cs, j3) {
        Some(p) => p,
        None => {
            return None;
        },
    };
    let j5 = match expect_lit(&cs, j4, "}") {
        Some(j) => j,
        None => {
            return None;
        },
    };
    proof {
        assert(cs@.skip(j4 as int).skip("}"@.len() as int) =~= cs@.skip(j5 as int));
    }
    if j5 != cs.len() {
        proof {
            assert(cs@.skip(j5 as int).len() != 0);
        }
        return None;
    }
    let d = BranchDetails { last_seen_commit: lsc, builds };
    proof {
        assert(cs@.skip(j5 as int).len() == 0);
        assert(d@.builds =~= d.builds.deep_view());
    }
    Some(d)
}

} // verus!
