//! Character-level helpers shared by the engine: whitespace trimming and
//! the decimal form of build counters.

use vstd::prelude::*;

verus! {

/// Characters stripped by [`trim`], matching the ASCII whitespace that
/// configuration fields are trimmed of.
pub open spec fn is_space_char(c: char) -> bool {
    c == ' ' || c == '\t' || c == '\n' || c == '\r'
}

/// Runtime test for [`is_space_char`].
pub fn is_space(c: char) -> (r: bool)
    ensures
        r == is_space_char(c),
{
    c == ' ' || c == '\t' || c == '\n' || c == '\r'
}

/// The sequence with leading whitespace removed.
pub open spec fn trim_start_spec(s: Seq<char>) -> Seq<char>
    decreases s.len(),
{
    if s.len() > 0 && is_space_char(s[0]) {
        trim_start_spec(s.drop_first())
    } else {
        s
    }
}

/// The sequence with trailing whitespace removed.
pub open spec fn trim_end_spec(s: Seq<char>) -> Seq<char>
    decreases s.len(),
{
    if s.len() > 0 && is_space_char(s[s.len() - 1]) {
        trim_end_spec(s.drop_last())
    } else {
        s
    }
}

/// The sequence with whitespace removed from both ends.
pub open spec fn trim_spec(s: Seq<char>) -> Seq<char> {
    trim_end_spec(trim_start_spec(s))
}

proof fn lemma_trim_start_subrange(s: Seq<char>, i: int)
    requires
        0 <= i <= s.len(),
        forall|m: int| 0 <= m < i ==> is_space_char(s[m]),
        i < s.len() ==> !is_space_char(s[i]),
    ensures
        trim_start_spec(s) == s.subrange(i, s.len() as int),
    decreases i,
{
    if i == 0 {
        assert(trim_start_spec(s) == s) by {
            if s.len() > 0 {
                assert(!is_space_char(s[0]));
            }
        }
        assert(s.subrange(0, s.len() as int) =~= s);
    } else {
        assert(is_space_char(s[0]));
        let t = s.drop_first();
        assert(forall|m: int| 0 <= m < i - 1 ==> is_space_char(t[m]));
        lemma_trim_start_subrange(t, i - 1);
        assert(t.subrange(i - 1, t.len() as int) =~= s.subrange(i, s.len() as int));
    }
}

proof fn lemma_trim_end_subrange(s: Seq<char>, j: int)
    requires
        0 <= j <= s.len(),
        forall|m: int| j <= m < s.len() ==> is_space_char(s[m]),
        j > 0 ==> !is_space_char(s[j - 1]),
    ensures
        trim_end_spec(s) == s.subrange(0, j),
    decreases s.len() - j,
{
    if j == s.len() {
        assert(trim_end_spec(s) == s) by {
            if s.len() > 0 {
                assert(!is_space_char(s[s.len() - 1]));
            }
        }
        assert(s.subrange(0, s.len() as int) =~= s);
    } else {
        assert(is_space_char(s[s.len() - 1]));
        let t = s.drop_last();
        assert(forall|m: int| j <= m < t.len() ==> is_space_char(t[m]));
        lemma_trim_end_subrange(t, j);
        assert(t.subrange(0, j) =~= s.subrange(0, j));
    }
}

/// Copy of `s` with ASCII whitespace removed from both ends.
pub fn trim(s: &str) -> (r: String)
    ensures
        r@ == trim_spec(s@),
{
    let n: usize = s.unicode_len();
    let mut i: usize = 0;
    while i < n && is_space(s.get_char(i))
        invariant
            n == s@.len(),
            0 <= i <= n,
            forall|m: int| 0 <= m < i ==> is_space_char(s@[m]),
        decreases n - i,
    {
        i = i + 1;
    }
    if i == n {
        proof {
            lemma_trim_start_subrange(s@, i as int);
            assert(trim_start_spec(s@) =~= Seq::<char>::empty());
            assert(trim_spec(s@) =~= Seq::<char>::empty());
        }
        String::new()
    } else {
        let mut j: usize = n;
        while is_space(s.get_char(j - 1))
            invariant
                n == s@.len(),
                0 <= i < n,
                i + 1 <= j <= n,
                !is_space_char(s@[i as int]),
                forall|m: int| j <= m < n ==> is_space_char(s@[m]),
            decreases j,
        {
            j = j - 1;
        }
        let sub = s.substring_char(i, j);
        proof {
            lemma_trim_start_subrange(s@, i as int);
            let t = s@.subrange(i as int, n as int);
            lemma_trim_end_subrange(t, j - i);
            assert(t.subrange(0, j - i) =~= s@.subrange(i as int, j as int));
        }
        String::from_str(sub)
    }
}

/// True when `s` is empty once trimmed: the emptiness test applied to
/// configuration fields.
pub open spec fn trimmed_empty(s: Seq<char>) -> bool {
    trim_spec(s).len() == 0
}

/// Whether `s` trims to the empty string.
pub fn is_blank(s: &str) -> (r: bool)
    ensures
        r == trimmed_empty(s@),
{
    let t = trim(s);
    t.as_str().is_empty()
}

/// Decimal digit characters.
pub open spec fn is_dec_digit(c: char) -> bool {
    '0' <= c && c <= '9'
}

/// Numeric value of a digit character.
pub open spec fn digit_val(c: char) -> int {
    c as int - '0' as int
}

/// Digit character for a value in `0..10`.
pub open spec fn digit_char(d: int) -> char {
    if d == 0 {
        '0'
    } else if d == 1 {
        '1'
    } else if d == 2 {
        '2'
    } else if d == 3 {
        '3'
    } else if d == 4 {
        '4'
    } else if d == 5 {
        '5'
    } else if d == 6 {
        '6'
    } else if d == 7 {
        '7'
    } else if d == 8 {
        '8'
    } else {
        '9'
    }
}

/// Decimal representation of a nonnegative integer, most significant
/// digit first, with no leading zeros (a lone `0` for zero).
pub open spec fn dec_spec(n: int) -> Seq<char>
    decreases n,
{
    if n < 10 {
        seq![digit_char(n)]
    } else {
        dec_spec(n / 10).push(digit_char(n % 10))
    }
}

/// Value of a digit sequence read in base ten.
pub open spec fn dec_val(s: Seq<char>) -> int
    decreases s.len(),
{
    if s.len() == 0 {
        0
    } else {
        dec_val(s.drop_last()) * 10 + digit_val(s.last())
    }
}

fn digit_str(d: u64) -> (r: &'static str)
    requires
        d < 10,
    ensures
        r@ =~= seq![digit_char(d as int)],
{
    proof {
        reveal_strlit("0");
        reveal_strlit("1");
        reveal_strlit("2");
        reveal_strlit("3");
        reveal_strlit("4");
        reveal_strlit("5");
        reveal_strlit("6");
        reveal_strlit("7");
        reveal_strlit("8");
        reveal_strlit("9");
    }
    match d {
        0 => "0",
        1 => "1",
        2 => "2",
        3 => "3",
        4 => "4",
        5 => "5",
        6 => "6",
        7 => "7",
        8 => "8",
        _ => "9",
    }
}

/// Decimal rendering of `n`, as written into the build counter file.
pub fn format_u64(n: u64) -> (r: String)
    ensures
        r@ == dec_spec(n as int),
    decreases n,
{
    if n < 10 {
        String::from_str(digit_str(n))
    } else {
        let prefix = format_u64(n / 10);
        prefix.concat(digit_str(n % 10))
    }
}

/// Parse of a decimal string: `Some(v)` exactly when `s` is a nonempty,
/// all-digit sequence whose value fits in a `u64`.
pub open spec fn parse_u64_spec(s: Seq<char>) -> Option<u64> {
    if s.len() > 0 && (forall|m: int| 0 <= m < s.len() ==> is_dec_digit(s[m])) && dec_val(s)
        <= u64::MAX {
        Some(dec_val(s) as u64)
    } else {
        None
    }
}

pub proof fn lemma_dec_val_nonneg(s: Seq<char>)
    requires
        forall|m: int| 0 <= m < s.len() ==> is_dec_digit(s[m]),
    ensures
        dec_val(s) >= 0,
    decreases s.len(),
{
    if s.len() > 0 {
        let t = s.drop_last();
        lemma_dec_val_nonneg(t);
    }
}

/// Parses the decimal string `s`; `None` on the empty string, on any
/// non-digit character, and on overflow.
pub fn parse_u64(s: &str) -> (r: Option<u64>)
    ensures
        r == parse_u64_spec(s@),
{
    let n: usize = s.unicode_len();
    if n == 0 {
        return None;
    }
    let mut acc: u64 = 0;
    let mut i: usize = 0;
    while i < n
        invariant
            n == s@.len(),
            0 < n,
            0 <= i <= n,
            forall|m: int| 0 <= m < i ==> is_dec_digit(s@[m]),
            acc as int == dec_val(s@.subrange(0, i as int)),
        decreases n - i,
    {
        let c = s.get_char(i);
        let u = c as u32;
        if u < 48 || u > 57 {
            proof {
                assert(!is_dec_digit(s@[i as int]));
            }
            return None;
        }
        let d: u64 = (u - 48) as u64;
        let next = match acc.checked_mul(10) {
            Some(m) => m.checked_add(d),
            None => None,
        };
        match next {
            Some(v) => {
                proof {
                    let pre = s@.subrange(0, i as int);
                    let cur = s@.subrange(0, i + 1);
                    assert(cur.drop_last() =~= pre);
                    assert(cur.last() == s@[i as int]);
                }
                acc = v;
            },
            None => {
                proof {
                    let cur = s@.subrange(0, i + 1);
                    assert(cur.drop_last() =~= s@.subrange(0, i as int));
                    assert(dec_val(cur) > u64::MAX);
                    if forall|m: int| 0 <= m < s@.len() ==> is_dec_digit(s@[m]) {
                        lemma_dec_val_grows(s@, i + 1);
                    }
                }
                return None;
            },
        }
        i = i + 1;
    }
    proof {
        assert(s@.subrange(0, n as int) =~= s@);
    }
    Some(acc)
}

/// A digit string's value only grows as more digits are read: if a prefix
/// already exceeds `u64::MAX`, so does the whole string.
pub proof fn lemma_dec_val_grows(s: Seq<char>, k: int)
    requires
        0 <= k <= s.len(),
        forall|m: int| 0 <= m < s.len() ==> is_dec_digit(s[m]),
    ensures
        dec_val(s) >= dec_val(s.subrange(0, k)),
    decreases s.len() - k,
{
    if k < s.len() {
        lemma_dec_val_grows(s, k + 1);
        let pre = s.subrange(0, k);
        let cur = s.subrange(0, k + 1);
        assert(cur.drop_last() =~= pre);
        assert(cur.last() == s[k]);
        lemma_dec_val_nonneg(pre);
        assert(dec_val(cur) == dec_val(pre) * 10 + digit_val(s[k]));
        assert(dec_val(pre) * 10 >= dec_val(pre)) by (nonlinear_arith)
            requires
                dec_val(pre) >= 0,
        ;
    } else {
        assert(s.subrange(0, s.len() as int) =~= s);
    }
}

/// Formatting then parsing a counter value returns the value unchanged.
pub proof fn lemma_dec_round_trip(n: u64)
    ensures
        parse_u64_spec(dec_spec(n as int)) == Some(n),
{
    lemma_dec_spec_digits(n as int);
    lemma_dec_val_of_dec_spec(n as int);
}

pub proof fn lemma_dec_spec_digits(n: int)
    requires
        n >= 0,
    ensures
        dec_spec(n).len() > 0,
        forall|m: int| 0 <= m < dec_spec(n).len() ==> is_dec_digit(dec_spec(n)[m]),
    decreases n,
{
    if n >= 10 {
        lemma_dec_spec_digits(n / 10);
        assert(is_dec_digit(digit_char(n % 10)));
    } else {
        assert(is_dec_digit(digit_char(n)));
    }
}

pub proof fn lemma_dec_val_of_dec_spec(n: int)
    requires
        n >= 0,
    ensures
        dec_val(dec_spec(n)) == n,
    decreases n,
{
    if n < 10 {
        let s = dec_spec(n);
        assert(s.len() == 1);
        assert(s.last() == digit_char(n));
        assert(s.drop_last() =~= Seq::<char>::empty());
        assert(dec_val(s.drop_last()) == 0);
        assert(digit_val(digit_char(n)) == n);
    } else {
        lemma_dec_val_of_dec_spec(n / 10);
        let s = dec_spec(n);
        assert(s.last() == digit_char(n % 10));
        assert(s.drop_last() =~= dec_spec(n / 10));
        assert(digit_val(digit_char(n % 10)) == n % 10);
    }
}

/// Characters of `s`, in order.
pub fn str_chars(s: &str) -> (r: Vec<char>)
    ensures
        r@ == s@,
{
    let n: usize = s.unicode_len();
    let mut out: Vec<char> = Vec::new();
    let mut i: usize = 0;
    while i < n
        invariant
            n == s@.len(),
            0 <= i <= n,
            out@ =~= s@.subrange(0, i as int),
        decreases n - i,
    {
        out.push(s.get_char(i));
        proof {
            assert(out@ =~= s@.subrange(0, i + 1));
        }
        i = i + 1;
    }
    proof {
        assert(s@.subrange(0, n as int) =~= s@);
    }
    out
}

/// Relies on `String: FromIterator<char>` (`collect`): the collected
/// string holds exactly the characters of `v`, in order.
#[verifier::external_body]
pub fn chars_to_string(v: &Vec<char>) -> (r: String)
    ensures
        r@ == v@,
{
    v.iter().collect()
}

} // verus!
