//! Character-level text utilities: first-occurrence substring search,
//! leading/trailing whitespace trimming, and decimal rendering of counters.

use vstd::prelude::*;
use vstd::string::StrSliceExecFns;
use vstd::string::StringExecFns;

verus! {

/// `pat` occurs in `text` starting at character index `i`.
pub open spec fn match_at(text: Seq<char>, pat: Seq<char>, i: int) -> bool {
    0 <= i && i + pat.len() <= text.len() && text.subrange(i, i + pat.len()) == pat
}

/// `pat` occurs somewhere in `text`.
pub open spec fn has_match(text: Seq<char>, pat: Seq<char>) -> bool {
    exists|i: int| match_at(text, pat, i)
}

pub open spec fn first_match_from(text: Seq<char>, pat: Seq<char>, i: int) -> Option<int>
    decreases text.len() - i + 1,
{
    if i < 0 || i + pat.len() > text.len() {
        None
    } else if match_at(text, pat, i) {
        Some(i)
    } else {
        first_match_from(text, pat, i + 1)
    }
}

/// Character index of the first occurrence of `pat` in `text`, if any.
pub open spec fn first_match(text: Seq<char>, pat: Seq<char>) -> Option<int> {
    first_match_from(text, pat, 0)
}

proof fn lemma_first_match_from_found(text: Seq<char>, pat: Seq<char>, from: int, i: int)
    requires
        0 <= from <= i,
        match_at(text, pat, i),
        forall|j: int| from <= j < i ==> !match_at(text, pat, j),
    ensures
        first_match_from(text, pat, from) == Some(i),
    decreases i - from,
{
    if from < i {
        lemma_first_match_from_found(text, pat, from + 1, i);
    }
}

proof fn lemma_first_match_from_none(text: Seq<char>, pat: Seq<char>, from: int)
    requires
        0 <= from,
        forall|j: int| from <= j ==> !match_at(text, pat, j),
    ensures
        first_match_from(text, pat, from) is None,
    decreases text.len() - from + 1,
{
    if from + pat.len() <= text.len() {
        lemma_first_match_from_none(text, pat, from + 1);
    }
}

/// Whether an occurrence of `pat` at index `i` is the first one.
pub proof fn lemma_first_match_found(text: Seq<char>, pat: Seq<char>, i: int)
    requires
        match_at(text, pat, i),
        forall|j: int| 0 <= j < i ==> !match_at(text, pat, j),
    ensures
        first_match(text, pat) == Some(i),
{
    lemma_first_match_from_found(text, pat, 0, i);
}

pub proof fn lemma_first_match_none(text: Seq<char>, pat: Seq<char>)
    requires
        forall|i: int| !match_at(text, pat, i),
    ensures
        first_match(text, pat) is None,
{
    lemma_first_match_from_none(text, pat, 0);
}

/// Tests whether `pat` occurs in `text` starting at character index `i`.
fn eq_at(text: &str, pat: &str, i: usize, n: usize, m: usize) -> (b: bool)
    requires
        n == text@.len(),
        m == pat@.len(),
        i + m <= n,
    ensures
        b == match_at(text@, pat@, i as int),
{
    let mut k: usize = 0;
    while k < m
        invariant
            i + m <= n,
            n == text@.len(),
            m == pat@.len(),
            0 <= k <= m,
            forall|t: int| 0 <= t < k ==> text@[i + t] == pat@[t],
        decreases m - k,
    {
        let tc = text.get_char(i + k);
        let pc = pat.get_char(k);
        if tc != pc {
            proof {
                assert(text@.subrange(i as int, i + m) != pat@) by {
                    assert(text@.subrange(i as int, i + m)[k as int] != pat@[k as int]);
                }
            }
            return false;
        }
        k = k + 1;
    }
    proof {
        assert(text@.subrange(i as int, i + m) =~= pat@);
    }
    true
}

/// Character index of the first occurrence of `pat` as a substring of
/// `text`, or `None` when `pat` does not occur.
pub fn find_first(text: &str, pat: &str) -> (r: Option<usize>)
    ensures
        r matches Some(i) ==> first_match(text@, pat@) == Some(i as int),
        r is None ==> first_match(text@, pat@) is None,
{
    let n: usize = text.unicode_len();
    let m: usize = pat.unicode_len();
    if m > n {
        proof {
            lemma_first_match_none(text@, pat@);
        }
        return None;
    }
    if m == 0 {
        proof {
            assert(text@.subrange(0, 0) =~= pat@);
            lemma_first_match_found(text@, pat@, 0);
        }
        return Some(0);
    }
    let mut i: usize = 0;
    while i <= n - m
        invariant
            1 <= m <= n,
            n == text@.len(),
            m == pat@.len(),
            0 <= i <= n - m + 1,
            forall|j: int| 0 <= j < i ==> !match_at(text@, pat@, j),
        decreases n - m - i + 1,
    {
        if eq_at(text, pat, i, n, m) {
            proof {
                lemma_first_match_found(text@, pat@, i as int);
            }
            return Some(i);
        }
        i = i + 1;
    }
    proof {
        lemma_first_match_none(text@, pat@);
    }
    None
}

proof fn lemma_first_match_from_is_match(text: Seq<char>, pat: Seq<char>, from: int)
    requires
        0 <= from,
    ensures
        first_match_from(text, pat, from) matches Some(i) ==> match_at(text, pat, i),
    decreases text.len() - from + 1,
{
    if from + pat.len() <= text.len() && !match_at(text, pat, from) {
        lemma_first_match_from_is_match(text, pat, from + 1);
    }
}

proof fn lemma_first_match_from_some(text: Seq<char>, pat: Seq<char>, from: int)
    requires
        0 <= from,
        exists|i: int| from <= i && match_at(text, pat, i),
    ensures
        first_match_from(text, pat, from) is Some,
    decreases text.len() - from + 1,
{
    let i = choose|i: int| from <= i && match_at(text, pat, i);
    if !match_at(text, pat, from) {
        assert(from < i);
        lemma_first_match_from_some(text, pat, from + 1);
    }
}

/// The first-occurrence search succeeds exactly when the pattern occurs.
pub proof fn lemma_first_match_iff_has_match(text: Seq<char>, pat: Seq<char>)
    ensures
        first_match(text, pat) is Some <==> has_match(text, pat),
{
    lemma_first_match_from_is_match(text, pat, 0);
    if has_match(text, pat) {
        let i = choose|i: int| match_at(text, pat, i);
        assert(0 <= i && match_at(text, pat, i));
        lemma_first_match_from_some(text, pat, 0);
    }
}

/// `pat` occurs somewhere in `text`; used for keyword containment matching.
pub fn contains_sub(text: &str, pat: &str) -> (b: bool)
    ensures
        b == has_match(text@, pat@),
{
    let r = find_first(text, pat);
    proof {
        lemma_first_match_iff_has_match(text@, pat@);
    }
    r.is_some()
}

/// A character the trimming removes: the Unicode white-space class, the
/// same set `str::trim_start` removes.
pub open spec fn is_space(c: char) -> bool {
    let u = c as u32;
    u == 0x09 || u == 0x0A || u == 0x0B || u == 0x0C || u == 0x0D || u == 0x20 || u == 0x85
        || u == 0xA0 || u == 0x1680 || (0x2000 <= u && u <= 0x200A) || u == 0x2028 || u == 0x2029
        || u == 0x202F || u == 0x205F || u == 0x3000
}

/// `s` with its leading whitespace removed.
pub open spec fn trim_start_spec(s: Seq<char>) -> Seq<char>
    decreases s.len(),
{
    if s.len() > 0 && is_space(s[0]) {
        trim_start_spec(s.drop_first())
    } else {
        s
    }
}

/// `s` with its trailing whitespace removed.
pub open spec fn trim_end_spec(s: Seq<char>) -> Seq<char>
    decreases s.len(),
{
    if s.len() > 0 && is_space(s[s.len() - 1]) {
        trim_end_spec(s.drop_last())
    } else {
        s
    }
}

/// `s` with whitespace removed on both ends.
pub open spec fn trim_spec(s: Seq<char>) -> Seq<char> {
    trim_end_spec(trim_start_spec(s))
}

proof fn lemma_trim_start_skip(s: Seq<char>, i: int)
    requires
        0 <= i <= s.len(),
        forall|j: int| 0 <= j < i ==> is_space(s[j]),
        i < s.len() ==> !is_space(s[i]),
    ensures
        trim_start_spec(s) == s.skip(i),
    decreases i,
{
    if i == 0 {
        assert(s.skip(0) =~= s);
    } else {
        let t = s.drop_first();
        assert(is_space(s[0]));
        assert(forall|j: int| 0 <= j < i - 1 ==> is_space(#[trigger] t[j]));
        assert(i - 1 < t.len() ==> !is_space(t[i - 1]));
        lemma_trim_start_skip(t, i - 1);
        assert(t.skip(i - 1) =~= s.skip(i));
    }
}

proof fn lemma_trim_end_take(s: Seq<char>, i: int)
    requires
        0 <= i <= s.len(),
        forall|j: int| i <= j < s.len() ==> is_space(s[j]),
        i > 0 ==> !is_space(s[i - 1]),
    ensures
        trim_end_spec(s) == s.take(i),
    decreases s.len() - i,
{
    if i == s.len() {
        assert(s.take(i) =~= s);
    } else {
        let t = s.drop_last();
        assert(forall|j: int| i <= j < t.len() ==> is_space(#[trigger] t[j]));
        lemma_trim_end_take(t, i);
        assert(t.take(i) =~= s.take(i));
    }
}

/// Removes leading whitespace, as the argument extraction step does.
pub fn trim_start(text: &str) -> (r: String)
    ensures
        r@ == trim_start_spec(text@),
{
    let n: usize = text.unicode_len();
    let mut i: usize = 0;
    while i < n && is_space_exec(text.get_char(i))
        invariant
            n == text@.len(),
            0 <= i <= n,
            forall|j: int| 0 <= j < i ==> is_space(text@[j]),
        decreases n - i,
    {
        i = i + 1;
    }
    proof {
        lemma_trim_start_skip(text@, i as int);
        assert(text@.skip(i as int) =~= text@.subrange(i as int, text@.len() as int));
    }
    let sub = text.substring_char(i, n);
    String::from_str(sub)
}

/// Removes whitespace on both ends, as the `/del` keyword normalisation does.
pub fn trim_both(text: &str) -> (r: String)
    ensures
        r@ == trim_spec(text@),
{
    let n: usize = text.unicode_len();
    let mut i: usize = 0;
    while i < n && is_space_exec(text.get_char(i))
        invariant
            n == text@.len(),
            0 <= i <= n,
            forall|j: int| 0 <= j < i ==> is_space(text@[j]),
        decreases n - i,
    {
        i = i + 1;
    }
    let mut e: usize = n;
    while e > i && is_space_exec(text.get_char(e - 1))
        invariant
            n == text@.len(),
            0 <= i <= e <= n,
            forall|j: int| 0 <= j < i ==> is_space(text@[j]),
            i < n ==> !is_space(text@[i as int]),
            forall|j: int| e <= j < n ==> is_space(text@[j]),
        decreases e,
    {
        e = e - 1;
    }
    proof {
        lemma_trim_start_skip(text@, i as int);
        let t = text@.skip(i as int);
        assert(forall|j: int| e - i <= j < t.len() ==> is_space(#[trigger] t[j]));
        assert(e - i > 0 ==> !is_space(t[e - i - 1]));
        lemma_trim_end_take(t, e - i);
        assert(t.take(e - i) =~= text@.subrange(i as int, e as int));
    }
    let sub = text.substring_char(i, e);
    String::from_str(sub)
}

/// Executable form of [`is_space`].
pub fn is_space_exec(c: char) -> (b: bool)
    ensures
        b == is_space(c),
{
    let u = c as u32;
    u == 0x09 || u == 0x0A || u == 0x0B || u == 0x0C || u == 0x0D || u == 0x20 || u == 0x85
        || u == 0xA0 || u == 0x1680 || (0x2000 <= u && u <= 0x200A) || u == 0x2028 || u == 0x2029
        || u == 0x202F || u == 0x205F || u == 0x3000
}

/// The character for one decimal digit.
pub open spec fn digit_char(d: int) -> char {
    if d == 0 {
        '0'
    } else if d == 1 {
        '1'
    } else if d == 2 {
        '2'
    } else if d == 3 {
        '3'
    } else if d == 4 {
        '4'
    } else if d == 5 {
        '5'
    } else if d == 6 {
        '6'
    } else if d == 7 {
        '7'
    } else if d == 8 {
        '8'
    } else {
        '9'
    }
}

/// Decimal rendering of a non-negative integer, most significant digit
/// first.
pub open spec fn dec_str(n: int) -> Seq<char>
    decreases n,
{
    if n < 10 {
        seq![digit_char(n)]
    } else {
        dec_str(n / 10).push(digit_char(n % 10))
    }
}

fn digit_str(d: u64) -> (r: &'static str)
    requires
        d < 10,
    ensures
        r@ =~= seq![digit_char(d as int)],
{
    proof {
        reveal_strlit("0");
        reveal_strlit("1");
        reveal_strlit("2");
        reveal_strlit("3");
        reveal_strlit("4");
        reveal_strlit("5");
        reveal_strlit("6");
        reveal_strlit("7");
        reveal_strlit("8");
        reveal_strlit("9");
    }
    if d == 0 {
        "0"
    } else if d == 1 {
        "1"
    } else if d == 2 {
        "2"
    } else if d == 3 {
        "3"
    } else if d == 4 {
        "4"
    } else if d == 5 {
        "5"
    } else if d == 6 {
        "6"
    } else if d == 7 {
        "7"
    } else if d == 8 {
        "8"
    } else {
        "9"
    }
}

/// Renders a counter in decimal, for the deletion summary message.
pub fn u64_to_dec(n: u64) -> (s: String)
    ensures
        s@ == dec_str(n as int),
    decreases n,
{
    if n < 10 {
        String::from_str(digit_str(n))
    } else {
        let mut s = u64_to_dec(n / 10);
        s.append(digit_str(n % 10));
        proof {
            assert(s@ =~= dec_str(n as int));
        }
        s
    }
}


/// Character-for-character string equality.
pub fn str_eq(a: &str, b: &str) -> (r: bool)
    ensures
        r == (a@ == b@),
{
    let n: usize = a.unicode_len();
    let m: usize = b.unicode_len();
    if n != m {
        return false;
    }
    let e = eq_at(a, b, 0, n, m);
    proof {
        assert(a@.subrange(0, m as int) =~= a@);
        if e {
            assert(a@ == b@);
        } else {
            assert(a@ != b@);
        }
    }
    e
}

/// The first occurrence found by the search really is an occurrence.
pub proof fn lemma_first_match_is_match(text: Seq<char>, pat: Seq<char>)
    ensures
        first_match(text, pat) matches Some(i) ==> match_at(text, pat, i)
            && 0 <= i && i + pat.len() <= text.len(),
{
    lemma_first_match_from_is_match(text, pat, 0);
}

} // verus!
