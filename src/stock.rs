//! Extraction of the stock count from a search page: the first number, with
//! optional comma separators, that is directly followed by the word " parts".

use vstd::prelude::*;
use crate::text::chars_of;

verus! {

/// Why a page could not be fetched.
#[derive(Clone, Copy, Debug, PartialEq, Eq, Structural)]
pub enum FetchError {
    /// The request ran past its timeout.
    Timeout,
    /// No connection could be made.
    Connect,
    /// The request failed in another way, or its body could not be read.
    Other,
}

pub open spec fn is_digit(c: char) -> bool {
    '0' <= c && c <= '9'
}

/// A character that may stand in a number: a digit or a thousands separator.
pub open spec fn is_number_char(c: char) -> bool {
    is_digit(c) || c == ','
}

/// Where the run of number characters that starts at `p` ends.
pub open spec fn run_end(s: Seq<char>, p: int) -> int
    decreases s.len() - p,
{
    if 0 <= p < s.len() && is_number_char(s[p]) {
        run_end(s, p + 1)
    } else {
        p
    }
}

pub open spec fn parts_word() -> Seq<char> {
    seq![' ', 'p', 'a', 'r', 't', 's']
}

/// A run of number characters that holds a digit starts at `p` and is
/// followed by " parts".
pub open spec fn match_at(s: Seq<char>, p: int) -> bool {
    &&& 0 <= p < s.len()
    &&& is_number_char(s[p])
    &&& has_digit(s.subrange(p, run_end(s, p)))
    &&& run_end(s, p) + 6 <= s.len()
    &&& s.subrange(run_end(s, p), run_end(s, p) + 6) == parts_word()
}

/// `p` is the leftmost position where a match starts.
pub open spec fn first_match(s: Seq<char>, p: int) -> bool {
    match_at(s, p) && forall|k: int| 0 <= k < p ==> !match_at(s, k)
}

pub open spec fn has_digit(t: Seq<char>) -> bool {
    exists|i: int| 0 <= i < t.len() && is_digit(#[trigger] t[i])
}

/// The number that the digits of `t` spell, separators skipped.
pub open spec fn digits_value(t: Seq<char>) -> nat
    decreases t.len(),
{
    if t.len() == 0 {
        0
    } else if is_digit(t.last()) {
        digits_value(t.drop_last()) * 10 + (t.last() as nat - '0' as nat) as nat
    } else {
        digits_value(t.drop_last())
    }
}

/// The stock count that a page shows: the value of the first number followed
/// by " parts", if there is one.
pub open spec fn stock_in(s: Seq<char>) -> Option<nat> {
    if exists|p: int| first_match(s, p) {
        let p = choose|p: int| first_match(s, p);
        Some(digits_value(s.subrange(p, run_end(s, p))))
    } else {
        None
    }
}

/// The stock count of a page as an `i32`: absent where the page shows none or
/// one too large for an `i32`.
pub open spec fn stock_value(s: Seq<char>) -> Option<i32> {
    match stock_in(s) {
        Some(n) => if n <= i32::MAX {
            Some(n as i32)
        } else {
            None
        },
        None => None,
    }
}

/// The outcome of a fetch, with the page as a character sequence.
pub open spec fn fetch_view(resp: &Result<String, FetchError>) -> Result<Seq<char>, FetchError> {
    match resp {
        Ok(b) => Ok(b@),
        Err(e) => Err(*e),
    }
}

/// The stock count of a fetch: absent where the fetch failed.
pub open spec fn response_stock(resp: Result<Seq<char>, FetchError>) -> Option<i32> {
    match resp {
        Ok(body) => stock_value(body),
        Err(_) => None,
    }
}

pub proof fn lemma_first_match_unique(s: Seq<char>, p: int, q: int)
    requires
        first_match(s, p),
        first_match(s, q),
    ensures
        p == q,
{
}

proof fn lemma_run_end_inside(s: Seq<char>, k: int, q: int)
    requires
        0 <= k <= q <= s.len(),
        run_end(s, q) == q,
        forall|m: int| k <= m < q ==> is_number_char(#[trigger] s[m]),
    ensures
        run_end(s, k) == q,
    decreases q - k,
{
    if k < q {
        lemma_run_end_inside(s, k + 1, q);
    }
}

proof fn lemma_value_prefix(t: Seq<char>, j: int)
    requires
        0 <= j <= t.len(),
    ensures
        digits_value(t.take(j)) <= digits_value(t),
    decreases t.len() - j,
{
    if j == t.len() {
        assert(t.take(j) =~= t);
    } else {
        lemma_value_prefix(t.drop_last(), j);
        assert(t.drop_last().take(j) =~= t.take(j));
    }
}

/// A page that reads `pre`, then a number `n` (digits with optional comma
/// separators), then " parts", then anything, shows the stock count that the
/// digits of `n` spell, provided no such match starts inside `pre`.
pub proof fn lemma_stock_of_number_before_parts(pre: Seq<char>, n: Seq<char>, post: Seq<char>)
    requires
        n.len() > 0,
        forall|i: int| 0 <= i < n.len() ==> is_number_char(#[trigger] n[i]),
        has_digit(n),
        forall|k: int| 0 <= k < pre.len() ==> !match_at(pre + n + parts_word() + post, k),
    ensures
        stock_in(pre + n + parts_word() + post) == Some(digits_value(n)),
        digits_value(n) <= i32::MAX ==> stock_value(pre + n + parts_word() + post) == Some(
            digits_value(n) as i32,
        ),
{
    let s = pre + n + parts_word() + post;
    let p = pre.len() as int;
    let q = p + n.len();
    assert(s[q] == ' ');
    assert forall|m: int| p <= m < q implies is_number_char(#[trigger] s[m]) by {
        assert(s[m] == n[m - p]);
    }
    lemma_run_end_inside(s, p, q);
    assert(s.subrange(q, q + 6) =~= parts_word());
    assert(s.subrange(p, q) =~= n);
    assert(first_match(s, p));
    let c = choose|k: int| first_match(s, k);
    lemma_first_match_unique(s, c, p);
    assert(s.subrange(p, q) =~= n);
}

/// A page on which no number (digits with optional comma separators) is
/// followed by " parts" shows no stock count.
pub proof fn lemma_no_number_no_stock(s: Seq<char>)
    requires
        forall|p: int| !match_at(s, p),
    ensures
        stock_in(s) is None,
        stock_value(s) is None,
{
}

fn number_char(c: char) -> (r: bool)
    ensures
        r == is_number_char(c),
{
    ('0' <= c && c <= '9') || c == ','
}

/// The end of the run of number characters that starts at `p`.
fn find_run_end(s: &Vec<char>, p: usize) -> (q: usize)
    requires
        p <= s@.len(),
    ensures
        p <= q <= s@.len(),
        q == run_end(s@, p as int),
        run_end(s@, q as int) == q,
        p < s@.len() && is_number_char(s@[p as int]) ==> p < q,
        forall|m: int| p <= m < q ==> is_number_char(#[trigger] s@[m]),
{
    let mut j: usize = p;
    while j < s.len() && number_char(s[j])
        invariant
            p <= j <= s@.len(),
            run_end(s@, p as int) == run_end(s@, j as int),
            forall|m: int| p <= m < j ==> is_number_char(#[trigger] s@[m]),
        decreases s@.len() - j,
    {
        j = j + 1;
    }
    j
}

/// Whether " parts" stands at `q`.
fn parts_at(s: &Vec<char>, q: usize) -> (r: bool)
    requires
        q <= s@.len(),
    ensures
        r == (q + 6 <= s@.len() && s@.subrange(q as int, q + 6) == parts_word()),
{
    if s.len() - q < 6 {
        return false;
    }
    let r = s[q] == ' ' && s[q + 1] == 'p' && s[q + 2] == 'a' && s[q + 3] == 'r' && s[q + 4]
        == 't' && s[q + 5] == 's';
    proof {
        let w = s@.subrange(q as int, q + 6);
        if r {
            assert(w =~= parts_word());
        } else {
            assert(w[0] != ' ' || w[1] != 'p' || w[2] != 'a' || w[3] != 'r' || w[4] != 't' || w[5]
                != 's');
        }
    }
    r
}

/// Whether `s[p..q]` holds a digit.
fn run_has_digit(s: &Vec<char>, p: usize, q: usize) -> (r: bool)
    requires
        p <= q <= s@.len(),
    ensures
        r == has_digit(s@.subrange(p as int, q as int)),
{
    let ghost t = s@.subrange(p as int, q as int);
    let mut j: usize = p;
    while j < q
        invariant
            p <= j <= q <= s@.len(),
            t == s@.subrange(p as int, q as int),
            forall|m: int| p <= m < j ==> !is_digit(#[trigger] s@[m]),
        decreases q - j,
    {
        if '0' <= s[j] && s[j] <= '9' {
            assert(t[j - p] == s@[j as int]);
            return true;
        }
        j = j + 1;
    }
    assert forall|i: int| 0 <= i < t.len() implies !is_digit(#[trigger] t[i]) by {
        assert(t[i] == s@[p + i]);
    }
    false
}

/// The leftmost position where a number followed by " parts" starts.
fn find_first_match(s: &Vec<char>) -> (r: Option<usize>)
    ensures
        r matches Some(p) ==> first_match(s@, p as int),
        r is None ==> forall|p: int| !match_at(s@, p),
{
    let mut i: usize = 0;
    while i < s.len()
        invariant
            i <= s@.len(),
            forall|k: int| 0 <= k < i ==> !match_at(s@, k),
        decreases s@.len() - i,
    {
        if number_char(s[i]) {
            let q = find_run_end(s, i);
            let digit_in_run = run_has_digit(s, i, q);
            if digit_in_run && parts_at(s, q) {
                return Some(i);
            }
            proof {
                assert forall|k: int| i <= k < q implies !match_at(s@, k) by {
                    lemma_run_end_inside(s@, k, q as int);
                    if !digit_in_run {
                        let t = s@.subrange(i as int, q as int);
                        let u = s@.subrange(k, q as int);
                        assert forall|m: int| 0 <= m < u.len() implies !is_digit(#[trigger] u[m]) by {
                            assert(u[m] == t[m + k - i]);
                        }
                    }
                }
            }
            i = q;
        } else {
            i = i + 1;
        }
    }
    None
}

/// The value of the digits of `s[p..q]`, separators skipped: absent where
/// there is no digit or the value does not fit in a `u64`.
fn run_value(s: &Vec<char>, p: usize, q: usize) -> (r: Option<u64>)
    requires
        p <= q <= s@.len(),
    ensures
        r == (if has_digit(s@.subrange(p as int, q as int)) && digits_value(
            s@.subrange(p as int, q as int),
        ) <= u64::MAX {
            Some(digits_value(s@.subrange(p as int, q as int)) as u64)
        } else {
            None
        }),
{
    let ghost t = s@.subrange(p as int, q as int);
    let mut v: u64 = 0;
    let mut seen: bool = false;
    let mut j: usize = p;
    while j < q
        invariant
            p <= j <= q <= s@.len(),
            t == s@.subrange(p as int, q as int),
            v == digits_value(t.take(j - p)),
            seen == has_digit(t.take(j - p)),
        decreases q - j,
    {
        let c = s[j];
        let ghost before = t.take(j - p);
        let ghost after = t.take(j - p + 1);
        assert(after.drop_last() =~= before);
        assert(after.last() == c);
        if '0' <= c && c <= '9' {
            let d = (c as u32 - '0' as u32) as u64;
            assert(d == (c as nat - '0' as nat));
            let next = match v.checked_mul(10) {
                Some(m) => m.checked_add(d),
                None => None,
            };
            match next {
                Some(n) => {
                    v = n;
                },
                None => {
                    proof {
                        lemma_value_prefix(t, j - p + 1);
                        assert(t[j - p] == c);
                    }
                    return None;
                },
            }
            assert(after[j - p] == c);
            seen = true;
        } else {
            assert forall|i: int| 0 <= i < after.len() && is_digit(#[trigger] after[i]) implies 0
                <= i < before.len() && is_digit(before[i]) by {}
            if seen {
                let ghost w = choose|i: int| 0 <= i < before.len() && is_digit(#[trigger] before[i]);
                assert(after[w] == before[w]);
            }
        }
        j = j + 1;
    }
    assert(t.take(q - p) =~= t);
    if seen {
        Some(v)
    } else {
        None
    }
}

/// The stock count that a page shows, `stock_value` of its text.
pub fn parse_stock(body: &str) -> (r: Option<i32>)
    ensures
        r == stock_value(body@),
{
    let s = chars_of(body);
    match find_first_match(&s) {
        Some(p) => {
            let q = find_run_end(&s, p);
            proof {
                let c = choose|k: int| first_match(s@, k);
                lemma_first_match_unique(s@, c, p as int);
            }
            match run_value(&s, p, q) {
                Some(v) => if v <= i32::MAX as u64 {
                    Some(v as i32)
                } else {
                    None
                },
                None => None,
            }
        },
        None => None,
    }
}

/// The stock count of a fetch: absent where the fetch failed, otherwise the
/// count that the page shows.
pub fn stock_from_response(resp: &Result<String, FetchError>) -> (r: Option<i32>)
    ensures
        r == response_stock(fetch_view(resp)),
{
    match resp {
        Ok(body) => parse_stock(body.as_str()),
        Err(_) => None,
    }
}

} // verus!
