//! Application-identifier extraction: finding the first `AppId=<digits>`
//! marker anywhere inside a reconstructed command string.
//!
//! The search is substring-based, not token-based: launcher commands bury the
//! marker as one argument among many wrapper invocations. Only the first
//! occurrence that is followed by at least one decimal digit counts, and the
//! identifier is the whole run of digits after the `=`.

use vstd::prelude::*;
use vstd::string::*;

verus! {

pub open spec fn is_digit(c: char) -> bool {
    '0' <= c && c <= '9'
}

/// The marker `AppId=`, followed by at least one digit, starts at `i`.
pub open spec fn match_at(s: Seq<char>, i: int) -> bool {
    &&& 0 <= i
    &&& i + 7 <= s.len()
    &&& s[i] == 'A'
    &&& s[i + 1] == 'p'
    &&& s[i + 2] == 'p'
    &&& s[i + 3] == 'I'
    &&& s[i + 4] == 'd'
    &&& s[i + 5] == '='
    &&& is_digit(s[i + 6])
}

/// Whether the string holds an identifier marker at all.
pub open spec fn has_marker(s: Seq<char>) -> bool {
    exists|i: int| match_at(s, i)
}

/// Where the digit run that starts at `k` ends: the first position at or
/// after `k` holding no digit.
pub open spec fn digit_run_end(s: Seq<char>, k: int) -> int
    recommends
        0 <= k <= s.len(),
    decreases s.len() - k,
{
    if k < s.len() && is_digit(s[k]) {
        digit_run_end(s, k + 1)
    } else {
        k
    }
}

/// The extracted identifier and the string relate as the contract of
/// [`extract`] demands: `None` means no marker anywhere, and an extracted
/// identifier is the digit run after the first marker.
pub open spec fn extraction_ok(s: Seq<char>, r: Option<Seq<char>>) -> bool {
    match r {
        Option::None => !has_marker(s),
        Option::Some(id) => exists|i: int|
            {
                &&& #[trigger] match_at(s, i)
                &&& forall|j: int| 0 <= j < i ==> !match_at(s, j)
                &&& id == s.subrange(i + 6, digit_run_end(s, i + 6))
            },
    }
}

proof fn lemma_digit_run_end_bounds(s: Seq<char>, k: int)
    requires
        0 <= k <= s.len(),
    ensures
        k <= digit_run_end(s, k) <= s.len(),
        k < s.len() && is_digit(s[k]) ==> k + 1 <= digit_run_end(s, k),
    decreases s.len() - k,
{
    if k < s.len() && is_digit(s[k]) {
        lemma_digit_run_end_bounds(s, k + 1);
    }
}

proof fn lemma_digit_run_all_digits(s: Seq<char>, k: int, j: int)
    requires
        0 <= k <= s.len(),
        k <= j < digit_run_end(s, k),
    ensures
        is_digit(s[j]),
    decreases j - k,
{
    if k < s.len() && is_digit(s[k]) {
        if j > k {
            lemma_digit_run_all_digits(s, k + 1, j);
        }
    }
}

/// What an extracted identifier looks like: it is never empty, and it is
/// made of decimal digits alone.
pub proof fn lemma_identifier_is_numeric(s: Seq<char>, id: Seq<char>)
    requires
        extraction_ok(s, Option::Some(id)),
    ensures
        id.len() >= 1,
        forall|m: int| 0 <= m < id.len() ==> is_digit(#[trigger] id[m]),
{
    let i = choose|i: int|
        {
            &&& #[trigger] match_at(s, i)
            &&& forall|j: int| 0 <= j < i ==> !match_at(s, j)
            &&& id == s.subrange(i + 6, digit_run_end(s, i + 6))
        };
    let k = i + 6;
    lemma_digit_run_end_bounds(s, k);
    assert forall|m: int| 0 <= m < id.len() implies is_digit(#[trigger] id[m]) by {
        lemma_digit_run_all_digits(s, k, k + m);
    }
}

/// A scan that saw digits up to `e` and a non-digit (or the end) at `e`
/// found exactly the digit run.
proof fn lemma_digit_run_end_is(s: Seq<char>, k: int, e: int)
    requires
        0 <= k <= e <= s.len(),
        forall|j: int| k <= j < e ==> is_digit(#[trigger] s[j]),
        e == s.len() || !is_digit(s[e]),
    ensures
        digit_run_end(s, k) == e,
    decreases e - k,
{
    if k < e {
        lemma_digit_run_end_is(s, k + 1, e);
    }
}

/// Whether the marker, with its following digit, stands at position `i`.
fn marker_matches_at(s: &str, i: usize) -> (r: bool)
    requires
        i + 7 <= s@.len() <= usize::MAX,
    ensures
        r == match_at(s@, i as int),
{
    s.get_char(i) == 'A' && s.get_char(i + 1) == 'p' && s.get_char(i + 2) == 'p' && s.get_char(
        i + 3,
    ) == 'I' && s.get_char(i + 4) == 'd' && s.get_char(i + 5) == '=' && {
        let c = s.get_char(i + 6);
        '0' <= c && c <= '9'
    }
}

/// Walks to the end of the digit run that starts at `start`.
fn scan_digit_run(s: &str, start: usize) -> (e: usize)
    requires
        start <= s@.len(),
    ensures
        e == digit_run_end(s@, start as int),
        start <= e <= s@.len(),
{
    let n = s.unicode_len();
    let mut e: usize = start;
    while e < n
        invariant
            start <= e <= n,
            n == s@.len(),
            forall|j: int| start <= j < e ==> is_digit(#[trigger] s@[j]),
        decreases n - e,
    {
        let c = s.get_char(e);
        if !('0' <= c && c <= '9') {
            proof {
                lemma_digit_run_end_is(s@, start as int, e as int);
            }
            return e;
        }
        e += 1;
    }
    proof {
        lemma_digit_run_end_is(s@, start as int, e as int);
    }
    e
}

/// Extracts the application identifier: the digit run after the first
/// `AppId=` marker that is followed by at least one digit. Returns `None`,
/// and so signals the passthrough path, exactly when the string holds no
/// such marker.
pub fn extract(command: &str) -> (r: Option<String>)
    ensures
        extraction_ok(
            command@,
            match r {
                Option::Some(id) => Option::Some(id@),
                Option::None => Option::None,
            },
        ),
        r is Some <==> has_marker(command@),
{
    let n = command.unicode_len();
    if n < 7 {
        proof {
            assert(forall|j: int| !match_at(command@, j));
        }
        return None;
    }
    let mut p: usize = 0;
    while p <= n - 7
        invariant
            n >= 7,
            n == command@.len(),
            p <= n - 6,
            forall|j: int| 0 <= j < p ==> !match_at(command@, j),
        decreases n - p,
    {
        if marker_matches_at(command, p) {
            let start = p + 6;
            let e = scan_digit_run(command, start);
            let id = command.substring_char(start, e).to_owned();
            return Some(id);
        }
        p += 1;
    }
    proof {
        assert(forall|j: int| p <= j ==> !match_at(command@, j));
    }
    None
}

} // verus!
