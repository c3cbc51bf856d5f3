//! Rate-limit classification for failed remote calls.
//!
//! A failed call carries a textual message.  When the message embeds a
//! cooldown of the form `Rate limited for the next <integer> seconds`, the
//! classifier returns that integer: the seconds to wait before retrying the
//! same page.  Any other message classifies as `0`: not a throttling error,
//! to be treated as fatal by the caller.

use vstd::prelude::*;
use vstd::string::*;

use crate::text::{
    digit_run, digits_value, is_digit, is_digit_char, is_space, lemma_digit_run_bound,
    lemma_digit_run_split, lemma_digits_value_nonneg, lemma_digits_value_prefix,
    lemma_space_run_bound, lemma_space_run_split, lit_at, lit_matches, space_run,
};

verus! {

/// The literal that opens a cooldown message.
pub open spec fn rl_prefix() -> Seq<char> {
    "Rate limited for the next"@
}

/// The literal that closes a cooldown message.
pub open spec fn rl_suffix() -> Seq<char> {
    "seconds"@
}

/// A cooldown message occurs in `s` at position `i`: the opening literal,
/// one or more whitespace characters, one or more digits, one or more
/// whitespace characters, then the closing literal.
pub open spec fn match_at(s: Seq<char>, i: int) -> bool {
    lit_at(s, i, rl_prefix()) && {
        let j = i + rl_prefix().len();
        let a = space_run(s, j);
        let k = j + a;
        let b = digit_run(s, k);
        let m = k + b;
        let c = space_run(s, m);
        a >= 1 && b >= 1 && c >= 1 && lit_at(s, m + c, rl_suffix())
    }
}

/// The value of the digit run captured by a cooldown message at `i`.
pub open spec fn match_value_at(s: Seq<char>, i: int) -> int {
    let j = i + rl_prefix().len();
    let a = space_run(s, j);
    let k = j + a;
    let b = digit_run(s, k);
    digits_value(s.subrange(k, k + b))
}

/// The position of the leftmost cooldown message at or after `i`, or `-1`.
pub open spec fn find_match(s: Seq<char>, i: int) -> int
    decreases s.len() - i when i <= s.len()
{
    if i >= s.len() {
        -1
    } else if match_at(s, i) {
        i
    } else {
        find_match(s, i + 1)
    }
}

/// The captured cooldown of the leftmost message in `s`, or `0` when `s`
/// holds no cooldown message.
pub open spec fn rate_limit_wait(s: Seq<char>) -> int {
    if find_match(s, 0) >= 0 {
        match_value_at(s, find_match(s, 0))
    } else {
        0
    }
}

/// What the classifier returns for message `s`: the captured cooldown when
/// there is one and it is representable, otherwise `0` (not a throttling
/// error, or a number too large to read back — either way the run is
/// treated as fatal, as an unreadable cooldown would be).
pub open spec fn classified_wait(s: Seq<char>) -> int {
    if 0 <= rate_limit_wait(s) <= i64::MAX {
        rate_limit_wait(s)
    } else {
        0
    }
}

proof fn lemma_find_from(s: Seq<char>, t: int, i: int)
    requires
        0 <= t <= i < s.len(),
        forall|j: int| t <= j < i ==> !match_at(s, j),
        match_at(s, i),
    ensures
        find_match(s, t) == i,
    decreases i - t,
{
    if t < i {
        lemma_find_from(s, t + 1, i);
    }
}

proof fn lemma_find_none_from(s: Seq<char>, t: int)
    requires
        0 <= t <= s.len(),
        forall|j: int| t <= j < s.len() ==> !match_at(s, j),
    ensures
        find_match(s, t) == -1,
    decreases s.len() - t,
{
    if t < s.len() {
        lemma_find_none_from(s, t + 1);
    }
}

/// For a message whose leftmost cooldown stands at `i` with a representable
/// number of seconds, the classifier returns exactly that number.
pub proof fn lemma_classifier_match(s: Seq<char>, i: int)
    requires
        0 <= i < s.len(),
        match_at(s, i),
        forall|j: int| 0 <= j < i ==> !match_at(s, j),
        match_value_at(s, i) <= i64::MAX,
    ensures
        classified_wait(s) == match_value_at(s, i),
{
    lemma_find_from(s, 0, i);
    let j = i + rl_prefix().len();
    let a = space_run(s, j);
    let k = j + a;
    let b = digit_run(s, k);
    assert(lit_at(s, i, rl_prefix()));
    assert(j <= s.len());
    lemma_space_run_bound(s, j);
    lemma_digit_run_bound(s, k);
    assert(forall|t: int| 0 <= t < b ==> is_digit_char(#[trigger] s.subrange(k, k + b)[t]))
        by {
        assert(forall|t: int| k <= t < k + b ==> is_digit_char(#[trigger] s[t])) by {
            lemma_digit_run_all_digits(s, k);
        }
    }
    lemma_digits_value_nonneg(s.subrange(k, k + b));
}

/// For a message with no cooldown in it, the classifier returns `0`.
pub proof fn lemma_classifier_no_match(s: Seq<char>)
    requires
        forall|j: int| 0 <= j < s.len() ==> !match_at(s, j),
    ensures
        classified_wait(s) == 0,
{
    lemma_find_none_from(s, 0);
}

/// Every position inside a digit run holds a digit.
proof fn lemma_digit_run_all_digits(s: Seq<char>, i: int)
    requires
        0 <= i <= s.len(),
    ensures
        forall|t: int| i <= t < i + digit_run(s, i) ==> is_digit_char(#[trigger] s[t]),
    decreases s.len() - i,
{
    if i < s.len() && is_digit_char(s[i]) {
        lemma_digit_run_all_digits(s, i + 1);
    }
}

/// Length of the whitespace run of `s` starting at `i`.
fn space_run_len(s: &str, i: usize) -> (r: usize)
    requires
        i <= s@.len(),
    ensures
        r == space_run(s@, i as int),
        i + r <= s@.len(),
{
    let n: usize = s.unicode_len();
    let mut j: usize = i;
    while j < n && is_space(s.get_char(j))
        invariant
            i <= j <= n,
            n == s@.len(),
            forall|k: int| i <= k < j ==> crate::text::is_space_char(#[trigger] s@[k]),
        decreases n - j,
    {
        j = j + 1;
    }
    proof {
        lemma_space_run_split(s@, i as int, j as int);
    }
    j - i
}

/// Length of the digit run of `s` starting at `i`.
fn digit_run_len(s: &str, i: usize) -> (r: usize)
    requires
        i <= s@.len(),
    ensures
        r == digit_run(s@, i as int),
        i + r <= s@.len(),
{
    let n: usize = s.unicode_len();
    let mut j: usize = i;
    while j < n && is_digit(s.get_char(j))
        invariant
            i <= j <= n,
            n == s@.len(),
            forall|k: int| i <= k < j ==> is_digit_char(#[trigger] s@[k]),
        decreases n - j,
    {
        j = j + 1;
    }
    proof {
        lemma_digit_run_split(s@, i as int, j as int);
    }
    j - i
}

/// Reads the digit run `s[from..to)` as a number of seconds, `None` when it
/// does not fit the classifier's result type.
fn digits_in_range(s: &str, from: usize, to: usize) -> (r: Option<i64>)
    requires
        from <= to <= s@.len(),
        forall|k: int| from <= k < to ==> is_digit_char(#[trigger] s@[k]),
    ensures
        match r {
            Some(v) => 0 <= v && v == digits_value(s@.subrange(from as int, to as int)),
            None => digits_value(s@.subrange(from as int, to as int)) > i64::MAX,
        },
{
    let ghost d = s@.subrange(from as int, to as int);
    let mut acc: i64 = 0;
    let mut k: usize = from;
    while k < to
        invariant
            from <= k <= to <= s@.len(),
            d == s@.subrange(from as int, to as int),
            d.len() == to - from,
            forall|t: int| from <= t < to ==> is_digit_char(#[trigger] s@[t]),
            0 <= acc,
            acc == digits_value(d.subrange(0, k - from)),
        decreases to - k,
    {
        let c = s.get_char(k);
        assert(is_digit_char(c));
        let dv: i64 = ((c as u32) - ('0' as u32)) as i64;
        assert(dv == crate::text::digit_val(c));
        let ghost p = d.subrange(0, k - from);
        let ghost q = d.subrange(0, k + 1 - from);
        proof {
            assert(q.drop_last() =~= p);
            assert(q.last() == d[k - from] && d[k - from] == s@[k as int]);
        }
        if acc > i64::MAX / 10 || (acc == i64::MAX / 10 && dv > i64::MAX % 10) {
            proof {
                assert(digits_value(q) == acc * 10 + dv);
                assert(i64::MAX as int == (i64::MAX as int / 10) * 10 + (i64::MAX as int % 10));
                assert(digits_value(q) > i64::MAX);
                assert(forall|t: int| 0 <= t < d.len() ==> is_digit_char(#[trigger] d[t]));
                lemma_digits_value_prefix(d, k + 1 - from);
            }
            return None;
        }
        proof {
            assert(i64::MAX as int == (i64::MAX as int / 10) * 10 + (i64::MAX as int % 10));
            assert(acc * 10 + dv <= i64::MAX);
        }
        acc = acc * 10 + dv;
        k = k + 1;
    }
    proof {
        assert(d.subrange(0, to - from) =~= d);
    }
    Some(acc)
}

/// Processes a failed remote call's message and derives the cooldown to
/// wait before retrying, `0` when the cause is not a rate limit.
pub fn error_handler(message: &str) -> (r: i64)
    ensures
        r == classified_wait(message@),
        r >= 0,
{
    let prefix: &str = "Rate limited for the next";
    let suffix: &str = "seconds";
    let n: usize = message.unicode_len();
    let plen: usize = prefix.unicode_len();
    let mut i: usize = 0;
    while i < n
        invariant
            0 <= i <= n,
            n == message@.len(),
            plen == rl_prefix().len(),
            prefix@ == rl_prefix(),
            suffix@ == rl_suffix(),
            forall|j: int| 0 <= j < i ==> !match_at(message@, j),
        decreases n - i,
    {
        if lit_matches(message, i, prefix) {
            let j: usize = i + plen;
            let a = space_run_len(message, j);
            let k: usize = j + a;
            let b = digit_run_len(message, k);
            let m: usize = k + b;
            let c = space_run_len(message, m);
            if a >= 1 && b >= 1 && c >= 1 && lit_matches(message, m + c, suffix) {
                proof {
                    assert(match_at(message@, i as int));
                    lemma_find_from(message@, 0, i as int);
                    lemma_digit_run_all_digits(message@, k as int);
                }
                let value = digits_in_range(message, k, m);
                match value {
                    Some(v) => {
                        return v;
                    },
                    None => {
                        return 0;
                    },
                }
            } else {
                proof {
                    assert(!match_at(message@, i as int));
                }
            }
        } else {
            proof {
                assert(!match_at(message@, i as int));
            }
        }
        i = i + 1;
    }
    proof {
        lemma_find_none_from(message@, 0);
    }
    0
}

} // verus!
