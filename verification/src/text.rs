//! Verified text utilities shared by the pipeline modules: character
//! classes, whitespace trimming, decimal numerals, literal matching and
//! substring search, and decimal rendering of page numbers.

use vstd::prelude::*;
use vstd::string::*;

verus! {

/// The whitespace characters recognised by the pipeline's text handling.
pub open spec fn is_space_char(c: char) -> bool {
    c == ' ' || c == '\t' || c == '\n' || c == '\r' || c == '\u{b}' || c == '\u{c}'
}

/// ASCII decimal digit.
pub open spec fn is_digit_char(c: char) -> bool {
    '0' <= c && c <= '9'
}

/// Numeric value of an ASCII decimal digit.
pub open spec fn digit_val(c: char) -> int {
    c as int - '0' as int
}

/// Every character of `s` is an ASCII decimal digit.
pub open spec fn all_digits(s: Seq<char>) -> bool {
    forall|i: int| 0 <= i < s.len() ==> is_digit_char(#[trigger] s[i])
}

/// The value of `s` read as a decimal numeral, most significant digit first.
pub open spec fn digits_value(s: Seq<char>) -> int
    decreases s.len(),
{
    if s.len() == 0 {
        0
    } else {
        digits_value(s.drop_last()) * 10 + digit_val(s.last())
    }
}

/// Length of the run of whitespace characters of `s` that starts at `i`.
pub open spec fn space_run(s: Seq<char>, i: int) -> int
    decreases s.len() - i when i <= s.len()
{
    if 0 <= i < s.len() && is_space_char(s[i]) {
        1 + space_run(s, i + 1)
    } else {
        0
    }
}

/// Length of the run of digit characters of `s` that starts at `i`.
pub open spec fn digit_run(s: Seq<char>, i: int) -> int
    decreases s.len() - i when i <= s.len()
{
    if 0 <= i < s.len() && is_digit_char(s[i]) {
        1 + digit_run(s, i + 1)
    } else {
        0
    }
}

/// Length of the run of whitespace characters at the end of `s`.
pub open spec fn trail_spaces(s: Seq<char>) -> int
    decreases s.len(),
{
    if s.len() > 0 && is_space_char(s.last()) {
        1 + trail_spaces(s.drop_last())
    } else {
        0
    }
}

/// `s` with leading and trailing whitespace removed.
pub open spec fn trimmed(s: Seq<char>) -> Seq<char> {
    let t = s.subrange(0, s.len() - trail_spaces(s));
    t.subrange(space_run(t, 0), t.len() as int)
}

/// The literal `lit` occurs in `s` at position `i`.
pub open spec fn lit_at(s: Seq<char>, i: int, lit: Seq<char>) -> bool {
    0 <= i && i + lit.len() <= s.len() && s.subrange(i, i + lit.len()) == lit
}

/// `n` occurs somewhere in `h`.
pub open spec fn contains_seq(h: Seq<char>, n: Seq<char>) -> bool {
    exists|i: int| lit_at(h, i, n)
}

/// A leading `+` sign, accepted before a decimal numeral, stripped.
pub open spec fn strip_plus(s: Seq<char>) -> Seq<char> {
    if s.len() > 0 && s[0] == '+' {
        s.drop_first()
    } else {
        s
    }
}

/// `s` is a decimal numeral: an optional `+` followed by one or more digits.
pub open spec fn parses_as_nat(s: Seq<char>) -> bool {
    strip_plus(s).len() > 0 && all_digits(strip_plus(s))
}

/// The value of the numeral `s`.
pub open spec fn nat_of_string(s: Seq<char>) -> int {
    digits_value(strip_plus(s))
}

pub proof fn lemma_space_run_bound(s: Seq<char>, i: int)
    requires
        0 <= i <= s.len(),
    ensures
        0 <= space_run(s, i) <= s.len() - i,
    decreases s.len() - i,
{
    if i < s.len() && is_space_char(s[i]) {
        lemma_space_run_bound(s, i + 1);
    }
}

pub proof fn lemma_digit_run_bound(s: Seq<char>, i: int)
    requires
        0 <= i <= s.len(),
    ensures
        0 <= digit_run(s, i) <= s.len() - i,
    decreases s.len() - i,
{
    if i < s.len() && is_digit_char(s[i]) {
        lemma_digit_run_bound(s, i + 1);
    }
}

/// A whitespace run from `a` whose first stop is at `b` has length `b - a`.
pub proof fn lemma_space_run_split(s: Seq<char>, a: int, b: int)
    requires
        0 <= a <= b <= s.len(),
        forall|k: int| a <= k < b ==> is_space_char(#[trigger] s[k]),
        b == s.len() || !is_space_char(s[b]),
    ensures
        space_run(s, a) == b - a,
    decreases b - a,
{
    if a < b {
        lemma_space_run_split(s, a + 1, b);
    }
}

/// A digit run from `a` whose first stop is at `b` has length `b - a`.
pub proof fn lemma_digit_run_split(s: Seq<char>, a: int, b: int)
    requires
        0 <= a <= b <= s.len(),
        forall|k: int| a <= k < b ==> is_digit_char(#[trigger] s[k]),
        b == s.len() || !is_digit_char(s[b]),
    ensures
        digit_run(s, a) == b - a,
    decreases b - a,
{
    if a < b {
        lemma_digit_run_split(s, a + 1, b);
    }
}

/// The trailing whitespace of `s` ends exactly where the whitespace suffix
/// beginning at `j` starts.
pub proof fn lemma_trail_spaces_boundary(s: Seq<char>, j: int)
    requires
        0 <= j <= s.len(),
        forall|k: int| j <= k < s.len() ==> is_space_char(#[trigger] s[k]),
        j > 0 ==> !is_space_char(s[j - 1]),
    ensures
        trail_spaces(s) == s.len() - j,
    decreases s.len(),
{
    if s.len() > 0 {
        if j < s.len() {
            assert(is_space_char(s.last()));
            assert(s.drop_last().len() == s.len() - 1);
            assert(forall|k: int|
                j <= k < s.len() - 1 ==> is_space_char(#[trigger] s.drop_last()[k]));
            if j > 0 {
                assert(s.drop_last()[j - 1] == s[j - 1]);
            }
            lemma_trail_spaces_boundary(s.drop_last(), j);
        }
    }
}

/// A digit string's value is never negative.
pub proof fn lemma_digits_value_nonneg(s: Seq<char>)
    requires
        all_digits(s),
    ensures
        digits_value(s) >= 0,
    decreases s.len(),
{
    if s.len() > 0 {
        assert(all_digits(s.drop_last())) by {
            assert(forall|i: int|
                0 <= i < s.len() - 1 ==> is_digit_char(#[trigger] s.drop_last()[i]));
        }
        lemma_digits_value_nonneg(s.drop_last());
    }
}

/// The value of a digit string dominates the value of any of its prefixes.
pub proof fn lemma_digits_value_prefix(s: Seq<char>, k: int)
    requires
        all_digits(s),
        0 <= k <= s.len(),
    ensures
        digits_value(s) >= digits_value(s.subrange(0, k)),
    decreases s.len() - k,
{
    if k < s.len() {
        let p = s.subrange(0, k);
        let q = s.subrange(0, k + 1);
        assert(q.drop_last() =~= p);
        assert(all_digits(p));
        lemma_digits_value_nonneg(p);
        assert(digits_value(q) == digits_value(p) * 10 + digit_val(q.last()));
        assert(digit_val(q.last()) >= 0);
        assert(digits_value(q) >= digits_value(p));
        lemma_digits_value_prefix(s, k + 1);
    } else {
        assert(s.subrange(0, k) =~= s);
    }
}

/// Whether `c` is one of the pipeline's whitespace characters.
pub fn is_space(c: char) -> (r: bool)
    ensures
        r == is_space_char(c),
{
    c == ' ' || c == '\t' || c == '\n' || c == '\r' || c == '\u{b}' || c == '\u{c}'
}

/// Whether `c` is an ASCII decimal digit.
pub fn is_digit(c: char) -> (r: bool)
    ensures
        r == is_digit_char(c),
{
    c >= '0' && c <= '9'
}

/// The literal `lit` compared against `s` at character position `i`.
pub fn lit_matches(s: &str, i: usize, lit: &str) -> (r: bool)
    ensures
        r == lit_at(s@, i as int, lit@),
{
    let n: usize = s.unicode_len();
    let m: usize = lit.unicode_len();
    if i > n || m > n - i {
        return false;
    }
    let mut j: usize = 0;
    while j < m
        invariant
            0 <= j <= m,
            i + m <= n,
            n == s@.len(),
            m == lit@.len(),
            forall|k: int| 0 <= k < j ==> s@[i + k] == #[trigger] lit@[k],
        decreases m - j,
    {
        if s.get_char(i + j) != lit.get_char(j) {
            assert(s@.subrange(i as int, i + m) != lit@) by {
                assert(s@.subrange(i as int, i + m)[j as int] == s@[i + j]);
            }
            return false;
        }
        j = j + 1;
    }
    assert(s@.subrange(i as int, i + m) =~= lit@);
    true
}

/// Whether the views of `a` and `b` are the same character sequence.
pub fn str_eq(a: &str, b: &str) -> (r: bool)
    ensures
        r == (a@ == b@),
{
    let n: usize = a.unicode_len();
    if n != b.unicode_len() {
        return false;
    }
    proof {
        assert(a@.subrange(0, a@.len() as int) =~= a@);
    }
    lit_matches(a, 0, b)
}

/// Substring search: whether `needle` occurs anywhere in `hay`.
pub fn str_contains(hay: &str, needle: &str) -> (r: bool)
    ensures
        r == contains_seq(hay@, needle@),
{
    let n: usize = hay.unicode_len();
    let m: usize = needle.unicode_len();
    if m > n {
        return false;
    }
    if m == 0 {
        proof {
            assert(hay@.subrange(0, 0) =~= needle@);
            assert(lit_at(hay@, 0, needle@));
        }
        return true;
    }
    let mut i: usize = 0;
    while i <= n - m
        invariant
            0 <= i <= n - m + 1,
            1 <= m <= n,
            n == hay@.len(),
            m == needle@.len(),
            forall|k: int| 0 <= k < i ==> !lit_at(hay@, k, needle@),
        decreases n - m - i + 1,
    {
        if lit_matches(hay, i, needle) {
            return true;
        }
        i = i + 1;
    }
    assert(forall|k: int| lit_at(hay@, k, needle@) ==> 0 <= k <= n - m);
    false
}

/// `s` with leading and trailing whitespace removed.
pub fn trim_str(s: &str) -> (r: String)
    ensures
        r@ == trimmed(s@),
{
    let n: usize = s.unicode_len();
    let mut j: usize = n;
    while j > 0 && is_space(s.get_char(j - 1))
        invariant
            0 <= j <= n,
            n == s@.len(),
            forall|k: int| j <= k < n ==> is_space_char(#[trigger] s@[k]),
        decreases j,
    {
        j = j - 1;
    }
    proof {
        lemma_trail_spaces_boundary(s@, j as int);
    }
    let mut i: usize = 0;
    while i < j && is_space(s.get_char(i))
        invariant
            0 <= i <= j <= n,
            n == s@.len(),
            forall|k: int| 0 <= k < i ==> is_space_char(#[trigger] s@[k]),
        decreases j - i,
    {
        i = i + 1;
    }
    let ghost t = s@.subrange(0, j as int);
    proof {
        assert(forall|k: int| 0 <= k < i ==> is_space_char(#[trigger] t[k]));
        if i < j {
            assert(t[i as int] == s@[i as int]);
        }
        lemma_space_run_split(t, 0, i as int);
    }
    let r = s.substring_char(i, j);
    proof {
        assert(t.subrange(i as int, t.len() as int) =~= s@.subrange(i as int, j as int));
    }
    String::from_str(r)
}

/// Parses a decimal numeral (optional `+`, then digits) into a `usize`.
pub fn parse_usize(s: &str) -> (r: Option<usize>)
    ensures
        match r {
            Some(v) => parses_as_nat(s@) && v == nat_of_string(s@),
            None => !parses_as_nat(s@) || nat_of_string(s@) > usize::MAX,
        },
{
    let n: usize = s.unicode_len();
    let mut i: usize = 0;
    if n > 0 && s.get_char(0) == '+' {
        i = 1;
    }
    let ghost d = strip_plus(s@);
    proof {
        assert(d =~= s@.subrange(i as int, n as int));
    }
    if i == n {
        return None;
    }
    let mut acc: usize = 0;
    let mut k: usize = i;
    while k < n
        invariant
            i <= k <= n,
            n == s@.len(),
            d == strip_plus(s@),
            d == s@.subrange(i as int, n as int),
            d.len() == n - i,
            forall|t: int| 0 <= t < k - i ==> is_digit_char(#[trigger] d[t]),
            acc == digits_value(d.subrange(0, k - i)),
        decreases n - k,
    {
        let c = s.get_char(k);
        if !is_digit(c) {
            proof {
                assert(d[k - i] == s@[k as int]);
                assert(!is_digit_char(d[k - i]));
                assert(!all_digits(d));
            }
            return None;
        }
        let dv: usize = (c as u32 as usize) - ('0' as u32 as usize);
        assert(dv == digit_val(c));
        let ghost p = d.subrange(0, k - i);
        let ghost q = d.subrange(0, k + 1 - i);
        proof {
            assert(q.drop_last() =~= p);
            assert(q.last() == d[k - i] && d[k - i] == s@[k as int]);
        }
        if acc > usize::MAX / 10 || (acc == usize::MAX / 10 && dv > usize::MAX % 10) {
            proof {
                assert(digits_value(q) == acc * 10 + dv);
                assert(usize::MAX as int == (usize::MAX as int / 10) * 10 + (usize::MAX as int
                    % 10));
                assert(digits_value(q) > usize::MAX);
                if all_digits(d) {
                    lemma_digits_value_prefix(d, k + 1 - i);
                }
            }
            return None;
        }
        proof {
            assert(usize::MAX as int == (usize::MAX as int / 10) * 10 + (usize::MAX as int % 10));
            assert(acc * 10 + dv <= usize::MAX);
        }
        acc = acc * 10 + dv;
        k = k + 1;
    }
    proof {
        assert(d.subrange(0, n - i) =~= d);
    }
    Some(acc)
}

/// The decimal digit character for a value below ten.
pub open spec fn digit_char(d: int) -> char {
    if d == 0 {
        '0'
    } else if d == 1 {
        '1'
    } else if d == 2 {
        '2'
    } else if d == 3 {
        '3'
    } else if d == 4 {
        '4'
    } else if d == 5 {
        '5'
    } else if d == 6 {
        '6'
    } else if d == 7 {
        '7'
    } else if d == 8 {
        '8'
    } else {
        '9'
    }
}

/// The canonical decimal rendering of `n`: no sign, no leading zeroes.
pub open spec fn dec_digits(n: int) -> Seq<char>
    decreases n,
{
    if n < 10 {
        seq![digit_char(n)]
    } else {
        dec_digits(n / 10).push(digit_char(n % 10))
    }
}

/// The canonical rendering reads back to its value.
pub proof fn lemma_dec_digits_value(n: int)
    requires
        0 <= n,
    ensures
        dec_digits(n).len() >= 1,
        all_digits(dec_digits(n)),
        digits_value(dec_digits(n)) == n,
    decreases n,
{
    if n < 10 {
        let s = dec_digits(n);
        assert(s.drop_last() =~= Seq::<char>::empty());
        assert(s.last() == digit_char(n));
        assert(digits_value(s) == digits_value(s.drop_last()) * 10 + digit_val(s.last()));
        assert(digit_val(digit_char(n)) == n);
    } else {
        lemma_dec_digits_value(n / 10);
        let s = dec_digits(n);
        assert(s.drop_last() =~= dec_digits(n / 10));
        assert(digits_value(s) == digits_value(dec_digits(n / 10)) * 10 + digit_val(s.last()));
        vstd::arithmetic::div_mod::lemma_fundamental_div_mod(n, 10);
        assert(forall|idx: int| 0 <= idx < s.len() ==> is_digit_char(#[trigger] s[idx]));
    }
}

/// Relies on String::push: appends exactly the one character.
#[verifier::external_body]
pub fn push_char(s: &mut String, c: char)
    ensures
        final(s)@ == old(s)@.push(c),
{
    s.push(c);
}

/// One decimal digit as a string.
fn digit_str(d: u64) -> (r: &'static str)
    requires
        d < 10,
    ensures
        r@.len() == 1,
        r@[0] == digit_char(d as int),
        is_digit_char(r@[0]),
        digit_val(r@[0]) == d,
{
    proof {
        reveal_strlit("0");
        reveal_strlit("1");
        reveal_strlit("2");
        reveal_strlit("3");
        reveal_strlit("4");
        reveal_strlit("5");
        reveal_strlit("6");
        reveal_strlit("7");
        reveal_strlit("8");
        reveal_strlit("9");
    }
    match d {
        0 => "0",
        1 => "1",
        2 => "2",
        3 => "3",
        4 => "4",
        5 => "5",
        6 => "6",
        7 => "7",
        8 => "8",
        _ => "9",
    }
}

/// Renders `n` in decimal, without leading zeroes.
pub fn u64_to_dec(n: u64) -> (r: String)
    ensures
        r@ == dec_digits(n as int),
        r@.len() >= 1,
        all_digits(r@),
        digits_value(r@) == n,
        n > 0 ==> digit_val(r@[0]) > 0,
    decreases n,
{
    if n < 10 {
        let r = String::from_str(digit_str(n));
        proof {
            assert(r@.drop_last() =~= Seq::<char>::empty());
            assert(r@.last() == r@[0]);
            assert(digits_value(r@) == digits_value(r@.drop_last()) * 10 + digit_val(r@.last()));
            assert(digits_value(Seq::<char>::empty()) == 0);
            assert(r@ =~= seq![digit_char(n as int)]);
        }
        r
    } else {
        let mut s = u64_to_dec(n / 10);
        let t = digit_str(n % 10);
        let ghost before = s@;
        s.append(t);
        proof {
            assert(s@.drop_last() =~= before);
            assert(s@.last() == t@[0]);
            assert(digits_value(s@) == digits_value(before) * 10 + (n % 10));
            vstd::arithmetic::div_mod::lemma_fundamental_div_mod(n as int, 10);
            assert(s@[0] == before[0]);
            assert(forall|idx: int| 0 <= idx < s@.len() ==> is_digit_char(#[trigger] s@[idx]));
            assert(s@ =~= dec_digits((n / 10) as int).push(digit_char((n % 10) as int)));
        }
        s
    }
}

} // verus!
