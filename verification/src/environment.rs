//! Parsing of the `.env` file that supplies a run's secrets: the API
//! token, the store connection string and database name, and the archive
//! passphrase.
//!
//! Reading the file and exporting the variables is the binary's work;
//! what stands here is the line format: a line with an `=` yields one
//! variable, named by the trimmed text before the first `=`, valued by
//! the rest of the line with every further `=` removed.  Lines without
//! an `=` yield nothing.

use vstd::prelude::*;
use vstd::string::*;

use crate::text::{push_char, trim_str, trimmed};

verus! {

/// The position of the first `=` in the line, or `-1`.
pub open spec fn first_eq(s: Seq<char>, i: int) -> int
    decreases s.len() - i when i <= s.len()
{
    if i >= s.len() {
        -1
    } else if s[i] == '=' {
        i
    } else {
        first_eq(s, i + 1)
    }
}

/// `s` with every `=` removed: the value segments joined back together.
pub open spec fn drop_eq(s: Seq<char>) -> Seq<char>
    decreases s.len(),
{
    if s.len() == 0 {
        Seq::empty()
    } else {
        drop_eq(s.drop_last()) + (if s.last() == '=' {
            Seq::<char>::empty()
        } else {
            seq![s.last()]
        })
    }
}

/// The variable one line defines, if any.
pub open spec fn env_pair(line: Seq<char>) -> Option<(Seq<char>, Seq<char>)> {
    let i = first_eq(line, 0);
    if i >= 0 {
        Some((trimmed(line.subrange(0, i)), drop_eq(line.subrange(i + 1, line.len() as int))))
    } else {
        None
    }
}

/// The variables a file's lines define, in order.
pub open spec fn env_pairs(lines: Seq<Seq<char>>) -> Seq<(Seq<char>, Seq<char>)>
    decreases lines.len(),
{
    if lines.len() == 0 {
        Seq::empty()
    } else {
        let rest = env_pairs(lines.drop_last());
        match env_pair(lines.last()) {
            Some(p) => rest.push(p),
            None => rest,
        }
    }
}

proof fn lemma_first_eq_bounds(s: Seq<char>, i: int)
    requires
        0 <= i <= s.len(),
    ensures
        first_eq(s, i) == -1 || i <= first_eq(s, i) < s.len(),
        first_eq(s, i) >= 0 ==> s[first_eq(s, i)] == '=',
        forall|k: int| i <= k < first_eq(s, i) ==> s[k] != '=',
        first_eq(s, i) == -1 ==> forall|k: int| i <= k < s.len() ==> s[k] != '=',
    decreases s.len() - i,
{
    if i < s.len() && s[i] != '=' {
        lemma_first_eq_bounds(s, i + 1);
    }
}

/// Finds the first `=` of the line.
fn find_eq(line: &str) -> (r: Option<usize>)
    ensures
        match r {
            Some(i) => i < line@.len() && i == first_eq(line@, 0),
            None => first_eq(line@, 0) == -1,
        },
{
    let n: usize = line.unicode_len();
    let mut i: usize = 0;
    while i < n
        invariant
            0 <= i <= n,
            n == line@.len(),
            forall|k: int| 0 <= k < i ==> line@[k] != '=',
        decreases n - i,
    {
        if line.get_char(i) == '=' {
            proof {
                lemma_first_eq_boundary(line@, i as int);
            }
            return Some(i);
        }
        i = i + 1;
    }
    proof {
        lemma_first_eq_boundary(line@, n as int);
    }
    None
}

proof fn lemma_first_eq_boundary(s: Seq<char>, i: int)
    requires
        0 <= i <= s.len(),
        forall|k: int| 0 <= k < i ==> s[k] != '=',
        i < s.len() ==> s[i] == '=',
    ensures
        i < s.len() ==> first_eq(s, 0) == i,
        i == s.len() ==> first_eq(s, 0) == -1,
{
    lemma_first_eq_from(s, 0, i);
}

proof fn lemma_first_eq_from(s: Seq<char>, t: int, i: int)
    requires
        0 <= t <= i <= s.len(),
        forall|k: int| t <= k < i ==> s[k] != '=',
        i < s.len() ==> s[i] == '=',
    ensures
        i < s.len() ==> first_eq(s, t) == i,
        i == s.len() ==> first_eq(s, t) == -1,
    decreases i - t,
{
    if t < i {
        lemma_first_eq_from(s, t + 1, i);
    }
}

/// The value half of a line: everything after the first `=`, with every
/// further `=` removed.
fn joined_value(line: &str, from: usize) -> (r: String)
    requires
        from <= line@.len(),
    ensures
        r@ == drop_eq(line@.subrange(from as int, line@.len() as int)),
{
    let n: usize = line.unicode_len();
    let mut out = String::new();
    let mut k: usize = from;
    proof {
        assert(line@.subrange(from as int, from as int) =~= Seq::<char>::empty());
    }
    while k < n
        invariant
            from <= k <= n,
            n == line@.len(),
            out@ == drop_eq(line@.subrange(from as int, k as int)),
        decreases n - k,
    {
        let ghost p = line@.subrange(from as int, k as int);
        let ghost q = line@.subrange(from as int, k + 1);
        proof {
            assert(q.drop_last() =~= p);
            assert(q.last() == line@[k as int]);
        }
        let c = line.get_char(k);
        if c != '=' {
            push_char(&mut out, c);
            proof {
                assert(drop_eq(q) =~= drop_eq(p) + seq![line@[k as int]]);
                assert(out@ =~= drop_eq(q));
            }
        } else {
            proof {
                assert(drop_eq(q) =~= drop_eq(p));
            }
        }
        k = k + 1;
    }
    out
}

/// Reads one line of the `.env` file: the variable it defines, if any.
pub fn parse_env_line(line: &str) -> (r: Option<(String, String)>)
    ensures
        match r {
            Some(p) => env_pair(line@) == Some((p.0@, p.1@)),
            None => env_pair(line@) is None,
        },
{
    match find_eq(line) {
        Some(i) => {
            let n: usize = line.unicode_len();
            assert(i < n);
            let key_part = line.substring_char(0, i);
            let key = trim_str(key_part);
            let value = joined_value(line, i + 1);
            Some((key, value))
        },
        None => None,
    }
}

/// Reads the lines of a `.env` file into the variables they define, in
/// order, skipping lines without an `=`.
pub fn load_env_vars(lines: &Vec<String>) -> (r: Vec<(String, String)>)
    ensures
        r@.map_values(|p: (String, String)| (p.0@, p.1@)) == env_pairs(
            lines@.map_values(|s: String| s@),
        ),
{
    let ghost lv = lines@.map_values(|s: String| s@);
    let mut out: Vec<(String, String)> = Vec::new();
    let mut i: usize = 0;
    proof {
        assert(lv.subrange(0, 0) =~= Seq::<Seq<char>>::empty());
        assert(out@.map_values(|p: (String, String)| (p.0@, p.1@)) =~= Seq::<(
            Seq<char>,
            Seq<char>,
        )>::empty());
    }
    while i < lines.len()
        invariant
            0 <= i <= lines@.len(),
            lv == lines@.map_values(|s: String| s@),
            lv.len() == lines@.len(),
            out@.map_values(|p: (String, String)| (p.0@, p.1@)) == env_pairs(
                lv.subrange(0, i as int),
            ),
        decreases lines@.len() - i,
    {
        proof {
            assert(lv.subrange(0, i + 1).drop_last() =~= lv.subrange(0, i as int));
            assert(lv.subrange(0, i + 1).last() == lines@[i as int]@);
        }
        let ghost before = out@;
        match parse_env_line(lines[i].as_str()) {
            Some(p) => {
                out.push(p);
                proof {
                    assert(out@.map_values(|p: (String, String)| (p.0@, p.1@)) =~= before
                        .map_values(|p: (String, String)| (p.0@, p.1@)).push(
                        (out@.last().0@, out@.last().1@),
                    ));
                }
            },
            None => {
            },
        }
        i = i + 1;
    }
    proof {
        assert(lv.subrange(0, lv.len() as int) =~= lv);
    }
    out
}

} // verus!
