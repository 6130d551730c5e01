//! Searching, replacing and parsing text.
use vstd::prelude::*;
use crate::utils::text::{chars_of, push_char, push_str, string_of};

verus! {

/// Whether `p` occurs in `s` at position `i`.
pub open spec fn occurs_at(s: Seq<char>, p: Seq<char>, i: int) -> bool {
    0 <= i && i + p.len() <= s.len() && s.subrange(i, i + p.len()) == p
}

/// Whether `s` starts with `p`.
pub open spec fn starts_with(s: Seq<char>, p: Seq<char>) -> bool {
    occurs_at(s, p, 0)
}

/// Whether `p` occurs in `s`.
pub open spec fn contains_text(s: Seq<char>, p: Seq<char>) -> bool {
    exists|i: int| occurs_at(s, p, i)
}

/// `s` with every occurrence of the non-empty `p` replaced by `r`, the
/// occurrences found from left to right without overlapping.
pub open spec fn replace_all(s: Seq<char>, p: Seq<char>, r: Seq<char>) -> Seq<char>
    decreases s.len(),
{
    if p.len() == 0 || s.len() < p.len() {
        s
    } else if s.take(p.len() as int) == p {
        r + replace_all(s.skip(p.len() as int), p, r)
    } else {
        seq![s[0]] + replace_all(s.skip(1), p, r)
    }
}

/// Whether `a` and `b` hold the same characters at `a[i..i + n]`, `b[..n]`.
fn matches_at(a: &Vec<char>, i: usize, b: &Vec<char>) -> (r: bool)
    requires
        i + b@.len() <= a@.len(),
    ensures
        r == (a@.subrange(i as int, i + b@.len()) == b@),
{
    let n = a.len();
    let mut j: usize = 0;
    while j < b.len()
        invariant
            0 <= j <= b@.len(),
            n == a@.len(),
            i + b@.len() <= a@.len(),
            forall|k: int| 0 <= k < j ==> a@[i + k] == b@[k],
        decreases b@.len() - j,
    {
        if a[i + j] != b[j] {
            proof {
                assert(a@.subrange(i as int, i + b@.len())[j as int] != b@[j as int]);
            }
            return false;
        }
        j = j + 1;
    }
    proof {
        assert(a@.subrange(i as int, i + b@.len()) =~= b@);
    }
    true
}

/// Whether `s` starts with `p`.
pub fn text_starts_with(s: &str, p: &str) -> (r: bool)
    ensures
        r == starts_with(s@, p@),
{
    let a = chars_of(s);
    let b = chars_of(p);
    if b.len() > a.len() {
        return false;
    }
    matches_at(&a, 0, &b)
}

/// Whether `p` occurs in `s`.
pub fn text_contains(s: &str, p: &str) -> (r: bool)
    ensures
        r == contains_text(s@, p@),
{
    let a = chars_of(s);
    let b = chars_of(p);
    if b.len() > a.len() {
        proof {
            assert forall|i: int| !occurs_at(s@, p@, i) by {}
        }
        return false;
    }
    if b.len() == 0 {
        proof {
            assert(s@.subrange(0, 0) =~= p@);
            assert(occurs_at(s@, p@, 0));
        }
        return true;
    }
    let n = a.len();
    let last = n - b.len();
    let mut i: usize = 0;
    while i <= last
        invariant
            a@ == s@,
            b@ == p@,
            b@.len() <= a@.len(),
            last == a@.len() - b@.len(),
            b@.len() > 0,
            last < a@.len(),
            n == a@.len(),
            i <= last + 1,
            forall|k: int| 0 <= k < i ==> !occurs_at(s@, p@, k),
        decreases last + 1 - i,
    {
        if matches_at(&a, i, &b) {
            proof {
                assert(occurs_at(s@, p@, i as int));
            }
            return true;
        }
        i = i + 1;
    }
    proof {
        assert forall|k: int| !occurs_at(s@, p@, k) by {
            if 0 <= k < i {
            }
        }
    }
    false
}

/// `s` with every occurrence of `p` replaced by `r`.
pub fn replace_text(s: &str, p: &str, r: &str) -> (out: String)
    requires
        p@.len() > 0,
    ensures
        out@ == replace_all(s@, p@, r@),
{
    let a = chars_of(s);
    let b = chars_of(p);
    let mut out = String::new();
    let mut i: usize = 0;
    proof {
        assert(s@.skip(0) =~= s@);
    }
    while i < a.len()
        invariant
            0 <= i <= a@.len(),
            a@ == s@,
            b@ == p@,
            b@.len() > 0,
            out@ + replace_all(s@.skip(i as int), p@, r@) == replace_all(s@, p@, r@),
        decreases a@.len() - i,
    {
        let ghost rest = s@.skip(i as int);
        if b.len() <= a.len() - i && matches_at(&a, i, &b) {
            proof {
                assert(rest.take(p@.len() as int) =~= a@.subrange(i as int, i + b@.len()));
                assert(rest.skip(p@.len() as int) =~= s@.skip(i + b@.len()));
            }
            push_str(&mut out, r);
            i = i + b.len();
        } else {
            proof {
                if rest.len() >= p@.len() {
                    assert(rest.take(p@.len() as int) =~= a@.subrange(i as int, i + b@.len()));
                }
                assert(rest.skip(1) =~= s@.skip(i + 1));
            }
            push_char(&mut out, a[i]);
            i = i + 1;
        }
        proof {
            assert(out@ + replace_all(s@.skip(i as int), p@, r@) =~= replace_all(s@, p@, r@));
        }
    }
    proof {
        assert(s@.skip(a@.len() as int) =~= Seq::<char>::empty());
        assert(out@ =~= replace_all(s@, p@, r@));
    }
    out
}

/// Whether a character is an ASCII digit.
pub open spec fn is_digit(c: char) -> bool {
    '0' <= c <= '9'
}

/// The value of a run of digits.
pub open spec fn digits_value(s: Seq<char>) -> nat
    decreases s.len(),
{
    if s.len() == 0 {
        0
    } else {
        digits_value(s.drop_last()) * 10 + ((s.last() as u32) - ('0' as u32)) as nat
    }
}

/// Whether `s` is a non-empty run of digits.
pub open spec fn all_digits(s: Seq<char>) -> bool {
    s.len() > 0 && forall|i: int| 0 <= i < s.len() ==> is_digit(#[trigger] s[i])
}

/// The number that `s` writes in decimal, with an optional sign (`-` only
/// when `signed`); `None` on anything else.
pub open spec fn parse_decimal(s: Seq<char>, signed: bool) -> Option<int> {
    if s.len() > 0 && s[0] == '-' && signed {
        if all_digits(s.drop_first()) {
            Some(-digits_value(s.drop_first()))
        } else {
            None
        }
    } else if s.len() > 0 && s[0] == '+' {
        if all_digits(s.drop_first()) {
            Some(digits_value(s.drop_first()) as int)
        } else {
            None
        }
    } else if all_digits(s) {
        Some(digits_value(s) as int)
    } else {
        None
    }
}

/// `str::parse` into an integer type with the range `lo..=hi`: the number
/// when it is written correctly and lies in the range.
pub open spec fn parse_in(s: Seq<char>, lo: int, hi: int) -> Option<int> {
    match parse_decimal(s, lo < 0) {
        Some(v) => if lo <= v <= hi {
            Some(v)
        } else {
            None
        },
        None => None,
    }
}

/// The digit values of a prefix never exceed those of the whole run.
proof fn lemma_digits_grow(s: Seq<char>, n: int)
    requires
        0 <= n <= s.len(),
    ensures
        digits_value(s.take(n)) <= digits_value(s),
    decreases s.len() - n,
{
    if n < s.len() {
        lemma_digits_grow(s, n + 1);
        assert(s.take(n + 1).drop_last() =~= s.take(n));
        assert(digits_value(s.take(n + 1)) >= digits_value(s.take(n)));
    } else {
        assert(s.take(n) =~= s);
    }
}

/// The value of the digits `s[from..]`, when they are all digits and the
/// value is at most `cap`.
fn digits_upto(s: &Vec<char>, from: usize, cap: u64) -> (r: Option<u64>)
    requires
        from <= s@.len(),
    ensures
        match r {
            Some(v) => all_digits(s@.skip(from as int)) && v == digits_value(s@.skip(from as int))
                && v <= cap,
            None => !all_digits(s@.skip(from as int)) || digits_value(s@.skip(from as int)) > cap,
        },
{
    let ghost t = s@.skip(from as int);
    if from == s.len() {
        return None;
    }
    let mut acc: u128 = 0;
    let mut i: usize = from;
    while i < s.len()
        invariant
            from <= i <= s@.len(),
            t == s@.skip(from as int),
            acc <= cap,
            acc == digits_value(t.take(i - from)),
            forall|k: int| 0 <= k < i - from ==> is_digit(#[trigger] t[k]),
        decreases s@.len() - i,
    {
        let c = s[i];
        if !('0' <= c && c <= '9') {
            proof {
                assert(!is_digit(t[i - from]));
            }
            return None;
        }
        let d = (c as u32 - '0' as u32) as u128;
        proof {
            assert(t.take(i - from + 1).drop_last() =~= t.take(i - from));
            assert(t.take(i - from + 1).last() == c);
        }
        let next = acc * 10 + d;
        if next > cap as u128 {
            proof {
                lemma_digits_grow(t, i - from + 1);
            }
            return None;
        }
        acc = next;
        i = i + 1;
    }
    proof {
        assert(t.take(i - from) =~= t);
    }
    Some(acc as u64)
}

/// `str::parse` into an integer type with the range `lo..=hi`.
pub fn parse_int(s: &str, lo: i64, hi: i64) -> (r: Option<i64>)
    requires
        lo <= 0 <= hi,
    ensures
        match r {
            Some(v) => parse_in(s@, lo as int, hi as int) == Some(v as int),
            None => parse_in(s@, lo as int, hi as int) is None,
        },
{
    let cs = chars_of(s);
    if cs.len() > 0 && cs[0] == '-' && lo < 0 {
        let bound: u64 = (-(lo as i128)) as u64;
        match digits_upto(&cs, 1, bound) {
            Some(v) => {
                proof {
                    assert(cs@.skip(1) =~= s@.drop_first());
                }
                Some((-(v as i128)) as i64)
            },
            None => {
                proof {
                    assert(cs@.skip(1) =~= s@.drop_first());
                }
                None
            },
        }
    } else if cs.len() > 0 && cs[0] == '+' {
        proof {
            assert(cs@.skip(1) =~= s@.drop_first());
        }
        match digits_upto(&cs, 1, hi as u64) {
            Some(v) => Some(v as i64),
            None => None,
        }
    } else {
        proof {
            assert(cs@.skip(0) =~= s@);
        }
        match digits_upto(&cs, 0, hi as u64) {
            Some(v) => Some(v as i64),
            None => None,
        }
    }
}

} // verus!
