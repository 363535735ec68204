//! Version numbers: dot-separated decimal components, compared numerically.

use vstd::prelude::*;
use crate::text::{split_on, split_str, str_eq};

verus! {

/// Whether `c` is a decimal digit.
pub open spec fn is_digit(c: char) -> bool {
    '0' <= c && c <= '9'
}

/// The number a string of decimal digits writes.
pub open spec fn digits_value(s: Seq<char>) -> int
    decreases s.len(),
{
    if s.len() == 0 {
        0
    } else {
        digits_value(s.drop_last()) * 10 + ((s.last() as int) - ('0' as int))
    }
}

/// Whether all characters of `s` are decimal digits.
pub open spec fn all_digits(s: Seq<char>) -> bool {
    forall|i: int| 0 <= i < s.len() ==> is_digit(#[trigger] s[i])
}

/// A component of a version: one or more digits, writing a number that fits
/// in 64 bits.
pub open spec fn valid_component(s: Seq<char>) -> bool {
    s.len() > 0 && all_digits(s) && digits_value(s) <= u64::MAX
}

/// The numbers of a version such as `1.2.10`; none when a component is not a
/// number.
pub open spec fn parse_version_spec(s: Seq<char>) -> Option<Seq<int>> {
    let pieces = split_on(s, '.');
    if forall|i: int| 0 <= i < pieces.len() ==> valid_component(#[trigger] pieces[i]) {
        Some(pieces.map_values(|p: Seq<char>| digits_value(p)))
    } else {
        None
    }
}

/// The first number of a version, a missing one counting as 0.
pub open spec fn head_or_zero(a: Seq<int>) -> int {
    if a.len() > 0 {
        a[0]
    } else {
        0
    }
}

/// A version without its first number.
pub open spec fn tail_of(a: Seq<int>) -> Seq<int> {
    if a.len() > 0 {
        a.drop_first()
    } else {
        a
    }
}

/// Whether version numbers `a` come before `b`: compared number by number
/// from the first, missing numbers counting as 0 (so `1.0` and `1.0.0` are
/// the same version).
pub open spec fn numbers_lt(a: Seq<int>, b: Seq<int>) -> bool
    decreases a.len() + b.len(),
{
    if a.len() == 0 && b.len() == 0 {
        false
    } else if head_or_zero(a) < head_or_zero(b) {
        true
    } else if head_or_zero(a) > head_or_zero(b) {
        false
    } else {
        numbers_lt(tail_of(a), tail_of(b))
    }
}

/// Whether the installed version is older than the current one: by their
/// numbers when both are dot-separated numbers, else whenever they differ.
pub open spec fn version_older(installed: Seq<char>, current: Seq<char>) -> bool {
    match (parse_version_spec(installed), parse_version_spec(current)) {
        (Some(a), Some(b)) => numbers_lt(a, b),
        _ => installed != current,
    }
}

/// No version comes before itself.
pub proof fn lemma_numbers_lt_irreflexive(a: Seq<int>)
    ensures
        !numbers_lt(a, a),
    decreases a.len(),
{
    if a.len() > 0 {
        lemma_numbers_lt_irreflexive(tail_of(a));
    }
}

/// Of two versions, at most one comes before the other.
pub proof fn lemma_numbers_lt_asymmetric(a: Seq<int>, b: Seq<int>)
    ensures
        !(numbers_lt(a, b) && numbers_lt(b, a)),
    decreases a.len() + b.len(),
{
    if !(a.len() == 0 && b.len() == 0) && head_or_zero(a) == head_or_zero(b) {
        lemma_numbers_lt_asymmetric(tail_of(a), tail_of(b));
    }
}

proof fn lemma_digits_monotone(s: Seq<char>, i: int, j: int)
    requires
        all_digits(s),
        0 <= i <= j <= s.len(),
    ensures
        digits_value(s.take(i)) <= digits_value(s.take(j)),
        0 <= digits_value(s.take(j)),
    decreases j,
{
    if j > 0 {
        assert(s.take(j).drop_last() =~= s.take(j - 1));
        assert(is_digit(s[j - 1]));
        if i < j {
            lemma_digits_monotone(s, i, j - 1);
        } else {
            lemma_digits_monotone(s, j - 1, j - 1);
        }
    } else {
        assert(s.take(0) =~= Seq::<char>::empty());
    }
}

/// The number a version component writes, when it is a valid component.
pub fn parse_component(s: &str) -> (r: Option<u64>)
    ensures
        match r {
            Some(v) => valid_component(s@) && v as int == digits_value(s@),
            None => !valid_component(s@),
        },
{
    let n = s.unicode_len();
    if n == 0 {
        return None;
    }
    let mut v: u64 = 0;
    let mut i: usize = 0;
    assert(s@.take(0) =~= Seq::<char>::empty());
    while i < n
        invariant
            n == s@.len(),
            i <= n,
            forall|k: int| 0 <= k < i ==> is_digit(#[trigger] s@[k]),
            v as int == digits_value(s@.take(i as int)),
        decreases n - i,
    {
        let c = s.get_char(i);
        if !('0' <= c && c <= '9') {
            return None;
        }
        assert(s@.take(i + 1).drop_last() =~= s@.take(i as int));
        let d: u64 = ((c as u32) - ('0' as u32)) as u64;
        let next = match v.checked_mul(10) {
            Some(m) => m.checked_add(d),
            None => None,
        };
        match next {
            Some(w) => {
                v = w;
            },
            None => {
                proof {
                    if all_digits(s@) {
                        lemma_digits_monotone(s@, i + 1, n as int);
                        assert(s@.take(n as int) =~= s@);
                        lemma_digits_monotone(s@, 0, i as int);
                    }
                }
                return None;
            },
        }
        i += 1;
    }
    assert(s@.take(n as int) =~= s@);
    Some(v)
}

/// The numbers of a version, when each of its dot-separated components is a
/// number.
pub fn parse_version(s: &str) -> (r: Option<Vec<u64>>)
    ensures
        match r {
            Some(v) => parse_version_spec(s@) == Some(v@.map_values(|x: u64| x as int)),
            None => parse_version_spec(s@) is None,
        },
{
    let pieces = split_str(s, '.');
    let ghost ps = split_on(s@, '.');
    let mut v: Vec<u64> = Vec::new();
    let mut i: usize = 0;
    while i < pieces.len()
        invariant
            pieces.deep_view() == ps,
            ps == split_on(s@, '.'),
            i <= pieces.len(),
            v@.len() == i,
            forall|k: int| 0 <= k < i ==> valid_component(#[trigger] ps[k]),
            forall|k: int| 0 <= k < i ==> v@[k] as int == digits_value(#[trigger] ps[k]),
        decreases pieces.len() - i,
    {
        assert(ps[i as int] == pieces[i as int]@);
        match parse_component(pieces[i].as_str()) {
            Some(x) => {
                v.push(x);
            },
            None => {
                return None;
            },
        }
        i += 1;
    }
    assert(v@.map_values(|x: u64| x as int) =~= ps.map_values(|p: Seq<char>| digits_value(p)));
    Some(v)
}

/// The numbers of `v` from position `i` on.
pub open spec fn from_position(v: Seq<int>, i: int) -> Seq<int> {
    if i <= v.len() {
        v.skip(i)
    } else {
        Seq::empty()
    }
}

/// Whether version numbers `a` come before `b`.
pub fn numbers_less(a: &Vec<u64>, b: &Vec<u64>) -> (r: bool)
    ensures
        r == numbers_lt(a@.map_values(|x: u64| x as int), b@.map_values(|x: u64| x as int)),
{
    let ghost av = a@.map_values(|x: u64| x as int);
    let ghost bv = b@.map_values(|x: u64| x as int);
    let n = if a.len() > b.len() { a.len() } else { b.len() };
    let mut i: usize = 0;
    assert(from_position(av, 0) =~= av);
    assert(from_position(bv, 0) =~= bv);
    while i < n
        invariant
            av == a@.map_values(|x: u64| x as int),
            bv == b@.map_values(|x: u64| x as int),
            n == if a.len() > b.len() { a.len() } else { b.len() },
            i <= n,
            numbers_lt(av, bv) == numbers_lt(from_position(av, i as int), from_position(bv, i as int)),
        decreases n - i,
    {
        let x: u64 = if i < a.len() { a[i] } else { 0 };
        let y: u64 = if i < b.len() { b[i] } else { 0 };
        let ghost fa = from_position(av, i as int);
        let ghost fb = from_position(bv, i as int);
        assert(head_or_zero(fa) == x as int);
        assert(head_or_zero(fb) == y as int);
        if x < y {
            return true;
        }
        if x > y {
            return false;
        }
        assert(tail_of(fa) =~= from_position(av, i + 1));
        assert(tail_of(fb) =~= from_position(bv, i + 1));
        i += 1;
    }
    assert(from_position(av, i as int).len() == 0);
    assert(from_position(bv, i as int).len() == 0);
    false
}

/// Whether the installed version is older than the current one.
pub fn is_older(installed: &str, current: &str) -> (r: bool)
    ensures
        r == version_older(installed@, current@),
{
    match (parse_version(installed), parse_version(current)) {
        (Some(a), Some(b)) => numbers_less(&a, &b),
        _ => !str_eq(installed, current),
    }
}

} // verus!
