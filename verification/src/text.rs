//! String helpers over the character view (`@`, a `Seq<char>`) of `str` and `String`.

use vstd::prelude::*;

verus! {

/// Character-wise equality of two string slices.
pub fn str_eq(a: &str, b: &str) -> (r: bool)
    ensures
        r == (a@ == b@),
{
    let x: String = a.to_owned();
    let y: String = b.to_owned();
    x == y
}

/// `s` begins with `p`.
pub open spec fn has_prefix(s: Seq<char>, p: Seq<char>) -> bool {
    p.len() <= s.len() && s.subrange(0, p.len() as int) == p
}

/// Whether `s` begins with `prefix`, character by character.
pub fn starts_with(s: &str, prefix: &str) -> (r: bool)
    ensures
        r == has_prefix(s@, prefix@),
{
    let n = s.unicode_len();
    let m = prefix.unicode_len();
    if m > n {
        return false;
    }
    let mut i: usize = 0;
    while i < m
        invariant
            n == s@.len(),
            m == prefix@.len(),
            m <= n,
            i <= m,
            forall|j: int| 0 <= j < i ==> s@[j] == prefix@[j],
        decreases m - i,
    {
        if s.get_char(i) != prefix.get_char(i) {
            assert(s@.subrange(0, m as int)[i as int] != prefix@[i as int]);
            return false;
        }
        i = i + 1;
    }
    assert(s@.subrange(0, m as int) =~= prefix@);
    true
}

/// `s` with `prefix` removed from its front, when `s` starts with it.
pub fn strip_prefix<'a>(s: &'a str, prefix: &str) -> (r: Option<&'a str>)
    ensures
        match r {
            Some(rest) => has_prefix(s@, prefix@) && rest@ == s@.subrange(
                prefix@.len() as int,
                s@.len() as int,
            ),
            None => !has_prefix(s@, prefix@),
        },
{
    if starts_with(s, prefix) {
        let n = s.unicode_len();
        let m = prefix.unicode_len();
        Some(s.substring_char(m, n))
    } else {
        None
    }
}

/// The concatenation of two string slices as an owned string.
pub fn concat_str(a: &str, b: &str) -> (r: String)
    ensures
        r@ == a@ + b@,
{
    let mut out = String::from_str(a);
    out.append(b);
    out
}

/// Index of the first element of `list` equal to `x`.
pub open spec fn first_index_of(list: Seq<Seq<char>>, x: Seq<char>, r: Option<usize>) -> bool {
    match r {
        Some(i) => i < list.len() && list[i as int] == x && forall|j: int|
            0 <= j < i ==> list[j] != x,
        None => forall|j: int| 0 <= j < list.len() ==> list[j] != x,
    }
}

/// The character views of a list of owned strings.
pub open spec fn views(list: Seq<String>) -> Seq<Seq<char>> {
    list.map_values(|s: String| s@)
}

/// Position of the first string of `list` equal to `x`.
pub fn position_of(list: &Vec<String>, x: &str) -> (r: Option<usize>)
    ensures
        first_index_of(views(list@), x@, r),
{
    let mut i: usize = 0;
    while i < list.len()
        invariant
            i <= list.len(),
            forall|j: int| 0 <= j < i ==> views(list@)[j] != x@,
        decreases list.len() - i,
    {
        if str_eq(list[i].as_str(), x) {
            return Some(i);
        }
        i = i + 1;
    }
    None
}

/// Whether `list` holds a string equal to `x`.
pub fn contains_str(list: &Vec<String>, x: &str) -> (r: bool)
    ensures
        r == views(list@).contains(x@),
{
    let p = position_of(list, x);
    match p {
        Some(i) => {
            assert(views(list@)[i as int] == x@);
            true
        },
        None => false,
    }
}

/// Strict lexicographic order on character sequences, by code point (the order `str`'s own
/// comparison gives, since UTF-8 byte order follows code point order).
pub open spec fn seq_lt(a: Seq<char>, b: Seq<char>) -> bool
    decreases a.len(),
{
    if a.len() == 0 {
        b.len() > 0
    } else if b.len() == 0 {
        false
    } else if (a[0] as u32) < (b[0] as u32) {
        true
    } else if a[0] == b[0] {
        seq_lt(a.drop_first(), b.drop_first())
    } else {
        false
    }
}

/// Non-strict lexicographic order.
pub open spec fn seq_le(a: Seq<char>, b: Seq<char>) -> bool {
    a == b || seq_lt(a, b)
}

} // verus!
