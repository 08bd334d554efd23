//! Lexicographic order on strings and an insertion sort keyed by a string.

use vstd::prelude::*;
use crate::text::{seq_lt, seq_le};
use vstd::multiset::Multiset;

verus! {

broadcast use vstd::seq_lib::group_to_multiset_ensures;

proof fn lemma_char_u32(x: char, y: char)
    ensures
        x != y ==> (x as u32) != (y as u32),
{
    assert(x != y ==> (x as int) != (y as int));
}

/// `seq_lt` is irreflexive.
pub proof fn lemma_lt_irreflexive(a: Seq<char>)
    ensures
        !seq_lt(a, a),
    decreases a.len(),
{
    if a.len() > 0 {
        lemma_lt_irreflexive(a.drop_first());
    }
}

/// `seq_lt` is asymmetric and total on distinct sequences.
pub proof fn lemma_lt_trichotomy(a: Seq<char>, b: Seq<char>)
    ensures
        seq_lt(a, b) ==> !seq_lt(b, a),
        a != b ==> seq_lt(a, b) || seq_lt(b, a),
    decreases a.len(),
{
    if a.len() > 0 && b.len() > 0 {
        lemma_lt_trichotomy(a.drop_first(), b.drop_first());
        if a[0] == b[0] && a.drop_first() == b.drop_first() {
            assert(a =~= seq![a[0]] + a.drop_first());
            assert(b =~= seq![b[0]] + b.drop_first());
        }
        if a[0] != b[0] {
            lemma_char_u32(a[0], b[0]);
        }
    } else if a.len() == 0 && b.len() == 0 {
        assert(a =~= b);
    }
}

/// `seq_lt` is transitive.
pub proof fn lemma_lt_transitive(a: Seq<char>, b: Seq<char>, c: Seq<char>)
    requires
        seq_lt(a, b),
        seq_lt(b, c),
    ensures
        seq_lt(a, c),
    decreases a.len(),
{
    if a.len() > 0 && b.len() > 0 && c.len() > 0 {
        if a[0] == b[0] && b[0] == c[0] {
            lemma_lt_transitive(a.drop_first(), b.drop_first(), c.drop_first());
        }
    }
}

/// `seq_le` is transitive, and strict when either step is.
pub proof fn lemma_le_transitive(a: Seq<char>, b: Seq<char>, c: Seq<char>)
    requires
        seq_le(a, b),
        seq_le(b, c),
    ensures
        seq_le(a, c),
        seq_lt(a, b) ==> seq_lt(a, c),
        seq_lt(b, c) ==> seq_lt(a, c),
{
    if seq_lt(a, b) && seq_lt(b, c) {
        lemma_lt_transitive(a, b, c);
    }
}

/// Stripping an equal prefix does not change the order.
proof fn lemma_lt_skip(a: Seq<char>, b: Seq<char>, i: int)
    requires
        0 <= i <= a.len(),
        i <= b.len(),
        forall|j: int| 0 <= j < i ==> a[j] == b[j],
    ensures
        seq_lt(a, b) == seq_lt(a.subrange(i, a.len() as int), b.subrange(i, b.len() as int)),
    decreases i,
{
    if i > 0 {
        lemma_lt_skip(a.drop_first(), b.drop_first(), i - 1);
        assert(a.drop_first().subrange(i - 1, a.len() - 1) =~= a.subrange(i, a.len() as int));
        assert(b.drop_first().subrange(i - 1, b.len() - 1) =~= b.subrange(i, b.len() as int));
    } else {
        assert(a.subrange(0, a.len() as int) =~= a);
        assert(b.subrange(0, b.len() as int) =~= b);
    }
}

/// Strict lexicographic comparison of two string slices.
pub fn str_lt(a: &str, b: &str) -> (r: bool)
    ensures
        r == seq_lt(a@, b@),
{
    let n = a.unicode_len();
    let m = b.unicode_len();
    let mut i: usize = 0;
    while i < n && i < m
        invariant
            n == a@.len(),
            m == b@.len(),
            i <= n,
            i <= m,
            forall|j: int| 0 <= j < i ==> a@[j] == b@[j],
        decreases n - i,
    {
        let x = a.get_char(i);
        let y = b.get_char(i);
        if x != y {
            proof {
                lemma_lt_skip(a@, b@, i as int);
                let sa = a@.subrange(i as int, n as int);
                let sb = b@.subrange(i as int, m as int);
                assert(sa[0] == x && sb[0] == y);
            }
            return (x as u32) < (y as u32);
        }
        i = i + 1;
    }
    proof {
        lemma_lt_skip(a@, b@, i as int);
        let sa = a@.subrange(i as int, n as int);
        let sb = b@.subrange(i as int, m as int);
        if i == n {
            assert(sa.len() == 0);
        } else {
            assert(sb.len() == 0);
        }
    }
    i == n && i < m
}

/// A value sorted by a string key.
pub trait Keyed {
    /// The sort key.
    spec fn key(&self) -> Seq<char>;

    /// The sort key as a string slice.
    fn key_str(&self) -> (r: &str)
        ensures
            r@ == self.key(),
    ;
}

impl Keyed for String {
    open spec fn key(&self) -> Seq<char> {
        self@
    }

    fn key_str(&self) -> (r: &str) {
        self.as_str()
    }
}

/// The keys of `s` never decrease.
pub open spec fn sorted_by_key<T: Keyed>(s: Seq<T>) -> bool {
    forall|a: int, b: int| 0 <= a < b < s.len() ==> seq_le(s[a].key(), s[b].key())
}

/// Insertion sort by key: the result is a permutation of the input with non-decreasing
/// keys.
pub fn sort_by_key<T: Keyed>(v: Vec<T>) -> (r: Vec<T>)
    ensures
        sorted_by_key(r@),
        r@.to_multiset() == v@.to_multiset(),
        r@.len() == v@.len(),
{
    let mut rest = v;
    let mut out: Vec<T> = Vec::new();
    let ghost orig = rest@;
    while rest.len() > 0
        invariant
            sorted_by_key(out@),
            out@.to_multiset().add(rest@.to_multiset()) == orig.to_multiset(),
            out@.len() + rest@.len() == orig.len(),
        decreases rest@.len(),
    {
        let ghost before_rest = rest@;
        let ghost before_out = out@;
        let x = rest.remove(0);
        let mut pos: usize = 0;
        while pos < out.len() && !str_lt(x.key_str(), out[pos].key_str())
            invariant
                pos <= out@.len(),
                out@ == before_out,
                forall|a: int| 0 <= a < pos ==> !seq_lt(x.key(), out@[a].key()),
            decreases out@.len() - pos,
        {
            pos = pos + 1;
        }
        out.insert(pos, x);
        proof {
            assert(before_rest.remove(0).to_multiset() == before_rest.to_multiset().remove(before_rest[0]));
            assert(out@.to_multiset().add(rest@.to_multiset()) =~= orig.to_multiset());
            assert forall|a: int, b: int| 0 <= a < b < out@.len() implies seq_le(out@[a].key(), out@[b].key()) by {
                let xk = x.key();
                if b < pos as int {
                    assert(out@[a] == before_out[a]);
                    assert(out@[b] == before_out[b]);
                } else if b == pos as int {
                    assert(out@[a] == before_out[a]);
                    lemma_lt_trichotomy(xk, before_out[a].key());
                } else if a == pos as int {
                    assert(out@[b] == before_out[b - 1]);
                    if pos < before_out.len() {
                        assert(seq_lt(xk, before_out[pos as int].key()));
                        if b - 1 > pos as int {
                            lemma_le_transitive(xk, before_out[pos as int].key(), before_out[b - 1].key());
                        }
                    }
                } else if a > pos as int {
                    assert(out@[a] == before_out[a - 1]);
                    assert(out@[b] == before_out[b - 1]);
                } else {
                    assert(out@[a] == before_out[a]);
                    assert(out@[b] == before_out[b - 1]);
                }
            }
        }
    }
    proof {
        assert(rest@.to_multiset() =~= Multiset::empty());
        assert(out@.to_multiset().add(Multiset::empty()) =~= out@.to_multiset());
    }
    out
}

/// The keys of a sequence, in order.
pub open spec fn keys_of<T: Keyed>(s: Seq<T>) -> Seq<Seq<char>> {
    s.map_values(|x: T| x.key())
}

/// `seq_le` is antisymmetric.
pub proof fn lemma_le_antisymmetric(a: Seq<char>, b: Seq<char>)
    requires
        seq_le(a, b),
        seq_le(b, a),
    ensures
        a == b,
{
    lemma_lt_trichotomy(a, b);
}

/// A key-sorted sequence without its element at `j` is still key-sorted.
proof fn lemma_sorted_remove<T: Keyed>(s: Seq<T>, j: int)
    requires
        sorted_by_key(s),
        0 <= j < s.len(),
    ensures
        sorted_by_key(s.remove(j)),
{
    let r = s.remove(j);
    assert forall|a: int, b: int| 0 <= a < b < r.len() implies seq_le(r[a].key(), r[b].key()) by {
        let sa = if a < j { a } else { a + 1 };
        let sb = if b < j { b } else { b + 1 };
        assert(r[a] == s[sa]);
        assert(r[b] == s[sb]);
    }
}

/// Sorting by key is deterministic: any two key-sorted arrangements of the same items list the
/// same keys in the same order.
pub proof fn lemma_sorted_keys_unique<T: Keyed>(a: Seq<T>, b: Seq<T>)
    requires
        sorted_by_key(a),
        sorted_by_key(b),
        a.to_multiset() == b.to_multiset(),
    ensures
        keys_of(a) == keys_of(b),
    decreases a.len(),
{
    assert(a.len() == a.to_multiset().len());
    assert(b.len() == b.to_multiset().len());
    if a.len() == 0 {
        assert(keys_of(a) =~= keys_of(b));
    } else {
        let x = a[0];
        assert(a.contains(x));
        assert(a.to_multiset().count(x) > 0);
        assert(b.to_multiset().count(x) > 0);
        assert(b.contains(x));
        let j = choose|j: int| 0 <= j < b.len() && b[j] == x;
        assert(b.contains(b[0]));
        assert(b.to_multiset().count(b[0]) > 0);
        assert(a.to_multiset().count(b[0]) > 0);
        assert(a.contains(b[0]));
        let i = choose|i: int| 0 <= i < a.len() && a[i] == b[0];
        assert(seq_le(a[0].key(), a[i].key()));
        assert(seq_le(b[0].key(), b[j].key()));
        lemma_le_antisymmetric(a[0].key(), b[0].key());
        // Every key of b up to position j equals the first key.
        assert forall|k: int| 0 <= k <= j implies #[trigger] b[k].key() == b[0].key() by {
            assert(seq_le(b[0].key(), b[k].key()));
            assert(seq_le(b[k].key(), b[j].key()));
            lemma_le_antisymmetric(b[k].key(), b[0].key());
        }
        let a1 = a.remove(0);
        let b1 = b.remove(j);
        assert(a1.to_multiset() == a.to_multiset().remove(a[0]));
        assert(b1.to_multiset() == b.to_multiset().remove(b[j]));
        lemma_sorted_remove(a, 0);
        lemma_sorted_remove(b, j);
        lemma_sorted_keys_unique(a1, b1);
        assert forall|k: int| 0 <= k < a.len() implies keys_of(a)[k] == keys_of(b)[k] by {
            if k == 0 {
            } else {
                assert(keys_of(a)[k] == a[k].key());
                assert(a1[k - 1] == a[k]);
                assert(keys_of(a1)[k - 1] == keys_of(b1)[k - 1]);
                if k - 1 < j {
                    assert(b1[k - 1] == b[k - 1]);
                    assert(b[k - 1].key() == b[0].key());
                    assert(b[k].key() == b[0].key());
                } else {
                    assert(b1[k - 1] == b[k]);
                }
            }
        }
        assert(keys_of(a) =~= keys_of(b));
    }
}

/// Skill or level ids in ascending order, for deterministic iteration on every peer.
pub fn sort_ids(ids: Vec<String>) -> (r: Vec<String>)
    ensures
        sorted_by_key(r@),
        r@.to_multiset() == ids@.to_multiset(),
        r@.len() == ids@.len(),
{
    sort_by_key(ids)
}

} // verus!
