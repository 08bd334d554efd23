//! Cast-timeline bookkeeping shared by both peers: where a skill's timeline asset lives, and
//! moving loaded timelines out of the pending list in order.

use vstd::prelude::*;
use crate::text::concat_str;
use vstd::multiset::Multiset;

verus! {

/// Asset path of a skill's cast timeline: `skills/<id>.cast.ron`.
pub fn timeline_path(skill_id: &str) -> (r: String)
    ensures
        r@ == "skills/"@ + skill_id@ + ".cast.ron"@,
{
    let mut p = concat_str("skills/", skill_id);
    p.append(".cast.ron");
    p
}

/// The elements of `s` whose flag equals `want`, in order.
pub open spec fn select_where<T>(s: Seq<T>, flags: Seq<bool>, want: bool) -> Seq<T>
    decreases s.len(),
{
    if s.len() == 0 {
        Seq::empty()
    } else {
        let rest = select_where(s.drop_last(), flags, want);
        if flags[s.len() - 1] == want {
            rest.push(s.last())
        } else {
            rest
        }
    }
}

proof fn lemma_select_prefix<T>(s: Seq<T>, flags: Seq<bool>, want: bool, i: int)
    requires
        0 <= i < s.len(),
    ensures
        select_where(s.take(i + 1), flags, want) == (if flags[i] == want {
            select_where(s.take(i), flags, want).push(s[i])
        } else {
            select_where(s.take(i), flags, want)
        }),
{
    assert(s.take(i + 1).drop_last() =~= s.take(i));
    assert(s.take(i + 1).last() == s[i]);
}

/// Split the pending list by a per-entry loaded flag: `(still pending, loaded)`, each in the
/// original order.
pub fn split_loaded<T>(pending: Vec<T>, loaded: &Vec<bool>) -> (r: (Vec<T>, Vec<T>))
    requires
        loaded@.len() == pending@.len(),
    ensures
        r.0@ == select_where(pending@, loaded@, false),
        r.1@ == select_where(pending@, loaded@, true),
{
    let ghost orig = pending@;
    let n: usize = pending.len();
    let mut rest = pending;
    let mut kept: Vec<T> = Vec::new();
    let mut done: Vec<T> = Vec::new();
    let mut i: usize = 0;
    while i < n
        invariant
            loaded@.len() == orig.len(),
            n == orig.len(),
            i <= n,
            i + rest@.len() == orig.len(),
            rest@ == orig.skip(i as int),
            kept@ == select_where(orig.take(i as int), loaded@, false),
            done@ == select_where(orig.take(i as int), loaded@, true),
        decreases n - i,
    {
        proof {
            lemma_select_prefix(orig, loaded@, false, i as int);
            lemma_select_prefix(orig, loaded@, true, i as int);
            assert(rest@[0] == orig[i as int]);
        }
        let x = rest.remove(0);
        if loaded[i] {
            done.push(x);
        } else {
            kept.push(x);
        }
        proof {
            assert(rest@ =~= orig.skip(i + 1));
        }
        i = i + 1;
    }
    proof {
        assert(orig.take(i as int) =~= orig);
    }
    (kept, done)
}

/// A poll moves exactly the loaded entries: each entry lands on the side its flag names, so when
/// every entry is loaded all of them move and none stays pending, and when none is loaded all
/// stay pending.
pub proof fn lemma_split_loaded_follows_flags<T>(s: Seq<T>, flags: Seq<bool>)
    requires
        flags.len() >= s.len(),
    ensures
        select_where(s, flags, true).len() + select_where(s, flags, false).len() == s.len(),
        (forall|i: int| 0 <= i < s.len() ==> flags[i]) ==> select_where(s, flags, true) == s
            && select_where(s, flags, false) == Seq::<T>::empty(),
        (forall|i: int| 0 <= i < s.len() ==> !flags[i]) ==> select_where(s, flags, false) == s
            && select_where(s, flags, true) == Seq::<T>::empty(),
    decreases s.len(),
{
    if s.len() > 0 {
        lemma_split_loaded_follows_flags(s.drop_last(), flags);
        assert(s.drop_last().push(s.last()) =~= s);
    }
}

/// Nothing is lost or duplicated by a poll: the still-pending and the loaded entries together
/// are exactly the entries polled.
pub proof fn lemma_split_loaded_partitions<T>(s: Seq<T>, flags: Seq<bool>)
    requires
        flags.len() >= s.len(),
    ensures
        select_where(s, flags, false).to_multiset().add(select_where(s, flags, true).to_multiset())
            == s.to_multiset(),
    decreases s.len(),
{
    broadcast use vstd::seq_lib::group_to_multiset_ensures;
    if s.len() == 0 {
        assert(select_where(s, flags, false).to_multiset() =~= Multiset::empty());
        assert(select_where(s, flags, true).to_multiset() =~= Multiset::empty());
        assert(s.to_multiset() =~= Multiset::empty());
        assert(Multiset::<T>::empty().add(Multiset::empty()) =~= Multiset::empty());
    } else {
        let p = s.drop_last();
        lemma_split_loaded_partitions(p, flags);
        assert(s =~= p.push(s.last()));
        let f = select_where(p, flags, false);
        let t = select_where(p, flags, true);
        if flags[s.len() - 1] {
            assert(f.to_multiset().add(t.push(s.last()).to_multiset()) =~= f.to_multiset().add(
                t.to_multiset(),
            ).insert(s.last()));
        } else {
            assert(f.push(s.last()).to_multiset().add(t.to_multiset()) =~= f.to_multiset().add(
                t.to_multiset(),
            ).insert(s.last()));
        }
    }
}

} // verus!
