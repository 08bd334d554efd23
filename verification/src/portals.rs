//! Portal pairing: portals are per-owner (orange + blue of the same caster) and work only when
//! BOTH ends exist. The collector is shared by the authoritative and the predicted teleport, so
//! its output order is deterministic: ascending owner id.

use vstd::prelude::*;
use crate::text::str_eq;

verus! {

/// Skill-object kind of the orange portal end.
pub const KIND_PORTAL_ORANGE: &'static str = "portal_orange";
/// Skill-object kind of the blue portal end.
pub const KIND_PORTAL_BLUE: &'static str = "portal_blue";

/// Which end of a pair a portal is.
#[derive(Clone, Copy, PartialEq, Eq, Structural, Debug)]
pub enum PortalKind {
    Orange,
    Blue,
}

/// The portal end a skill-object kind names, if it names one.
pub fn portal_kind_of(kind: &str) -> (r: Option<PortalKind>)
    ensures
        r == (if kind@ == KIND_PORTAL_ORANGE@ {
            Some(PortalKind::Orange)
        } else if kind@ == KIND_PORTAL_BLUE@ {
            Some(PortalKind::Blue)
        } else {
            None
        }),
{
    if str_eq(kind, KIND_PORTAL_ORANGE) {
        Some(PortalKind::Orange)
    } else if str_eq(kind, KIND_PORTAL_BLUE) {
        Some(PortalKind::Blue)
    } else {
        None
    }
}

/// A complete pair: the owner and the indices (into the collector's input) of its orange and
/// blue ends.
#[derive(Clone, Copy, PartialEq, Eq, Structural, Debug)]
pub struct PortalPair {
    pub owner: u64,
    pub orange: usize,
    pub blue: usize,
}

/// The last index below `upto` holding `owner`'s end of `kind` (a later placement replaces an
/// earlier one).
pub open spec fn last_of(s: Seq<(u64, Option<PortalKind>)>, owner: u64, kind: PortalKind, upto: nat) -> Option<usize>
    decreases upto,
{
    if upto == 0 {
        None
    } else if s[upto - 1] == (owner, Some(kind)) {
        Some((upto - 1) as usize)
    } else {
        last_of(s, owner, kind, (upto - 1) as nat)
    }
}

/// `owner`'s complete pair in `s`, if both ends are present.
pub open spec fn pair_of(s: Seq<(u64, Option<PortalKind>)>, owner: u64) -> Option<(usize, usize)> {
    match (last_of(s, owner, PortalKind::Orange, s.len()), last_of(s, owner, PortalKind::Blue, s.len())) {
        (Some(o), Some(b)) => Some((o, b)),
        _ => None,
    }
}

/// Per-owner slots while scanning.
#[derive(Clone, Copy, PartialEq, Eq, Structural, Debug)]
struct Slots {
    owner: u64,
    orange: Option<usize>,
    blue: Option<usize>,
}

proof fn lemma_last_of_bound(s: Seq<(u64, Option<PortalKind>)>, owner: u64, kind: PortalKind, upto: nat)
    requires
        upto <= s.len(),
        s.len() <= usize::MAX,
    ensures
        match last_of(s, owner, kind, upto) {
            Some(i) => i < upto && s[i as int] == (owner, Some(kind)),
            None => forall|j: int| 0 <= j < upto ==> s[j] != (owner, Some(kind)),
        },
    decreases upto,
{
    if upto > 0 {
        lemma_last_of_bound(s, owner, kind, (upto - 1) as nat);
    }
}

/// Complete per-owner pairs of a tagged stream (entries that are no portal end are skipped),
/// ascending by owner, each holding the latest placed orange and blue end of that owner.
fn pair_slots(portals: &Vec<(u64, Option<PortalKind>)>) -> (r: Vec<PortalPair>)
    ensures
        forall|a: int, b: int| 0 <= a < b < r@.len() ==> r@[a].owner < r@[b].owner,
        forall|a: int|
            0 <= a < r@.len() ==> pair_of(portals@, #[trigger] r@[a].owner) == Some(
                (r@[a].orange, r@[a].blue),
            ),
        forall|o: u64|
            #[trigger] pair_of(portals@, o) is Some ==> exists|a: int|
                0 <= a < r@.len() && r@[a].owner == o,
{
    let ghost s = portals@;
    let mut entries: Vec<Slots> = Vec::new();
    let mut i: usize = 0;
    while i < portals.len()
        invariant
            s == portals@,
            i <= s.len(),
            forall|a: int, b: int| 0 <= a < b < entries@.len() ==> entries@[a].owner < entries@[b].owner,
            forall|a: int|
                0 <= a < entries@.len() ==> (#[trigger] entries@[a]).orange == last_of(
                    s,
                    entries@[a].owner,
                    PortalKind::Orange,
                    i as nat,
                ) && entries@[a].blue == last_of(s, entries@[a].owner, PortalKind::Blue, i as nat),
            forall|j: int|
                0 <= j < i && s[j].1 is Some ==> exists|a: int|
                    0 <= a < entries@.len() && (#[trigger] entries@[a]).owner == (#[trigger] s[j]).0,
        decreases s.len() - i,
    {
        let (o, kind_opt) = portals[i];
        if kind_opt.is_none() {
            i = i + 1;
            continue;
        }
        let kind = kind_opt.unwrap();
        let mut pos: usize = 0;
        while pos < entries.len() && entries[pos].owner < o
            invariant
                pos <= entries@.len(),
                forall|a: int| 0 <= a < pos ==> entries@[a].owner < o,
            decreases entries@.len() - pos,
        {
            pos = pos + 1;
        }
        let ghost old_entries = entries@;
        if pos < entries.len() && entries[pos].owner == o {
            let mut e = entries[pos];
            match kind {
                PortalKind::Orange => {
                    e.orange = Some(i);
                },
                PortalKind::Blue => {
                    e.blue = Some(i);
                },
            }
            entries.set(pos, e);
            proof {
                assert forall|a: int| 0 <= a < entries@.len() implies (#[trigger] entries@[a]).orange
                    == last_of(s, entries@[a].owner, PortalKind::Orange, (i + 1) as nat)
                    && entries@[a].blue == last_of(s, entries@[a].owner, PortalKind::Blue, (i + 1) as nat) by {
                    if a != pos as int {
                        assert(entries@[a] == old_entries[a]);
                        if a < pos as int {
                            assert(old_entries[a].owner < o);
                        } else {
                            assert(old_entries[pos as int].owner < old_entries[a].owner);
                        }
                    }
                }
                assert forall|j: int| 0 <= j < i + 1 && s[j].1 is Some implies exists|a: int|
                    0 <= a < entries@.len() && (#[trigger] entries@[a]).owner == (#[trigger] s[j]).0 by {
                    if j == i as int {
                        assert(entries@[pos as int].owner == s[j].0);
                    } else {
                        let a = choose|a: int| 0 <= a < old_entries.len() && old_entries[a].owner == s[j].0;
                        assert(entries@[a].owner == old_entries[a].owner);
                    }
                }
            }
        } else {
            let e = match kind {
                PortalKind::Orange => Slots { owner: o, orange: Some(i), blue: None },
                PortalKind::Blue => Slots { owner: o, orange: None, blue: Some(i) },
            };
            entries.insert(pos, e);
            proof {
                assert forall|a: int| 0 <= a < entries@.len() implies (#[trigger] entries@[a]).orange
                    == last_of(s, entries@[a].owner, PortalKind::Orange, (i + 1) as nat)
                    && entries@[a].blue == last_of(s, entries@[a].owner, PortalKind::Blue, (i + 1) as nat) by {
                    if a < pos as int {
                        assert(entries@[a] == old_entries[a]);
                        assert(old_entries[a].owner < o);
                    } else if a > pos as int {
                        assert(entries@[a] == old_entries[a - 1]);
                        assert(old_entries[a - 1].owner != o);
                    } else {
                        lemma_last_of_bound(s, o, PortalKind::Orange, i as nat);
                        lemma_last_of_bound(s, o, PortalKind::Blue, i as nat);
                        if last_of(s, o, PortalKind::Orange, i as nat) is Some {
                            let j = last_of(s, o, PortalKind::Orange, i as nat)->0 as int;
                            let b = choose|b: int| 0 <= b < old_entries.len() && old_entries[b].owner == s[j].0;
                            if b < pos as int {
                                assert(old_entries[b].owner < o);
                            } else {
                                assert(old_entries[pos as int].owner <= old_entries[b].owner);
                            }
                        }
                        if last_of(s, o, PortalKind::Blue, i as nat) is Some {
                            let j = last_of(s, o, PortalKind::Blue, i as nat)->0 as int;
                            let b = choose|b: int| 0 <= b < old_entries.len() && old_entries[b].owner == s[j].0;
                            if b < pos as int {
                                assert(old_entries[b].owner < o);
                            } else {
                                assert(old_entries[pos as int].owner <= old_entries[b].owner);
                            }
                        }
                    }
                }
                assert forall|a: int, b: int| 0 <= a < b < entries@.len() implies entries@[a].owner < entries@[b].owner by {
                    if b < pos as int {
                        assert(entries@[a] == old_entries[a]);
                        assert(entries@[b] == old_entries[b]);
                    } else if b == pos as int {
                        assert(entries@[a] == old_entries[a]);
                    } else if a == pos as int {
                        assert(entries@[b] == old_entries[b - 1]);
                    } else if a > pos as int {
                        assert(entries@[a] == old_entries[a - 1]);
                        assert(entries@[b] == old_entries[b - 1]);
                    } else {
                        assert(entries@[a] == old_entries[a]);
                        assert(entries@[b] == old_entries[b - 1]);
                        assert(old_entries[a].owner < o);
                    }
                }
                assert forall|j: int| 0 <= j < i + 1 && s[j].1 is Some implies exists|a: int|
                    0 <= a < entries@.len() && (#[trigger] entries@[a]).owner == (#[trigger] s[j]).0 by {
                    if j == i as int {
                        assert(entries@[pos as int].owner == s[j].0);
                    } else {
                        let a = choose|a: int| 0 <= a < old_entries.len() && old_entries[a].owner == s[j].0;
                        if a < pos as int {
                            assert(entries@[a] == old_entries[a]);
                        } else {
                            assert(entries@[a + 1] == old_entries[a]);
                        }
                    }
                }
            }
        }
        i = i + 1;
    }
    let mut out: Vec<PortalPair> = Vec::new();
    let mut k: usize = 0;
    while k < entries.len()
        invariant
            s == portals@,
            k <= entries@.len(),
            forall|a: int, b: int| 0 <= a < b < entries@.len() ==> entries@[a].owner < entries@[b].owner,
            forall|a: int|
                0 <= a < entries@.len() ==> (#[trigger] entries@[a]).orange == last_of(
                    s,
                    entries@[a].owner,
                    PortalKind::Orange,
                    s.len(),
                ) && entries@[a].blue == last_of(s, entries@[a].owner, PortalKind::Blue, s.len()),
            forall|j: int|
                0 <= j < s.len() && s[j].1 is Some ==> exists|a: int|
                    0 <= a < entries@.len() && (#[trigger] entries@[a]).owner == (#[trigger] s[j]).0,
            forall|a: int, b: int| 0 <= a < b < out@.len() ==> out@[a].owner < out@[b].owner,
            forall|t: int|
                0 <= t < out@.len() ==> exists|a: int|
                    0 <= a < k && (#[trigger] entries@[a]).owner == (#[trigger] out@[t]).owner,
            forall|a: int|
                0 <= a < out@.len() ==> pair_of(s, #[trigger] out@[a].owner) == Some(
                    (out@[a].orange, out@[a].blue),
                ),
            forall|a: int|
                0 <= a < k && (#[trigger] entries@[a]).orange is Some && entries@[a].blue is Some
                    ==> exists|t: int| 0 <= t < out@.len() && out@[t].owner == entries@[a].owner,
        decreases entries@.len() - k,
    {
        let e = entries[k];
        match (e.orange, e.blue) {
            (Some(oi), Some(bi)) => {
                let ghost old_out = out@;
                out.push(PortalPair { owner: e.owner, orange: oi, blue: bi });
                proof {
                    assert forall|a: int, b: int| 0 <= a < b < out@.len() implies out@[a].owner < out@[b].owner by {
                        if b == old_out.len() as int {
                            assert(out@[a] == old_out[a]);
                            let x = choose|x: int| 0 <= x < k && entries@[x].owner == old_out[a].owner;
                        } else {
                            assert(out@[a] == old_out[a]);
                            assert(out@[b] == old_out[b]);
                        }
                    }
                    assert forall|t: int| 0 <= t < out@.len() implies exists|a: int|
                        0 <= a < k + 1 && (#[trigger] entries@[a]).owner == (#[trigger] out@[t]).owner by {
                        if t == old_out.len() as int {
                            assert(entries@[k as int].owner == out@[t].owner);
                        } else {
                            assert(out@[t] == old_out[t]);
                            let x = choose|x: int| 0 <= x < k && entries@[x].owner == old_out[t].owner;
                            assert(entries@[x].owner == out@[t].owner);
                        }
                    }
                    assert forall|a: int|
                        0 <= a < k + 1 && (#[trigger] entries@[a]).orange is Some && entries@[a].blue is Some
                        implies exists|t: int| 0 <= t < out@.len() && out@[t].owner == entries@[a].owner by {
                        if a == k as int {
                            assert(out@[old_out.len() as int].owner == entries@[a].owner);
                        } else {
                            let t = choose|t: int| 0 <= t < old_out.len() && old_out[t].owner == entries@[a].owner;
                            assert(out@[t] == old_out[t]);
                        }
                    }
                }
            },
            _ => {},
        }
        k = k + 1;
    }
    proof {
        assert forall|o: u64| #[trigger] pair_of(s, o) is Some implies exists|a: int|
            0 <= a < out@.len() && out@[a].owner == o by {
            let j = last_of(s, o, PortalKind::Orange, s.len())->0 as int;
            lemma_last_of_bound(s, o, PortalKind::Orange, s.len());
            let a = choose|a: int| 0 <= a < entries@.len() && entries@[a].owner == s[j].0;
            assert(entries@[a].owner == o);
        }
    }
    out
}

/// The portal end a skill-object kind names, as a spec.
pub open spec fn kind_spec(kind: Seq<char>) -> Option<PortalKind> {
    if kind == KIND_PORTAL_ORANGE@ {
        Some(PortalKind::Orange)
    } else if kind == KIND_PORTAL_BLUE@ {
        Some(PortalKind::Blue)
    } else {
        None
    }
}

/// The live skill objects `(owner, kind)` tagged with the portal end each names.
pub open spec fn tagged(objects: Seq<(u64, String)>) -> Seq<(u64, Option<PortalKind>)> {
    objects.map_values(|e: (u64, String)| (e.0, kind_spec(e.1@)))
}

/// Complete per-owner portal pairs of the live skill objects `(owner, kind)`: objects of other
/// kinds are ignored; the result is ascending by owner, and each pair holds the indices (into
/// `objects`) of that owner's latest placed orange and blue end. Every owner with both ends has
/// a pair.
pub fn collect_pairs(objects: &Vec<(u64, String)>) -> (r: Vec<PortalPair>)
    ensures
        forall|a: int, b: int| 0 <= a < b < r@.len() ==> r@[a].owner < r@[b].owner,
        forall|a: int|
            0 <= a < r@.len() ==> pair_of(tagged(objects@), #[trigger] r@[a].owner) == Some(
                (r@[a].orange, r@[a].blue),
            ),
        forall|o: u64|
            #[trigger] pair_of(tagged(objects@), o) is Some ==> exists|a: int|
                0 <= a < r@.len() && r@[a].owner == o,
{
    let mut t: Vec<(u64, Option<PortalKind>)> = Vec::new();
    let mut i: usize = 0;
    while i < objects.len()
        invariant
            i <= objects@.len(),
            t@ == tagged(objects@).take(i as int),
        decreases objects@.len() - i,
    {
        let k = portal_kind_of(objects[i].1.as_str());
        t.push((objects[i].0, k));
        proof {
            assert(t@ =~= tagged(objects@).take(i + 1));
        }
        i = i + 1;
    }
    proof {
        assert(t@ =~= tagged(objects@));
    }
    pair_slots(&t)
}

/// A later placement of an owner's end replaces the earlier one, and one end alone never forms
/// a pair.
pub proof fn lemma_pairs_take_latest_and_need_both(s: Seq<(u64, Option<PortalKind>)>, owner: u64)
    ensures
        last_of(s, owner, PortalKind::Blue, s.len()) is None ==> pair_of(s, owner) is None,
        last_of(s, owner, PortalKind::Orange, s.len()) is None ==> pair_of(s, owner) is None,
        pair_of(s.push((owner, Some(PortalKind::Orange))), owner) == match last_of(s, owner, PortalKind::Blue, s.len()) {
            Some(b) => Some((s.len() as usize, b)),
            None => None::<(usize, usize)>,
        },
{
    let t = s.push((owner, Some(PortalKind::Orange)));
    assert(t[s.len() as int] == (owner, Some(PortalKind::Orange)));
    assert(t[s.len() as int] != (owner, Some(PortalKind::Blue)));
    lemma_last_of_prefix(s, (owner, Some(PortalKind::Orange)), owner, PortalKind::Blue, s.len());
}

/// Appending never changes what a prefix of the stream says.
proof fn lemma_last_of_prefix(s: Seq<(u64, Option<PortalKind>)>, x: (u64, Option<PortalKind>), owner: u64, kind: PortalKind, upto: nat)
    requires
        upto <= s.len(),
    ensures
        last_of(s.push(x), owner, kind, upto) == last_of(s, owner, kind, upto),
    decreases upto,
{
    if upto > 0 {
        assert(s.push(x)[upto - 1] == s[upto - 1]);
        lemma_last_of_prefix(s, x, owner, kind, (upto - 1) as nat);
    }
}

} // verus!
