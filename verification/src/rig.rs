//! Character-rig naming rules: which glTF node name a skinned mesh answers to, the single kept
//! outfit, how an authored clip name resolves, and the casting-layer blend target.

use vstd::prelude::*;
use crate::text::{starts_with, has_prefix, str_eq, views};

verus! {

/// The node names of the one outfit kept visible (the Witch set, one hair, the `*0` face).
pub const KEEP_MESHES: [&'static str; 7] = [
    "F_Witch_Top",
    "F_Witch_Bottom",
    "F_Witch_Headwear",
    "F_hair_1",
    "F_eyes0",
    "F_eyebrows0",
    "F_mouth0",
];

/// An auto-generated primitive name (`Mesh…`), not an authored node name.
pub open spec fn is_generated_name(n: Seq<char>) -> bool {
    has_prefix(n, "Mesh"@)
}

/// The authored name of a mesh: its own name unless generated, else the nearest named
/// ancestor whose name is not generated (`ancestors` nearest first), else empty.
pub open spec fn node_name_spec(own: Option<Seq<char>>, ancestors: Seq<Seq<char>>) -> Seq<char>
    decreases ancestors.len(),
{
    match own {
        Some(n) if !is_generated_name(n) => n,
        _ => if ancestors.len() == 0 {
            Seq::empty()
        } else {
            node_name_spec(Some(ancestors[0]), ancestors.drop_first())
        },
    }
}

/// Resolve the authored node name a skinned mesh answers to.
pub fn resolve_node_name(own: Option<&str>, ancestors: &Vec<String>) -> (r: String)
    ensures
        r@ == node_name_spec(
            match own {
                Some(n) => Some(n@),
                None => None,
            },
            views(ancestors@),
        ),
{
    let ghost own_v: Option<Seq<char>> = match own {
        Some(n) => Some(n@),
        None => None,
    };
    match own {
        Some(n) => {
            if !starts_with(n, "Mesh") {
                return n.to_owned();
            }
        },
        None => {},
    }
    let mut i: usize = 0;
    proof {
        assert(views(ancestors@).skip(0) =~= views(ancestors@));
        match own_v {
            Some(n) => {
                assert(is_generated_name(n));
                assert(node_name_spec(own_v, views(ancestors@)) == node_name_spec(None, views(ancestors@)));
            },
            None => {},
        }
    }
    while i < ancestors.len()
        invariant
            i <= ancestors@.len(),
            own_v == match own {
                Some(n) => Some(n@),
                None => None::<Seq<char>>,
            },
            node_name_spec(own_v, views(ancestors@)) == node_name_spec(None, views(ancestors@).skip(i as int)),
        decreases ancestors@.len() - i,
    {
        let ghost rest = views(ancestors@).skip(i as int);
        proof {
            assert(rest[0] == ancestors@[i as int]@);
            assert(rest.drop_first() =~= views(ancestors@).skip(i + 1));
            assert(node_name_spec(None, rest) == node_name_spec(Some(rest[0]), rest.drop_first()));
            if is_generated_name(rest[0]) {
                assert(node_name_spec(Some(rest[0]), rest.drop_first()) == node_name_spec(None, rest.drop_first()));
            } else {
                assert(node_name_spec(Some(rest[0]), rest.drop_first()) == rest[0]);
            }
        }
        if !starts_with(ancestors[i].as_str(), "Mesh") {
            return ancestors[i].clone();
        }
        i = i + 1;
    }
    proof {
        assert(views(ancestors@).skip(i as int).len() == 0);
    }
    String::new()
}

/// A mesh answers to its own name when that name is authored (does not start with `Mesh`).
/// Otherwise (no own name, or a generated `Mesh…` one) it answers to the nearest ancestor whose
/// name does not start with `Mesh`, and to the empty name only when every ancestor's name does.
pub proof fn lemma_node_name_is_nearest_authored(own: Option<Seq<char>>, ancestors: Seq<Seq<char>>)
    ensures
        (match own {
            Some(n) => !has_prefix(n, "Mesh"@),
            None => false,
        }) ==> node_name_spec(own, ancestors) == own->0,
        (match own {
            Some(n) => has_prefix(n, "Mesh"@),
            None => true,
        }) ==> {
            &&& forall|k: int|
                0 <= k < ancestors.len() && !has_prefix(#[trigger] ancestors[k], "Mesh"@) && (forall|j: int|
                    0 <= j < k ==> has_prefix(ancestors[j], "Mesh"@)) ==> node_name_spec(own, ancestors)
                    == ancestors[k]
            &&& (forall|j: int| 0 <= j < ancestors.len() ==> has_prefix(ancestors[j], "Mesh"@))
                ==> node_name_spec(own, ancestors) == Seq::<char>::empty()
        },
    decreases ancestors.len(),
{
    if ancestors.len() > 0 {
        let rest = ancestors.drop_first();
        lemma_node_name_is_nearest_authored(Some(ancestors[0]), rest);
        if match own {
            Some(n) => has_prefix(n, "Mesh"@),
            None => true,
        } {
            assert forall|k: int|
                0 <= k < ancestors.len() && !has_prefix(#[trigger] ancestors[k], "Mesh"@) && (forall|j: int|
                    0 <= j < k ==> has_prefix(ancestors[j], "Mesh"@)) implies node_name_spec(own, ancestors)
                    == ancestors[k] by {
                if k > 0 {
                    assert(has_prefix(ancestors[0], "Mesh"@));
                    assert(rest[k - 1] == ancestors[k]);
                    assert forall|j: int| 0 <= j < k - 1 implies has_prefix(rest[j], "Mesh"@) by {
                        assert(rest[j] == ancestors[j + 1]);
                    }
                }
            }
            if forall|j: int| 0 <= j < ancestors.len() ==> has_prefix(ancestors[j], "Mesh"@) {
                assert(has_prefix(ancestors[0], "Mesh"@));
                assert forall|j: int| 0 <= j < rest.len() implies has_prefix(rest[j], "Mesh"@) by {
                    assert(rest[j] == ancestors[j + 1]);
                }
            }
        }
    }
}

/// Whether a mesh of the given node name stays visible in the single kept outfit.
pub fn keep_mesh(name: &str) -> (r: bool)
    ensures
        r == exists|i: int| 0 <= i < 7 && KEEP_MESHES@[i]@ == name@,
{
    let mut i: usize = 0;
    while i < 7
        invariant
            i <= 7,
            forall|j: int| 0 <= j < i ==> KEEP_MESHES@[j]@ != name@,
        decreases 7 - i,
    {
        if str_eq(KEEP_MESHES[i], name) {
            return true;
        }
        i = i + 1;
    }
    false
}

/// `s` holds `::` at position `i`.
pub open spec fn path_sep_at(s: Seq<char>, i: int) -> bool {
    0 <= i && i + 1 < s.len() && s[i] == ':' && s[i + 1] == ':'
}

/// The clip name an authored (possibly `library::clip`-qualified) name resolves to: the text
/// after the last `::`, or the whole name when it has none.
pub open spec fn clip_short_spec(clip: Seq<char>) -> Seq<char> {
    if exists|i: int| path_sep_at(clip, i) {
        let i = choose|i: int| path_sep_at(clip, i) && forall|j: int| i < j ==> !path_sep_at(clip, j);
        clip.subrange(i + 2, clip.len() as int)
    } else {
        clip
    }
}

/// Resolve an authored clip name to the glb's clip name.
pub fn clip_short_name(clip: &str) -> (r: &str)
    ensures
        r@ == clip_short_spec(clip@),
{
    let n = clip.unicode_len();
    let mut i: usize = n;
    while i >= 2
        invariant
            n == clip@.len(),
            i <= n,
            forall|j: int| i - 1 <= j < n ==> !path_sep_at(clip@, j),
        decreases i,
    {
        if clip.get_char(i - 2) == ':' && clip.get_char(i - 1) == ':' {
            proof {
                let k = (i - 2) as int;
                assert(path_sep_at(clip@, k));
                assert forall|j: int| k < j implies !path_sep_at(clip@, j) by {
                    if j == k + 1 {
                    } else if j >= i - 1 {
                    }
                }
                let c = choose|c: int| path_sep_at(clip@, c) && forall|j: int| c < j ==> !path_sep_at(clip@, j);
                if c < k {
                    assert(!path_sep_at(clip@, k));
                } else if c > k {
                    assert(!path_sep_at(clip@, c));
                }
            }
            return clip.substring_char(i, n);
        }
        i = i - 1;
    }
    proof {
        assert forall|j: int| !path_sep_at(clip@, j) by {
            if 0 <= j && j + 1 < n {
                assert(i - 1 <= j);
            }
        }
        assert(clip@.subrange(0, n as int) =~= clip@);
    }
    clip.substring_char(0, n)
}

/// The casting-layer blend target in halves (0 = plain locomotion, 2 = full casting): a held
/// charge winds up fully; otherwise windup/active (phase tags 1, 2) are full, recovery (3) half,
/// anything else none.
pub open spec fn casting_target_halves_spec(cast_phase: u8, charging: bool) -> u8 {
    if charging {
        2
    } else if cast_phase == 1 || cast_phase == 2 {
        2
    } else if cast_phase == 3 {
        1
    } else {
        0
    }
}

/// The casting-layer blend target, in halves.
pub fn casting_target_halves(cast_phase: u8, charging: bool) -> (r: u8)
    ensures
        r == casting_target_halves_spec(cast_phase, charging),
        r <= 2,
{
    if charging {
        2
    } else if cast_phase == 1 || cast_phase == 2 {
        2
    } else if cast_phase == 3 {
        1
    } else {
        0
    }
}

} // verus!
