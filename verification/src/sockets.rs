//! Rig sockets: the named bones of a character rig, recorded as they spawn (the first entity
//! recorded under a name wins), and the attach parent a socket name resolves to. Entities are
//! carried as their 64-bit ids.

use vstd::prelude::*;
use crate::text::str_eq;

verus! {

/// The entity recorded under `name`: the first entry with that name.
pub open spec fn socket_lookup(entries: Seq<(String, u64)>, name: Seq<char>) -> Option<u64>
    decreases entries.len(),
{
    if entries.len() == 0 {
        None
    } else if entries[0].0@ == name {
        Some(entries[0].1)
    } else {
        socket_lookup(entries.drop_first(), name)
    }
}

/// A lookup finds the entity of the first entry recorded under the name, and nothing when no
/// entry has that name.
pub proof fn lemma_lookup_is_first_entry(entries: Seq<(String, u64)>, name: Seq<char>)
    ensures
        forall|k: int|
            0 <= k < entries.len() && (#[trigger] entries[k]).0@ == name && (forall|j: int|
                0 <= j < k ==> entries[j].0@ != name) ==> socket_lookup(entries, name) == Some(entries[k].1),
        (forall|j: int| 0 <= j < entries.len() ==> entries[j].0@ != name) ==> socket_lookup(entries, name) is None,
    decreases entries.len(),
{
    if entries.len() > 0 {
        let t = entries.drop_first();
        lemma_lookup_is_first_entry(t, name);
        assert forall|k: int|
            0 <= k < entries.len() && (#[trigger] entries[k]).0@ == name && (forall|j: int|
                0 <= j < k ==> entries[j].0@ != name) implies socket_lookup(entries, name) == Some(entries[k].1) by {
            if k > 0 {
                assert(t[k - 1] == entries[k]);
                assert forall|j: int| 0 <= j < k - 1 implies t[j].0@ != name by {
                    assert(t[j] == entries[j + 1]);
                }
            }
        }
        if forall|j: int| 0 <= j < entries.len() ==> entries[j].0@ != name {
            assert forall|j: int| 0 <= j < t.len() implies t[j].0@ != name by {
                assert(t[j] == entries[j + 1]);
            }
        }
    }
}

/// The named bones of one rig.
#[derive(Debug)]
pub struct RigSockets {
    pub by_name: Vec<(String, u64)>,
}

/// The attach parent a socket resolves to.
#[derive(Clone, Copy, PartialEq, Eq, Structural, Debug)]
pub enum SocketParent {
    /// The named bone.
    Bone(u64),
    /// The rig root (the rig has no bone of that name, or no index yet).
    RigRoot(u64),
    /// The player entity itself (no rig is attached).
    Player(u64),
}

proof fn lemma_lookup_push(entries: Seq<(String, u64)>, e: (String, u64), name: Seq<char>)
    ensures
        socket_lookup(entries, name) is Some ==> socket_lookup(entries.push(e), name) == socket_lookup(entries, name),
        socket_lookup(entries, name) is None ==> socket_lookup(entries.push(e), name) == (if e.0@ == name {
            Some(e.1)
        } else {
            None
        }),
    decreases entries.len(),
{
    if entries.len() == 0 {
        assert(entries.push(e)[0] == e);
        assert(entries.push(e).drop_first() =~= Seq::<(String, u64)>::empty());
        assert(socket_lookup(entries.push(e).drop_first(), name) is None);
    } else {
        assert(entries.push(e)[0] == entries[0]);
        assert(entries.push(e).drop_first() =~= entries.drop_first().push(e));
        lemma_lookup_push(entries.drop_first(), e, name);
    }
}

impl RigSockets {
    /// A rig with no recorded bones.
    pub fn new() -> (r: RigSockets)
        ensures
            forall|n: Seq<char>| socket_lookup(r.by_name@, n) is None,
    {
        RigSockets { by_name: Vec::new() }
    }

    /// The entity recorded under `name`.
    pub fn lookup(&self, name: &str) -> (r: Option<u64>)
        ensures
            r == socket_lookup(self.by_name@, name@),
    {
        let mut i: usize = 0;
        assert(self.by_name@.skip(0) =~= self.by_name@);
        while i < self.by_name.len()
            invariant
                i <= self.by_name@.len(),
                socket_lookup(self.by_name@, name@) == socket_lookup(self.by_name@.skip(i as int), name@),
            decreases self.by_name@.len() - i,
        {
            let ghost rest = self.by_name@.skip(i as int);
            assert(rest.drop_first() =~= self.by_name@.skip(i + 1));
            assert(rest[0] == self.by_name@[i as int]);
            if str_eq(self.by_name[i].0.as_str(), name) {
                return Some(self.by_name[i].1);
            }
            i = i + 1;
        }
        None
    }

    /// Record a newly named entity under the rig. The first entity recorded under a name wins:
    /// a later one with the same name is ignored. Returns whether it was recorded.
    pub fn record(&mut self, name: &str, entity: u64) -> (r: bool)
        ensures
            r == (socket_lookup(old(self).by_name@, name@) is None),
            socket_lookup(final(self).by_name@, name@) == (if r {
                Some(entity)
            } else {
                socket_lookup(old(self).by_name@, name@)
            }),
            forall|n: Seq<char>|
                n != name@ ==> socket_lookup(final(self).by_name@, n) == socket_lookup(old(self).by_name@, n),
    {
        if self.lookup(name).is_some() {
            return false;
        }
        let ghost before = self.by_name@;
        let owned = name.to_owned();
        proof {
            assert forall|n: Seq<char>| #[trigger] socket_lookup(before.push((owned, entity)), n) == (if socket_lookup(before, n) is Some {
                socket_lookup(before, n)
            } else if owned@ == n {
                Some(entity)
            } else {
                None
            }) by {
                lemma_lookup_push(before, (owned, entity), n);
            }
        }
        self.by_name.push((owned, entity));
        true
    }
}

/// The attach parent for a socket of `player`: the named bone when the rig has one, else the
/// rig root, else (no rig attached) the player itself.
pub fn resolve_socket(player: u64, body: Option<u64>, sockets: Option<&RigSockets>, socket: &str) -> (r: SocketParent)
    ensures
        r == match body {
            None => SocketParent::Player(player),
            Some(b) => match sockets {
                Some(s) => match socket_lookup(s.by_name@, socket@) {
                    Some(bone) => SocketParent::Bone(bone),
                    None => SocketParent::RigRoot(b),
                },
                None => SocketParent::RigRoot(b),
            },
        },
{
    match body {
        None => SocketParent::Player(player),
        Some(b) => match sockets {
            Some(s) => match s.lookup(socket) {
                Some(bone) => SocketParent::Bone(bone),
                None => SocketParent::RigRoot(b),
            },
            None => SocketParent::RigRoot(b),
        },
    }
}

} // verus!
