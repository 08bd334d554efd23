//! The weapon catalog: equippable items, each granting an ordered list of skills (slot i of the
//! input stream means `skills[i]` of the equipped weapon). Every peer builds the same catalog,
//! ordered by id, so only ids travel on the wire.

use vstd::prelude::*;
use crate::text::{str_eq, contains_str, views};
use crate::order::{Keyed, sort_by_key, sorted_by_key, keys_of, lemma_sorted_keys_unique};

verus! {

/// One equippable weapon, as the logic reads it.
#[derive(Debug)]
pub struct WeaponDef {
    /// The item's base-type id: the wire identity.
    pub id: String,
    /// Display name.
    pub name: String,
    /// The skills the weapon grants, in authored (slot) order.
    pub skills: Vec<String>,
    /// The realized item's tags (`"starter"` marks the spawn default).
    pub tags: Vec<String>,
}

impl Keyed for WeaponDef {
    open spec fn key(&self) -> Seq<char> {
        self.id@
    }

    fn key_str(&self) -> (r: &str) {
        self.id.as_str()
    }
}

/// Whether a weapon carries the `"starter"` tag.
pub open spec fn is_starter(w: WeaponDef) -> bool {
    views(w.tags@).contains("starter"@)
}

/// The scanned weapon set, ordered by id.
#[derive(Debug)]
pub struct WeaponCatalog {
    pub weapons: Vec<WeaponDef>,
}

impl WeaponCatalog {
    /// Well-formed: the weapons are ordered by id.
    pub open spec fn wf(&self) -> bool {
        sorted_by_key(self.weapons@)
    }

    /// The empty catalog (a missing item directory degrades to this).
    pub fn empty() -> (r: WeaponCatalog)
        ensures
            r.wf(),
            r.weapons@.len() == 0,
    {
        WeaponCatalog { weapons: Vec::new() }
    }

    /// The catalog of the weapons that were realized, ordered by id.
    pub fn from_generated(defs: Vec<WeaponDef>) -> (r: WeaponCatalog)
        ensures
            r.wf(),
            r.weapons@.to_multiset() == defs@.to_multiset(),
            r.weapons@.len() == defs@.len(),
    {
        WeaponCatalog { weapons: sort_by_key(defs) }
    }

    /// The weapon with id `id` (the first, should ids repeat).
    pub fn get(&self, id: &str) -> (r: Option<&WeaponDef>)
        ensures
            match r {
                Some(w) => exists|i: int|
                    0 <= i < self.weapons@.len() && self.weapons@[i] == *w && w.id@ == id@
                        && forall|j: int| 0 <= j < i ==> self.weapons@[j].id@ != id@,
                None => forall|j: int| 0 <= j < self.weapons@.len() ==> self.weapons@[j].id@ != id@,
            },
    {
        let mut i: usize = 0;
        while i < self.weapons.len()
            invariant
                i <= self.weapons@.len(),
                forall|j: int| 0 <= j < i ==> self.weapons@[j].id@ != id@,
            decreases self.weapons@.len() - i,
        {
            if str_eq(self.weapons[i].id.as_str(), id) {
                return Some(&self.weapons[i]);
            }
            i = i + 1;
        }
        None
    }

    /// The spawn-default weapon: the first tagged `"starter"`, else the first weapon.
    pub fn default_weapon(&self) -> (r: Option<&WeaponDef>)
        ensures
            match r {
                Some(w) => if exists|i: int| 0 <= i < self.weapons@.len() && is_starter(self.weapons@[i]) {
                    exists|i: int|
                        0 <= i < self.weapons@.len() && self.weapons@[i] == *w && is_starter(*w)
                            && forall|j: int| 0 <= j < i ==> !is_starter(self.weapons@[j])
                } else {
                    self.weapons@.len() > 0 && *w == self.weapons@[0]
                },
                None => self.weapons@.len() == 0,
            },
    {
        let mut i: usize = 0;
        while i < self.weapons.len()
            invariant
                i <= self.weapons@.len(),
                forall|j: int| 0 <= j < i ==> !is_starter(self.weapons@[j]),
            decreases self.weapons@.len() - i,
        {
            if contains_str(&self.weapons[i].tags, "starter") {
                return Some(&self.weapons[i]);
            }
            i = i + 1;
        }
        if self.weapons.len() > 0 {
            Some(&self.weapons[0])
        } else {
            None
        }
    }

    /// Every weapon id, in catalog order (the weapon panel's rows).
    pub fn weapon_ids(&self) -> (r: Vec<String>)
        ensures
            r@.len() == self.weapons@.len(),
            forall|i: int| 0 <= i < r@.len() ==> r@[i]@ == self.weapons@[i].id@,
    {
        let mut out: Vec<String> = Vec::new();
        let mut i: usize = 0;
        while i < self.weapons.len()
            invariant
                i <= self.weapons@.len(),
                out@.len() == i,
                forall|k: int| 0 <= k < i ==> out@[k]@ == self.weapons@[k].id@,
            decreases self.weapons@.len() - i,
        {
            out.push(self.weapons[i].id.clone());
            i = i + 1;
        }
        out
    }

    /// Display name for an equipped item id: the catalog's name, else the raw id.
    pub fn display_name(&self, item_id: &str) -> (r: String)
        ensures
            match self.get_spec(item_id@) {
                Some(i) => r@ == self.weapons@[i].name@,
                None => r@ == item_id@,
            },
    {
        match self.get(item_id) {
            Some(w) => {
                proof {
                    let i = choose|i: int|
                        0 <= i < self.weapons@.len() && self.weapons@[i] == *w && w.id@ == item_id@
                            && forall|j: int| 0 <= j < i ==> self.weapons@[j].id@ != item_id@;
                    assert(self.get_spec(item_id@) == Some(i));
                }
                w.name.clone()
            },
            None => item_id.to_owned(),
        }
    }

    /// Index of the first weapon with id `id`.
    pub open spec fn get_spec(&self, id: Seq<char>) -> Option<int> {
        if exists|i: int| 0 <= i < self.weapons@.len() && self.weapons@[i].id@ == id {
            Some(choose|i: int|
                0 <= i < self.weapons@.len() && self.weapons@[i].id@ == id && forall|j: int|
                    0 <= j < i ==> self.weapons@[j].id@ != id)
        } else {
            None
        }
    }
}

/// The catalog's ids in order.
pub open spec fn catalog_ids(weapons: Seq<WeaponDef>) -> Seq<Seq<char>> {
    weapons.map_values(|w: WeaponDef| w.id@)
}

/// Every peer lists the weapons in the same order: catalogs built (as `from_generated` builds
/// them: sorted by id, holding exactly the generated weapons) from the same weapons scanned in
/// any order have the same ids in the same order.
pub proof fn lemma_catalog_order_is_peer_independent(
    scan1: Seq<WeaponDef>,
    scan2: Seq<WeaponDef>,
    cat1: Seq<WeaponDef>,
    cat2: Seq<WeaponDef>,
)
    requires
        scan1.to_multiset() == scan2.to_multiset(),
        sorted_by_key(cat1),
        cat1.to_multiset() == scan1.to_multiset(),
        sorted_by_key(cat2),
        cat2.to_multiset() == scan2.to_multiset(),
    ensures
        catalog_ids(cat1) == catalog_ids(cat2),
{
    lemma_sorted_keys_unique(cat1, cat2);
    assert(catalog_ids(cat1) =~= keys_of(cat1));
    assert(catalog_ids(cat2) =~= keys_of(cat2));
}

} // verus!
