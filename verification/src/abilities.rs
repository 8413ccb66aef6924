//! Abilities of types.

use vstd::prelude::*;

verus! {

/// What a value of a type may be used for.
#[derive(Clone, Copy, Debug, PartialEq, Eq, Structural)]
pub enum Ability {
    Copy,
    Drop,
    Store,
    Key,
}

/// A set of abilities.
#[derive(Clone, Copy, PartialEq, Eq, Debug, Structural)]
pub struct AbilitySet {
    pub copy: bool,
    pub drop: bool,
    pub store: bool,
    pub key: bool,
}

/// Whether `set` holds every ability that `subset` holds.
pub open spec fn covers(set: AbilitySet, subset: AbilitySet) -> bool {
    forall|ability: Ability| #[trigger] subset.has(ability) ==> set.has(ability)
}

/// The name of an ability and what stands behind it in a list, or nothing.
pub open spec fn listed(present: bool, name: Seq<char>) -> Seq<char> {
    if present {
        name
    } else {
        Seq::empty()
    }
}

impl AbilitySet {
    /// Whether `ability` belongs to the set.
    pub open spec fn has(self, ability: Ability) -> bool {
        match ability {
            Ability::Copy => self.copy,
            Ability::Drop => self.drop,
            Ability::Store => self.store,
            Ability::Key => self.key,
        }
    }

    /// The set as messages write it: each ability that belongs to it, and a comma behind each.
    pub open spec fn text(self) -> Seq<char> {
        "["@ + listed(self.copy, "Copy, "@) + listed(self.drop, "Drop, "@) + listed(
            self.store,
            "Store, "@,
        ) + listed(self.key, "Key, "@) + "]"@
    }

    /// Whether `other` holds every ability of this set.
    pub fn is_subset(self, other: AbilitySet) -> (yes: bool)
        ensures
            yes == covers(other, self),
    {
        proof {
            assert(covers(other, self) ==> {
                &&& self.has(Ability::Copy) ==> other.has(Ability::Copy)
                &&& self.has(Ability::Drop) ==> other.has(Ability::Drop)
                &&& self.has(Ability::Store) ==> other.has(Ability::Store)
                &&& self.has(Ability::Key) ==> other.has(Ability::Key)
            });
        }
        (!self.copy || other.copy) && (!self.drop || other.drop) && (!self.store || other.store)
            && (!self.key || other.key)
    }

    /// Appends the set as messages write it.
    pub fn push_text(self, out: &mut String)
        ensures
            final(out)@ == old(out)@ + self.text(),
    {
        out.append("[");
        if self.copy {
            out.append("Copy, ");
        }
        if self.drop {
            out.append("Drop, ");
        }
        if self.store {
            out.append("Store, ");
        }
        if self.key {
            out.append("Key, ");
        }
        out.append("]");
        assert(out@ =~= old(out)@ + self.text());
    }
}

} // verus!
