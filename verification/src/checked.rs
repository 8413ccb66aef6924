//! The signatures that were found well instantiated.

use std::collections::HashMap;

use vstd::prelude::*;

use crate::abilities::AbilitySet;
use crate::errors::TableIndex;
use crate::file_format::SignatureIndex;

verus! {

/// A signature, and the abilities of the type parameters it was checked under.
pub type Instance = (SignatureIndex, Seq<AbilitySet>);

/// A set of instances.
pub struct CheckedInstances {
    by_signature: HashMap<TableIndex, Vec<Vec<AbilitySet>>>,
}

/// Whether the two lists hold the same abilities.
fn same_abilities(a: &[AbilitySet], b: &[AbilitySet]) -> (yes: bool)
    ensures
        yes == (a@ == b@),
{
    if a.len() != b.len() {
        return false;
    }
    let mut i: usize = 0;
    while i < a.len()
        invariant
            i <= a@.len(),
            a@.len() == b@.len(),
            forall|j: int| 0 <= j < i ==> a@[j] == b@[j],
        decreases a@.len() - i,
    {
        if a[i] != b[i] {
            return false;
        }
        i = i + 1;
    }
    assert(a@ =~= b@);
    true
}

impl CheckedInstances {
    /// The instances that belong to the set.
    pub closed spec fn view(&self) -> Set<Instance> {
        Set::new(
            |instance: Instance|
                {
                    &&& self.by_signature@.contains_key(instance.0.0)
                    &&& is_listed(self.by_signature@[instance.0.0]@, instance.1)
                },
        )
    }

    /// Whether nothing is listed twice.
    pub closed spec fn well_formed(&self) -> bool {
        forall|idx: TableIndex| #[trigger]
            self.by_signature@.contains_key(idx) ==> distinct(self.by_signature@[idx]@)
    }

    /// The empty set.
    pub fn new() -> (checked: Self)
        ensures
            checked.well_formed(),
            checked@ == Set::<Instance>::empty(),
    {
        broadcast use vstd::std_specs::hash::group_hash_axioms;

        let checked = CheckedInstances { by_signature: HashMap::new() };
        assert(checked@ =~= Set::<Instance>::empty());
        checked
    }

    /// Whether the instance belongs to the set.
    pub fn contains(&self, idx: SignatureIndex, type_parameters: &[AbilitySet]) -> (yes: bool)
        ensures
            yes == self@.contains((idx, type_parameters@)),
    {
        broadcast use vstd::std_specs::hash::group_hash_axioms;

        match self.by_signature.get(&idx.0) {
            Some(lists) => {
                let mut i: usize = 0;
                while i < lists.len()
                    invariant
                        i <= lists@.len(),
                        self.by_signature@.contains_key(idx.0),
                        self.by_signature@[idx.0] == *lists,
                        forall|j: int| 0 <= j < i ==> lists@[j]@ != type_parameters@,
                    decreases lists@.len() - i,
                {
                    if same_abilities(lists[i].as_slice(), type_parameters) {
                        assert(lists@[i as int]@ == type_parameters@);
                        return true;
                    }
                    i = i + 1;
                }
                false
            },
            None => false,
        }
    }

    /// Adds an instance that does not belong to the set.
    pub fn insert(&mut self, idx: SignatureIndex, type_parameters: &[AbilitySet])
        requires
            old(self).well_formed(),
            !old(self)@.contains((idx, type_parameters@)),
        ensures
            final(self).well_formed(),
            final(self)@ == old(self)@.insert((idx, type_parameters@)),
    {
        broadcast use vstd::std_specs::hash::group_hash_axioms;

        let ghost before = self.by_signature@;
        let list = vstd::slice::slice_to_vec(type_parameters);
        let lists: &mut Vec<Vec<AbilitySet>> = self.by_signature.entry(idx.0).or_insert(Vec::new());
        lists.push(list);
        let ghost after = self.by_signature@;
        proof {
            let kept = if before.contains_key(idx.0) {
                before[idx.0]@
            } else {
                Seq::empty()
            };
            assert(after.contains_key(idx.0));
            assert(after[idx.0]@ == kept.push(list));
            assert forall|instance: Instance| #[trigger]
                self@.contains(instance) == old(self)@.insert(
                    (idx, type_parameters@),
                ).contains(instance) by {
                if instance.0 == idx {
                    assert(is_listed(after[idx.0]@, instance.1) == (is_listed(kept, instance.1)
                        || instance.1 == type_parameters@)) by {
                        if is_listed(kept, instance.1) {
                            let j = choose|j: int|
                                0 <= j < kept.len() && #[trigger] kept[j]@ == instance.1;
                            assert(after[idx.0]@[j]@ == instance.1);
                        }
                        assert(after[idx.0]@[kept.len() as int]@ == type_parameters@);
                    }
                    if instance.1 == type_parameters@ {
                        assert(instance == (idx, type_parameters@));
                    }
                }
            }
            assert(self@ =~= old(self)@.insert((idx, type_parameters@)));
            assert(distinct(after[idx.0]@)) by {
                assert forall|i: int, j: int| 0 <= i < j < kept.len() + 1 implies (
                #[trigger] after[idx.0]@[i])@ != (#[trigger] after[idx.0]@[j])@ by {
                    if j == kept.len() {
                        assert(kept[i]@ != type_parameters@);
                    } else {
                        assert(kept[i]@ != kept[j]@);
                    }
                }
            }
        }
    }
}

/// Whether one of the lists is `abilities`.
pub closed spec fn is_listed(lists: Seq<Vec<AbilitySet>>, abilities: Seq<AbilitySet>) -> bool {
    exists|j: int| 0 <= j < lists.len() && #[trigger] lists[j]@ == abilities
}

/// Whether no two of the lists are the same.
pub closed spec fn distinct(lists: Seq<Vec<AbilitySet>>) -> bool {
    forall|i: int, j: int|
        0 <= i < j < lists.len() ==> (#[trigger] lists[i])@ != (#[trigger] lists[j])@
}

} // verus!
