//! Finite sets of variables, kept as a list without repetitions.

use vstd::prelude::*;
use crate::variable::Variable;

verus! {

/// A finite set of variables.
///
/// The members are held in a list in which no variable occurs twice, so the
/// length of the list is the cardinality of the set.
pub struct VariableSet {
    items: Vec<Variable>,
}

impl View for VariableSet {
    type V = Set<Variable>;

    closed spec fn view(&self) -> Set<Variable> {
        self.items@.to_set()
    }
}

impl VariableSet {
    #[verifier::type_invariant]
    spec fn distinct(&self) -> bool {
        self.items@.no_duplicates()
    }

    /// The empty set.
    pub fn new() -> (set: VariableSet)
        ensures
            set@ == Set::<Variable>::empty(),
    {
        let set = VariableSet { items: Vec::new() };
        assert(set.items@.to_set() =~= Set::<Variable>::empty());
        set
    }

    /// The number of members.
    pub fn len(&self) -> (count: usize)
        ensures
            self@.finite(),
            count == self@.len(),
    {
        proof {
            use_type_invariant(self);
            self.items@.unique_seq_to_set();
            vstd::seq_lib::seq_to_set_is_finite(self.items@);
        }
        self.items.len()
    }

    /// Whether `variable` is a member.
    pub fn contains(&self, variable: Variable) -> (found: bool)
        ensures
            found == self@.contains(variable),
    {
        let mut i: usize = 0;
        while i < self.items.len()
            invariant
                i <= self.items.len(),
                forall|k: int| 0 <= k < i ==> self.items@[k] != variable,
            decreases self.items.len() - i,
        {
            if self.items[i] == variable {
                return true;
            }
            i += 1;
        }
        false
    }

    /// The set with `variable` added.
    pub fn insert(self, variable: Variable) -> (grown: VariableSet)
        ensures
            grown@ == self@.insert(variable),
    {
        proof {
            use_type_invariant(&self);
        }
        if self.contains(variable) {
            assert(self@.insert(variable) =~= self@);
            self
        } else {
            let mut items = self.items;
            proof {
                items@.lemma_push_to_set_commute(variable);
            }
            items.push(variable);
            VariableSet { items }
        }
    }

    /// The set with `variable` taken out.
    pub fn remove(self, variable: Variable) -> (shrunk: VariableSet)
        ensures
            shrunk@ == self@.remove(variable),
    {
        proof {
            use_type_invariant(&self);
        }
        let mut items = self.items;
        let mut i: usize = 0;
        while i < items.len()
            invariant
                i <= items.len(),
                items == self.items,
                items@.no_duplicates(),
                forall|k: int| 0 <= k < i ==> items@[k] != variable,
            decreases items.len() - i,
        {
            if items[i] == variable {
                let ghost before = items@;
                items.remove(i);
                proof {
                    let after = items@;
                    assert(after == before.remove(i as int));
                    assert forall|a: Variable| after.to_set().contains(a) == before.to_set().remove(
                        variable,
                    ).contains(a) by {
                        if after.contains(a) {
                            let k = choose|k: int| 0 <= k < after.len() && after[k] == a;
                            if k < i {
                                assert(before[k] == a);
                            } else {
                                assert(before[k + 1] == a);
                            }
                        }
                        if before.contains(a) && a != variable {
                            let k = choose|k: int| 0 <= k < before.len() && before[k] == a;
                            if k < i {
                                assert(after[k] == a);
                            } else {
                                assert(after[k - 1] == a);
                            }
                        }
                    }
                    assert(after.to_set() =~= before.to_set().remove(variable));
                }
                return VariableSet { items };
            }
            i += 1;
        }
        assert(self@.remove(variable) =~= self@);
        VariableSet { items }
    }

    /// The set of the members of `self` and of `other`.
    pub fn union(self, other: &VariableSet) -> (both: VariableSet)
        ensures
            both@ == self@.union(other@),
    {
        let mut both = self;
        let mut i: usize = 0;
        assert(other.items@.take(0).to_set() =~= Set::<Variable>::empty());
        assert(self@.union(Set::<Variable>::empty()) =~= self@);
        while i < other.items.len()
            invariant
                i <= other.items.len(),
                both@ == self@.union(other.items@.take(i as int).to_set()),
            decreases other.items.len() - i,
        {
            let ghost before = both@;
            both = both.insert(other.items[i]);
            proof {
                let done = other.items@.take(i as int);
                let next = other.items@.take(i + 1);
                assert(next == done.push(other.items@[i as int]));
                done.lemma_push_to_set_commute(other.items@[i as int]);
                assert(both@ =~= self@.union(next.to_set()));
            }
            i += 1;
        }
        assert(other.items@.take(i as int) == other.items@);
        both
    }
}

} // verus!
