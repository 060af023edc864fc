use vstd::prelude::*;

use crate::target::Target;

verus! {

/// The map a list of assignments denotes: later entries for the same target
/// win.
pub open spec fn entries_map(s: Seq<(Target, u64)>) -> Map<Target, u64>
    decreases s.len(),
{
    if s.len() == 0 {
        Map::empty()
    } else {
        entries_map(s.drop_last()).insert(s.last().0, s.last().1)
    }
}

/// A concrete assignment of values to some of the circuit's targets, built up
/// target by target. This is what a prover supplies and what the circuit's
/// constraints are checked against.
pub struct PartialWitness {
    pub entries: Vec<(Target, u64)>,
}

impl View for PartialWitness {
    type V = Map<Target, u64>;

    open spec fn view(&self) -> Map<Target, u64> {
        entries_map(self.entries@)
    }
}

impl PartialWitness {
    /// A witness that assigns nothing yet.
    pub fn new() -> (w: PartialWitness)
        ensures
            w@ == Map::<Target, u64>::empty(),
    {
        PartialWitness { entries: Vec::new() }
    }

    /// Assigns `value` to `target`, replacing any earlier assignment.
    pub fn set_target(&mut self, target: Target, value: u64)
        ensures
            final(self)@ == old(self)@.insert(target, value),
    {
        self.entries.push((target, value));
        proof {
            assert(self.entries@.drop_last() =~= old(self).entries@);
        }
    }

    /// The value assigned to `target`, if any.
    pub fn try_get(&self, target: Target) -> (r: Option<u64>)
        ensures
            r == (if self@.contains_key(target) {
                Some(self@[target])
            } else {
                None::<u64>
            }),
    {
        let mut r: Option<u64> = None;
        let mut j: usize = 0;
        let len = self.entries.len();
        while j < len
            invariant
                j <= len,
                len == self.entries@.len(),
                r == (if entries_map(self.entries@.take(j as int)).contains_key(target) {
                    Some(entries_map(self.entries@.take(j as int))[target])
                } else {
                    None::<u64>
                }),
            decreases len - j,
        {
            let (t, value) = self.entries[j];
            if t == target {
                r = Some(value);
            }
            proof {
                assert(self.entries@.take(j + 1 as int).drop_last() =~= self.entries@.take(
                    j as int,
                ));
                assert(entries_map(self.entries@.take(j + 1 as int)) == entries_map(
                    self.entries@.take(j as int),
                ).insert(self.entries@[j as int].0, self.entries@[j as int].1));
            }
            j += 1;
        }
        proof {
            assert(self.entries@.take(len as int) =~= self.entries@);
        }
        r
    }
}

} // verus!
