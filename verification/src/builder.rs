use vstd::prelude::*;

use crate::gate::RandomAccessGate;
use crate::target::ExtensionTarget;
use crate::target::Target;
use crate::target::target_wf;

verus! {

/// Accumulates the circuit under construction: the lookup gates allocated so
/// far, the equality constraints (connections) between targets, the constant
/// assignments, and the count of virtual targets. The builder is the sole
/// owner of circuit state; gate and target indices are assigned strictly in
/// call order, so the same sequence of calls always produces the same
/// circuit description.
pub struct CircuitBuilder {
    /// Coordinates per extension element (the degree D of the extension).
    pub degree: usize,
    /// Allocated gates; a gate's index is its position here.
    pub gates: Vec<RandomAccessGate>,
    /// Equality constraints: in a satisfying witness the two targets of each
    /// pair carry equal values.
    pub connections: Vec<(Target, Target)>,
    /// Constant assignments: in a satisfying witness the target carries the
    /// recorded value.
    pub constants: Vec<(Target, u64)>,
    /// Number of virtual targets allocated so far.
    pub num_virtual: usize,
}

/// Both ends of a connection have been allocated.
pub open spec fn conn_wf(c: (Target, Target), num_gates: int, num_virtual: int) -> bool {
    target_wf(c.0, num_gates, num_virtual) && target_wf(c.1, num_gates, num_virtual)
}

/// Every target the recorded constraints mention has been allocated.
pub open spec fn parts_wf(
    connections: Seq<(Target, Target)>,
    constants: Seq<(Target, u64)>,
    num_gates: int,
    num_virtual: int,
) -> bool {
    &&& forall|j: int|
        0 <= j < connections.len() ==> conn_wf(#[trigger] connections[j], num_gates, num_virtual)
    &&& forall|j: int|
        0 <= j < constants.len() ==> target_wf((#[trigger] constants[j]).0, num_gates, num_virtual)
}

/// The targets of a sequence of fresh virtual indices, starting at `start`.
pub open spec fn fresh_virtual_targets(start: int, count: int) -> Seq<Target> {
    Seq::new(count as nat, |c: int| Target::Virtual { index: (start + c) as usize })
}

/// Constant entries pairing each target with its value.
pub open spec fn constant_entries(targets: Seq<Target>, values: Seq<u64>) -> Seq<(Target, u64)> {
    Seq::new(targets.len(), |c: int| (targets[c], values[c]))
}

/// A sequence of `count` zero values.
pub open spec fn zero_values(count: int) -> Seq<u64> {
    Seq::new(count as nat, |c: int| 0u64)
}

/// Coordinate-wise pairing of two extension elements' coordinates.
pub open spec fn pair_seq(a: Seq<Target>, b: Seq<Target>) -> Seq<(Target, Target)> {
    Seq::new(a.len(), |c: int| (a[c], b[c]))
}

impl CircuitBuilder {
    /// Every recorded target refers to an allocated gate or virtual target,
    /// and every gate's wire offsets fit in `usize`.
    pub open spec fn wf(self) -> bool {
        &&& parts_wf(
            self.connections@,
            self.constants@,
            self.gates@.len() as int,
            self.num_virtual as int,
        )
        &&& forall|k: int| 0 <= k < self.gates@.len() ==> (#[trigger] self.gates@[k]).wf()
    }

    /// Everything but the connection list is unchanged.
    pub open spec fn only_connections_changed(self, pre: CircuitBuilder) -> bool {
        &&& self.gates@ == pre.gates@
        &&& self.constants@ == pre.constants@
        &&& self.num_virtual == pre.num_virtual
        &&& self.degree == pre.degree
    }

    /// No circuit state changed at all.
    pub open spec fn unchanged(self, pre: CircuitBuilder) -> bool {
        &&& self.only_connections_changed(pre)
        &&& self.connections@ == pre.connections@
    }

    /// An empty circuit for extension elements of `degree` coordinates.
    pub fn new(degree: usize) -> (b: CircuitBuilder)
        ensures
            b.degree == degree,
            b.gates@.len() == 0,
            b.connections@.len() == 0,
            b.constants@.len() == 0,
            b.num_virtual == 0,
            b.wf(),
    {
        CircuitBuilder {
            degree,
            gates: Vec::new(),
            connections: Vec::new(),
            constants: Vec::new(),
            num_virtual: 0,
        }
    }

    /// A fresh virtual target, unconstrained until connections or constants
    /// mention it.
    pub fn add_virtual_target(&mut self) -> (t: Target)
        requires
            old(self).num_virtual < usize::MAX,
        ensures
            t == (Target::Virtual { index: old(self).num_virtual }),
            final(self).num_virtual == old(self).num_virtual + 1,
            final(self).gates@ == old(self).gates@,
            final(self).connections@ == old(self).connections@,
            final(self).constants@ == old(self).constants@,
            final(self).degree == old(self).degree,
    {
        let t = Target::Virtual { index: self.num_virtual };
        self.num_virtual = self.num_virtual + 1;
        t
    }

    /// A fresh target constrained to carry `value` in every satisfying
    /// witness.
    pub fn constant(&mut self, value: u64) -> (t: Target)
        requires
            old(self).num_virtual < usize::MAX,
        ensures
            t == (Target::Virtual { index: old(self).num_virtual }),
            final(self).num_virtual == old(self).num_virtual + 1,
            final(self).constants@ == old(self).constants@.push((t, value)),
            final(self).gates@ == old(self).gates@,
            final(self).connections@ == old(self).connections@,
            final(self).degree == old(self).degree,
    {
        let t = Target::Virtual { index: self.num_virtual };
        self.num_virtual = self.num_virtual + 1;
        self.constants.push((t, value));
        t
    }

    /// A fresh extension element whose coordinates are constrained to the
    /// given values, coordinate by coordinate.
    pub fn constant_extension(&mut self, values: &Vec<u64>) -> (e: ExtensionTarget)
        requires
            values@.len() == old(self).degree,
            old(self).num_virtual + old(self).degree <= usize::MAX,
        ensures
            e@ == fresh_virtual_targets(old(self).num_virtual as int, old(self).degree as int),
            final(self).num_virtual == old(self).num_virtual + old(self).degree,
            final(self).constants@ == old(self).constants@ + constant_entries(e@, values@),
            final(self).gates@ == old(self).gates@,
            final(self).connections@ == old(self).connections@,
            final(self).degree == old(self).degree,
    {
        let ghost start = self.num_virtual as int;
        let d = self.degree;
        let mut coords: Vec<Target> = Vec::new();
        let mut c: usize = 0;
        while c < d
            invariant
                c <= d,
                d == old(self).degree,
                values@.len() == d,
                old(self).num_virtual + d <= usize::MAX,
                self.num_virtual == old(self).num_virtual + c,
                coords@ == fresh_virtual_targets(start, c as int),
                start == old(self).num_virtual as int,
                self.constants@ == old(self).constants@ + constant_entries(
                    coords@,
                    values@.take(c as int),
                ),
                self.gates@ == old(self).gates@,
                self.connections@ == old(self).connections@,
                self.degree == old(self).degree,
            decreases d - c,
        {
            let t = self.constant(values[c]);
            let ghost prev = coords@;
            coords.push(t);
            proof {
                assert(coords@ =~= fresh_virtual_targets(start, c + 1 as int));
                assert(old(self).constants@ + constant_entries(
                    coords@,
                    values@.take(c + 1 as int),
                ) =~= (old(self).constants@ + constant_entries(
                    prev,
                    values@.take(c as int),
                )).push((t, values@[c as int])));
            }
            c += 1;
        }
        proof {
            assert(values@.take(d as int) =~= values@);
        }
        ExtensionTarget(coords)
    }

    /// A fresh extension element constrained to be zero in every coordinate:
    /// the neutral element used to pad short lists.
    pub fn zero_extension(&mut self) -> (z: ExtensionTarget)
        requires
            old(self).num_virtual + old(self).degree <= usize::MAX,
        ensures
            z@ == fresh_virtual_targets(old(self).num_virtual as int, old(self).degree as int),
            final(self).num_virtual == old(self).num_virtual + old(self).degree,
            final(self).constants@ == old(self).constants@ + constant_entries(
                z@,
                zero_values(old(self).degree as int),
            ),
            final(self).gates@ == old(self).gates@,
            final(self).connections@ == old(self).connections@,
            final(self).degree == old(self).degree,
    {
        let mut values: Vec<u64> = Vec::new();
        let mut c: usize = 0;
        let d = self.degree;
        while c < d
            invariant
                c <= d,
                d == old(self).degree,
                values@ == zero_values(c as int),
                self.num_virtual == old(self).num_virtual,
                self.constants@ == old(self).constants@,
                self.gates@ == old(self).gates@,
                self.connections@ == old(self).connections@,
                self.degree == old(self).degree,
                old(self).num_virtual + old(self).degree <= usize::MAX,
            decreases d - c,
        {
            values.push(0);
            proof {
                assert(values@ =~= zero_values(c + 1 as int));
            }
            c += 1;
        }
        let z = self.constant_extension(&values);
        proof {
            assert(constant_entries(z@, values@) =~= constant_entries(
                z@,
                zero_values(old(self).degree as int),
            ));
        }
        z
    }

    /// Records the equality constraint `a == b`.
    pub fn connect(&mut self, a: Target, b: Target)
        ensures
            final(self).connections@ == old(self).connections@.push((a, b)),
            final(self).gates@ == old(self).gates@,
            final(self).constants@ == old(self).constants@,
            final(self).num_virtual == old(self).num_virtual,
            final(self).degree == old(self).degree,
    {
        self.connections.push((a, b));
    }

    /// Records coordinate-wise equality constraints between two extension
    /// elements.
    pub fn connect_extension(&mut self, a: &ExtensionTarget, b: &ExtensionTarget)
        requires
            a@.len() == b@.len(),
        ensures
            final(self).connections@ == old(self).connections@ + pair_seq(a@, b@),
            final(self).gates@ == old(self).gates@,
            final(self).constants@ == old(self).constants@,
            final(self).num_virtual == old(self).num_virtual,
            final(self).degree == old(self).degree,
    {
        let mut c: usize = 0;
        let len = a.0.len();
        while c < len
            invariant
                c <= len,
                len == a@.len(),
                a@.len() == b@.len(),
                self.connections@ == old(self).connections@ + pair_seq(a@.take(c as int), b@.take(c as int)),
                self.gates@ == old(self).gates@,
                self.constants@ == old(self).constants@,
                self.num_virtual == old(self).num_virtual,
                self.degree == old(self).degree,
            decreases len - c,
        {
            self.connect(a.0[c], b.0[c]);
            proof {
                assert(old(self).connections@ + pair_seq(
                    a@.take(c + 1 as int),
                    b@.take(c + 1 as int),
                ) =~= (old(self).connections@ + pair_seq(a@.take(c as int), b@.take(c as int))).push(
                    (a@[c as int], b@[c as int]),
                ));
            }
            c += 1;
        }
        proof {
            assert(pair_seq(a@.take(len as int), b@.take(len as int)) =~= pair_seq(a@, b@));
        }
    }

    /// Allocates `gate` and returns its index.
    pub fn add_gate(&mut self, gate: RandomAccessGate) -> (k: usize)
        ensures
            k as int == old(self).gates@.len(),
            final(self).gates@ == old(self).gates@.push(gate),
            final(self).connections@ == old(self).connections@,
            final(self).constants@ == old(self).constants@,
            final(self).num_virtual == old(self).num_virtual,
            final(self).degree == old(self).degree,
    {
        let k = self.gates.len();
        self.gates.push(gate);
        k
    }
}

} // verus!
