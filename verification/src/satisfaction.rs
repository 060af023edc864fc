use vstd::prelude::*;

use crate::builder::CircuitBuilder;
use crate::gate::RandomAccessGate;
use crate::gate::access_index_offset;
use crate::gate::claimed_element_offset;
use crate::gate::list_item_offset;
use crate::target::Target;
use crate::target::wire_target;
use crate::witness::PartialWitness;

verus! {

/// An equality constraint holds: both targets are assigned, and equal.
pub open spec fn conn_ok(w: Map<Target, u64>, c: (Target, Target)) -> bool {
    &&& w.contains_key(c.0)
    &&& w.contains_key(c.1)
    &&& w[c.0] == w[c.1]
}

/// A constant assignment holds: the target is assigned the recorded value.
pub open spec fn constant_ok(w: Map<Target, u64>, c: (Target, u64)) -> bool {
    &&& w.contains_key(c.0)
    &&& w[c.0] == c.1
}

/// One copy of a lookup gate at index `k` with list length `n` is satisfied:
/// the access-index slot holds a value below `n`, and the claimed-element
/// slot equals the list-item slot that value selects.
pub open spec fn copy_ok(w: Map<Target, u64>, k: int, n: int, copy: int) -> bool {
    let acc = wire_target(k, access_index_offset(n, copy));
    let cl = wire_target(k, claimed_element_offset(n, copy));
    &&& w.contains_key(acc)
    &&& w.contains_key(cl)
    &&& (w[acc] as int) < n
    &&& w.contains_key(wire_target(k, list_item_offset(n, w[acc] as int, copy)))
    &&& w[wire_target(k, list_item_offset(n, w[acc] as int, copy))] == w[cl]
}

/// A lookup gate is satisfied when every one of its copies is.
pub open spec fn gate_ok(w: Map<Target, u64>, k: int, g: RandomAccessGate) -> bool {
    forall|copy: int| 0 <= copy < g.copies ==> copy_ok(w, k, g.length as int, copy)
}

/// A witness satisfies a circuit when every connection, every constant and
/// every gate constraint holds under it.
pub open spec fn circuit_satisfied(
    gates: Seq<RandomAccessGate>,
    connections: Seq<(Target, Target)>,
    constants: Seq<(Target, u64)>,
    w: Map<Target, u64>,
) -> bool {
    &&& forall|j: int| 0 <= j < connections.len() ==> conn_ok(w, #[trigger] connections[j])
    &&& forall|j: int| 0 <= j < constants.len() ==> constant_ok(w, #[trigger] constants[j])
    &&& forall|k: int| 0 <= k < gates.len() ==> gate_ok(w, k, #[trigger] gates[k])
}

impl CircuitBuilder {
    /// The witness satisfies every constraint recorded so far.
    pub open spec fn satisfied_by(self, w: Map<Target, u64>) -> bool {
        circuit_satisfied(self.gates@, self.connections@, self.constants@, w)
    }

    /// Checks whether `witness` satisfies the circuit built so far: every
    /// constant assignment, every equality connection, and every copy of
    /// every lookup gate.
    pub fn is_satisfied(&self, witness: &PartialWitness) -> (r: bool)
        requires
            forall|k: int| 0 <= k < self.gates@.len() ==> (#[trigger] self.gates@[k]).wf(),
        ensures
            r == self.satisfied_by(witness@),
    {
        let n_consts = self.constants.len();
        let mut j: usize = 0;
        while j < n_consts
            invariant
                j <= n_consts,
                n_consts == self.constants@.len(),
                forall|jj: int| 0 <= jj < j ==> constant_ok(witness@, #[trigger] self.constants@[jj]),
            decreases n_consts - j,
        {
            let (t, value) = self.constants[j];
            match witness.try_get(t) {
                Some(x) => {
                    if x != value {
                        assert(!constant_ok(witness@, self.constants@[j as int]));
                        return false;
                    }
                },
                None => {
                    assert(!constant_ok(witness@, self.constants@[j as int]));
                    return false;
                },
            }
            j += 1;
        }
        let n_conns = self.connections.len();
        let mut j: usize = 0;
        while j < n_conns
            invariant
                j <= n_conns,
                n_conns == self.connections@.len(),
                forall|jj: int|
                    0 <= jj < self.constants@.len() ==> constant_ok(
                        witness@,
                        #[trigger] self.constants@[jj],
                    ),
                forall|jj: int| 0 <= jj < j ==> conn_ok(witness@, #[trigger] self.connections@[jj]),
            decreases n_conns - j,
        {
            let (a, b) = self.connections[j];
            let va = witness.try_get(a);
            let vb = witness.try_get(b);
            match (va, vb) {
                (Some(x), Some(y)) => {
                    if x != y {
                        assert(!conn_ok(witness@, self.connections@[j as int]));
                        return false;
                    }
                },
                _ => {
                    assert(!conn_ok(witness@, self.connections@[j as int]));
                    return false;
                },
            }
            j += 1;
        }
        let n_gates = self.gates.len();
        let mut k: usize = 0;
        while k < n_gates
            invariant
                k <= n_gates,
                n_gates == self.gates@.len(),
                forall|kk: int| 0 <= kk < self.gates@.len() ==> (#[trigger] self.gates@[kk]).wf(),
                forall|jj: int|
                    0 <= jj < self.constants@.len() ==> constant_ok(
                        witness@,
                        #[trigger] self.constants@[jj],
                    ),
                forall|jj: int|
                    0 <= jj < self.connections@.len() ==> conn_ok(
                        witness@,
                        #[trigger] self.connections@[jj],
                    ),
                forall|kk: int| 0 <= kk < k ==> gate_ok(witness@, kk, #[trigger] self.gates@[kk]),
            decreases n_gates - k,
        {
            let g = self.gates[k];
            let mut copy: usize = 0;
            while copy < g.copies
                invariant
                    copy <= g.copies,
                    g == self.gates@[k as int],
                    g.wf(),
                    k < self.gates@.len(),
                    forall|cc: int|
                        0 <= cc < copy ==> copy_ok(witness@, k as int, g.length as int, cc),
                decreases g.copies - copy,
            {
                let acc_t = Target::wire(k, g.wire_access_index(copy));
                let idx_opt = witness.try_get(acc_t);
                match idx_opt {
                    Some(idx) => {
                        if idx >= g.length as u64 {
                            assert(!copy_ok(witness@, k as int, g.length as int, copy as int));
                            assert(!gate_ok(witness@, k as int, g));
                            return false;
                        }
                        let item_t = Target::wire(k, g.wire_list_item(idx as usize, copy));
                        let cl_t = Target::wire(k, g.wire_claimed_element(copy));
                        let vi = witness.try_get(item_t);
                        let vc = witness.try_get(cl_t);
                        match (vi, vc) {
                            (Some(x), Some(y)) => {
                                if x != y {
                                    assert(!copy_ok(
                                        witness@,
                                        k as int,
                                        g.length as int,
                                        copy as int,
                                    ));
                                    assert(!gate_ok(witness@, k as int, g));
                                    return false;
                                }
                                assert(copy_ok(witness@, k as int, g.length as int, copy as int));
                            },
                            _ => {
                                assert(!copy_ok(witness@, k as int, g.length as int, copy as int));
                                assert(!gate_ok(witness@, k as int, g));
                                return false;
                            },
                        }
                    },
                    None => {
                        assert(!copy_ok(witness@, k as int, g.length as int, copy as int));
                        assert(!gate_ok(witness@, k as int, g));
                        return false;
                    },
                }
                copy += 1;
            }
            k += 1;
        }
        true
    }
}

} // verus!
