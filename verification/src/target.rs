use vstd::prelude::*;

verus! {

/// A reference to one field-element slot of the circuit: either an input wire
/// of an allocated gate, addressed by that gate's index and a local input
/// offset, or a virtual target that the builder allocated independently of
/// any gate. A target is just a placeholder for the value the prover's
/// witness will assign to it.
#[derive(Clone, Copy, PartialEq, Eq, Structural, Debug)]
pub enum Target {
    Wire { gate: usize, input: usize },
    Virtual { index: usize },
}

/// The wire target at gate index `gate`, input offset `input`,
/// in mathematical form.
pub open spec fn wire_target(gate: int, input: int) -> Target {
    Target::Wire { gate: gate as usize, input: input as usize }
}

/// The local input offset of a wire target (the virtual index otherwise).
pub open spec fn target_input(t: Target) -> int {
    match t {
        Target::Wire { gate: _, input } => input as int,
        Target::Virtual { index } => index as int,
    }
}

/// A target is valid for a circuit that holds `num_gates` gates and
/// `num_virtual` virtual targets when whatever it refers to has been
/// allocated already.
pub open spec fn target_wf(t: Target, num_gates: int, num_virtual: int) -> bool {
    match t {
        Target::Wire { gate, input: _ } => (gate as int) < num_gates,
        Target::Virtual { index } => (index as int) < num_virtual,
    }
}

impl Target {
    /// The wire at input offset `input` of gate index `gate`.
    pub fn wire(gate: usize, input: usize) -> (t: Target)
        ensures
            t == wire_target(gate as int, input as int),
    {
        Target::Wire { gate, input }
    }
}

/// One element of the degree-D extension of the base field, represented as
/// the ordered list of its D coordinate wires. The coordinate order is
/// significant and preserved by every operation.
#[derive(Clone, Debug)]
pub struct ExtensionTarget(pub Vec<Target>);

impl View for ExtensionTarget {
    type V = Seq<Target>;

    open spec fn view(&self) -> Seq<Target> {
        self.0@
    }
}

impl ExtensionTarget {
    /// A fresh element made of the same coordinate wires, in the same order.
    pub fn duplicate(&self) -> (r: ExtensionTarget)
        ensures
            r@ == self@,
    {
        let mut coords: Vec<Target> = Vec::new();
        let mut c: usize = 0;
        while c < self.0.len()
            invariant
                c <= self.0.len(),
                coords@ == self.0@.take(c as int),
            decreases self.0.len() - c,
        {
            coords.push(self.0[c]);
            proof {
                assert(self.0@.take(c + 1 as int) =~= self.0@.take(c as int).push(self.0@[c as int]));
            }
            c += 1;
        }
        proof {
            assert(self.0@.take(self.0@.len() as int) =~= self.0@);
        }
        ExtensionTarget(coords)
    }
}

} // verus!
