use vstd::prelude::*;

use crate::builder::CircuitBuilder;
use crate::builder::fresh_virtual_targets;
use crate::builder::constant_entries;
use crate::builder::zero_values;
use crate::builder::pair_seq;
use crate::gate::RandomAccessGate;
use crate::gate::access_index_offset;
use crate::gate::claimed_element_offset;
use crate::gate::list_item_offset;
use crate::target::ExtensionTarget;
use crate::target::Target;
use crate::target::wire_target;

verus! {

/// Failure of a gadget entry point, detected before any gate is allocated.
#[derive(Clone, Copy, PartialEq, Eq, Structural, Debug)]
pub enum GadgetError {
    /// The supplied list was empty.
    InvalidInput,
}

/// Coordinate `copy` of every element of a list of extension elements, as one
/// column of coordinate wires.
pub open spec fn column(v: Seq<Seq<Target>>, copy: int) -> Seq<Target> {
    Seq::new(v.len(), |j: int| v[j][copy])
}

/// The coordinate sequences of a list of extension elements.
pub open spec fn ext_views(v: Seq<ExtensionTarget>) -> Seq<Seq<Target>> {
    Seq::new(v.len(), |j: int| v[j]@)
}

/// A list of bare targets seen as a list of one-coordinate elements.
pub open spec fn singleton_columns(v: Seq<Target>) -> Seq<Seq<Target>> {
    Seq::new(v.len(), |j: int| seq![v[j]])
}

/// The first `count` list-item connections of copy `copy` of the lookup gate
/// at index `g` with list length `n`: each coordinate in `col` wired to its
/// list-item slot.
pub open spec fn item_conns(g: int, n: int, copy: int, col: Seq<Target>, count: int) -> Seq<
    (Target, Target),
> {
    Seq::new(count as nat, |i: int| (col[i], wire_target(g, list_item_offset(n, i, copy))))
}

/// All the equality constraints one gadget invocation records for copy `copy`
/// of the lookup gate at index `g` with list length `n`: every list coordinate into
/// its list-item slot, then the access index into the access-index slot, then
/// the claimed coordinate into the claimed-element slot.
pub open spec fn copy_conns(
    g: int,
    n: int,
    copy: int,
    access_index: Target,
    claimed: Target,
    col: Seq<Target>,
) -> Seq<(Target, Target)> {
    item_conns(g, n, copy, col, n).push(
        (access_index, wire_target(g, access_index_offset(n, copy))),
    ).push((claimed, wire_target(g, claimed_element_offset(n, copy))))
}

/// The constraints of all `copies` copies, one block per copy, in copy order.
/// Every copy receives the same access-index wire, so all coordinate lookups
/// are forced to use the same selected position.
pub open spec fn ext_conns(
    g: int,
    n: int,
    copies: int,
    access_index: Target,
    claimed: Seq<Target>,
    v: Seq<Seq<Target>>,
) -> Seq<(Target, Target)>
    decreases copies,
{
    if copies <= 0 {
        Seq::empty()
    } else {
        ext_conns(g, n, copies - 1, access_index, claimed, v) + copy_conns(
            g,
            n,
            copies - 1,
            access_index,
            claimed[copies - 1],
            column(v, copies - 1),
        )
    }
}

impl CircuitBuilder {
    /// Constrains `claimed_element` to equal `v[access_index]`: any witness
    /// that satisfies the circuit must assign `claimed_element` the value of
    /// the list element its `access_index` value selects. The index is NOT
    /// range-checked here; a caller who needs a bounds check must add one
    /// with a separate gadget.
    ///
    /// A list of length 1 short-circuits to a single direct equality
    /// constraint and allocates no gate; the index is then not referenced at
    /// all. An empty list is rejected before any circuit state changes.
    pub fn random_access(
        &mut self,
        access_index: Target,
        claimed_element: Target,
        v: Vec<Target>,
    ) -> (res: Result<(), GadgetError>)
        requires
            v@.len() + 2 <= usize::MAX,
        ensures
            res is Err <==> v@.len() == 0,
            res matches Err(e) ==> e == GadgetError::InvalidInput,
            v@.len() == 0 ==> final(self).unchanged(*old(self)),
            v@.len() == 1 ==> final(self).only_connections_changed(*old(self)) && final(self).connections@ == old(self).connections@.push((claimed_element, v@[0])),
            v@.len() >= 2 ==> ({
                &&& final(self).gates@ == old(self).gates@.push(
                    RandomAccessGate { copies: 1, length: v@.len() as usize },
                )
                &&& final(self).connections@ == old(self).connections@ + copy_conns(
                    old(self).gates@.len() as int,
                    v@.len() as int,
                    0,
                    access_index,
                    claimed_element,
                    v@,
                )
                &&& final(self).constants@ == old(self).constants@
                &&& final(self).num_virtual == old(self).num_virtual
                &&& final(self).degree == old(self).degree
            }),
    {
        if v.len() == 0 {
            return Err(GadgetError::InvalidInput);
        }
        if v.len() == 1 {
            self.connect(claimed_element, v[0]);
            return Ok(());
        }
        let n = v.len();
        let gate = RandomAccessGate::new(1, n);
        let gate_index = self.add_gate(gate);
        let mut i: usize = 0;
        while i < n
            invariant
                i <= n,
                2 <= n,
                n == v@.len(),
                n + 2 <= usize::MAX,
                gate == (RandomAccessGate { copies: 1usize, length: n }),
                gate.wf(),
                gate_index as int == old(self).gates@.len(),
                self.gates@ == old(self).gates@.push(gate),
                self.constants@ == old(self).constants@,
                self.num_virtual == old(self).num_virtual,
                self.degree == old(self).degree,
                self.connections@ == old(self).connections@ + item_conns(
                    gate_index as int,
                    n as int,
                    0,
                    v@,
                    i as int,
                ),
            decreases n - i,
        {
            let off = gate.wire_list_item(i, 0);
            self.connect(v[i], Target::wire(gate_index, off));
            proof {
                assert(old(self).connections@ + item_conns(
                    gate_index as int,
                    n as int,
                    0,
                    v@,
                    i + 1 as int,
                ) =~= (old(self).connections@ + item_conns(
                    gate_index as int,
                    n as int,
                    0,
                    v@,
                    i as int,
                )).push((v@[i as int], wire_target(gate_index as int, list_item_offset(n as int, i as int, 0)))));
            }
            i += 1;
        }
        self.connect(access_index, Target::wire(gate_index, gate.wire_access_index(0)));
        self.connect(claimed_element, Target::wire(gate_index, gate.wire_claimed_element(0)));
        proof {
            assert(old(self).connections@ + copy_conns(
                gate_index as int,
                n as int,
                0,
                access_index,
                claimed_element,
                v@,
            ) =~= ((old(self).connections@ + item_conns(gate_index as int, n as int, 0, v@, n as int))
                .push((access_index, wire_target(gate_index as int, access_index_offset(n as int, 0)))))
                .push((claimed_element, wire_target(gate_index as int, claimed_element_offset(n as int, 0)))));
        }
        Ok(())
    }

    /// The extension-field form of `random_access`: constrains each of the D
    /// coordinates of `claimed_element` to equal the matching coordinate of
    /// `v[access_index]`, with one single shared access-index wire across all
    /// coordinates, so a satisfying witness cannot mix coordinates from
    /// different list positions. The index is NOT range-checked here.
    pub fn random_access_extension(
        &mut self,
        access_index: Target,
        claimed_element: ExtensionTarget,
        v: Vec<ExtensionTarget>,
    ) -> (res: Result<(), GadgetError>)
        requires
            old(self).degree * (v@.len() + 2) <= usize::MAX,
            claimed_element@.len() == old(self).degree,
            forall|j: int| 0 <= j < v@.len() ==> (#[trigger] v@[j])@.len() == old(self).degree,
        ensures
            res is Err <==> v@.len() == 0,
            res matches Err(e) ==> e == GadgetError::InvalidInput,
            v@.len() == 0 ==> final(self).unchanged(*old(self)),
            v@.len() == 1 ==> final(self).only_connections_changed(*old(self)) && final(self).connections@ == old(self).connections@ + pair_seq(claimed_element@, v@[0]@),
            v@.len() >= 2 ==> ({
                &&& final(self).gates@ == old(self).gates@.push(
                    RandomAccessGate { copies: old(self).degree, length: v@.len() as usize },
                )
                &&& final(self).connections@ == old(self).connections@ + ext_conns(
                    old(self).gates@.len() as int,
                    v@.len() as int,
                    old(self).degree as int,
                    access_index,
                    claimed_element@,
                    ext_views(v@),
                )
                &&& final(self).constants@ == old(self).constants@
                &&& final(self).num_virtual == old(self).num_virtual
                &&& final(self).degree == old(self).degree
            }),
    {
        if v.len() == 0 {
            return Err(GadgetError::InvalidInput);
        }
        if v.len() == 1 {
            self.connect_extension(&claimed_element, &v[0]);
            return Ok(());
        }
        let n = v.len();
        let d = self.degree;
        let gate = RandomAccessGate::new(d, n);
        let gate_index = self.add_gate(gate);
        let mut copy: usize = 0;
        while copy < d
            invariant
                copy <= d,
                2 <= n,
                n == v@.len(),
                d == old(self).degree,
                d * (n + 2) <= usize::MAX,
                claimed_element@.len() == d,
                forall|j: int| 0 <= j < v@.len() ==> (#[trigger] v@[j])@.len() == d,
                gate == (RandomAccessGate { copies: d, length: n }),
                gate.wf(),
                gate_index as int == old(self).gates@.len(),
                self.gates@ == old(self).gates@.push(gate),
                self.constants@ == old(self).constants@,
                self.num_virtual == old(self).num_virtual,
                self.degree == old(self).degree,
                self.connections@ == old(self).connections@ + ext_conns(
                    gate_index as int,
                    n as int,
                    copy as int,
                    access_index,
                    claimed_element@,
                    ext_views(v@),
                ),
            decreases d - copy,
        {
            let ghost before_copy = self.connections@;
            let mut i: usize = 0;
            while i < n
                invariant
                    i <= n,
                    2 <= n,
                    n == v@.len(),
                    copy < d,
                    d == old(self).degree,
                    d * (n + 2) <= usize::MAX,
                    claimed_element@.len() == d,
                    forall|j: int| 0 <= j < v@.len() ==> (#[trigger] v@[j])@.len() == d,
                    gate == (RandomAccessGate { copies: d, length: n }),
                    gate.wf(),
                    gate_index as int == old(self).gates@.len(),
                    self.gates@ == old(self).gates@.push(gate),
                    self.constants@ == old(self).constants@,
                    self.num_virtual == old(self).num_virtual,
                    self.degree == old(self).degree,
                    before_copy == old(self).connections@ + ext_conns(
                        gate_index as int,
                        n as int,
                        copy as int,
                        access_index,
                        claimed_element@,
                        ext_views(v@),
                    ),
                    self.connections@ == before_copy + item_conns(
                        gate_index as int,
                        n as int,
                        copy as int,
                        column(ext_views(v@), copy as int),
                        i as int,
                    ),
                decreases n - i,
            {
                let t = v[i].0[copy];
                let off = gate.wire_list_item(i, copy);
                self.connect(t, Target::wire(gate_index, off));
                proof {
                    assert(column(ext_views(v@), copy as int)[i as int] == v@[i as int]@[copy as int]);
                    assert(before_copy + item_conns(
                        gate_index as int,
                        n as int,
                        copy as int,
                        column(ext_views(v@), copy as int),
                        i + 1 as int,
                    ) =~= (before_copy + item_conns(
                        gate_index as int,
                        n as int,
                        copy as int,
                        column(ext_views(v@), copy as int),
                        i as int,
                    )).push((
                        column(ext_views(v@), copy as int)[i as int],
                        wire_target(gate_index as int, list_item_offset(n as int, i as int, copy as int)),
                    )));
                }
                i += 1;
            }
            self.connect(access_index, Target::wire(gate_index, gate.wire_access_index(copy)));
            self.connect(
                claimed_element.0[copy],
                Target::wire(gate_index, gate.wire_claimed_element(copy)),
            );
            proof {
                assert(ext_conns(
                    gate_index as int,
                    n as int,
                    copy + 1 as int,
                    access_index,
                    claimed_element@,
                    ext_views(v@),
                ) == ext_conns(
                    gate_index as int,
                    n as int,
                    copy as int,
                    access_index,
                    claimed_element@,
                    ext_views(v@),
                ) + copy_conns(
                    gate_index as int,
                    n as int,
                    copy as int,
                    access_index,
                    claimed_element@[copy as int],
                    column(ext_views(v@), copy as int),
                ));
                assert(old(self).connections@ + ext_conns(
                    gate_index as int,
                    n as int,
                    copy + 1 as int,
                    access_index,
                    claimed_element@,
                    ext_views(v@),
                ) =~= ((before_copy + item_conns(
                    gate_index as int,
                    n as int,
                    copy as int,
                    column(ext_views(v@), copy as int),
                    n as int,
                )).push((
                    access_index,
                    wire_target(gate_index as int, access_index_offset(n as int, copy as int)),
                ))).push((
                    claimed_element@[copy as int],
                    wire_target(gate_index as int, claimed_element_offset(n as int, copy as int)),
                )));
            }
            copy += 1;
        }
        Ok(())
    }

    /// Like `random_access_extension`, but a list shorter than `min_length`
    /// is first padded with a fixed zero extension element up to exactly
    /// `min_length`, so that call sites with different list lengths converge
    /// on a small set of gate parameterizations. Padded positions are never
    /// selected by a well-formed index; keeping the index below the original
    /// list length remains the caller's responsibility.
    ///
    /// A length-1 list short-circuits to direct coordinate equalities, as in
    /// `random_access_extension`, and no padding happens.
    pub fn random_access_padded(
        &mut self,
        access_index: Target,
        claimed_element: ExtensionTarget,
        v: Vec<ExtensionTarget>,
        min_length: usize,
    ) -> (res: Result<(), GadgetError>)
        requires
            claimed_element@.len() == old(self).degree,
            forall|j: int| 0 <= j < v@.len() ==> (#[trigger] v@[j])@.len() == old(self).degree,
            old(self).num_virtual + old(self).degree <= usize::MAX,
            old(self).degree * (v@.len() + 2) <= usize::MAX,
            old(self).degree * (min_length + 2) <= usize::MAX,
        ensures
            res is Err <==> v@.len() == 0,
            res matches Err(e) ==> e == GadgetError::InvalidInput,
            v@.len() == 0 ==> final(self).unchanged(*old(self)),
            v@.len() == 1 ==> final(self).only_connections_changed(*old(self)) && final(self).connections@ == old(self).connections@ + pair_seq(claimed_element@, v@[0]@),
            v@.len() >= 2 ==> ({
                let d = old(self).degree as int;
                let z = fresh_virtual_targets(old(self).num_virtual as int, d);
                let m: int = if v@.len() < min_length {
                    min_length as int
                } else {
                    v@.len() as int
                };
                let pv = ext_views(v@) + Seq::new((m - v@.len()) as nat, |j: int| z);
                &&& final(self).gates@ == old(self).gates@.push(
                    RandomAccessGate { copies: old(self).degree, length: m as usize },
                )
                &&& final(self).connections@ == old(self).connections@ + ext_conns(
                    old(self).gates@.len() as int,
                    m,
                    d,
                    access_index,
                    claimed_element@,
                    pv,
                )
                &&& final(self).constants@ == old(self).constants@ + constant_entries(
                    z,
                    zero_values(d),
                )
                &&& final(self).num_virtual == old(self).num_virtual + old(self).degree
                &&& final(self).degree == old(self).degree
            }),
    {
        let mut v = v;
        if v.len() == 0 {
            return Err(GadgetError::InvalidInput);
        }
        if v.len() == 1 {
            self.connect_extension(&claimed_element, &v[0]);
            return Ok(());
        }
        let ghost v0 = v@;
        let zero = self.zero_extension();
        let ghost m: int = if v0.len() < min_length {
            min_length as int
        } else {
            v0.len() as int
        };
        while v.len() < min_length
            invariant
                2 <= v0.len() <= v@.len(),
                v@.len() as int <= m,
                m == (if v0.len() < min_length {
                    min_length as int
                } else {
                    v0.len() as int
                }),
                zero@ == fresh_virtual_targets(old(self).num_virtual as int, old(self).degree as int),
                zero@.len() == old(self).degree,
                ext_views(v@) == ext_views(v0) + Seq::new(
                    (v@.len() - v0.len()) as nat,
                    |j: int| zero@,
                ),
                forall|j: int| 0 <= j < v@.len() ==> (#[trigger] v@[j])@.len() == old(self).degree,
                claimed_element@.len() == old(self).degree,
                old(self).degree * (m + 2) <= usize::MAX,
                self.num_virtual == old(self).num_virtual + old(self).degree,
                self.constants@ == old(self).constants@ + constant_entries(
                    zero@,
                    zero_values(old(self).degree as int),
                ),
                self.gates@ == old(self).gates@,
                self.connections@ == old(self).connections@,
                self.degree == old(self).degree,
            decreases min_length - v.len(),
        {
            let ghost prev = v@;
            let pad = zero.duplicate();
            v.push(pad);
            proof {
                let target_seq = ext_views(v0) + Seq::new((v@.len() - v0.len()) as nat, |j: int| zero@);
                assert forall|j: int| 0 <= j < v@.len() implies ext_views(v@)[j] == target_seq[j] by {
                    if j < prev.len() {
                        assert(v@[j] == prev[j]);
                        assert(ext_views(prev)[j] == (ext_views(v0) + Seq::new(
                            (prev.len() - v0.len()) as nat,
                            |jj: int| zero@,
                        ))[j]);
                    } else {
                        assert(v@[j] == pad);
                    }
                }
                assert(ext_views(v@) =~= target_seq);
            }
        }
        proof {
            assert(v@.len() as int == m);
            assert(old(self).degree * (v@.len() + 2) <= usize::MAX);
        }
        let res = self.random_access_extension(access_index, claimed_element, v);
        res
    }
}

} // verus!
