use vstd::prelude::*;

use crate::builder::conn_wf;
use crate::builder::parts_wf;
use crate::gate::RandomAccessGate;
use crate::gate::lemma_copy_block_in_range;
use crate::gate::access_index_offset;
use crate::gate::claimed_element_offset;
use crate::gate::list_item_offset;
use crate::random_access::column;
use crate::random_access::copy_conns;
use crate::random_access::ext_conns;
use crate::random_access::singleton_columns;
use crate::satisfaction::circuit_satisfied;
use crate::satisfaction::conn_ok;
use crate::satisfaction::constant_ok;
use crate::satisfaction::copy_ok;
use crate::satisfaction::gate_ok;
use crate::target::Target;
use crate::target::target_input;
use crate::target::target_wf;
use crate::target::wire_target;

verus! {

/// Every constraint of one copy block stands somewhere in the constraints of
/// all copies.
pub proof fn lemma_ext_conns_contains(
    g: int,
    n: int,
    copies: int,
    access_index: Target,
    claimed: Seq<Target>,
    v: Seq<Seq<Target>>,
    c: int,
    r: int,
)
    requires
        0 <= c < copies,
        0 <= r < n + 2,
        0 <= n,
    ensures
        ext_conns(g, n, copies, access_index, claimed, v).contains(
            copy_conns(g, n, c, access_index, claimed[c], column(v, c))[r],
        ),
    decreases copies,
{
    let left = ext_conns(g, n, copies - 1, access_index, claimed, v);
    let cc = copy_conns(g, n, c, access_index, claimed[c], column(v, c));
    let whole = ext_conns(g, n, copies, access_index, claimed, v);
    if c == copies - 1 {
        assert(cc.len() == n + 2);
        assert(whole[left.len() + r] == cc[r]);
        assert(0 <= left.len() + r < whole.len());
    } else {
        lemma_ext_conns_contains(g, n, copies - 1, access_index, claimed, v, c, r);
        let idx = choose|idx: int| 0 <= idx < left.len() && left[idx] == cc[r];
        assert(whole[idx] == cc[r]);
    }
}

/// If every constraint of every copy block holds under `w`, every constraint
/// of the whole invocation holds under `w`.
pub proof fn lemma_ext_conns_all_ok(
    w: Map<Target, u64>,
    g: int,
    n: int,
    copies: int,
    access_index: Target,
    claimed: Seq<Target>,
    v: Seq<Seq<Target>>,
)
    requires
        0 <= n,
        forall|c: int, r: int|
            0 <= c < copies && 0 <= r < n + 2 ==> conn_ok(
                w,
                #[trigger] copy_conns(g, n, c, access_index, claimed[c], column(v, c))[r],
            ),
    ensures
        forall|j: int|
            0 <= j < ext_conns(g, n, copies, access_index, claimed, v).len() ==> conn_ok(
                w,
                #[trigger] ext_conns(g, n, copies, access_index, claimed, v)[j],
            ),
    decreases copies,
{
    if copies <= 0 {
    } else {
        lemma_ext_conns_all_ok(w, g, n, copies - 1, access_index, claimed, v);
        let left = ext_conns(g, n, copies - 1, access_index, claimed, v);
        let cc = copy_conns(
            g,
            n,
            copies - 1,
            access_index,
            claimed[copies - 1],
            column(v, copies - 1),
        );
        let whole = ext_conns(g, n, copies, access_index, claimed, v);
        assert(cc.len() == n + 2);
        assert forall|j: int| 0 <= j < whole.len() implies conn_ok(w, #[trigger] whole[j]) by {
            if j < left.len() {
                assert(whole[j] == left[j]);
            } else {
                assert(whole[j] == cc[j - left.len()]);
            }
        }
    }
}

/// A member of the invocation's constraint block is satisfied under any
/// witness that satisfies the grown connection list.
proof fn lemma_conn_ok_in_ext(
    w: Map<Target, u64>,
    connections: Seq<(Target, Target)>,
    ext: Seq<(Target, Target)>,
    p: (Target, Target),
)
    requires
        forall|j: int|
            0 <= j < (connections + ext).len() ==> conn_ok(w, #[trigger] (connections + ext)[j]),
        ext.contains(p),
    ensures
        conn_ok(w, p),
{
    let idx = choose|idx: int| 0 <= idx < ext.len() && ext[idx] == p;
    assert((connections + ext)[connections.len() + idx] == p);
}

/// Soundness of the extension-field gadget: whatever witness satisfies the
/// circuit after an invocation on list `v` must, in every coordinate, assign
/// the claimed element the value of the list element its access-index value
/// selects. In particular a witness in which even one coordinate of the
/// claimed element differs from the selected element's coordinate cannot
/// satisfy the circuit, and the shared index wire is forced below the list
/// length.
pub proof fn lemma_random_access_extension_sound(
    gates: Seq<RandomAccessGate>,
    connections: Seq<(Target, Target)>,
    constants: Seq<(Target, u64)>,
    access_index: Target,
    claimed: Seq<Target>,
    v: Seq<Seq<Target>>,
    d: int,
    w: Map<Target, u64>,
)
    requires
        1 <= d <= usize::MAX,
        0 <= v.len() <= usize::MAX,
        circuit_satisfied(
            gates.push(RandomAccessGate { copies: d as usize, length: v.len() as usize }),
            connections + ext_conns(
                gates.len() as int,
                v.len() as int,
                d,
                access_index,
                claimed,
                v,
            ),
            constants,
            w,
        ),
    ensures
        w.contains_key(access_index),
        (w[access_index] as int) < v.len(),
        forall|c: int|
            0 <= c < d ==> w.contains_key(#[trigger] claimed[c]) && w.contains_key(
                v[w[access_index] as int][c],
            ) && w[claimed[c]] == w[v[w[access_index] as int][c]],
{
    let k = gates.len() as int;
    let n = v.len() as int;
    let g = RandomAccessGate { copies: d as usize, length: v.len() as usize };
    let ext = ext_conns(k, n, d, access_index, claimed, v);
    assert(gates.push(g)[k] == g);
    assert(gate_ok(w, k, g));
    assert forall|c: int| 0 <= c < d implies w.contains_key(#[trigger] claimed[c])
        && w.contains_key(access_index) && (w[access_index] as int) < n && w.contains_key(
        v[w[access_index] as int][c],
    ) && w[claimed[c]] == w[v[w[access_index] as int][c]] by {
        let col = column(v, c);
        let cc = copy_conns(k, n, c, access_index, claimed[c], col);
        assert(cc.len() == n + 2);
        assert(g.copies as int == d);
        assert(g.length as int == n);
        assert(copy_ok(w, k, g.length as int, c));
        assert(copy_ok(w, k, n, c));
        let acc = wire_target(k, access_index_offset(n, c));
        lemma_ext_conns_contains(k, n, d, access_index, claimed, v, c, n);
        assert(cc[n] == (access_index, acc));
        lemma_conn_ok_in_ext(w, connections, ext, cc[n]);
        let i = w[acc] as int;
        assert(w[access_index] == w[acc]);
        assert(0 <= i < n);
        lemma_ext_conns_contains(k, n, d, access_index, claimed, v, c, i);
        assert(cc[i] == (col[i], wire_target(k, list_item_offset(n, i, c))));
        assert(col[i] == v[i][c]);
        lemma_conn_ok_in_ext(w, connections, ext, cc[i]);
        lemma_ext_conns_contains(k, n, d, access_index, claimed, v, c, n + 1);
        assert(cc[n + 1] == (claimed[c], wire_target(k, claimed_element_offset(n, c))));
        lemma_conn_ok_in_ext(w, connections, ext, cc[n + 1]);
    }
}

/// Soundness of the base-field gadget: whatever witness satisfies the circuit
/// after an invocation on list `v` must assign `claimed` the value of the
/// list element its access-index value selects. A witness in which the
/// claimed element differs from the selected element cannot satisfy the
/// circuit.
pub proof fn lemma_random_access_sound(
    gates: Seq<RandomAccessGate>,
    connections: Seq<(Target, Target)>,
    constants: Seq<(Target, u64)>,
    access_index: Target,
    claimed: Target,
    v: Seq<Target>,
    w: Map<Target, u64>,
)
    requires
        0 <= v.len() <= usize::MAX,
        circuit_satisfied(
            gates.push(RandomAccessGate { copies: 1, length: v.len() as usize }),
            connections + copy_conns(
                gates.len() as int,
                v.len() as int,
                0,
                access_index,
                claimed,
                v,
            ),
            constants,
            w,
        ),
    ensures
        w.contains_key(access_index),
        (w[access_index] as int) < v.len(),
        w.contains_key(claimed),
        w.contains_key(v[w[access_index] as int]),
        w[claimed] == w[v[w[access_index] as int]],
{
    let k = gates.len() as int;
    let n = v.len() as int;
    let ce = seq![claimed];
    let vv = singleton_columns(v);
    assert(column(vv, 0) =~= v);
    assert(ext_conns(k, n, 0, access_index, ce, vv) == Seq::<(Target, Target)>::empty());
    assert(ext_conns(k, n, 1, access_index, ce, vv) == ext_conns(k, n, 0, access_index, ce, vv)
        + copy_conns(k, n, 0, access_index, ce[0], column(vv, 0)));
    assert(Seq::<(Target, Target)>::empty() + copy_conns(k, n, 0, access_index, claimed, v)
        =~= copy_conns(k, n, 0, access_index, claimed, v));
    lemma_random_access_extension_sound(
        gates,
        connections,
        constants,
        access_index,
        ce,
        vv,
        1,
        w,
    );
    let i = w[access_index] as int;
    assert(vv[i][0] == v[i]);
}

/// The value the canonical witness extension assigns to the new gate's input
/// wire at offset `off`, when the invocation selects position `i`: the
/// access-index slot of each copy holds `i`, the claimed-element slot holds
/// the selected element's coordinate, and each list-item slot holds its list
/// element's coordinate.
pub open spec fn lookup_slot_value(
    n: int,
    i: int,
    w: Map<Target, u64>,
    v: Seq<Seq<Target>>,
    off: int,
) -> u64 {
    let copy = off / (n + 2);
    let r = off % (n + 2);
    if r == 0 {
        i as u64
    } else if r == 1 {
        w[v[i][copy]]
    } else {
        w[v[r - 2][copy]]
    }
}

/// The canonical assignment to the wires of the lookup gate allocated at index `k`.
pub open spec fn gate_witness(
    k: int,
    n: int,
    d: int,
    i: int,
    w: Map<Target, u64>,
    v: Seq<Seq<Target>>,
) -> Map<Target, u64> {
    Map::new(
        |t: Target|
            t matches Target::Wire { gate, input } && gate as int == k && (input as int) < d * (n
                + 2),
        |t: Target| lookup_slot_value(n, i, w, v, target_input(t)),
    )
}

/// A caller witness extended with the canonical assignment to the new gate's
/// wires. On every target that existed before the invocation it agrees with
/// the caller witness.
pub open spec fn extended_witness(
    k: int,
    n: int,
    d: int,
    i: int,
    w: Map<Target, u64>,
    v: Seq<Seq<Target>>,
) -> Map<Target, u64> {
    w.union_prefer_right(gate_witness(k, n, d, i, w, v))
}

/// What the canonical gate assignment holds at the slot of copy `c`, local
/// position `r`.
proof fn lemma_gate_witness_slot(
    k: int,
    n: int,
    d: int,
    i: int,
    w: Map<Target, u64>,
    v: Seq<Seq<Target>>,
    c: int,
    r: int,
)
    requires
        0 <= c < d,
        0 <= r < n + 2,
        0 <= n,
        0 <= i,
        0 <= k <= usize::MAX,
        d * (n + 2) <= usize::MAX,
    ensures
        gate_witness(k, n, d, i, w, v).dom().contains(wire_target(k, c * (n + 2) + r)),
        gate_witness(k, n, d, i, w, v)[wire_target(k, c * (n + 2) + r)] == (if r == 0 {
            i as u64
        } else if r == 1 {
            w[v[i][c]]
        } else {
            w[v[r - 2][c]]
        }),
{
    lemma_copy_block_in_range(d, n, c);
    let off = c * (n + 2) + r;
    assert(0 <= off < d * (n + 2));
    vstd::arithmetic::div_mod::lemma_fundamental_div_mod_converse(off, n + 2, c, r);
    let t = wire_target(k, off);
    assert(target_input(t) == off);
}

/// Satisfaction is framed by the circuit: adding assignments for targets the
/// circuit never mentions cannot break it.
pub proof fn lemma_satisfied_frame(
    gates: Seq<RandomAccessGate>,
    connections: Seq<(Target, Target)>,
    constants: Seq<(Target, u64)>,
    num_virtual: int,
    w: Map<Target, u64>,
    m: Map<Target, u64>,
)
    requires
        gates.len() <= usize::MAX,
        parts_wf(connections, constants, gates.len() as int, num_virtual),
        circuit_satisfied(gates, connections, constants, w),
        forall|t: Target|
            m.dom().contains(t) ==> !target_wf(t, gates.len() as int, num_virtual),
    ensures
        circuit_satisfied(gates, connections, constants, w.union_prefer_right(m)),
{
    let ng = gates.len() as int;
    let w2 = w.union_prefer_right(m);
    assert forall|t: Target| target_wf(t, ng, num_virtual) implies (w2.contains_key(t)
        == w.contains_key(t)) && (w.contains_key(t) ==> w2[t] == w[t]) by {
        assert(!m.dom().contains(t));
    }
    assert forall|j: int| 0 <= j < connections.len() implies conn_ok(
        w2,
        #[trigger] connections[j],
    ) by {
        assert(conn_ok(w, connections[j]));
        assert(conn_wf(connections[j], ng, num_virtual));
        assert(target_wf(connections[j].0, ng, num_virtual));
        assert(target_wf(connections[j].1, ng, num_virtual));
    }
    assert forall|j: int| 0 <= j < constants.len() implies constant_ok(
        w2,
        #[trigger] constants[j],
    ) by {
        assert(constant_ok(w, constants[j]));
        assert(target_wf(constants[j].0, ng, num_virtual));
    }
    assert forall|k: int| 0 <= k < gates.len() implies gate_ok(w2, k, #[trigger] gates[k]) by {
        let g = gates[k];
        assert(gate_ok(w, k, g));
        assert forall|copy: int| 0 <= copy < g.copies implies copy_ok(
            w2,
            k,
            g.length as int,
            copy,
        ) by {
            assert(copy_ok(w, k, g.length as int, copy));
            let nn = g.length as int;
            let acc = wire_target(k, access_index_offset(nn, copy));
            let cl = wire_target(k, claimed_element_offset(nn, copy));
            assert(target_wf(acc, ng, num_virtual));
            assert(target_wf(cl, ng, num_virtual));
            let item = wire_target(k, list_item_offset(nn, w[acc] as int, copy));
            assert(target_wf(item, ng, num_virtual));
            assert(w2[acc] == w[acc]);
        }
    }
}

/// Completeness of the extension-field gadget: any witness that satisfies the
/// circuit before the invocation, selects position `i`, and assigns the
/// claimed element the value of `v[i]` coordinate-wise, extends to a witness
/// that satisfies the circuit after the invocation. The extension touches
/// only the new gate's own wires, so every caller-visible assignment is kept.
pub proof fn lemma_random_access_extension_satisfiable(
    gates: Seq<RandomAccessGate>,
    connections: Seq<(Target, Target)>,
    constants: Seq<(Target, u64)>,
    num_virtual: int,
    access_index: Target,
    claimed: Seq<Target>,
    v: Seq<Seq<Target>>,
    d: int,
    i: int,
    w: Map<Target, u64>,
)
    requires
        0 <= d <= usize::MAX,
        0 <= i < v.len(),
        v.len() <= usize::MAX,
        gates.len() <= usize::MAX,
        d * (v.len() + 2) <= usize::MAX,
        parts_wf(connections, constants, gates.len() as int, num_virtual),
        circuit_satisfied(gates, connections, constants, w),
        target_wf(access_index, gates.len() as int, num_virtual),
        forall|c: int|
            0 <= c < d ==> target_wf(#[trigger] claimed[c], gates.len() as int, num_virtual),
        forall|j: int, c: int|
            0 <= j < v.len() && 0 <= c < d ==> target_wf(
                #[trigger] v[j][c],
                gates.len() as int,
                num_virtual,
            ),
        w.contains_key(access_index),
        w[access_index] == i as u64,
        forall|j: int, c: int|
            0 <= j < v.len() && 0 <= c < d ==> w.contains_key(#[trigger] v[j][c]),
        forall|c: int|
            0 <= c < d ==> w.contains_key(#[trigger] claimed[c]) && w[claimed[c]] == w[v[i][c]],
    ensures
        circuit_satisfied(
            gates.push(RandomAccessGate { copies: d as usize, length: v.len() as usize }),
            connections + ext_conns(
                gates.len() as int,
                v.len() as int,
                d,
                access_index,
                claimed,
                v,
            ),
            constants,
            extended_witness(gates.len() as int, v.len() as int, d, i, w, v),
        ),
        forall|t: Target|
            target_wf(t, gates.len() as int, num_virtual) ==> (extended_witness(
                gates.len() as int,
                v.len() as int,
                d,
                i,
                w,
                v,
            ).contains_key(t) == w.contains_key(t) && (w.contains_key(t)
                ==> extended_witness(gates.len() as int, v.len() as int, d, i, w, v)[t] == w[t])),
{
    let k = gates.len() as int;
    let n = v.len() as int;
    let m = gate_witness(k, n, d, i, w, v);
    let w2 = extended_witness(k, n, d, i, w, v);
    let g = RandomAccessGate { copies: d as usize, length: v.len() as usize };
    let ext = ext_conns(k, n, d, access_index, claimed, v);
    assert forall|t: Target| m.dom().contains(t) implies !target_wf(t, k, num_virtual) by {}
    lemma_satisfied_frame(gates, connections, constants, num_virtual, w, m);
    assert forall|t: Target| target_wf(t, k, num_virtual) implies (w2.contains_key(t)
        == w.contains_key(t)) && (w.contains_key(t) ==> w2[t] == w[t]) by {
        assert(!m.dom().contains(t));
    }
    assert forall|c: int, r: int| 0 <= c < d && 0 <= r < n + 2 implies conn_ok(
        w2,
        #[trigger] copy_conns(k, n, c, access_index, claimed[c], column(v, c))[r],
    ) by {
        let cc = copy_conns(k, n, c, access_index, claimed[c], column(v, c));
        if r < n {
            assert(cc[r] == (column(v, c)[r], wire_target(k, list_item_offset(n, r, c))));
            assert(column(v, c)[r] == v[r][c]);
            assert(list_item_offset(n, r, c) == c * (n + 2) + (2 + r));
            lemma_gate_witness_slot(k, n, d, i, w, v, c, 2 + r);
            let slot = wire_target(k, c * (n + 2) + (2 + r));
            assert(m.dom().contains(slot));
            assert(w2[slot] == m[slot]);
            assert(w2[slot] == w[v[r][c]]);
            assert(target_wf(v[r][c], k, num_virtual));
            assert(w2.contains_key(v[r][c]) && w2[v[r][c]] == w[v[r][c]]);
        } else if r == n {
            assert(cc[r] == (access_index, wire_target(k, access_index_offset(n, c))));
            assert(access_index_offset(n, c) == c * (n + 2) + 0);
            lemma_gate_witness_slot(k, n, d, i, w, v, c, 0);
            let slot = wire_target(k, c * (n + 2) + 0);
            assert(m.dom().contains(slot));
            assert(w2[slot] == m[slot]);
            assert(w2[slot] == i as u64);
            assert(w2.contains_key(access_index) && w2[access_index] == i as u64);
        } else {
            assert(cc[r] == (claimed[c], wire_target(k, claimed_element_offset(n, c))));
            assert(claimed_element_offset(n, c) == c * (n + 2) + 1);
            lemma_gate_witness_slot(k, n, d, i, w, v, c, 1);
            let slot = wire_target(k, c * (n + 2) + 1);
            assert(m.dom().contains(slot));
            assert(w2[slot] == m[slot]);
            assert(w2[slot] == w[v[i][c]]);
            assert(target_wf(claimed[c], k, num_virtual));
            assert(w2.contains_key(claimed[c]) && w2[claimed[c]] == w[v[i][c]]);
        }
    }
    lemma_ext_conns_all_ok(w2, k, n, d, access_index, claimed, v);
    assert forall|j: int| 0 <= j < (connections + ext).len() implies conn_ok(
        w2,
        #[trigger] (connections + ext)[j],
    ) by {
        if j < connections.len() {
            assert((connections + ext)[j] == connections[j]);
            assert(conn_ok(w2, connections[j]));
        } else {
            assert((connections + ext)[j] == ext[j - connections.len()]);
        }
    }
    assert forall|kk: int| 0 <= kk < gates.push(g).len() implies gate_ok(
        w2,
        kk,
        #[trigger] gates.push(g)[kk],
    ) by {
        if kk < gates.len() {
            assert(gates.push(g)[kk] == gates[kk]);
            assert(gate_ok(w2, kk, gates[kk]));
        } else {
            assert(gates.push(g)[kk] == g);
            assert forall|c: int| 0 <= c < g.copies implies copy_ok(
                w2,
                k,
                g.length as int,
                c,
            ) by {
                assert(g.length as int == n);
                let acc = wire_target(k, access_index_offset(n, c));
                assert(access_index_offset(n, c) == c * (n + 2) + 0);
                lemma_gate_witness_slot(k, n, d, i, w, v, c, 0);
                assert(m.dom().contains(acc));
                assert(w2.contains_key(acc));
                assert(w2[acc] == m[acc]);
                assert(w2[acc] == i as u64);
                assert(w2[acc] as int == i);
                let cl = wire_target(k, claimed_element_offset(n, c));
                assert(claimed_element_offset(n, c) == c * (n + 2) + 1);
                lemma_gate_witness_slot(k, n, d, i, w, v, c, 1);
                assert(w2.contains_key(cl));
                assert(w2[cl] == w[v[i][c]]);
                let item = wire_target(k, list_item_offset(n, i, c));
                assert(list_item_offset(n, i, c) == c * (n + 2) + (2 + i));
                lemma_gate_witness_slot(k, n, d, i, w, v, c, 2 + i);
                assert(w2.contains_key(item));
                assert(w2[item] == w[v[i][c]]);
            }
            assert(gate_ok(w2, k, g));
        }
    }
}

/// Completeness of the base-field gadget: a witness that satisfies the
/// circuit before the invocation, selects position `i`, and assigns `claimed`
/// the value of `v[i]` extends to a witness that satisfies the circuit after
/// the invocation, keeping every caller-visible assignment.
pub proof fn lemma_random_access_satisfiable(
    gates: Seq<RandomAccessGate>,
    connections: Seq<(Target, Target)>,
    constants: Seq<(Target, u64)>,
    num_virtual: int,
    access_index: Target,
    claimed: Target,
    v: Seq<Target>,
    i: int,
    w: Map<Target, u64>,
)
    requires
        0 <= i < v.len(),
        v.len() + 2 <= usize::MAX,
        gates.len() <= usize::MAX,
        parts_wf(connections, constants, gates.len() as int, num_virtual),
        circuit_satisfied(gates, connections, constants, w),
        target_wf(access_index, gates.len() as int, num_virtual),
        target_wf(claimed, gates.len() as int, num_virtual),
        forall|j: int|
            0 <= j < v.len() ==> target_wf(#[trigger] v[j], gates.len() as int, num_virtual),
        w.contains_key(access_index),
        w[access_index] == i as u64,
        forall|j: int| 0 <= j < v.len() ==> w.contains_key(#[trigger] v[j]),
        w.contains_key(claimed),
        w[claimed] == w[v[i]],
    ensures
        circuit_satisfied(
            gates.push(RandomAccessGate { copies: 1, length: v.len() as usize }),
            connections + copy_conns(
                gates.len() as int,
                v.len() as int,
                0,
                access_index,
                claimed,
                v,
            ),
            constants,
            extended_witness(gates.len() as int, v.len() as int, 1, i, w, singleton_columns(v)),
        ),
        forall|t: Target|
            target_wf(t, gates.len() as int, num_virtual) ==> (extended_witness(
                gates.len() as int,
                v.len() as int,
                1,
                i,
                w,
                singleton_columns(v),
            ).contains_key(t) == w.contains_key(t) && (w.contains_key(t) ==> extended_witness(
                gates.len() as int,
                v.len() as int,
                1,
                i,
                w,
                singleton_columns(v),
            )[t] == w[t])),
{
    let k = gates.len() as int;
    let n = v.len() as int;
    let ce = seq![claimed];
    let vv = singleton_columns(v);
    assert forall|j: int, c: int| 0 <= j < vv.len() && 0 <= c < 1 implies target_wf(
        #[trigger] vv[j][c],
        k,
        num_virtual,
    ) && w.contains_key(vv[j][c]) by {
        assert(vv[j][0] == v[j]);
    }
    assert(vv[i][0] == v[i]);
    lemma_random_access_extension_satisfiable(
        gates,
        connections,
        constants,
        num_virtual,
        access_index,
        ce,
        vv,
        1,
        i,
        w,
    );
    assert(column(vv, 0) =~= v);
    assert(ext_conns(k, n, 0, access_index, ce, vv) == Seq::<(Target, Target)>::empty());
    assert(ext_conns(k, n, 1, access_index, ce, vv) == ext_conns(k, n, 0, access_index, ce, vv)
        + copy_conns(k, n, 0, access_index, ce[0], column(vv, 0)));
    assert(Seq::<(Target, Target)>::empty() + copy_conns(k, n, 0, access_index, claimed, v)
        =~= copy_conns(k, n, 0, access_index, claimed, v));
}

/// Positions other than the selected one do not matter for satisfiability:
/// for a fixed selected position `i`, replacing every other list element by
/// anything else (a permutation or an outright mutation of the rest of the
/// list) still leaves an extension of the same caller witness that satisfies
/// the circuit, as long as position `i` itself is kept.
pub proof fn lemma_other_positions_irrelevant(
    gates: Seq<RandomAccessGate>,
    connections: Seq<(Target, Target)>,
    constants: Seq<(Target, u64)>,
    num_virtual: int,
    access_index: Target,
    claimed: Seq<Target>,
    v: Seq<Seq<Target>>,
    v_alt: Seq<Seq<Target>>,
    d: int,
    i: int,
    w: Map<Target, u64>,
)
    requires
        0 <= d <= usize::MAX,
        0 <= i < v.len(),
        v_alt.len() == v.len(),
        v_alt[i] == v[i],
        v.len() <= usize::MAX,
        gates.len() <= usize::MAX,
        d * (v.len() + 2) <= usize::MAX,
        parts_wf(connections, constants, gates.len() as int, num_virtual),
        circuit_satisfied(gates, connections, constants, w),
        target_wf(access_index, gates.len() as int, num_virtual),
        forall|c: int|
            0 <= c < d ==> target_wf(#[trigger] claimed[c], gates.len() as int, num_virtual),
        forall|j: int, c: int|
            0 <= j < v_alt.len() && 0 <= c < d ==> target_wf(
                #[trigger] v_alt[j][c],
                gates.len() as int,
                num_virtual,
            ),
        w.contains_key(access_index),
        w[access_index] == i as u64,
        forall|j: int, c: int|
            0 <= j < v_alt.len() && 0 <= c < d ==> w.contains_key(#[trigger] v_alt[j][c]),
        forall|c: int|
            0 <= c < d ==> w.contains_key(#[trigger] claimed[c]) && w[claimed[c]] == w[v[i][c]],
    ensures
        circuit_satisfied(
            gates.push(RandomAccessGate { copies: d as usize, length: v_alt.len() as usize }),
            connections + ext_conns(
                gates.len() as int,
                v_alt.len() as int,
                d,
                access_index,
                claimed,
                v_alt,
            ),
            constants,
            extended_witness(gates.len() as int, v_alt.len() as int, d, i, w, v_alt),
        ),
{
    assert forall|c: int| 0 <= c < d implies w.contains_key(#[trigger] claimed[c]) && w[claimed[c]]
        == w[v_alt[i][c]] by {
        assert(v_alt[i][c] == v[i][c]);
    }
    lemma_random_access_extension_satisfiable(
        gates,
        connections,
        constants,
        num_virtual,
        access_index,
        claimed,
        v_alt,
        d,
        i,
        w,
    );
}

/// Soundness of the padded gadget: padding changes a gate's size parameter
/// but not the meaning of the original positions. For any witness that
/// satisfies the padded circuit and whose access-index value lies within the
/// original (unpadded) list, the claimed element still equals the original
/// list element at that position, coordinate by coordinate.
pub proof fn lemma_random_access_padded_sound(
    gates: Seq<RandomAccessGate>,
    connections: Seq<(Target, Target)>,
    constants: Seq<(Target, u64)>,
    access_index: Target,
    claimed: Seq<Target>,
    v: Seq<Seq<Target>>,
    padding: Seq<Seq<Target>>,
    d: int,
    w: Map<Target, u64>,
)
    requires
        1 <= d <= usize::MAX,
        v.len() + padding.len() <= usize::MAX,
        circuit_satisfied(
            gates.push(
                RandomAccessGate {
                    copies: d as usize,
                    length: (v.len() + padding.len()) as usize,
                },
            ),
            connections + ext_conns(
                gates.len() as int,
                (v.len() + padding.len()) as int,
                d,
                access_index,
                claimed,
                v + padding,
            ),
            constants,
            w,
        ),
        w.contains_key(access_index),
        (w[access_index] as int) < v.len(),
    ensures
        forall|c: int|
            0 <= c < d ==> w.contains_key(#[trigger] claimed[c]) && w.contains_key(
                v[w[access_index] as int][c],
            ) && w[claimed[c]] == w[v[w[access_index] as int][c]],
{
    let full = v + padding;
    assert(full.len() == v.len() + padding.len());
    lemma_random_access_extension_sound(
        gates,
        connections,
        constants,
        access_index,
        claimed,
        full,
        d,
        w,
    );
    let i = w[access_index] as int;
    assert(full[i] == v[i]);
    assert forall|c: int| 0 <= c < d implies w.contains_key(#[trigger] claimed[c])
        && w.contains_key(v[i][c]) && w[claimed[c]] == w[v[i][c]] by {
        assert(w.contains_key(claimed[c]) && w.contains_key(
            full[w[access_index] as int][c],
        ) && w[claimed[c]] == w[full[w[access_index] as int][c]]);
        assert(full[i][c] == v[i][c]);
    }
}

} // verus!
