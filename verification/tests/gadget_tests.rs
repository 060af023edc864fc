use random_access::builder::CircuitBuilder;
use random_access::random_access::GadgetError;
use random_access::target::ExtensionTarget;
use random_access::target::Target;
use random_access::witness::PartialWitness;

/// Assigns every recorded constant of `builder` into `pw`.
fn assign_constants(builder: &CircuitBuilder, pw: &mut PartialWitness) {
    for (t, value) in builder.constants.iter() {
        pw.set_target(*t, *value);
    }
}

/// Assigns the wires of gate `k` so that every copy selects `index` from the
/// column values in `columns` (one inner vector per list position).
fn assign_gate(
    builder: &CircuitBuilder,
    pw: &mut PartialWitness,
    k: usize,
    index: u64,
    columns: &[Vec<u64>],
) {
    let g = builder.gates[k];
    for c in 0..g.copies {
        pw.set_target(Target::wire(k, g.wire_access_index(c)), index);
        pw.set_target(
            Target::wire(k, g.wire_claimed_element(c)),
            columns[index as usize][c],
        );
        for j in 0..g.length {
            pw.set_target(Target::wire(k, g.wire_list_item(j, c)), columns[j][c]);
        }
    }
}

fn test_random_access_given_len(len_log: usize) {
    let len = 1usize << len_log;
    let d = 4usize;
    let mut builder = CircuitBuilder::new(d);
    let vals: Vec<Vec<u64>> = (0..len)
        .map(|i| (0..d).map(|c| (i * 7 + c * 3 + 1) as u64).collect())
        .collect();
    let v: Vec<ExtensionTarget> = vals.iter().map(|x| builder.constant_extension(x)).collect();

    for i in 0..len {
        let it = builder.constant(i as u64);
        let elem = builder.constant_extension(&vals[i]);
        builder
            .random_access_extension(it, elem, v.clone())
            .unwrap();
    }

    let mut pw = PartialWitness::new();
    assign_constants(&builder, &mut pw);
    assert_eq!(builder.gates.len(), len);
    for k in 0..builder.gates.len() {
        assign_gate(&builder, &mut pw, k, k as u64, &vals);
    }
    assert!(builder.is_satisfied(&pw));
}

#[test]
fn test_random_access() {
    for len_log in 1..3 {
        test_random_access_given_len(len_log);
    }
}

#[test]
fn length_one_list_adds_no_gate_and_one_connection() {
    let mut b = CircuitBuilder::new(2);
    let x = b.add_virtual_target();
    let idx = b.add_virtual_target();
    let claimed = b.add_virtual_target();
    b.random_access(idx, claimed, vec![x]).unwrap();
    assert_eq!(b.gates.len(), 0);
    assert_eq!(b.connections.len(), 1);
}

#[test]
fn length_one_extension_adds_one_connection_per_coordinate() {
    let mut b = CircuitBuilder::new(3);
    let x = b.zero_extension();
    let idx = b.add_virtual_target();
    let claimed = b.zero_extension();
    b.random_access_extension(idx, claimed, vec![x]).unwrap();
    assert_eq!(b.gates.len(), 0);
    assert_eq!(b.connections.len(), 3);
}

/// The circuit of the concrete scenario: list [10, 20, 30, 40] over the base
/// field, index 2, and the given claimed value, together with the natural
/// witness whose claimed-element slot carries `slot_value`.
fn concrete_base_lookup(claimed_value: u64, slot_value: u64) -> (CircuitBuilder, PartialWitness) {
    let mut b = CircuitBuilder::new(1);
    let vals = [10u64, 20, 30, 40];
    let v: Vec<Target> = vals.iter().map(|x| b.constant(*x)).collect();
    let idx = b.constant(2);
    let claimed = b.constant(claimed_value);
    b.random_access(idx, claimed, v).unwrap();
    let mut pw = PartialWitness::new();
    assign_constants(&b, &mut pw);
    let g = b.gates[0];
    pw.set_target(Target::wire(0, g.wire_access_index(0)), 2);
    pw.set_target(Target::wire(0, g.wire_claimed_element(0)), slot_value);
    for j in 0..4 {
        pw.set_target(Target::wire(0, g.wire_list_item(j, 0)), vals[j]);
    }
    (b, pw)
}

#[test]
fn concrete_lookup_succeeds() {
    let (b, pw) = concrete_base_lookup(30, 30);
    // One gate and len + 2 new equality constraints on the non-trivial path.
    assert_eq!(b.gates.len(), 1);
    assert_eq!(b.connections.len(), 4 + 2);
    assert!(b.is_satisfied(&pw));
}

#[test]
fn concrete_lookup_wrong_claim_fails() {
    // Claiming 31 cannot be made to satisfy: either the claimed-element slot
    // matches the selected list item (30) and the connection to the claimed
    // constant breaks, or it matches the constant (31) and the lookup gate breaks.
    let (b, pw) = concrete_base_lookup(31, 30);
    assert!(!b.is_satisfied(&pw));
    let (b, pw) = concrete_base_lookup(31, 31);
    assert!(!b.is_satisfied(&pw));
}

#[test]
fn length_one_ignores_index_value() {
    let mut b = CircuitBuilder::new(1);
    let x = b.constant(10);
    let idx = b.add_virtual_target();
    let claimed = b.constant(10);
    b.random_access(idx, claimed, vec![x]).unwrap();
    let mut pw = PartialWitness::new();
    assign_constants(&b, &mut pw);
    // The index is not referenced, let alone range-checked: a wildly
    // out-of-range value changes nothing.
    pw.set_target(idx, 999);
    assert!(b.is_satisfied(&pw));
}

#[test]
fn satisfiable_at_each_index() {
    let vals = [5u64, 6, 7];
    for i in 0..3u64 {
        let mut b = CircuitBuilder::new(1);
        let v: Vec<Target> = vals.iter().map(|x| b.constant(*x)).collect();
        let idx = b.add_virtual_target();
        let claimed = b.add_virtual_target();
        b.random_access(idx, claimed, v).unwrap();
        let mut pw = PartialWitness::new();
        assign_constants(&b, &mut pw);
        pw.set_target(idx, i);
        pw.set_target(claimed, vals[i as usize]);
        let g = b.gates[0];
        pw.set_target(Target::wire(0, g.wire_access_index(0)), i);
        pw.set_target(Target::wire(0, g.wire_claimed_element(0)), vals[i as usize]);
        for j in 0..3 {
            pw.set_target(Target::wire(0, g.wire_list_item(j, 0)), vals[j]);
        }
        assert!(b.is_satisfied(&pw));
    }
}

#[test]
fn wrong_claim_unsatisfiable_at_each_index() {
    let vals = [5u64, 6, 7];
    for i in 0..3u64 {
        for slot in [vals[i as usize], vals[i as usize] + 1] {
            let mut b = CircuitBuilder::new(1);
            let v: Vec<Target> = vals.iter().map(|x| b.constant(*x)).collect();
            let idx = b.add_virtual_target();
            let claimed = b.add_virtual_target();
            b.random_access(idx, claimed, v).unwrap();
            let mut pw = PartialWitness::new();
            assign_constants(&b, &mut pw);
            pw.set_target(idx, i);
            pw.set_target(claimed, vals[i as usize] + 1);
            let g = b.gates[0];
            pw.set_target(Target::wire(0, g.wire_access_index(0)), i);
            pw.set_target(Target::wire(0, g.wire_claimed_element(0)), slot);
            for j in 0..3 {
                pw.set_target(Target::wire(0, g.wire_list_item(j, 0)), vals[j]);
            }
            assert!(!b.is_satisfied(&pw));
        }
    }
}

/// An extension-field lookup over two degree-2 elements, selecting index 1,
/// with the natural witness. Returns the builder, the witness, and the
/// claimed element's coordinate targets for later corruption.
fn ext_lookup_degree_two() -> (CircuitBuilder, PartialWitness, Vec<Vec<u64>>) {
    let mut b = CircuitBuilder::new(2);
    let vals = vec![vec![1u64, 2], vec![3u64, 4]];
    let v: Vec<ExtensionTarget> = vals.iter().map(|x| b.constant_extension(x)).collect();
    let it = b.constant(1);
    let elem = b.constant_extension(&vals[1]);
    b.random_access_extension(it, elem, v).unwrap();
    let mut pw = PartialWitness::new();
    assign_constants(&b, &mut pw);
    assign_gate(&b, &mut pw, 0, 1, &vals);
    (b, pw, vals)
}

#[test]
fn extension_lookup_succeeds() {
    let (b, pw, _) = ext_lookup_degree_two();
    // One gate and D * (len + 2) new equality constraints on the non-trivial path.
    assert_eq!(b.gates.len(), 1);
    assert_eq!(b.connections.len(), 2 * (2 + 2));
    assert!(b.is_satisfied(&pw));
}

#[test]
fn corrupting_one_coordinate_fails() {
    // Corrupt only coordinate 1 of the claimed element, leaving coordinate 0
    // correct: the copies are checked independently, so this must fail.
    let (b, mut pw, vals) = ext_lookup_degree_two();
    let g = b.gates[0];
    pw.set_target(Target::wire(0, g.wire_claimed_element(1)), vals[1][1] + 1);
    assert!(!b.is_satisfied(&pw));
}

#[test]
fn mixing_positions_across_coordinates_fails() {
    // Try to make coordinate 0 select position 0 while coordinate 1 selects
    // position 1: the shared access-index wire forbids it.
    let (b, mut pw, vals) = ext_lookup_degree_two();
    let g = b.gates[0];
    pw.set_target(Target::wire(0, g.wire_access_index(0)), 0);
    pw.set_target(Target::wire(0, g.wire_claimed_element(0)), vals[0][0]);
    assert!(!b.is_satisfied(&pw));
}

#[test]
fn padded_gate_length_is_the_standardized_length() {
    for (len, min_length, expected) in [(2usize, 5usize, 5usize), (3, 8, 8), (4, 3, 4), (2, 2, 2)] {
        let mut b = CircuitBuilder::new(2);
        let vals: Vec<Vec<u64>> = (0..len).map(|i| vec![i as u64 + 1, i as u64 + 2]).collect();
        let v: Vec<ExtensionTarget> = vals.iter().map(|x| b.constant_extension(x)).collect();
        let it = b.constant(0);
        let elem = b.constant_extension(&vals[0]);
        b.random_access_padded(it, elem, v, min_length).unwrap();
        let g = b.gates[b.gates.len() - 1];
        assert_eq!(g.length, expected);
        assert_eq!(g.copies, 2);
    }
}

#[test]
fn padded_lookup_keeps_original_semantics() {
    // Two real elements padded up to length 4: looking up original index 1
    // still works, with the padded slots holding the zero element.
    let mut b = CircuitBuilder::new(2);
    let vals = vec![vec![1u64, 2], vec![3u64, 4]];
    let v: Vec<ExtensionTarget> = vals.iter().map(|x| b.constant_extension(x)).collect();
    let it = b.constant(1);
    let elem = b.constant_extension(&vals[1]);
    b.random_access_padded(it, elem, v, 4).unwrap();
    let padded = vec![
        vals[0].clone(),
        vals[1].clone(),
        vec![0u64, 0],
        vec![0u64, 0],
    ];
    let mut pw = PartialWitness::new();
    assign_constants(&b, &mut pw);
    assign_gate(&b, &mut pw, 0, 1, &padded);
    assert!(b.is_satisfied(&pw));
}

#[test]
fn empty_list_rejected_before_any_state_change() {
    let mut b = CircuitBuilder::new(2);
    let idx = b.add_virtual_target();
    let claimed = b.add_virtual_target();
    assert_eq!(
        b.random_access(idx, claimed, vec![]),
        Err(GadgetError::InvalidInput)
    );
    let claimed_ext = b.zero_extension();
    let conns_before = b.connections.len();
    let consts_before = b.constants.len();
    assert_eq!(
        b.random_access_extension(idx, claimed_ext.clone(), vec![]),
        Err(GadgetError::InvalidInput)
    );
    assert_eq!(
        b.random_access_padded(idx, claimed_ext, vec![], 8),
        Err(GadgetError::InvalidInput)
    );
    assert_eq!(b.gates.len(), 0);
    assert_eq!(b.connections.len(), conns_before);
    assert_eq!(b.constants.len(), consts_before);
}

#[test]
fn out_of_range_index_leaves_gate_unsatisfied() {
    // The gadget adds no range check, but this concrete gate's own algebra
    // rejects an out-of-range access-index slot value: a consistent witness
    // whose index value equals the list length does not satisfy the circuit.
    let vals = [5u64, 6];
    let mut b = CircuitBuilder::new(1);
    let v: Vec<Target> = vals.iter().map(|x| b.constant(*x)).collect();
    let idx = b.add_virtual_target();
    let claimed = b.add_virtual_target();
    b.random_access(idx, claimed, v).unwrap();
    let mut pw = PartialWitness::new();
    assign_constants(&b, &mut pw);
    pw.set_target(idx, 2);
    pw.set_target(claimed, 5);
    let g = b.gates[0];
    pw.set_target(Target::wire(0, g.wire_access_index(0)), 2);
    pw.set_target(Target::wire(0, g.wire_claimed_element(0)), 5);
    for j in 0..2 {
        pw.set_target(Target::wire(0, g.wire_list_item(j, 0)), vals[j]);
    }
    assert!(!b.is_satisfied(&pw));
}

#[test]
fn wire_layout_is_fixed() {
    let mut b = CircuitBuilder::new(2);
    let vals = vec![vec![1u64, 2], vec![3u64, 4], vec![5u64, 6]];
    let v: Vec<ExtensionTarget> = vals.iter().map(|x| b.constant_extension(x)).collect();
    let it = b.constant(0);
    let elem = b.constant_extension(&vals[0]);
    b.random_access_extension(it, elem, v).unwrap();
    let g = b.gates[0];
    assert_eq!((g.copies, g.length), (2, 3));
    // Each copy occupies a contiguous block of length + 2 inputs: access
    // index, claimed element, then the list items.
    assert_eq!(g.wire_access_index(0), 0);
    assert_eq!(g.wire_claimed_element(0), 1);
    assert_eq!(g.wire_list_item(0, 0), 2);
    assert_eq!(g.wire_list_item(2, 0), 4);
    assert_eq!(g.wire_access_index(1), 5);
    assert_eq!(g.wire_claimed_element(1), 6);
    assert_eq!(g.wire_list_item(0, 1), 7);
    assert_eq!(g.wire_list_item(2, 1), 9);
}

#[test]
fn other_positions_do_not_matter() {
    // Fixed selected index 1: permuting and mutating the other positions
    // leaves the lookup satisfiable, with the same selected element.
    let lists = [
        vec![vec![1u64, 2], vec![3u64, 4], vec![5u64, 6]],
        vec![vec![5u64, 6], vec![3u64, 4], vec![1u64, 2]],
        vec![vec![9u64, 9], vec![3u64, 4], vec![7u64, 7]],
    ];
    for vals in lists.iter() {
        let mut b = CircuitBuilder::new(2);
        let v: Vec<ExtensionTarget> = vals.iter().map(|x| b.constant_extension(x)).collect();
        let it = b.constant(1);
        let elem = b.constant_extension(&vals[1]);
        b.random_access_extension(it, elem, v).unwrap();
        let mut pw = PartialWitness::new();
        assign_constants(&b, &mut pw);
        assign_gate(&b, &mut pw, 0, 1, vals);
        assert!(b.is_satisfied(&pw));
    }
}
