use evm_memory::violations::{
    check_low_degree, ConstraintClass, ConstraintViolation, DegreeMismatch,
};
use evm_memory::circuit::{CircuitBuilder, ExtensionTarget};
use evm_memory::constraint_consumer::{
    ConstraintConsumer, ConstraintKind, RecursiveConstraintConsumer,
};
use evm_memory::flags::{generate_first_change_flags, generate_range_check_value};
use evm_memory::goldilocks_field::{GoldilocksField as F, ORDER};
use evm_memory::lookup::permuted_cols;
use evm_memory::memory_stark::{
    trace_rows_to_poly_values, MemoryStark, StarkEvaluationTargets, StarkEvaluationVars,
    TransactionMemory,
};
use evm_memory::random_ops::generate_random_memory_ops;
use evm_memory::registers::{
    sorted_value_limb, value_limb, CONTEXT_FIRST_CHANGE, COUNTER, COUNTER_PERMUTED,
    NUM_REGISTERS, RANGE_CHECK, RANGE_CHECK_PERMUTED, SEGMENT_FIRST_CHANGE,
    SORTED_ADDR_CONTEXT, SORTED_ADDR_SEGMENT, SORTED_ADDR_VIRTUAL, SORTED_IS_READ,
    SORTED_TIMESTAMP, TIMESTAMP, VIRTUAL_FIRST_CHANGE,
};
use evm_memory::sorting::{sort_memory_ops, MemoryOp};
use evm_memory::trace::ConstructionError;

fn f(v: u64) -> F {
    F::from_canonical_u64(v)
}

fn limbs(first: u64) -> [F; 8] {
    let mut l = [F::zero(); 8];
    l[0] = f(first);
    l
}

fn op(t: u64, is_read: bool, ctx: u64, seg: u64, virt: u64, first_limb: u64) -> MemoryOp {
    (f(t), F::from_bool(is_read), f(ctx), f(seg), f(virt), limbs(first_limb))
}

fn canon(column: &[F]) -> Vec<u64> {
    column.iter().map(|x| x.to_canonical_u64()).collect()
}

fn column(rows: &[[F; NUM_REGISTERS]], c: usize) -> Vec<u64> {
    rows.iter().map(|r| r[c].to_canonical_u64()).collect()
}

fn sort_ops(ops: &[MemoryOp]) -> Vec<MemoryOp> {
    let t: Vec<F> = ops.iter().map(|o| o.0).collect();
    let r: Vec<F> = ops.iter().map(|o| o.1).collect();
    let c: Vec<F> = ops.iter().map(|o| o.2).collect();
    let s: Vec<F> = ops.iter().map(|o| o.3).collect();
    let v: Vec<F> = ops.iter().map(|o| o.4).collect();
    let vals: Vec<[F; 8]> = ops.iter().map(|o| o.5).collect();
    let (t, r, c, s, v, vals) = sort_memory_ops(&t, &r, &c, &s, &v, &vals);
    (0..t.len()).map(|i| (t[i], r[i], c[i], s[i], v[i], vals[i])).collect()
}

fn raw(ops: &[MemoryOp]) -> Vec<(u64, u64, u64, u64, u64, Vec<u64>)> {
    ops.iter()
        .map(|o| {
            (
                o.0.to_canonical_u64(),
                o.1.to_canonical_u64(),
                o.2.to_canonical_u64(),
                o.3.to_canonical_u64(),
                o.4.to_canonical_u64(),
                canon(&o.5),
            )
        })
        .collect()
}

fn direct_constraints(
    local: &[F; NUM_REGISTERS],
    next: &[F; NUM_REGISTERS],
) -> Vec<(ConstraintKind, u64)> {
    let mut consumer = ConstraintConsumer::new();
    MemoryStark::new().eval_packed_generic(
        StarkEvaluationVars { local_values: local, next_values: next, public_inputs: &[] },
        &mut consumer,
    );
    (0..consumer.len())
        .map(|k| {
            let (kind, value) = consumer.get(k);
            (kind, value.to_canonical_u64())
        })
        .collect()
}

fn circuit_constraints(
    local: &[F; NUM_REGISTERS],
    next: &[F; NUM_REGISTERS],
) -> Vec<(ConstraintKind, u64)> {
    let circuit = MemoryStark::new().build_circuit();
    let mut witness: Vec<F> = local.to_vec();
    witness.extend_from_slice(next);
    let values = circuit.builder.evaluate(&witness);
    (0..circuit.constraints.len())
        .map(|k| {
            let (kind, target) = circuit.constraints.get(k);
            (kind, values[target.0].to_canonical_u64())
        })
        .collect()
}

fn random_row() -> [F; NUM_REGISTERS] {
    let mut row = [F::zero(); NUM_REGISTERS];
    for cell in row.iter_mut() {
        *cell = F::rand();
    }
    row
}

fn scenario_a() -> Vec<MemoryOp> {
    vec![op(0, false, 0, 0, 0, 5), op(1, true, 0, 0, 0, 5)]
}

#[test]
fn test_stark_degree() {
    let stark = MemoryStark::new();
    let circuit = stark.build_circuit();
    assert_eq!(stark.constraint_degree(), 3);
    assert_eq!(
        check_low_degree(&circuit.builder, &circuit.constraints, stark.constraint_degree()),
        Ok(())
    );
    // The read-consistency constraints have degree three, so a bound of two
    // is exceeded, first by the first of them.
    assert_eq!(
        check_low_degree(&circuit.builder, &circuit.constraints, 2),
        Err(DegreeMismatch { index: 11, degree: 3, bound: 2 })
    );
    let degrees = circuit.builder.degrees();
    let of_constraint: Vec<usize> = (0..circuit.constraints.len())
        .map(|k| degrees[circuit.constraints.get(k).1 .0])
        .collect();
    assert_eq!(
        of_constraint,
        vec![2, 2, 2, 2, 2, 2, 2, 2, 2, 2, 2, 3, 3, 3, 3, 3, 3, 3, 3, 2, 1]
    );
}

#[test]
fn test_stark_circuit() {
    for _ in 0..200 {
        let local = random_row();
        let next = random_row();
        let direct = direct_constraints(&local, &next);
        let circuit = circuit_constraints(&local, &next);
        assert_eq!(direct.len(), 21);
        assert_eq!(direct, circuit);
    }
}

#[test]
fn circuit_evaluation_extends_an_existing_circuit() {
    // Wires that were there before keep their values and the constraints
    // are computed on the wires handed in, wherever they stand.
    let mut builder = CircuitBuilder::new();
    let seven = builder.constant_extension(f(7));
    let mut next = [ExtensionTarget(0); NUM_REGISTERS];
    for t in next.iter_mut() {
        *t = builder.add_virtual_extension_target();
    }
    let mut local = [ExtensionTarget(0); NUM_REGISTERS];
    for t in local.iter_mut() {
        *t = builder.add_virtual_extension_target();
    }
    let fourteen = builder.add_extension(seven, seven);
    let before = builder.num_targets();
    let mut consumer = RecursiveConstraintConsumer::new();
    consumer.constraint(fourteen);
    MemoryStark::new().eval_ext_circuit(
        &mut builder,
        StarkEvaluationTargets { local_values: &local, next_values: &next, public_inputs: &[] },
        &mut consumer,
    );
    assert_eq!(builder.num_targets(), before + 64);
    assert_eq!(consumer.len(), 22);
    assert_eq!(consumer.get(0), (ConstraintKind::EveryRow, fourteen));
    let local_row = random_row();
    let next_row = random_row();
    let mut witness: Vec<F> = next_row.to_vec();
    witness.extend_from_slice(&local_row);
    let values = builder.evaluate(&witness);
    assert_eq!(values[fourteen.0].to_canonical_u64(), 14);
    let direct = direct_constraints(&local_row, &next_row);
    for k in 0..21 {
        let (kind, target) = consumer.get(k + 1);
        assert_eq!((kind, values[target.0].to_canonical_u64()), direct[k]);
    }
}

#[test]
fn constraint_kinds_in_order() {
    let kinds: Vec<ConstraintKind> =
        direct_constraints(&random_row(), &random_row()).iter().map(|c| c.0).collect();
    let mut expected = vec![ConstraintKind::EveryRow; 4];
    expected.extend(vec![ConstraintKind::Transition; 7]);
    expected.extend(vec![ConstraintKind::EveryRow; 9]);
    expected.push(ConstraintKind::LastRow);
    assert_eq!(kinds, expected);
}

#[test]
fn constraint_values_on_given_rows() {
    let mut local = [F::zero(); NUM_REGISTERS];
    let mut next = [F::zero(); NUM_REGISTERS];
    local[SORTED_ADDR_CONTEXT] = f(1);
    next[SORTED_ADDR_CONTEXT] = f(4);
    local[SORTED_ADDR_SEGMENT] = f(2);
    next[SORTED_ADDR_SEGMENT] = f(7);
    local[SORTED_ADDR_VIRTUAL] = f(3);
    next[SORTED_ADDR_VIRTUAL] = f(3);
    local[SORTED_TIMESTAMP] = f(10);
    next[SORTED_TIMESTAMP] = f(30);
    local[CONTEXT_FIRST_CHANGE] = f(2);
    local[SEGMENT_FIRST_CHANGE] = f(3);
    local[VIRTUAL_FIRST_CHANGE] = f(5);
    local[RANGE_CHECK] = f(100);
    next[SORTED_IS_READ] = f(1);
    local[sorted_value_limb(2)] = f(8);
    next[sorted_value_limb(2)] = f(11);
    local[RANGE_CHECK_PERMUTED] = f(6);
    next[RANGE_CHECK_PERMUTED] = f(9);
    next[COUNTER_PERMUTED] = f(4);
    let values: Vec<u64> = direct_constraints(&local, &next).iter().map(|c| c.1).collect();
    // unchanged = 1 - 2 - 3 - 5 = -9.
    let minus = |v: u64| ORDER - v;
    let expected = vec![
        minus(2),        // 2 * (1 - 2)
        minus(6),        // 3 * (1 - 3)
        minus(20),       // 5 * (1 - 5)
        minus(90),       // -9 * (1 + 9)
        9,               // 3 * (4 - 1)
        15,              // 5 * (4 - 1)
        25,              // 5 * (7 - 2)
        minus(27),       // -9 * 3
        minus(45),       // -9 * 5
        0,               // -9 * 0
        // 100 - (2 * 2 + 3 * 4 + 5 * (-1) + (-9) * 19) = 100 + 160
        260,
        0,
        0,
        minus(27),       // 1 * -9 * (11 - 8)
        0,
        0,
        0,
        0,
        0,
        15,              // (9 - 6) * (9 - 4)
        5,               // 9 - 4
    ];
    assert_eq!(values, expected);
    assert_eq!(
        circuit_constraints(&local, &next).iter().map(|c| c.1).collect::<Vec<u64>>(),
        expected
    );
}

#[test]
fn scenario_valid_log() {
    let stark = MemoryStark::new();
    let ops = scenario_a();
    // Already sorted.
    assert_eq!(raw(&sort_ops(&ops)), raw(&ops));
    let rows = stark.generate_trace_rows(ops).unwrap();
    assert_eq!(rows.len(), 2);
    assert_eq!(column(&rows, CONTEXT_FIRST_CHANGE), vec![0, 0]);
    assert_eq!(column(&rows, SEGMENT_FIRST_CHANGE), vec![0, 0]);
    assert_eq!(column(&rows, VIRTUAL_FIRST_CHANGE), vec![0, 0]);
    assert_eq!(column(&rows, RANGE_CHECK), vec![0, 0]);
    assert_eq!(column(&rows, COUNTER), vec![0, 1]);
    assert_eq!(column(&rows, RANGE_CHECK_PERMUTED), vec![0, 0]);
    assert_eq!(column(&rows, COUNTER_PERMUTED), vec![0, 1]);
    // From row 0 to row 1 every constraint that is checked there vanishes.
    for values in [direct_constraints(&rows[0], &rows[1]), circuit_constraints(&rows[0], &rows[1])]
    {
        assert!(values.iter().all(|c| c.0 == ConstraintKind::LastRow || c.1 == 0));
    }
    // From the last row round to the first, every constraint that is
    // checked there vanishes.
    for values in [direct_constraints(&rows[1], &rows[0]), circuit_constraints(&rows[1], &rows[0])]
    {
        assert!(values.iter().all(|c| c.0 == ConstraintKind::Transition || c.1 == 0));
    }
    assert_eq!(stark.check_constraints(&rows), Ok(()));
    assert_eq!(stark.check_constraints_circuit(&rows), Ok(()));
}

#[test]
fn scenario_read_of_a_value_never_written() {
    let stark = MemoryStark::new();
    let mut ops = scenario_a();
    ops[1].5 = limbs(6);
    let rows = stark.generate_trace_rows(ops).unwrap();
    // The read-consistency constraint of limb 0 is 1 * 1 * (6 - 5).
    assert_eq!(direct_constraints(&rows[0], &rows[1])[11], (ConstraintKind::EveryRow, 1));
    assert_eq!(circuit_constraints(&rows[0], &rows[1])[11], (ConstraintKind::EveryRow, 1));
    let expected =
        Err(ConstraintViolation { row: 0, index: 11, class: ConstraintClass::ReadConsistency });
    assert_eq!(stark.check_constraints(&rows), expected);
    assert_eq!(stark.check_constraints_circuit(&rows), expected);
}

#[test]
fn construction_errors() {
    let stark = MemoryStark::new();
    assert_eq!(stark.generate_trace_rows(vec![]).err(), Some(ConstructionError::EmptyLog));
    assert_eq!(stark.generate_trace(vec![]).err(), Some(ConstructionError::EmptyLog));
    // A lone read.
    assert_eq!(
        stark.generate_trace_rows(vec![op(0, true, 0, 0, 0, 5)]).err(),
        Some(ConstructionError::ReadWithoutWrite)
    );
    // The read of address (0, 0, 1) comes before the write to it.
    let ops = vec![op(0, false, 0, 0, 0, 5), op(1, true, 0, 0, 1, 7), op(2, false, 0, 0, 1, 7)];
    assert_eq!(stark.generate_trace(ops).err(), Some(ConstructionError::ReadWithoutWrite));
    // A single write is a table of one row.
    let rows = stark.generate_trace_rows(vec![op(0, false, 3, 2, 1, 9)]).unwrap();
    assert_eq!(rows.len(), 1);
    assert_eq!(stark.check_constraints(&rows), Ok(()));
    assert_eq!(stark.check_constraints_circuit(&rows), Ok(()));
}

#[test]
fn sorting_orders_by_address_then_time() {
    let ops = vec![
        op(5, true, 1, 0, 0, 1),
        op(0, false, 1, 0, 0, 1),
        op(3, false, 0, 7, 19, 2),
        op(1, false, 0, 7, 3, 3),
        op(4, true, 0, 7, 3, 3),
        op(2, false, 0, 2, 19, 4),
    ];
    let sorted = sort_ops(&ops);
    let keys: Vec<(u64, u64, u64, u64)> =
        raw(&sorted).iter().map(|o| (o.2, o.3, o.4, o.0)).collect();
    assert_eq!(
        keys,
        vec![(0, 2, 19, 2), (0, 7, 3, 1), (0, 7, 3, 4), (0, 7, 19, 3), (1, 0, 0, 0), (1, 0, 0, 5)]
    );
    assert_eq!(raw(&sorted)[2].1, 1);
    assert_eq!(raw(&sorted)[3].5[0], 2);
}

#[test]
fn sorting_is_stable_and_idempotent() {
    // Two operations with one key keep their order.
    let ops = vec![op(1, false, 0, 0, 0, 8), op(0, false, 9, 0, 0, 1), op(1, true, 0, 0, 0, 9)];
    let once = sort_ops(&ops);
    assert_eq!(raw(&once)[0].5[0], 8);
    assert_eq!(raw(&once)[1].5[0], 9);
    let twice = sort_ops(&once);
    assert_eq!(raw(&twice), raw(&once));
    for n in [1usize, 2, 17, 300] {
        let once = sort_ops(&generate_random_memory_ops(n));
        assert_eq!(raw(&sort_ops(&once)), raw(&once));
    }
}

#[test]
fn sorting_reads_columns_as_far_as_the_shortest() {
    let t = vec![f(2), f(1), f(0)];
    let r = vec![f(0), f(0)];
    let c = vec![f(5), f(4), f(3)];
    let z = vec![f(0), f(0), f(0)];
    let vals = vec![limbs(1), limbs(2), limbs(3)];
    let (st, _, sc, _, _, sv) = sort_memory_ops(&t, &r, &c, &z, &z, &vals);
    assert_eq!(canon(&st), vec![1, 2]);
    assert_eq!(canon(&sc), vec![4, 5]);
    assert_eq!(sv[0][0].to_canonical_u64(), 2);
    let (st, _, _, _, _, _) = sort_memory_ops(&[], &r, &c, &z, &z, &vals);
    assert!(st.is_empty());
}

#[test]
fn first_change_flags_respect_priority() {
    let context = vec![f(0), f(0), f(0), f(0), f(1), f(1)];
    let segment = vec![f(0), f(0), f(0), f(1), f(0), f(0)];
    let virtuals = vec![f(0), f(0), f(1), f(0), f(5), f(5)];
    let (cfc, sfc, vfc) = generate_first_change_flags(&context, &segment, &virtuals);
    assert_eq!(canon(&cfc), vec![0, 0, 0, 1, 0, 0]);
    assert_eq!(canon(&sfc), vec![0, 0, 1, 0, 0, 0]);
    assert_eq!(canon(&vfc), vec![0, 1, 0, 0, 0, 0]);
    for i in 0..6 {
        let set = cfc[i].to_canonical_u64() + sfc[i].to_canonical_u64() + vfc[i].to_canonical_u64();
        assert!(set <= 1);
    }
    let (cfc, sfc, vfc) = generate_first_change_flags(&vec![f(3)], &vec![f(3)], &vec![f(3)]);
    assert_eq!((canon(&cfc), canon(&sfc), canon(&vfc)), (vec![0], vec![0], vec![0]));
}

#[test]
fn range_check_selects_the_gap_of_the_changed_column() {
    let context = vec![f(0), f(0), f(0), f(0), f(4), f(4)];
    let segment = vec![f(0), f(0), f(0), f(3), f(0), f(0)];
    let virtuals = vec![f(0), f(0), f(7), f(0), f(5), f(5)];
    let timestamp = vec![f(1), f(4), f(0), f(3), f(2), f(5)];
    let (cfc, sfc, vfc) = generate_first_change_flags(&context, &segment, &virtuals);
    let rc = generate_range_check_value(
        &context, &segment, &virtuals, &timestamp, &cfc, &sfc, &vfc,
    );
    // Unchanged: 4 - 1 - 1; virtual: 7 - 0 - 1; segment: 3 - 0 - 1;
    // context: 4 - 0 - 1; unchanged: 5 - 2 - 1; last row: 0.
    assert_eq!(canon(&rc), vec![2, 6, 2, 3, 2, 0]);
    // Equal timestamps at one address wrap to the largest field element.
    let zero = vec![f(0), f(0)];
    let rc = generate_range_check_value(&zero, &zero, &zero, &vec![f(3), f(3)], &zero, &zero, &zero);
    assert_eq!(canon(&rc), vec![ORDER - 1, 0]);
}

#[test]
fn permuted_columns_of_a_lookup() {
    let inputs: Vec<F> = [0u64, 1, 1, 0].iter().map(|&v| f(v)).collect();
    let table: Vec<F> = [0u64, 1, 2, 3].iter().map(|&v| f(v)).collect();
    let (a, b) = permuted_cols(&inputs, &table);
    let (a, b) = (canon(&a), canon(&b));
    assert_eq!(a, vec![0, 0, 1, 1]);
    let mut sorted_b = b.clone();
    sorted_b.sort();
    assert_eq!(sorted_b, vec![0, 1, 2, 3]);
    for i in 0..4 {
        assert!(a[i] == b[i] || (i > 0 && a[i] == a[i - 1]));
    }
    assert_eq!(b[0], 0);
    assert_eq!(b[2], 1);

    // An input outside the table: the columns are still permutations.
    let inputs: Vec<F> = [9u64, 0].iter().map(|&v| f(v)).collect();
    let table: Vec<F> = [0u64, 1].iter().map(|&v| f(v)).collect();
    let (a, b) = permuted_cols(&inputs, &table);
    assert_eq!(canon(&a), vec![0, 9]);
    assert_eq!(canon(&b), vec![0, 1]);

    // Representatives above the order are brought below it.
    let inputs = vec![F::from_noncanonical_u64(ORDER + 1), f(0)];
    let (a, b) = permuted_cols(&inputs, &table);
    assert_eq!(a.iter().map(|x| x.to_noncanonical_u64()).collect::<Vec<u64>>(), vec![0, 1]);
    assert_eq!(canon(&b), vec![0, 1]);

    let (a, b) = permuted_cols(&[], &[]);
    assert!(a.is_empty() && b.is_empty());
}

#[test]
fn trace_columns_of_a_small_log() {
    let stark = MemoryStark::new();
    let ops = vec![
        op(0, false, 1, 0, 0, 11),
        op(1, false, 0, 1, 0, 22),
        op(2, true, 1, 0, 0, 11),
        op(3, true, 0, 1, 0, 22),
        op(4, false, 0, 1, 1, 33),
    ];
    let rows = stark.generate_trace_rows(ops.clone()).unwrap();
    assert_eq!(column(&rows, TIMESTAMP), vec![0, 1, 2, 3, 4]);
    assert_eq!(column(&rows, value_limb(0)), vec![11, 22, 11, 22, 33]);
    assert_eq!(column(&rows, SORTED_TIMESTAMP), vec![1, 3, 4, 0, 2]);
    assert_eq!(column(&rows, SORTED_IS_READ), vec![0, 1, 0, 0, 1]);
    assert_eq!(column(&rows, SORTED_ADDR_CONTEXT), vec![0, 0, 0, 1, 1]);
    assert_eq!(column(&rows, SORTED_ADDR_SEGMENT), vec![1, 1, 1, 0, 0]);
    assert_eq!(column(&rows, SORTED_ADDR_VIRTUAL), vec![0, 0, 1, 0, 0]);
    assert_eq!(column(&rows, sorted_value_limb(0)), vec![22, 22, 33, 11, 11]);
    assert_eq!(column(&rows, sorted_value_limb(7)), vec![0, 0, 0, 0, 0]);
    assert_eq!(column(&rows, CONTEXT_FIRST_CHANGE), vec![0, 0, 1, 0, 0]);
    assert_eq!(column(&rows, SEGMENT_FIRST_CHANGE), vec![0, 0, 0, 0, 0]);
    assert_eq!(column(&rows, VIRTUAL_FIRST_CHANGE), vec![0, 1, 0, 0, 0]);
    assert_eq!(column(&rows, RANGE_CHECK), vec![1, 0, 0, 1, 0]);
    assert_eq!(column(&rows, COUNTER), vec![0, 1, 2, 3, 4]);
    assert_eq!(column(&rows, RANGE_CHECK_PERMUTED), vec![0, 0, 0, 1, 1]);
    let mut table = column(&rows, COUNTER_PERMUTED);
    assert_eq!((table[0], table[3]), (0, 1));
    table.sort();
    assert_eq!(table, vec![0, 1, 2, 3, 4]);
    assert_eq!(stark.check_constraints(&rows), Ok(()));
    assert_eq!(stark.check_constraints_circuit(&rows), Ok(()));

    let polys = stark.generate_trace(ops).unwrap();
    assert_eq!(polys.len(), NUM_REGISTERS);
    for c in 0..NUM_REGISTERS {
        assert_eq!(canon(&polys[c].values), column(&rows, c));
    }
    let polys = trace_rows_to_poly_values(rows.clone());
    assert_eq!(canon(&polys[SORTED_TIMESTAMP].values), vec![1, 3, 4, 0, 2]);
}

fn range_checks_in_domain(rows: &[[F; NUM_REGISTERS]]) -> bool {
    column(rows, RANGE_CHECK).iter().all(|&v| v < rows.len() as u64)
}

#[test]
fn random_valid_logs_satisfy_the_constraints() {
    let stark = MemoryStark::new();
    let mut sizes: Vec<usize> = (0..100).map(|i| 2 + (i * 998) / 99).collect();
    sizes.extend([256, 257, 300, 999, 1000]);
    for n in sizes {
        let ops = generate_random_memory_ops(n);
        let rows = stark.generate_trace_rows(ops).unwrap();
        assert_eq!(rows.len(), n);
        let direct = stark.check_constraints(&rows);
        let circuit = stark.check_constraints_circuit(&rows);
        assert_eq!(direct, circuit);
        if range_checks_in_domain(&rows) {
            assert_eq!(direct, Ok(()));
        } else {
            // A gap between two addresses that the table of `n` counter
            // values does not hold: only the lookup can fail.
            assert_eq!(direct.unwrap_err().class, ConstraintClass::Lookup);
        }
        // An address gap is below 256, and a timestamp gap below `n`.
        if n >= 256 {
            assert!(range_checks_in_domain(&rows));
        }
    }
}

fn first_unchanged_read(rows: &[[F; NUM_REGISTERS]]) -> Option<usize> {
    (0..rows.len() - 1).find(|&i| {
        rows[i][CONTEXT_FIRST_CHANGE].is_zero()
            && rows[i][SEGMENT_FIRST_CHANGE].is_zero()
            && rows[i][VIRTUAL_FIRST_CHANGE].is_zero()
            && !rows[i + 1][SORTED_IS_READ].is_zero()
    })
}

#[test]
fn one_fault_is_caught_by_both_evaluators() {
    let stark = MemoryStark::new();
    let mut tried = 0;
    while tried < 100 {
        let n = 300 + 7 * tried;
        let rows = stark.generate_trace_rows(generate_random_memory_ops(n)).unwrap();
        assert_eq!(stark.check_constraints(&rows), Ok(()));
        let at = match first_unchanged_read(&rows) {
            Some(at) => at,
            None => continue,
        };
        tried += 1;

        // A swapped value on a read at an unchanged address.
        let mut faulty = rows.clone();
        faulty[at + 1][sorted_value_limb(3)] = faulty[at + 1][sorted_value_limb(3)] + F::one();
        let direct = stark.check_constraints(&faulty);
        assert_eq!(
            direct,
            Err(ConstraintViolation { row: at, index: 14, class: ConstraintClass::ReadConsistency })
        );
        assert_eq!(stark.check_constraints_circuit(&faulty), direct);

        // A timestamp shifted back behind the one before it.
        let mut faulty = rows.clone();
        faulty[at + 1][SORTED_TIMESTAMP] = faulty[at][SORTED_TIMESTAMP];
        let direct = stark.check_constraints(&faulty);
        assert!(direct.is_err());
        assert_eq!(stark.check_constraints_circuit(&faulty), direct);
        if at == 0 || first_unchanged_read(&rows[..at]).is_none() {
            assert_eq!(
                direct,
                Err(ConstraintViolation { row: at, index: 10, class: ConstraintClass::RangeCheck })
            );
        }

        // A flipped flag.
        let mut faulty = rows.clone();
        faulty[at][VIRTUAL_FIRST_CHANGE] = F::one();
        let direct = stark.check_constraints(&faulty);
        assert!(direct.is_err());
        assert_eq!(stark.check_constraints_circuit(&faulty), direct);
    }
}

#[test]
fn out_of_order_timestamp_leaves_the_domain() {
    // Two operations on one address with the later timestamp first: the
    // range check wraps around and no counter value meets it.
    let stark = MemoryStark::new();
    let mut rows = stark.generate_trace_rows(scenario_a()).unwrap();
    rows[0][SORTED_TIMESTAMP] = f(1);
    rows[1][SORTED_TIMESTAMP] = f(0);
    rows[0][RANGE_CHECK] = f(ORDER - 2);
    let (permuted_inputs, permuted_table) =
        permuted_cols(&[rows[0][RANGE_CHECK], rows[1][RANGE_CHECK]], &[f(0), f(1)]);
    for i in 0..2 {
        rows[i][RANGE_CHECK_PERMUTED] = permuted_inputs[i];
        rows[i][COUNTER_PERMUTED] = permuted_table[i];
    }
    let direct = stark.check_constraints(&rows);
    assert_eq!(
        direct,
        Err(ConstraintViolation { row: 0, index: 19, class: ConstraintClass::Lookup })
    );
    assert_eq!(stark.check_constraints_circuit(&rows), direct);
}

#[test]
fn last_row_constraint_looks_at_the_first_row() {
    // The lookup's boundary constraint is checked on the last row, whose
    // next row is the first: it fails where the first permuted input is not
    // the first permuted table value.
    let stark = MemoryStark::new();
    let mut rows = stark.generate_trace_rows(scenario_a()).unwrap();
    rows[0][COUNTER_PERMUTED] = f(1);
    rows[1][COUNTER_PERMUTED] = f(0);
    let direct = stark.check_constraints(&rows);
    assert_eq!(
        direct,
        Err(ConstraintViolation { row: 1, index: 20, class: ConstraintClass::Lookup })
    );
    assert_eq!(stark.check_constraints_circuit(&rows), direct);
}

#[test]
fn transition_constraints_are_not_checked_on_the_last_row() {
    // On the last row the range-check cell is zero, whatever the first row
    // holds, and no transition constraint is checked there.
    let stark = MemoryStark::new();
    let ops = vec![op(7, false, 2, 0, 0, 5), op(9, true, 2, 0, 0, 5)];
    let rows = stark.generate_trace_rows(ops).unwrap();
    assert_eq!(column(&rows, RANGE_CHECK), vec![1, 0]);
    let wrapped = direct_constraints(&rows[1], &rows[0]);
    assert_eq!(wrapped[10].0, ConstraintKind::Transition);
    assert_ne!(wrapped[10].1, 0);
    assert_eq!(stark.check_constraints(&rows), Ok(()));
}

#[test]
fn random_logs_are_valid() {
    for n in [0usize, 1, 2, 50, 400] {
        let ops = generate_random_memory_ops(n);
        assert_eq!(ops.len(), n);
        let mut memory = std::collections::HashMap::new();
        for (i, o) in raw(&ops).into_iter().enumerate() {
            assert_eq!(o.0, i as u64);
            assert!(o.1 <= 1);
            assert!(o.2 < 256 && o.3 < 8 && o.4 < 20);
            assert!(o.5.iter().all(|&l| l <= u32::MAX as u64));
            if o.1 == 1 {
                assert!(i > 0);
                assert_eq!(memory.get(&(o.2, o.3, o.4)), Some(&o.5));
            } else {
                memory.insert((o.2, o.3, o.4), o.5);
            }
        }
    }
}

#[test]
fn violations_name_their_class() {
    let stark = MemoryStark::new();
    let ops = vec![
        op(0, false, 1, 0, 0, 11),
        op(1, false, 0, 1, 0, 22),
        op(2, true, 1, 0, 0, 11),
        op(3, true, 0, 1, 0, 22),
        op(4, false, 0, 1, 1, 33),
    ];
    let rows = stark.generate_trace_rows(ops).unwrap();

    // A flag that is neither zero nor one.
    let mut faulty = rows.clone();
    faulty[1][CONTEXT_FIRST_CHANGE] = f(2);
    let expected = Err(ConstraintViolation { row: 1, index: 0, class: ConstraintClass::Booleanity });
    assert_eq!(stark.check_constraints(&faulty), expected);
    assert_eq!(stark.check_constraints_circuit(&faulty), expected);

    // Two flags at once: the unchanged indicator is minus one.
    let mut faulty = rows.clone();
    faulty[1][SEGMENT_FIRST_CHANGE] = f(1);
    let expected = Err(ConstraintViolation { row: 1, index: 3, class: ConstraintClass::Booleanity });
    assert_eq!(stark.check_constraints(&faulty), expected);
    assert_eq!(stark.check_constraints_circuit(&faulty), expected);

    // The segment flag in place of the context flag, where the context changes.
    let mut faulty = rows.clone();
    faulty[2][CONTEXT_FIRST_CHANGE] = f(0);
    faulty[2][SEGMENT_FIRST_CHANGE] = f(1);
    let expected =
        Err(ConstraintViolation { row: 2, index: 4, class: ConstraintClass::PriorityOrdering });
    assert_eq!(stark.check_constraints(&faulty), expected);
    assert_eq!(stark.check_constraints_circuit(&faulty), expected);

    // A range-check cell that is not the gap.
    let mut faulty = rows.clone();
    faulty[0][RANGE_CHECK] = f(0);
    let expected = Err(ConstraintViolation { row: 0, index: 10, class: ConstraintClass::RangeCheck });
    assert_eq!(stark.check_constraints(&faulty), expected);
    assert_eq!(stark.check_constraints_circuit(&faulty), expected);

    assert_eq!(MemoryStark::COLUMNS, 33);
    assert_eq!(MemoryStark::PUBLIC_INPUTS, 0);
}

#[test]
fn random_logs_always_have_a_table() {
    let stark = MemoryStark::new();
    for n in 1..60 {
        assert!(stark.generate_trace(generate_random_memory_ops(n)).is_ok());
    }
}

#[test]
fn transaction_memory_starts_empty() {
    assert!(TransactionMemory::default().calls.is_empty());
}
