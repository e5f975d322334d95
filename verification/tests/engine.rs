use logic_sim::gate::GateKind;
use logic_sim::sim::{LookupError, Simulation, WireError};

fn eval_vec(kind: GateKind, inputs: &[bool]) -> Vec<bool> {
    kind.eval(&inputs.to_vec())
}

#[test]
fn truth_table_and() {
    assert_eq!(eval_vec(GateKind::And, &[false, false]), vec![false]);
    assert_eq!(eval_vec(GateKind::And, &[false, true]), vec![false]);
    assert_eq!(eval_vec(GateKind::And, &[true, false]), vec![false]);
    assert_eq!(eval_vec(GateKind::And, &[true, true]), vec![true]);
}

#[test]
fn truth_table_or() {
    assert_eq!(eval_vec(GateKind::Or, &[false, false]), vec![false]);
    assert_eq!(eval_vec(GateKind::Or, &[false, true]), vec![true]);
    assert_eq!(eval_vec(GateKind::Or, &[true, false]), vec![true]);
    assert_eq!(eval_vec(GateKind::Or, &[true, true]), vec![true]);
}

#[test]
fn truth_table_xor() {
    assert_eq!(eval_vec(GateKind::Xor, &[false, false]), vec![false]);
    assert_eq!(eval_vec(GateKind::Xor, &[false, true]), vec![true]);
    assert_eq!(eval_vec(GateKind::Xor, &[true, false]), vec![true]);
    assert_eq!(eval_vec(GateKind::Xor, &[true, true]), vec![false]);
}

#[test]
fn truth_table_not() {
    assert_eq!(eval_vec(GateKind::Not, &[false]), vec![true]);
    assert_eq!(eval_vec(GateKind::Not, &[true]), vec![false]);
}

#[test]
fn truth_table_and3() {
    for a in [false, true] {
        for b in [false, true] {
            for c in [false, true] {
                assert_eq!(eval_vec(GateKind::And3, &[a, b, c]), vec![a && b && c]);
            }
        }
    }
}

#[test]
fn truth_tables_through_tick() {
    // Drive each two-input kind's inputs directly and advance one tick: the
    // evaluate phase must install exactly the truth-table row.
    for (kind, table) in [
        (GateKind::And, [false, false, false, true]),
        (GateKind::Or, [false, true, true, true]),
        (GateKind::Xor, [false, true, true, false]),
    ] {
        for (i, expected) in table.iter().enumerate() {
            let a = i >= 2;
            let b = i % 2 == 1;
            let mut sim = Simulation::new();
            let id = sim.register_gate(kind);
            sim.set_input(id, 0, a).unwrap();
            sim.set_input(id, 1, b).unwrap();
            sim.tick();
            let (_, outputs) = sim.get_state(id).unwrap();
            assert_eq!(outputs, vec![*expected]);
        }
    }
}

#[test]
fn fresh_gate_is_all_false_with_declared_arities() {
    let mut sim = Simulation::new();
    let and = sim.register_gate(GateKind::And);
    let and3 = sim.register_gate(GateKind::And3);
    let not = sim.register_gate(GateKind::Not);
    let (i1, o1) = sim.get_state(and).unwrap();
    assert_eq!(i1, vec![false, false]);
    assert_eq!(o1, vec![false]);
    let (i2, o2) = sim.get_state(and3).unwrap();
    assert_eq!(i2, vec![false, false, false]);
    assert_eq!(o2, vec![false]);
    let (i3, o3) = sim.get_state(not).unwrap();
    assert_eq!(i3, vec![false]);
    assert_eq!(o3, vec![false]);
}

#[test]
fn identifiers_are_minted_in_order_and_never_reused() {
    let mut sim = Simulation::new();
    assert_eq!(sim.register_gate(GateKind::And), 0);
    assert_eq!(sim.register_gate(GateKind::Or), 1);
    assert_eq!(sim.register_gate(GateKind::Not), 2);
    assert_eq!(sim.gate_count(), 3);
}

#[test]
fn gate_names() {
    let mut sim = Simulation::new();
    let and = sim.register_gate(GateKind::And);
    let and3 = sim.register_gate(GateKind::And3);
    let or = sim.register_gate(GateKind::Or);
    let xor = sim.register_gate(GateKind::Xor);
    let not = sim.register_gate(GateKind::Not);
    assert_eq!(sim.get_name(and), Ok("AND"));
    assert_eq!(sim.get_name(and3), Ok("AND3"));
    assert_eq!(sim.get_name(or), Ok("OR"));
    assert_eq!(sim.get_name(xor), Ok("XOR"));
    assert_eq!(sim.get_name(not), Ok("NOT"));
}

#[test]
fn unknown_id_queries_are_rejected() {
    let mut sim = Simulation::new();
    assert_eq!(sim.get_state(0).unwrap_err(), LookupError::UnknownGate);
    assert_eq!(sim.get_name(0).unwrap_err(), LookupError::UnknownGate);
    let id = sim.register_gate(GateKind::Not);
    assert!(sim.get_state(id).is_ok());
    assert_eq!(sim.get_state(id + 1).unwrap_err(), LookupError::UnknownGate);
    assert_eq!(sim.get_name(usize::MAX).unwrap_err(), LookupError::UnknownGate);
}

#[test]
fn invalid_wiring_is_rejected_and_leaves_the_table_unchanged() {
    let mut sim = Simulation::new();
    let not = sim.register_gate(GateKind::Not);
    let and = sim.register_gate(GateKind::And);
    assert_eq!(
        sim.add_connection(5, 0, and, 0),
        Err(WireError::UnknownSourceGate)
    );
    assert_eq!(
        sim.add_connection(not, 0, 5, 0),
        Err(WireError::UnknownDestGate)
    );
    assert_eq!(
        sim.add_connection(not, 1, and, 0),
        Err(WireError::SourceSlotOutOfRange)
    );
    assert_eq!(
        sim.add_connection(not, 0, and, 2),
        Err(WireError::DestSlotOutOfRange)
    );
    assert_eq!(sim.connection_count(), 0);
    assert_eq!(sim.add_connection(not, 0, and, 0), Ok(()));
    assert_eq!(sim.connection_count(), 1);
}

#[test]
fn invalid_drive_is_rejected() {
    let mut sim = Simulation::new();
    let not = sim.register_gate(GateKind::Not);
    assert_eq!(sim.set_input(9, 0, true), Err(WireError::UnknownDestGate));
    assert_eq!(
        sim.set_input(not, 1, true),
        Err(WireError::DestSlotOutOfRange)
    );
    assert_eq!(sim.set_input(not, 0, true), Ok(()));
    let (inputs, _) = sim.get_state(not).unwrap();
    assert_eq!(inputs, vec![true]);
}

#[test]
fn propagation_delay_is_one_tick_per_hop() {
    // A linear chain of three NOT gates, wired head to tail. The head's
    // output flips on the first tick (its driven input is inverted), and
    // that change crosses one hop per tick afterwards.
    let mut sim = Simulation::new();
    let a = sim.register_gate(GateKind::Not);
    let b = sim.register_gate(GateKind::Not);
    let c = sim.register_gate(GateKind::Not);
    sim.add_connection(a, 0, b, 0).unwrap();
    sim.add_connection(b, 0, c, 0).unwrap();

    let out = |sim: &Simulation, id: usize| sim.get_state(id).unwrap().1[0];

    // All buffers start false; the head input stays false (undriven).
    sim.tick();
    assert_eq!(out(&sim, a), true); // NOT false
    assert_eq!(out(&sim, b), true); // NOT (a's pre-tick output: false)
    assert_eq!(out(&sim, c), true); // NOT (b's pre-tick output: false)

    sim.tick();
    assert_eq!(out(&sim, a), true); // head input still false
    assert_eq!(out(&sim, b), false); // a's tick-1 output has crossed one hop
    assert_eq!(out(&sim, c), false); // b's tick-1 output has crossed one hop

    sim.tick();
    assert_eq!(out(&sim, b), false); // a's output is now steady at true
    assert_eq!(out(&sim, c), true); // b's tick-2 flip arrives one tick later

    // Two hops, two ticks: c's output at tick 3 equals a's output at tick 1.
}

#[test]
fn determinism_same_setup_same_trajectory() {
    let build = || {
        let mut sim = Simulation::new();
        let a = sim.register_gate(GateKind::Not);
        let x = sim.register_gate(GateKind::Xor);
        sim.add_connection(a, 0, x, 0).unwrap();
        sim.add_connection(x, 0, a, 0).unwrap();
        sim.add_connection(x, 0, x, 1).unwrap();
        sim
    };
    let mut s1 = build();
    let mut s2 = build();
    for _ in 0..25 {
        s1.tick();
        s2.tick();
        for id in 0..s1.gate_count() {
            assert_eq!(s1.get_state(id).unwrap(), s2.get_state(id).unwrap());
        }
    }
}

#[test]
fn permuted_wiring_order_with_distinct_slots_is_equivalent() {
    // The same wires in two different table orders: no two target the same
    // input slot, so last-write-wins never bites and every tick must agree.
    let wire_orders: [&[(usize, usize, usize, usize)]; 2] = [
        &[(0, 0, 2, 0), (1, 0, 2, 1), (2, 0, 0, 0)],
        &[(2, 0, 0, 0), (1, 0, 2, 1), (0, 0, 2, 0)],
    ];
    let mut sims: Vec<Simulation> = wire_orders
        .iter()
        .map(|wires| {
            let mut sim = Simulation::new();
            sim.register_gate(GateKind::Not);
            sim.register_gate(GateKind::Not);
            sim.register_gate(GateKind::Xor);
            for &(sg, ss, dg, ds) in wires.iter() {
                sim.add_connection(sg, ss, dg, ds).unwrap();
            }
            sim
        })
        .collect();
    for _ in 0..20 {
        for sim in sims.iter_mut() {
            sim.tick();
        }
        for id in 0..3 {
            assert_eq!(
                sims[0].get_state(id).unwrap(),
                sims[1].get_state(id).unwrap()
            );
        }
    }
}

#[test]
fn last_wire_in_table_order_wins_on_a_shared_slot() {
    // Two wires target the same input slot of the AND gate: one from a NOT
    // gate outputting true, one from an OR gate outputting false. The later
    // wire in the table must win.
    let mut sim = Simulation::new();
    let not = sim.register_gate(GateKind::Not); // output true after a tick
    let or = sim.register_gate(GateKind::Or); // output false after a tick
    let and = sim.register_gate(GateKind::And);
    sim.add_connection(not, 0, and, 0).unwrap();
    sim.add_connection(or, 0, and, 0).unwrap();
    sim.tick(); // not: true, or: false settle
    sim.tick(); // both wires write and.in[0]; the or wire is last
    let (inputs, _) = sim.get_state(and).unwrap();
    assert_eq!(inputs[0], false);

    // Same endpoints, opposite table order: the not wire is last and wins.
    let mut sim2 = Simulation::new();
    let not2 = sim2.register_gate(GateKind::Not);
    let or2 = sim2.register_gate(GateKind::Or);
    let and2 = sim2.register_gate(GateKind::And);
    sim2.add_connection(or2, 0, and2, 0).unwrap();
    sim2.add_connection(not2, 0, and2, 0).unwrap();
    sim2.tick();
    sim2.tick();
    let (inputs2, _) = sim2.get_state(and2).unwrap();
    assert_eq!(inputs2[0], true);
}

#[test]
fn feedback_not_gate_oscillates() {
    let mut sim = Simulation::new();
    let not = sim.register_gate(GateKind::Not);
    sim.add_connection(not, 0, not, 0).unwrap();
    let mut expected = false;
    for _ in 0..10 {
        sim.tick();
        expected = !expected;
        let (_, outputs) = sim.get_state(not).unwrap();
        assert_eq!(outputs, vec![expected]);
    }
}

#[test]
fn undriven_inputs_default_to_false_and_hold() {
    let mut sim = Simulation::new();
    let and = sim.register_gate(GateKind::And);
    sim.tick();
    let (inputs, outputs) = sim.get_state(and).unwrap();
    assert_eq!(inputs, vec![false, false]);
    assert_eq!(outputs, vec![false]);
}
