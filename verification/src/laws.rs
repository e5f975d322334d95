//! The library's laws: properties that relate several operations, stated
//! over the mathematical model and proved once and for all.

use crate::clock::{rem_after, ticks_due, MICROS_PER_SECOND};
use crate::gate::{spec_eval, GateKind};
use crate::sim::{
    apply_connection, connection_wf, eval_all, gate_wf, lemma_propagate_shape, propagate,
    tick_spec, Connection, GateView, SimView,
};
use vstd::arithmetic::div_mod::{
    lemma_fundamental_div_mod, lemma_hoist_over_denominator, lemma_mod_multiples_vanish,
};
use vstd::arithmetic::mul::lemma_mul_is_distributive_add_other_way;
use vstd::prelude::*;

verus! {

/// Law: the truth tables of the catalog. For every combination of boolean
/// inputs, each kind's rule yields exactly the tabulated output: AND and
/// AND3 the conjunction, OR the disjunction, XOR the inequality, NOT the
/// negation.
pub proof fn lemma_truth_tables(a: bool, b: bool, c: bool)
    ensures
        spec_eval(GateKind::And, seq![a, b]) == seq![a && b],
        spec_eval(GateKind::And3, seq![a, b, c]) == seq![a && b && c],
        spec_eval(GateKind::Or, seq![a, b]) == seq![a || b],
        spec_eval(GateKind::Xor, seq![a, b]) == seq![a != b],
        spec_eval(GateKind::Not, seq![a]) == seq![!a],
{
    assert(spec_eval(GateKind::And, seq![a, b]) =~= seq![a && b]);
    assert(spec_eval(GateKind::And3, seq![a, b, c]) =~= seq![a && b && c]);
    assert(spec_eval(GateKind::Or, seq![a, b]) =~= seq![a || b]);
    assert(spec_eval(GateKind::Xor, seq![a, b]) =~= seq![a != b]);
    assert(spec_eval(GateKind::Not, seq![a]) =~= seq![!a]);
}

/// Law: feedback is stable and oscillating. A NOT gate whose single output
/// is wired back to its own single input flips its output on every tick,
/// whatever boolean state it starts from; a tick over a cyclic wiring is as
/// well-defined and bounded as over any other.
pub proof fn lemma_feedback_oscillation(s: SimView)
    requires
        s.wf(),
        s.gates.len() == 1,
        s.gates[0].kind == GateKind::Not,
        s.connections == seq![
            Connection { source_gate: 0, source_slot: 0, dest_gate: 0, dest_slot: 0 },
        ],
    ensures
        tick_spec(s).gates[0].outputs[0] == !s.gates[0].outputs[0],
        tick_spec(s).gates.len() == 1,
        tick_spec(s).gates[0].kind == GateKind::Not,
        tick_spec(s).connections == s.connections,
        tick_spec(s).wf(),
{
    let c = Connection { source_gate: 0, source_slot: 0, dest_gate: 0, dest_slot: 0 };
    let cs = s.connections;
    assert(cs.drop_last() =~= Seq::<Connection>::empty());
    assert(cs.last() == c);
    assert(propagate(s.gates, Seq::<Connection>::empty()) == s.gates);
    assert(propagate(s.gates, cs) == apply_connection(s.gates, c));
    assert(gate_wf(s.gates[0]));
    assert(propagate(s.gates, cs)[0].inputs[0] == s.gates[0].outputs[0]);
    assert(tick_spec(s).gates[0].outputs == spec_eval(
        GateKind::Not,
        propagate(s.gates, cs)[0].inputs,
    ));
    lemma_tick_wf(s);
}

/// Law: the self-wired NOT gate oscillates, returning to its starting
/// output every second tick: true and false alternate forever.
pub proof fn lemma_feedback_alternates(s: SimView)
    requires
        s.wf(),
        s.gates.len() == 1,
        s.gates[0].kind == GateKind::Not,
        s.connections == seq![
            Connection { source_gate: 0, source_slot: 0, dest_gate: 0, dest_slot: 0 },
        ],
    ensures
        tick_spec(s).gates[0].outputs[0] == !s.gates[0].outputs[0],
        tick_spec(tick_spec(s)).gates[0].outputs[0] == s.gates[0].outputs[0],
{
    lemma_feedback_oscillation(s);
    lemma_feedback_oscillation(tick_spec(s));
}

/// Law: one tick of a lone, unwired gate leaves its inputs exactly as they
/// were driven and evaluates its kind's truth table on them.
pub proof fn lemma_lone_gate_tick(s: SimView)
    requires
        s.wf(),
        s.gates.len() == 1,
        s.connections == Seq::<Connection>::empty(),
    ensures
        tick_spec(s).gates[0].inputs == s.gates[0].inputs,
        tick_spec(s).gates[0].outputs == spec_eval(s.gates[0].kind, s.gates[0].inputs),
{
    assert(propagate(s.gates, s.connections) == s.gates);
}

/// Law: one tick keeps the engine well formed, keeps the wiring table, and
/// keeps every gate's kind, so ticking can go on forever.
pub proof fn lemma_tick_wf(s: SimView)
    requires
        s.wf(),
    ensures
        tick_spec(s).wf(),
        tick_spec(s).connections == s.connections,
        tick_spec(s).gates.len() == s.gates.len(),
        forall|g: int|
            0 <= g < s.gates.len() ==> (#[trigger] tick_spec(s).gates[g]).kind == s.gates[g].kind,
{
    lemma_propagate_shape(s.gates, s.connections);
    let p = propagate(s.gates, s.connections);
    assert forall|g: int| 0 <= g < s.gates.len() implies gate_wf(
        #[trigger] tick_spec(s).gates[g],
    ) by {
        assert(gate_wf(s.gates[g]));
        assert(tick_spec(s).gates[g] == eval_all(p)[g]);
    }
    assert forall|i: int| 0 <= i < s.connections.len() implies connection_wf(
        tick_spec(s).gates,
        #[trigger] tick_spec(s).connections[i],
    ) by {
        assert(connection_wf(s.gates, s.connections[i]));
    }
}

/// One tick of a two-hop chain of NOT gates (gate 0 feeding gate 1 feeding
/// gate 2): each gate's new output is the negation of what stood one hop
/// behind it before the tick, and the head negates its own driven input.
pub proof fn lemma_chain_tick(s: SimView)
    requires
        s.wf(),
        s.gates.len() == 3,
        s.gates[0].kind == GateKind::Not,
        s.gates[1].kind == GateKind::Not,
        s.gates[2].kind == GateKind::Not,
        s.connections == seq![
            Connection { source_gate: 0, source_slot: 0, dest_gate: 1, dest_slot: 0 },
            Connection { source_gate: 1, source_slot: 0, dest_gate: 2, dest_slot: 0 },
        ],
    ensures
        tick_spec(s).gates[0].outputs[0] == !s.gates[0].inputs[0],
        tick_spec(s).gates[1].outputs[0] == !s.gates[0].outputs[0],
        tick_spec(s).gates[2].outputs[0] == !s.gates[1].outputs[0],
        tick_spec(s).gates[0].inputs == s.gates[0].inputs,
        tick_spec(s).wf(),
        tick_spec(s).gates.len() == 3,
        tick_spec(s).gates[0].kind == GateKind::Not,
        tick_spec(s).gates[1].kind == GateKind::Not,
        tick_spec(s).gates[2].kind == GateKind::Not,
        tick_spec(s).connections == s.connections,
{
    let c0 = Connection { source_gate: 0, source_slot: 0, dest_gate: 1, dest_slot: 0 };
    let c1 = Connection { source_gate: 1, source_slot: 0, dest_gate: 2, dest_slot: 0 };
    let cs = s.connections;
    assert(gate_wf(s.gates[0]));
    assert(gate_wf(s.gates[1]));
    assert(gate_wf(s.gates[2]));
    assert(cs.last() == c1);
    assert(cs.drop_last() =~= seq![c0]);
    assert(seq![c0].drop_last() =~= Seq::<Connection>::empty());
    assert(seq![c0].last() == c0);
    assert(propagate(s.gates, Seq::<Connection>::empty()) == s.gates);
    assert(propagate(s.gates, seq![c0]) == apply_connection(s.gates, c0));
    assert(propagate(s.gates, cs) == apply_connection(apply_connection(s.gates, c0), c1));
    let p = propagate(s.gates, cs);
    assert(p[0].inputs == s.gates[0].inputs);
    assert(p[0].kind == GateKind::Not);
    assert(p[1].inputs[0] == s.gates[0].outputs[0]);
    assert(p[1].kind == GateKind::Not);
    assert(p[2].inputs[0] == s.gates[1].outputs[0]);
    assert(p[2].kind == GateKind::Not);
    assert(tick_spec(s).gates[0].outputs == spec_eval(GateKind::Not, p[0].inputs));
    assert(tick_spec(s).gates[1].outputs == spec_eval(GateKind::Not, p[1].inputs));
    assert(tick_spec(s).gates[2].outputs == spec_eval(GateKind::Not, p[2].inputs));
    lemma_tick_wf(s);
}

/// Law: propagation delay is one tick per hop. In a linear chain wired
/// gate 0 to gate 1 to gate 2, after exactly two ticks the tail gate's
/// output carries the head gate's initial output (the two NOT hops — a
/// NOT-NOT pass-through — cancel), while after a single tick it still
/// reflects only the middle gate: the signal crosses one hop per tick.
pub proof fn lemma_propagation_delay(s: SimView)
    requires
        s.wf(),
        s.gates.len() == 3,
        s.gates[0].kind == GateKind::Not,
        s.gates[1].kind == GateKind::Not,
        s.gates[2].kind == GateKind::Not,
        s.connections == seq![
            Connection { source_gate: 0, source_slot: 0, dest_gate: 1, dest_slot: 0 },
            Connection { source_gate: 1, source_slot: 0, dest_gate: 2, dest_slot: 0 },
        ],
    ensures
        tick_spec(s).gates[2].outputs[0] == !s.gates[1].outputs[0],
        tick_spec(tick_spec(s)).gates[2].outputs[0] == s.gates[0].outputs[0],
        tick_spec(tick_spec(tick_spec(s))).gates[2].outputs[0] == !s.gates[0].inputs[0],
{
    lemma_chain_tick(s);
    lemma_chain_tick(tick_spec(s));
    lemma_chain_tick(tick_spec(tick_spec(s)));
}

/// The value the propagate phase owes to input slot `slot` of gate `g`: the
/// pre-tick output named by the last wire in table order that targets that
/// slot, or the slot's prior value when no wire targets it.
pub open spec fn propagated_input(
    gates: Seq<GateView>,
    conns: Seq<Connection>,
    g: int,
    slot: int,
) -> bool
    decreases conns.len(),
{
    if conns.len() == 0 {
        gates[g].inputs[slot]
    } else if conns.last().dest_gate as int == g && conns.last().dest_slot as int == slot {
        gates[conns.last().source_gate as int].outputs[conns.last().source_slot as int]
    } else {
        propagated_input(gates, conns.drop_last(), g, slot)
    }
}

/// Law: the propagate phase is a pure gather with last-write-wins. Every
/// input slot ends at exactly the value its last writer in table order read
/// from pre-tick outputs, and a slot no wire targets keeps its value.
pub proof fn lemma_propagate_last_write_wins(
    gates: Seq<GateView>,
    conns: Seq<Connection>,
    g: int,
    slot: int,
)
    requires
        forall|i: int| 0 <= i < gates.len() ==> gate_wf(#[trigger] gates[i]),
        forall|i: int| 0 <= i < conns.len() ==> connection_wf(gates, #[trigger] conns[i]),
        0 <= g < gates.len(),
        0 <= slot < gates[g].inputs.len(),
    ensures
        propagate(gates, conns)[g].inputs[slot] == propagated_input(gates, conns, g, slot),
    decreases conns.len(),
{
    if conns.len() > 0 {
        let c = conns.last();
        let prev = propagate(gates, conns.drop_last());
        assert(forall|i: int|
            0 <= i < conns.drop_last().len() ==> connection_wf(
                gates,
                #[trigger] conns.drop_last()[i],
            ));
        lemma_propagate_shape(gates, conns.drop_last());
        lemma_propagate_last_write_wins(gates, conns.drop_last(), g, slot);
        assert(connection_wf(gates, c));
        assert(gate_wf(gates[c.dest_gate as int]));
        assert(propagate(gates, conns) == apply_connection(prev, c));
        assert(prev[c.source_gate as int].outputs == gates[c.source_gate as int].outputs);
        if c.dest_gate as int == g && c.dest_slot as int == slot {
            assert(apply_connection(prev, c)[g].inputs[slot] == prev[c.source_gate
                as int].outputs[c.source_slot as int]);
        } else if c.dest_gate as int == g {
            assert(apply_connection(prev, c)[g].inputs[slot] == prev[g].inputs[slot]);
        } else {
            assert(apply_connection(prev, c)[g] == prev[g]);
        }
    }
}

/// The last wire in table order that targets input slot `slot` of gate `g`,
/// if any, identified by its source endpoint.
pub open spec fn last_writer(conns: Seq<Connection>, g: int, slot: int) -> Option<(int, int)>
    decreases conns.len(),
{
    if conns.len() == 0 {
        None
    } else if conns.last().dest_gate as int == g && conns.last().dest_slot as int == slot {
        Some((conns.last().source_gate as int, conns.last().source_slot as int))
    } else {
        last_writer(conns.drop_last(), g, slot)
    }
}

/// What the propagate phase owes a slot, written by its last writer: the
/// pre-tick output at that writer's source endpoint, or the slot's prior
/// value when no wire targets it.
pub proof fn lemma_propagated_input_by_last_writer(
    gates: Seq<GateView>,
    conns: Seq<Connection>,
    g: int,
    slot: int,
)
    ensures
        propagated_input(gates, conns, g, slot) == match last_writer(conns, g, slot) {
            Option::None => gates[g].inputs[slot],
            Option::Some(w) => gates[w.0].outputs[w.1],
        },
    decreases conns.len(),
{
    if conns.len() > 0 {
        lemma_propagated_input_by_last_writer(gates, conns.drop_last(), g, slot);
    }
}

/// Law: a tick is deterministic up to the documented last-write-wins rule.
/// Two wiring tables over the same gates that owe every input slot the same
/// propagated value — the same last writer's value, or both leaving the slot
/// alone — give identical networks after a tick, however their wires are
/// ordered.
pub proof fn lemma_tick_order_irrelevant(s1: SimView, s2: SimView)
    requires
        s1.wf(),
        s2.wf(),
        s1.gates == s2.gates,
        forall|g: int, slot: int|
            0 <= g < s1.gates.len() && 0 <= slot < s1.gates[g].inputs.len()
                ==> #[trigger] propagated_input(s1.gates, s1.connections, g, slot)
                == #[trigger] propagated_input(s2.gates, s2.connections, g, slot),
    ensures
        tick_spec(s1).gates == tick_spec(s2).gates,
{
    let p1 = propagate(s1.gates, s1.connections);
    let p2 = propagate(s2.gates, s2.connections);
    lemma_propagate_shape(s1.gates, s1.connections);
    lemma_propagate_shape(s2.gates, s2.connections);
    assert forall|g: int| 0 <= g < s1.gates.len() implies p1[g] == p2[g] by {
        assert(gate_wf(s1.gates[g]));
        assert forall|slot: int| 0 <= slot < s1.gates[g].inputs.len() implies p1[g].inputs[slot]
            == p2[g].inputs[slot] by {
            lemma_propagate_last_write_wins(s1.gates, s1.connections, g, slot);
            lemma_propagate_last_write_wins(s2.gates, s2.connections, g, slot);
        }
        assert(p1[g].inputs =~= p2[g].inputs);
        assert(p1[g] =~= p2[g]);
    }
    assert(p1 =~= p2);
    assert(tick_spec(s1).gates == eval_all(p1));
    assert(tick_spec(s2).gates == eval_all(p2));
}

/// The state of the network after `n` synchronous ticks.
pub open spec fn tick_n(s: SimView, n: nat) -> SimView
    decreases n,
{
    if n == 0 {
        s
    } else {
        tick_spec(tick_n(s, (n - 1) as nat))
    }
}

/// Law: any number of ticks keeps the engine well formed and never touches
/// the wiring table, the number of gates or their kinds.
pub proof fn lemma_tick_n_wf(s: SimView, n: nat)
    requires
        s.wf(),
    ensures
        tick_n(s, n).wf(),
        tick_n(s, n).connections == s.connections,
        tick_n(s, n).gates.len() == s.gates.len(),
        forall|g: int|
            0 <= g < s.gates.len() ==> (#[trigger] tick_n(s, n).gates[g]).kind == s.gates[g].kind,
    decreases n,
{
    if n > 0 {
        lemma_tick_n_wf(s, (n - 1) as nat);
        lemma_tick_wf(tick_n(s, (n - 1) as nat));
    }
}

/// Law: running any number of ticks is deterministic up to last-write-wins.
/// Two engines over the same gates whose wiring tables agree on the last
/// writer of every input slot — however the tables order their wires, and
/// whatever wires are shadowed by later ones — hold identical gate states
/// after every number of ticks.
pub proof fn lemma_run_order_irrelevant(s1: SimView, s2: SimView, n: nat)
    requires
        s1.wf(),
        s2.wf(),
        s1.gates == s2.gates,
        forall|g: int, slot: int|
            0 <= g < s1.gates.len() && 0 <= slot < s1.gates[g].inputs.len()
                ==> #[trigger] last_writer(s1.connections, g, slot) == #[trigger] last_writer(
                s2.connections,
                g,
                slot,
            ),
    ensures
        tick_n(s1, n).gates == tick_n(s2, n).gates,
    decreases n,
{
    if n > 0 {
        lemma_run_order_irrelevant(s1, s2, (n - 1) as nat);
        let t1 = tick_n(s1, (n - 1) as nat);
        let t2 = tick_n(s2, (n - 1) as nat);
        lemma_tick_n_wf(s1, (n - 1) as nat);
        lemma_tick_n_wf(s2, (n - 1) as nat);
        assert forall|g: int, slot: int|
            0 <= g < t1.gates.len() && 0 <= slot < t1.gates[g].inputs.len()
                implies #[trigger] propagated_input(t1.gates, t1.connections, g, slot)
            == #[trigger] propagated_input(t2.gates, t2.connections, g, slot) by {
            assert(gate_wf(t1.gates[g]));
            assert(gate_wf(s1.gates[g]));
            assert(t1.gates[g].inputs.len() == s1.gates[g].inputs.len());
            assert(last_writer(s1.connections, g, slot) == last_writer(s2.connections, g, slot));
            lemma_propagated_input_by_last_writer(t1.gates, t1.connections, g, slot);
            lemma_propagated_input_by_last_writer(t2.gates, t2.connections, g, slot);
        }
        lemma_tick_order_irrelevant(t1, t2);
        assert(tick_n(s1, n).gates == tick_spec(t1).gates);
        assert(tick_n(s2, n).gates == tick_spec(t2).gates);
    }
}

/// Law: the clock never drifts. Accounting a stretch of elapsed time in one
/// frame, or split across two consecutive frames, yields the same total
/// number of ticks and the same carried remainder.
pub proof fn lemma_clock_no_drift(e1: int, e2: int, f: int, r: int)
    requires
        0 <= e1,
        0 <= e2,
        0 <= f,
        0 <= r < MICROS_PER_SECOND as int,
    ensures
        ticks_due(e1, f, r) + ticks_due(e2, f, rem_after(e1, f, r)) == ticks_due(e1 + e2, f, r),
        rem_after(e2, f, rem_after(e1, f, r)) == rem_after(e1 + e2, f, r),
{
    let m = MICROS_PER_SECOND as int;
    let a = e1 * f + r;
    let b = e2 * f;
    assert((e1 + e2) * f == e1 * f + e2 * f) by {
        lemma_mul_is_distributive_add_other_way(f, e1, e2);
    }
    lemma_fundamental_div_mod(a, m);
    let q = a / m;
    let rm = a % m;
    assert(b + rm + q * m == a + b);
    lemma_hoist_over_denominator(b + rm, q, m as nat);
    assert(m * q + (b + rm) == a + b);
    lemma_mod_multiples_vanish(q, b + rm, m);
}

} // verus!
