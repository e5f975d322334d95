//! The circuit evaluation engine: the registry of gate instances, the
//! directed wiring table between them, and the synchronous two-phase step
//! (propagate, then evaluate) that advances every gate output one tick.

use crate::gate::{spec_eval, spec_input_arity, spec_name, spec_output_arity, GateKind};
use vstd::prelude::*;

verus! {

/// A directed wire: the value at `(source_gate, source_slot)` is copied into
/// `(dest_gate, dest_slot)` during the propagate phase of every tick.
#[derive(Clone, Copy, PartialEq, Eq, Structural, Debug)]
pub struct Connection {
    pub source_gate: usize,
    pub source_slot: usize,
    pub dest_gate: usize,
    pub dest_slot: usize,
}

/// Mathematical model of one placed gate: its kind and the current contents
/// of its input and output buffers.
#[verifier::ext_equal]
pub ghost struct GateView {
    pub kind: GateKind,
    pub inputs: Seq<bool>,
    pub outputs: Seq<bool>,
}

/// Mathematical model of the whole engine: the gates in registration order
/// (a gate's identifier is its position, so identifiers are never reused)
/// and the wiring table in insertion order.
#[verifier::ext_equal]
pub ghost struct SimView {
    pub gates: Seq<GateView>,
    pub connections: Seq<Connection>,
}

/// A gate's buffers are sized exactly by its kind's declared arities.
pub open spec fn gate_wf(g: GateView) -> bool {
    &&& g.inputs.len() == spec_input_arity(g.kind)
    &&& g.outputs.len() == spec_output_arity(g.kind)
}

/// A wire is valid for a gate registry: both endpoints name live gates and
/// both slots lie within the declared arities.
pub open spec fn connection_wf(gates: Seq<GateView>, c: Connection) -> bool {
    &&& c.source_gate < gates.len()
    &&& c.dest_gate < gates.len()
    &&& c.source_slot < spec_output_arity(gates[c.source_gate as int].kind)
    &&& c.dest_slot < spec_input_arity(gates[c.dest_gate as int].kind)
}

impl SimView {
    /// Engine invariant: every gate and every wire is well formed.
    pub open spec fn wf(self) -> bool {
        &&& forall|i: int| 0 <= i < self.gates.len() ==> gate_wf(#[trigger] self.gates[i])
        &&& forall|i: int|
            0 <= i < self.connections.len() ==> connection_wf(
                self.gates,
                #[trigger] self.connections[i],
            )
    }
}

/// One propagate step: copy the current value at the wire's source output
/// slot into its destination input slot. Only an input buffer changes.
pub open spec fn apply_connection(gates: Seq<GateView>, c: Connection) -> Seq<GateView> {
    let value = gates[c.source_gate as int].outputs[c.source_slot as int];
    let dest = gates[c.dest_gate as int];
    gates.update(
        c.dest_gate as int,
        GateView { inputs: dest.inputs.update(c.dest_slot as int, value), ..dest },
    )
}

/// The whole propagate phase: the wires applied in table order, so that when
/// several wires target the same input slot the last one in the table wins.
/// Output buffers are untouched, so every wire reads pre-tick output state.
pub open spec fn propagate(gates: Seq<GateView>, conns: Seq<Connection>) -> Seq<GateView>
    decreases conns.len(),
{
    if conns.len() == 0 {
        gates
    } else {
        apply_connection(propagate(gates, conns.drop_last()), conns.last())
    }
}

/// The evaluate phase: every gate's output buffer recomputed from its own
/// input buffer by its kind's rule. Gates are independent, so order is
/// irrelevant.
pub open spec fn eval_all(gates: Seq<GateView>) -> Seq<GateView> {
    Seq::new(
        gates.len(),
        |i: int| GateView { outputs: spec_eval(gates[i].kind, gates[i].inputs), ..gates[i] },
    )
}

/// One synchronous tick of the whole network: propagate, then evaluate.
pub open spec fn tick_spec(s: SimView) -> SimView {
    SimView { gates: eval_all(propagate(s.gates, s.connections)), connections: s.connections }
}

/// Rejection of an invalid wire or drive target: each variant names the
/// first violated condition, in the order the checks are made.
#[derive(Clone, Copy, PartialEq, Eq, Structural, Debug)]
pub enum WireError {
    UnknownSourceGate,
    UnknownDestGate,
    SourceSlotOutOfRange,
    DestSlotOutOfRange,
}

/// Rejection of a query that names a gate identifier never handed out.
#[derive(Clone, Copy, PartialEq, Eq, Structural, Debug)]
pub enum LookupError {
    UnknownGate,
}

/// Exactly which result `add_connection` owes for a proposed wire: the first
/// violated condition's error, or success when the wire is valid.
pub open spec fn wire_check(gates: Seq<GateView>, c: Connection) -> Result<(), WireError> {
    if c.source_gate >= gates.len() {
        Err(WireError::UnknownSourceGate)
    } else if c.dest_gate >= gates.len() {
        Err(WireError::UnknownDestGate)
    } else if c.source_slot >= spec_output_arity(gates[c.source_gate as int].kind) {
        Err(WireError::SourceSlotOutOfRange)
    } else if c.dest_slot >= spec_input_arity(gates[c.dest_gate as int].kind) {
        Err(WireError::DestSlotOutOfRange)
    } else {
        Ok(())
    }
}

/// Exactly which result `set_input` owes for a proposed drive target.
pub open spec fn drive_check(gates: Seq<GateView>, id: int, slot: int) -> Result<(), WireError> {
    if id < 0 || id >= gates.len() {
        Err(WireError::UnknownDestGate)
    } else if slot >= spec_input_arity(gates[id].kind) {
        Err(WireError::DestSlotOutOfRange)
    } else {
        Ok(())
    }
}

/// The propagate phase never touches a gate's kind, its output buffer, or
/// any buffer's length: it only rewrites input values. So it keeps every
/// gate and every wire well formed.
pub proof fn lemma_propagate_shape(gates: Seq<GateView>, conns: Seq<Connection>)
    requires
        forall|g: int| 0 <= g < gates.len() ==> gate_wf(#[trigger] gates[g]),
        forall|i: int| 0 <= i < conns.len() ==> connection_wf(gates, #[trigger] conns[i]),
    ensures
        propagate(gates, conns).len() == gates.len(),
        forall|g: int|
            0 <= g < gates.len() ==> (#[trigger] propagate(gates, conns)[g]).kind == gates[g].kind,
        forall|g: int|
            0 <= g < gates.len() ==> (#[trigger] propagate(gates, conns)[g]).outputs
                == gates[g].outputs,
        forall|g: int|
            0 <= g < gates.len() ==> (#[trigger] propagate(gates, conns)[g]).inputs.len()
                == gates[g].inputs.len(),
    decreases conns.len(),
{
    if conns.len() > 0 {
        let prev = propagate(gates, conns.drop_last());
        let c = conns.last();
        assert(forall|i: int|
            0 <= i < conns.drop_last().len() ==> connection_wf(
                gates,
                #[trigger] conns.drop_last()[i],
            ));
        lemma_propagate_shape(gates, conns.drop_last());
        assert(connection_wf(gates, c));
        assert(gate_wf(gates[c.dest_gate as int]));
        assert(propagate(gates, conns) == apply_connection(prev, c));
        assert forall|g: int|
            0 <= g < gates.len() implies (#[trigger] propagate(gates, conns)[g]).inputs.len()
            == gates[g].inputs.len() by {
            if g == c.dest_gate as int {
                assert(apply_connection(prev, c)[g].inputs.len() == prev[g].inputs.len());
            } else {
                assert(apply_connection(prev, c)[g] == prev[g]);
            }
        }
    }
}

/// The all-false freshly registered state of a gate of the given kind.
pub open spec fn fresh_gate(kind: GateKind) -> GateView {
    GateView {
        kind,
        inputs: Seq::new(spec_input_arity(kind), |i: int| false),
        outputs: Seq::new(spec_output_arity(kind), |i: int| false),
    }
}

/// Runtime state of one placed gate.
pub struct GateInstance {
    kind: GateKind,
    inputs: Vec<bool>,
    outputs: Vec<bool>,
}

impl View for GateInstance {
    type V = GateView;

    closed spec fn view(&self) -> GateView {
        GateView { kind: self.kind, inputs: self.inputs@, outputs: self.outputs@ }
    }
}

/// The engine itself. A gate's identifier is its registration rank, so the
/// next identifier to mint is always the number of gates registered so far
/// and no identifier is ever reused within a session.
pub struct Simulation {
    gates: Vec<GateInstance>,
    connections: Vec<Connection>,
}

impl View for Simulation {
    type V = SimView;

    closed spec fn view(&self) -> SimView {
        SimView {
            gates: self.gates@.map_values(|g: GateInstance| g@),
            connections: self.connections@,
        }
    }
}

/// A vector of `n` false values: the initial contents of every buffer.
fn falses(n: usize) -> (r: Vec<bool>)
    ensures
        r@ == Seq::new(n as nat, |i: int| false),
{
    let mut r: Vec<bool> = Vec::new();
    let mut k: usize = 0;
    while k < n
        invariant
            k <= n,
            r@ =~= Seq::new(k as nat, |i: int| false),
        decreases n - k,
    {
        r.push(false);
        k = k + 1;
    }
    proof {
        assert(r@ =~= Seq::new(n as nat, |i: int| false));
    }
    r
}

/// A copy of a boolean buffer, handed outward so that callers never alias
/// the engine's own state.
fn copy_bools(v: &Vec<bool>) -> (r: Vec<bool>)
    ensures
        r@ == v@,
{
    let mut r: Vec<bool> = Vec::new();
    let mut k: usize = 0;
    while k < v.len()
        invariant
            k <= v@.len(),
            r@ =~= v@.take(k as int),
        decreases v@.len() - k,
    {
        r.push(v[k]);
        k = k + 1;
    }
    proof {
        assert(v@.take(v@.len() as int) =~= v@);
    }
    r
}

impl Simulation {
    /// An empty engine: no gates, no wires.
    pub fn new() -> (s: Simulation)
        ensures
            s@.gates == Seq::<GateView>::empty(),
            s@.connections == Seq::<Connection>::empty(),
            s@.wf(),
    {
        let s = Simulation { gates: Vec::new(), connections: Vec::new() };
        proof {
            assert(s@.gates =~= Seq::<GateView>::empty());
        }
        s
    }

    /// Place a new gate of the given kind: both buffers all false, sized by
    /// the kind's arities, under a freshly minted, never-reused identifier.
    pub fn register_gate(&mut self, kind: GateKind) -> (id: usize)
        ensures
            id == old(self)@.gates.len(),
            final(self)@.gates == old(self)@.gates.push(fresh_gate(kind)),
            final(self)@.connections == old(self)@.connections,
            old(self)@.wf() ==> final(self)@.wf(),
    {
        let id = self.gates.len();
        let inputs = falses(kind.input_arity());
        let outputs = falses(kind.output_arity());
        self.gates.push(GateInstance { kind, inputs, outputs });
        proof {
            assert(final(self)@.gates =~= old(self)@.gates.push(fresh_gate(kind)));
            if old(self)@.wf() {
                assert forall|i: int|
                    0 <= i < final(self)@.connections.len() implies connection_wf(
                    final(self)@.gates,
                    #[trigger] final(self)@.connections[i],
                ) by {
                    assert(connection_wf(old(self)@.gates, old(self)@.connections[i]));
                }
            }
        }
        id
    }

    /// How many gates have been registered; identifiers `0..` this count are
    /// exactly the live ones.
    pub fn gate_count(&self) -> (n: usize)
        ensures
            n == self@.gates.len(),
    {
        self.gates.len()
    }

    /// How many wires the connection table holds.
    pub fn connection_count(&self) -> (n: usize)
        ensures
            n == self@.connections.len(),
    {
        self.connections.len()
    }

    /// Append a wire to the connection table, after validating both
    /// endpoints and both slot indices; an invalid wire is rejected with the
    /// first violated condition's error and the engine is left unchanged.
    pub fn add_connection(
        &mut self,
        source_gate: usize,
        source_slot: usize,
        dest_gate: usize,
        dest_slot: usize,
    ) -> (r: Result<(), WireError>)
        ensures
            r == wire_check(
                old(self)@.gates,
                (Connection { source_gate, source_slot, dest_gate, dest_slot }),
            ),
            final(self)@.gates == old(self)@.gates,
            r is Ok ==> final(self)@.connections == old(self)@.connections.push(
                Connection { source_gate, source_slot, dest_gate, dest_slot },
            ),
            r is Err ==> final(self)@.connections == old(self)@.connections,
            old(self)@.wf() ==> final(self)@.wf(),
    {
        if source_gate >= self.gates.len() {
            return Err(WireError::UnknownSourceGate);
        }
        if dest_gate >= self.gates.len() {
            return Err(WireError::UnknownDestGate);
        }
        if source_slot >= self.gates[source_gate].kind.output_arity() {
            return Err(WireError::SourceSlotOutOfRange);
        }
        if dest_slot >= self.gates[dest_gate].kind.input_arity() {
            return Err(WireError::DestSlotOutOfRange);
        }
        self.connections.push(Connection { source_gate, source_slot, dest_gate, dest_slot });
        proof {
            let c = Connection { source_gate, source_slot, dest_gate, dest_slot };
            assert(self@.gates[source_gate as int] == self.gates@[source_gate as int]@);
            assert(self@.gates[dest_gate as int] == self.gates@[dest_gate as int]@);
            assert(connection_wf(self@.gates, c));
            if old(self)@.wf() {
                assert forall|i: int|
                    0 <= i < final(self)@.connections.len() implies connection_wf(
                    final(self)@.gates,
                    #[trigger] final(self)@.connections[i],
                ) by {
                    if i < old(self)@.connections.len() {
                        assert(connection_wf(old(self)@.gates, old(self)@.connections[i]));
                    } else {
                        assert(final(self)@.connections[i] == c);
                    }
                }
            }
        }
        Ok(())
    }

    /// Read-only snapshot of a gate's input and output buffers; a stale or
    /// never-minted identifier is reported, never defaulted.
    pub fn get_state(&self, id: usize) -> (r: Result<(Vec<bool>, Vec<bool>), LookupError>)
        ensures
            id < self@.gates.len() ==> (r matches Ok(p)
                && p.0@ == self@.gates[id as int].inputs
                && p.1@ == self@.gates[id as int].outputs),
            id >= self@.gates.len() ==> (r matches Err(e) && e == LookupError::UnknownGate),
    {
        if id >= self.gates.len() {
            return Err(LookupError::UnknownGate);
        }
        let g = &self.gates[id];
        Ok((copy_bools(&g.inputs), copy_bools(&g.outputs)))
    }

    /// The display name of a gate's kind; a stale or never-minted identifier
    /// is reported.
    pub fn get_name(&self, id: usize) -> (r: Result<&'static str, LookupError>)
        ensures
            id < self@.gates.len() ==> (r matches Ok(n)
                && n@ == spec_name(self@.gates[id as int].kind)),
            id >= self@.gates.len() ==> (r matches Err(e) && e == LookupError::UnknownGate),
    {
        if id >= self.gates.len() {
            return Err(LookupError::UnknownGate);
        }
        Ok(self.gates[id].kind.name())
    }

    /// Drive one input slot of one gate to a chosen value, as an external
    /// stimulus; an undriven slot keeps its last value. An unknown gate or an
    /// out-of-range slot is rejected and the engine is left unchanged.
    pub fn set_input(&mut self, id: usize, slot: usize, value: bool) -> (r: Result<(), WireError>)
        requires
            old(self)@.wf(),
        ensures
            r == drive_check(old(self)@.gates, id as int, slot as int),
            final(self)@.connections == old(self)@.connections,
            r is Ok ==> final(self)@.gates == old(self)@.gates.update(
                id as int,
                (GateView {
                    inputs: old(self)@.gates[id as int].inputs.update(slot as int, value),
                    ..old(self)@.gates[id as int]
                }),
            ),
            r is Err ==> final(self)@.gates == old(self)@.gates,
            final(self)@.wf(),
    {
        if id >= self.gates.len() {
            return Err(WireError::UnknownDestGate);
        }
        if slot >= self.gates[id].kind.input_arity() {
            return Err(WireError::DestSlotOutOfRange);
        }
        proof {
            assert(self@.gates[id as int] == self.gates@[id as int]@);
            assert(gate_wf(self@.gates[id as int]));
        }
        self.gates[id].inputs[slot] = value;
        proof {
            assert(final(self)@.gates =~= old(self)@.gates.update(
                id as int,
                (GateView {
                    inputs: old(self)@.gates[id as int].inputs.update(slot as int, value),
                    ..old(self)@.gates[id as int]
                }),
            ));
            assert forall|i: int|
                0 <= i < final(self)@.connections.len() implies connection_wf(
                final(self)@.gates,
                #[trigger] final(self)@.connections[i],
            ) by {
                assert(connection_wf(old(self)@.gates, old(self)@.connections[i]));
            }
        }
        Ok(())
    }

    /// Advance the whole network by exactly one synchronous step: first copy
    /// every wired output value into its destination input buffer in table
    /// order (so the last wire into a slot wins), all reads observing
    /// pre-tick outputs; then recompute every gate's outputs from its own
    /// inputs. Total and panic-free: it is bounded by the number of wires
    /// plus the number of gates, whatever cycles the wiring holds.
    pub fn tick(&mut self)
        requires
            old(self)@.wf(),
        ensures
            final(self)@ == tick_spec(old(self)@),
            final(self)@.wf(),
    {
        let ghost orig: SimView = self@;
        proof {
            assert(orig.connections.take(0) =~= Seq::<Connection>::empty());
        }
        let mut ci: usize = 0;
        while ci < self.connections.len()
            invariant
                ci <= self.connections@.len(),
                self.connections@ == orig.connections,
                orig.wf(),
                self@.gates == propagate(orig.gates, orig.connections.take(ci as int)),
            decreases self.connections@.len() - ci,
        {
            proof {
                assert(forall|i: int|
                    0 <= i < orig.connections.take(ci as int).len() ==> connection_wf(
                        orig.gates,
                        #[trigger] orig.connections.take(ci as int)[i],
                    ));
                lemma_propagate_shape(orig.gates, orig.connections.take(ci as int));
                assert(connection_wf(orig.gates, orig.connections[ci as int]));
                assert(gate_wf(orig.gates[orig.connections[ci as int].source_gate as int]));
                assert(gate_wf(orig.gates[orig.connections[ci as int].dest_gate as int]));
            }
            let c = self.connections[ci];
            proof {
                assert(self@.gates[c.source_gate as int] == self.gates@[c.source_gate as int]@);
                assert(self@.gates[c.dest_gate as int] == self.gates@[c.dest_gate as int]@);
            }
            let value = self.gates[c.source_gate].outputs[c.source_slot];
            self.gates[c.dest_gate].inputs[c.dest_slot] = value;
            ci = ci + 1;
            proof {
                let taken = orig.connections.take(ci as int);
                assert(taken.drop_last() =~= orig.connections.take(ci as int - 1));
                assert(taken.last() == c);
                assert(self@.gates =~= apply_connection(
                    propagate(orig.gates, taken.drop_last()),
                    c,
                ));
            }
        }
        proof {
            assert(orig.connections.take(self.connections@.len() as int) =~= orig.connections);
            lemma_propagate_shape(orig.gates, orig.connections);
        }
        let ghost prop: Seq<GateView> = self@.gates;
        let mut gi: usize = 0;
        while gi < self.gates.len()
            invariant
                gi <= self.gates@.len(),
                self.connections@ == orig.connections,
                self@.gates.len() == prop.len(),
                forall|j: int| 0 <= j < prop.len() ==> gate_wf(#[trigger] prop[j]),
                forall|j: int| 0 <= j < gi ==> #[trigger] self@.gates[j] == eval_all(prop)[j],
                forall|j: int| gi <= j < prop.len() ==> #[trigger] self@.gates[j] == prop[j],
            decreases self.gates@.len() - gi,
        {
            let ghost before: Seq<GateView> = self@.gates;
            proof {
                assert(self@.gates[gi as int] == self.gates@[gi as int]@);
                assert(gate_wf(prop[gi as int]));
            }
            let kind = self.gates[gi].kind;
            let out = kind.eval(&self.gates[gi].inputs);
            self.gates[gi].outputs = out;
            proof {
                assert(self@.gates =~= before.update(
                    gi as int,
                    (GateView { outputs: out@, ..before[gi as int] }),
                ));
                assert(self@.gates[gi as int] =~= eval_all(prop)[gi as int]);
            }
            gi = gi + 1;
        }
        proof {
            assert(self@.gates =~= eval_all(prop));
            assert(final(self)@ =~= tick_spec(orig));
            assert forall|i: int|
                0 <= i < final(self)@.gates.len() implies gate_wf(
                #[trigger] final(self)@.gates[i],
            ) by {
                assert(gate_wf(orig.gates[i]));
                assert(final(self)@.gates[i] == eval_all(prop)[i]);
            }
            assert forall|i: int|
                0 <= i < final(self)@.connections.len() implies connection_wf(
                final(self)@.gates,
                #[trigger] final(self)@.connections[i],
            ) by {
                assert(connection_wf(orig.gates, orig.connections[i]));
            }
        }
    }
}

} // verus!
