//! The kinds of logic gate the simulator offers, with their arities, names
//! and truth tables.

use vstd::prelude::*;

verus! {

/// The closed set of gate kinds. New kinds are added here, never at runtime.
#[derive(Clone, Copy, PartialEq, Eq, Structural, Debug)]
pub enum GateKind {
    And,
    And3,
    Or,
    Xor,
    Not,
}

/// Number of boolean input slots a kind declares.
pub open spec fn spec_input_arity(kind: GateKind) -> nat {
    match kind {
        GateKind::And => 2,
        GateKind::And3 => 3,
        GateKind::Or => 2,
        GateKind::Xor => 2,
        GateKind::Not => 1,
    }
}

/// Number of boolean output slots a kind declares.
pub open spec fn spec_output_arity(kind: GateKind) -> nat {
    match kind {
        GateKind::And => 1,
        GateKind::And3 => 1,
        GateKind::Or => 1,
        GateKind::Xor => 1,
        GateKind::Not => 1,
    }
}

/// The evaluation rule of a kind: the full output vector computed from an
/// input vector of the declared arity. This is the truth table of the catalog.
pub open spec fn spec_eval(kind: GateKind, inputs: Seq<bool>) -> Seq<bool> {
    match kind {
        GateKind::And => seq![inputs[0] && inputs[1]],
        GateKind::And3 => seq![inputs[0] && inputs[1] && inputs[2]],
        GateKind::Or => seq![inputs[0] || inputs[1]],
        GateKind::Xor => seq![inputs[0] != inputs[1]],
        GateKind::Not => seq![!inputs[0]],
    }
}

/// The display name of a kind.
pub open spec fn spec_name(kind: GateKind) -> Seq<char> {
    match kind {
        GateKind::And => "AND"@,
        GateKind::And3 => "AND3"@,
        GateKind::Or => "OR"@,
        GateKind::Xor => "XOR"@,
        GateKind::Not => "NOT"@,
    }
}

impl GateKind {
    /// Runtime input arity, equal to the declared one.
    pub fn input_arity(self) -> (n: usize)
        ensures
            n == spec_input_arity(self),
    {
        match self {
            GateKind::And => 2,
            GateKind::And3 => 3,
            GateKind::Or => 2,
            GateKind::Xor => 2,
            GateKind::Not => 1,
        }
    }

    /// Runtime output arity, equal to the declared one.
    pub fn output_arity(self) -> (n: usize)
        ensures
            n == spec_output_arity(self),
    {
        match self {
            GateKind::And => 1,
            GateKind::And3 => 1,
            GateKind::Or => 1,
            GateKind::Xor => 1,
            GateKind::Not => 1,
        }
    }

    /// Runtime display name, equal to the declared one.
    pub fn name(self) -> (r: &'static str)
        ensures
            r@ == spec_name(self),
    {
        match self {
            GateKind::And => "AND",
            GateKind::And3 => "AND3",
            GateKind::Or => "OR",
            GateKind::Xor => "XOR",
            GateKind::Not => "NOT",
        }
    }

    /// Evaluate the kind's rule on an input vector of the declared arity.
    /// Pure and total: the result is exactly the truth table's row.
    pub fn eval(self, inputs: &Vec<bool>) -> (r: Vec<bool>)
        requires
            inputs@.len() == spec_input_arity(self),
        ensures
            r@ == spec_eval(self, inputs@),
            r@.len() == spec_output_arity(self),
    {
        let mut r: Vec<bool> = Vec::new();
        match self {
            GateKind::And => {
                r.push(inputs[0] && inputs[1]);
            },
            GateKind::And3 => {
                r.push(inputs[0] && inputs[1] && inputs[2]);
            },
            GateKind::Or => {
                r.push(inputs[0] || inputs[1]);
            },
            GateKind::Xor => {
                r.push(inputs[0] != inputs[1]);
            },
            GateKind::Not => {
                r.push(!inputs[0]);
            },
        }
        proof {
            assert(r@ =~= spec_eval(self, inputs@));
        }
        r
    }
}

} // verus!
