//! Arithmetic circuits over the field: a list of gates, each of which feeds on
//! wires made before it, built by explicit calls and evaluated on a witness.

use crate::goldilocks_field::{field_add, field_mul, field_sub, GoldilocksField};
use vstd::prelude::*;

verus! {

/// A handle to the wire that a gate of a circuit drives.
#[derive(Clone, Copy, PartialEq, Eq, Structural, Debug)]
pub struct ExtensionTarget(pub usize);

/// One gate of a circuit. Its operands are wires made before it.
#[derive(Clone, Copy)]
pub enum Gate {
    /// The witness value with the given number.
    Input(usize),
    /// A fixed field element.
    Constant(GoldilocksField),
    Add(usize, usize),
    Sub(usize, usize),
    Mul(usize, usize),
}

/// The value of wire `target` under `witness`.
///
/// A wire that the circuit does not have, a gate that feeds on a wire not made
/// before it and an input that the witness does not reach have the value zero.
pub open spec fn wire_value(gates: Seq<Gate>, witness: Seq<int>, target: int) -> int
    decreases target,
{
    if target < 0 || target >= gates.len() {
        0
    } else {
        match gates[target] {
            Gate::Input(k) => if k < witness.len() {
                witness[k as int]
            } else {
                0
            },
            Gate::Constant(c) => c@,
            Gate::Add(a, b) => if a < target && b < target {
                field_add(wire_value(gates, witness, a as int), wire_value(gates, witness, b as int))
            } else {
                0
            },
            Gate::Sub(a, b) => if a < target && b < target {
                field_sub(wire_value(gates, witness, a as int), wire_value(gates, witness, b as int))
            } else {
                0
            },
            Gate::Mul(a, b) => if a < target && b < target {
                field_mul(wire_value(gates, witness, a as int), wire_value(gates, witness, b as int))
            } else {
                0
            },
        }
    }
}

/// The degree of wire `target` as a polynomial in the inputs, counted by the
/// shape of the circuit: an input has degree one, a constant zero, a sum or
/// difference the larger degree of its operands, a product their sum.
pub open spec fn wire_degree(gates: Seq<Gate>, target: int) -> nat
    decreases target,
{
    if target < 0 || target >= gates.len() {
        0
    } else {
        match gates[target] {
            Gate::Input(_) => 1,
            Gate::Constant(_) => 0,
            Gate::Add(a, b) | Gate::Sub(a, b) => if a < target && b < target {
                let da = wire_degree(gates, a as int);
                let db = wire_degree(gates, b as int);
                if da >= db { da } else { db }
            } else {
                0
            },
            Gate::Mul(a, b) => if a < target && b < target {
                wire_degree(gates, a as int) + wire_degree(gates, b as int)
            } else {
                0
            },
        }
    }
}

/// Every gate feeds on wires made before it.
pub open spec fn gates_well_formed(gates: Seq<Gate>) -> bool {
    forall|t: int|
        0 <= t < gates.len() ==> match #[trigger] gates[t] {
            Gate::Input(_) | Gate::Constant(_) => true,
            Gate::Add(a, b) | Gate::Sub(a, b) | Gate::Mul(a, b) => a < t && b < t,
        }
}

/// A gate added to a circuit leaves the wires that were there as they are.
pub proof fn lemma_wire_value_push(gates: Seq<Gate>, gate: Gate, witness: Seq<int>, target: int)
    requires
        0 <= target < gates.len(),
    ensures
        wire_value(gates.push(gate), witness, target) == wire_value(gates, witness, target),
    decreases target,
{
    let more = gates.push(gate);
    assert(more[target] == gates[target]);
    match gates[target] {
        Gate::Add(a, b) | Gate::Sub(a, b) | Gate::Mul(a, b) => {
            if a < target && b < target {
                lemma_wire_value_push(gates, gate, witness, a as int);
                lemma_wire_value_push(gates, gate, witness, b as int);
            }
        },
        _ => {},
    }
}

/// A gate added to a circuit leaves the degrees of the wires that were there.
pub proof fn lemma_wire_degree_push(gates: Seq<Gate>, gate: Gate, target: int)
    requires
        0 <= target < gates.len(),
    ensures
        wire_degree(gates.push(gate), target) == wire_degree(gates, target),
    decreases target,
{
    let more = gates.push(gate);
    assert(more[target] == gates[target]);
    match gates[target] {
        Gate::Add(a, b) | Gate::Sub(a, b) | Gate::Mul(a, b) => {
            if a < target && b < target {
                lemma_wire_degree_push(gates, gate, a as int);
                lemma_wire_degree_push(gates, gate, b as int);
            }
        },
        _ => {},
    }
}

/// A circuit that begins with the gates of another has its wires, with the
/// values and degrees they had.
pub proof fn lemma_prefix_keeps_wires(
    earlier: Seq<Gate>,
    later: Seq<Gate>,
    witness: Seq<int>,
    target: int,
)
    requires
        earlier.len() <= later.len(),
        forall|t: int| 0 <= t < earlier.len() ==> later[t] == earlier[t],
        0 <= target < earlier.len(),
    ensures
        wire_value(later, witness, target) == wire_value(earlier, witness, target),
        wire_degree(later, target) == wire_degree(earlier, target),
    decreases target,
{
    assert(later[target] == earlier[target]);
    match earlier[target] {
        Gate::Add(a, b) | Gate::Sub(a, b) | Gate::Mul(a, b) => {
            if a < target && b < target {
                lemma_prefix_keeps_wires(earlier, later, witness, a as int);
                lemma_prefix_keeps_wires(earlier, later, witness, b as int);
            }
        },
        _ => {},
    }
}

/// Builds a circuit gate by gate.
pub struct CircuitBuilder {
    gates: Vec<Gate>,
    num_inputs: usize,
}

impl View for CircuitBuilder {
    type V = Seq<Gate>;

    /// The gates added so far.
    closed spec fn view(&self) -> Seq<Gate> {
        self.gates@
    }
}

impl CircuitBuilder {
    /// The number of witness values that the circuit reads.
    pub closed spec fn num_inputs(&self) -> nat {
        self.num_inputs as nat
    }

    /// Every gate feeds on wires made before it, and the inputs are numbered
    /// in the order in which they were made.
    #[verifier::opaque]
    pub open spec fn well_formed(&self) -> bool {
        &&& gates_well_formed(self@)
        &&& self.num_inputs() <= self@.len()
        &&& forall|t: int|
            0 <= t < self@.len() ==> (#[trigger] self@[t] matches Gate::Input(k) ==> k
                < self.num_inputs())
    }

    /// `target` is a wire of this circuit.
    pub open spec fn has(&self, target: ExtensionTarget) -> bool {
        target.0 < self@.len()
    }

    /// The value of wire `target` under `witness`.
    #[verifier::opaque]
    pub open spec fn value(&self, witness: Seq<int>, target: ExtensionTarget) -> int {
        wire_value(self@, witness, target.0 as int)
    }

    /// The degree of wire `target`.
    #[verifier::opaque]
    pub open spec fn degree(&self, target: ExtensionTarget) -> nat {
        wire_degree(self@, target.0 as int)
    }

    /// `self` has the wires of `earlier`, with the values and degrees they had.
    #[verifier::opaque]
    pub open spec fn extends(&self, earlier: &CircuitBuilder) -> bool {
        &&& earlier@.len() <= self@.len()
        &&& earlier.num_inputs() <= self.num_inputs()
        &&& forall|witness: Seq<int>, target: ExtensionTarget|
            earlier.has(target) ==> #[trigger] self.value(witness, target) == earlier.value(
                witness,
                target,
            )
        &&& forall|target: ExtensionTarget|
            earlier.has(target) ==> #[trigger] self.degree(target) == earlier.degree(target)
    }

    /// What `extends` says of one wire.
    pub proof fn lemma_extends(
        &self,
        earlier: &CircuitBuilder,
        witness: Seq<int>,
        target: ExtensionTarget,
    )
        requires
            self.extends(earlier),
            earlier.has(target),
        ensures
            self.has(target),
            self.value(witness, target) == earlier.value(witness, target),
            self.degree(target) == earlier.degree(target),
    {
        reveal(CircuitBuilder::extends);
    }

    /// A circuit extends what the circuits that it extends extend.
    pub proof fn lemma_extends_transitive(&self, middle: &CircuitBuilder, earlier: &CircuitBuilder)
        requires
            self.extends(middle),
            middle.extends(earlier),
        ensures
            self.extends(earlier),
    {
        reveal(CircuitBuilder::extends);
        assert forall|witness: Seq<int>, target: ExtensionTarget|
            earlier.has(target) implies #[trigger] self.value(witness, target) == earlier.value(
            witness,
            target,
        ) by {
            assert(middle.value(witness, target) == earlier.value(witness, target));
        }
        assert forall|target: ExtensionTarget| earlier.has(target) implies #[trigger] self.degree(
            target,
        ) == earlier.degree(target) by {
            assert(middle.degree(target) == earlier.degree(target));
        }
    }

    /// A circuit that begins with the gates of another extends it.
    pub proof fn lemma_extends_prefix(&self, earlier: &CircuitBuilder)
        requires
            earlier@.len() <= self@.len(),
            earlier.num_inputs() <= self.num_inputs(),
            forall|t: int| 0 <= t < earlier@.len() ==> self@[t] == earlier@[t],
        ensures
            self.extends(earlier),
    {
        reveal(CircuitBuilder::extends);
        reveal(CircuitBuilder::value);
        reveal(CircuitBuilder::degree);
        assert forall|witness: Seq<int>, target: ExtensionTarget|
            earlier.has(target) implies #[trigger] self.value(witness, target) == earlier.value(
            witness,
            target,
        ) by {
            lemma_prefix_keeps_wires(earlier@, self@, witness, target.0 as int);
        }
        assert forall|target: ExtensionTarget| earlier.has(target) implies #[trigger] self.degree(
            target,
        ) == earlier.degree(target) by {
            lemma_prefix_keeps_wires(earlier@, self@, Seq::empty(), target.0 as int);
        }
    }

    /// A circuit without gates.
    pub fn new() -> (builder: Self)
        ensures
            builder@ == Seq::<Gate>::empty(),
            builder.num_inputs() == 0,
            builder.well_formed(),
    {
        let builder = CircuitBuilder { gates: Vec::new(), num_inputs: 0 };
        proof {
            reveal(CircuitBuilder::well_formed);
        }
        builder
    }

    fn add_gate(&mut self, gate: Gate) -> (target: ExtensionTarget)
        requires
            old(self).well_formed(),
            match gate {
                Gate::Input(k) => k == old(self).num_inputs(),
                Gate::Constant(_) => true,
                Gate::Add(a, b) | Gate::Sub(a, b) | Gate::Mul(a, b) => a < old(self)@.len() && b
                    < old(self)@.len(),
            },
        ensures
            final(self)@ == old(self)@.push(gate),
            final(self).num_inputs() == if gate is Input {
                old(self).num_inputs() + 1
            } else {
                old(self).num_inputs()
            },
            target.0 == old(self)@.len(),
            final(self).well_formed(),
            final(self).extends(old(self)),
    {
        let target = ExtensionTarget(self.gates.len());
        proof {
            reveal(CircuitBuilder::well_formed);
        }
        self.gates.push(gate);
        let count = self.gates.len();
        match gate {
            Gate::Input(_) => {
                self.num_inputs = self.num_inputs + 1;
            },
            _ => {},
        }
        proof {
            reveal(CircuitBuilder::extends);
            reveal(CircuitBuilder::value);
            reveal(CircuitBuilder::degree);
            assert forall|witness: Seq<int>, t: ExtensionTarget|
                old(self).has(t) implies #[trigger] self.value(witness, t) == old(self).value(
                witness,
                t,
            ) by {
                lemma_wire_value_push(old(self)@, gate, witness, t.0 as int);
            }
            assert forall|t: ExtensionTarget| old(self).has(t) implies #[trigger] self.degree(t)
                == old(self).degree(t) by {
                lemma_wire_degree_push(old(self)@, gate, t.0 as int);
            }
        }
        target
    }

    /// A new wire that carries the next value of the witness.
    pub fn add_virtual_extension_target(&mut self) -> (target: ExtensionTarget)
        requires
            old(self).well_formed(),
        ensures
            final(self)@ == old(self)@.push(Gate::Input(old(self).num_inputs() as usize)),
            final(self).num_inputs() == old(self).num_inputs() + 1,
            target.0 == old(self)@.len(),
            final(self).well_formed(),
            final(self).extends(old(self)),
            final(self).has(target),
            final(self).degree(target) == 1,
            forall|witness: Seq<int>| #[trigger]
                final(self).value(witness, target) == if old(self).num_inputs() < witness.len() {
                    witness[old(self).num_inputs() as int]
                } else {
                    0
                },
    {
        let k = self.num_inputs;
        let target = self.add_gate(Gate::Input(k));
        proof {
            reveal(CircuitBuilder::value);
            reveal(CircuitBuilder::degree);
        }
        target
    }

    /// A wire that carries the constant `c`.
    pub fn constant_extension(&mut self, c: GoldilocksField) -> (target: ExtensionTarget)
        requires
            old(self).well_formed(),
        ensures
            final(self)@ == old(self)@.push(Gate::Constant(c)),
            final(self).num_inputs() == old(self).num_inputs(),
            target.0 == old(self)@.len(),
            final(self).well_formed(),
            final(self).extends(old(self)),
            final(self).has(target),
            final(self).degree(target) == 0,
            forall|witness: Seq<int>| #[trigger] final(self).value(witness, target) == c@,
    {
        let target = self.add_gate(Gate::Constant(c));
        proof {
            reveal(CircuitBuilder::value);
            reveal(CircuitBuilder::degree);
        }
        target
    }

    /// A wire that carries the constant one.
    pub fn one_extension(&mut self) -> (target: ExtensionTarget)
        requires
            old(self).well_formed(),
        ensures
            final(self)@ == old(self)@.push(Gate::Constant(GoldilocksField(1))),
            final(self).num_inputs() == old(self).num_inputs(),
            target.0 == old(self)@.len(),
            final(self).well_formed(),
            final(self).extends(old(self)),
            final(self).has(target),
            final(self).degree(target) == 0,
            forall|witness: Seq<int>| #[trigger] final(self).value(witness, target) == 1,
    {
        self.constant_extension(GoldilocksField::one())
    }

    /// A wire that carries `a + b`.
    pub fn add_extension(&mut self, a: ExtensionTarget, b: ExtensionTarget) -> (target:
        ExtensionTarget)
        requires
            old(self).well_formed(),
            old(self).has(a),
            old(self).has(b),
        ensures
            final(self)@ == old(self)@.push(Gate::Add(a.0, b.0)),
            final(self).num_inputs() == old(self).num_inputs(),
            target.0 == old(self)@.len(),
            final(self).well_formed(),
            final(self).extends(old(self)),
            final(self).has(target),
            final(self).degree(target) == if old(self).degree(a) >= old(self).degree(b) {
                old(self).degree(a)
            } else {
                old(self).degree(b)
            },
            forall|witness: Seq<int>| #[trigger]
                final(self).value(witness, target) == field_add(
                    old(self).value(witness, a),
                    old(self).value(witness, b),
                ),
    {
        let target = self.add_gate(Gate::Add(a.0, b.0));
        proof {
            reveal(CircuitBuilder::extends);
            reveal(CircuitBuilder::value);
            reveal(CircuitBuilder::degree);
            assert(self.degree(a) == old(self).degree(a));
            assert(self.degree(b) == old(self).degree(b));
            assert forall|witness: Seq<int>| #[trigger]
                self.value(witness, target) == field_add(
                    old(self).value(witness, a),
                    old(self).value(witness, b),
                ) by {
                assert(self.value(witness, a) == old(self).value(witness, a));
                assert(self.value(witness, b) == old(self).value(witness, b));
            }
        }
        target
    }

    /// A wire that carries `a - b`.
    pub fn sub_extension(&mut self, a: ExtensionTarget, b: ExtensionTarget) -> (target:
        ExtensionTarget)
        requires
            old(self).well_formed(),
            old(self).has(a),
            old(self).has(b),
        ensures
            final(self)@ == old(self)@.push(Gate::Sub(a.0, b.0)),
            final(self).num_inputs() == old(self).num_inputs(),
            target.0 == old(self)@.len(),
            final(self).well_formed(),
            final(self).extends(old(self)),
            final(self).has(target),
            final(self).degree(target) == if old(self).degree(a) >= old(self).degree(b) {
                old(self).degree(a)
            } else {
                old(self).degree(b)
            },
            forall|witness: Seq<int>| #[trigger]
                final(self).value(witness, target) == field_sub(
                    old(self).value(witness, a),
                    old(self).value(witness, b),
                ),
    {
        let target = self.add_gate(Gate::Sub(a.0, b.0));
        proof {
            reveal(CircuitBuilder::extends);
            reveal(CircuitBuilder::value);
            reveal(CircuitBuilder::degree);
            assert(self.degree(a) == old(self).degree(a));
            assert(self.degree(b) == old(self).degree(b));
            assert forall|witness: Seq<int>| #[trigger]
                self.value(witness, target) == field_sub(
                    old(self).value(witness, a),
                    old(self).value(witness, b),
                ) by {
                assert(self.value(witness, a) == old(self).value(witness, a));
                assert(self.value(witness, b) == old(self).value(witness, b));
            }
        }
        target
    }

    /// A wire that carries `a * b`.
    pub fn mul_extension(&mut self, a: ExtensionTarget, b: ExtensionTarget) -> (target:
        ExtensionTarget)
        requires
            old(self).well_formed(),
            old(self).has(a),
            old(self).has(b),
        ensures
            final(self)@ == old(self)@.push(Gate::Mul(a.0, b.0)),
            final(self).num_inputs() == old(self).num_inputs(),
            target.0 == old(self)@.len(),
            final(self).well_formed(),
            final(self).extends(old(self)),
            final(self).has(target),
            final(self).degree(target) == old(self).degree(a) + old(self).degree(b),
            forall|witness: Seq<int>| #[trigger]
                final(self).value(witness, target) == field_mul(
                    old(self).value(witness, a),
                    old(self).value(witness, b),
                ),
    {
        let target = self.add_gate(Gate::Mul(a.0, b.0));
        proof {
            reveal(CircuitBuilder::extends);
            reveal(CircuitBuilder::value);
            reveal(CircuitBuilder::degree);
            assert(self.degree(a) == old(self).degree(a));
            assert(self.degree(b) == old(self).degree(b));
            assert forall|witness: Seq<int>| #[trigger]
                self.value(witness, target) == field_mul(
                    old(self).value(witness, a),
                    old(self).value(witness, b),
                ) by {
                assert(self.value(witness, a) == old(self).value(witness, a));
                assert(self.value(witness, b) == old(self).value(witness, b));
            }
        }
        target
    }

    /// The number of wires.
    pub fn num_targets(&self) -> (n: usize)
        ensures
            n == self@.len(),
    {
        self.gates.len()
    }

    /// The values of all wires under `witness`, by one pass over the gates.
    pub fn evaluate(&self, witness: &[GoldilocksField]) -> (values: Vec<GoldilocksField>)
        requires
            self.well_formed(),
        ensures
            values.len() == self@.len(),
            forall|t: int|
                0 <= t < values.len() ==> (#[trigger] values@[t])@ == wire_value(
                    self@,
                    witness_values(witness@),
                    t,
                ),
    {
        let ghost w = witness_values(witness@);
        let mut values: Vec<GoldilocksField> = Vec::with_capacity(self.gates.len());
        proof {
            reveal(CircuitBuilder::well_formed);
        }
        for t in 0..self.gates.len()
            invariant
                gates_well_formed(self@),
                w == witness_values(witness@),
                values.len() == t,
                forall|u: int| 0 <= u < t ==> (#[trigger] values@[u])@ == wire_value(self@, w, u),
        {
            assert(self@[t as int] == self.gates@[t as int]);
            let value = match self.gates[t] {
                Gate::Input(k) => if k < witness.len() {
                    witness[k].to_canonical()
                } else {
                    GoldilocksField::zero()
                },
                Gate::Constant(c) => c,
                Gate::Add(a, b) => values[a] + values[b],
                Gate::Sub(a, b) => values[a] - values[b],
                Gate::Mul(a, b) => values[a] * values[b],
            };
            values.push(value);
        }
        values
    }

    /// The degrees of all wires, each capped at the largest `usize`.
    pub fn degrees(&self) -> (degrees: Vec<usize>)
        requires
            self.well_formed(),
        ensures
            degrees.len() == self@.len(),
            forall|t: int|
                0 <= t < degrees.len() ==> #[trigger] degrees@[t] == capped(wire_degree(self@, t)),
    {
        let mut degrees: Vec<usize> = Vec::with_capacity(self.gates.len());
        proof {
            reveal(CircuitBuilder::well_formed);
        }
        for t in 0..self.gates.len()
            invariant
                gates_well_formed(self@),
                degrees.len() == t,
                forall|u: int|
                    0 <= u < t ==> #[trigger] degrees@[u] == capped(wire_degree(self@, u)),
        {
            assert(self@[t as int] == self.gates@[t as int]);
            let degree = match self.gates[t] {
                Gate::Input(_) => 1,
                Gate::Constant(_) => 0,
                Gate::Add(a, b) => if degrees[a] >= degrees[b] {
                    degrees[a]
                } else {
                    degrees[b]
                },
                Gate::Sub(a, b) => if degrees[a] >= degrees[b] {
                    degrees[a]
                } else {
                    degrees[b]
                },
                Gate::Mul(a, b) => degrees[a].saturating_add(degrees[b]),
            };
            degrees.push(degree);
        }
        degrees
    }
}

/// The canonical values of a witness.
pub open spec fn witness_values(witness: Seq<GoldilocksField>) -> Seq<int> {
    Seq::new(witness.len(), |i: int| witness[i]@)
}

/// `d`, or the largest `usize` where `d` exceeds it.
pub open spec fn capped(d: nat) -> usize {
    if d <= usize::MAX {
        d as usize
    } else {
        usize::MAX
    }
}

} // verus!
