//! Where an evaluator hands over the constraints it emits, each tagged with the
//! rows on which it must vanish.

use crate::circuit::ExtensionTarget;
use crate::goldilocks_field::GoldilocksField;
use vstd::prelude::*;

verus! {

/// The rows on which a constraint must vanish.
#[derive(Clone, Copy, PartialEq, Eq, Structural, Debug)]
pub enum ConstraintKind {
    /// Every row; on the last row the next row is the first.
    EveryRow,
    /// Every row but the last.
    Transition,
    /// The last row only, where the next row is the first.
    LastRow,
}

/// Collects the constraints of a direct evaluation, in the order of emission.
pub struct ConstraintConsumer {
    constraints: Vec<(ConstraintKind, GoldilocksField)>,
}

impl View for ConstraintConsumer {
    type V = Seq<(ConstraintKind, int)>;

    /// The constraints emitted so far, each with the canonical value it took.
    closed spec fn view(&self) -> Seq<(ConstraintKind, int)> {
        Seq::new(self.constraints@.len(), |i: int| (self.constraints@[i].0, self.constraints@[i].1@))
    }
}

impl ConstraintConsumer {
    /// A consumer that holds no constraint yet.
    pub fn new() -> (consumer: Self)
        ensures
            consumer@ == Seq::<(ConstraintKind, int)>::empty(),
    {
        let consumer = ConstraintConsumer { constraints: Vec::new() };
        assert(consumer@ =~= Seq::<(ConstraintKind, int)>::empty());
        consumer
    }

    fn emit(&mut self, kind: ConstraintKind, constraint: GoldilocksField)
        ensures
            final(self)@ == old(self)@.push((kind, constraint@)),
    {
        self.constraints.push((kind, constraint));
        assert(self@ =~= old(self)@.push((kind, constraint@)));
    }

    /// Adds a constraint that must vanish on every row.
    pub fn constraint(&mut self, constraint: GoldilocksField)
        ensures
            final(self)@ == old(self)@.push((ConstraintKind::EveryRow, constraint@)),
    {
        self.emit(ConstraintKind::EveryRow, constraint);
    }

    /// Adds a constraint that must vanish on every row but the last.
    pub fn constraint_transition(&mut self, constraint: GoldilocksField)
        ensures
            final(self)@ == old(self)@.push((ConstraintKind::Transition, constraint@)),
    {
        self.emit(ConstraintKind::Transition, constraint);
    }

    /// Adds a constraint that must vanish on the last row.
    pub fn constraint_last_row(&mut self, constraint: GoldilocksField)
        ensures
            final(self)@ == old(self)@.push((ConstraintKind::LastRow, constraint@)),
    {
        self.emit(ConstraintKind::LastRow, constraint);
    }

    /// The number of constraints emitted so far.
    pub fn len(&self) -> (n: usize)
        ensures
            n == self@.len(),
    {
        self.constraints.len()
    }

    /// The kind and the value of constraint `index`.
    pub fn get(&self, index: usize) -> (constraint: (ConstraintKind, GoldilocksField))
        requires
            index < self@.len(),
        ensures
            constraint.0 == self@[index as int].0,
            constraint.1@ == self@[index as int].1,
    {
        self.constraints[index]
    }
}

/// Collects the constraints of a circuit evaluation, in the order of emission.
pub struct RecursiveConstraintConsumer {
    constraints: Vec<(ConstraintKind, ExtensionTarget)>,
}

impl View for RecursiveConstraintConsumer {
    type V = Seq<(ConstraintKind, ExtensionTarget)>;

    /// The constraints emitted so far, each with the wire that carries it.
    closed spec fn view(&self) -> Seq<(ConstraintKind, ExtensionTarget)> {
        self.constraints@
    }
}

impl RecursiveConstraintConsumer {
    /// A consumer that holds no constraint yet.
    pub fn new() -> (consumer: Self)
        ensures
            consumer@ == Seq::<(ConstraintKind, ExtensionTarget)>::empty(),
    {
        RecursiveConstraintConsumer { constraints: Vec::new() }
    }

    /// Adds a constraint that must vanish on every row.
    pub fn constraint(&mut self, constraint: ExtensionTarget)
        ensures
            final(self)@ == old(self)@.push((ConstraintKind::EveryRow, constraint)),
    {
        self.constraints.push((ConstraintKind::EveryRow, constraint));
    }

    /// Adds a constraint that must vanish on every row but the last.
    pub fn constraint_transition(&mut self, constraint: ExtensionTarget)
        ensures
            final(self)@ == old(self)@.push((ConstraintKind::Transition, constraint)),
    {
        self.constraints.push((ConstraintKind::Transition, constraint));
    }

    /// Adds a constraint that must vanish on the last row.
    pub fn constraint_last_row(&mut self, constraint: ExtensionTarget)
        ensures
            final(self)@ == old(self)@.push((ConstraintKind::LastRow, constraint)),
    {
        self.constraints.push((ConstraintKind::LastRow, constraint));
    }

    /// The number of constraints emitted so far.
    pub fn len(&self) -> (n: usize)
        ensures
            n == self@.len(),
    {
        self.constraints.len()
    }

    /// The kind and the wire of constraint `index`.
    pub fn get(&self, index: usize) -> (constraint: (ConstraintKind, ExtensionTarget))
        requires
            index < self@.len(),
        ensures
            constraint == self@[index as int],
    {
        self.constraints[index]
    }
}

} // verus!
