use vstd::prelude::*;
use crate::maps::count_at;
use crate::model::net::NetModel;
use crate::model_checking::props::{BuiltinPetriAtomicProposition, TokensCountAtom, TokensCountRelation};

verus! {

/// What an atomic proposition of the surface syntax compiles to: a formula
/// over the primitive propositions, made of constants, conjunctions and
/// disjunctions.
#[derive(Debug, PartialEq, Eq, Hash)]
pub enum PetriCtlFormula {
    True,
    False,
    AtomicProp(BuiltinPetriAtomicProposition),
    And(Box<PetriCtlFormula>, Box<PetriCtlFormula>),
    Or(Box<PetriCtlFormula>, Box<PetriCtlFormula>),
}

/// The proposition that place `p` holds at least `k` tokens.
pub open spec fn at_least(p: usize, k: u32) -> PetriCtlFormula {
    PetriCtlFormula::AtomicProp(
        BuiltinPetriAtomicProposition::TokensCount(
            TokensCountRelation::GreaterOrEqual,
            TokensCountAtom::NumberOfTokensInPlace(p),
            TokensCountAtom::RawInteger(k),
        ),
    )
}

/// `f` and `g`, or `g` alone where there is no `f` yet.
pub open spec fn and_onto(f: Option<PetriCtlFormula>, g: PetriCtlFormula) -> PetriCtlFormula {
    match f {
        Some(x) => PetriCtlFormula::And(Box::new(x), Box::new(g)),
        None => g,
    }
}

/// `f` or `g`, or `g` alone where there is no `f` yet.
pub open spec fn or_onto(f: Option<PetriCtlFormula>, g: PetriCtlFormula) -> PetriCtlFormula {
    match f {
        Some(x) => PetriCtlFormula::Or(Box::new(x), Box::new(g)),
        None => g,
    }
}

/// The conjunction, by increasing place, of the demands that a preset makes
/// on the first `n` places; nothing where it makes none.
pub open spec fn demands_upto(pre: Map<usize, u32>, n: nat) -> Option<PetriCtlFormula>
    decreases n,
{
    if n == 0 {
        None
    } else {
        let p = (n - 1) as usize;
        let before = demands_upto(pre, (n - 1) as nat);
        if count_at(pre, p) > 0 {
            Some(and_onto(before, at_least(p, pre[p])))
        } else {
            before
        }
    }
}

/// The condition under which a transition with this preset may fire, over
/// the first `n` places.
pub open spec fn firing_condition(pre: Map<usize, u32>, n: nat) -> PetriCtlFormula {
    match demands_upto(pre, n) {
        Some(f) => f,
        None => PetriCtlFormula::True,
    }
}

/// The disjunction, in the order of the net, of the firing conditions of
/// those among the first `upto` transitions that carry the label `name`;
/// nothing where none does.
pub open spec fn fireable_upto(net: NetModel, name: Seq<char>, upto: nat) -> Option<PetriCtlFormula>
    decreases upto,
{
    if upto == 0 {
        None
    } else {
        let before = fireable_upto(net, name, (upto - 1) as nat);
        let tr = net.transitions[upto - 1];
        if tr.label == Some(name) {
            Some(or_onto(before, firing_condition(tr.pre, net.places.len())))
        } else {
            before
        }
    }
}

/// The condition under which some transition labelled `name` may fire;
/// nothing where no transition carries that label.
pub open spec fn fireable(net: NetModel, name: Seq<char>) -> Option<PetriCtlFormula> {
    fireable_upto(net, name, net.transitions.len())
}

impl PetriCtlFormula {
    /// A copy of the formula.
    pub fn duplicate(&self) -> (r: PetriCtlFormula)
        ensures
            r == *self,
        decreases *self,
    {
        match self {
            PetriCtlFormula::True => PetriCtlFormula::True,
            PetriCtlFormula::False => PetriCtlFormula::False,
            PetriCtlFormula::AtomicProp(p) => PetriCtlFormula::AtomicProp(p.duplicate()),
            PetriCtlFormula::And(a, b) => PetriCtlFormula::And(Box::new(a.duplicate()), Box::new(b.duplicate())),
            PetriCtlFormula::Or(a, b) => PetriCtlFormula::Or(Box::new(a.duplicate()), Box::new(b.duplicate())),
        }
    }
}

} // verus!
