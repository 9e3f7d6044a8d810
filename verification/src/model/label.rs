use vstd::prelude::*;
use std::rc::Rc;

verus! {

/// The name carried by a labelled place.
#[derive(Debug, Clone, PartialEq, Eq, PartialOrd, Ord, Hash)]
pub struct PetriStateLabel {
    pub label: String,
}

/// The name carried by a labelled transition.
#[derive(Debug, Clone, PartialEq, Eq, PartialOrd, Ord, Hash)]
pub struct PetriTransitionLabel {
    pub label: String,
}

impl View for PetriStateLabel {
    type V = Seq<char>;

    open spec fn view(&self) -> Seq<char> {
        self.label@
    }
}

impl View for PetriTransitionLabel {
    type V = Seq<char>;

    open spec fn view(&self) -> Seq<char> {
        self.label@
    }
}

/// What an optional place label stands for: its name, if it has one.
pub open spec fn place_label_name(l: Option<Rc<PetriStateLabel>>) -> Option<Seq<char>> {
    match l {
        Some(x) => Some(x@),
        None => None,
    }
}

/// What an optional transition label stands for: its name, if it has one.
pub open spec fn transition_label_name(l: Option<Rc<PetriTransitionLabel>>) -> Option<Seq<char>> {
    match l {
        Some(x) => Some(x@),
        None => None,
    }
}

impl PetriStateLabel {
    pub fn new(label: String) -> (r: Self)
        ensures
            r@ == label@,
    {
        Self { label }
    }

    /// Labels are compared by name.
    pub fn same_name(&self, other: &Self) -> (r: bool)
        ensures
            r == (self@ == other@),
    {
        self.label == other.label
    }

    /// The name as text.
    pub fn to_string(&self) -> (r: String)
        ensures
            r@ == self@,
    {
        self.label.clone()
    }
}

impl PetriTransitionLabel {
    pub fn new(label: String) -> (r: Self)
        ensures
            r@ == label@,
    {
        Self { label }
    }

    /// Labels are compared by name.
    pub fn same_name(&self, other: &Self) -> (r: bool)
        ensures
            r == (self@ == other@),
    {
        self.label == other.label
    }

    /// The name as text.
    pub fn to_string(&self) -> (r: String)
        ensures
            r@ == self@,
    {
        self.label.clone()
    }
}

/// Whether two optional place labels are the same: both absent, or both
/// present with one name.
pub fn same_place_label(a: &Option<Rc<PetriStateLabel>>, b: &Option<Rc<PetriStateLabel>>) -> (r: bool)
    ensures
        r == (place_label_name(*a) == place_label_name(*b)),
{
    match (a, b) {
        (Some(x), Some(y)) => x.same_name(y),
        (None, None) => true,
        _ => false,
    }
}

/// Whether two optional transition labels are the same: both absent, or both
/// present with one name.
pub fn same_transition_label(
    a: &Option<Rc<PetriTransitionLabel>>,
    b: &Option<Rc<PetriTransitionLabel>>,
) -> (r: bool)
    ensures
        r == (transition_label_name(*a) == transition_label_name(*b)),
{
    match (a, b) {
        (Some(x), Some(y)) => x.same_name(y),
        (None, None) => true,
        _ => false,
    }
}

/// A second handle on the same optional place label.
pub fn share_place_label(a: &Option<Rc<PetriStateLabel>>) -> (r: Option<Rc<PetriStateLabel>>)
    ensures
        r == *a,
{
    match a {
        Some(x) => Some(x.clone()),
        None => None,
    }
}

/// A second handle on the same optional transition label.
pub fn share_transition_label(a: &Option<Rc<PetriTransitionLabel>>) -> (r: Option<Rc<PetriTransitionLabel>>)
    ensures
        r == *a,
{
    match a {
        Some(x) => Some(x.clone()),
        None => None,
    }
}

} // verus!
