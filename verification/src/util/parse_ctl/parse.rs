use vstd::prelude::*;
use vstd::string::StringSliceAdditionalSpecFns;
use vstd::utf8::encode_utf8;
use crate::model_checking::props::{BuiltinPetriAtomicProposition, TokensCountAtom, TokensCountRelation};
use crate::util::parse_ctl::formula::PetriCtlFormula;
use crate::util::parse_ctl::grammar::{
    expect, number_at, parse_petri_element_reference, parse_u32, reference_at, tag_at,
};
use crate::util::parse_ctl::parser::BuiltinPetriCtlParser;

verus! {

/// The position from `i` on at which a table lists the name, written in
/// bytes, if it lists it.
pub open spec fn position_from<V>(table: Seq<(String, V)>, name: Seq<u8>, i: int) -> Option<int>
    decreases table.len() - i,
{
    if i < 0 || i >= table.len() {
        None
    } else if encode_utf8(table[i].0@) == name {
        Some(i)
    } else {
        position_from(table, name, i + 1)
    }
}

/// The first position at which a table lists the name, written in bytes,
/// if it lists it.
pub open spec fn position_named<V>(table: Seq<(String, V)>, name: Seq<u8>) -> Option<int> {
    position_from(table, name, 0)
}

/// The first position at which the table lists the name, if it lists it.
fn find_name<V>(table: &Vec<(String, V)>, name: &Vec<u8>) -> (r: Option<usize>)
    ensures
        match r {
            Some(i) => position_named(table@, name@) == Some(i as int) && i < table.len(),
            None => position_named(table@, name@) is None,
        },
{
    let mut i: usize = 0;
    while i < table.len()
        invariant
            0 <= i <= table.len(),
            position_named(table@, name@) == position_from(table@, name@, i as int),
        decreases table.len() - i,
    {
        let listed = table[i].0.as_str().as_bytes();
        if same_bytes(listed, name) {
            return Some(i);
        }
        i = i + 1;
    }
    None
}

/// Whether the two hold the same bytes.
fn same_bytes(a: &[u8], b: &Vec<u8>) -> (r: bool)
    ensures
        r == (a@ == b@),
{
    if a.len() != b.len() {
        return false;
    }
    let mut i: usize = 0;
    while i < a.len()
        invariant
            0 <= i <= a.len(),
            a.len() == b.len(),
            forall|j: int| 0 <= j < i ==> a@[j] == b@[j],
        decreases a.len() - i,
    {
        if a[i] != b[i] {
            return false;
        }
        i = i + 1;
    }
    assert(a@ =~= b@);
    true
}

/// The relation written at `at`, with the position where it ends. The
/// two-byte spellings are tried before their one-byte beginnings.
pub open spec fn relation_at(s: Seq<u8>, at: int) -> Option<(TokensCountRelation, int)> {
    if tag_at(s, at, "<=".spec_bytes()) {
        Some((TokensCountRelation::LowerOrEqual, at + "<=".spec_bytes().len()))
    } else if tag_at(s, at, "<".spec_bytes()) {
        Some((TokensCountRelation::StrictlyLower, at + "<".spec_bytes().len()))
    } else if tag_at(s, at, "=".spec_bytes()) {
        Some((TokensCountRelation::Equal, at + "=".spec_bytes().len()))
    } else if tag_at(s, at, ">=".spec_bytes()) {
        Some((TokensCountRelation::GreaterOrEqual, at + ">=".spec_bytes().len()))
    } else if tag_at(s, at, ">".spec_bytes()) {
        Some((TokensCountRelation::StrictlyGreater, at + ">".spec_bytes().len()))
    } else {
        None
    }
}

impl BuiltinPetriCtlParser {
    /// A quoted place name at `at` that the compiler knows: the place, with
    /// the position where the name ends.
    pub open spec fn place_at(&self, s: Seq<u8>, at: int) -> Option<(usize, int)> {
        match reference_at(s, at) {
            Some((name, end)) => match position_named(self.place_name_to_index@, name) {
                Some(i) => Some((self.place_name_to_index@[i].1, end)),
                None => None,
            },
            None => None,
        }
    }

    /// One side of a comparison at `at`: `tokens-count(` a known place
    /// name `)`, or else a number.
    pub open spec fn atom_at(&self, s: Seq<u8>, at: int) -> Option<(TokensCountAtom, int)> {
        let counted = if tag_at(s, at, "tokens-count(".spec_bytes()) {
            match self.place_at(s, at + "tokens-count(".spec_bytes().len()) {
                Some((p, end)) => if tag_at(s, end, ")".spec_bytes()) {
                    Some((TokensCountAtom::NumberOfTokensInPlace(p), end + ")".spec_bytes().len()))
                } else {
                    None
                },
                None => None,
            }
        } else {
            None
        };
        match counted {
            Some(x) => Some(x),
            None => match number_at(s, at) {
                Some((v, end)) => Some((TokensCountAtom::RawInteger(v), end)),
                None => None,
            },
        }
    }

    /// A comparison of token counts at `at`: a side, a relation, a side.
    pub open spec fn requirement_at(&self, s: Seq<u8>, at: int) -> Option<(BuiltinPetriAtomicProposition, int)> {
        match self.atom_at(s, at) {
            Some((left, e1)) => match relation_at(s, e1) {
                Some((op, e2)) => match self.atom_at(s, e2) {
                    Some((right, e3)) => Some((BuiltinPetriAtomicProposition::TokensCount(op, left, right), e3)),
                    None => None,
                },
                None => None,
            },
            None => None,
        }
    }

    /// A quoted name at `at` between `open` and a closing bracket: the
    /// name, with the position where the whole ends.
    pub open spec fn call_at(s: Seq<u8>, at: int, open: Seq<u8>) -> Option<(Seq<u8>, int)> {
        if tag_at(s, at, open) {
            match reference_at(s, at + open.len()) {
                Some((name, end)) => if tag_at(s, end, ")".spec_bytes()) {
                    Some((name, end + ")".spec_bytes().len()))
                } else {
                    None
                },
                None => None,
            }
        } else {
            None
        }
    }

    /// `is-previous(` a quoted label name `)` at `at`: the proposition
    /// that the label was fired last, or `False` for a name that the
    /// compiler does not know.
    pub open spec fn previous_at(&self, s: Seq<u8>, at: int) -> Option<(PetriCtlFormula, int)> {
        match Self::call_at(s, at, "is-previous(".spec_bytes()) {
            Some((name, end)) => match position_named(self.transition_label_to_ref@, name) {
                Some(i) => Some(
                    (
                        PetriCtlFormula::AtomicProp(
                            BuiltinPetriAtomicProposition::PreviousTransitionLabelMustBe(
                                self.transition_label_to_ref@[i].1,
                            ),
                        ),
                        end,
                    ),
                ),
                None => Some((PetriCtlFormula::False, end)),
            },
            None => None,
        }
    }

    /// `is-fireable(` a quoted label name `)` at `at`: the firing
    /// condition listed for the label, or `False` for a name that the
    /// compiler does not know.
    pub open spec fn fireable_at(&self, s: Seq<u8>, at: int) -> Option<(PetriCtlFormula, int)> {
        match Self::call_at(s, at, "is-fireable(".spec_bytes()) {
            Some((name, end)) => match position_named(self.transition_label_to_firing_condition@, name) {
                Some(i) => Some((self.transition_label_to_firing_condition@[i].1, end)),
                None => Some((PetriCtlFormula::False, end)),
            },
            None => None,
        }
    }

    /// An atomic proposition at `at`: a comparison of token counts, or
    /// else `is-previous(..)`, or else `is-fireable(..)`.
    pub open spec fn proposition_at(&self, s: Seq<u8>, at: int) -> Option<(PetriCtlFormula, int)> {
        match self.requirement_at(s, at) {
            Some((prop, end)) => Some((PetriCtlFormula::AtomicProp(prop), end)),
            None => match self.previous_at(s, at) {
                Some(x) => Some(x),
                None => self.fireable_at(s, at),
            },
        }
    }

    /// Reads a quoted place name and gives the place that carries it.
    pub fn parse_place_name_into_place_id(&self, input: &[u8], at: usize) -> (r: Option<(usize, usize)>)
        ensures
            match r {
                Some((p, end)) => self.place_at(input@, at as int) == Some((p, end as int)) && at < end <= input.len(),
                None => self.place_at(input@, at as int) is None,
            },
    {
        match parse_petri_element_reference(input, at) {
            None => None,
            Some((lab, end)) => {
                match find_name(&self.place_name_to_index, &lab) {
                    None => None,
                    Some(i) => Some((self.place_name_to_index[i].1, end)),
                }
            },
        }
    }

    /// Reads one side of a comparison of token counts.
    pub fn parse_token_count_atom(&self, input: &[u8], at: usize) -> (r: Option<(TokensCountAtom, usize)>)
        ensures
            match r {
                Some((a, end)) => self.atom_at(input@, at as int) == Some((a, end as int)) && at < end
                    <= input.len(),
                None => self.atom_at(input@, at as int) is None,
            },
    {
        if expect(input, at, "tokens-count(") {
            match self.parse_place_name_into_place_id(input, at + "tokens-count(".as_bytes().len()) {
                Some((p, end)) => {
                    if expect(input, end, ")") {
                        return Some((TokensCountAtom::NumberOfTokensInPlace(p), end + ")".as_bytes().len()));
                    }
                },
                None => {},
            }
        }
        match parse_u32(input, at) {
            Some((v, end)) => Some((TokensCountAtom::RawInteger(v), end)),
            None => None,
        }
    }

    /// Reads a comparison of token counts.
    pub fn parse_token_count_requirement(&self, input: &[u8], at: usize) -> (r: Option<
        (BuiltinPetriAtomicProposition, usize),
    >)
        ensures
            match r {
                Some((p, end)) => self.requirement_at(input@, at as int) == Some((p, end as int)) && at < end
                    <= input.len(),
                None => self.requirement_at(input@, at as int) is None,
            },
    {
        let (left, e1) = match self.parse_token_count_atom(input, at) {
            Some(x) => x,
            None => {
                return None;
            },
        };
        let (op, e2) = match parse_relation(input, e1) {
            Some(x) => x,
            None => {
                return None;
            },
        };
        let (right, e3) = match self.parse_token_count_atom(input, e2) {
            Some(x) => x,
            None => {
                return None;
            },
        };
        Some((BuiltinPetriAtomicProposition::TokensCount(op, left, right), e3))
    }

    /// Reads `is-fireable(..)` and gives the firing condition of the
    /// label; an unknown transition is not fireable.
    pub fn parse_transition_label_firing_condition(&self, input: &[u8], at: usize) -> (r: Option<
        (PetriCtlFormula, usize),
    >)
        ensures
            match r {
                Some((f, end)) => self.fireable_at(input@, at as int) == Some((f, end as int)) && at < end
                    <= input.len(),
                None => self.fireable_at(input@, at as int) is None,
            },
    {
        match parse_call(input, at, "is-fireable(") {
            Some((tr_lab, end)) => {
                match find_name(&self.transition_label_to_firing_condition, &tr_lab) {
                    Some(i) => Some((self.transition_label_to_firing_condition[i].1.duplicate(), end)),
                    None => Some((PetriCtlFormula::False, end)),
                }
            },
            None => None,
        }
    }

    /// Reads `is-previous(..)` and gives the proposition that the label
    /// was fired last; an unknown transition is not previous.
    pub fn parse_previous_label_condition(&self, input: &[u8], at: usize) -> (r: Option<(PetriCtlFormula, usize)>)
        ensures
            match r {
                Some((f, end)) => self.previous_at(input@, at as int) == Some((f, end as int)) && at < end
                    <= input.len(),
                None => self.previous_at(input@, at as int) is None,
            },
    {
        match parse_call(input, at, "is-previous(") {
            Some((tr_lab, end)) => {
                match find_name(&self.transition_label_to_ref, &tr_lab) {
                    Some(i) => {
                        let prop = BuiltinPetriAtomicProposition::PreviousTransitionLabelMustBe(
                            self.transition_label_to_ref[i].1.clone(),
                        );
                        Some((PetriCtlFormula::AtomicProp(prop), end))
                    },
                    None => Some((PetriCtlFormula::False, end)),
                }
            },
            None => None,
        }
    }

    /// Reads an atomic proposition at the start of the input; gives what it
    /// compiles to and the number of bytes read, or nothing where the input
    /// starts with no atomic proposition.
    pub fn parse_atomic_proposition(&self, input: &[u8]) -> (r: Option<(PetriCtlFormula, usize)>)
        ensures
            match r {
                Some((f, end)) => self.proposition_at(input@, 0) == Some((f, end as int)) && 0 < end <= input.len(),
                None => self.proposition_at(input@, 0) is None,
            },
    {
        match self.parse_token_count_requirement(input, 0) {
            Some((prop, end)) => {
                return Some((PetriCtlFormula::AtomicProp(prop), end));
            },
            None => {},
        }
        match self.parse_previous_label_condition(input, 0) {
            Some(x) => {
                return Some(x);
            },
            None => {},
        }
        self.parse_transition_label_firing_condition(input, 0)
    }
}

/// Reads a relation.
fn parse_relation(input: &[u8], at: usize) -> (r: Option<(TokensCountRelation, usize)>)
    requires
        at <= input.len(),
    ensures
        match r {
            Some((op, end)) => relation_at(input@, at as int) == Some((op, end as int)) && at <= end <= input.len(),
            None => relation_at(input@, at as int) is None,
        },
{
    if expect(input, at, "<=") {
        Some((TokensCountRelation::LowerOrEqual, at + "<=".as_bytes().len()))
    } else if expect(input, at, "<") {
        Some((TokensCountRelation::StrictlyLower, at + "<".as_bytes().len()))
    } else if expect(input, at, "=") {
        Some((TokensCountRelation::Equal, at + "=".as_bytes().len()))
    } else if expect(input, at, ">=") {
        Some((TokensCountRelation::GreaterOrEqual, at + ">=".as_bytes().len()))
    } else if expect(input, at, ">") {
        Some((TokensCountRelation::StrictlyGreater, at + ">".as_bytes().len()))
    } else {
        None
    }
}

/// Reads a quoted name between `open` and a closing bracket.
fn parse_call(input: &[u8], at: usize, open: &str) -> (r: Option<(Vec<u8>, usize)>)
    ensures
        match r {
            Some((name, end)) => BuiltinPetriCtlParser::call_at(input@, at as int, open.spec_bytes()) == Some(
                (name@, end as int),
            ) && at < end <= input.len(),
            None => BuiltinPetriCtlParser::call_at(input@, at as int, open.spec_bytes()) is None,
        },
{
    if !expect(input, at, open) {
        return None;
    }
    let open_bytes = open.as_bytes();
    assert(at + open_bytes@.len() <= input@.len());
    assert(input@.len() == input.len());
    match parse_petri_element_reference(input, at + open_bytes.len()) {
        Some((name, end)) => {
            if expect(input, end, ")") {
                Some((name, end + ")".as_bytes().len()))
            } else {
                None
            }
        },
        None => None,
    }
}

} // verus!
