use vstd::prelude::*;
use crate::maps::count_at;
use crate::model::net::{NetModel, PetriNet};
use crate::model_checking::state::{KripkeStateModel, PetriKripkeState};
use crate::util::vizualisation::text::{decimal_digits, numbered, u32_to_string};

verus! {

/// Labels the states of a reachability graph with the names of the places
/// of the net they come from.
pub struct PetriKripkeVisualizer<'a> {
    pub net: &'a PetriNet,
}

/// The line for a marked place: `@p`, its identifier, its name in brackets
/// where it has one, a colon and its tokens.
pub open spec fn marked_place_line(name: Option<Seq<char>>, p: int, k: u32) -> Seq<char> {
    "@p"@ + decimal_digits(p as nat) + match name {
        Some(n) => "("@ + n + ")"@,
        None => Seq::<char>::empty(),
    } + ":"@ + decimal_digits(k as nat)
}

/// `line` on a new line after `text`, or alone where there is no text yet.
pub open spec fn line_onto(text: Option<Seq<char>>, line: Seq<char>) -> Seq<char> {
    match text {
        Some(t) => t + "\n"@ + line,
        None => line,
    }
}

/// The lines of the marked places before `upto`, by increasing place;
/// nothing where none is marked.
pub open spec fn marked_lines(net: NetModel, m: Map<usize, u32>, upto: int) -> Option<Seq<char>>
    decreases upto,
{
    if upto <= 0 {
        None
    } else {
        let before = marked_lines(net, m, upto - 1);
        let k = count_at(m, (upto - 1) as usize);
        if k > 0 {
            Some(line_onto(before, marked_place_line(net.places[upto - 1], upto - 1, k)))
        } else {
            before
        }
    }
}

/// The label of a state: the lines of its marked places and, where it is
/// tagged, a last line `prev:` with the name of the tag.
pub open spec fn state_label(net: NetModel, s: KripkeStateModel) -> Seq<char> {
    let toks = match marked_lines(net, s.marking, net.places.len() as int) {
        Some(t) => t,
        None => Seq::<char>::empty(),
    };
    match s.tag {
        Some(t) => toks + "\nprev:"@ + t,
        None => toks,
    }
}

impl<'a> PetriKripkeVisualizer<'a> {
    pub fn new(net: &'a PetriNet) -> (r: Self)
        ensures
            r.net == net,
    {
        Self { net }
    }

    /// The label of a state of the graph.
    pub fn get_doap_label(&self, doap: &PetriKripkeState) -> (r: String)
        ensures
            r@ == state_label(self.net@, doap@),
    {
        let n = self.net.places.len();
        let mut toks_str: Option<String> = None;
        let mut place_id: usize = 0;
        let ghost net = self.net@;
        while place_id < n
            invariant
                0 <= place_id <= n,
                n == self.net.places.len(),
                net == self.net@,
                match toks_str {
                    Some(t) => marked_lines(net, doap@.marking, place_id as int) == Some(t@),
                    None => marked_lines(net, doap@.marking, place_id as int) is None,
                },
            decreases n - place_id,
        {
            let num_toks = doap.marking.toks(place_id);
            if num_toks > 0 {
                let mut line = numbered("@p", place_id);
                match &self.net.places[place_id] {
                    Some(place_label) => {
                        line.append("(");
                        line.append(place_label.label.as_str());
                        line.append(")");
                    },
                    None => {},
                }
                line.append(":");
                line.append(u32_to_string(num_toks).as_str());
                assert(line@ =~= marked_place_line(net.places[place_id as int], place_id as int, num_toks));
                toks_str = match toks_str {
                    Some(mut t) => {
                        t.append("\n");
                        t.append(line.as_str());
                        Some(t)
                    },
                    None => Some(line),
                };
            }
            place_id = place_id + 1;
        }
        let mut text = match toks_str {
            Some(t) => t,
            None => String::new(),
        };
        match &doap.previous_tagged_transition_label {
            Some(previous_transition_label) => {
                text.append("\nprev:");
                text.append(previous_transition_label.label.as_str());
            },
            None => {},
        }
        text
    }
}

} // verus!
