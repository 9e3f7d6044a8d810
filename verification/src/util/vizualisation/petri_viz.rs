use vstd::prelude::*;
use graphviz_dot_builder::edge::edge::GraphVizEdge;
use graphviz_dot_builder::edge::style::GraphvizEdgeStyleItem;
use graphviz_dot_builder::graph::graph::GraphVizDiGraph;
use graphviz_dot_builder::item::node::node::GraphVizNode;
use graphviz_dot_builder::item::node::style::{GraphvizNodeStyleItem, GvNodeShape};
use graphviz_dot_builder::traits::DotBuildable;
use crate::maps::{count_at, hash_count};
use crate::model::marking::Marking;
use crate::model::net::{NetModel, PetriNet};
use crate::reduction::state::marking_model;
use crate::util::vizualisation::text::{decimal_digits, numbered, u32_to_string};

verus! {

/// The directed graph of `graphviz_dot_builder`; what it holds is known
/// only through `digraph_nodes` and `digraph_edges`.
#[verifier::external_type_specification]
#[verifier::external_body]
pub struct ExGraphVizDiGraph(GraphVizDiGraph);

/// The nodes of a graph, in the order in which they were added: for each
/// its identifier, whether it is drawn as a circle (and not as a
/// rectangle), and its label.
pub uninterp spec fn digraph_nodes(g: GraphVizDiGraph) -> Seq<(Seq<char>, bool, Seq<char>)>;

/// The edges of a graph, in the order in which they were added: for each
/// the identifiers of its origin and of its target, and its label if it has
/// one.
pub uninterp spec fn digraph_edges(g: GraphVizDiGraph) -> Seq<(Seq<char>, Seq<char>, Option<Seq<char>>)>;

/// A graph without style, nodes or edges, as `GraphVizDiGraph::new` makes
/// it. Not proved; the contract claims that it holds no node and no edge.
#[verifier::external_body]
fn new_digraph() -> (g: GraphVizDiGraph)
    ensures
        digraph_nodes(g) == Seq::<(Seq<char>, bool, Seq<char>)>::empty(),
        digraph_edges(g) == Seq::<(Seq<char>, Seq<char>, Option<Seq<char>>)>::empty(),
{
    GraphVizDiGraph::new(vec![])
}

/// Adds a circle with a label, through `DotBuildable::add_node`. Not
/// proved; the contract claims that the node comes last among the nodes and
/// that the edges stay.
#[verifier::external_body]
fn add_circle(g: &mut GraphVizDiGraph, id: String, label: String)
    ensures
        digraph_nodes(*final(g)) == digraph_nodes(*old(g)).push((id@, true, label@)),
        digraph_edges(*final(g)) == digraph_edges(*old(g)),
{
    let style = vec![GraphvizNodeStyleItem::Shape(GvNodeShape::Circle), GraphvizNodeStyleItem::Label(label)];
    g.add_node(GraphVizNode::new(id, style));
}

/// Adds a rectangle with a label, through `DotBuildable::add_node`. Not
/// proved; the contract claims that the node comes last among the nodes and
/// that the edges stay.
#[verifier::external_body]
fn add_rectangle(g: &mut GraphVizDiGraph, id: String, label: String)
    ensures
        digraph_nodes(*final(g)) == digraph_nodes(*old(g)).push((id@, false, label@)),
        digraph_edges(*final(g)) == digraph_edges(*old(g)),
{
    let style = vec![GraphvizNodeStyleItem::Shape(GvNodeShape::Rectangle), GraphvizNodeStyleItem::Label(label)];
    g.add_node(GraphVizNode::new(id, style));
}

/// Adds an edge between two nodes, with a label if one is given, through
/// `DotBuildable::add_edge`. Not proved; the contract claims that the edge
/// comes last among the edges and that the nodes stay.
#[verifier::external_body]
fn add_arrow(g: &mut GraphVizDiGraph, origin: String, target: String, label: Option<String>)
    ensures
        digraph_nodes(*final(g)) == digraph_nodes(*old(g)),
        digraph_edges(*final(g)) == digraph_edges(*old(g)).push(
            (
                origin@,
                target@,
                match label {
                    Some(l) => Some(l@),
                    None => None,
                },
            ),
        ),
{
    let style = label.into_iter().map(GraphvizEdgeStyleItem::Label).collect();
    g.add_edge(GraphVizEdge::new(origin, None, target, None, style));
}

/// The identifier of the node of place `p`.
pub open spec fn place_node_id(p: int) -> Seq<char> {
    "place"@ + decimal_digits(p as nat)
}

/// The identifier of the node of transition `t`.
pub open spec fn transition_node_id(t: int) -> Seq<char> {
    "tr"@ + decimal_digits(t as nat)
}

/// The label of the node of place `p`: its identifier, its name in
/// brackets where it has one, and on a second line its tokens where the
/// marking gives it some.
pub open spec fn place_node_label(name: Option<Seq<char>>, m: Option<Map<usize, u32>>, p: int) -> Seq<char> {
    let title = "p"@ + decimal_digits(p as nat) + match name {
        Some(n) => ":("@ + n + ")"@,
        None => Seq::<char>::empty(),
    };
    let tokens = match m {
        Some(x) => if count_at(x, p as usize) > 0 {
            "tks:"@ + decimal_digits(count_at(x, p as usize) as nat)
        } else {
            Seq::<char>::empty()
        },
        None => Seq::<char>::empty(),
    };
    title + "\n"@ + tokens
}

/// The label of an arc: its multiplicity, where that is more than one.
pub open spec fn arc_label(k: u32) -> Option<Seq<char>> {
    if k > 1 {
        Some(decimal_digits(k as nat))
    } else {
        None
    }
}

/// The nodes of the places before `upto`.
pub open spec fn place_nodes(net: NetModel, m: Option<Map<usize, u32>>, upto: int) -> Seq<
    (Seq<char>, bool, Seq<char>),
>
    decreases upto,
{
    if upto <= 0 {
        Seq::empty()
    } else {
        place_nodes(net, m, upto - 1).push(
            (place_node_id(upto - 1), true, place_node_label(net.places[upto - 1], m, upto - 1)),
        )
    }
}

/// The nodes of the transitions before `upto`: rectangles labelled with
/// the name of the label, empty for a silent transition.
pub open spec fn transition_nodes(net: NetModel, upto: int) -> Seq<(Seq<char>, bool, Seq<char>)>
    decreases upto,
{
    if upto <= 0 {
        Seq::empty()
    } else {
        transition_nodes(net, upto - 1).push(
            (
                transition_node_id(upto - 1),
                false,
                match net.transitions[upto - 1].label {
                    Some(n) => n,
                    None => Seq::<char>::empty(),
                },
            ),
        )
    }
}

/// The arcs into transition `t` from the places before `upto`, by
/// increasing place.
pub open spec fn arcs_into(net: NetModel, t: int, upto: int) -> Seq<(Seq<char>, Seq<char>, Option<Seq<char>>)>
    decreases upto,
{
    if upto <= 0 {
        Seq::empty()
    } else {
        let before = arcs_into(net, t, upto - 1);
        let k = count_at(net.transitions[t].pre, (upto - 1) as usize);
        if k > 0 {
            before.push((place_node_id(upto - 1), transition_node_id(t), arc_label(k)))
        } else {
            before
        }
    }
}

/// The arcs out of transition `t` to the places before `upto`, by
/// increasing place.
pub open spec fn arcs_out_of(net: NetModel, t: int, upto: int) -> Seq<(Seq<char>, Seq<char>, Option<Seq<char>>)>
    decreases upto,
{
    if upto <= 0 {
        Seq::empty()
    } else {
        let before = arcs_out_of(net, t, upto - 1);
        let k = count_at(net.transitions[t].post, (upto - 1) as usize);
        if k > 0 {
            before.push((transition_node_id(t), place_node_id(upto - 1), arc_label(k)))
        } else {
            before
        }
    }
}

/// The arcs of the transitions before `upto`: for each transition those
/// into it, then those out of it.
pub open spec fn arcs(net: NetModel, upto: int) -> Seq<(Seq<char>, Seq<char>, Option<Seq<char>>)>
    decreases upto,
{
    if upto <= 0 {
        Seq::empty()
    } else {
        arcs(net, upto - 1) + arcs_into(net, upto - 1, net.places.len() as int) + arcs_out_of(
            net,
            upto - 1,
            net.places.len() as int,
        )
    }
}

/// The label of an arc of multiplicity `k`.
fn arc_text(k: u32) -> (r: Option<String>)
    ensures
        match r {
            Some(l) => arc_label(k) == Some(l@),
            None => arc_label(k) is None,
        },
{
    if k > 1 {
        Some(u32_to_string(k))
    } else {
        None
    }
}

/// The label of the node of a place.
fn place_text(petri: &PetriNet, marking: &Option<Marking>, place_id: usize) -> (r: String)
    requires
        place_id < petri.places.len(),
    ensures
        r@ == place_node_label(petri@.places[place_id as int], marking_model(*marking), place_id as int),
{
    let mut label = numbered("p", place_id);
    match &petri.places[place_id] {
        Some(place_label) => {
            label.append(":(");
            label.append(place_label.label.as_str());
            label.append(")");
        },
        None => {},
    }
    label.append("\n");
    match marking {
        Some(mrk) => {
            let num_tokens_at_place = mrk.toks(place_id);
            if num_tokens_at_place > 0 {
                label.append("tks:");
                label.append(u32_to_string(num_tokens_at_place).as_str());
            }
        },
        None => {},
    }
    proof {
        let want = place_node_label(petri@.places[place_id as int], marking_model(*marking), place_id as int);
        assert(label@ =~= want);
    }
    label
}

/// Draws a net, with its marking where one is given: a circle for each
/// place, a rectangle for each transition, and an edge for each arc.
pub fn petri_repr(petri: &PetriNet, marking: &Option<Marking>) -> (r: GraphVizDiGraph)
    ensures
        digraph_nodes(r) == place_nodes(petri@, marking_model(*marking), petri@.places.len() as int)
            + transition_nodes(petri@, petri@.transitions.len() as int),
        digraph_edges(r) == arcs(petri@, petri@.transitions.len() as int),
{
    let mut digraph = new_digraph();
    let ghost net = petri@;
    let ghost m = marking_model(*marking);
    let n = petri.places.len();
    let nt = petri.transitions.len();
    // places
    let mut place_id: usize = 0;
    while place_id < n
        invariant
            0 <= place_id <= n,
            n == petri.places.len(),
            net == petri@,
            m == marking_model(*marking),
            digraph_nodes(digraph) == place_nodes(net, m, place_id as int),
            digraph_edges(digraph) == arcs(net, 0),
        decreases n - place_id,
    {
        let label = place_text(petri, marking, place_id);
        add_circle(&mut digraph, numbered("place", place_id), label);
        place_id = place_id + 1;
    }
    // transitions
    let ghost circles = place_nodes(net, m, n as int);
    let mut tr_id: usize = 0;
    assert(digraph_nodes(digraph) =~= circles + transition_nodes(net, 0));
    while tr_id < nt
        invariant
            0 <= tr_id <= nt,
            n == petri.places.len(),
            nt == petri.transitions.len(),
            net == petri@,
            digraph_nodes(digraph) == circles + transition_nodes(net, tr_id as int),
            digraph_edges(digraph) == arcs(net, tr_id as int),
        decreases nt - tr_id,
    {
        let transition = &petri.transitions[tr_id];
        assert(net.transitions[tr_id as int] == transition@);
        let label = match &transition.transition_label {
            Some(l) => l.to_string(),
            None => String::new(),
        };
        add_rectangle(&mut digraph, numbered("tr", tr_id), label);
        assert(digraph_nodes(digraph) =~= circles + transition_nodes(net, tr_id + 1));
        let ghost start = arcs(net, tr_id as int);
        let mut preset_place: usize = 0;
        while preset_place < n
            invariant
                0 <= preset_place <= n,
                tr_id < nt,
                n == petri.places.len(),
                nt == petri.transitions.len(),
                net == petri@,
                transition@ == net.transitions[tr_id as int],
                digraph_nodes(digraph) == circles + transition_nodes(net, tr_id + 1),
                digraph_edges(digraph) == start + arcs_into(net, tr_id as int, preset_place as int),
            decreases n - preset_place,
        {
            let preset_req_num_toks = hash_count(&transition.preset_tokens, preset_place);
            if preset_req_num_toks > 0 {
                add_arrow(
                    &mut digraph,
                    numbered("place", preset_place),
                    numbered("tr", tr_id),
                    arc_text(preset_req_num_toks),
                );
            }
            assert(digraph_edges(digraph) =~= start + arcs_into(net, tr_id as int, preset_place + 1));
            preset_place = preset_place + 1;
        }
        let ghost middle = start + arcs_into(net, tr_id as int, n as int);
        let mut postset_place: usize = 0;
        while postset_place < n
            invariant
                0 <= postset_place <= n,
                tr_id < nt,
                n == petri.places.len(),
                nt == petri.transitions.len(),
                net == petri@,
                transition@ == net.transitions[tr_id as int],
                digraph_nodes(digraph) == circles + transition_nodes(net, tr_id + 1),
                digraph_edges(digraph) == middle + arcs_out_of(net, tr_id as int, postset_place as int),
            decreases n - postset_place,
        {
            let postset_added_toks = hash_count(&transition.postset_tokens, postset_place);
            if postset_added_toks > 0 {
                add_arrow(
                    &mut digraph,
                    numbered("tr", tr_id),
                    numbered("place", postset_place),
                    arc_text(postset_added_toks),
                );
            }
            assert(digraph_edges(digraph) =~= middle + arcs_out_of(net, tr_id as int, postset_place + 1));
            postset_place = postset_place + 1;
        }
        tr_id = tr_id + 1;
    }
    digraph
}

} // verus!
