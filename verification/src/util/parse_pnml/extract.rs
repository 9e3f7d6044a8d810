use vstd::prelude::*;
use vstd::string::StringSliceAdditionalSpecFns;
use vstd::utf8::encode_utf8;
use crate::util::parse_ctl::grammar::{number_at, parse_u32};
use crate::util::parse_pnml::error::PnmlParsingError;
use crate::util::parse_pnml::events::{attributes_model, events_model, PnmlEvent, PnmlEventModel};
use crate::util::parse_pnml::syntax::{
    is_word, PNML_ARC, PNML_INITIAL_MARKING, PNML_NET, PNML_PLACE, PNML_SOURCE, PNML_TARGET, PNML_TEXT,
    PNML_TEXT_ID, PNML_TRANSITION,
};

verus! {

/// What a first pass over a document gathers, apart from how it is
/// stored.
pub struct FirstPassModel {
    /// the identifiers of the places, in the order of the document
    pub places: Seq<Seq<char>>,
    /// for each place its initial tokens
    pub initial_marking: Seq<u32>,
    /// the identifiers of the transitions, each once, in the order of the
    /// document
    pub transitions: Seq<Seq<char>>,
    /// for each arc the identifiers of its source and of its target
    pub arcs: Seq<(Seq<char>, Seq<char>)>,
}

impl FirstPassModel {
    pub open spec fn empty() -> FirstPassModel {
        FirstPassModel {
            places: Seq::empty(),
            initial_marking: Seq::empty(),
            transitions: Seq::empty(),
            arcs: Seq::empty(),
        }
    }

    /// With one more place; a place without initial marking starts empty.
    pub open spec fn with_place(self, id: Seq<char>, mark: Option<u32>) -> FirstPassModel {
        FirstPassModel {
            places: self.places.push(id),
            initial_marking: self.initial_marking.push(
                match mark {
                    Some(v) => v,
                    None => 0,
                },
            ),
            transitions: self.transitions,
            arcs: self.arcs,
        }
    }

    /// With one more transition, unless its identifier is known already.
    pub open spec fn with_transition(self, id: Seq<char>) -> FirstPassModel {
        FirstPassModel {
            places: self.places,
            initial_marking: self.initial_marking,
            transitions: if self.transitions.contains(id) {
                self.transitions
            } else {
                self.transitions.push(id)
            },
            arcs: self.arcs,
        }
    }

    /// With one more arc.
    pub open spec fn with_arc(self, source: Seq<char>, target: Seq<char>) -> FirstPassModel {
        FirstPassModel {
            places: self.places,
            initial_marking: self.initial_marking,
            transitions: self.transitions,
            arcs: self.arcs.push((source, target)),
        }
    }
}

/// What a first pass over a document gathers.
#[derive(Debug, Clone, PartialEq, Eq)]
pub struct PnmlParsingFirstPass {
    pub number_of_places: usize,
    /// for each place its identifier in the document and its identifier in
    /// the net, in the order of the document
    pub place_text_id_to_int_id: Vec<(String, usize)>,
    pub initial_marking: Vec<u32>,
    /// the identifiers of the transitions, each once
    pub transitions_text_ids: Vec<String>,
    pub raw_arcs: Vec<(String, String)>,
}

impl View for PnmlParsingFirstPass {
    type V = FirstPassModel;

    open spec fn view(&self) -> FirstPassModel {
        FirstPassModel {
            places: Seq::new(self.place_text_id_to_int_id@.len(), |i: int| self.place_text_id_to_int_id@[i].0@),
            initial_marking: self.initial_marking@,
            transitions: Seq::new(self.transitions_text_ids@.len(), |i: int| self.transitions_text_ids@[i]@),
            arcs: Seq::new(self.raw_arcs@.len(), |i: int| (self.raw_arcs@[i].0@, self.raw_arcs@[i].1@)),
        }
    }
}

impl PnmlParsingFirstPass {
    /// The places are numbered in the order of the document, and each has
    /// its initial tokens.
    pub open spec fn wf(&self) -> bool {
        &&& self.number_of_places == self.place_text_id_to_int_id@.len()
        &&& self.initial_marking@.len() == self.place_text_id_to_int_id@.len()
        &&& forall|i: int|
            0 <= i < self.place_text_id_to_int_id@.len() ==> (#[trigger] self.place_text_id_to_int_id@[i]).1 == i
    }

    pub fn new(
        number_of_places: usize,
        place_text_id_to_int_id: Vec<(String, usize)>,
        initial_marking: Vec<u32>,
        transitions_text_ids: Vec<String>,
        raw_arcs: Vec<(String, String)>,
    ) -> (r: Self)
        ensures
            r.number_of_places == number_of_places,
            r.place_text_id_to_int_id == place_text_id_to_int_id,
            r.initial_marking == initial_marking,
            r.transitions_text_ids == transitions_text_ids,
            r.raw_arcs == raw_arcs,
    {
        Self { number_of_places, place_text_id_to_int_id, initial_marking, transitions_text_ids, raw_arcs }
    }
}

/// The value of the attribute `key`: that of the last attribute of that
/// name, if there is one.
pub open spec fn attribute(attrs: Seq<(Seq<char>, Seq<char>)>, key: Seq<char>) -> Option<Seq<char>>
    decreases attrs.len(),
{
    if attrs.len() == 0 {
        None
    } else if attrs.last().0 == key {
        Some(attrs.last().1)
    } else {
        attribute(attrs.drop_last(), key)
    }
}

/// The position after the first end tag of `name` at `at` or later.
pub open spec fn after_end(ev: Seq<PnmlEventModel>, at: int, name: Seq<char>) -> Option<int>
    decreases ev.len() - at,
{
    if at < 0 || at >= ev.len() {
        None
    } else if ev[at] == PnmlEventModel::End(name) {
        Some(at + 1)
    } else {
        after_end(ev, at + 1, name)
    }
}

/// The number that a text writes: digits, after a plus sign or not, within
/// the range of a count.
pub open spec fn token_count(s: Seq<u8>) -> Option<u32> {
    let start: int = if s.len() > 0 && s[0] == 43 { 1 } else { 0 };
    match number_at(s, start) {
        Some((v, end)) => if end == s.len() {
            Some(v)
        } else {
            None
        },
        None => None,
    }
}

/// The text at `at`, which the end tag of `tag` must follow.
pub open spec fn text_then_close(ev: Seq<PnmlEventModel>, at: int, tag: &'static str) -> Result<
    Seq<char>,
    PnmlParsingError,
> {
    if 0 <= at < ev.len() && ev[at] is Text {
        if at + 1 < ev.len() && ev[at + 1] == PnmlEventModel::End(tag@) {
            Ok(ev[at]->Text_0)
        } else {
            Err(PnmlParsingError::ExpectedTextEnd { tag })
        }
    } else {
        Err(PnmlParsingError::ExpectedTextStart { tag })
    }
}

/// The tokens that an initial marking gives, read from `at` to its end
/// tag: the number of its last `text` element. `found` is the number read
/// so far.
pub open spec fn initial_marking_at(ev: Seq<PnmlEventModel>, at: int, found: Option<u32>) -> Result<
    (u32, int),
    PnmlParsingError,
>
    decreases ev.len() - at,
{
    if at < 0 || at >= ev.len() {
        Err(PnmlParsingError::UnexpectedEndOfDocument)
    } else {
        match ev[at] {
            PnmlEventModel::Start(name, _) => if name == PNML_TEXT@ {
                match text_then_close(ev, at + 1, PNML_TEXT) {
                    Ok(text) => match token_count(encode_utf8(text)) {
                        Some(v) => initial_marking_at(ev, at + 3, Some(v)),
                        None => Err(PnmlParsingError::CouldNotParseInitialMarkingTokenNumberToInteger),
                    },
                    Err(e) => Err(e),
                }
            } else {
                initial_marking_at(ev, at + 1, found)
            },
            PnmlEventModel::End(name) => if name == PNML_INITIAL_MARKING@ {
                match found {
                    Some(v) => Ok((v, at + 1)),
                    None => Err(PnmlParsingError::MissingNumberOfTokensInInitialMarking),
                }
            } else {
                initial_marking_at(ev, at + 1, found)
            },
            _ => initial_marking_at(ev, at + 1, found),
        }
    }
}

/// An initial marking ends after where it starts.
pub proof fn lemma_initial_marking_advances(ev: Seq<PnmlEventModel>, at: int, found: Option<u32>)
    ensures
        match initial_marking_at(ev, at, found) {
            Ok((_, end)) => at < end <= ev.len(),
            Err(_) => true,
        },
    decreases ev.len() - at,
{
    if 0 <= at < ev.len() {
        match ev[at] {
            PnmlEventModel::Start(name, _) => {
                if name == PNML_TEXT@ {
                    match text_then_close(ev, at + 1, PNML_TEXT) {
                        Ok(text) => match token_count(encode_utf8(text)) {
                            Some(v) => {
                                lemma_initial_marking_advances(ev, at + 3, Some(v));
                            },
                            None => {},
                        },
                        Err(_) => {},
                    }
                } else {
                    lemma_initial_marking_advances(ev, at + 1, found);
                }
            },
            PnmlEventModel::End(name) => {
                if name != PNML_INITIAL_MARKING@ {
                    lemma_initial_marking_advances(ev, at + 1, found);
                }
            },
            _ => {
                lemma_initial_marking_advances(ev, at + 1, found);
            },
        }
    }
}

/// The initial tokens that the body of a place gives, read from `at` to
/// the end tag of the place: those of its last initial marking, if it has
/// one. `mark` is what was read so far.
pub open spec fn place_body(ev: Seq<PnmlEventModel>, at: int, mark: Option<u32>) -> Result<
    (Option<u32>, int),
    PnmlParsingError,
>
    decreases ev.len() - at,
    via place_body_ends
{
    if at < 0 || at >= ev.len() {
        Err(PnmlParsingError::UnexpectedEndOfDocument)
    } else {
        match ev[at] {
            PnmlEventModel::Start(name, _) => if name == PNML_INITIAL_MARKING@ {
                match initial_marking_at(ev, at + 1, None) {
                    Ok((v, end)) => place_body(ev, end, Some(v)),
                    Err(e) => Err(e),
                }
            } else {
                place_body(ev, at + 1, mark)
            },
            PnmlEventModel::End(name) => if name == PNML_PLACE@ {
                Ok((mark, at + 1))
            } else {
                place_body(ev, at + 1, mark)
            },
            _ => place_body(ev, at + 1, mark),
        }
    }
}

#[via_fn]
proof fn place_body_ends(ev: Seq<PnmlEventModel>, at: int, mark: Option<u32>) {
    lemma_initial_marking_advances(ev, at + 1, None);
}

/// The body of a place ends after where it starts.
pub proof fn lemma_place_body_advances(ev: Seq<PnmlEventModel>, at: int, mark: Option<u32>)
    ensures
        match place_body(ev, at, mark) {
            Ok((_, end)) => at < end <= ev.len(),
            Err(_) => true,
        },
    decreases ev.len() - at,
{
    if 0 <= at < ev.len() {
        match ev[at] {
            PnmlEventModel::Start(name, _) => {
                if name == PNML_INITIAL_MARKING@ {
                    lemma_initial_marking_advances(ev, at + 1, None);
                    match initial_marking_at(ev, at + 1, None) {
                        Ok((v, end)) => {
                            lemma_place_body_advances(ev, end, Some(v));
                        },
                        Err(_) => {},
                    }
                } else {
                    lemma_place_body_advances(ev, at + 1, mark);
                }
            },
            PnmlEventModel::End(name) => {
                if name != PNML_PLACE@ {
                    lemma_place_body_advances(ev, at + 1, mark);
                }
            },
            _ => {
                lemma_place_body_advances(ev, at + 1, mark);
            },
        }
    }
}

/// An end tag is found after where the search starts.
pub proof fn lemma_after_end_advances(ev: Seq<PnmlEventModel>, at: int, name: Seq<char>)
    ensures
        match after_end(ev, at, name) {
            Some(end) => at < end <= ev.len(),
            None => true,
        },
    decreases ev.len() - at,
{
    if 0 <= at < ev.len() && ev[at] != PnmlEventModel::End(name) {
        lemma_after_end_advances(ev, at + 1, name);
    }
}

/// What the element that starts at `at` adds to what was gathered, with
/// the position after the element: a place, a transition, an arc, or
/// nothing for any other element, whose content is read as if it stood in
/// its place.
pub open spec fn element_at(
    ev: Seq<PnmlEventModel>,
    at: int,
    name: Seq<char>,
    attrs: Seq<(Seq<char>, Seq<char>)>,
    acc: FirstPassModel,
) -> Result<(FirstPassModel, int), PnmlParsingError> {
    if name == PNML_PLACE@ {
        match attribute(attrs, PNML_TEXT_ID@) {
            Some(id) => match place_body(ev, at + 1, None) {
                Ok((mark, end)) => Ok((acc.with_place(id, mark), end)),
                Err(e) => Err(e),
            },
            None => Err(PnmlParsingError::MissingAttribute { att: PNML_TEXT_ID, parent: PNML_PLACE }),
        }
    } else if name == PNML_TRANSITION@ {
        match attribute(attrs, PNML_TEXT_ID@) {
            Some(id) => match after_end(ev, at + 1, PNML_TRANSITION@) {
                Some(end) => Ok((acc.with_transition(id), end)),
                None => Err(PnmlParsingError::UnexpectedEndOfDocument),
            },
            None => Err(PnmlParsingError::MissingAttribute { att: PNML_TEXT_ID, parent: PNML_TRANSITION }),
        }
    } else if name == PNML_ARC@ {
        match attribute(attrs, PNML_SOURCE@) {
            Some(source) => match attribute(attrs, PNML_TARGET@) {
                Some(target) => match after_end(ev, at + 1, PNML_ARC@) {
                    Some(end) => Ok((acc.with_arc(source, target), end)),
                    None => Err(PnmlParsingError::UnexpectedEndOfDocument),
                },
                None => Err(PnmlParsingError::MissingAttribute { att: PNML_TARGET, parent: PNML_ARC }),
            },
            None => Err(PnmlParsingError::MissingAttribute { att: PNML_SOURCE, parent: PNML_ARC }),
        }
    } else {
        Ok((acc, at + 1))
    }
}

/// An element ends after where it starts.
pub proof fn lemma_element_advances(
    ev: Seq<PnmlEventModel>,
    at: int,
    name: Seq<char>,
    attrs: Seq<(Seq<char>, Seq<char>)>,
    acc: FirstPassModel,
)
    requires
        0 <= at < ev.len(),
    ensures
        match element_at(ev, at, name, attrs, acc) {
            Ok((_, end)) => at < end <= ev.len(),
            Err(_) => true,
        },
{
    lemma_place_body_advances(ev, at + 1, None);
    lemma_after_end_advances(ev, at + 1, PNML_TRANSITION@);
    lemma_after_end_advances(ev, at + 1, PNML_ARC@);
}

/// What the content of a net gathers, read from `at` to the end tag of the
/// net, on top of `acc`.
pub open spec fn net_content(ev: Seq<PnmlEventModel>, at: int, acc: FirstPassModel) -> Result<
    FirstPassModel,
    PnmlParsingError,
>
    decreases ev.len() - at,
    via net_content_ends
{
    if at < 0 || at >= ev.len() {
        Err(PnmlParsingError::UnexpectedEndOfDocument)
    } else {
        match ev[at] {
            PnmlEventModel::Start(name, attrs) => match element_at(ev, at, name, attrs, acc) {
                Ok((next, end)) => net_content(ev, end, next),
                Err(e) => Err(e),
            },
            PnmlEventModel::End(name) => if name == PNML_NET@ {
                Ok(acc)
            } else {
                net_content(ev, at + 1, acc)
            },
            _ => net_content(ev, at + 1, acc),
        }
    }
}

#[via_fn]
proof fn net_content_ends(ev: Seq<PnmlEventModel>, at: int, acc: FirstPassModel) {
    if 0 <= at < ev.len() {
        match ev[at] {
            PnmlEventModel::Start(name, attrs) => {
                lemma_element_advances(ev, at, name, attrs, acc);
            },
            _ => {},
        }
    }
}

/// The value of an attribute of an element.
fn find_attribute(attributes: &Vec<(String, String)>, key: &str) -> (r: Option<String>)
    ensures
        match r {
            Some(v) => attribute(attributes_model(attributes@), key@) == Some(v@),
            None => attribute(attributes_model(attributes@), key@) is None,
        },
{
    let ghost attrs = attributes_model(attributes@);
    let mut i: usize = attributes.len();
    assert(attrs.subrange(0, i as int) =~= attrs);
    while i > 0
        invariant
            0 <= i <= attributes.len(),
            attrs == attributes_model(attributes@),
            attribute(attrs, key@) == attribute(attrs.subrange(0, i as int), key@),
        decreases i,
    {
        let ghost part = attrs.subrange(0, i as int);
        assert(part.last() == attrs[i - 1]);
        assert(part.drop_last() =~= attrs.subrange(0, i - 1));
        if is_word(&attributes[i - 1].0, key) {
            return Some(attributes[i - 1].1.clone());
        }
        i = i - 1;
    }
    None
}

/// The position after the first end tag of `name` at `at` or later.
fn skip_to_end(events: &Vec<PnmlEvent>, at: usize, name: &str) -> (r: Option<usize>)
    ensures
        match r {
            Some(end) => after_end(events_model(events@), at as int, name@) == Some(end as int) && at < end
                <= events.len(),
            None => after_end(events_model(events@), at as int, name@) is None,
        },
{
    let ghost ev = events_model(events@);
    let mut i: usize = at;
    while i < events.len()
        invariant
            at <= i,
            ev == events_model(events@),
            after_end(ev, at as int, name@) == after_end(ev, i as int, name@),
        decreases events.len() - i,
    {
        assert(ev[i as int] == events@[i as int]@);
        match &events[i] {
            PnmlEvent::EndElement { name: found } => {
                if is_word(found, name) {
                    return Some(i + 1);
                }
            },
            _ => {},
        }
        i = i + 1;
    }
    None
}

/// The number that the text of an initial marking writes.
fn count_from_text(text: &String) -> (r: Option<u32>)
    ensures
        r == token_count(encode_utf8(text@)),
{
    let bytes = text.as_str().as_bytes();
    let start: usize = if bytes.len() > 0 && bytes[0] == 43 { 1 } else { 0 };
    match parse_u32(bytes, start) {
        Some((v, end)) => if end == bytes.len() {
            Some(v)
        } else {
            None
        },
        None => None,
    }
}

/// Reads the text at `at` and the end tag that must follow it.
fn read_text_then_close(events: &Vec<PnmlEvent>, at: usize, expected_end_tag: &'static str) -> (r: Result<
    String,
    PnmlParsingError,
>)
    ensures
        match r {
            Ok(text) => text_then_close(events_model(events@), at as int, expected_end_tag) == Ok::<
                Seq<char>,
                PnmlParsingError,
            >(text@) && at + 2 <= events.len(),
            Err(e) => text_then_close(events_model(events@), at as int, expected_end_tag) == Err::<
                Seq<char>,
                PnmlParsingError,
            >(e),
        },
{
    let ghost ev = events_model(events@);
    if at >= events.len() {
        return Err(PnmlParsingError::ExpectedTextStart { tag: expected_end_tag });
    }
    assert(ev[at as int] == events@[at as int]@);
    let got_text = match &events[at] {
        PnmlEvent::Characters(txt) => txt.clone(),
        _ => {
            return Err(PnmlParsingError::ExpectedTextStart { tag: expected_end_tag });
        },
    };
    if at + 1 >= events.len() {
        return Err(PnmlParsingError::ExpectedTextEnd { tag: expected_end_tag });
    }
    assert(ev[at + 1] == events@[at + 1]@);
    match &events[at + 1] {
        PnmlEvent::EndElement { name } => {
            if is_word(name, expected_end_tag) {
                Ok(got_text)
            } else {
                Err(PnmlParsingError::ExpectedTextEnd { tag: expected_end_tag })
            }
        },
        _ => Err(PnmlParsingError::ExpectedTextEnd { tag: expected_end_tag }),
    }
}

/// Reads an initial marking from after its start tag to its end tag.
fn read_initial_marking(events: &Vec<PnmlEvent>, at: usize) -> (r: Result<(u32, usize), PnmlParsingError>)
    ensures
        match r {
            Ok((v, end)) => initial_marking_at(events_model(events@), at as int, None) == Ok::<
                (u32, int),
                PnmlParsingError,
            >((v, end as int)) && at < end <= events.len(),
            Err(e) => initial_marking_at(events_model(events@), at as int, None) == Err::<
                (u32, int),
                PnmlParsingError,
            >(e),
        },
{
    let ghost ev = events_model(events@);
    let mut num_tokens: Option<u32> = None;
    let mut i: usize = at;
    while i < events.len()
        invariant
            at <= i,
            ev == events_model(events@),
            initial_marking_at(ev, at as int, None) == initial_marking_at(ev, i as int, num_tokens),
        decreases events.len() - i,
    {
        assert(ev[i as int] == events@[i as int]@);
        match &events[i] {
            PnmlEvent::StartElement { name, .. } => {
                if is_word(name, PNML_TEXT) {
                    let txt = match read_text_then_close(events, i + 1, PNML_TEXT) {
                        Ok(txt) => txt,
                        Err(e) => {
                            return Err(e);
                        },
                    };
                    match count_from_text(&txt) {
                        Some(num_toks) => {
                            num_tokens = Some(num_toks);
                        },
                        None => {
                            return Err(PnmlParsingError::CouldNotParseInitialMarkingTokenNumberToInteger);
                        },
                    }
                    i = i + 3;
                } else {
                    i = i + 1;
                }
            },
            PnmlEvent::EndElement { name } => {
                if is_word(name, PNML_INITIAL_MARKING) {
                    return match num_tokens {
                        None => Err(PnmlParsingError::MissingNumberOfTokensInInitialMarking),
                        Some(num_toks) => Ok((num_toks, i + 1)),
                    };
                }
                i = i + 1;
            },
            _ => {
                i = i + 1;
            },
        }
    }
    Err(PnmlParsingError::UnexpectedEndOfDocument)
}

/// Reads the body of a place from after its start tag to its end tag.
fn read_place(events: &Vec<PnmlEvent>, at: usize) -> (r: Result<(Option<u32>, usize), PnmlParsingError>)
    ensures
        match r {
            Ok((mark, end)) => place_body(events_model(events@), at as int, None) == Ok::<
                (Option<u32>, int),
                PnmlParsingError,
            >((mark, end as int)) && at < end <= events.len(),
            Err(e) => place_body(events_model(events@), at as int, None) == Err::<
                (Option<u32>, int),
                PnmlParsingError,
            >(e),
        },
{
    let ghost ev = events_model(events@);
    let mut opt_init_mark: Option<u32> = None;
    let mut i: usize = at;
    while i < events.len()
        invariant
            at <= i,
            ev == events_model(events@),
            place_body(ev, at as int, None) == place_body(ev, i as int, opt_init_mark),
        decreases events.len() - i,
    {
        assert(ev[i as int] == events@[i as int]@);
        match &events[i] {
            PnmlEvent::StartElement { name, .. } => {
                if is_word(name, PNML_INITIAL_MARKING) {
                    match read_initial_marking(events, i + 1) {
                        Ok((num_toks, end)) => {
                            opt_init_mark = Some(num_toks);
                            i = end;
                        },
                        Err(e) => {
                            return Err(e);
                        },
                    }
                } else {
                    i = i + 1;
                }
            },
            PnmlEvent::EndElement { name } => {
                if is_word(name, PNML_PLACE) {
                    return Ok((opt_init_mark, i + 1));
                }
                i = i + 1;
            },
            _ => {
                i = i + 1;
            },
        }
    }
    Err(PnmlParsingError::UnexpectedEndOfDocument)
}

/// Whether the list holds the text.
fn lists_text(list: &Vec<String>, text: &String) -> (r: bool)
    ensures
        r == Seq::new(list@.len(), |i: int| list@[i]@).contains(text@),
{
    let ghost names = Seq::new(list@.len(), |i: int| list@[i]@);
    let mut i: usize = 0;
    while i < list.len()
        invariant
            0 <= i <= list.len(),
            names == Seq::new(list@.len(), |i: int| list@[i]@),
            forall|j: int| 0 <= j < i ==> names[j] != text@,
        decreases list.len() - i,
    {
        if list[i] == *text {
            assert(names[i as int] == text@);
            return true;
        }
        i = i + 1;
    }
    false
}

/// Reads the element that starts at `at` and adds what it declares to what
/// was gathered.
fn read_element(
    events: &Vec<PnmlEvent>,
    at: usize,
    name: &String,
    attributes: &Vec<(String, String)>,
    gathered: &mut PnmlParsingFirstPass,
) -> (r: Result<usize, PnmlParsingError>)
    requires
        at < events.len(),
        old(gathered).wf(),
        old(gathered).number_of_places <= at,
    ensures
        match r {
            Ok(end) => element_at(
                events_model(events@),
                at as int,
                name@,
                attributes_model(attributes@),
                old(gathered)@,
            ) == Ok::<(FirstPassModel, int), PnmlParsingError>((final(gathered)@, end as int)) && at < end
                <= events.len() && final(gathered).wf() && final(gathered).number_of_places <= end,
            Err(e) => element_at(
                events_model(events@),
                at as int,
                name@,
                attributes_model(attributes@),
                old(gathered)@,
            ) == Err::<(FirstPassModel, int), PnmlParsingError>(e),
        },
{
    if is_word(name, PNML_PLACE) {
        let id = match find_attribute(attributes, PNML_TEXT_ID) {
            Some(id) => id,
            None => {
                return Err(PnmlParsingError::MissingAttribute { att: PNML_TEXT_ID, parent: PNML_PLACE });
            },
        };
        let (opt_init_mark, end) = match read_place(events, at + 1) {
            Ok(x) => x,
            Err(e) => {
                return Err(e);
            },
        };
        let place_int_id = gathered.number_of_places;
        gathered.number_of_places = gathered.number_of_places + 1;
        gathered.place_text_id_to_int_id.push((id, place_int_id));
        match opt_init_mark {
            Some(init_num_tokens_at_place) => {
                gathered.initial_marking.push(init_num_tokens_at_place);
            },
            None => {
                gathered.initial_marking.push(0);
            },
        }
        assert(gathered@.places =~= old(gathered)@.with_place(id@, opt_init_mark).places);
        assert(gathered@.transitions =~= old(gathered)@.transitions);
        assert(gathered@.arcs =~= old(gathered)@.arcs);
        Ok(end)
    } else if is_word(name, PNML_TRANSITION) {
        let id = match find_attribute(attributes, PNML_TEXT_ID) {
            Some(id) => id,
            None => {
                return Err(PnmlParsingError::MissingAttribute { att: PNML_TEXT_ID, parent: PNML_TRANSITION });
            },
        };
        let end = match skip_to_end(events, at + 1, PNML_TRANSITION) {
            Some(end) => end,
            None => {
                return Err(PnmlParsingError::UnexpectedEndOfDocument);
            },
        };
        if !lists_text(&gathered.transitions_text_ids, &id) {
            gathered.transitions_text_ids.push(id);
        }
        assert(gathered@.transitions =~= old(gathered)@.with_transition(id@).transitions);
        assert(gathered@.places =~= old(gathered)@.places);
        assert(gathered@.arcs =~= old(gathered)@.arcs);
        Ok(end)
    } else if is_word(name, PNML_ARC) {
        let source = match find_attribute(attributes, PNML_SOURCE) {
            Some(source) => source,
            None => {
                return Err(PnmlParsingError::MissingAttribute { att: PNML_SOURCE, parent: PNML_ARC });
            },
        };
        let target = match find_attribute(attributes, PNML_TARGET) {
            Some(target) => target,
            None => {
                return Err(PnmlParsingError::MissingAttribute { att: PNML_TARGET, parent: PNML_ARC });
            },
        };
        let end = match skip_to_end(events, at + 1, PNML_ARC) {
            Some(end) => end,
            None => {
                return Err(PnmlParsingError::UnexpectedEndOfDocument);
            },
        };
        gathered.raw_arcs.push((source, target));
        assert(gathered@.arcs =~= old(gathered)@.with_arc(source@, target@).arcs);
        assert(gathered@.places =~= old(gathered)@.places);
        assert(gathered@.transitions =~= old(gathered)@.transitions);
        Ok(end)
    } else {
        assert(gathered@.places =~= old(gathered)@.places);
        Ok(at + 1)
    }
}

/// Gathers the places, the transitions and the arcs of a net, from after
/// its start tag at `at` to its end tag.
pub fn read_pnml_first_pass(events: &Vec<PnmlEvent>, at: usize) -> (r: Result<
    PnmlParsingFirstPass,
    PnmlParsingError,
>)
    ensures
        match r {
            Ok(first_pass) => net_content(events_model(events@), at as int, FirstPassModel::empty()) == Ok::<
                FirstPassModel,
                PnmlParsingError,
            >(first_pass@) && first_pass.wf(),
            Err(e) => net_content(events_model(events@), at as int, FirstPassModel::empty()) == Err::<
                FirstPassModel,
                PnmlParsingError,
            >(e),
        },
{
    let ghost ev = events_model(events@);
    let mut gathered = PnmlParsingFirstPass::new(0, Vec::new(), Vec::new(), Vec::new(), Vec::new());
    assert(gathered@.places =~= FirstPassModel::empty().places);
    assert(gathered@.transitions =~= FirstPassModel::empty().transitions);
    assert(gathered@.arcs =~= FirstPassModel::empty().arcs);
    let mut i: usize = at;
    while i < events.len()
        invariant
            at <= i,
            ev == events_model(events@),
            gathered.wf(),
            gathered.number_of_places <= i,
            net_content(ev, at as int, FirstPassModel::empty()) == net_content(ev, i as int, gathered@),
        decreases events.len() - i,
    {
        assert(ev[i as int] == events@[i as int]@);
        match &events[i] {
            PnmlEvent::StartElement { name, attributes } => {
                match read_element(events, i, name, attributes, &mut gathered) {
                    Ok(end) => {
                        i = end;
                    },
                    Err(e) => {
                        return Err(e);
                    },
                }
            },
            PnmlEvent::EndElement { name } => {
                if is_word(name, PNML_NET) {
                    return Ok(gathered);
                }
                i = i + 1;
            },
            _ => {
                i = i + 1;
            },
        }
    }
    Err(PnmlParsingError::UnexpectedEndOfDocument)
}

} // verus!
