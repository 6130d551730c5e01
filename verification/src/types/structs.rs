use std::sync::Arc;
use vstd::prelude::*;

verus! {

/// A string of the header's string table.
#[derive(Debug)]
pub struct SharedString {
    pub length: u32,
    pub str: String,
}

/// An evaluator: a buffer of condition or argument bytecode.
#[derive(Debug)]
pub struct Evaluator {
    pub struct_type: u16,
    pub version: u32,
    pub buffer: Buffer,
}

/// A length-prefixed run of bytes.
#[derive(Debug)]
pub struct Buffer {
    pub struct_type: u16,
    pub length: u32,
    pub data: Vec<u8>,
}

/// The file header, with the table of type names.
#[derive(Debug)]
pub struct Header {
    pub magic: String,
    pub unk04: u16,
    pub version: u16,
    pub unk08: Option<u32>,
    pub transition_count: Option<u32>,
    pub highest_ref_id_plus_one: Option<u32>,
    pub string_count: u16,
    pub strings: Vec<SharedString>,
}

/// The root object: a vector of maps.
#[derive(Debug)]
pub struct Project {
    pub struct_type: u16,
    pub version: u32,
    pub maps: DLVectorReference,
}

/// A state machine.
#[derive(Debug)]
pub struct EsdMap {
    pub struct_type: u16,
    pub version: u32,
    pub map_index: u32,
    pub initial_state: Reference,
    pub states: DLVectorReference,
    pub transitions: Option<DLVectorReference>,
}

/// A state with its transitions and its entry and exit events.
#[derive(Debug)]
pub struct State {
    pub struct_type: u16,
    pub version: u32,
    pub state_index: u32,
    pub transitions: DLVectorReference,
    pub entry_events: DLVectorReference,
    pub exit_events: DLVectorReference,
}

/// A call of an external event with its arguments.
#[derive(Debug)]
pub struct Event {
    pub struct_type: u16,
    pub version: u32,
    pub event_id: u32,
    pub arg_amount: u32,
    pub arg_evaluators: Option<Vec<Evaluator>>,
    pub arg_buffers: Option<Vec<Buffer>>,
}

/// A transition: a condition, a target state and the events run on passing.
#[derive(Debug)]
pub struct Transition {
    pub struct_type: u16,
    pub version: u32,
    pub cond_ref: Option<Reference>,
    pub target_state: Option<Reference>,
    pub cond_buffer: Option<Buffer>,
    pub pass_events: DLVectorReference,
}

/// A condition object holding an evaluator.
#[derive(Debug)]
pub struct Condition {
    pub struct_type: u16,
    pub version: u32,
    pub evaluator: Evaluator,
}

/// A vector of references.
#[derive(Debug)]
pub struct DLVectorReference {
    pub struct_type: u16,
    pub ref_count: u32,
    pub item_type: Option<u16>,
    pub references: Vec<Reference>,
}

/// The object a reference points to.
#[derive(Debug)]
pub enum RefValue {
    EsdMap(EsdMap),
    State(State),
    Event(Event),
    Transition(Transition),
    Condition(Condition),
}

/// A reference to an object by id; the object itself is held by the first
/// reference to it.
#[derive(Debug)]
pub struct Reference {
    pub ref_type: u16,
    pub id: u32,
    pub value: Option<Arc<RefValue>>,
}

/// `Arc::clone`: another pointer to the same object.
#[verifier::external_body]
pub(crate) fn share(a: &Arc<RefValue>) -> (r: Arc<RefValue>)
    ensures
        r == *a,
{
    a.clone()
}

// ---------------------------------------------------------------------------
// Mathematical models
// ---------------------------------------------------------------------------

pub struct SpecSharedString {
    pub length: u32,
    pub str: Seq<char>,
}

pub struct SpecBuffer {
    pub struct_type: u16,
    pub length: u32,
    pub data: Seq<u8>,
}

pub struct SpecEvaluator {
    pub struct_type: u16,
    pub version: u32,
    pub buffer: SpecBuffer,
}

pub struct SpecHeader {
    pub magic: Seq<char>,
    pub unk04: u16,
    pub version: u16,
    pub unk08: Option<u32>,
    pub transition_count: Option<u32>,
    pub highest_ref_id_plus_one: Option<u32>,
    pub string_count: u16,
    pub strings: Seq<SpecSharedString>,
}

pub struct SpecEvent {
    pub struct_type: u16,
    pub version: u32,
    pub event_id: u32,
    pub arg_amount: u32,
    pub arg_evaluators: Option<Seq<SpecEvaluator>>,
    pub arg_buffers: Option<Seq<SpecBuffer>>,
}

pub struct SpecCondition {
    pub struct_type: u16,
    pub version: u32,
    pub evaluator: SpecEvaluator,
}

pub struct SpecProject {
    pub struct_type: u16,
    pub version: u32,
    pub maps: SpecDLVector,
}

pub struct SpecMap {
    pub struct_type: u16,
    pub version: u32,
    pub map_index: u32,
    pub initial_state: SpecReference,
    pub states: SpecDLVector,
    pub transitions: Option<SpecDLVector>,
}

pub struct SpecState {
    pub struct_type: u16,
    pub version: u32,
    pub state_index: u32,
    pub transitions: SpecDLVector,
    pub entry_events: SpecDLVector,
    pub exit_events: SpecDLVector,
}

pub struct SpecTransition {
    pub struct_type: u16,
    pub version: u32,
    pub cond_ref: Option<SpecReference>,
    pub target_state: Option<SpecReference>,
    pub cond_buffer: Option<SpecBuffer>,
    pub pass_events: SpecDLVector,
}

pub struct SpecDLVector {
    pub struct_type: u16,
    pub ref_count: u32,
    pub item_type: Option<u16>,
    pub references: Seq<SpecReference>,
}

pub enum SpecRefValue {
    EsdMap(SpecMap),
    State(SpecState),
    Event(SpecEvent),
    Transition(SpecTransition),
    Condition(SpecCondition),
}

pub struct SpecReference {
    pub ref_type: u16,
    pub id: u32,
    pub value: Option<Box<SpecRefValue>>,
}

impl View for SharedString {
    type V = SpecSharedString;

    open spec fn view(&self) -> SpecSharedString {
        SpecSharedString { length: self.length, str: self.str@ }
    }
}

impl View for Buffer {
    type V = SpecBuffer;

    open spec fn view(&self) -> SpecBuffer {
        SpecBuffer { struct_type: self.struct_type, length: self.length, data: self.data@ }
    }
}

impl View for Evaluator {
    type V = SpecEvaluator;

    open spec fn view(&self) -> SpecEvaluator {
        SpecEvaluator { struct_type: self.struct_type, version: self.version, buffer: self.buffer@ }
    }
}

/// The models of a vector's items.
pub open spec fn views_of<T: View>(v: Seq<T>) -> Seq<T::V> {
    v.map_values(|x: T| x@)
}

impl View for Header {
    type V = SpecHeader;

    open spec fn view(&self) -> SpecHeader {
        SpecHeader {
            magic: self.magic@,
            unk04: self.unk04,
            version: self.version,
            unk08: self.unk08,
            transition_count: self.transition_count,
            highest_ref_id_plus_one: self.highest_ref_id_plus_one,
            string_count: self.string_count,
            strings: views_of(self.strings@),
        }
    }
}

impl View for Event {
    type V = SpecEvent;

    open spec fn view(&self) -> SpecEvent {
        SpecEvent {
            struct_type: self.struct_type,
            version: self.version,
            event_id: self.event_id,
            arg_amount: self.arg_amount,
            arg_evaluators: match &self.arg_evaluators {
                Some(v) => Some(views_of(v@)),
                None => None,
            },
            arg_buffers: match &self.arg_buffers {
                Some(v) => Some(views_of(v@)),
                None => None,
            },
        }
    }
}

impl View for Condition {
    type V = SpecCondition;

    open spec fn view(&self) -> SpecCondition {
        SpecCondition {
            struct_type: self.struct_type,
            version: self.version,
            evaluator: self.evaluator@,
        }
    }
}

/// The models of a vector of references.
pub open spec fn ref_models(v: Seq<Reference>) -> Seq<SpecReference> {
    Seq::new(v.len(), |i: int| v[i]@)
}

/// A reference with no id, no type and no object.
pub open spec fn empty_spec_reference() -> SpecReference {
    SpecReference { ref_type: 0, id: 0, value: None }
}

impl Reference {
    /// The model of a reference.
    pub open spec fn model(&self) -> SpecReference
        decreases self,
    {
        SpecReference {
            ref_type: self.ref_type,
            id: self.id,
            value: match &self.value {
                Some(v) => Some(Box::new((**v).model())),
                None => None,
            },
        }
    }
}

impl RefValue {
    /// The model of a referenced object.
    pub open spec fn model(&self) -> SpecRefValue
        decreases self,
    {
        match self {
            RefValue::EsdMap(m) => SpecRefValue::EsdMap(m.model()),
            RefValue::State(s) => SpecRefValue::State(s.model()),
            RefValue::Event(e) => SpecRefValue::Event(e@),
            RefValue::Transition(t) => SpecRefValue::Transition(t.model()),
            RefValue::Condition(c) => SpecRefValue::Condition(c@),
        }
    }
}

impl DLVectorReference {
    /// The model of a reference vector.
    pub open spec fn model(&self) -> SpecDLVector
        decreases self,
    {
        let refs = self.references@;
        proof {
            assert forall|i: int| 0 <= i < refs.len() implies decreases_to!(self => refs[i]) by {
                assert(decreases_to!(self => self.references));
                assert(decreases_to!(self.references => refs));
                assert(decreases_to!(refs => refs[i]));
            }
        }
        SpecDLVector {
            struct_type: self.struct_type,
            ref_count: self.ref_count,
            item_type: self.item_type,
            references: Seq::new(
                refs.len(),
                |i: int|
                    if 0 <= i < refs.len() {
                        refs[i].model()
                    } else {
                        empty_spec_reference()
                    },
            ),
        }
    }
}

impl EsdMap {
    /// The model of a state machine.
    pub open spec fn model(&self) -> SpecMap
        decreases self,
    {
        SpecMap {
            struct_type: self.struct_type,
            version: self.version,
            map_index: self.map_index,
            initial_state: self.initial_state.model(),
            states: self.states.model(),
            transitions: match &self.transitions {
                Some(t) => Some(t.model()),
                None => None,
            },
        }
    }
}

impl State {
    /// The model of a state.
    pub open spec fn model(&self) -> SpecState
        decreases self,
    {
        SpecState {
            struct_type: self.struct_type,
            version: self.version,
            state_index: self.state_index,
            transitions: self.transitions.model(),
            entry_events: self.entry_events.model(),
            exit_events: self.exit_events.model(),
        }
    }
}

impl Transition {
    /// The model of a transition.
    pub open spec fn model(&self) -> SpecTransition
        decreases self,
    {
        SpecTransition {
            struct_type: self.struct_type,
            version: self.version,
            cond_ref: match &self.cond_ref {
                Some(r) => Some(r.model()),
                None => None,
            },
            target_state: match &self.target_state {
                Some(r) => Some(r.model()),
                None => None,
            },
            cond_buffer: match &self.cond_buffer {
                Some(b) => Some(b@),
                None => None,
            },
            pass_events: self.pass_events.model(),
        }
    }
}

impl View for Reference {
    type V = SpecReference;

    open spec fn view(&self) -> SpecReference {
        self.model()
    }
}

impl View for RefValue {
    type V = SpecRefValue;

    open spec fn view(&self) -> SpecRefValue {
        self.model()
    }
}

impl View for DLVectorReference {
    type V = SpecDLVector;

    open spec fn view(&self) -> SpecDLVector {
        self.model()
    }
}

impl View for EsdMap {
    type V = SpecMap;

    open spec fn view(&self) -> SpecMap {
        self.model()
    }
}

impl View for State {
    type V = SpecState;

    open spec fn view(&self) -> SpecState {
        self.model()
    }
}

impl View for Transition {
    type V = SpecTransition;

    open spec fn view(&self) -> SpecTransition {
        self.model()
    }
}

impl View for Project {
    type V = SpecProject;

    open spec fn view(&self) -> SpecProject {
        SpecProject { struct_type: self.struct_type, version: self.version, maps: self.maps@ }
    }
}

} // verus!
