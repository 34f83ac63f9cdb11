//! The record that flows through the pipeline.
use vstd::prelude::*;

verus! {

/// What the pipeline reads of an event.
pub struct EventView {
    pub id: Seq<u8>,
    pub created_at: u64,
    pub kind: u16,
    pub json: Seq<char>,
}

/// Whether `json` fits on one line of an archive file.
pub open spec fn single_line(json: Seq<char>) -> bool {
    forall|i: int| 0 <= i < json.len() ==> json[i] != '\n'
}

/// An accepted event: a 32-byte identifier, the creation time in seconds since
/// the epoch, the kind, and the canonical JSON text, which never holds a line
/// break.
pub struct Event {
    id: [u8; 32],
    created_at: u64,
    kind: u16,
    json: String,
}

impl View for Event {
    type V = EventView;

    closed spec fn view(&self) -> EventView {
        EventView { id: self.id@, created_at: self.created_at, kind: self.kind, json: self.json@ }
    }
}

impl EventView {
    /// What every event satisfies: the identifier has 32 bytes and the JSON text
    /// is a single line.
    pub open spec fn wf(self) -> bool {
        &&& self.id.len() == 32
        &&& single_line(self.json)
    }
}

impl Event {
    #[verifier::type_invariant]
    spec fn inv(&self) -> bool {
        single_line(self.json@)
    }

    /// Builds an event, or returns `None` when `json` holds a line break.
    pub fn new(id: [u8; 32], created_at: u64, kind: u16, json: String) -> (r: Option<Event>)
        ensures
            r is Some <==> single_line(json@),
            r matches Some(e) ==> e@ == (EventView { id: id@, created_at, kind, json: json@ })
                && e@.wf(),
    {
        let chars = crate::text::chars_of(json.as_str());
        let mut i: usize = 0;
        while i < chars.len()
            invariant
                i <= chars.len(),
                chars@ == json@,
                forall|j: int| 0 <= j < i ==> chars@[j] != '\n',
            decreases chars.len() - i,
        {
            if chars[i] == '\n' {
                return None;
            }
            i += 1;
        }
        Some(Event { id, created_at, kind, json })
    }

    pub fn id(&self) -> (r: &[u8; 32])
        ensures
            r@ == self@.id,
            self@.wf(),
    {
        proof {
            use_type_invariant(self);
        }
        &self.id
    }

    pub fn created_at(&self) -> (r: u64)
        ensures
            r == self@.created_at,
    {
        self.created_at
    }

    pub fn kind(&self) -> (r: u16)
        ensures
            r == self@.kind,
    {
        self.kind
    }

    pub fn as_json(&self) -> (r: &str)
        ensures
            r@ == self@.json,
            self@.wf(),
    {
        proof {
            use_type_invariant(self);
        }
        self.json.as_str()
    }
}

} // verus!
