//! The keystroke tracing core: a registry of independently removable
//! subscribers fed from one process-wide interception point, plus the pure
//! decisions that point has to make — normalizing raw virtual-key events
//! into the recognized key set and choosing how to respond to a keystroke
//! while a candidate layout is active.
//!
//! The OS-level hook itself (installation, callback plumbing, thread safety
//! of the shared registry) lives with the platform binding; everything it
//! decides is here, verified.

use vstd::prelude::*;

use crate::keyboard::KeyCode;
use crate::keyboard::KeyboardLayout;

verus! {

/// The process-wide keystroke interception hook could not be installed; the
/// subscription that needed it must fail loudly rather than pretend to trace.
#[derive(Clone, Copy, Debug, PartialEq, Eq, Structural)]
pub struct HookInstallationError;

/// What a consumer asks the interception point to do with the current
/// keystroke: let it pass, swallow it, or swallow it and inject a
/// replacement key instead.
#[derive(Clone, Copy, Debug, PartialEq, Eq, Structural)]
pub enum KeyEventResponse {
    Continue,
    Suppress,
    SuppressAndReplace(KeyCode),
}

/// A subscription handle; releasing the subscription means asking the
/// registry to remove this handle's id.
#[derive(Debug)]
pub struct Tracer(usize);

impl Tracer {
    /// The unique id of this subscription.
    pub closed spec fn id_spec(self) -> usize {
        self.0
    }

    /// The unique id of this subscription.
    pub fn id(&self) -> (i: usize)
        ensures
            i == self.id_spec(),
    {
        self.0
    }
}

/// An ordered collection of subscribers with process-unique, monotonically
/// assigned ids. Dispatch walks the entries in registration order; removal
/// by id keeps the order of the remaining entries.
pub struct SubscriberRegistry<T> {
    entries: Vec<(usize, T)>,
    next_id: usize,
}

impl<T> SubscriberRegistry<T> {
    /// The registered subscribers in registration order, each with its id.
    pub closed spec fn entries_spec(self) -> Seq<(usize, T)> {
        self.entries@
    }

    /// The subscription ids in registration order.
    pub open spec fn ids(self) -> Seq<usize> {
        self.entries_spec().map_values(|e: (usize, T)| e.0)
    }

    /// The id the next subscription will receive; ids are assigned
    /// monotonically and never reused for the registry's lifetime.
    pub closed spec fn next_id_spec(self) -> usize {
        self.next_id
    }

    /// Ids are strictly increasing along the registration order (hence
    /// unique), and all below the next id to be handed out.
    pub closed spec fn wf(self) -> bool {
        &&& forall|i: int, j: int|
            0 <= i < j < self.entries@.len() ==> self.entries@[i].0 < self.entries@[j].0
        &&& forall|i: int| 0 <= i < self.entries@.len() ==> (#[trigger] self.entries@[i]).0
            < self.next_id
    }

    /// An empty registry.
    pub fn new() -> (s: Self)
        ensures
            s.wf(),
            s.entries_spec().len() == 0,
            s.next_id_spec() == 0,
    {
        SubscriberRegistry { entries: Vec::new(), next_id: 0 }
    }

    /// How many subscribers are registered.
    pub fn len(&self) -> (n: usize)
        ensures
            n == self.entries_spec().len(),
    {
        self.entries.len()
    }

    /// The registered subscribers in registration order — the order in which
    /// dispatch must invoke them.
    pub fn entries(&self) -> (r: &Vec<(usize, T)>)
        ensures
            r@ == self.entries_spec(),
    {
        &self.entries
    }

    /// Register a subscriber; it is appended after every existing entry and
    /// receives a fresh id no present or past subscription has carried.
    /// `None` only when the id space is exhausted, leaving the registry
    /// unchanged.
    pub fn subscribe(&mut self, subscriber: T) -> (t: Option<Tracer>)
        requires
            old(self).wf(),
        ensures
            final(self).wf(),
            t is Some <==> old(self).next_id_spec() < usize::MAX,
            match t {
                Some(handle) => {
                    &&& handle.id_spec() == old(self).next_id_spec()
                    &&& final(self).next_id_spec() == old(self).next_id_spec() + 1
                    &&& final(self).entries_spec() == old(self).entries_spec().push(
                        (handle.id_spec(), subscriber),
                    )
                    &&& forall|i: int|
                        0 <= i < old(self).entries_spec().len() ==> (#[trigger] old(
                            self,
                        ).entries_spec()[i]).0 != handle.id_spec()
                },
                None => *final(self) == *old(self),
            },
    {
        if self.next_id == usize::MAX {
            return None;
        }
        let id = self.next_id;
        self.next_id = self.next_id + 1;
        self.entries.push((id, subscriber));
        Some(Tracer(id))
    }

    /// Remove the subscription with the given id, if present; every other
    /// entry stays, in its registration order. Removing an absent id does
    /// nothing, so removal is idempotent.
    pub fn unsubscribe(&mut self, id: usize)
        requires
            old(self).wf(),
        ensures
            final(self).wf(),
            final(self).next_id_spec() == old(self).next_id_spec(),
            forall|j: int|
                0 <= j < old(self).entries_spec().len() && (#[trigger] old(self).entries_spec()[
                    j
                ]).0 == id ==> final(self).entries_spec() == old(self).entries_spec().remove(j),
            (forall|j: int|
                0 <= j < old(self).entries_spec().len() ==> (#[trigger] old(self).entries_spec()[
                    j
                ]).0 != id) ==> final(self).entries_spec() == old(self).entries_spec(),
    {
        let n = self.entries.len();
        let mut i: usize = 0;
        while i < n
            invariant
                old(self).wf(),
                *self == *old(self),
                n == self.entries@.len(),
                i <= n,
                forall|j: int| 0 <= j < i ==> (#[trigger] self.entries@[j]).0 != id,
            decreases n - i,
        {
            if self.entries[i].0 == id {
                self.entries.remove(i);
                proof {
                    assert forall|j: int|
                        0 <= j < old(self).entries_spec().len() && (#[trigger] old(
                            self,
                        ).entries_spec()[j]).0 == id implies final(self).entries_spec() == old(
                        self,
                    ).entries_spec().remove(j) by {
                        assert(j == i as int);
                    }
                }
                return ;
            }
            i = i + 1;
        }
    }
}

/// The recognized key, if any, for a platform virtual-key code: the 26
/// letter keys at `0x41` through `0x5A`, and the four punctuation keys at
/// their standard OEM codes (`;` at `0xBA`, `/` at `0xBF`, `,` at `0xBC`,
/// `.` at `0xBE`). Every other code is outside the recognized set.
pub open spec fn key_of_virtual_code(vk: u16) -> Option<KeyCode> {
    if vk == 0x41 {
        Some(KeyCode::A)
    } else if vk == 0x42 {
        Some(KeyCode::B)
    } else if vk == 0x43 {
        Some(KeyCode::C)
    } else if vk == 0x44 {
        Some(KeyCode::D)
    } else if vk == 0x45 {
        Some(KeyCode::E)
    } else if vk == 0x46 {
        Some(KeyCode::F)
    } else if vk == 0x47 {
        Some(KeyCode::G)
    } else if vk == 0x48 {
        Some(KeyCode::H)
    } else if vk == 0x49 {
        Some(KeyCode::I)
    } else if vk == 0x4A {
        Some(KeyCode::J)
    } else if vk == 0x4B {
        Some(KeyCode::K)
    } else if vk == 0x4C {
        Some(KeyCode::L)
    } else if vk == 0x4D {
        Some(KeyCode::M)
    } else if vk == 0x4E {
        Some(KeyCode::N)
    } else if vk == 0x4F {
        Some(KeyCode::O)
    } else if vk == 0x50 {
        Some(KeyCode::P)
    } else if vk == 0x51 {
        Some(KeyCode::Q)
    } else if vk == 0x52 {
        Some(KeyCode::R)
    } else if vk == 0x53 {
        Some(KeyCode::S)
    } else if vk == 0x54 {
        Some(KeyCode::T)
    } else if vk == 0x55 {
        Some(KeyCode::U)
    } else if vk == 0x56 {
        Some(KeyCode::V)
    } else if vk == 0x57 {
        Some(KeyCode::W)
    } else if vk == 0x58 {
        Some(KeyCode::X)
    } else if vk == 0x59 {
        Some(KeyCode::Y)
    } else if vk == 0x5A {
        Some(KeyCode::Z)
    } else if vk == 0xBA {
        Some(KeyCode::Semicolon)
    } else if vk == 0xBC {
        Some(KeyCode::Comma)
    } else if vk == 0xBE {
        Some(KeyCode::Dot)
    } else if vk == 0xBF {
        Some(KeyCode::Slash)
    } else {
        None
    }
}

/// Normalize a platform virtual-key code into the recognized key set;
/// events for keys outside it are dropped before any subscriber sees them.
pub fn key_from_virtual_code(vk: u16) -> (r: Option<KeyCode>)
    ensures
        r == key_of_virtual_code(vk),
{
    match vk {
        0x41 => Some(KeyCode::A),
        0x42 => Some(KeyCode::B),
        0x43 => Some(KeyCode::C),
        0x44 => Some(KeyCode::D),
        0x45 => Some(KeyCode::E),
        0x46 => Some(KeyCode::F),
        0x47 => Some(KeyCode::G),
        0x48 => Some(KeyCode::H),
        0x49 => Some(KeyCode::I),
        0x4A => Some(KeyCode::J),
        0x4B => Some(KeyCode::K),
        0x4C => Some(KeyCode::L),
        0x4D => Some(KeyCode::M),
        0x4E => Some(KeyCode::N),
        0x4F => Some(KeyCode::O),
        0x50 => Some(KeyCode::P),
        0x51 => Some(KeyCode::Q),
        0x52 => Some(KeyCode::R),
        0x53 => Some(KeyCode::S),
        0x54 => Some(KeyCode::T),
        0x55 => Some(KeyCode::U),
        0x56 => Some(KeyCode::V),
        0x57 => Some(KeyCode::W),
        0x58 => Some(KeyCode::X),
        0x59 => Some(KeyCode::Y),
        0x5A => Some(KeyCode::Z),
        0xBA => Some(KeyCode::Semicolon),
        0xBC => Some(KeyCode::Comma),
        0xBE => Some(KeyCode::Dot),
        0xBF => Some(KeyCode::Slash),
        _ => None,
    }
}

/// Whether a platform event type is a key-down event (plain or with a
/// system modifier): only those feed the tracing stream.
pub fn is_key_down_event(event_type: u32) -> (r: bool)
    ensures
        r <==> (event_type == 0x0100 || event_type == 0x0104),
{
    event_type == 0x0100 || event_type == 0x0104
}

/// How the interception point responds to a recognized key-down event.
///
/// With no active layout the keystroke passes through untouched. With an
/// active layout the original keystroke is suppressed and replaced by the
/// active layout's key at the position the pressed key occupies in the
/// reference layout.
pub fn respond_to_key_press(active_layout: &Option<KeyboardLayout>, key_code: KeyCode) -> (r:
    KeyEventResponse)
    ensures
        match *active_layout {
            None => r == KeyEventResponse::Continue,
            Some(l) => r == KeyEventResponse::SuppressAndReplace(
                l.key_at_spec(key_code.index_spec() / 10, key_code.index_spec() % 10),
            ),
        },
{
    match active_layout {
        None => KeyEventResponse::Continue,
        Some(layout) => {
            // The position a key occupies in the reference layout is its own
            // index, row-major.
            let ki = key_code.index();
            let translated = layout.key_at((ki / 10, ki % 10));
            KeyEventResponse::SuppressAndReplace(translated)
        },
    }
}

/// Combine the responses of all subscribers to one event into the action
/// the interception point takes. The policy is fixed and deterministic: the
/// first subscriber, in registration order, that asks for anything other
/// than `Continue` wins; with no such subscriber the keystroke continues.
pub fn combine_responses(responses: &Vec<KeyEventResponse>) -> (r: KeyEventResponse)
    ensures
        (forall|i: int|
            0 <= i < responses@.len() ==> responses@[i] == KeyEventResponse::Continue) ==> r
            == KeyEventResponse::Continue,
        forall|i: int|
            0 <= i < responses@.len() && responses@[i] != KeyEventResponse::Continue && (forall|
                j: int,
            |
                0 <= j < i ==> responses@[j] == KeyEventResponse::Continue) ==> r == responses@[i],
{
    let n = responses.len();
    let mut i: usize = 0;
    while i < n
        invariant
            n == responses@.len(),
            i <= n,
            forall|j: int| 0 <= j < i ==> responses@[j] == KeyEventResponse::Continue,
        decreases n - i,
    {
        let candidate = responses[i];
        if !matches!(candidate, KeyEventResponse::Continue) {
            return candidate;
        }
        i = i + 1;
    }
    KeyEventResponse::Continue
}

} // verus!
