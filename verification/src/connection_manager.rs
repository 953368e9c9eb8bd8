//! The session registry: which sessions are live, and how each is reached.
use std::collections::HashMap;
use vstd::prelude::*;

verus! {

broadcast use vstd::std_specs::hash::group_hash_axioms;

/// The directory of live sessions. It maps the identifier of each to a
/// handle, of a type `H` that the caller chooses, by which a message can be
/// delivered to the session. To contracts a registry is the map itself.
///
/// Every change takes the registry by `&mut`: changes never overlap, and
/// callers that share one registry among sessions keep it behind a lock or
/// a mailbox.
pub struct ConnectionManager<H> {
    sessions: HashMap<u128, H>,
}

impl<H> View for ConnectionManager<H> {
    type V = Map<u128, H>;

    closed spec fn view(&self) -> Map<u128, H> {
        self.sessions@
    }
}

impl<H> ConnectionManager<H> {
    /// A registry without sessions.
    pub fn new() -> (registry: Self)
        ensures
            registry@ == Map::<u128, H>::empty(),
    {
        ConnectionManager { sessions: HashMap::new() }
    }

    /// Enters a session under `id`. An identifier is meant to be entered
    /// once; should it be there already, the new handle takes the place of
    /// the old one, so that no identifier ever has two entries.
    pub fn register(&mut self, id: u128, handle: H)
        ensures
            final(self)@ == old(self)@.insert(id, handle),
    {
        self.sessions.insert(id, handle);
    }

    /// Takes the session `id` out and hands back its handle. Where there is
    /// no such session nothing changes, and that is no error.
    pub fn deregister(&mut self, id: u128) -> (removed: Option<H>)
        ensures
            final(self)@ == old(self)@.remove(id),
            removed == if old(self)@.contains_key(id) {
                Some(old(self)@[id])
            } else {
                None
            },
    {
        self.sessions.remove(&id)
    }

    /// Whether a session is entered under `id`.
    pub fn contains(&self, id: u128) -> (found: bool)
        ensures
            found == self@.contains_key(id),
    {
        self.sessions.contains_key(&id)
    }

    /// The handle of the session `id`, if it is entered.
    pub fn get(&self, id: u128) -> (handle: Option<&H>)
        ensures
            handle == if self@.contains_key(id) {
                Some(&self@[id])
            } else {
                None
            },
    {
        self.sessions.get(&id)
    }

    /// How many sessions are entered.
    pub fn len(&self) -> (count: usize)
        ensures
            count == self@.len(),
            self@.dom().finite(),
    {
        self.sessions.len()
    }

    /// Whether no session is entered.
    pub fn is_empty(&self) -> (empty: bool)
        ensures
            empty == (self@.len() == 0),
            self@.dom().finite(),
    {
        self.sessions.len() == 0
    }
}

impl<H> Default for ConnectionManager<H> {
    fn default() -> (registry: Self)
        ensures
            registry@ == Map::<u128, H>::empty(),
    {
        ConnectionManager::new()
    }
}

/// Taking a session out twice is the same as taking it out once, and taking
/// out a session that is not entered changes nothing.
pub proof fn lemma_deregister_is_idempotent<H>(sessions: Map<u128, H>, id: u128)
    ensures
        sessions.remove(id).remove(id) == sessions.remove(id),
        !sessions.contains_key(id) ==> sessions.remove(id) == sessions,
        !sessions.remove(id).contains_key(id),
{
    assert(sessions.remove(id).remove(id) =~= sessions.remove(id));
    if !sessions.contains_key(id) {
        assert(sessions.remove(id) =~= sessions);
    }
}

/// A session that is entered and taken out again leaves the registry as it
/// found it.
pub proof fn lemma_register_then_deregister<H>(sessions: Map<u128, H>, id: u128, handle: H)
    requires
        !sessions.contains_key(id),
    ensures
        sessions.insert(id, handle).remove(id) == sessions,
{
    assert(sessions.insert(id, handle).remove(id) =~= sessions);
}

/// Entering or taking out one session touches no other: every other
/// identifier is entered afterwards exactly if it was before, with the same
/// handle.
pub proof fn lemma_registry_changes_are_local<H>(
    sessions: Map<u128, H>,
    id: u128,
    handle: H,
    other: u128,
)
    requires
        other != id,
    ensures
        sessions.insert(id, handle).contains_key(other) == sessions.contains_key(other),
        sessions.remove(id).contains_key(other) == sessions.contains_key(other),
        sessions.contains_key(other) ==> sessions.insert(id, handle)[other] == sessions[other]
            && sessions.remove(id)[other] == sessions[other],
{
}

} // verus!
