//! Named sound clips and persisted sound lookup.
//!
//! The store holds pre-recorded, decoded clips keyed by name (for instance,
//! the clip played in place of a URL). It is filled once at startup and only
//! read afterwards. Persisted sounds addressed by id live with an external
//! collaborator reached through the `SoundResolver` trait.

use vstd::prelude::*;

use crate::cache::AudioData;

verus! {

/// Named, memory-resident sound clips. The backing concurrent map cannot be
/// declared to the verifier, so it lives in an opaque struct whose contents
/// are named by `store_view` and reached only through the contracted
/// operations below.
#[verifier::external_body]
pub struct SoundStore {
    inner: dashmap::DashMap<String, AudioData>,
}

/// The clips the store currently holds, by name.
pub uninterp spec fn store_view(s: SoundStore) -> Map<Seq<char>, AudioData>;

impl View for SoundStore {
    type V = Map<Seq<char>, AudioData>;

    open spec fn view(&self) -> Map<Seq<char>, AudioData> {
        store_view(*self)
    }
}

/// The contents of a store no clip has been entered in.
pub open spec fn empty_store() -> Map<Seq<char>, AudioData> {
    Map::empty()
}

/// Relies on dashmap::DashMap::new: the new map is empty.
#[verifier::external_body]
fn store_new() -> (fresh: SoundStore)
    ensures
        store_view(fresh) == empty_store(),
{
    SoundStore { inner: dashmap::DashMap::new() }
}

/// Relies on dashmap::DashMap::insert: stores the clip under the name,
/// replacing any previous clip of that name.
#[verifier::external_body]
fn store_insert(store: &mut SoundStore, name: String, data: AudioData)
    ensures
        final(store)@ == old(store)@.insert(name@, data),
{
    store.inner.insert(name, data);
}

/// Relies on dashmap::DashMap::get: returns the clip stored under the name,
/// if any, as an independent copy.
#[verifier::external_body]
fn store_get(store: &SoundStore, name: &str) -> (r: Option<AudioData>)
    ensures
        match r {
            Some(d) => store@.contains_key(name@) && d@ == store@[name@]@,
            None => !store@.contains_key(name@),
        },
{
    match store.inner.get(name) {
        Some(entry) => Some(AudioData { bytes: entry.value().bytes.clone() }),
        None => None,
    }
}

impl SoundStore {
    /// An empty store.
    pub fn new() -> (r: SoundStore)
        ensures
            r@ == empty_store(),
    {
        store_new()
    }

    /// Add a clip under a name, replacing any previous clip of that name.
    pub fn insert(&mut self, name: String, data: AudioData)
        ensures
            final(self)@ == old(self)@.insert(name@, data),
    {
        store_insert(self, name, data);
    }

    /// An independent copy of the clip stored under a name, if any.
    pub fn get(&self, name: &str) -> (r: Option<AudioData>)
        ensures
            match r {
                Some(d) => self@.contains_key(name@) && d@ == self@[name@]@,
                None => !self@.contains_key(name@),
            },
    {
        store_get(self, name)
    }
}

/// The persisted sound lookup: an external collaborator resolving a sound id
/// and optional group id to a playable clip, or nothing. Nothing is assumed
/// of its behaviour.
pub trait SoundResolver {
    fn resolve(&mut self, sound_id: u64, guild_id: Option<u64>) -> Option<AudioData>;
}

} // verus!
