//! The shared read-only tables the decoders consult: the localization map
//! (translation key to optional translated text) and the hash dictionary
//! (32-bit name hash to human-readable name). Both are concurrent maps,
//! populated before any decoder runs and only read during decoding.
use vstd::prelude::*;

verus! {

/// Maps localization keys to their optional translations. Backed by a
/// concurrent hash map so many decoders can read it at once.
#[verifier::external_body]
pub struct LocalizationMap {
    inner: dashmap::DashMap<Vec<u8>, Option<Vec<u8>>>,
}

/// What the localization map holds.
pub uninterp spec fn loc_entries(m: LocalizationMap) -> Map<Seq<u8>, Option<Seq<u8>>>;

impl View for LocalizationMap {
    type V = Map<Seq<u8>, Option<Seq<u8>>>;

    open spec fn view(&self) -> Map<Seq<u8>, Option<Seq<u8>>> {
        loc_entries(*self)
    }
}

pub open spec fn opt_bytes_view(v: Option<Vec<u8>>) -> Option<Seq<u8>> {
    match v {
        Some(s) => Some(s@),
        None => None,
    }
}

impl LocalizationMap {
    /// Relies on dashmap::DashMap::new. Nothing is claimed of a fresh
    /// map's contents; callers learn them through [`Self::insert`].
    #[verifier::external_body]
    pub fn new() -> Self {
        LocalizationMap { inner: dashmap::DashMap::new() }
    }

    /// Relies on dashmap::DashMap::insert: binds the key to the value,
    /// replacing any earlier binding.
    #[verifier::external_body]
    pub fn insert(&mut self, key: Vec<u8>, value: Option<Vec<u8>>)
        ensures
            loc_entries(*final(self)) == loc_entries(*old(self)).insert(
                key@,
                opt_bytes_view(value),
            ),
    {
        self.inner.insert(key, value);
    }

    /// Relies on dashmap::DashMap::get: returns the value bound to the key
    /// exactly when the key is present.
    #[verifier::external_body]
    pub fn get(&self, key: &[u8]) -> (r: Option<Option<Vec<u8>>>)
        ensures
            match r {
                Some(v) => loc_entries(*self).dom().contains(key@) && loc_entries(*self)[key@]
                    == opt_bytes_view(v),
                None => !loc_entries(*self).dom().contains(key@),
            },
    {
        self.inner.get(key).map(|entry| entry.value().clone())
    }
}

/// Maps 32-bit name hashes to readable names, for the object-stream
/// decoder. Backed by the same concurrent map type.
#[verifier::external_body]
pub struct HashDictionary {
    inner: dashmap::DashMap<u32, Vec<u8>>,
}

/// What the hash dictionary holds.
pub uninterp spec fn dict_entries(d: HashDictionary) -> Map<u32, Seq<u8>>;

impl View for HashDictionary {
    type V = Map<u32, Seq<u8>>;

    open spec fn view(&self) -> Map<u32, Seq<u8>> {
        dict_entries(*self)
    }
}

impl HashDictionary {
    /// Relies on dashmap::DashMap::new. Nothing is claimed of a fresh
    /// map's contents; callers learn them through [`Self::insert`].
    #[verifier::external_body]
    pub fn new() -> Self {
        HashDictionary { inner: dashmap::DashMap::new() }
    }

    /// Relies on dashmap::DashMap::insert: binds the key to the value,
    /// replacing any earlier binding.
    #[verifier::external_body]
    pub fn insert(&mut self, key: u32, value: Vec<u8>)
        ensures
            dict_entries(*final(self)) == dict_entries(*old(self)).insert(key, value@),
    {
        self.inner.insert(key, value);
    }

    /// Relies on dashmap::DashMap::get: returns the value bound to the key
    /// exactly when the key is present.
    #[verifier::external_body]
    pub fn get(&self, key: u32) -> (r: Option<Vec<u8>>)
        ensures
            match r {
                Some(v) => dict_entries(*self).dom().contains(key) && dict_entries(*self)[key]
                    == v@,
                None => !dict_entries(*self).dom().contains(key),
            },
    {
        self.inner.get(&key).map(|entry| entry.value().clone())
    }
}

} // verus!
