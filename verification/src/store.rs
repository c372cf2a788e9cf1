//! Key-value persistence over opaque byte blobs, addressed by short string
//! identifiers.
//!
//! The store is opaque to encryption: it only ever sees wrapped blobs and the
//! public salt. Implementations that fail must report `StorageError` and
//! leave their contents unchanged.

use vstd::prelude::*;

verus! {

use crate::errors::CipherError;
use crate::kv::KvMap;

/// A mapping from short string ids to byte sequences.
///
/// `contents` is the abstract state a caller reasons about; `inv` is whatever
/// internal consistency the implementation maintains. A failing operation
/// returns `StorageError` and does not change the contents; `get` never
/// returns a partial value.
pub trait Store: Sized {
    spec fn inv(&self) -> bool;

    spec fn contents(&self) -> Map<Seq<char>, Seq<u8>>;

    /// Prepare the backing medium; idempotent.
    fn setup(&mut self) -> (r: Result<(), CipherError>)
        requires
            old(self).inv(),
        ensures
            final(self).inv(),
            final(self).contents() == old(self).contents(),
            r matches Err(e) ==> e is StorageError,
    ;

    /// Insert or overwrite, committed before returning.
    fn put(&mut self, id: &str, data: Vec<u8>) -> (r: Result<(), CipherError>)
        requires
            old(self).inv(),
        ensures
            final(self).inv(),
            match r {
                Ok(_) => final(self).contents() == old(self).contents().insert(id@, data@),
                Err(e) => e is StorageError && final(self).contents() == old(self).contents(),
            },
    ;

    /// The stored value, or a missing-value signal; never a partial read.
    fn get(&self, id: &str) -> (r: Result<Option<Vec<u8>>, CipherError>)
        requires
            self.inv(),
        ensures
            match r {
                Ok(Some(v)) => self.contents().contains_key(id@) && v@ == self.contents()[id@],
                Ok(None) => !self.contents().contains_key(id@),
                Err(e) => e is StorageError,
            },
    ;

    /// Remove; a missing id is not an error.
    fn delete(&mut self, id: &str) -> (r: Result<(), CipherError>)
        requires
            old(self).inv(),
        ensures
            final(self).inv(),
            match r {
                Ok(_) => final(self).contents() == old(self).contents().remove(id@),
                Err(e) => e is StorageError && final(self).contents() == old(self).contents(),
            },
    ;

    fn has(&self, id: &str) -> (r: Result<bool, CipherError>)
        requires
            self.inv(),
        ensures
            match r {
                Ok(b) => b == self.contents().contains_key(id@),
                Err(e) => e is StorageError,
            },
    ;
}

/// An always-available in-memory store; its operations never fail, and its
/// impl contracts say so beyond the trait's.
pub struct MemoryStore {
    data: KvMap,
}

impl MemoryStore {
    pub fn new() -> (r: MemoryStore)
        ensures
            r.inv(),
            r.contents() == Map::<Seq<char>, Seq<u8>>::empty(),
    {
        MemoryStore { data: KvMap::new() }
    }
}

impl Store for MemoryStore {
    closed spec fn inv(&self) -> bool {
        self.data.wf()
    }

    closed spec fn contents(&self) -> Map<Seq<char>, Seq<u8>> {
        self.data@
    }

    fn setup(&mut self) -> (r: Result<(), CipherError>)
        ensures
            r is Ok,
    {
        Ok(())
    }

    fn put(&mut self, id: &str, data: Vec<u8>) -> (r: Result<(), CipherError>)
        ensures
            r is Ok,
    {
        self.data.insert(id, data);
        Ok(())
    }

    fn get(&self, id: &str) -> (r: Result<Option<Vec<u8>>, CipherError>)
        ensures
            r is Ok,
    {
        match self.data.get(id) {
            Some(v) => Ok(Some(v.clone())),
            None => Ok(None),
        }
    }

    fn delete(&mut self, id: &str) -> (r: Result<(), CipherError>)
        ensures
            r is Ok,
    {
        let _ = self.data.remove(id);
        Ok(())
    }

    fn has(&self, id: &str) -> (r: Result<bool, CipherError>)
        ensures
            r is Ok,
    {
        Ok(self.data.contains(id))
    }
}

} // verus!
