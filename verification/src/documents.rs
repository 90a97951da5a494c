//! The simpler document model: a write is taken only when it is based on the
//! current version.
use crate::ids::{is_uuid_v4_text, new_v4_text};
use crate::store::KeyedStore;
use vstd::prelude::*;
use vstd::string::*;

verus! {

/// A document guarded by its version alone.
#[derive(Debug)]
pub struct Document {
    pub id: String,
    pub name: String,
    pub content: String,
    pub version: usize,
}

/// The answer to a write based on another version than the current one.
pub open spec fn version_conflict_message() -> Seq<char> {
    "Conflit de version : Le document a été modifié par un autre utilisateur."@
}

impl Document {
    /// A new empty document at version 0 under a fresh random id.
    pub fn new(name: String) -> (d: Document)
        ensures
            is_uuid_v4_text(d.id@),
            d.name@ == name@,
            d.content@ == Seq::<char>::empty(),
            d.version == 0,
    {
        Document::with_id(new_v4_text(), name)
    }

    /// A new empty document at version 0 under `id`.
    pub fn with_id(id: String, name: String) -> (d: Document)
        ensures
            d.id@ == id@,
            d.name@ == name@,
            d.content@ == Seq::<char>::empty(),
            d.version == 0,
    {
        Document { id, name, content: String::new(), version: 0 }
    }

    /// Replaces the content when `base_version` is the current version and
    /// returns the new version; refuses any other write.
    pub fn update(&mut self, new_content: String, base_version: usize) -> (r: Result<usize, String>)
        requires
            base_version == old(self).version ==> old(self).version < usize::MAX,
        ensures
            match r {
                Ok(v) => {
                    &&& base_version == old(self).version
                    &&& final(self).id == old(self).id
                    &&& final(self).name == old(self).name
                    &&& final(self).content == new_content
                    &&& final(self).version == old(self).version + 1
                    &&& v == final(self).version
                },
                Err(e) => {
                    &&& base_version != old(self).version
                    &&& *final(self) == *old(self)
                    &&& e@ == version_conflict_message()
                },
            },
    {
        if base_version != self.version {
            return Err(
                String::from_str(
                    "Conflit de version : Le document a été modifié par un autre utilisateur.",
                ),
            );
        }
        self.content = new_content;
        self.version += 1;
        Ok(self.version)
    }
}

/// The documents of this model, by id.
pub struct Repository {
    docs: KeyedStore<Document>,
}

impl View for Repository {
    type V = Map<Seq<char>, Document>;

    closed spec fn view(&self) -> Map<Seq<char>, Document> {
        self.docs@
    }
}

impl Repository {
    pub closed spec fn wf(&self) -> bool {
        self.docs.wf()
    }

    /// An empty repository.
    pub fn new() -> (r: Repository)
        ensures
            r.wf(),
            r@ == Map::<Seq<char>, Document>::empty(),
    {
        Repository { docs: KeyedStore::new() }
    }

    /// The repository holds finitely many documents.
    pub proof fn lemma_finite(&self)
        requires
            self.wf(),
        ensures
            self@.dom().finite(),
    {
        self.docs.lemma_entries_make_map();
    }
}

} // verus!
