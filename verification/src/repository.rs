use crate::document::{
    after_update, modified, rejection_message, update_accepted, Document, DocumentView,
};
use crate::ids::{is_uuid_v4_text, new_v4_text};
use crate::store::{is_listing, sorted_by_name, KeyedStore, Named};
use crate::text::{decimal, push_decimal};
use vstd::prelude::*;
use vstd::string::*;

verus! {

impl Named for Document {
    open spec fn name_of(&self) -> Seq<char> {
        self.name@
    }

    fn name_text(&self) -> (r: &String) {
        &self.name
    }
}

/// The documents of a node, by key. A document lives under its own id; the
/// copies that record past versions live under keys of their own.
pub struct Repository {
    docs: KeyedStore<Document>,
}

impl View for Repository {
    type V = Map<Seq<char>, Document>;

    closed spec fn view(&self) -> Map<Seq<char>, Document> {
        self.docs@
    }
}

/// The answer to a write on a key that holds no document.
pub open spec fn missing_document_message() -> Seq<char> {
    "Document introuvable"@
}

/// The name of the copy that records version `version` of a document named
/// `name`: a scroll, a space, the name, a dot and the version.
pub open spec fn history_name(name: Seq<char>, version: nat) -> Seq<char> {
    seq!['📜', ' '] + name + seq!['.'] + decimal(version)
}

/// The copy of `d` that records its current version.
pub open spec fn history_entry(d: DocumentView) -> DocumentView {
    DocumentView { name: history_name(d.name, d.version), ..d }
}

/// The topic under which a document is published.
pub open spec fn topic_of(doc_id: Seq<char>) -> Seq<char> {
    seq!['d', 'o', 'c', 's', '/'] + doc_id
}

/// `after` is `before` with `d` under `doc_id` and, under `history_key`, the
/// copy of `d` that records its version.
pub open spec fn stored_with_history(
    before: Map<Seq<char>, Document>,
    after: Map<Seq<char>, Document>,
    doc_id: Seq<char>,
    d: Document,
    history_key: Seq<char>,
) -> bool {
    &&& after.dom() == before.dom().insert(doc_id).insert(history_key)
    &&& after[history_key]@ == history_entry(d@)
    &&& forall|k: Seq<char>|
        #[trigger] after.contains_key(k) && k != history_key ==> after[k] == before.insert(
            doc_id,
            d,
        )[k]
}

/// `name` with the version recorded: the text of `history_name`.
pub fn history_name_text(name: &String, version: usize) -> (s: String)
    ensures
        s@ == history_name(name@, version as nat),
{
    proof {
        reveal_strlit("📜 ");
        reveal_strlit(".");
    }
    let mut s = String::from_str("📜 ");
    s.append(name.as_str());
    s.append(".");
    push_decimal(&mut s, version);
    assert(s@ =~= history_name(name@, version as nat));
    s
}

/// The topic under which the document `doc_id` is published.
pub fn publication_topic(doc_id: &String) -> (t: String)
    ensures
        t@ == topic_of(doc_id@),
{
    proof {
        reveal_strlit("docs/");
    }
    let mut t = String::from_str("docs/");
    t.append(doc_id.as_str());
    assert(t@ =~= topic_of(doc_id@));
    t
}

impl Repository {
    pub closed spec fn wf(&self) -> bool {
        self.docs.wf()
    }

    /// An empty repository.
    pub fn new() -> (r: Repository)
        ensures
            r.wf(),
            r@ == Map::<Seq<char>, Document>::empty(),
    {
        Repository { docs: KeyedStore::new() }
    }

    /// The repository holds finitely many documents.
    pub proof fn lemma_finite(&self)
        requires
            self.wf(),
        ensures
            self@.dom().finite(),
    {
        self.docs.lemma_entries_make_map();
    }

    /// Every document, ordered by name.
    pub fn get_all_documents(&self) -> (r: Vec<Document>)
        requires
            self.wf(),
        ensures
            is_listing(self@, r@),
            sorted_by_name(r@),
    {
        let p = self.docs.order_by_name();
        let mut r: Vec<Document> = Vec::new();
        let mut k: usize = 0;
        while k < p.len()
            invariant
                self.wf(),
                k <= p@.len(),
                r@.len() == k,
                crate::store::is_permutation(p@, self.docs.entries().len()),
                forall|j: int| 0 <= j < k ==> r@[j] == self.docs.entries()[p@[j] as int].1,
            decreases p@.len() - k,
        {
            r.push(self.docs.value_at(p[k]).clone());
            k += 1;
        }
        proof {
            self.docs.lemma_listing(p@, r@);
        }
        r
    }

    /// The document under `doc_id`, if there is one.
    pub fn get_single_document(&self, doc_id: &String) -> (r: Option<Document>)
        requires
            self.wf(),
        ensures
            r == (if self@.contains_key(doc_id@) {
                Some(self@[doc_id@])
            } else {
                None
            }),
    {
        match self.docs.get(doc_id) {
            Some(d) => Some(d.clone()),
            None => None,
        }
    }

    /// Puts `doc` under `key`, in place of what was there.
    pub fn insert(&mut self, key: String, doc: Document)
        requires
            old(self).wf(),
        ensures
            final(self).wf(),
            final(self)@ == old(self)@.insert(key@, doc),
    {
        self.docs.insert(key, doc);
    }

    /// Creates an empty document named `name`, written by `client_id`, under
    /// a fresh random id, and stores it under that id.
    pub fn create_document(&mut self, name: String, client_id: String) -> (d: Document)
        requires
            old(self).wf(),
        ensures
            final(self).wf(),
            final(self)@ == old(self)@.insert(d.doc_id@, d),
            final(self)@.dom().finite(),
            !old(self)@.contains_key(d.doc_id@) ==> final(self)@.dom().len() == old(
                self,
            )@.dom().len() + 1,
            old(self)@.contains_key(d.doc_id@) ==> final(self)@.dom().len() == old(
                self,
            )@.dom().len(),
            is_uuid_v4_text(d.doc_id@),
            d.name@ == name@,
            d.content@ == Seq::<char>::empty(),
            d.version == 0,
            d.winning_client_id@ == client_id@,
            d.last_base_version == 0,
    {
        proof {
            self.lemma_finite();
        }
        let d = Document::new(name, client_id);
        self.docs.insert(d.doc_id.clone(), d.clone());
        proof {
            self.lemma_finite();
            if old(self)@.contains_key(d.doc_id@) {
                assert(self@.dom() =~= old(self)@.dom());
            }
        }
        d
    }

    /// Applies a write to the document under `doc_id` and, when it is taken,
    /// keeps a copy of the new version under a fresh random key.
    pub fn update_document(
        &mut self,
        doc_id: String,
        content: String,
        version: usize,
        client_id: String,
    ) -> (r: Result<Document, String>)
        requires
            old(self).wf(),
            old(self)@.contains_key(doc_id@) && update_accepted(
                old(self)@[doc_id@]@,
                version as nat,
                client_id@,
            ) ==> old(self)@[doc_id@].version < usize::MAX,
        ensures
            final(self).wf(),
            match r {
                Ok(d) => {
                    &&& old(self)@.contains_key(doc_id@)
                    &&& update_accepted(old(self)@[doc_id@]@, version as nat, client_id@)
                    &&& d@ == modified(old(self)@[doc_id@]@, content@, client_id@)
                    &&& final(self)@.dom().finite()
                    &&& exists|history_key: Seq<char>|
                        is_uuid_v4_text(history_key) && stored_with_history(
                            old(self)@,
                            final(self)@,
                            doc_id@,
                            d,
                            history_key,
                        ) && (if old(self)@.contains_key(history_key) {
                            final(self)@.dom().len() == old(self)@.dom().len()
                        } else {
                            final(self)@.dom().len() == old(self)@.dom().len() + 1
                        })
                },
                Err(e) => {
                    &&& final(self)@ == old(self)@
                    &&& if old(self)@.contains_key(doc_id@) {
                        &&& !update_accepted(old(self)@[doc_id@]@, version as nat, client_id@)
                        &&& e@ == rejection_message(old(self)@[doc_id@]@, version as nat)
                    } else {
                        e@ == missing_document_message()
                    }
                },
            },
    {
        let mut d = match self.docs.get(&doc_id) {
            Some(d) => d.clone(),
            None => {
                return Err(String::from_str("Document introuvable"));
            },
        };
        match d.apply_update(content, version, client_id) {
            Ok(_) => {},
            Err(e) => {
                return Err(e);
            },
        }
        let ghost before = self@;
        self.docs.insert(doc_id.clone(), d.clone());
        let mut history = d.clone();
        history.name = history_name_text(&d.name, d.version);
        let history_key = new_v4_text();
        let ghost hk = history_key@;
        self.docs.insert(history_key, history);
        assert(self@.dom() =~= before.dom().insert(doc_id@).insert(hk));
        assert(before == old(self)@);
        assert(before.dom().insert(doc_id@) =~= before.dom());
        proof {
            self.lemma_finite();
            old(self).lemma_finite();
            if before.contains_key(hk) {
                assert(self@.dom() =~= before.dom());
            } else {
                assert(self@.dom() =~= before.dom().insert(hk));
            }
        }
        Ok(d)
    }

    /// Stores a document received from another node under its own id.
    pub fn apply_remote_document(&mut self, doc: Document)
        requires
            old(self).wf(),
        ensures
            final(self).wf(),
            final(self)@ == old(self)@.insert(doc.doc_id@, doc),
    {
        self.docs.insert(doc.doc_id.clone(), doc);
    }
}


/// What a write stores is what a read gives back, and the other entries stay
/// as they were.
pub proof fn lemma_read_after_write(m: Map<Seq<char>, Document>, key: Seq<char>, d: Document)
    ensures
        m.insert(key, d).contains_key(key),
        m.insert(key, d)[key] == d,
        forall|k: Seq<char>| k != key ==> (#[trigger] m.insert(key, d).contains_key(k)
            <==> m.contains_key(k)),
        forall|k: Seq<char>| k != key && m.contains_key(k) ==> #[trigger] m.insert(key, d)[k] == m[k],
{
}

/// A taken write loses nothing: every key stays, the document reads back as
/// written unless the history key fell on its own id, and the history entry
/// records the version under its own name.
pub proof fn lemma_update_keeps_everything(
    before: Map<Seq<char>, Document>,
    after: Map<Seq<char>, Document>,
    doc_id: Seq<char>,
    d: Document,
    history_key: Seq<char>,
)
    requires
        stored_with_history(before, after, doc_id, d, history_key),
    ensures
        forall|k: Seq<char>| before.contains_key(k) ==> #[trigger] after.contains_key(k),
        after.contains_key(doc_id),
        history_key != doc_id ==> after[doc_id] == d,
        after[history_key]@.name == history_name(d@.name, d@.version),
        after[history_key]@.content == d@.content,
        after[history_key]@.version == d@.version,
{
    assert(after.dom().contains(doc_id));
    assert forall|k: Seq<char>| before.contains_key(k) implies #[trigger] after.contains_key(k) by {
        assert(after.dom().contains(k));
    }
    if history_key != doc_id {
        assert(after.contains_key(doc_id));
    }
}


/// Storing a document that is already stored under its own id, as when a
/// node receives the echo of its own publication, changes nothing.
pub proof fn lemma_echo_changes_nothing(m: Map<Seq<char>, Document>, d: Document)
    requires
        m.contains_key(d.doc_id@),
        m[d.doc_id@] == d,
    ensures
        m.insert(d.doc_id@, d) == m,
{
    assert(m.insert(d.doc_id@, d) =~= m);
}

/// A document just created, then received back under its id, leaves the
/// repository as the creation left it.
pub proof fn lemma_created_echo_changes_nothing(m: Map<Seq<char>, Document>, d: Document)
    ensures
        m.insert(d.doc_id@, d).insert(d.doc_id@, d) == m.insert(d.doc_id@, d),
{
    lemma_echo_changes_nothing(m.insert(d.doc_id@, d), d);
}

} // verus!
