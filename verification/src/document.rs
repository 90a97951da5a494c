use crate::ids::{is_uuid_v4_text, new_v4_text};
use crate::text::{lemma_lex_asymmetric, lemma_lex_total, lex_lt, str_lt};
use vstd::prelude::*;
use vstd::string::*;

verus! {

/// A shared document: its content, its version counter, and what the
/// conflict rule needs to settle concurrent writes.
#[derive(Debug)]
pub struct Document {
    pub doc_id: String,
    pub name: String,
    pub content: String,
    pub version: usize,
    /// The client whose write produced the current content.
    pub winning_client_id: String,
    /// The version on which the current content was written.
    pub last_base_version: usize,
}

/// What a `Document` holds, as mathematical values.
pub struct DocumentView {
    pub doc_id: Seq<char>,
    pub name: Seq<char>,
    pub content: Seq<char>,
    pub version: nat,
    pub winning_client_id: Seq<char>,
    pub last_base_version: nat,
}

impl View for Document {
    type V = DocumentView;

    open spec fn view(&self) -> DocumentView {
        DocumentView {
            doc_id: self.doc_id@,
            name: self.name@,
            content: self.content@,
            version: self.version as nat,
            winning_client_id: self.winning_client_id@,
            last_base_version: self.last_base_version as nat,
        }
    }
}

impl Clone for Document {
    fn clone(&self) -> (r: Self)
        ensures
            r == *self,
    {
        Document {
            doc_id: self.doc_id.clone(),
            name: self.name.clone(),
            content: self.content.clone(),
            version: self.version,
            winning_client_id: self.winning_client_id.clone(),
            last_base_version: self.last_base_version,
        }
    }
}

/// Whether a write of `client_id` based on `request_version` is taken: it is
/// when it is based on the current version, or when it competes with the
/// current content (same base) and the client id comes first in
/// lexicographic order.
pub open spec fn update_accepted(d: DocumentView, request_version: nat, client_id: Seq<char>) -> bool {
    ||| request_version == d.version
    ||| (request_version == d.last_base_version && lex_lt(client_id, d.winning_client_id))
}

/// The document after a taken write.
pub open spec fn modified(d: DocumentView, new_content: Seq<char>, client_id: Seq<char>) -> DocumentView {
    DocumentView {
        last_base_version: d.version,
        content: new_content,
        version: d.version + 1,
        winning_client_id: client_id,
        ..d
    }
}

/// The document after a write, taken or not.
pub open spec fn after_update(
    d: DocumentView,
    new_content: Seq<char>,
    request_version: nat,
    client_id: Seq<char>,
) -> DocumentView {
    if update_accepted(d, request_version, client_id) {
        modified(d, new_content, client_id)
    } else {
        d
    }
}

/// The answer to a write that competes with the current content and loses.
pub open spec fn low_priority_message() -> Seq<char> {
    "Conflit : Priorité lexicographique insuffisante."@
}

/// The answer to a write based on a version that is neither current nor the
/// base of the current content.
pub open spec fn stale_version_message() -> Seq<char> {
    "Conflit : Version obsolète."@
}

/// The error that a refused write gets.
pub open spec fn rejection_message(d: DocumentView, request_version: nat) -> Seq<char> {
    if request_version == d.last_base_version {
        low_priority_message()
    } else {
        stale_version_message()
    }
}

impl Document {
    /// A document built from its parts: empty content at version 0, written
    /// by `client_id`.
    pub fn with_id(doc_id: String, name: String, client_id: String) -> (d: Document)
        ensures
            d@ == (DocumentView {
                doc_id: doc_id@,
                name: name@,
                content: Seq::empty(),
                version: 0,
                winning_client_id: client_id@,
                last_base_version: 0,
            }),
    {
        Document {
            doc_id,
            name,
            content: String::new(),
            version: 0,
            winning_client_id: client_id,
            last_base_version: 0,
        }
    }

    /// A new empty document under a fresh random identifier.
    pub fn new(name: String, client_id: String) -> (d: Document)
        ensures
            is_uuid_v4_text(d.doc_id@),
            d.name@ == name@,
            d.content@ == Seq::<char>::empty(),
            d.version == 0,
            d.winning_client_id@ == client_id@,
            d.last_base_version == 0,
    {
        let doc_id = new_v4_text();
        Document::with_id(doc_id, name, client_id)
    }

    /// Whether a write of `client_id` based on `request_version` would be
    /// taken.
    pub fn accepts(&self, request_version: usize, client_id: &String) -> (r: bool)
        ensures
            r == update_accepted(self@, request_version as nat, client_id@),
    {
        request_version == self.version || (request_version == self.last_base_version && str_lt(
            client_id.as_str(),
            self.winning_client_id.as_str(),
        ))
    }

    /// Applies a write of `client_id` that was based on `request_version`.
    ///
    /// A write based on the current version is taken. A write based on the
    /// version under the current content competes with it and is taken when
    /// `client_id` comes before the current winner in lexicographic order.
    /// Any other write is refused. A taken write returns the new version.
    pub fn apply_update(&mut self, new_content: String, request_version: usize, client_id: String) -> (r: Result<usize, String>)
        requires
            update_accepted(old(self)@, request_version as nat, client_id@) ==> old(self).version < usize::MAX,
        ensures
            final(self)@ == after_update(old(self)@, new_content@, request_version as nat, client_id@),
            match r {
                Ok(v) => {
                    &&& update_accepted(old(self)@, request_version as nat, client_id@)
                    &&& v == final(self).version
                    &&& final(self)@ == modified(old(self)@, new_content@, client_id@)
                },
                Err(e) => {
                    &&& !update_accepted(old(self)@, request_version as nat, client_id@)
                    &&& *final(self) == *old(self)
                    &&& e@ == rejection_message(old(self)@, request_version as nat)
                },
            },
            request_version == old(self).version ==> r == Ok::<usize, String>(
                (old(self).version + 1) as usize,
            ),
            request_version != old(self).version && request_version != old(self).last_base_version
                ==> *final(self) == *old(self) && (r matches Err(e) && e@ == stale_version_message()),
            request_version != old(self).version && request_version == old(self).last_base_version
                ==> (r is Ok <==> lex_lt(client_id@, old(self).winning_client_id@)),
            r is Ok ==> {
                &&& final(self).content@ == new_content@
                &&& final(self).winning_client_id@ == client_id@
                &&& final(self).version == old(self).version + 1
                &&& final(self).last_base_version == old(self).version
                &&& final(self).doc_id@ == old(self).doc_id@
                &&& final(self).name@ == old(self).name@
            },
    {
        proof {
            lemma_write_rule(old(self)@, new_content@, request_version as nat, client_id@);
        }
        if request_version == self.version {
            self.execute_modification(new_content, client_id);
            return Ok(self.version);
        }
        if request_version == self.last_base_version {
            if str_lt(client_id.as_str(), self.winning_client_id.as_str()) {
                self.execute_modification(new_content, client_id);
                return Ok(self.version);
            } else {
                return Err(String::from_str("Conflit : Priorité lexicographique insuffisante."));
            }
        }
        Err(String::from_str("Conflit : Version obsolète."))
    }

    fn execute_modification(&mut self, new_content: String, client_id: String)
        requires
            old(self).version < usize::MAX,
        ensures
            final(self)@ == modified(old(self)@, new_content@, client_id@),
    {
        self.last_base_version = self.version;
        self.content = new_content;
        self.version += 1;
        self.winning_client_id = client_id;
    }
}


/// Two writes of different clients, both based on the current version, leave
/// the same content and the same winner whichever of them arrives first: the
/// content of the client whose id comes first in lexicographic order.
pub proof fn lemma_concurrent_writes_converge(
    d: DocumentView,
    a_content: Seq<char>,
    a_client: Seq<char>,
    b_content: Seq<char>,
    b_client: Seq<char>,
)
    requires
        a_client != b_client,
    ensures
        ({
            let ab = after_update(
                after_update(d, a_content, d.version, a_client),
                b_content,
                d.version,
                b_client,
            );
            let ba = after_update(
                after_update(d, b_content, d.version, b_client),
                a_content,
                d.version,
                a_client,
            );
            &&& ab.content == ba.content
            &&& ab.winning_client_id == ba.winning_client_id
            &&& ab.winning_client_id == (if lex_lt(a_client, b_client) {
                a_client
            } else {
                b_client
            })
            &&& ab.content == (if lex_lt(a_client, b_client) {
                a_content
            } else {
                b_content
            })
        }),
{
    lemma_lex_total(a_client, b_client);
    lemma_lex_asymmetric(a_client, b_client);
}

/// A write based on the current version is always taken, whatever client
/// sends it, and moves the document one version on.
pub proof fn lemma_write_on_current_version_is_taken(
    d: DocumentView,
    new_content: Seq<char>,
    client_id: Seq<char>,
)
    ensures
        update_accepted(d, d.version, client_id),
        after_update(d, new_content, d.version, client_id).version == d.version + 1,
        after_update(d, new_content, d.version, client_id).content == new_content,
{
}

/// The version of a document never goes down, and goes up by one exactly
/// when a write is taken.
pub proof fn lemma_version_monotonic(
    d: DocumentView,
    new_content: Seq<char>,
    request_version: nat,
    client_id: Seq<char>,
)
    ensures
        after_update(d, new_content, request_version, client_id).version == if update_accepted(
            d,
            request_version,
            client_id,
        ) {
            d.version + 1
        } else {
            d.version
        },
{
}


/// The write rule, by versions: a write based on the current version is
/// taken; one based on the version under the current content is taken
/// exactly when its client comes first in lexicographic order; any other
/// write is refused and leaves the document as it was. A taken write moves
/// the version on by one, takes the new content and its client as winner,
/// and keeps the old version as the base; nothing else changes.
pub proof fn lemma_write_rule(
    d: DocumentView,
    new_content: Seq<char>,
    request_version: nat,
    client_id: Seq<char>,
)
    ensures
        request_version == d.version ==> update_accepted(d, request_version, client_id),
        request_version != d.version && request_version == d.last_base_version ==> (
        update_accepted(d, request_version, client_id) <==> lex_lt(client_id, d.winning_client_id)),
        request_version != d.version && request_version != d.last_base_version ==> {
            &&& !update_accepted(d, request_version, client_id)
            &&& after_update(d, new_content, request_version, client_id) == d
            &&& rejection_message(d, request_version) == stale_version_message()
        },
        request_version != d.version && request_version == d.last_base_version && !lex_lt(
            client_id,
            d.winning_client_id,
        ) ==> rejection_message(d, request_version) == low_priority_message(),
        !update_accepted(d, request_version, client_id) ==> after_update(
            d,
            new_content,
            request_version,
            client_id,
        ) == d,
        update_accepted(d, request_version, client_id) ==> {
            let n = after_update(d, new_content, request_version, client_id);
            &&& n.doc_id == d.doc_id
            &&& n.name == d.name
            &&& n.content == new_content
            &&& n.version == d.version + 1
            &&& n.winning_client_id == client_id
            &&& n.last_base_version == d.version
        },
{
}

} // verus!
