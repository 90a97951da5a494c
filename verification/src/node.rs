use crate::store::KeyedStore;
use crate::text::{
    before_first_dot, has_dot, lemma_lex_asymmetric, lemma_lex_total, lex_lt, str_lt,
    text_before_first_dot,
};
use vstd::prelude::*;
use vstd::string::*;

verus! {

/// A message on the shared documents channel.
#[derive(Debug)]
pub enum DocMessage {
    /// A client creates a document.
    Create { client_id: String, doc_id: String, content: String },
    /// A client writes `content` as `new_version`, based on `old_version`.
    Update { client_id: String, old_version: String, new_version: String, content: String },
    /// The storage node announces the content of a version.
    Notify { doc_id: String, content: String },
}

/// What the storage node keeps of a document.
#[derive(Debug)]
pub struct DocState {
    pub current_version: String,
    pub content: String,
    /// The client whose write produced the current content.
    pub winning_client: String,
    /// The version on which the current content was written.
    pub last_base_version: String,
}

/// What a `DocState` holds, as mathematical values.
pub struct DocStateView {
    pub current_version: Seq<char>,
    pub content: Seq<char>,
    pub winning_client: Seq<char>,
    pub last_base_version: Seq<char>,
}

impl View for DocState {
    type V = DocStateView;

    open spec fn view(&self) -> DocStateView {
        DocStateView {
            current_version: self.current_version@,
            content: self.content@,
            winning_client: self.winning_client@,
            last_base_version: self.last_base_version@,
        }
    }
}

/// What the storage node made of a message.
#[derive(Debug)]
pub enum NodeOutcome {
    /// The document was stored; `notification` announces it.
    Created { notification: DocMessage },
    /// The write was based on the current version and was taken.
    Advanced { notification: DocMessage },
    /// The write competed with the current content, came from a client that
    /// ranks first, and replaced the content of `previous_winner`.
    Overridden { notification: DocMessage, previous_winner: String },
    /// The write competed with the current content and lost to `winner`.
    LostPriority { winner: String },
    /// The write was based on an outdated version; `current_version` is the
    /// version of the document.
    Outdated { current_version: String },
    /// No document is stored under `base_doc_id`.
    UnknownDocument { base_doc_id: String },
    /// The message is not addressed to the storage node.
    Ignored,
}

/// How the storage node judges a write.
#[derive(Debug)]
pub enum Verdict {
    UnknownDocument,
    Advanced,
    Overridden,
    LostPriority,
    Outdated,
}

/// The state of a document just created.
pub open spec fn created_state(client_id: Seq<char>, doc_id: Seq<char>, content: Seq<char>) -> DocStateView {
    DocStateView {
        current_version: doc_id,
        content,
        winning_client: client_id,
        last_base_version: Seq::empty(),
    }
}

/// The verdict on a write of `client_id` based on `old_version`. The document
/// is found under the part of `old_version` before its first `.`.
pub open spec fn update_verdict(
    m: Map<Seq<char>, DocStateView>,
    client_id: Seq<char>,
    old_version: Seq<char>,
) -> Verdict {
    let key = before_first_dot(old_version);
    if !m.contains_key(key) {
        Verdict::UnknownDocument
    } else if old_version == m[key].current_version {
        Verdict::Advanced
    } else if old_version == m[key].last_base_version {
        if lex_lt(client_id, m[key].winning_client) {
            Verdict::Overridden
        } else {
            Verdict::LostPriority
        }
    } else {
        Verdict::Outdated
    }
}

/// The documents after a write.
pub open spec fn update_step(
    m: Map<Seq<char>, DocStateView>,
    client_id: Seq<char>,
    old_version: Seq<char>,
    new_version: Seq<char>,
    content: Seq<char>,
) -> Map<Seq<char>, DocStateView> {
    let key = before_first_dot(old_version);
    match update_verdict(m, client_id, old_version) {
        Verdict::Advanced => m.insert(
            key,
            DocStateView {
                last_base_version: m[key].current_version,
                current_version: new_version,
                content,
                winning_client: client_id,
            },
        ),
        Verdict::Overridden => m.insert(
            key,
            DocStateView {
                current_version: new_version,
                content,
                winning_client: client_id,
                ..m[key]
            },
        ),
        _ => m,
    }
}

/// The storage node: the documents it keeps, under their ids.
pub struct StorageNode {
    documents: KeyedStore<DocState>,
}

impl View for StorageNode {
    type V = Map<Seq<char>, DocStateView>;

    closed spec fn view(&self) -> Map<Seq<char>, DocStateView> {
        self.documents@.map_values(|s: DocState| s@)
    }
}

impl StorageNode {
    pub closed spec fn wf(&self) -> bool {
        self.documents.wf()
    }

    /// A node that keeps no document.
    pub fn new() -> (n: StorageNode)
        ensures
            n.wf(),
            n@ == Map::<Seq<char>, DocStateView>::empty(),
    {
        let n = StorageNode { documents: KeyedStore::new() };
        assert(n@ =~= Map::<Seq<char>, DocStateView>::empty());
        n
    }

    /// The node keeps finitely many documents.
    pub proof fn lemma_finite(&self)
        requires
            self.wf(),
        ensures
            self@.dom().finite(),
    {
        self.documents.lemma_entries_make_map();
        assert(self@.dom() =~= self.documents@.dom());
    }

    fn put(&mut self, key: String, state: DocState)
        requires
            old(self).wf(),
        ensures
            final(self).wf(),
            final(self)@ == old(self)@.insert(key@, state@),
    {
        let ghost k = key@;
        let ghost v = state@;
        self.documents.insert(key, state);
        assert(self@ =~= old(self)@.insert(k, v));
    }

    /// Handles a message of the documents channel: stores a created
    /// document, judges a write, and says what to announce.
    pub fn handle(&mut self, msg: DocMessage) -> (o: NodeOutcome)
        requires
            old(self).wf(),
        ensures
            final(self).wf(),
            match msg {
                DocMessage::Create { client_id, doc_id, content } => {
                    &&& final(self)@ == old(self)@.insert(
                        doc_id@,
                        created_state(client_id@, doc_id@, content@),
                    )
                    &&& o matches NodeOutcome::Created {
                        notification: DocMessage::Notify { doc_id: nd, content: nc },
                    } && nd@ == doc_id@ && nc@ == content@
                },
                DocMessage::Update { client_id, old_version, new_version, content } => {
                    let key = before_first_dot(old_version@);
                    &&& final(self)@ == update_step(
                        old(self)@,
                        client_id@,
                        old_version@,
                        new_version@,
                        content@,
                    )
                    &&& (old(self)@.contains_key(key) && old_version@ != old(self)@[key].current_version
                        && old_version@ != old(self)@[key].last_base_version) ==> {
                        &&& final(self)@ == old(self)@
                        &&& o matches NodeOutcome::Outdated { current_version }
                            && current_version@ == old(self)@[key].current_version
                    }
                    &&& (old(self)@.contains_key(key) && old_version@ == old(self)@[key].current_version)
                        ==> o is Advanced && final(self)@[key] == (DocStateView {
                        current_version: new_version@,
                        content: content@,
                        winning_client: client_id@,
                        last_base_version: old_version@,
                    })
                    &&& !old(self)@.contains_key(key) ==> final(self)@ == old(self)@
                    &&& !(o is Advanced || o is Overridden) ==> final(self)@ == old(self)@
                    &&& match update_verdict(old(self)@, client_id@, old_version@) {
                        Verdict::UnknownDocument => o matches NodeOutcome::UnknownDocument {
                            base_doc_id,
                        } && base_doc_id@ == key,
                        Verdict::Advanced => o matches NodeOutcome::Advanced {
                            notification: DocMessage::Notify { doc_id: nd, content: nc },
                        } && nd@ == new_version@ && nc@ == content@,
                        Verdict::Overridden => o matches NodeOutcome::Overridden {
                            notification: DocMessage::Notify { doc_id: nd, content: nc },
                            previous_winner,
                        } && nd@ == new_version@ && nc@ == content@ && previous_winner@ == old(
                            self,
                        )@[key].winning_client,
                        Verdict::LostPriority => o matches NodeOutcome::LostPriority { winner }
                            && winner@ == old(self)@[key].winning_client,
                        Verdict::Outdated => o matches NodeOutcome::Outdated { current_version }
                            && current_version@ == old(self)@[key].current_version,
                    }
                },
                DocMessage::Notify { .. } => {
                    &&& final(self)@ == old(self)@
                    &&& o matches NodeOutcome::Ignored
                },
            },
    {
        match msg {
            DocMessage::Create { client_id, doc_id, content } => {
                let state = DocState {
                    current_version: doc_id.clone(),
                    content: content.clone(),
                    winning_client: client_id,
                    last_base_version: String::new(),
                };
                self.put(doc_id.clone(), state);
                NodeOutcome::Created { notification: DocMessage::Notify { doc_id, content } }
            },
            DocMessage::Update { client_id, old_version, new_version, content } => {
                proof {
                    lemma_write_judgement(
                        old(self)@,
                        client_id@,
                        old_version@,
                        new_version@,
                        content@,
                    );
                }
                let key = text_before_first_dot(old_version.as_str());
                let state = match self.documents.get(&key) {
                    Some(s) => s,
                    None => {
                        return NodeOutcome::UnknownDocument { base_doc_id: key };
                    },
                };
                proof {
                    assert(old(self)@[key@] == state@);
                }
                if old_version == state.current_version {
                    let next = DocState {
                        current_version: new_version.clone(),
                        content: content.clone(),
                        winning_client: client_id,
                        last_base_version: state.current_version.clone(),
                    };
                    self.put(key, next);
                    NodeOutcome::Advanced {
                        notification: DocMessage::Notify { doc_id: new_version, content },
                    }
                } else if old_version == state.last_base_version {
                    if str_lt(client_id.as_str(), state.winning_client.as_str()) {
                        let previous_winner = state.winning_client.clone();
                        let next = DocState {
                            current_version: new_version.clone(),
                            content: content.clone(),
                            winning_client: client_id,
                            last_base_version: state.last_base_version.clone(),
                        };
                        self.put(key, next);
                        NodeOutcome::Overridden {
                            notification: DocMessage::Notify { doc_id: new_version, content },
                            previous_winner,
                        }
                    } else {
                        NodeOutcome::LostPriority { winner: state.winning_client.clone() }
                    }
                } else {
                    NodeOutcome::Outdated { current_version: state.current_version.clone() }
                }
            },
            DocMessage::Notify { .. } => NodeOutcome::Ignored,
        }
    }
}


/// Two writes of different clients, both based on the current version of a
/// document and both naming a new version, leave the node in the same state
/// whichever arrives first: the client that ranks first in lexicographic
/// order wins, and the base of the content stays the version both started
/// from.
pub proof fn lemma_concurrent_writes_commute(
    m: Map<Seq<char>, DocStateView>,
    key: Seq<char>,
    a_client: Seq<char>,
    a_version: Seq<char>,
    a_content: Seq<char>,
    b_client: Seq<char>,
    b_version: Seq<char>,
    b_content: Seq<char>,
)
    requires
        m.contains_key(key),
        before_first_dot(m[key].current_version) == key,
        a_client != b_client,
        a_version != m[key].current_version,
        b_version != m[key].current_version,
    ensures
        ({
            let base = m[key].current_version;
            let ab = update_step(
                update_step(m, a_client, base, a_version, a_content),
                b_client,
                base,
                b_version,
                b_content,
            );
            let ba = update_step(
                update_step(m, b_client, base, b_version, b_content),
                a_client,
                base,
                a_version,
                a_content,
            );
            &&& ab == ba
            &&& ab[key] == (if lex_lt(a_client, b_client) {
                DocStateView {
                    current_version: a_version,
                    content: a_content,
                    winning_client: a_client,
                    last_base_version: base,
                }
            } else {
                DocStateView {
                    current_version: b_version,
                    content: b_content,
                    winning_client: b_client,
                    last_base_version: base,
                }
            })
        }),
{
    lemma_lex_total(a_client, b_client);
    lemma_lex_asymmetric(a_client, b_client);
    let base = m[key].current_version;
    let ab = update_step(
        update_step(m, a_client, base, a_version, a_content),
        b_client,
        base,
        b_version,
        b_content,
    );
    let ba = update_step(
        update_step(m, b_client, base, b_version, b_content),
        a_client,
        base,
        a_version,
        a_content,
    );
    assert(ab =~= ba);
}

/// Once a document is created under an id without a `.`, a write based on
/// that id is taken.
pub proof fn lemma_write_after_create_is_taken(
    m: Map<Seq<char>, DocStateView>,
    creator: Seq<char>,
    doc_id: Seq<char>,
    content: Seq<char>,
    writer: Seq<char>,
)
    requires
        !has_dot(doc_id),
    ensures
        update_verdict(
            m.insert(doc_id, created_state(creator, doc_id, content)),
            writer,
            doc_id,
        ) == Verdict::Advanced,
{
    assert(before_first_dot(doc_id) =~= doc_id);
}


/// A write never removes a document, changes at most the document it is
/// based on, and keeps that document's id as the base of its versions.
pub proof fn lemma_write_keeps_documents(
    m: Map<Seq<char>, DocStateView>,
    client_id: Seq<char>,
    old_version: Seq<char>,
    new_version: Seq<char>,
    content: Seq<char>,
)
    ensures
        update_step(m, client_id, old_version, new_version, content).dom() == m.dom(),
        forall|k: Seq<char>|
            #[trigger] m.contains_key(k) && k != before_first_dot(old_version) ==> update_step(
                m,
                client_id,
                old_version,
                new_version,
                content,
            )[k] == m[k],
{
    let key = before_first_dot(old_version);
    if m.contains_key(key) {
        assert(m.dom().insert(key) =~= m.dom());
    }
}


/// How the storage node judges a write, by versions. The document is the
/// one named by the part of the base version before its first dot. A write
/// based on its current version is taken: the new version, content and
/// client replace the old, and the old version becomes the base. A write
/// based on the version under the current content is taken exactly when
/// its client comes first in lexicographic order, and then keeps that
/// base. Any other write, and a write on a document the node does not
/// keep, changes nothing; so does a write that is not taken. A taken write
/// changes only its own document.
pub proof fn lemma_write_judgement(
    m: Map<Seq<char>, DocStateView>,
    client_id: Seq<char>,
    old_version: Seq<char>,
    new_version: Seq<char>,
    content: Seq<char>,
)
    ensures
        ({
            let key = before_first_dot(old_version);
            let after = update_step(m, client_id, old_version, new_version, content);
            &&& !m.contains_key(key) ==> after == m && update_verdict(m, client_id, old_version)
                == Verdict::UnknownDocument
            &&& m.contains_key(key) && old_version != m[key].current_version && old_version
                != m[key].last_base_version ==> after == m && update_verdict(
                m,
                client_id,
                old_version,
            ) == Verdict::Outdated
            &&& m.contains_key(key) && old_version != m[key].current_version && old_version
                == m[key].last_base_version && !lex_lt(client_id, m[key].winning_client)
                ==> after == m && update_verdict(m, client_id, old_version) == Verdict::LostPriority
            &&& m.contains_key(key) && old_version == m[key].current_version ==> {
                &&& update_verdict(m, client_id, old_version) == Verdict::Advanced
                &&& after == m.insert(
                    key,
                    DocStateView {
                        current_version: new_version,
                        content,
                        winning_client: client_id,
                        last_base_version: old_version,
                    },
                )
            }
            &&& m.contains_key(key) && old_version != m[key].current_version && old_version
                == m[key].last_base_version && lex_lt(client_id, m[key].winning_client) ==> {
                &&& update_verdict(m, client_id, old_version) == Verdict::Overridden
                &&& after == m.insert(
                    key,
                    DocStateView {
                        current_version: new_version,
                        content,
                        winning_client: client_id,
                        last_base_version: m[key].last_base_version,
                    },
                )
            }
            &&& after != m ==> m.contains_key(key) && after[key].current_version == new_version
                && after[key].content == content && after[key].winning_client == client_id
        }),
{
}

/// A refused write leaves no trace: any write that follows it has the same
/// effect as if the refused one had never come.
pub proof fn lemma_refused_write_leaves_no_trace(
    m: Map<Seq<char>, DocStateView>,
    client_id: Seq<char>,
    old_version: Seq<char>,
    new_version: Seq<char>,
    content: Seq<char>,
    next_client: Seq<char>,
    next_old: Seq<char>,
    next_new: Seq<char>,
    next_content: Seq<char>,
)
    requires
        !(update_verdict(m, client_id, old_version) is Advanced),
        !(update_verdict(m, client_id, old_version) is Overridden),
    ensures
        update_step(
            update_step(m, client_id, old_version, new_version, content),
            next_client,
            next_old,
            next_new,
            next_content,
        ) == update_step(m, next_client, next_old, next_new, next_content),
{
    lemma_write_judgement(m, client_id, old_version, new_version, content);
}

} // verus!
