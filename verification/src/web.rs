use crate::node::DocMessage;
use crate::store::{is_permutation, lemma_distinct_keys_cover, KeyedStore, Named};
use crate::text::{
    after_first_dot, before_first_dot, decimal, find_first_dot, has_dot, lemma_first_dot_at,
    lemma_parse_decimal, lex_lt, parse_decimal, parse_usize, push_decimal, text_after_first_dot,
    text_before_first_dot,
};
use vstd::prelude::*;
use vstd::string::*;

verus! {

/// What the web interface keeps of a document.
#[derive(Debug)]
pub struct LocalDoc {
    pub doc_id: String,
    pub name: String,
    pub content: String,
    pub version: usize,
}

/// What a `LocalDoc` holds, as mathematical values.
pub struct LocalDocView {
    pub doc_id: Seq<char>,
    pub name: Seq<char>,
    pub content: Seq<char>,
    pub version: nat,
}

impl View for LocalDoc {
    type V = LocalDocView;

    open spec fn view(&self) -> LocalDocView {
        LocalDocView {
            doc_id: self.doc_id@,
            name: self.name@,
            content: self.content@,
            version: self.version as nat,
        }
    }
}

impl Clone for LocalDoc {
    fn clone(&self) -> (r: Self)
        ensures
            r == *self,
    {
        LocalDoc {
            doc_id: self.doc_id.clone(),
            name: self.name.clone(),
            content: self.content.clone(),
            version: self.version,
        }
    }
}

impl Named for LocalDoc {
    open spec fn name_of(&self) -> Seq<char> {
        self.name@
    }

    fn name_text(&self) -> (r: &String) {
        &self.name
    }
}

/// The id under which the web interface writes.
pub open spec fn web_client_id() -> Seq<char> {
    "Interface_Web"@
}

/// The answer to a write based on a version older than the one shown.
pub open spec fn web_conflict_message() -> Seq<char> {
    "Conflit ! Quelqu'un d'autre a modifié ce document."@
}

/// The name of version `version` of document `doc_id`: the id itself for
/// version 0, else the id, a dot and the version.
pub open spec fn version_label(doc_id: Seq<char>, version: nat) -> Seq<char> {
    if version == 0 {
        doc_id
    } else {
        doc_id + seq!['.'] + decimal(version)
    }
}

/// The version that a notified label names: the number between its first
/// and its second dot, 0 when there is none or it does not parse.
pub open spec fn notified_version(label: Seq<char>) -> nat {
    if has_dot(label) {
        match parse_usize(before_first_dot(after_first_dot(label))) {
            Some(v) => v as nat,
            None => 0,
        }
    } else {
        0
    }
}

/// The documents shown after a notification that `label` holds `content`:
/// the document named by the part before the first dot takes the content
/// and the version, and a version above 0 is also kept under the label
/// itself, as a history entry.
pub open spec fn notification_step(
    m: Map<Seq<char>, LocalDocView>,
    label: Seq<char>,
    content: Seq<char>,
) -> Map<Seq<char>, LocalDocView> {
    let base = before_first_dot(label);
    let v = notified_version(label);
    let m1 = m.insert(base, LocalDocView { doc_id: base, name: base, content, version: v });
    if v > 0 {
        m1.insert(
            label,
            LocalDocView { doc_id: label, name: seq!['📜', ' '] + label, content, version: v },
        )
    } else {
        m1
    }
}

/// `r` lists each shown document once, by key and name, ordered by name.
pub open spec fn is_name_listing(
    m: Map<Seq<char>, LocalDocView>,
    r: Seq<(Seq<char>, Seq<char>)>,
) -> bool {
    &&& r.len() == m.dom().len()
    &&& forall|a: int, b: int| 0 <= a < r.len() && 0 <= b < r.len() && a != b ==> r[a].0 != r[b].0
    &&& forall|j: int| 0 <= j < r.len() ==> m.contains_key(#[trigger] r[j].0) && r[j].1 == m[r[j].0].name
    &&& forall|a: int, b: int| 0 <= a < b < r.len() ==> !lex_lt(r[b].1, r[a].1)
    &&& forall|k: Seq<char>| #[trigger] m.contains_key(k) ==> exists|j: int| 0 <= j < r.len() && r[j].0 == k
}

/// What the web interface does with a write request.
#[derive(Debug)]
pub enum WebUpdate {
    /// No document is shown under the id.
    NotFound,
    /// The request is based on a version older than the one shown.
    Conflict { reason: String },
    /// `message` goes to the storage node, and the client is told that its
    /// version is now `new_version`.
    Send { message: DocMessage, new_version: usize },
}

/// The documents that the web interface shows, by key.
pub struct WebDocs {
    docs: KeyedStore<LocalDoc>,
}

impl View for WebDocs {
    type V = Map<Seq<char>, LocalDocView>;

    closed spec fn view(&self) -> Map<Seq<char>, LocalDocView> {
        self.docs@.map_values(|d: LocalDoc| d@)
    }
}

/// The message by which the web interface creates a document named `name`:
/// the name is the id, and the content is empty.
pub fn creation_message(name: String) -> (m: DocMessage)
    ensures
        m matches DocMessage::Create { client_id, doc_id, content } && client_id@ == web_client_id()
            && doc_id@ == name@ && content@ == Seq::<char>::empty(),
{
    DocMessage::Create {
        client_id: String::from_str("Interface_Web"),
        doc_id: name,
        content: String::new(),
    }
}

/// `version_label` as text.
pub fn version_label_text(doc_id: &String, version: usize) -> (s: String)
    ensures
        s@ == version_label(doc_id@, version as nat),
{
    if version == 0 {
        return doc_id.clone();
    }
    proof {
        reveal_strlit(".");
    }
    let mut s = doc_id.clone();
    s.append(".");
    push_decimal(&mut s, version);
    assert(s@ =~= version_label(doc_id@, version as nat));
    s
}

impl WebDocs {
    pub closed spec fn wf(&self) -> bool {
        self.docs.wf()
    }

    /// No document shown.
    pub fn new() -> (w: WebDocs)
        ensures
            w.wf(),
            w@ == Map::<Seq<char>, LocalDocView>::empty(),
    {
        let w = WebDocs { docs: KeyedStore::new() };
        assert(w@ =~= Map::<Seq<char>, LocalDocView>::empty());
        w
    }

    fn put(&mut self, key: String, doc: LocalDoc)
        requires
            old(self).wf(),
        ensures
            final(self).wf(),
            final(self)@ == old(self)@.insert(key@, doc@),
    {
        let ghost k = key@;
        let ghost v = doc@;
        self.docs.insert(key, doc);
        assert(self@ =~= old(self)@.insert(k, v));
    }

    /// The documents shown at start: one demonstration document.
    pub fn with_demo() -> (w: WebDocs)
        ensures
            w.wf(),
            w@ == Map::<Seq<char>, LocalDocView>::empty().insert(
                "Doc_Demo"@,
                LocalDocView {
                    doc_id: "Doc_Demo"@,
                    name: "Document de Démo"@,
                    content: "Si tu vois ce texte, l'interface est bien connectée !"@,
                    version: 0,
                },
            ),
    {
        let mut w = WebDocs::new();
        w.put(
            String::from_str("Doc_Demo"),
            LocalDoc {
                doc_id: String::from_str("Doc_Demo"),
                name: String::from_str("Document de Démo"),
                content: String::from_str("Si tu vois ce texte, l'interface est bien connectée !"),
                version: 0,
            },
        );
        w
    }

    /// The document shown under `doc_id`, if there is one.
    pub fn get(&self, doc_id: &String) -> (r: Option<LocalDoc>)
        requires
            self.wf(),
        ensures
            match r {
                Some(d) => self@.contains_key(doc_id@) && d@ == self@[doc_id@],
                None => !self@.contains_key(doc_id@),
            },
    {
        match self.docs.get(doc_id) {
            Some(d) => Some(d.clone()),
            None => None,
        }
    }

    /// The key and name of every document shown, ordered by name.
    pub fn listing(&self) -> (r: Vec<(String, String)>)
        requires
            self.wf(),
        ensures
            is_name_listing(self@, r@.map_values(|e: (String, String)| (e.0@, e.1@))),
    {
        proof {
            self.docs.lemma_entries_make_map();
        }
        let p = self.docs.order_by_name();
        let mut r: Vec<(String, String)> = Vec::new();
        let mut k: usize = 0;
        while k < p.len()
            invariant
                self.wf(),
                k <= p@.len(),
                r@.len() == k,
                is_permutation(p@, self.docs.entries().len()),
                forall|j: int|
                    0 <= j < k ==> r@[j].0@ == self.docs.entries()[p@[j] as int].0 && r@[j].1@
                        == self.docs.entries()[p@[j] as int].1.name@,
            decreases p@.len() - k,
        {
            let key = self.docs.key_at(p[k]).clone();
            let name = self.docs.value_at(p[k]).name.clone();
            r.push((key, name));
            k += 1;
        }
        let ghost rv = r@.map_values(|e: (String, String)| (e.0@, e.1@));
        assert(self@.dom() =~= self.docs@.dom());
        assert(rv.len() == self@.dom().len());
        assert forall|j: int| 0 <= j < rv.len() implies self@.contains_key(#[trigger] rv[j].0) && rv[j].1
            == self@[rv[j].0].name by {
            assert(self.docs@.contains_key(self.docs.entries()[p@[j] as int].0));
        }
        assert forall|a: int, b: int| 0 <= a < b < rv.len() implies !lex_lt(rv[b].1, rv[a].1) by {
            assert(rv[a].1 == self.docs.entries()[p@[a] as int].1.name_of());
            assert(rv[b].1 == self.docs.entries()[p@[b] as int].1.name_of());
        }
        let ghost ks = rv.map_values(|e: (Seq<char>, Seq<char>)| e.0);
        assert(ks.no_duplicates()) by {
            assert forall|a: int, b: int| 0 <= a < ks.len() && 0 <= b < ks.len() && a != b implies ks[a] != ks[b] by {
                assert(rv[a].0 == self.docs.entries()[p@[a] as int].0);
                assert(rv[b].0 == self.docs.entries()[p@[b] as int].0);
            }
        }
        assert forall|j: int| 0 <= j < ks.len() implies self@.dom().contains(#[trigger] ks[j]) by {
            assert(self@.contains_key(rv[j].0));
        }
        proof {
            lemma_distinct_keys_cover(self@.dom(), ks);
        }
        assert forall|k: Seq<char>| #[trigger] self@.contains_key(k) implies exists|j: int| 0 <= j < rv.len() && rv[j].0 == k by {
            assert(self@.dom().contains(k));
            let j = ks.index_of(k);
            assert(rv[j].0 == ks[j]);
        }
        r
    }

    /// The documents shown are finitely many.
    pub proof fn lemma_finite(&self)
        requires
            self.wf(),
        ensures
            self@.dom().finite(),
    {
        self.docs.lemma_entries_make_map();
        assert(self@.dom() =~= self.docs@.dom());
    }

    /// What to do with a request to write `content` on document `doc_id`,
    /// based on version `version`.
    pub fn plan_update(&self, doc_id: &String, content: String, version: usize) -> (r: WebUpdate)
        requires
            self.wf(),
            self@.contains_key(doc_id@) && version >= self@[doc_id@].version ==> version < usize::MAX,
        ensures
            match r {
                WebUpdate::NotFound => !self@.contains_key(doc_id@),
                WebUpdate::Conflict { reason } => {
                    &&& self@.contains_key(doc_id@)
                    &&& version < self@[doc_id@].version
                    &&& reason@ == web_conflict_message()
                },
                WebUpdate::Send { message, new_version } => {
                    &&& self@.contains_key(doc_id@)
                    &&& version >= self@[doc_id@].version
                    &&& new_version == version + 1
                    &&& message matches DocMessage::Update {
                        client_id,
                        old_version,
                        new_version: nv,
                        content: c,
                    } && client_id@ == web_client_id() && old_version@ == version_label(
                        doc_id@,
                        version as nat,
                    ) && nv@ == version_label(doc_id@, (version + 1) as nat) && c@ == content@
                },
            },
    {
        let local = match self.docs.get(doc_id) {
            Some(d) => d,
            None => {
                return WebUpdate::NotFound;
            },
        };
        if version < local.version {
            return WebUpdate::Conflict {
                reason: String::from_str("Conflit ! Quelqu'un d'autre a modifié ce document."),
            };
        }
        let old_version = version_label_text(doc_id, version);
        let new_version = version_label_text(doc_id, version + 1);
        WebUpdate::Send {
            message: DocMessage::Update {
                client_id: String::from_str("Interface_Web"),
                old_version,
                new_version,
                content,
            },
            new_version: version + 1,
        }
    }

    /// Shows what a notification says: `label` holds `content`.
    pub fn apply_notification(&mut self, label: String, content: String)
        requires
            old(self).wf(),
        ensures
            final(self).wf(),
            final(self)@ == notification_step(old(self)@, label@, content@),
            final(self)@.contains_key(before_first_dot(label@)),
            final(self)@[before_first_dot(label@)].content == content@,
            final(self)@[before_first_dot(label@)].version == notified_version(label@),
            notified_version(label@) > 0 ==> {
                &&& final(self)@.contains_key(label@)
                &&& final(self)@[label@].doc_id == label@
                &&& final(self)@[label@].content == content@
                &&& final(self)@[label@].version == notified_version(label@)
            },
    {
        proof {
            lemma_notification_writes(old(self)@, label@, content@);
        }
        let base = text_before_first_dot(label.as_str());
        let dot = find_first_dot(label.as_str());
        let version: usize = if dot < label.as_str().unicode_len() {
            let rest = text_after_first_dot(label.as_str());
            let segment = text_before_first_dot(rest.as_str());
            match parse_decimal(segment.as_str()) {
                Some(v) => v,
                None => 0,
            }
        } else {
            0
        };
        assert(version == notified_version(label@));
        self.put(
            base.clone(),
            LocalDoc { doc_id: base.clone(), name: base.clone(), content: content.clone(), version },
        );
        if version > 0 {
            proof {
                reveal_strlit("📜 ");
            }
            let mut name = String::from_str("📜 ");
            name.append(label.as_str());
            assert(name@ =~= seq!['📜', ' '] + label@);
            self.put(label.clone(), LocalDoc { doc_id: label, name, content, version });
        }
    }
}

/// Where the label of a version is read back, it names the same document and
/// version: a notification for version `version` of a document whose id has
/// no dot updates that document to that version.
pub proof fn lemma_version_label_roundtrip(
    m: Map<Seq<char>, LocalDocView>,
    doc_id: Seq<char>,
    version: nat,
    content: Seq<char>,
)
    requires
        !has_dot(doc_id),
        version <= usize::MAX,
    ensures
        before_first_dot(version_label(doc_id, version)) == doc_id,
        notified_version(version_label(doc_id, version)) == version,
        notification_step(m, version_label(doc_id, version), content)[doc_id] == (LocalDocView {
            doc_id,
            name: doc_id,
            content,
            version,
        }),
{
    let label = version_label(doc_id, version);
    if version == 0 {
        lemma_first_dot_at(doc_id, doc_id.len() as int);
        assert(before_first_dot(doc_id) =~= doc_id);
    } else {
        let dec = decimal(version);
        lemma_parse_decimal(version);
        assert forall|j: int| 0 <= j < doc_id.len() implies label[j] != '.' by {
            assert(label[j] == doc_id[j]);
        }
        lemma_first_dot_at(label, doc_id.len() as int);
        assert(before_first_dot(label) =~= doc_id);
        assert(after_first_dot(label) =~= dec);
        lemma_first_dot_at(dec, dec.len() as int);
        assert(before_first_dot(dec) =~= dec);
    }
}


/// What a notification writes: the document named by the part of the label
/// before its first dot takes the notified content and version under its
/// own name; a label that names a version above 0 is also kept as an entry
/// of its own, holding the same content and version, and differs from the
/// base; no other entry changes.
pub proof fn lemma_notification_writes(
    m: Map<Seq<char>, LocalDocView>,
    label: Seq<char>,
    content: Seq<char>,
)
    ensures
        ({
            let base = before_first_dot(label);
            let v = notified_version(label);
            let after = notification_step(m, label, content);
            &&& after.contains_key(base)
            &&& after[base].doc_id == base
            &&& after[base].name == base
            &&& after[base].content == content
            &&& after[base].version == v
            &&& v > 0 ==> {
                &&& label != base
                &&& after.contains_key(label)
                &&& after[label].doc_id == label
                &&& after[label].content == content
                &&& after[label].version == v
            }
            &&& v == 0 ==> after.dom() == m.dom().insert(base)
            &&& forall|k: Seq<char>|
                k != base && k != label && m.contains_key(k) ==> #[trigger] after.contains_key(k)
                    && after[k] == m[k]
        }),
{
    let base = before_first_dot(label);
    let v = notified_version(label);
    let m1 = m.insert(base, LocalDocView { doc_id: base, name: base, content, version: v });
    let after = notification_step(m, label, content);
    if v > 0 {
        lemma_base_shorter(label);
        assert(label != base);
        assert(after == m1.insert(
            label,
            LocalDocView { doc_id: label, name: seq!['📜', ' '] + label, content, version: v },
        ));
    } else {
        assert(after == m1);
        assert(after.dom() =~= m.dom().insert(base));
    }
}

/// A label with a dot is longer than its part before the first dot.
proof fn lemma_base_shorter(label: Seq<char>)
    requires
        has_dot(label),
    ensures
        before_first_dot(label).len() < label.len(),
{
    let k = lemma_scan_for_dot(label, 0);
    lemma_first_dot_at(label, k);
}

/// Scans `s` from `i` for a `.`.
proof fn lemma_scan_for_dot(s: Seq<char>, i: int) -> (k: int)
    requires
        0 <= i <= s.len(),
        forall|j: int| 0 <= j < i ==> s[j] != '.',
    ensures
        i <= k <= s.len(),
        k < s.len() ==> s[k] == '.',
        forall|j: int| 0 <= j < k ==> s[j] != '.',
    decreases s.len() - i,
{
    if i == s.len() || s[i] == '.' {
        i
    } else {
        lemma_scan_for_dot(s, i + 1)
    }
}

} // verus!
