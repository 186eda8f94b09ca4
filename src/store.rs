use vstd::prelude::*;

use dashmap::DashMap;

use crate::textlint::TextlintMessage;

verus! {

#[verifier::external_type_specification]
#[verifier::external_body]
#[verifier::reject_recursive_types(K)]
#[verifier::reject_recursive_types(V)]
#[verifier::reject_recursive_types(S)]
pub struct ExDashMap<K, V, S>(DashMap<K, V, S>);

/// The text of a document as it was linted, with the messages of that lint
/// pass. The fix ranges of `messages` refer to `text`.
#[derive(Clone, Debug)]
pub struct DocumentEntry {
    pub text: String,
    pub messages: Vec<TextlintMessage>,
}

/// What a map of documents holds, by document identifier.
pub uninterp spec fn documents(m: DashMap<String, DocumentEntry>) -> Map<Seq<char>, DocumentEntry>;

/// Relies on `DashMap::new`: the map starts empty.
#[verifier::external_body]
fn map_new() -> (r: DashMap<String, DocumentEntry>)
    ensures
        documents(r).dom().is_empty(),
{
    DashMap::new()
}

/// Relies on `DashMap::insert`: the key is bound to the value, replacing any
/// earlier value, under the lock of its shard.
#[verifier::external_body]
fn map_insert(m: &mut DashMap<String, DocumentEntry>, key: &str, value: DocumentEntry)
    ensures
        documents(*final(m)) == documents(*old(m)).insert(key@, value),
{
    m.insert(String::from(key), value);
}

/// Relies on `DashMap::get`: the value bound to the key, if any, read under
/// the lock of its shard and cloned.
#[verifier::external_body]
fn map_get(m: &DashMap<String, DocumentEntry>, key: &str) -> (r: Option<DocumentEntry>)
    ensures
        r is Some <==> documents(*m).contains_key(key@),
        r is Some ==> r->Some_0 == documents(*m)[key@],
{
    m.get(key).map(|e| e.value().clone())
}

/// Relies on `DashMap::alter`: when the key is bound, its value is replaced
/// by `with_text` of it under the lock of its shard; otherwise nothing
/// changes.
#[verifier::external_body]
fn map_set_text(m: &mut DashMap<String, DocumentEntry>, key: &str, text: String)
    ensures
        documents(*old(m)).contains_key(key@) ==> documents(*final(m)) == documents(
            *old(m),
        ).insert(key@, (DocumentEntry { text, messages: documents(*old(m))[key@].messages })),
        !documents(*old(m)).contains_key(key@) ==> documents(*final(m)) == documents(*old(m)),
{
    m.alter(key, |_, e| with_text(e, text));
}

/// Relies on `DashMap::remove`: the key is no longer bound.
#[verifier::external_body]
fn map_remove(m: &mut DashMap<String, DocumentEntry>, key: &str)
    ensures
        documents(*final(m)) == documents(*old(m)).remove(key@),
{
    m.remove(key);
}

/// The entry `e` with its text replaced and its messages kept.
pub fn with_text(e: DocumentEntry, text: String) -> (r: DocumentEntry)
    ensures
        r == (DocumentEntry { text, messages: e.messages }),
{
    DocumentEntry { text, messages: e.messages }
}

/// The documents that are open, by identifier: for each, the text that was
/// last linted (or last received) and the messages of the last lint pass.
/// Each operation acts on one entry as a whole, under the lock of the shard
/// that holds it, so a reader never sees the text of one pass beside the
/// messages of another; documents in other shards are not held up.
pub struct DocumentStore {
    entries: DashMap<String, DocumentEntry>,
}

impl DocumentStore {
    /// The entries, by document identifier.
    pub closed spec fn view(&self) -> Map<Seq<char>, DocumentEntry> {
        documents(self.entries)
    }

    /// A store without documents.
    pub fn new() -> (r: Self)
        ensures
            r@ == Map::<Seq<char>, DocumentEntry>::empty(),
    {
        DocumentStore { entries: map_new() }
    }

    /// Records `text` and the messages linted from it for document `id`,
    /// replacing both at once.
    pub fn upsert(&mut self, id: &str, text: String, messages: Vec<TextlintMessage>)
        ensures
            final(self)@ == old(self)@.insert(id@, DocumentEntry { text, messages }),
    {
        map_insert(&mut self.entries, id, DocumentEntry { text, messages });
    }

    /// The entry of document `id`; `None` when there is none, which means
    /// that no fixes are known for it.
    pub fn get(&self, id: &str) -> (r: Option<DocumentEntry>)
        ensures
            r is Some <==> self@.contains_key(id@),
            r is Some ==> r->Some_0 == self@[id@],
    {
        map_get(&self.entries, id)
    }

    /// Replaces the text of document `id` and keeps its messages, which then
    /// refer to the text of the last lint pass; a document without an entry is
    /// left without one.
    pub fn update_text(&mut self, id: &str, text: String)
        ensures
            old(self)@.contains_key(id@) ==> final(self)@ == old(self)@.insert(
                id@,
                DocumentEntry { text, messages: old(self)@[id@].messages },
            ),
            !old(self)@.contains_key(id@) ==> final(self)@ == old(self)@,
    {
        map_set_text(&mut self.entries, id, text);
    }

    /// Forgets document `id`.
    pub fn remove(&mut self, id: &str)
        ensures
            final(self)@ == old(self)@.remove(id@),
    {
        map_remove(&mut self.entries, id);
    }
}

/// Recording a document replaces its text and messages together: after one
/// upsert its entry is exactly that pair, and after a second upsert of the
/// same document exactly the second pair, never the text of one beside the
/// messages of the other.
pub proof fn lemma_upsert_replaces_entry(
    m: Map<Seq<char>, DocumentEntry>,
    id: Seq<char>,
    first: DocumentEntry,
    second: DocumentEntry,
)
    ensures
        m.insert(id, first)[id] == first,
        m.insert(id, first).insert(id, second)[id] == second,
        m.insert(id, first).insert(id, second).dom() == m.insert(id, second).dom(),
{
}

/// The text to lint when document `id` is saved: the text sent with the
/// save if there is one, else the stored text; `None` when neither is known.
pub fn text_on_save(store: &DocumentStore, id: &str, sent: Option<String>) -> (r: Option<String>)
    ensures
        sent is Some ==> r == sent,
        sent is None && store@.contains_key(id@) ==> r == Some(store@[id@].text),
        sent is None && !store@.contains_key(id@) ==> r is None,
{
    match sent {
        Some(t) => Some(t),
        None => match store.get(id) {
            Some(e) => Some(e.text),
            None => None,
        },
    }
}

} // verus!
