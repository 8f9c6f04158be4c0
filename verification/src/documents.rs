use vstd::prelude::*;

verus! {

/// A payload that can be attached to a stored vector.
///
/// Every type that is `Clone + Send + Sync + 'static` is a document.
pub trait Document: Clone + Send + Sync + 'static {}

impl<T: Clone + Send + Sync + 'static> Document for T {}

/// An append-only store of documents; a document's id is the position at
/// which it was added.
pub struct DocumentStore<T: Document> {
    documents: Vec<T>,
}

impl<T: Document> View for DocumentStore<T> {
    type V = Seq<T>;

    closed spec fn view(&self) -> Seq<T> {
        self.documents@
    }
}

impl<T: Document> DocumentStore<T> {
    /// An empty store.
    pub fn new() -> (store: Self)
        ensures
            store@ == Seq::<T>::empty(),
    {
        DocumentStore { documents: Vec::new() }
    }

    /// Appends `document` and returns its id, the number of documents
    /// stored before the call.
    pub fn add_doc(&mut self, document: T) -> (id: usize)
        ensures
            id == old(self)@.len(),
            final(self)@ == old(self)@.push(document),
    {
        let id = self.documents.len();
        self.documents.push(document);
        id
    }

    /// The document with id `doc_id`, or `None` when no document has it.
    pub fn get_doc(&self, doc_id: usize) -> (doc: Option<&T>)
        ensures
            doc_id < self@.len() ==> doc == Some(&self@[doc_id as int]),
            doc_id >= self@.len() ==> doc is None,
    {
        self.documents.as_slice().get(doc_id)
    }

    /// Reading back after adding: once `document` has been added to
    /// `before` (giving `after`), the id `add_doc` returned finds it, and
    /// every earlier id still finds the document it found before.
    pub proof fn lemma_get_after_add(before: Self, after: Self, document: T)
        requires
            after@ == before@.push(document),
        ensures
            after@.len() == before@.len() + 1,
            after@[before@.len() as int] == document,
            forall|i: int| 0 <= i < before@.len() ==> #[trigger] after@[i] == before@[i],
    {
    }
}

} // verus!
