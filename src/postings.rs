use vstd::prelude::*;

verus! {

/// A record stating that a document contains a term, with a frequency value.
pub trait Posting: Sized {
    /// The document that the posting is about.
    spec fn spec_doc_id(&self) -> usize;

    /// The frequency value that the posting reports for its document.
    spec fn spec_frequency(&self) -> usize;

    fn doc_id(&self) -> (r: usize)
        ensures
            r == self.spec_doc_id(),
    ;

    fn frequency(&self) -> (r: usize)
        ensures
            r == self.spec_frequency(),
    ;
}

/// The postings after adding `posting`: it is kept when its document has no
/// posting yet, and dropped otherwise.
pub open spec fn after_add<P: Posting>(m: Map<usize, P>, posting: P) -> Map<usize, P> {
    if m.contains_key(posting.spec_doc_id()) {
        m
    } else {
        m.insert(posting.spec_doc_id(), posting)
    }
}

/// Adding a second posting for a document keeps the first one, frequency
/// included: identity goes by document id alone.
pub proof fn lemma_readd_keeps_first<P: Posting>(m: Map<usize, P>, first: P, second: P)
    requires
        first.spec_doc_id() == second.spec_doc_id(),
    ensures
        after_add(after_add(m, first), second) == after_add(m, first),
        !m.contains_key(first.spec_doc_id()) ==> after_add(m, first)[first.spec_doc_id()] == first,
{
}

/// The postings of one term, at most one for each document.
///
/// Its contents are modelled as a map from document id to the posting
/// held for that document.
pub trait PostingsList<P: Posting>: Sized {
    /// The postings held, keyed by document id.
    spec fn postings(&self) -> Map<usize, P>;

    /// The list's internal invariant.
    spec fn wf(&self) -> bool;

    /// Adds a posting for a document that has none; does nothing when a
    /// posting for that document is already held.
    fn add(&mut self, posting: P)
        requires
            old(self).wf(),
        ensures
            final(self).wf(),
            final(self).postings() == after_add(old(self).postings(), posting),
    ;

    /// Removes the posting for a document, if one is held.
    fn remove(&mut self, doc_id: usize)
        requires
            old(self).wf(),
        ensures
            final(self).wf(),
            final(self).postings() == old(self).postings().remove(doc_id),
    ;

    /// The posting held for a document, if any.
    fn get(&self, doc_id: usize) -> (r: Option<&P>)
        requires
            self.wf(),
        ensures
            match r {
                Some(p) => self.postings().contains_key(doc_id) && *p == self.postings()[doc_id]
                    && p.spec_doc_id() == doc_id,
                None => !self.postings().contains_key(doc_id),
            },
    ;

    /// The number of documents that have a posting.
    fn len(&self) -> (r: usize)
        requires
            self.wf(),
        ensures
            r == self.postings().len(),
    ;
}

} // verus!
