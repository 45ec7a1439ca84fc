use vstd::prelude::*;

use crate::keyed::{
    has_key, keys_unique, lemma_map_of_dom, lemma_map_of_len, lemma_map_of_push,
    lemma_map_of_remove, lemma_map_of_value, map_of,
};
use crate::postings::{Posting, PostingsList};

verus! {

/// A posting that counts the occurrences of a term in one document.
///
/// Two frequency postings are equal when they are about the same document,
/// whatever their frequencies.
#[derive(Debug)]
pub struct FrequencyPosting {
    doc_id: usize,
    frequency: usize,
}

impl FrequencyPosting {
    /// Creates a posting for a document with the given frequency.
    pub fn new(doc_id: usize, frequency: usize) -> (r: FrequencyPosting)
        ensures
            r.spec_doc_id() == doc_id,
            r.spec_frequency() == frequency,
    {
        FrequencyPosting { doc_id, frequency }
    }

    /// Counts one more occurrence of the term in the document.
    pub fn add_occurrence(&mut self)
        requires
            old(self).spec_frequency() < usize::MAX,
        ensures
            final(self).spec_doc_id() == old(self).spec_doc_id(),
            final(self).spec_frequency() == old(self).spec_frequency() + 1,
    {
        self.frequency = self.frequency + 1;
    }
}

impl Posting for FrequencyPosting {
    closed spec fn spec_doc_id(&self) -> usize {
        self.doc_id
    }

    closed spec fn spec_frequency(&self) -> usize {
        self.frequency
    }

    fn doc_id(&self) -> (r: usize) {
        self.doc_id
    }

    fn frequency(&self) -> (r: usize) {
        self.frequency
    }
}

impl PartialEq for FrequencyPosting {
    fn eq(&self, other: &FrequencyPosting) -> (r: bool) {
        self.doc_id == other.doc_id
    }
}

impl vstd::std_specs::cmp::PartialEqSpecImpl for FrequencyPosting {
    open spec fn obeys_eq_spec() -> bool {
        true
    }

    open spec fn eq_spec(&self, other: &FrequencyPosting) -> bool {
        self.spec_doc_id() == other.spec_doc_id()
    }
}

impl Eq for FrequencyPosting {}

/// The frequency postings of one term, at most one for each document.
#[derive(Debug)]
pub struct FrequencyPostingsList {
    postings: Vec<FrequencyPosting>,
}

impl FrequencyPostingsList {
    /// The held postings, each paired with its document id.
    pub closed spec fn keyed(&self) -> Seq<(usize, FrequencyPosting)> {
        self.postings@.map_values(|p: FrequencyPosting| (p.doc_id, p))
    }

    /// Creates an empty list.
    pub fn new() -> (r: FrequencyPostingsList)
        ensures
            r.wf(),
            r.postings() == Map::<usize, FrequencyPosting>::empty(),
    {
        let r = FrequencyPostingsList { postings: Vec::new() };
        assert(r.keyed() =~= Seq::<(usize, FrequencyPosting)>::empty());
        r
    }

    /// The position of the posting for a document, if one is held.
    fn position(&self, doc_id: usize) -> (r: Option<usize>)
        ensures
            match r {
                Some(i) => i < self.postings@.len() && self.postings@[i as int].doc_id == doc_id,
                None => !has_key(self.keyed(), doc_id),
            },
    {
        let mut i: usize = 0;
        while i < self.postings.len()
            invariant
                i <= self.postings@.len(),
                forall|j: int| 0 <= j < i ==> self.postings@[j].doc_id != doc_id,
            decreases self.postings@.len() - i,
        {
            if self.postings[i].doc_id == doc_id {
                return Some(i);
            }
            i = i + 1;
        }
        assert(!has_key(self.keyed(), doc_id)) by {
            if has_key(self.keyed(), doc_id) {
                let j = choose|j: int| 0 <= j < self.keyed().len() && self.keyed()[j].0 == doc_id;
                assert(self.keyed()[j].0 == self.postings@[j].doc_id);
            }
        }
        None
    }
}

impl PostingsList<FrequencyPosting> for FrequencyPostingsList {
    open spec fn postings(&self) -> Map<usize, FrequencyPosting> {
        map_of(self.keyed())
    }

    /// No document has two postings.
    open spec fn wf(&self) -> bool {
        keys_unique(self.keyed())
    }

    fn add(&mut self, posting: FrequencyPosting) {
        let ghost old_keyed = self.keyed();
        proof {
            lemma_map_of_dom(old_keyed);
        }
        match self.position(posting.doc_id) {
            Some(i) => {
                assert(old_keyed[i as int].0 == posting.doc_id);
            },
            None => {
                let ghost k = posting.doc_id;
                self.postings.push(posting);
                assert(self.keyed() =~= old_keyed.push((k, posting)));
                proof {
                    lemma_map_of_push(old_keyed, k, posting);
                    assert forall|a: int, b: int|
                        0 <= a < b < self.keyed().len() implies self.keyed()[a].0
                        != self.keyed()[b].0 by {
                        if b == old_keyed.len() {
                            assert(old_keyed[a].0 == self.keyed()[a].0);
                        }
                    }
                }
            },
        }
    }

    fn remove(&mut self, doc_id: usize) {
        let ghost old_keyed = self.keyed();
        proof {
            lemma_map_of_dom(old_keyed);
        }
        match self.position(doc_id) {
            Some(i) => {
                self.postings.remove(i);
                assert(self.keyed() =~= old_keyed.remove(i as int));
                proof {
                    lemma_map_of_remove(old_keyed, i as int);
                }
            },
            None => {
                assert(map_of(old_keyed) =~= map_of(old_keyed).remove(doc_id));
            },
        }
    }

    fn get(&self, doc_id: usize) -> (r: Option<&FrequencyPosting>) {
        proof {
            lemma_map_of_dom(self.keyed());
        }
        match self.position(doc_id) {
            Some(i) => {
                proof {
                    lemma_map_of_value(self.keyed(), i as int);
                }
                Some(&self.postings[i])
            },
            None => None,
        }
    }

    fn len(&self) -> (r: usize) {
        proof {
            lemma_map_of_len(self.keyed());
        }
        self.postings.len()
    }
}

} // verus!
