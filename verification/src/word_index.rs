//! The membership index over the loaded tokens.
//!
//! The index is a set in its specification: what it holds is all that
//! matters, so inserting a token twice leaves it unchanged. Every token of
//! the list is inserted, eligible or not, since a converted word may match
//! a word that was itself never converted.

use vstd::prelude::*;
use vstd::seq_lib::lemma_seq_contains_after_push;

verus! {

/// The set of words a token sequence populates an index with.
pub open spec fn index_of(toks: Seq<Seq<u8>>) -> Set<Seq<u8>> {
    toks.to_set()
}

/// Exact-match membership index over byte tokens.
pub struct WordIndex {
    words: Vec<Vec<u8>>,
}

/// Byte-for-byte equality of two tokens.
fn bytes_eq(a: &Vec<u8>, b: &Vec<u8>) -> (r: bool)
    ensures
        r == (a@ == b@),
{
    if a.len() != b.len() {
        return false;
    }
    let mut i: usize = 0;
    while i < a.len()
        invariant
            i <= a@.len(),
            a@.len() == b@.len(),
            forall|j: int| 0 <= j < i ==> a@[j] == b@[j],
        decreases a@.len() - i,
    {
        if a[i] != b[i] {
            return false;
        }
        i = i + 1;
    }
    proof {
        assert(a@ =~= b@);
    }
    true
}

impl WordIndex {
    /// The set of words the index holds.
    pub closed spec fn view(&self) -> Set<Seq<u8>> {
        self.words@.map_values(|v: Vec<u8>| v@).to_set()
    }

    /// An empty index.
    pub fn new() -> (r: WordIndex)
        ensures
            r@ == Set::<Seq<u8>>::empty(),
    {
        let r = WordIndex { words: Vec::new() };
        proof {
            assert(r@ =~= Set::<Seq<u8>>::empty());
        }
        r
    }

    /// Insert one token. Inserting a token already present changes nothing.
    pub fn insert(&mut self, w: Vec<u8>)
        ensures
            final(self)@ == old(self)@.insert(w@),
    {
        let ghost prior = self.words@.map_values(|v: Vec<u8>| v@);
        self.words.push(w);
        proof {
            assert(self.words@.map_values(|v: Vec<u8>| v@) =~= prior.push(w@));
            assert forall|t: Seq<u8>| #[trigger] prior.push(w@).to_set().contains(t)
                <==> prior.to_set().insert(w@).contains(t) by {
                lemma_seq_contains_after_push(prior, w@, t);
            }
            assert(self@ =~= old(self)@.insert(w@));
        }
    }

    /// Whether the index holds exactly the token `w`.
    pub fn contains(&self, w: &Vec<u8>) -> (r: bool)
        ensures
            r == self@.contains(w@),
    {
        let ghost views = self.words@.map_values(|v: Vec<u8>| v@);
        let mut i: usize = 0;
        while i < self.words.len()
            invariant
                i <= views.len(),
                views == self.words@.map_values(|v: Vec<u8>| v@),
                self@ == views.to_set(),
                forall|j: int| 0 <= j < i ==> views[j] != w@,
            decreases views.len() - i,
        {
            if bytes_eq(&self.words[i], w) {
                assert(views[i as int] == w@);
                assert(views.contains(w@));
                return true;
            }
            i = i + 1;
        }
        assert(!views.contains(w@));
        false
    }

    /// Build the index of a whole token sequence, inserting every token.
    pub fn from_tokens(toks: &Vec<Vec<u8>>) -> (r: WordIndex)
        ensures
            r@ == index_of(crate::loader::token_views(toks@)),
    {
        let ghost views = crate::loader::token_views(toks@);
        let mut r = WordIndex::new();
        let mut i: usize = 0;
        while i < toks.len()
            invariant
                i <= views.len(),
                views == crate::loader::token_views(toks@),
                r@ == views.take(i as int).to_set(),
            decreases views.len() - i,
        {
            let w = toks[i].clone();
            r.insert(w);
            proof {
                assert(views.take(i + 1).drop_last() =~= views.take(i as int));
                assert forall|t: Seq<u8>| #[trigger] views.take(i + 1).to_set().contains(t)
                    <==> views.take(i as int).to_set().insert(views[i as int]).contains(t) by {
                    lemma_seq_contains_after_push(views.take(i as int), views[i as int], t);
                    assert(views.take(i + 1) =~= views.take(i as int).push(views[i as int]));
                }
                assert(r@ =~= views.take(i + 1).to_set());
            }
            i = i + 1;
        }
        proof {
            assert(views.take(views.len() as int) =~= views);
        }
        r
    }
}

} // verus!
