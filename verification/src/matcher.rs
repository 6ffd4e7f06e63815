//! The driver: walk the token sequence in order, convert each eligible
//! token, query the index for the converted form, and collect the matches.

use vstd::prelude::*;
use crate::loader::{token_views, tokens_of};
use crate::mapping::has_image;
use crate::transform::{converted, eligible, fully_mapped, is_eligible, transform, TransformError};
use crate::word_index::{index_of, WordIndex};

verus! {

/// One reported match: a token of the list together with its converted
/// form, which is itself a word of the list.
pub struct MatchPair {
    pub original: Vec<u8>,
    pub converted: Vec<u8>,
}

impl View for MatchPair {
    type V = (Seq<u8>, Seq<u8>);

    open spec fn view(&self) -> (Seq<u8>, Seq<u8>) {
        (self.original@, self.converted@)
    }
}

/// The views of a vector of match pairs.
pub open spec fn pair_views(ms: Seq<MatchPair>) -> Seq<(Seq<u8>, Seq<u8>)> {
    ms.map_values(|m: MatchPair| m@)
}

/// An eligible token whose conversion the table does not cover: the sign
/// that exclusion set and table have drifted apart.
pub open spec fn has_gap(w: Seq<u8>) -> bool {
    eligible(w) && !fully_mapped(w)
}

/// No token of `toks` runs into a gap of the table: the condition under
/// which the driver is owed success.
pub open spec fn gap_free(toks: Seq<Seq<u8>>) -> bool {
    forall|k: int| 0 <= k < toks.len() ==> !has_gap(#[trigger] toks[k])
}

/// `e` names the first byte of `w` the table does not cover.
pub open spec fn gap_error_for(w: Seq<u8>, e: TransformError) -> bool {
    exists|i: int|
        0 <= i < w.len() && !has_image(w[i]) && (forall|j: int|
            0 <= j < i ==> has_image(#[trigger] w[j])) && e == TransformError::MappingGap(w[i])
}

/// `e` is the exact failure the driver reports on `toks`: the first
/// uncovered byte of the first token with a gap.
pub open spec fn first_gap_error(toks: Seq<Seq<u8>>, e: TransformError) -> bool {
    exists|k: int|
        0 <= k < toks.len() && has_gap(#[trigger] toks[k]) && (forall|j: int|
            0 <= j < k ==> !has_gap(#[trigger] toks[j])) && gap_error_for(toks[k], e)
}

/// The matches the driver reports for tokens `toks` against index `idx`,
/// in token order: each token that is eligible, covered by the table, and
/// whose converted form is in the index, paired with that converted form.
pub open spec fn matches_of(toks: Seq<Seq<u8>>, idx: Set<Seq<u8>>) -> Seq<(Seq<u8>, Seq<u8>)>
    decreases toks.len(),
{
    if toks.len() == 0 {
        Seq::<(Seq<u8>, Seq<u8>)>::empty()
    } else {
        let prior = matches_of(toks.drop_last(), idx);
        let w = toks.last();
        if eligible(w) && fully_mapped(w) && idx.contains(converted(w)) {
            prior.push((w, converted(w)))
        } else {
            prior
        }
    }
}

/// Every reported match pairs an eligible, fully covered token with its
/// converted form, and that form is a word of the index.
pub proof fn lemma_matches_only_eligible(toks: Seq<Seq<u8>>, idx: Set<Seq<u8>>, k: int)
    requires
        0 <= k < matches_of(toks, idx).len(),
    ensures
        eligible(matches_of(toks, idx)[k].0),
        fully_mapped(matches_of(toks, idx)[k].0),
        matches_of(toks, idx)[k].1 == converted(matches_of(toks, idx)[k].0),
        idx.contains(matches_of(toks, idx)[k].1),
        matches_of(toks, idx)[k].1.len() == matches_of(toks, idx)[k].0.len(),
    decreases toks.len(),
{
    if toks.len() > 0 {
        let prior = matches_of(toks.drop_last(), idx);
        if k < prior.len() {
            lemma_matches_only_eligible(toks.drop_last(), idx, k);
        }
    }
}

/// A token holding an excluded byte never appears as the original of a
/// match: it is skipped outright, not converted.
pub proof fn lemma_excluded_token_skipped(toks: Seq<Seq<u8>>, idx: Set<Seq<u8>>, w: Seq<u8>, i: int)
    requires
        0 <= i < w.len(),
        crate::mapping::excluded(w[i]),
    ensures
        forall|k: int| 0 <= k < matches_of(toks, idx).len() ==> matches_of(toks, idx)[k].0 != w,
{
    crate::transform::lemma_excluded_blocks_conversion(w, i);
    assert forall|k: int| 0 <= k < matches_of(toks, idx).len() implies matches_of(toks, idx)[k].0
        != w by {
        lemma_matches_only_eligible(toks, idx, k);
    }
}

/// Indexing is idempotent: an index that received the same token twice is
/// the very index that received it once, so it yields the same matches and
/// the driver emits no duplicate line on its account.
pub proof fn lemma_idempotent_indexing(toks: Seq<Seq<u8>>, idx: Set<Seq<u8>>, w: Seq<u8>)
    ensures
        idx.insert(w).insert(w) == idx.insert(w),
        matches_of(toks, idx.insert(w).insert(w)) == matches_of(toks, idx.insert(w)),
{
    assert(idx.insert(w).insert(w) =~= idx.insert(w));
}

/// Walk `tokens` in order and report every match against `index`.
/// Succeeds exactly when no eligible token escapes the table; otherwise
/// reports the first uncovered byte of the first eligible token holding one.
pub fn find_matches(tokens: &Vec<Vec<u8>>, index: &WordIndex) -> (r: Result<
    Vec<MatchPair>,
    TransformError,
>)
    ensures
        r is Ok <==> gap_free(token_views(tokens@)),
        r matches Ok(ms) ==> pair_views(ms@) == matches_of(token_views(tokens@), index@),
        r matches Err(e) ==> first_gap_error(token_views(tokens@), e),
{
    let ghost toks = token_views(tokens@);
    let mut ms: Vec<MatchPair> = Vec::new();
    let mut i: usize = 0;
    proof {
        assert(matches_of(toks.take(0), index@) =~= pair_views(ms@));
    }
    while i < tokens.len()
        invariant
            i <= toks.len(),
            toks == token_views(tokens@),
            pair_views(ms@) == matches_of(toks.take(i as int), index@),
            forall|j: int| 0 <= j < i ==> !has_gap(#[trigger] toks[j]),
        decreases toks.len() - i,
    {
        let w = &tokens[i];
        proof {
            assert(toks.take(i + 1).drop_last() =~= toks.take(i as int));
            assert(toks.take(i + 1).last() == toks[i as int]);
        }
        if is_eligible(w) {
            match transform(w) {
                Ok(conv) => {
                    if index.contains(&conv) {
                        let orig = w.clone();
                        ms.push(MatchPair { original: orig, converted: conv });
                        proof {
                            assert(pair_views(ms@) =~= matches_of(toks.take(i as int),
                                index@,
                            ).push((toks[i as int], converted(toks[i as int]))));
                        }
                    }
                },
                Err(e) => {
                    return Err(e);
                },
            }
        }
        i = i + 1;
    }
    proof {
        assert(toks.take(toks.len() as int) =~= toks);
    }
    Ok(ms)
}

/// The whole pipeline on the raw word-list bytes: split into tokens, index
/// every token, and report each token whose converted form is a word of
/// the list, in list order.
pub fn run(dict_contents: &[u8]) -> (r: Result<Vec<MatchPair>, TransformError>)
    ensures
        r is Ok <==> gap_free(tokens_of(dict_contents@)),
        r matches Ok(ms) ==> pair_views(ms@) == matches_of(
            tokens_of(dict_contents@),
            index_of(tokens_of(dict_contents@)),
        ),
        r matches Err(e) ==> first_gap_error(tokens_of(dict_contents@), e),
{
    let tokens = crate::loader::parse_words(dict_contents);
    let index = WordIndex::from_tokens(&tokens);
    find_matches(&tokens, &index)
}

} // verus!
