//! Splitting the raw word-list bytes into tokens.
//!
//! Splitting policy (fixed, documented here): the input is split on `\n`
//! alone; trailing carriage returns, spaces and tabs are trimmed from each
//! line; a line that is empty after trimming yields no token. So a blank
//! line, or the empty remainder after a final `\n`, never becomes a token.

use vstd::prelude::*;

verus! {

/// A byte trimmed from the end of a line before it becomes a token.
pub open spec fn trailing_ws(b: u8) -> bool {
    b == '\r' as u8 || b == ' ' as u8 || b == '\t' as u8
}

/// A line with its trailing whitespace removed.
pub open spec fn trimmed(line: Seq<u8>) -> Seq<u8>
    decreases line.len(),
{
    if line.len() > 0 && trailing_ws(line.last()) {
        trimmed(line.drop_last())
    } else {
        line
    }
}

/// The segments of `s` between `\n` bytes, in order, untrimmed; one more
/// segment than there are `\n` bytes, so a trailing `\n` ends with an
/// empty segment.
pub open spec fn raw_lines(s: Seq<u8>) -> Seq<Seq<u8>>
    decreases s.len(),
{
    if s.len() == 0 {
        seq![Seq::<u8>::empty()]
    } else {
        let prior = raw_lines(s.drop_last());
        if s.last() == '\n' as u8 {
            prior.push(Seq::<u8>::empty())
        } else {
            prior.update(prior.len() - 1, prior.last().push(s.last()))
        }
    }
}

/// There is always at least the one (possibly empty) open segment.
pub proof fn lemma_raw_lines_nonempty(s: Seq<u8>)
    ensures
        raw_lines(s).len() >= 1,
    decreases s.len(),
{
    if s.len() > 0 {
        lemma_raw_lines_nonempty(s.drop_last());
    }
}

/// The tokens among a sequence of raw lines: each line trimmed, empty
/// results dropped, order kept.
pub open spec fn tokens_from_lines(lines: Seq<Seq<u8>>) -> Seq<Seq<u8>>
    decreases lines.len(),
{
    if lines.len() == 0 {
        Seq::<Seq<u8>>::empty()
    } else {
        let rest = tokens_from_lines(lines.drop_last());
        let t = trimmed(lines.last());
        if t.len() > 0 {
            rest.push(t)
        } else {
            rest
        }
    }
}

/// The token sequence of the raw word-list bytes `s`.
pub open spec fn tokens_of(s: Seq<u8>) -> Seq<Seq<u8>> {
    tokens_from_lines(raw_lines(s))
}

/// The views of a vector of byte tokens, as a sequence of byte sequences.
pub open spec fn token_views(toks: Seq<Vec<u8>>) -> Seq<Seq<u8>> {
    toks.map_values(|v: Vec<u8>| v@)
}

/// Remove trailing whitespace from a line.
fn trim_line(line: Vec<u8>) -> (r: Vec<u8>)
    ensures
        r@ == trimmed(line@),
{
    let ghost orig = line@;
    let mut line = line;
    loop
        invariant
            trimmed(line@) == trimmed(orig),
        ensures
            line@ == trimmed(orig),
        decreases line@.len(),
    {
        if line.len() == 0 {
            break;
        }
        let b = line[line.len() - 1];
        if b == '\r' as u8 || b == ' ' as u8 || b == '\t' as u8 {
            line.pop();
        } else {
            break;
        }
    }
    line
}

/// Split the word-list bytes into tokens: lines separated by `\n`, each
/// trimmed of trailing whitespace, blank lines yielding no token.
pub fn parse_words(dict_contents: &[u8]) -> (toks: Vec<Vec<u8>>)
    ensures
        token_views(toks@) == tokens_of(dict_contents@),
{
    let mut toks: Vec<Vec<u8>> = Vec::new();
    let mut cur: Vec<u8> = Vec::new();
    let mut i: usize = 0;
    proof {
        assert(dict_contents@.take(0) =~= Seq::<u8>::empty());
    }
    while i < dict_contents.len()
        invariant
            i <= dict_contents@.len(),
            raw_lines(dict_contents@.take(i as int)).last() == cur@,
            token_views(toks@) == tokens_from_lines(
                raw_lines(dict_contents@.take(i as int)).drop_last(),
            ),
        decreases dict_contents@.len() - i,
    {
        let ghost pre = dict_contents@.take(i as int);
        let ghost lines_pre = raw_lines(pre);
        proof {
            lemma_raw_lines_nonempty(pre);
            assert(dict_contents@.take(i + 1).drop_last() =~= pre);
            assert(dict_contents@.take(i + 1).last() == dict_contents@[i as int]);
        }
        let b = dict_contents[i];
        if b == '\n' as u8 {
            let finished = trim_line(cur);
            cur = Vec::new();
            proof {
                assert(raw_lines(dict_contents@.take(i + 1)) =~= lines_pre.push(
                    Seq::<u8>::empty(),
                ));
                assert(lines_pre.push(Seq::<u8>::empty()).drop_last() =~= lines_pre);
                assert(lines_pre.drop_last().push(lines_pre.last()) =~= lines_pre);
            }
            if finished.len() > 0 {
                toks.push(finished);
                proof {
                    assert(token_views(toks@) =~= tokens_from_lines(lines_pre.drop_last()).push(
                        trimmed(lines_pre.last()),
                    ));
                }
            }
        } else {
            cur.push(b);
            proof {
                let updated = lines_pre.update(
                    lines_pre.len() - 1,
                    lines_pre.last().push(dict_contents@[i as int]),
                );
                assert(raw_lines(dict_contents@.take(i + 1)) =~= updated);
                assert(updated.drop_last() =~= lines_pre.drop_last());
            }
        }
        i = i + 1;
    }
    proof {
        assert(dict_contents@.take(dict_contents@.len() as int) =~= dict_contents@);
        let lines = raw_lines(dict_contents@);
        lemma_raw_lines_nonempty(dict_contents@);
        assert(lines.drop_last().push(lines.last()) =~= lines);
    }
    let finished = trim_line(cur);
    if finished.len() > 0 {
        toks.push(finished);
        proof {
            assert(token_views(toks@) =~= tokens_from_lines(
                raw_lines(dict_contents@).drop_last(),
            ).push(trimmed(raw_lines(dict_contents@).last())));
        }
    }
    toks
}

} // verus!
