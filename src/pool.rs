//! The pool sampler: the words of a tier that pass the letter filter, drawn
//! at random without replacement up to the requested count.
use vstd::prelude::*;
use vstd::multiset::Multiset;
use rand::seq::SliceRandom;
use crate::charset::{
    anchored_class_of, class_of, composed_of, letters_compile, match_whole_words, sanitize_filter,
    sanitized,
};
use crate::difficulty::{Difficulty, qualifies};
use crate::lexicon::{Lexicon, distinct_views, fits_tier, tier_words};

verus! {

/// Why a pool could not be built.
#[derive(Clone, Copy, Debug, PartialEq, Eq, Structural)]
pub enum PoolError {
    /// The word list could not be read.
    CorpusUnavailable,
    /// The letter filter could not be compiled into a matcher.
    InvalidCharsetPattern,
}

/// The letter filter as a predicate on corpus entries.
pub open spec fn spelled_with(letters: Seq<char>) -> spec_fn(String) -> bool {
    |w: String| composed_of(w@, letters)
}

/// The view of an optional allowed-letter string.
pub open spec fn letters_view(allowed: Option<String>) -> Option<Seq<char>> {
    match allowed {
        Some(s) => Some(s@),
        None => None,
    }
}

/// The words a pool may be drawn from: those of tier `diff`, and, when an
/// allowed-letter input is given, only those spelled with its letters.
pub open spec fn candidates(corpus: Seq<String>, diff: Difficulty, allowed: Option<Seq<char>>) -> Seq<
    String,
> {
    match allowed {
        None => tier_words(corpus, diff),
        Some(raw) => tier_words(corpus, diff).filter(spelled_with(sanitized(raw))),
    }
}

/// The smaller of `a` and `b`.
pub open spec fn at_most(a: nat, b: nat) -> nat {
    if a < b {
        a
    } else {
        b
    }
}

/// `pool` holds `count` of `cands` (all of them where there are fewer), each
/// taken from a distinct position of `cands`.
pub open spec fn is_pool_of(pool: Seq<String>, cands: Seq<String>, count: nat) -> bool {
    &&& pool.len() == at_most(count, cands.len())
    &&& pool.to_multiset().subset_of(cands.to_multiset())
}

/// Relies on rand's `SliceRandom::choose_multiple` with `thread_rng`: it
/// yields `min(amount, len)` items taken from distinct positions of the slice.
#[verifier::external_body]
fn choose_multiple(items: &Vec<String>, amount: usize) -> (r: Vec<String>)
    ensures
        r@.len() == at_most(amount as nat, items@.len()),
        r@.to_multiset().subset_of(items@.to_multiset()),
{
    items.choose_multiple(&mut rand::thread_rng(), amount).cloned().collect()
}

/// Keeps the words of `words` whose position `keep` marks, in order.
fn keep_marked(words: &Vec<String>, keep: &Vec<bool>, Ghost(pred): Ghost<spec_fn(String) -> bool>) -> (r:
    Vec<String>)
    requires
        keep@.len() == words@.len(),
        forall|i: int| 0 <= i < words@.len() ==> keep@[i] == pred(#[trigger] words@[i]),
    ensures
        r@ == words@.filter(pred),
{
    let mut out: Vec<String> = Vec::new();
    let mut i: usize = 0;
    proof {
        reveal(Seq::filter);
        assert(words@.take(0) == Seq::<String>::empty());
    }
    while i < words.len()
        invariant
            i <= words@.len(),
            keep@.len() == words@.len(),
            forall|j: int| 0 <= j < words@.len() ==> keep@[j] == pred(#[trigger] words@[j]),
            out@ == words@.take(i as int).filter(pred),
        decreases words@.len() - i,
    {
        proof {
            assert(words@.take(i + 1) == words@.take(i as int).push(words@[i as int]));
            words@.take(i as int).lemma_filter_push(words@[i as int], pred);
        }
        if keep[i] {
            out.push(words[i].clone());
        }
        i = i + 1;
    }
    assert(words@.take(words@.len() as int) == words@);
    out
}

proof fn lemma_nothing_spelled_without_letters(words: Seq<String>)
    ensures
        words.filter(spelled_with(Seq::empty())) == Seq::<String>::empty(),
{
    broadcast use vstd::seq_lib::group_filter_ensures;
    let f = words.filter(spelled_with(Seq::empty()));
    if f.len() > 0 {
        assert(composed_of(f[0]@, Seq::empty()));
        assert(Seq::<char>::empty().contains(f[0]@[0]));
    }
}

/// Draws up to `num_words` words of tier `diff` from `corpus`, keeping only
/// words spelled with the letters of `allowed_chars` when it is given.
/// An allowed-letter input with no letters in it admits no word.
pub fn get_word_pool(corpus: &Lexicon, allowed_chars: Option<String>, num_words: usize, diff: Difficulty) -> (r:
    Result<Vec<String>, PoolError>)
    requires
        corpus.wf(),
    ensures
        match r {
            Ok(pool) => is_pool_of(
                pool@,
                candidates(corpus@, diff, letters_view(allowed_chars)),
                num_words as nat,
            ),
            Err(e) => {
                &&& e == PoolError::InvalidCharsetPattern
                &&& allowed_chars is Some
                &&& sanitized(allowed_chars->0@).len() > 0
                &&& !letters_compile(sanitized(allowed_chars->0@))
            },
        },
        allowed_chars is Some && sanitized(allowed_chars->0@).len() > 0 && letters_compile(
            sanitized(allowed_chars->0@),
        ) ==> r is Ok,
        r matches Ok(pool) ==> pool@.no_duplicates() && distinct_views(pool@),
        allowed_chars is None || sanitized(allowed_chars->0@).len() == 0 ==> r is Ok,
        allowed_chars is Some && sanitized(allowed_chars->0@).len() == 0 ==> (r matches Ok(pool)
            && pool@.len() == 0),
{
    let words = corpus.words_for(diff);
    let ghost allowed = letters_view(allowed_chars);
    let r = match allowed_chars {
        None => Ok(choose_multiple(words, num_words)),
        Some(raw) => {
            let letters = sanitize_filter(&raw);
            if letters.as_str().unicode_len() == 0 {
                proof {
                    lemma_nothing_spelled_without_letters(words@);
                    assert(letters@ == Seq::<char>::empty());
                }
                Ok(Vec::new())
            } else {
                proof {
                    crate::charset::lemma_sanitize_idempotent(raw@);
                }
                let pattern = anchored_class_of(&letters);
                proof {
                    assert(class_of(pattern@) =~= letters@);
                }
                match match_whole_words(&pattern, words) {
                    Err(_) => Err(PoolError::InvalidCharsetPattern),
                    Ok(keep) => {
                        let cands = keep_marked(words, &keep, Ghost(spelled_with(letters@)));
                        Ok(choose_multiple(&cands, num_words))
                    },
                }
            }
        },
    };
    proof {
        if r is Ok {
            lemma_pool_has_no_repeats(corpus@, diff, allowed, num_words as nat, r->Ok_0@);
        }
    }
    r
}

/// A sub-multiset as large as the whole is the whole.
proof fn lemma_full_subset<A>(part: Multiset<A>, whole: Multiset<A>)
    requires
        part.subset_of(whole),
        part.len() == whole.len(),
    ensures
        part == whole,
{
    broadcast use vstd::multiset::group_multiset_axioms;
    let rest = whole.sub(part);
    assert(rest.len() == 0);
    vstd::multiset::lemma_multiset_empty_len(rest);
    assert forall|v: A| part.count(v) == whole.count(v) by {
        assert(rest.count(v) == 0);
    }
    assert(part =~= whole);
}

/// A word that a pool holds is one of its candidates.
proof fn lemma_pool_member(pool: Seq<String>, cands: Seq<String>, i: int)
    requires
        pool.to_multiset().subset_of(cands.to_multiset()),
        0 <= i < pool.len(),
    ensures
        cands.contains(pool[i]),
{
    broadcast use vstd::seq_lib::group_to_multiset_ensures;
    assert(pool.contains(pool[i]));
    assert(pool.to_multiset().count(pool[i]) > 0);
}

/// A pool holds at most the requested count of words; each of them fits the
/// tier and, where an allowed-letter input is given, is spelled with its
/// letters; and where fewer words qualify than were requested, the pool
/// holds every qualifying word.
pub proof fn lemma_pool_respects_request(
    corpus: Seq<String>,
    diff: Difficulty,
    allowed: Option<Seq<char>>,
    count: nat,
    pool: Seq<String>,
)
    requires
        is_pool_of(pool, candidates(corpus, diff, allowed), count),
    ensures
        pool.len() <= count,
        forall|i: int| 0 <= i < pool.len() ==> qualifies(#[trigger] pool[i]@, diff),
        forall|i: int|
            0 <= i < pool.len() && allowed is Some ==> composed_of(
                #[trigger] pool[i]@,
                sanitized(allowed->0),
            ),
        candidates(corpus, diff, allowed).len() <= count ==> pool.to_multiset()
            == candidates(corpus, diff, allowed).to_multiset(),
{
    broadcast use vstd::seq_lib::group_filter_ensures;
    broadcast use Seq::lemma_filter_contains_rev;
    broadcast use vstd::seq_lib::group_to_multiset_ensures;
    let cands = candidates(corpus, diff, allowed);
    let tier = tier_words(corpus, diff);
    assert forall|i: int| 0 <= i < pool.len() implies qualifies(#[trigger] pool[i]@, diff) && (
    allowed is Some ==> composed_of(pool[i]@, sanitized(allowed->0))) by {
        lemma_pool_member(pool, cands, i);
        let w = pool[i];
        let k = choose|k: int| 0 <= k < cands.len() && cands[k] == w;
        if allowed is Some {
            let p = spelled_with(sanitized(allowed->0));
            assert(p(tier.filter(p)[k]));
            assert(tier.contains(w));
        }
        assert(tier.contains(w));
        let j = choose|j: int| 0 <= j < tier.len() && tier[j] == w;
        assert(fits_tier(diff)(corpus.filter(fits_tier(diff))[j]));
    }
    if cands.len() <= count {
        lemma_full_subset(pool.to_multiset(), cands.to_multiset());
    }
}

proof fn lemma_filter_keeps_distinct(s: Seq<String>, p: spec_fn(String) -> bool)
    requires
        distinct_views(s),
    ensures
        distinct_views(s.filter(p)),
    decreases s.len(),
{
    reveal(Seq::filter);
    if s.len() > 0 {
        let init = s.drop_last();
        let f = init.filter(p);
        lemma_filter_keeps_distinct(init, p);
        if p(s.last()) {
            assert forall|a: int| 0 <= a < f.len() implies (#[trigger] f[a])@ != s.last()@ by {
                assert(f.contains(f[a]));
                init.lemma_filter_contains_rev(p, f[a]);
                let k = choose|k: int| 0 <= k < init.len() && init[k] == f[a];
                assert(s[k] == init[k]);
            }
        }
    }
}

/// A pool drawn from a word list without repeats has no repeats: no two of
/// its entries spell the same word.
pub proof fn lemma_pool_has_no_repeats(
    corpus: Seq<String>,
    diff: Difficulty,
    allowed: Option<Seq<char>>,
    count: nat,
    pool: Seq<String>,
)
    requires
        distinct_views(corpus),
        is_pool_of(pool, candidates(corpus, diff, allowed), count),
    ensures
        pool.no_duplicates(),
        distinct_views(pool),
{
    broadcast use vstd::seq_lib::group_to_multiset_ensures;
    let cands = candidates(corpus, diff, allowed);
    lemma_filter_keeps_distinct(corpus, fits_tier(diff));
    if allowed is Some {
        lemma_filter_keeps_distinct(tier_words(corpus, diff), spelled_with(sanitized(allowed->0)));
    }
    assert(cands.no_duplicates());
    cands.lemma_multiset_has_no_duplicates();
    assert forall|x: String| pool.to_multiset().contains(x) implies pool.to_multiset().count(x)
        == 1 by {
        assert(cands.to_multiset().contains(x));
    }
    pool.lemma_multiset_has_no_duplicates_conv();
    assert forall|a: int, b: int|
        0 <= a < pool.len() && 0 <= b < pool.len() && a != b implies (#[trigger] pool[a])@ != (
    #[trigger] pool[b])@ by {
        lemma_pool_member(pool, cands, a);
        lemma_pool_member(pool, cands, b);
        let x = choose|x: int| 0 <= x < cands.len() && cands[x] == pool[a];
        let y = choose|y: int| 0 <= y < cands.len() && cands[y] == pool[b];
    }
}

} // verus!
