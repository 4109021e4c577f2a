//! The word corpus, without repeated words, split once by difficulty tier so
//! that a request only walks the words of its own tier.
use vstd::prelude::*;
use std::collections::HashMap;
use crate::difficulty::{Difficulty, allowed_difficulty, qualifies};

verus! {

/// The words of `corpus` that fit the tier `d`, in corpus order.
pub open spec fn tier_words(corpus: Seq<String>, d: Difficulty) -> Seq<String> {
    corpus.filter(fits_tier(d))
}

/// The tier test as a predicate on corpus entries.
pub open spec fn fits_tier(d: Difficulty) -> spec_fn(String) -> bool {
    |w: String| qualifies(w@, d)
}

/// Whether some entry of `s` spells `w`.
pub open spec fn holds_word(s: Seq<String>, w: Seq<char>) -> bool {
    exists|k: int| 0 <= k < s.len() && (#[trigger] s[k])@ == w
}

/// The entries of `s` with later repeats of a word left out, in order.
pub open spec fn distinct_words(s: Seq<String>) -> Seq<String>
    decreases s.len(),
{
    if s.len() == 0 {
        s
    } else {
        let kept = distinct_words(s.drop_last());
        if holds_word(kept, s.last()@) {
            kept
        } else {
            kept.push(s.last())
        }
    }
}

/// No two entries of `s` spell the same word.
pub open spec fn distinct_views(s: Seq<String>) -> bool {
    forall|i: int, j: int|
        0 <= i < s.len() && 0 <= j < s.len() && i != j ==> (#[trigger] s[i])@ != (#[trigger] s[j])@
}

/// The modulus of the word fingerprint.
const FOLD_MODULUS: u64 = 1000000007;

/// A fingerprint of a word: its characters folded base 31 modulo
/// `FOLD_MODULUS`. Equal words have equal fingerprints.
spec fn fingerprint(w: Seq<char>) -> int
    decreases w.len(),
{
    if w.len() == 0 {
        0
    } else {
        (fingerprint(w.drop_last()) * 31 + (w.last() as u32) as int) % (FOLD_MODULUS as int)
    }
}

fn fingerprint_of(w: &str) -> (r: u64)
    ensures
        r as int == fingerprint(w@),
{
    let mut h: u64 = 0;
    for c in it: w.chars()
        invariant
            it.seq() == w@,
            h as int == fingerprint(w@.take(it.index() as int)),
            h < FOLD_MODULUS,
    {
        assert(w@.take(it.index() + 1).drop_last() == w@.take(it.index() as int));
        assert(h * 31 + (c as u32) as u64 <= 31 * FOLD_MODULUS + 0xFFFF_FFFF) by (nonlinear_arith)
            requires
                h < FOLD_MODULUS,
                (c as u32) <= 0xFFFF_FFFFu32,
        ;
        h = (h * 31 + (c as u32) as u64) % FOLD_MODULUS;
    }
    assert(w@.take(w@.len() as int) == w@);
    h
}

/// Whether a word of `kept` at one of the positions in `bucket` spells `w`.
fn bucket_holds(bucket: &Vec<usize>, kept: &Vec<String>, w: &String) -> (r: bool)
    requires
        forall|j: int| 0 <= j < bucket@.len() ==> (#[trigger] bucket@[j]) < kept@.len(),
    ensures
        r == exists|j: int| 0 <= j < bucket@.len() && kept@[(#[trigger] bucket@[j]) as int]@ == w@,
{
    let mut j: usize = 0;
    while j < bucket.len()
        invariant
            j <= bucket@.len(),
            forall|t: int| 0 <= t < bucket@.len() ==> (#[trigger] bucket@[t]) < kept@.len(),
            forall|t: int| 0 <= t < j ==> kept@[(#[trigger] bucket@[t]) as int]@ != w@,
        decreases bucket@.len() - j,
    {
        if kept[bucket[j]] == *w {
            return true;
        }
        j = j + 1;
    }
    false
}

/// A word list without repeated words, with each tier's words set apart.
pub struct Lexicon {
    easiest: Vec<String>,
    easy: Vec<String>,
    medium: Vec<String>,
    hard: Vec<String>,
    hardest: Vec<String>,
    corpus: Ghost<Seq<String>>,
}

impl View for Lexicon {
    type V = Seq<String>;

    /// The corpus words, each once, in the order they were first given.
    closed spec fn view(&self) -> Seq<String> {
        self.corpus@
    }
}

impl Lexicon {
    /// The list held for tier `d`.
    closed spec fn tier_list(&self, d: Difficulty) -> Seq<String> {
        match d {
            Difficulty::Easiest => self.easiest@,
            Difficulty::Easy => self.easy@,
            Difficulty::Medium => self.medium@,
            Difficulty::Hard => self.hard@,
            Difficulty::Hardest => self.hardest@,
        }
    }

    /// Each tier's list holds exactly the corpus words that fit that tier.
    pub closed spec fn tiers_match(&self) -> bool {
        forall|d: Difficulty| #[trigger] self.tier_list(d) == tier_words(self@, d)
    }

    /// The tier lists match the corpus, which repeats no word.
    pub open spec fn wf(&self) -> bool {
        &&& self.tiers_match()
        &&& distinct_views(self@)
    }

    /// Keeps the first occurrence of each word of `words` and splits them by
    /// tier; a word that fits several tiers is listed in each.
    pub fn from_words(words: &Vec<String>) -> (r: Lexicon)
        ensures
            r.wf(),
            r@ == distinct_words(words@),
    {
        broadcast use vstd::std_specs::hash::group_hash_axioms;

        let mut lex = Lexicon {
            easiest: Vec::new(),
            easy: Vec::new(),
            medium: Vec::new(),
            hard: Vec::new(),
            hardest: Vec::new(),
            corpus: Ghost(Seq::empty()),
        };
        let mut kept: Vec<String> = Vec::new();
        let mut buckets: HashMap<u64, Vec<usize>> = HashMap::new();
        proof {
            reveal(Seq::filter);
            assert(words@.take(0) == Seq::<String>::empty());
        }
        let mut i: usize = 0;
        while i < words.len()
            invariant
                i <= words@.len(),
                kept@.len() <= i,
                lex@ == kept@,
                kept@ == distinct_words(words@.take(i as int)),
                lex.wf(),
                forall|k: int|
                    0 <= k < kept@.len() ==> {
                        let h = fingerprint((#[trigger] kept@[k])@) as u64;
                        &&& buckets@.contains_key(h)
                        &&& buckets@[h]@.contains(k as usize)
                    },
                forall|h: u64, j: int|
                    buckets@.contains_key(h) && 0 <= j < buckets@[h]@.len() ==> (
                    #[trigger] buckets@[h]@[j]) < kept@.len(),
            decreases words@.len() - i,
        {
            let w = &words[i];
            let ghost before = lex;
            let ghost old_kept = kept@;
            let ghost old_buckets = buckets@;
            proof {
                assert(words@.take(i + 1) == words@.take(i as int).push(*w));
                assert(words@.take(i + 1).drop_last() == words@.take(i as int));
            }
            let h = fingerprint_of(w.as_str());
            let seen = match buckets.get(&h) {
                Some(b) => bucket_holds(b, &kept, w),
                None => false,
            };
            proof {
                if holds_word(kept@, w@) {
                    let k = choose|k: int| 0 <= k < kept@.len() && (#[trigger] kept@[k])@ == w@;
                    assert(fingerprint(kept@[k]@) as u64 == h);
                    let j = choose|j: int|
                        0 <= j < buckets@[h]@.len() && buckets@[h]@[j] == k as usize;
                    assert(kept@[(buckets@[h]@[j]) as int]@ == w@);
                }
            }
            if !seen {
                let idx = kept.len();
                kept.push(w.clone());
                if allowed_difficulty(w, &Difficulty::Easiest) {
                    lex.easiest.push(w.clone());
                }
                if allowed_difficulty(w, &Difficulty::Easy) {
                    lex.easy.push(w.clone());
                }
                if allowed_difficulty(w, &Difficulty::Medium) {
                    lex.medium.push(w.clone());
                }
                if allowed_difficulty(w, &Difficulty::Hard) {
                    lex.hard.push(w.clone());
                }
                if allowed_difficulty(w, &Difficulty::Hardest) {
                    lex.hardest.push(w.clone());
                }
                let mut bucket = match buckets.remove(&h) {
                    Some(b) => b,
                    None => Vec::new(),
                };
                let ghost old_bucket = bucket@;
                bucket.push(idx);
                buckets.insert(h, bucket);
                lex.corpus = Ghost(kept@);
                proof {
                    assert forall|d: Difficulty| #[trigger] lex.tier_list(d) == tier_words(lex@, d) by {
                        assert(before.tier_list(d) == tier_words(before@, d));
                        old_kept.lemma_filter_push(*w, fits_tier(d));
                    }
                    assert forall|k: int| 0 <= k < kept@.len() implies {
                        let hk = fingerprint((#[trigger] kept@[k])@) as u64;
                        &&& buckets@.contains_key(hk)
                        &&& buckets@[hk]@.contains(k as usize)
                    } by {
                        let hk = fingerprint(kept@[k]@) as u64;
                        if k < old_kept.len() {
                            assert(old_kept[k] == kept@[k]);
                            if hk == h {
                                assert(old_buckets[h]@.contains(k as usize));
                                assert(old_bucket == old_buckets[h]@);
                                let j = choose|j: int|
                                    0 <= j < old_bucket.len() && old_bucket[j] == k as usize;
                                assert(buckets@[h]@[j] == k as usize);
                            }
                        } else {
                            assert(buckets@[h]@[old_bucket.len() as int] == idx);
                        }
                    }
                    assert forall|hh: u64, j: int|
                        buckets@.contains_key(hh) && 0 <= j < buckets@[hh]@.len() implies (
                    #[trigger] buckets@[hh]@[j]) < kept@.len() by {
                        if hh == h && j < old_bucket.len() {
                            assert(old_buckets.contains_key(h));
                            assert(old_bucket == old_buckets[h]@);
                            assert(old_buckets[h]@[j] < old_kept.len());
                        } else if hh != h {
                            assert(old_buckets[hh]@[j] < old_kept.len());
                        }
                    }
                    assert forall|a: int, b: int|
                        0 <= a < kept@.len() && 0 <= b < kept@.len() && a != b implies (
                    #[trigger] kept@[a])@ != (#[trigger] kept@[b])@ by {
                        if a < old_kept.len() && b < old_kept.len() {
                            assert(old_kept[a] == kept@[a] && old_kept[b] == kept@[b]);
                        } else if a < old_kept.len() {
                            assert(old_kept[a] == kept@[a]);
                        } else {
                            assert(old_kept[b] == kept@[b]);
                        }
                    }
                }
            }
            i = i + 1;
        }
        assert(words@.take(words@.len() as int) == words@);
        lex
    }

    /// The corpus words that fit the tier `diff`, in corpus order.
    pub fn words_for(&self, diff: Difficulty) -> (r: &Vec<String>)
        requires
            self.wf(),
        ensures
            r@ == tier_words(self@, diff),
    {
        proof {
            assert(self.tier_list(diff) == tier_words(self@, diff));
        }
        match diff {
            Difficulty::Easiest => &self.easiest,
            Difficulty::Easy => &self.easy,
            Difficulty::Medium => &self.medium,
            Difficulty::Hard => &self.hard,
            Difficulty::Hardest => &self.hardest,
        }
    }
}

} // verus!
