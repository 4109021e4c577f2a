//! Difficulty tiers and the rule that decides which words fit each tier.
use vstd::prelude::*;

verus! {

/// How hard the words of a session are, from the shortest plain words to the
/// longest ones, hyphenated compounds included.
#[derive(Clone, Copy, Debug, PartialEq, Eq, Hash, Structural)]
pub enum Difficulty {
    Easiest,
    Easy,
    Medium,
    Hard,
    Hardest,
}

/// Number of times `c` occurs in `w`.
pub open spec fn occurrences(w: Seq<char>, c: char) -> nat
    decreases w.len(),
{
    if w.len() == 0 {
        0
    } else {
        occurrences(w.drop_last(), c) + if w.last() == c { 1nat } else { 0nat }
    }
}

/// Whether the word `w` fits the tier `d`. Length counts characters, not
/// bytes; the empty word fits no tier.
pub open spec fn qualifies(w: Seq<char>, d: Difficulty) -> bool {
    let n = w.len();
    let hyphens = occurrences(w, '-');
    match d {
        Difficulty::Easiest => 0 < n < 6 && hyphens == 0,
        Difficulty::Easy => 2 < n < 8 && hyphens == 0,
        Difficulty::Medium => 4 < n < 10 && hyphens == 0,
        Difficulty::Hard => 5 < n < 12 && hyphens < 2,
        Difficulty::Hardest => n > 10,
    }
}

/// Counts the hyphens of `w`.
fn count_hyphens(w: &str) -> (r: usize)
    ensures
        r == occurrences(w@, '-'),
{
    let len = w.unicode_len();
    let mut count: usize = 0;
    for c in it: w.chars()
        invariant
            it.seq() == w@,
            len == w@.len(),
            count == occurrences(w@.take(it.index() as int), '-'),
            count <= it.index(),
    {
        assert(w@.take(it.index() + 1).drop_last() == w@.take(it.index() as int));
        if c == '-' {
            count = count + 1;
        }
    }
    assert(w@.take(w@.len() as int) == w@);
    count
}

/// Whether the word `w` fits the tier `diff`. Length counts characters.
pub fn allowed_difficulty(w: &String, diff: &Difficulty) -> (r: bool)
    ensures
        r == qualifies(w@, *diff),
{
    let n = w.as_str().unicode_len();
    let hyphens = count_hyphens(w.as_str());
    match diff {
        Difficulty::Easiest => 0 < n && n < 6 && hyphens == 0,
        Difficulty::Easy => 2 < n && n < 8 && hyphens == 0,
        Difficulty::Medium => 4 < n && n < 10 && hyphens == 0,
        Difficulty::Hard => 5 < n && n < 12 && hyphens < 2,
        Difficulty::Hardest => n > 10,
    }
}

} // verus!
