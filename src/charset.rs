//! The allowed-letter filter: raw user input is reduced to its letters, and a
//! word passes when it is spelled with those letters alone.
use vstd::prelude::*;

verus! {

/// Whether `c` has the Unicode Alphabetic property.
pub uninterp spec fn alphabetic(c: char) -> bool;

/// Relies on `char::is_alphabetic`: whether the character has the Unicode
/// Alphabetic property, which depends on the character alone.
#[verifier::external_body]
fn is_alphabetic(c: char) -> (r: bool)
    ensures
        r == alphabetic(c),
{
    c.is_alphabetic()
}

/// Relies on `String::push`: appends one character at the end.
#[verifier::external_body]
fn push_char(s: &mut String, c: char)
    ensures
        final(s)@ == old(s)@.push(c),
{
    s.push(c)
}

/// The letters of `s`, in order; everything else is dropped.
pub open spec fn sanitized(s: Seq<char>) -> Seq<char> {
    s.filter(|c: char| alphabetic(c))
}

/// The characters of `s` at the positions that `keep` marks, in order.
pub open spec fn sieve(s: Seq<char>, keep: Seq<bool>) -> Seq<char>
    decreases s.len(),
{
    if s.len() == 0 {
        Seq::empty()
    } else {
        let rest = sieve(s.drop_last(), keep);
        if keep[s.len() - 1] {
            rest.push(s.last())
        } else {
            rest
        }
    }
}

/// Whether `w` is a non-empty word made only of members of `letters`.
pub open spec fn composed_of(w: Seq<char>, letters: Seq<char>) -> bool {
    &&& w.len() > 0
    &&& forall|i: int| 0 <= i < w.len() ==> letters.contains(#[trigger] w[i])
}

/// The pattern that matches a whole word spelled only with `letters`: the
/// class of `letters`, repeated at least once, anchored at both ends.
pub open spec fn anchored_class(letters: Seq<char>) -> Seq<char> {
    seq!['^', '['] + letters + seq![']', '+', '$']
}

/// The class that a pattern built by `anchored_class` lists.
pub open spec fn class_of(pattern: Seq<char>) -> Seq<char> {
    pattern.subrange(2, pattern.len() - 3)
}

/// Whether `regex::Regex::new` accepts `pattern`.
pub uninterp spec fn compiles(pattern: Seq<char>) -> bool;

/// Whether the pattern for a whole word spelled with `letters` compiles.
pub open spec fn letters_compile(letters: Seq<char>) -> bool {
    compiles(anchored_class(letters))
}

#[verifier::external_type_specification]
#[verifier::external_body]
pub struct ExRegexError(regex::Error);

/// Relies on `regex::Regex::new` and `regex::Regex::is_match`. `pattern` is
/// `^[L]+$`, where the class `L` holds letters only, none of which is a
/// metacharacter of a class. Whether compiling succeeds depends on the
/// pattern alone (it fails when the compiled size passes the default
/// limit). Once compiled, the pattern is tried on each word: being anchored
/// at both ends, it matches exactly when the word is non-empty and each of
/// its characters is in `L`, compared case-sensitively.
#[verifier::external_body]
pub(crate) fn match_whole_words(pattern: &String, words: &Vec<String>) -> (r: Result<
    Vec<bool>,
    regex::Error,
>)
    requires
        pattern@.len() > 5,
        pattern@ == anchored_class(class_of(pattern@)),
        forall|i: int|
            0 <= i < class_of(pattern@).len() ==> alphabetic(#[trigger] class_of(pattern@)[i]),
    ensures
        r is Ok <==> compiles(pattern@),
        r matches Ok(m) ==> m@.len() == words@.len() && forall|i: int|
            0 <= i < words@.len() ==> m@[i] == composed_of(
                #[trigger] words@[i]@,
                class_of(pattern@),
            ),
{
    let re = regex::Regex::new(pattern.as_str())?;
    Ok(words.iter().map(|w| re.is_match(w)).collect())
}

/// The pattern that matches a whole word spelled only with `letters`.
pub fn anchored_class_of(letters: &String) -> (r: String)
    ensures
        r@ == anchored_class(letters@),
{
    let mut pattern = String::from_str("^[");
    pattern.append(letters.as_str());
    pattern.append("]+$");
    proof {
        reveal_strlit("^[");
        reveal_strlit("]+$");
        assert(pattern@ =~= anchored_class(letters@));
    }
    pattern
}

/// Keeps the characters of `s` whose position `keep` marks.
pub fn retain_marked(s: &String, keep: &Vec<bool>) -> (r: String)
    requires
        keep@.len() == s@.len(),
    ensures
        r@ == sieve(s@, keep@),
{
    let mut out = String::new();
    let mut i: usize = 0;
    for c in it: s.chars()
        invariant
            it.seq() == s@,
            keep@.len() == s@.len(),
            i == it.index(),
            i <= s@.len(),
            out@ == sieve(s@.take(i as int), keep@),
    {
        assert(s@.take(i + 1).drop_last() == s@.take(i as int));
        assert(i < keep.len());
        if keep[i] {
            push_char(&mut out, c);
        }
        i = i + 1;
    }
    assert(s@.take(s@.len() as int) == s@);
    out
}

proof fn lemma_sieve_is_sanitized(s: Seq<char>, keep: Seq<bool>)
    requires
        keep.len() >= s.len(),
        forall|i: int| 0 <= i < s.len() ==> keep[i] == alphabetic(s[i]),
    ensures
        sieve(s, keep) == sanitized(s),
    decreases s.len(),
{
    reveal(Seq::filter);
    if s.len() > 0 {
        lemma_sieve_is_sanitized(s.drop_last(), keep);
    }
}

/// Drops every character of `chars` that is not a letter: digits, spaces,
/// punctuation and symbols go, letters with diacritics stay.
pub fn sanitize_filter(chars: &String) -> (r: String)
    ensures
        r@ == sanitized(chars@),
{
    let mut keep: Vec<bool> = Vec::new();
    for c in it: chars.chars()
        invariant
            it.seq() == chars@,
            keep@.len() == it.index(),
            forall|j: int| 0 <= j < keep@.len() ==> keep@[j] == alphabetic(chars@[j]),
    {
        keep.push(is_alphabetic(c));
    }
    let r = retain_marked(chars, &keep);
    proof {
        lemma_sieve_is_sanitized(chars@, keep@);
    }
    r
}

proof fn lemma_sanitized_fixes_letters(s: Seq<char>)
    requires
        forall|i: int| 0 <= i < s.len() ==> alphabetic(#[trigger] s[i]),
    ensures
        sanitized(s) == s,
    decreases s.len(),
{
    reveal(Seq::filter);
    if s.len() > 0 {
        lemma_sanitized_fixes_letters(s.drop_last());
        assert(s.drop_last().push(s.last()) == s);
    }
}

/// Sanitizing is idempotent, and what it leaves is letters only.
pub proof fn lemma_sanitize_idempotent(s: Seq<char>)
    ensures
        sanitized(sanitized(s)) == sanitized(s),
        forall|i: int| 0 <= i < sanitized(s).len() ==> alphabetic(#[trigger] sanitized(s)[i]),
{
    broadcast use vstd::seq_lib::group_filter_ensures;
    lemma_sanitized_fixes_letters(sanitized(s));
}

} // verus!
