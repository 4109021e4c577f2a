//! What the user chooses before a session: difficulty, allowed letters (typed,
//! or toggled on a letter keyboard), whether every letter is allowed, and how
//! many words to read.
use vstd::prelude::*;
use crate::difficulty::Difficulty;
use crate::lexicon::Lexicon;
use crate::pool::{PoolError, candidates, is_pool_of, letters_view};
use crate::session::{Phase, Session, started};
use crate::charset::{letters_compile, sanitized};

verus! {

impl Default for Difficulty {
    fn default() -> (r: Difficulty)
        ensures
            r == Difficulty::Easy,
    {
        Difficulty::Easy
    }
}

/// A session's configuration, as plain values.
pub struct RunSettings {
    pub num_words: usize,
    pub allowed_chars: String,
    pub all_words: bool,
    pub difficulty: Difficulty,
}

impl RunSettings {
    /// Ten words of the default difficulty, with letter filtering on and no
    /// letter allowed yet.
    pub fn new() -> (r: RunSettings)
        ensures
            r.num_words == 10,
            r.allowed_chars@.len() == 0,
            !r.all_words,
            r.difficulty == Difficulty::Easy,
    {
        RunSettings {
            num_words: 10,
            allowed_chars: String::new(),
            all_words: false,
            difficulty: Difficulty::default(),
        }
    }

    /// The allowed-letter input for the pool: none when every letter is allowed.
    pub fn char_filter(&self) -> (r: Option<String>)
        ensures
            letters_view(r) == if self.all_words {
                None::<Seq<char>>
            } else {
                Some(self.allowed_chars@)
            },
    {
        if self.all_words {
            None
        } else {
            Some(self.allowed_chars.clone())
        }
    }

    /// Starts `session` on a pool drawn from `corpus` under these settings.
    pub fn start(&self, session: &mut Session, corpus: Option<&Lexicon>) -> (r: Result<(), PoolError>)
        requires
            old(session).wf(),
            old(session)@.phase != Phase::Presenting,
            corpus matches Some(c) ==> c.wf(),
        ensures
            final(session).wf(),
            corpus is None ==> r == Err::<(), PoolError>(PoolError::CorpusUnavailable),
            r is Err ==> final(session)@ == old(session)@,
            r == Err::<(), PoolError>(PoolError::InvalidCharsetPattern) ==> !self.all_words
                && sanitized(self.allowed_chars@).len() > 0 && !letters_compile(
                sanitized(self.allowed_chars@),
            ),
            r is Ok ==> {
                &&& corpus is Some
                &&& final(session)@ == started(final(session)@.pool)
                &&& final(session)@.pool.no_duplicates()
                &&& is_pool_of(
                    final(session)@.pool,
                    candidates(
                        corpus->0@,
                        self.difficulty,
                        if self.all_words {
                            None
                        } else {
                            Some(self.allowed_chars@)
                        },
                    ),
                    self.num_words as nat,
                )
            },
            corpus is Some && (self.all_words || sanitized(self.allowed_chars@).len() == 0
                || letters_compile(sanitized(self.allowed_chars@))) ==> r is Ok,
    {
        let filter = self.char_filter();
        session.start_session(corpus, filter, self.num_words, self.difficulty)
    }
}

/// A key of the letter keyboard: it allows every variant of one letter.
pub struct LetterKey {
    pub id: String,
    pub label: String,
    pub value: String,
}

/// The letters that the active keys allow, key by key in keyboard order.
pub open spec fn joined(keys: Seq<LetterKey>, active: Seq<bool>) -> Seq<char>
    decreases keys.len(),
{
    if keys.len() == 0 {
        Seq::empty()
    } else {
        let rest = joined(keys.drop_last(), active);
        if active[keys.len() - 1] {
            rest + keys.last().value@
        } else {
            rest
        }
    }
}

/// Joins the letters of the keys that `active` marks into one allowed-letter
/// string.
pub fn active_letters(keys: &Vec<LetterKey>, active: &Vec<bool>) -> (r: String)
    requires
        active@.len() == keys@.len(),
    ensures
        r@ == joined(keys@, active@),
{
    let mut out = String::new();
    let mut i: usize = 0;
    while i < keys.len()
        invariant
            i <= keys@.len(),
            active@.len() == keys@.len(),
            out@ == joined(keys@.take(i as int), active@),
        decreases keys@.len() - i,
    {
        assert(keys@.take(i + 1).drop_last() == keys@.take(i as int));
        if active[i] {
            out.append(keys[i].value.as_str());
        }
        i = i + 1;
    }
    assert(keys@.take(keys@.len() as int) == keys@);
    out
}

/// A key with the given id, label and allowed letters.
fn letter_key(id: &str, label: &str, value: &str) -> (r: LetterKey)
    ensures
        r.id@ == id@,
        r.label@ == label@,
        r.value@ == value@,
{
    LetterKey { id: String::from_str(id), label: String::from_str(label), value: String::from_str(value) }
}

/// The letters each key of the letter keyboard allows, in keyboard order:
/// the five vowels, each with its accented variants, then the consonants;
/// every key allows its letter in both cases.
pub open spec fn key_letters() -> Seq<Seq<char>> {
    seq![
        "aAàÀáÁâÂãÃ"@,
        "eEèÈéÉêÊ"@,
        "iIíÍ"@,
        "oOôÔòÒóÓõÕ"@,
        "uUùÙúÚ"@,
        "bB"@,
        "cC"@,
        "dD"@,
        "fF"@,
        "gG"@,
        "hH"@,
        "jJ"@,
        "kK"@,
        "lL"@,
        "mM"@,
        "nN"@,
        "pP"@,
        "qQ"@,
        "rR"@,
        "sS"@,
        "tT"@,
        "vV"@,
        "wW"@,
        "xX"@,
        "yY"@,
        "zZ"@,
    ]
}

/// The ids of the keys of the letter keyboard, in keyboard order.
pub open spec fn key_ids() -> Seq<Seq<char>> {
    seq![
        "tk_A"@,
        "tk_E"@,
        "tk_I"@,
        "tk_O"@,
        "tk_U"@,
        "tk_B"@,
        "tk_C"@,
        "tk_D"@,
        "tk_F"@,
        "tk_G"@,
        "tk_H"@,
        "tk_J"@,
        "tk_K"@,
        "tk_L"@,
        "tk_M"@,
        "tk_N"@,
        "tk_P"@,
        "tk_Q"@,
        "tk_R"@,
        "tk_S"@,
        "tk_T"@,
        "tk_V"@,
        "tk_W"@,
        "tk_X"@,
        "tk_Y"@,
        "tk_Z"@,
    ]
}

/// The labels of the keys of the letter keyboard, in keyboard order.
pub open spec fn key_labels() -> Seq<Seq<char>> {
    seq![
        "A"@,
        "E"@,
        "I"@,
        "O"@,
        "U"@,
        "B"@,
        "C"@,
        "D"@,
        "F"@,
        "G"@,
        "H"@,
        "J"@,
        "K"@,
        "L"@,
        "M"@,
        "N"@,
        "P"@,
        "Q"@,
        "R"@,
        "S"@,
        "T"@,
        "V"@,
        "W"@,
        "X"@,
        "Y"@,
        "Z"@,
    ]
}

/// The letter keyboard: key `i` has id `key_ids()[i]`, label
/// `key_labels()[i]` and allows the letters `key_letters()[i]`.
pub fn keyboard_keys() -> (r: Vec<LetterKey>)
    ensures
        r@.len() == key_letters().len(),
        forall|i: int|
            0 <= i < r@.len() ==> {
                &&& (#[trigger] r@[i]).value@ == key_letters()[i]
                &&& r@[i].id@ == key_ids()[i]
                &&& r@[i].label@ == key_labels()[i]
            },
{
    let mut keys: Vec<LetterKey> = Vec::new();
    keys.push(letter_key("tk_A", "A", "aAàÀáÁâÂãÃ"));
    keys.push(letter_key("tk_E", "E", "eEèÈéÉêÊ"));
    keys.push(letter_key("tk_I", "I", "iIíÍ"));
    keys.push(letter_key("tk_O", "O", "oOôÔòÒóÓõÕ"));
    keys.push(letter_key("tk_U", "U", "uUùÙúÚ"));
    keys.push(letter_key("tk_B", "B", "bB"));
    keys.push(letter_key("tk_C", "C", "cC"));
    keys.push(letter_key("tk_D", "D", "dD"));
    keys.push(letter_key("tk_F", "F", "fF"));
    keys.push(letter_key("tk_G", "G", "gG"));
    keys.push(letter_key("tk_H", "H", "hH"));
    keys.push(letter_key("tk_J", "J", "jJ"));
    keys.push(letter_key("tk_K", "K", "kK"));
    keys.push(letter_key("tk_L", "L", "lL"));
    keys.push(letter_key("tk_M", "M", "mM"));
    keys.push(letter_key("tk_N", "N", "nN"));
    keys.push(letter_key("tk_P", "P", "pP"));
    keys.push(letter_key("tk_Q", "Q", "qQ"));
    keys.push(letter_key("tk_R", "R", "rR"));
    keys.push(letter_key("tk_S", "S", "sS"));
    keys.push(letter_key("tk_T", "T", "tT"));
    keys.push(letter_key("tk_V", "V", "vV"));
    keys.push(letter_key("tk_W", "W", "wW"));
    keys.push(letter_key("tk_X", "X", "xX"));
    keys.push(letter_key("tk_Y", "Y", "yY"));
    keys.push(letter_key("tk_Z", "Z", "zZ"));
    keys
}

} // verus!
