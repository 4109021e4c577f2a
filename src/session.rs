//! The reading session: it is configured, then presents the words of one pool
//! one at a time, in pool order and without repeats, until none is left.
use vstd::prelude::*;
use crate::difficulty::Difficulty;
use crate::lexicon::Lexicon;
use crate::pool::{PoolError, candidates, get_word_pool, is_pool_of, letters_view};
use crate::charset::{letters_compile, sanitized};

verus! {

/// Where a session stands.
#[derive(Clone, Copy, Debug, PartialEq, Eq, Structural)]
pub enum Phase {
    /// Waiting for a pool.
    Configuring,
    /// Showing a word of the pool.
    Presenting,
    /// Every word of the pool has been shown.
    Exhausted,
}

/// What a session is: its phase, its pool, and how many words of the pool
/// have been shown so far (the current word is the last of them).
pub struct SessionModel {
    pub phase: Phase,
    pub pool: Seq<String>,
    pub shown: nat,
}

/// The states a session can be in.
pub open spec fn coherent(m: SessionModel) -> bool {
    match m.phase {
        Phase::Configuring => m.pool.len() == 0 && m.shown == 0,
        Phase::Presenting => 1 <= m.shown <= m.pool.len(),
        Phase::Exhausted => m.shown == m.pool.len(),
    }
}

/// A session that waits for its configuration.
pub open spec fn configuring() -> SessionModel {
    SessionModel { phase: Phase::Configuring, pool: Seq::empty(), shown: 0 }
}

/// The session right after it was given `pool`: it shows the pool's first
/// word, or has run out at once when the pool is empty.
pub open spec fn started(pool: Seq<String>) -> SessionModel {
    if pool.len() == 0 {
        SessionModel { phase: Phase::Exhausted, pool, shown: 0 }
    } else {
        SessionModel { phase: Phase::Presenting, pool, shown: 1 }
    }
}

/// The word that a request for the next word hands out, if any is left.
pub open spec fn drawn(m: SessionModel) -> Option<String> {
    if m.shown < m.pool.len() {
        Some(m.pool[m.shown as int])
    } else {
        None
    }
}

/// The session after a request for the next word.
pub open spec fn advanced(m: SessionModel) -> SessionModel {
    if m.shown < m.pool.len() {
        SessionModel { shown: m.shown + 1, ..m }
    } else {
        SessionModel { phase: Phase::Exhausted, ..m }
    }
}

/// The word on display, while presenting.
pub open spec fn current(m: SessionModel) -> Option<String> {
    if m.phase == Phase::Presenting {
        Some(m.pool[m.shown - 1])
    } else {
        None
    }
}

/// The words not shown yet, while presenting.
pub open spec fn remaining(m: SessionModel) -> Seq<String> {
    if m.phase == Phase::Presenting {
        m.pool.skip(m.shown as int)
    } else {
        Seq::empty()
    }
}

/// The words that `k` successive requests for the next word hand out.
pub open spec fn draws(m: SessionModel, k: nat) -> Seq<Option<String>>
    decreases k,
{
    if k == 0 {
        Seq::empty()
    } else {
        seq![drawn(m)] + draws(advanced(m), (k - 1) as nat)
    }
}

/// The session after `k` successive requests for the next word.
pub open spec fn after(m: SessionModel, k: nat) -> SessionModel
    decreases k,
{
    if k == 0 {
        m
    } else {
        after(advanced(m), (k - 1) as nat)
    }
}

/// The words a pool shows from the start, each as the word handed out.
pub open spec fn as_shown(words: Seq<String>) -> Seq<Option<String>> {
    words.map_values(|w: String| Some(w))
}

proof fn lemma_draws_walk_pool(m: SessionModel, k: nat)
    requires
        coherent(m),
        m.phase == Phase::Presenting,
        m.shown + k <= m.pool.len(),
    ensures
        draws(m, k) == as_shown(m.pool.subrange(m.shown as int, (m.shown + k) as int)),
        after(m, k) == (SessionModel { shown: m.shown + k, ..m }),
    decreases k,
{
    if k > 0 {
        let next = advanced(m);
        lemma_draws_walk_pool(next, (k - 1) as nat);
        assert(draws(m, k) =~= as_shown(m.pool.subrange(m.shown as int, (m.shown + k) as int)));
    } else {
        assert(draws(m, k) =~= as_shown(m.pool.subrange(m.shown as int, (m.shown + k) as int)));
    }
}

/// Sampling without replacement: while a session presents a pool without
/// repeated words and `n` words are left, `n` requests for the next word hand
/// out exactly those words, in pool order, each once and none of them the
/// current word, and the session keeps presenting; the request after them
/// hands out no word and ends the session.
pub proof fn lemma_draws_without_replacement(m: SessionModel)
    requires
        coherent(m),
        m.phase == Phase::Presenting,
        m.pool.no_duplicates(),
    ensures
        draws(m, remaining(m).len()) == as_shown(remaining(m)),
        forall|i: int, j: int|
            0 <= i < j < remaining(m).len() ==> #[trigger] draws(m, remaining(m).len())[i]
                != #[trigger] draws(m, remaining(m).len())[j],
        forall|i: int|
            0 <= i < remaining(m).len() ==> #[trigger] draws(m, remaining(m).len())[i]
                != current(m),
        after(m, remaining(m).len()).phase == Phase::Presenting,
        drawn(after(m, remaining(m).len())) is None,
        advanced(after(m, remaining(m).len())).phase == Phase::Exhausted,
{
    let n = remaining(m).len();
    lemma_draws_walk_pool(m, n);
    assert(m.pool.subrange(m.shown as int, (m.shown + n) as int) == remaining(m));
}

/// Every word of a non-empty pool is presented once: the first when the
/// session starts, the others by the requests that follow.
pub proof fn lemma_session_presents_pool(pool: Seq<String>)
    requires
        pool.len() > 0,
    ensures
        seq![current(started(pool))] + draws(started(pool), (pool.len() - 1) as nat) == as_shown(
            pool,
        ),
{
    let m = started(pool);
    lemma_draws_walk_pool(m, (pool.len() - 1) as nat);
    assert(seq![current(m)] + draws(m, (pool.len() - 1) as nat) =~= as_shown(pool));
}

/// A session that ran out can start over: reconfiguring leaves a session
/// that may be started, and the session that a new pool starts presents that
/// pool from its first word, whatever an earlier session had shown.
pub proof fn lemma_restart_is_fresh(pool: Seq<String>)
    ensures
        coherent(configuring()),
        configuring().phase == Phase::Configuring,
        coherent(started(pool)),
        started(pool).pool == pool,
        pool.len() > 0 ==> current(started(pool)) == Some(pool[0]) && remaining(started(pool))
            == pool.skip(1),
        pool.len() == 0 ==> started(pool).phase == Phase::Exhausted,
{
}

/// A reading session over one pool at a time.
pub struct Session {
    phase: Phase,
    pool: Vec<String>,
    shown: usize,
}

impl View for Session {
    type V = SessionModel;

    closed spec fn view(&self) -> SessionModel {
        SessionModel { phase: self.phase, pool: self.pool@, shown: self.shown as nat }
    }
}

impl Session {
    pub open spec fn wf(&self) -> bool {
        coherent(self@)
    }

    /// A session waiting for its configuration.
    pub fn new() -> (r: Session)
        ensures
            r@ == configuring(),
            r.wf(),
    {
        Session { phase: Phase::Configuring, pool: Vec::new(), shown: 0 }
    }

    /// The phase the session is in.
    pub fn phase(&self) -> (r: Phase)
        ensures
            r == self@.phase,
    {
        self.phase
    }

    /// Drops the pool of a session that is not presenting and waits for a new
    /// configuration.
    pub fn reconfigure(&mut self)
        requires
            old(self).wf(),
            old(self)@.phase != Phase::Presenting,
        ensures
            final(self)@ == configuring(),
            final(self).wf(),
    {
        self.phase = Phase::Configuring;
        self.pool = Vec::new();
        self.shown = 0;
    }

    /// Starts presenting `pool`: its first word becomes the current word and
    /// the rest wait; an empty pool ends the session at once.
    pub fn begin(&mut self, pool: Vec<String>)
        requires
            old(self).wf(),
            old(self)@.phase != Phase::Presenting,
        ensures
            final(self)@ == started(pool@),
            final(self).wf(),
    {
        if pool.len() == 0 {
            self.phase = Phase::Exhausted;
            self.shown = 0;
        } else {
            self.phase = Phase::Presenting;
            self.shown = 1;
        }
        self.pool = pool;
    }

    /// Builds a pool from `corpus` (`None` when the word list could not be
    /// read) and starts presenting it. On failure the session is unchanged.
    pub fn start_session(
        &mut self,
        corpus: Option<&Lexicon>,
        allowed_chars: Option<String>,
        num_words: usize,
        diff: Difficulty,
    ) -> (r: Result<(), PoolError>)
        requires
            old(self).wf(),
            old(self)@.phase != Phase::Presenting,
            corpus matches Some(c) ==> c.wf(),
        ensures
            final(self).wf(),
            corpus is None ==> r == Err::<(), PoolError>(PoolError::CorpusUnavailable),
            r is Err ==> final(self)@ == old(self)@,
            r == Err::<(), PoolError>(PoolError::InvalidCharsetPattern) ==> {
                &&& allowed_chars is Some
                &&& sanitized(allowed_chars->0@).len() > 0
                &&& !letters_compile(sanitized(allowed_chars->0@))
            },
            r is Ok ==> {
                &&& corpus is Some
                &&& final(self)@ == started(final(self)@.pool)
                &&& final(self)@.pool.no_duplicates()
                &&& is_pool_of(
                    final(self)@.pool,
                    candidates(corpus->0@, diff, letters_view(allowed_chars)),
                    num_words as nat,
                )
            },
            corpus is Some && (allowed_chars is None || sanitized(allowed_chars->0@).len() == 0
                || letters_compile(sanitized(allowed_chars->0@))) ==> r is Ok,
    {
        match corpus {
            None => Err(PoolError::CorpusUnavailable),
            Some(lex) => match get_word_pool(lex, allowed_chars, num_words, diff) {
                Err(e) => Err(e),
                Ok(pool) => {
                    self.begin(pool);
                    Ok(())
                },
            },
        }
    }

    /// Hands out the next word of the pool and makes it the current word; when
    /// none is left, the session ends and no word is handed out.
    pub fn next_word(&mut self) -> (r: Option<String>)
        requires
            old(self).wf(),
            old(self)@.phase == Phase::Presenting,
        ensures
            r == drawn(old(self)@),
            final(self)@ == advanced(old(self)@),
            final(self).wf(),
    {
        if self.shown < self.pool.len() {
            let w = self.pool[self.shown].clone();
            self.shown = self.shown + 1;
            Some(w)
        } else {
            self.phase = Phase::Exhausted;
            None
        }
    }

    /// How many words wait to be shown, the current one not counted.
    pub fn remaining_count(&self) -> (r: usize)
        requires
            self.wf(),
        ensures
            r == remaining(self@).len(),
    {
        if self.phase == Phase::Presenting {
            self.pool.len() - self.shown
        } else {
            0
        }
    }

    /// The word on display, while presenting.
    pub fn current_word(&self) -> (r: Option<String>)
        requires
            self.wf(),
        ensures
            r == current(self@),
    {
        if self.phase == Phase::Presenting {
            Some(self.pool[self.shown - 1].clone())
        } else {
            None
        }
    }
}

} // verus!
