//! Word selection for a reading-practice session: a difficulty classifier,
//! an allowed-letter filter, a random pool sampler and the session that hands
//! the pool out one word at a time.
pub mod charset;
pub mod difficulty;
pub mod lexicon;
pub mod pool;
pub mod session;
pub mod settings;

pub use charset::{anchored_class_of, retain_marked, sanitize_filter};
pub use difficulty::{Difficulty, allowed_difficulty};
pub use lexicon::Lexicon;
pub use pool::{PoolError, get_word_pool};
pub use session::{Phase, Session};
pub use settings::{LetterKey, RunSettings, active_letters, keyboard_keys};
