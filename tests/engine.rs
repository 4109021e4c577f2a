use std::collections::HashSet;

use vamos_ler::{
    active_letters, allowed_difficulty, anchored_class_of, get_word_pool, keyboard_keys, retain_marked, sanitize_filter,
    Difficulty, Lexicon, Phase, PoolError, RunSettings, Session,
};

fn words(list: &[&str]) -> Vec<String> {
    list.iter().map(|w| w.to_string()).collect()
}

fn sample_corpus() -> Vec<String> {
    words(&[
        "papa",
        "ai",
        "batata",
        "resolve",
        "pá",
        "impotente",
        "alarvará",
        "hipotético",
        "pô-los",
        "anticonstitucionalissimamente",
        "aâæãée-24ēçćc-bbò",
    ])
}

fn tier_set(corpus: &[String], diff: Difficulty) -> HashSet<String> {
    corpus.iter().filter(|w| allowed_difficulty(w, &diff)).cloned().collect()
}

fn set(list: &[&str]) -> HashSet<String> {
    list.iter().map(|w| w.to_string()).collect()
}

#[test]
fn classifier_thresholds() {
    let d = Difficulty::Easiest;
    assert!(allowed_difficulty(&"abcde".to_owned(), &d));
    assert!(!allowed_difficulty(&"abcdef".to_owned(), &d));
    assert!(!allowed_difficulty(&"a-b".to_owned(), &d));
    let d = Difficulty::Easy;
    assert!(!allowed_difficulty(&"ab".to_owned(), &d));
    assert!(allowed_difficulty(&"abc".to_owned(), &d));
    assert!(allowed_difficulty(&"abcdefg".to_owned(), &d));
    assert!(!allowed_difficulty(&"abcdefgh".to_owned(), &d));
    let d = Difficulty::Medium;
    assert!(!allowed_difficulty(&"abcd".to_owned(), &d));
    assert!(allowed_difficulty(&"abcde".to_owned(), &d));
    assert!(allowed_difficulty(&"abcdefghi".to_owned(), &d));
    assert!(!allowed_difficulty(&"abcdefghij".to_owned(), &d));
    let d = Difficulty::Hard;
    assert!(!allowed_difficulty(&"abcde".to_owned(), &d));
    assert!(allowed_difficulty(&"abc-de".to_owned(), &d));
    assert!(!allowed_difficulty(&"ab-c-de".to_owned(), &d));
    assert!(allowed_difficulty(&"abcdefghijk".to_owned(), &d));
    assert!(!allowed_difficulty(&"abcdefghijkl".to_owned(), &d));
    let d = Difficulty::Hardest;
    assert!(!allowed_difficulty(&"abcdefghij".to_owned(), &d));
    assert!(allowed_difficulty(&"a-b-c-d-e-f".to_owned(), &d));
    // ten characters, eleven bytes
    assert!(!allowed_difficulty(&"hipotético".to_owned(), &d));
}

#[test]
fn empty_word_fits_no_tier() {
    let empty = String::new();
    assert!(!allowed_difficulty(&empty, &Difficulty::Easiest));
    assert!(!allowed_difficulty(&empty, &Difficulty::Easy));
    assert!(!allowed_difficulty(&empty, &Difficulty::Medium));
    assert!(!allowed_difficulty(&empty, &Difficulty::Hard));
    assert!(!allowed_difficulty(&empty, &Difficulty::Hardest));
}

#[test]
fn classifier_is_repeatable() {
    for w in sample_corpus() {
        for d in [Difficulty::Easiest, Difficulty::Easy, Difficulty::Medium, Difficulty::Hard, Difficulty::Hardest] {
            assert_eq!(allowed_difficulty(&w, &d), allowed_difficulty(&w.clone(), &d));
        }
    }
}

#[test]
fn tier_filter_on_sample_corpus() {
    let corpus = sample_corpus();
    assert_eq!(tier_set(&corpus, Difficulty::Hardest), set(&["anticonstitucionalissimamente", "aâæãée-24ēçćc-bbò"]));
    // "pá" is two characters with no hyphen, which the easiest tier admits.
    assert_eq!(tier_set(&corpus, Difficulty::Easiest), set(&["papa", "ai", "pá"]));
}

#[test]
fn sanitize_is_idempotent() {
    for s in ["Robert'); DROP TABLE Students;--", "aâæãée24ēçćcbbò", "", "123 !?", "ab c\td"] {
        let once = sanitize_filter(&s.to_owned());
        assert_eq!(sanitize_filter(&once), once);
        assert!(once.chars().all(|c| c.is_alphabetic()));
    }
    assert_eq!(sanitize_filter(&"123 !?".to_owned()), "");
}

#[test]
fn retain_marked_keeps_marked_positions() {
    assert_eq!(retain_marked(&"aébc".to_owned(), &vec![true, true, false, true]), "aéc");
    assert_eq!(retain_marked(&"abc".to_owned(), &vec![false, false, false]), "");
}

#[test]
fn lexicon_splits_by_tier() {
    let corpus = sample_corpus();
    let lex = Lexicon::from_words(&corpus);
    let pool = get_word_pool(&lex, None, 100, Difficulty::Medium).unwrap();
    let got: HashSet<String> = pool.iter().cloned().collect();
    assert_eq!(got, set(&["impotente", "alarvará", "batata", "resolve"]));
    assert_eq!(pool.len(), 4);
}

#[test]
fn pool_respects_count_and_filters() {
    let corpus = sample_corpus();
    let lex = Lexicon::from_words(&corpus);
    for count in 0..6 {
        let pool = get_word_pool(&lex, None, count, Difficulty::Hard).unwrap();
        assert_eq!(pool.len(), count.min(6));
        let distinct: HashSet<&String> = pool.iter().collect();
        assert_eq!(distinct.len(), pool.len());
        for w in &pool {
            assert!(allowed_difficulty(w, &Difficulty::Hard));
        }
    }
}

#[test]
fn pool_with_letter_filter() {
    let corpus = words(&["papa", "pápa", "apa", "Papa", "pa", "capa", "a", "ppp"]);
    let lex = Lexicon::from_words(&corpus);
    let pool = get_word_pool(&lex, Some("p a!".to_owned()), 10, Difficulty::Easiest).unwrap();
    let got: HashSet<String> = pool.iter().cloned().collect();
    assert_eq!(got, set(&["papa", "apa", "pa", "a", "ppp"]));
    let pool = get_word_pool(&lex, Some("pa".to_owned()), 2, Difficulty::Easiest).unwrap();
    assert_eq!(pool.len(), 2);
    for w in &pool {
        assert!(w.chars().all(|c| c == 'p' || c == 'a'));
    }
}

#[test]
fn pool_under_filled_returns_every_candidate() {
    let lex = Lexicon::from_words(&sample_corpus());
    let pool = get_word_pool(&lex, None, 10, Difficulty::Hardest).unwrap();
    let got: HashSet<String> = pool.iter().cloned().collect();
    assert_eq!(got, set(&["anticonstitucionalissimamente", "aâæãée-24ēçćc-bbò"]));
}

#[test]
fn empty_allowed_letters_give_empty_pool() {
    let lex = Lexicon::from_words(&sample_corpus());
    assert_eq!(get_word_pool(&lex, Some(String::new()), 10, Difficulty::Easy), Ok(vec![]));
    assert_eq!(get_word_pool(&lex, Some("-- 24".to_owned()), 10, Difficulty::Easy), Ok(vec![]));
    let mut session = Session::new();
    assert_eq!(session.start_session(Some(&lex), Some(String::new()), 10, Difficulty::Easy), Ok(()));
    assert_eq!(session.phase(), Phase::Exhausted);
    assert_eq!(session.current_word(), None);
    assert_eq!(session.remaining_count(), 0);
}

#[test]
fn missing_corpus_leaves_session_configuring() {
    let mut session = Session::new();
    assert_eq!(session.start_session(None, None, 10, Difficulty::Easy), Err(PoolError::CorpusUnavailable));
    assert_eq!(session.phase(), Phase::Configuring);
}

#[test]
fn session_hands_out_pool_without_repeats() {
    let mut session = Session::new();
    session.begin(words(&["um", "dois", "três", "quatro"]));
    assert_eq!(session.phase(), Phase::Presenting);
    assert_eq!(session.current_word(), Some("um".to_owned()));
    assert_eq!(session.remaining_count(), 3);
    assert_eq!(session.next_word(), Some("dois".to_owned()));
    assert_eq!(session.current_word(), Some("dois".to_owned()));
    assert_eq!(session.remaining_count(), 2);
    assert_eq!(session.next_word(), Some("três".to_owned()));
    assert_eq!(session.next_word(), Some("quatro".to_owned()));
    assert_eq!(session.remaining_count(), 0);
    assert_eq!(session.phase(), Phase::Presenting);
    assert_eq!(session.next_word(), None);
    assert_eq!(session.phase(), Phase::Exhausted);
}

#[test]
fn sampled_session_presents_each_word_once() {
    let lex = Lexicon::from_words(&sample_corpus());
    let mut session = Session::new();
    session.start_session(Some(&lex), None, 10, Difficulty::Hard).unwrap();
    let mut seen = vec![session.current_word().unwrap()];
    let n = session.remaining_count();
    assert_eq!(n, 5);
    for _ in 0..n {
        seen.push(session.next_word().unwrap());
    }
    assert_eq!(session.next_word(), None);
    assert_eq!(session.phase(), Phase::Exhausted);
    let distinct: HashSet<String> = seen.iter().cloned().collect();
    assert_eq!(distinct.len(), 6);
    assert_eq!(distinct, tier_set(&sample_corpus(), Difficulty::Hard));
}

#[test]
fn restart_after_exhaustion_uses_fresh_pool() {
    let lex = Lexicon::from_words(&sample_corpus());
    let mut session = Session::new();
    session.start_session(Some(&lex), None, 10, Difficulty::Hardest).unwrap();
    while session.next_word().is_some() {}
    assert_eq!(session.phase(), Phase::Exhausted);
    session.reconfigure();
    assert_eq!(session.phase(), Phase::Configuring);
    session.start_session(Some(&lex), None, 10, Difficulty::Hardest).unwrap();
    assert_eq!(session.phase(), Phase::Presenting);
    assert_eq!(session.remaining_count(), 1);
    let mut seen: HashSet<String> = HashSet::new();
    seen.insert(session.current_word().unwrap());
    seen.insert(session.next_word().unwrap());
    assert_eq!(seen, set(&["anticonstitucionalissimamente", "aâæãée-24ēçćc-bbò"]));
}

#[test]
fn start_from_exhausted_without_reconfigure() {
    let mut session = Session::new();
    session.begin(vec![]);
    assert_eq!(session.phase(), Phase::Exhausted);
    session.begin(words(&["sol"]));
    assert_eq!(session.current_word(), Some("sol".to_owned()));
    assert_eq!(session.remaining_count(), 0);
}

#[test]
fn settings_choose_the_filter() {
    let mut settings = RunSettings::new();
    assert_eq!(settings.num_words, 10);
    assert_eq!(settings.difficulty, Difficulty::Easy);
    assert_eq!(Difficulty::default(), Difficulty::Easy);
    assert_eq!(settings.char_filter(), Some(String::new()));
    settings.all_words = true;
    assert_eq!(settings.char_filter(), None);
    settings.all_words = false;
    settings.allowed_chars = "pa".to_owned();
    assert_eq!(settings.char_filter(), Some("pa".to_owned()));

    let lex = Lexicon::from_words(&words(&["papa", "pata", "apa"]));
    let mut session = Session::new();
    assert_eq!(settings.start(&mut session, Some(&lex)), Ok(()));
    assert_eq!(session.remaining_count(), 1);
    let mut seen: HashSet<String> = HashSet::new();
    seen.insert(session.current_word().unwrap());
    seen.insert(session.next_word().unwrap());
    assert_eq!(seen, set(&["papa", "apa"]));
}

#[test]
fn keyboard_joins_active_keys() {
    let keys = keyboard_keys();
    assert_eq!(keys.len(), 26);
    assert_eq!(keys[0].id, "tk_A");
    assert_eq!(keys[0].label, "A");
    let mut active = vec![false; keys.len()];
    assert_eq!(active_letters(&keys, &active), "");
    active[0] = true;
    active[5] = true;
    assert_eq!(active_letters(&keys, &active), "aAàÀáÁâÂãÃbB");
    let all = vec![true; keys.len()];
    assert!(active_letters(&keys, &all).ends_with("zZ"));
}

#[test]
fn injection_payload_admits_only_its_letters() {
    let lex = Lexicon::from_words(&words(&["rosto", "bode", "rosa", "bo'te", "sob;re"]));
    let pool = get_word_pool(&lex, Some("Robert'); DROP TABLE Students;--".to_owned()), 10, Difficulty::Easy).unwrap();
    let got: HashSet<String> = pool.iter().cloned().collect();
    assert_eq!(pool.len(), 2);
    assert_eq!(got, set(&["rosto", "bode"]));
}

#[test]
fn letter_filter_is_case_sensitive_and_whole_word() {
    let lex = Lexicon::from_words(&words(&["papapa", "Papapa", "pap-apa", "papapax"]));
    let pool = get_word_pool(&lex, Some("pa".to_owned()), 10, Difficulty::Hard);
    assert_eq!(pool, Ok(vec!["papapa".to_owned()]));
}

#[test]
fn repeated_lines_are_kept_once() {
    let lex = Lexicon::from_words(&words(&["papa", "papa", "ai", "papa", "ai", "sol"]));
    let pool = get_word_pool(&lex, None, 10, Difficulty::Easiest).unwrap();
    assert_eq!(pool.len(), 3);
    let got: HashSet<String> = pool.iter().cloned().collect();
    assert_eq!(got, set(&["papa", "ai", "sol"]));
    let mut session = Session::new();
    session.start_session(Some(&lex), None, 10, Difficulty::Easiest).unwrap();
    assert_eq!(session.remaining_count(), 2);
}

#[test]
fn pattern_for_letters() {
    assert_eq!(anchored_class_of(&"pá".to_owned()), "^[pá]+$");
    assert_eq!(anchored_class_of(&String::new()), "^[]+$");
}
