use meow::bip39::{join_words, mnemonic, safe_key, ConfigurationError, IdentifierGenerationError, Wordlist};

fn list(words: &[&str]) -> Vec<String> {
    words.iter().map(|w| w.to_string()).collect()
}

fn sample_words() -> Vec<String> {
    list(&["abandon", "ability", "able", "about", "above", "absent", "absorb", "abstract"])
}

fn split_and_check(id: &str, words: &[String], len: usize) {
    let parts: Vec<&str> = id.split('-').collect();
    assert_eq!(parts.len(), len);
    for (i, p) in parts.iter().enumerate() {
        assert!(words.iter().any(|w| w == p), "{} is not in the list", p);
        for q in &parts[..i] {
            assert_ne!(p, q);
        }
    }
}

#[test]
fn join_words_puts_hyphens_between() {
    assert_eq!(join_words(&list(&["one", "two", "three"])), "one-two-three");
    assert_eq!(join_words(&list(&["solo"])), "solo");
    assert_eq!(join_words(&Vec::new()), "");
}

#[test]
fn mnemonic_has_requested_number_of_distinct_words() {
    let words = sample_words();
    let wl = Wordlist::new(words.clone()).unwrap();
    for len in 1..=words.len() {
        for _ in 0..20 {
            let id = mnemonic(&wl, len).unwrap();
            split_and_check(&id, &words, len);
        }
    }
}

#[test]
fn mnemonic_of_whole_list_uses_every_word() {
    let words = sample_words();
    let wl = Wordlist::new(words.clone()).unwrap();
    let id = mnemonic(&wl, words.len()).unwrap();
    let mut parts: Vec<String> = id.split('-').map(|s| s.to_string()).collect();
    parts.sort();
    let mut sorted = words.clone();
    sorted.sort();
    assert_eq!(parts, sorted);
}

#[test]
fn mnemonic_of_zero_words_is_refused() {
    let wl = Wordlist::new(sample_words()).unwrap();
    assert_eq!(
        mnemonic(&wl, 0),
        Err(IdentifierGenerationError { requested: 0, available: 8 })
    );
}

#[test]
fn mnemonic_longer_than_list_is_refused() {
    let wl = Wordlist::new(sample_words()).unwrap();
    assert_eq!(
        mnemonic(&wl, 9),
        Err(IdentifierGenerationError { requested: 9, available: 8 })
    );
    assert_eq!(
        mnemonic(&wl, usize::MAX),
        Err(IdentifierGenerationError { requested: usize::MAX, available: 8 })
    );
}

#[test]
fn wordlist_refuses_bad_words() {
    assert_eq!(
        Wordlist::new(list(&["good", "Bad"])).err(),
        Some(ConfigurationError::InvalidWord(1))
    );
    assert_eq!(
        Wordlist::new(list(&["", "x"])).err(),
        Some(ConfigurationError::InvalidWord(0))
    );
    assert_eq!(
        Wordlist::new(list(&["a-b"])).err(),
        Some(ConfigurationError::InvalidWord(0))
    );
    assert_eq!(
        Wordlist::new(list(&["one", "two", "one"])).err(),
        Some(ConfigurationError::DuplicateWord(2))
    );
}

#[test]
fn wordlist_keeps_its_words() {
    let wl = Wordlist::new(sample_words()).unwrap();
    assert_eq!(wl.len(), 8);
    assert_eq!(Wordlist::new(Vec::new()).unwrap().len(), 0);
}

#[test]
fn safe_key_accepts_identifiers_only() {
    assert!(safe_key("abandon-ability"));
    assert!(safe_key("able"));
    assert!(!safe_key(""));
    assert!(!safe_key("../etc"));
    assert!(!safe_key("Able"));
    assert!(!safe_key("a b"));
}
