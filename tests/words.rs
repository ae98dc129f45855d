use hangman::words::{
    iter_words, record_at, word_from_csv, ParseWordError, Word, WordListError, WordWithHint,
    BUILTIN_WORDS,
};

#[test]
fn words_are_trimmed() {
    let w = Word::from_str("  secret word \t").unwrap();
    assert_eq!(w.as_ref(), "secret word");
}

#[test]
fn empty_or_blank_words_are_rejected() {
    assert_eq!(Word::from_str("").err(), Some(ParseWordError));
    assert_eq!(Word::from_str(" \t\n ").err(), Some(ParseWordError));
    assert_eq!(
        ParseWordError.message(),
        "hangman words cannot be empty or all-whitespace"
    );
}

#[test]
fn from_trimmed_takes_the_text_as_it_is() {
    assert_eq!(Word::from_trimmed("a b").unwrap().as_ref(), "a b");
    assert_eq!(Word::from_trimmed("").err(), Some(ParseWordError));
}

#[test]
fn record_fields_give_word_and_hint() {
    let wh = WordWithHint::from_record(&vec![String::from("apple"), String::from("A fruit")])
        .unwrap();
    assert_eq!(wh.word.as_ref(), "apple");
    assert_eq!(wh.hint.as_deref(), Some("A fruit"));
    let wh = WordWithHint::from_record(&vec![String::from("pear"), String::new()]).unwrap();
    assert_eq!(wh.hint, None);
    let wh = WordWithHint::from_record(&vec![String::from("plum")]).unwrap();
    assert_eq!(wh.hint, None);
    assert_eq!(
        WordWithHint::from_record(&vec![String::from("  "), String::from("hint")]).err(),
        Some(ParseWordError)
    );
    assert_eq!(WordWithHint::from_record(&vec![]).err(), Some(ParseWordError));
}

#[test]
fn single_record_list_gives_its_word() {
    let r = word_from_csv(b" banana , A yellow fruit \n").unwrap().unwrap();
    assert_eq!(r.word.as_ref(), "banana");
    assert_eq!(r.hint.as_deref(), Some("A yellow fruit"));
}

#[test]
fn empty_list_gives_nothing() {
    assert!(word_from_csv(b"").is_none());
}

#[test]
fn chosen_word_comes_from_the_list() {
    for _ in 0..20 {
        let r = word_from_csv(b"cherry\ngrape,purple\n").unwrap().unwrap();
        match r.word.as_ref() {
            "cherry" => assert_eq!(r.hint, None),
            "grape" => assert_eq!(r.hint.as_deref(), Some("purple")),
            other => panic!("unexpected word {other}"),
        }
    }
}

#[test]
fn invalid_record_gives_an_error() {
    let r = word_from_csv(b" ,no word here\n").unwrap();
    assert_eq!(r.err(), Some(WordListError::InvalidWord));
    let records = vec![None, Some(vec![String::from("kiwi")])];
    assert_eq!(record_at(&records, 0).err(), Some(WordListError::Unreadable));
    assert_eq!(record_at(&records, 1).unwrap().word.as_ref(), "kiwi");
    assert_eq!(WordListError::Unreadable.message(), "failed to read words file");
}

#[test]
fn test_nonempty_builtin_list() {
    let builtins = iter_words(BUILTIN_WORDS.as_bytes());
    assert!(builtins.len() > 0);
}

#[test]
fn test_builtin_list_ok() {
    let builtins = iter_words(BUILTIN_WORDS.as_bytes());
    assert!(builtins.iter().all(|r| r.is_ok()));
}

#[test]
fn every_record_is_read_in_order() {
    let words = iter_words(b"one,first\n\ntwo\n\"\",empty\n");
    assert_eq!(words.len(), 3);
    assert_eq!(words[0].as_ref().unwrap().word.as_ref(), "one");
    assert_eq!(words[0].as_ref().unwrap().hint.as_deref(), Some("first"));
    assert_eq!(words[1].as_ref().unwrap().word.as_ref(), "two");
    assert_eq!(words[2].as_ref().err(), Some(&WordListError::InvalidWord));
}
