use hangman::controller::{display_known_letters, Controller};
use hangman::model::{Gallows, HangmanError};
use hangman::view::{CharDisplay, Message};
use hangman::words::{Word, WordWithHint};

fn controller(word: &str, hint: Option<&str>) -> Controller {
    Controller::new(WordWithHint {
        word: Word::from_str(word).unwrap(),
        hint: hint.map(String::from),
    })
    .unwrap()
}

#[test]
fn known_letters_are_displayed() {
    assert_eq!(
        display_known_letters(&[Some('A'), None, Some('-')]),
        vec![CharDisplay::Plain('A'), CharDisplay::Blank, CharDisplay::Plain('-')]
    );
}

#[test]
fn start_content() {
    let c = controller("ab-c", Some("letters"));
    let content = c.start();
    assert_eq!(content.hint.as_deref(), Some("letters"));
    assert_eq!(content.gallows, Gallows::Start);
    assert_eq!(content.guess_options.len(), 26);
    assert!(content.guess_options.iter().all(Option::is_some));
    assert_eq!(
        content.word_display,
        vec![
            CharDisplay::Blank,
            CharDisplay::Blank,
            CharDisplay::Plain('-'),
            CharDisplay::Blank
        ]
    );
    assert_eq!(content.message, Message::Start);
    assert!(!content.game_over);
}

#[test]
fn good_guess_is_highlighted() {
    let mut c = controller("abca", None);
    let content = c.play('a');
    assert_eq!(
        content.word_display,
        vec![
            CharDisplay::Highlighted('A'),
            CharDisplay::Blank,
            CharDisplay::Blank,
            CharDisplay::Highlighted('A')
        ]
    );
    assert_eq!(content.message, Message::GoodGuess { guess: 'A', count: 2 });
    assert_eq!(content.guess_options[0], None);
    assert_eq!(content.guess_options[1], Some('B'));
    let content = c.play('b');
    assert_eq!(
        content.word_display,
        vec![
            CharDisplay::Plain('A'),
            CharDisplay::Highlighted('B'),
            CharDisplay::Blank,
            CharDisplay::Plain('A')
        ]
    );
}

#[test]
fn other_outcomes_become_messages() {
    let mut c = controller("abc", None);
    assert_eq!(c.play('z').message, Message::BadGuess { guess: 'Z' });
    assert_eq!(c.play('z').message, Message::AlreadyGuessed { guess: 'Z' });
    let content = c.play('%');
    assert_eq!(content.message, Message::InvalidGuess { guess: '%' });
    assert_eq!(content.gallows, Gallows::AddHead);
}

#[test]
fn win_ends_the_game() {
    let mut c = controller("ab", None);
    c.play('a');
    let content = c.play('b');
    assert_eq!(content.message, Message::Won);
    assert!(content.game_over);
}

#[test]
fn loss_reveals_the_word() {
    let mut c = controller("abc", None);
    c.play('b');
    let mut content = c.play('q');
    for ch in ['w', 'e', 'r', 't', 'y'] {
        content = c.play(ch);
    }
    assert_eq!(content.message, Message::Lost);
    assert!(content.game_over);
    assert_eq!(content.gallows, Gallows::AddRightLeg);
    assert_eq!(
        content.word_display,
        vec![
            CharDisplay::Highlighted('A'),
            CharDisplay::Plain('B'),
            CharDisplay::Highlighted('C')
        ]
    );
}

#[test]
fn word_without_letters_is_refused() {
    let r = Controller::new(WordWithHint {
        word: Word::from_str("42").unwrap(),
        hint: None,
    });
    assert_eq!(r.err(), Some(HangmanError::NoAlphabetOverlap));
}
