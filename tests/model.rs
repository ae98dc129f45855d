use hangman::model::{Fate, Gallows, Hangman, HangmanError, Lost, Response, ASCII_ALPHABET};
use hangman::words::Word;

fn game(word: &str) -> Hangman {
    Hangman::new(Word::from_str(word).unwrap(), ASCII_ALPHABET).unwrap()
}

fn unguessed(game: &Hangman) -> usize {
    game.guessed().iter().filter(|&&(_, b)| !b).count()
}

#[test]
fn test_gallows_end() {
    let iter = std::iter::successors(Some(Gallows::Start), |&g| g.succ());
    assert_eq!(Gallows::END, iter.last().unwrap());
}

#[test]
fn gallows_states_in_order() {
    let states: Vec<Gallows> =
        std::iter::successors(Some(Gallows::Start), |&g| g.succ()).collect();
    assert_eq!(
        states,
        vec![
            Gallows::Start,
            Gallows::AddHead,
            Gallows::AddTorso,
            Gallows::AddLeftArm,
            Gallows::AddRightArm,
            Gallows::AddLeftLeg,
            Gallows::AddRightLeg,
        ]
    );
}

#[test]
fn cab_end_to_end() {
    let mut g = game("CAB");
    assert_eq!(
        g.guess('C'),
        Response::GoodGuess { guess: 'C', count: 1, won: false }
    );
    assert_eq!(
        g.guess('A'),
        Response::GoodGuess { guess: 'A', count: 1, won: false }
    );
    assert_eq!(g.guess('Z'), Response::BadGuess { guess: 'Z', lost: None });
    assert_eq!(g.gallows(), Gallows::AddHead);
    assert_eq!(
        g.guess('B'),
        Response::GoodGuess { guess: 'B', count: 1, won: true }
    );
    assert_eq!(g.fate(), Some(Fate::Won));
    assert_eq!(g.known_letters(), &[Some('C'), Some('A'), Some('B')]);
}

#[test]
fn go_lost_after_six_misses() {
    let mut g = game("GO");
    let expected = [
        Gallows::AddHead,
        Gallows::AddTorso,
        Gallows::AddLeftArm,
        Gallows::AddRightArm,
        Gallows::AddLeftLeg,
        Gallows::AddRightLeg,
    ];
    for (i, ch) in ['Q', 'W', 'X', 'Z', 'J', 'K'].into_iter().enumerate() {
        let r = g.guess(ch);
        assert_eq!(g.gallows(), expected[i]);
        if i < 5 {
            assert_eq!(r, Response::BadGuess { guess: ch, lost: None });
            assert_eq!(g.fate(), None);
        } else {
            let lost = Lost { word: vec!['G', 'O'] };
            assert_eq!(r, Response::BadGuess { guess: ch, lost: Some(lost.clone()) });
            assert_eq!(g.fate(), Some(Fate::Lost(lost)));
        }
    }
}

#[test]
fn prereveals_characters_outside_alphabet() {
    let g = game("Ice-cream cone");
    let known = g.known_letters();
    assert_eq!(known.len(), 14);
    let shown: Vec<usize> = (0..known.len()).filter(|&i| known[i].is_some()).collect();
    assert_eq!(shown, vec![3, 9]);
    assert_eq!(known[3], Some('-'));
    assert_eq!(known[9], Some(' '));
    assert_eq!(unguessed(&g), 26);
    assert_eq!(g.gallows(), Gallows::Start);
    assert_eq!(g.fate(), None);
}

#[test]
fn word_and_alphabet_are_normalized() {
    let mut g = Hangman::new(Word::from_str("abc").unwrap(), "cba").unwrap();
    let keys: Vec<char> = g.guessed().iter().map(|&(c, _)| c).collect();
    assert_eq!(keys, vec!['A', 'B', 'C']);
    assert_eq!(g.known_letters(), &[None, None, None]);
    assert_eq!(
        g.guess('b'),
        Response::GoodGuess { guess: 'B', count: 1, won: false }
    );
    assert_eq!(g.known_letters(), &[None, Some('B'), None]);
}

#[test]
fn repeated_alphabet_characters_are_one_key() {
    let g = Hangman::new(Word::from_str("zz").unwrap(), "zZyZ").unwrap();
    assert_eq!(g.guessed(), &vec![('Y', false), ('Z', false)]);
}

#[test]
fn no_alphabet_overlap_is_an_error() {
    let r = Hangman::new(Word::from_str("123-45").unwrap(), ASCII_ALPHABET);
    assert_eq!(r.err(), Some(HangmanError::NoAlphabetOverlap));
    assert_eq!(
        HangmanError::NoAlphabetOverlap.message(),
        "secret word must contain at least one letter from the alphabet"
    );
}

#[test]
fn invalid_guess_changes_nothing() {
    let mut g = game("CAB");
    g.guess('Q');
    let letters = g.guessed().clone();
    let known = g.known_letters().to_vec();
    let gallows = g.gallows();
    assert_eq!(g.guess('7'), Response::InvalidGuess { guess: '7' });
    assert_eq!(g.guess('é'), Response::InvalidGuess { guess: 'é' });
    assert_eq!(g.guessed(), &letters);
    assert_eq!(g.known_letters(), known.as_slice());
    assert_eq!(g.gallows(), gallows);
    assert_eq!(g.fate(), None);
}

#[test]
fn repeated_guess_is_reported_and_changes_nothing() {
    let mut g = game("BANANA");
    assert_eq!(
        g.guess('a'),
        Response::GoodGuess { guess: 'A', count: 3, won: false }
    );
    let letters = g.guessed().clone();
    let known = g.known_letters().to_vec();
    assert_eq!(g.guess('A'), Response::AlreadyGuessed { guess: 'A' });
    assert_eq!(g.guessed(), &letters);
    assert_eq!(g.known_letters(), known.as_slice());
    assert_eq!(g.guess('X'), Response::BadGuess { guess: 'X', lost: None });
    assert_eq!(g.guess('x'), Response::AlreadyGuessed { guess: 'X' });
    assert_eq!(g.gallows(), Gallows::AddHead);
}

#[test]
fn gallows_advance_only_on_new_misses() {
    let mut g = game("HELLO");
    g.guess('L');
    assert_eq!(g.gallows(), Gallows::Start);
    g.guess('Z');
    assert_eq!(g.gallows(), Gallows::AddHead);
    g.guess('Z');
    assert_eq!(g.gallows(), Gallows::AddHead);
    g.guess('5');
    assert_eq!(g.gallows(), Gallows::AddHead);
    g.guess('Q');
    assert_eq!(g.gallows(), Gallows::AddTorso);
}

#[test]
fn guesses_after_game_over_change_nothing() {
    let mut g = game("AA");
    assert_eq!(
        g.guess('A'),
        Response::GoodGuess { guess: 'A', count: 2, won: true }
    );
    let letters = g.guessed().clone();
    for ch in ['A', 'B', '1'] {
        assert_eq!(g.guess(ch), Response::GameOver);
    }
    assert_eq!(g.guessed(), &letters);
    assert_eq!(g.gallows(), Gallows::Start);
    assert_eq!(g.fate(), Some(Fate::Won));
}

#[test]
fn guesses_after_loss_change_nothing() {
    let mut g = game("A");
    for ch in ['B', 'C', 'D', 'E', 'F', 'G'] {
        g.guess(ch);
    }
    assert_eq!(g.fate(), Some(Fate::Lost(Lost { word: vec!['A'] })));
    assert_eq!(g.guess('A'), Response::GameOver);
    assert_eq!(g.known_letters(), &[None]);
    assert_eq!(g.gallows(), Gallows::END);
}

#[test]
fn guessing_every_letter_wins_on_the_last() {
    let mut g = game("Mississippi");
    let mut responses = Vec::new();
    for ch in ['s', 'm', 'p', 'i'] {
        responses.push(g.guess(ch));
    }
    assert_eq!(
        responses,
        vec![
            Response::GoodGuess { guess: 'S', count: 4, won: false },
            Response::GoodGuess { guess: 'M', count: 1, won: false },
            Response::GoodGuess { guess: 'P', count: 2, won: false },
            Response::GoodGuess { guess: 'I', count: 4, won: true },
        ]
    );
    assert!(g.known_letters().iter().all(Option::is_some));
    assert_eq!(g.fate(), Some(Fate::Won));
}
