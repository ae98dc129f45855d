//! The turns of a game: each guess is played and turned into a snapshot of
//! the screen.

use crate::model::{
    can_start, guess_step, Fate, FateView, GameState, Hangman, HangmanError, Outcome, Response,
    ASCII_ALPHABET,
};
use crate::view::{CharDisplay, Content, Message};
use crate::words::WordWithHint;
use vstd::prelude::*;

verus! {

/// How the known letters of the word are shown: each revealed character
/// plain, each hidden one blank
pub open spec fn plain_display(known: Seq<Option<char>>) -> Seq<CharDisplay> {
    known.map_values(|o: Option<char>| plain_cell(o))
}

/// How a known letter is shown: plain if revealed, blank if not
pub open spec fn plain_cell(o: Option<char>) -> CharDisplay {
    match o {
        Some(c) => CharDisplay::Plain(c),
        None => CharDisplay::Blank,
    }
}

/// The letter grid's entries: each character that may still be guessed, and
/// `None` for each one already guessed
pub open spec fn options_of(letters: Seq<(char, bool)>) -> Seq<Option<char>> {
    letters.map_values(
        |p: (char, bool)|
            if p.1 {
                None
            } else {
                Some(p.0)
            },
    )
}

/// How the word is shown after a guess with outcome `o` that led to the game
/// `s`: the positions just revealed are highlighted, and on a loss the
/// positions never guessed are revealed highlighted
pub open spec fn turn_display(s: GameState, o: Outcome) -> Seq<CharDisplay> {
    let base = plain_display(s.known);
    let shown = match o {
        Outcome::GoodGuess { guess, .. } => base.map_values(
            |d: CharDisplay| highlight_if(d, CharDisplay::Plain(guess), guess),
        ),
        _ => base,
    };
    match s.fate {
        Some(FateView::Lost(w)) => Seq::new(
            shown.len(),
            |i: int| highlight_if(shown[i], CharDisplay::Blank, w[i]),
        ),
        _ => shown,
    }
}

/// `d` replaced by `c` highlighted where it is `target`
pub open spec fn highlight_if(d: CharDisplay, target: CharDisplay, c: char) -> CharDisplay {
    if d == target {
        CharDisplay::Highlighted(c)
    } else {
        d
    }
}

/// The message after a guess of `raw` with outcome `o`, where the game's
/// fate is then `fate`
pub open spec fn turn_message(o: Outcome, fate: Option<FateView>, raw: char) -> Message {
    match fate {
        Some(FateView::Won) => Message::Won,
        Some(FateView::Lost(_)) => Message::Lost,
        None => match o {
            Outcome::GoodGuess { guess, count, .. } => Message::GoodGuess {
                guess,
                count: count as usize,
            },
            Outcome::BadGuess { guess, .. } => Message::BadGuess { guess },
            Outcome::AlreadyGuessed { guess } => Message::AlreadyGuessed { guess },
            Outcome::InvalidGuess { guess } => Message::InvalidGuess { guess },
            Outcome::GameOver => Message::InvalidGuess { guess: raw },
        },
    }
}

/// Show each known letter plain and each unknown one blank
pub fn display_known_letters(known: &[Option<char>]) -> (r: Vec<CharDisplay>)
    ensures
        r@ == plain_display(known@),
{
    let mut r: Vec<CharDisplay> = Vec::new();
    let mut i: usize = 0;
    assert(plain_display(known@.subrange(0, 0)) =~= Seq::<CharDisplay>::empty());
    while i < known.len()
        invariant
            i <= known.len(),
            r@ == plain_display(known@.subrange(0, i as int)),
        decreases known.len() - i,
    {
        let o = known[i];
        let d = match o {
            Some(ch) => CharDisplay::Plain(ch),
            None => CharDisplay::Blank,
        };
        assert(d == plain_cell(known@[i as int]));
        r.push(d);
        i = i + 1;
        assert(r@ =~= plain_display(known@.subrange(0, i as int)));
    }
    assert(known@.subrange(0, i as int) =~= known@);
    r
}

/// The letter grid's entries for the alphabet `letters`
fn guess_options(letters: &Vec<(char, bool)>) -> (r: Vec<Option<char>>)
    ensures
        r@ == options_of(letters@),
{
    let mut r: Vec<Option<char>> = Vec::new();
    let mut i: usize = 0;
    assert(options_of(letters@.subrange(0, 0)) =~= Seq::<Option<char>>::empty());
    while i < letters.len()
        invariant
            i <= letters.len(),
            r@ == options_of(letters@.subrange(0, i as int)),
        decreases letters.len() - i,
    {
        let (ch, b) = letters[i];
        r.push(
            if b {
                None
            } else {
                Some(ch)
            },
        );
        i = i + 1;
        assert(r@ =~= options_of(letters@.subrange(0, i as int)));
    }
    assert(letters@.subrange(0, i as int) =~= letters@);
    r
}

/// A copy of an optional hint
fn copy_hint(hint: &Option<String>) -> (r: Option<String>)
    ensures
        r == *hint,
{
    match hint {
        Some(h) => Some(h.clone()),
        None => None,
    }
}

/// A game of Hangman on the standard alphabet, with the hint shown beside it
#[derive(Debug)]
pub struct Controller {
    game: Hangman,
    hint: Option<String>,
}

impl Controller {
    /// The state of the game
    pub closed spec fn game(&self) -> GameState {
        self.game@
    }

    /// The hint shown with the game
    pub closed spec fn hint(&self) -> Option<String> {
        self.hint
    }

    /// Start a game on the ASCII uppercase alphabet with the given secret
    /// word and hint; fails when the word holds no letter of that alphabet
    pub fn new(secret: WordWithHint) -> (r: Result<Controller, HangmanError>)
        ensures
            r is Err <==> !can_start(secret.word@, ASCII_ALPHABET@),
            r matches Ok(c) ==> c.game().is_initial(secret.word@, ASCII_ALPHABET@) && c.hint()
                == secret.hint,
    {
        let WordWithHint { word, hint } = secret;
        match Hangman::new(word, ASCII_ALPHABET) {
            Ok(game) => Ok(Controller { game, hint }),
            Err(e) => Err(e),
        }
    }

    /// The snapshot of the screen before the first guess
    pub fn start(&self) -> (r: Content)
        ensures
            r.hint == self.hint(),
            r.gallows == self.game().gallows,
            r.guess_options@ == options_of(self.game().letters),
            r.word_display@ == plain_display(self.game().known),
            r.message == Message::Start,
            !r.game_over,
    {
        Content {
            hint: copy_hint(&self.hint),
            gallows: self.game.gallows(),
            guess_options: guess_options(self.game.guessed()),
            word_display: display_known_letters(self.game.known_letters()),
            message: Message::Start,
            game_over: false,
        }
    }

    /// Play a guess and return the snapshot of the screen after it
    pub fn play(&mut self, guess: char) -> (r: Content)
        ensures
            final(self).game() == guess_step(old(self).game(), guess).0,
            final(self).hint() == old(self).hint(),
            r.hint == old(self).hint(),
            r.gallows == final(self).game().gallows,
            r.guess_options@ == options_of(final(self).game().letters),
            r.word_display@ == turn_display(
                final(self).game(),
                guess_step(old(self).game(), guess).1,
            ),
            r.message == turn_message(
                guess_step(old(self).game(), guess).1,
                final(self).game().fate,
                guess,
            ),
            r.game_over == final(self).game().fate is Some,
    {
        let response = self.game.guess(guess);
        proof {
            use_type_invariant(&self.game);
        }
        let mut word_display = display_known_letters(self.game.known_letters());
        let ghost base = word_display@;
        let mut message = match response {
            Response::GoodGuess { guess, count, .. } => {
                let mut i: usize = 0;
                while i < word_display.len()
                    invariant
                        i <= word_display.len(),
                        word_display.len() == base.len(),
                        forall|k: int|
                            0 <= k < i ==> word_display@[k] == highlight_if(
                                base[k],
                                CharDisplay::Plain(guess),
                                guess,
                            ),
                        forall|k: int| i <= k < base.len() ==> word_display@[k] == base[k],
                    decreases word_display.len() - i,
                {
                    if word_display[i] == CharDisplay::Plain(guess) {
                        word_display.set(i, CharDisplay::Highlighted(guess));
                    }
                    i = i + 1;
                }
                Message::GoodGuess { guess, count }
            },
            Response::BadGuess { guess, .. } => Message::BadGuess { guess },
            Response::AlreadyGuessed { guess } => Message::AlreadyGuessed { guess },
            Response::InvalidGuess { guess } => Message::InvalidGuess { guess },
            Response::GameOver => Message::InvalidGuess { guess },
        };
        let ghost shown = word_display@;
        let fate = self.game.fate();
        let game_over = fate.is_some();
        match fate {
            Some(Fate::Won) => {
                message = Message::Won;
            },
            Some(Fate::Lost(lost)) => {
                let mut i: usize = 0;
                while i < word_display.len()
                    invariant
                        i <= word_display.len(),
                        word_display.len() == shown.len(),
                        lost.word.len() == shown.len(),
                        forall|k: int|
                            0 <= k < i ==> word_display@[k] == highlight_if(
                                shown[k],
                                CharDisplay::Blank,
                                lost.word@[k],
                            ),
                        forall|k: int| i <= k < shown.len() ==> word_display@[k] == shown[k],
                    decreases word_display.len() - i,
                {
                    if word_display[i] == CharDisplay::Blank {
                        let c = lost.word[i];
                        word_display.set(i, CharDisplay::Highlighted(c));
                    }
                    i = i + 1;
                }
                message = Message::Lost;
            },
            None => {},
        }
        proof {
            let o = response@;
            assert(word_display@ =~= turn_display(self.game@, o));
        }
        Content {
            hint: copy_hint(&self.hint),
            gallows: self.game.gallows(),
            guess_options: guess_options(self.game.guessed()),
            word_display,
            message,
            game_over,
        }
    }
}

} // verus!
