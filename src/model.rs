//! The rules of a game of Hangman.

use crate::words::Word;
use vstd::prelude::*;

verus! {

/// The 26 uppercase letters of the ASCII alphabet, for use as the
/// `alphabet` argument to `Hangman::new`
pub const ASCII_ALPHABET: &'static str = "ABCDEFGHIJKLMNOPQRSTUVWXYZ";

/// The state of the hangman's gallows in a game of Hangman
#[derive(Clone, Copy, Debug, PartialEq, Eq, Structural, Hash, PartialOrd, Ord)]
pub enum Gallows {
    /// The initial state, when no incorrect guesses have yet been made
    Start,
    /// The state when one incorrect guess has been made
    AddHead,
    /// The state when two incorrect guesses have been made
    AddTorso,
    /// The state when three incorrect guesses have been made
    AddLeftArm,
    /// The state when four incorrect guesses have been made
    AddRightArm,
    /// The state when five incorrect guesses have been made
    AddLeftLeg,
    /// The state when six incorrect guesses (the maximum) have been made
    AddRightLeg,
}

/// The number of incorrect guesses that completes the figure
pub const MAX_MISSES: u8 = 6;

impl Gallows {
    /// Alias for the final `Gallows` state
    pub const END: Gallows = Gallows::AddRightLeg;

    /// The number of incorrect guesses that this state stands for
    pub open spec fn index(self) -> nat {
        match self {
            Gallows::Start => 0,
            Gallows::AddHead => 1,
            Gallows::AddTorso => 2,
            Gallows::AddLeftArm => 3,
            Gallows::AddRightArm => 4,
            Gallows::AddLeftLeg => 5,
            Gallows::AddRightLeg => 6,
        }
    }

    /// The state that stands for `i` incorrect guesses (`i <= 6`)
    pub open spec fn at(i: nat) -> Gallows {
        if i == 0 {
            Gallows::Start
        } else if i == 1 {
            Gallows::AddHead
        } else if i == 2 {
            Gallows::AddTorso
        } else if i == 3 {
            Gallows::AddLeftArm
        } else if i == 4 {
            Gallows::AddRightArm
        } else if i == 5 {
            Gallows::AddLeftLeg
        } else {
            Gallows::AddRightLeg
        }
    }

    /// Return the next gallows state, if any
    pub fn succ(self) -> (r: Option<Gallows>)
        ensures
            r == (if self.index() < MAX_MISSES { Some(Gallows::at(self.index() + 1)) } else { None }),
    {
        match self {
            Gallows::Start => Some(Gallows::AddHead),
            Gallows::AddHead => Some(Gallows::AddTorso),
            Gallows::AddTorso => Some(Gallows::AddLeftArm),
            Gallows::AddLeftArm => Some(Gallows::AddRightArm),
            Gallows::AddRightArm => Some(Gallows::AddLeftLeg),
            Gallows::AddLeftLeg => Some(Gallows::AddRightLeg),
            Gallows::AddRightLeg => None,
        }
    }
}

/// `c` with a lowercase ASCII letter converted to uppercase
pub open spec fn normalized(c: char) -> char {
    if 'a' <= c <= 'z' {
        ((c as u32) - 32) as char
    } else {
        c
    }
}

/// Convert a lowercase ASCII letter to uppercase; any other character is
/// returned unchanged
pub fn normalize_char(c: char) -> (r: char)
    ensures
        r == normalized(c),
{
    if 'a' <= c && c <= 'z' {
        ((c as u8) - 32) as char
    } else {
        c
    }
}

/// Details on a game that the user lost
#[derive(Clone, Debug, PartialEq, Eq)]
pub struct Lost {
    /// The secret word in its entirety, as a consolation prize
    pub word: Vec<char>,
}

/// Outcome of a completed game of Hangman
#[derive(Clone, Debug, PartialEq, Eq)]
pub enum Fate {
    /// The user won
    Won,
    /// The user lost by making too many incorrect guesses
    Lost(Lost),
}

/// Outcome of a guess in Hangman
#[derive(Clone, Debug, PartialEq, Eq)]
pub enum Response {
    /// The guessed character was in the secret word and had not been
    /// previously guessed
    GoodGuess {
        /// The guessed character, converted to uppercase if ASCII
        guess: char,
        /// The number of occurrences of the guess in the secret word
        count: usize,
        /// True iff the user won the game with this guess
        won: bool,
    },
    /// The guessed character was not in the secret word
    BadGuess {
        /// The guessed character, converted to uppercase if ASCII
        guess: char,
        /// `Some` iff the user lost the game with this guess
        lost: Option<Lost>,
    },
    /// The user guessed a character that had already been guessed
    AlreadyGuessed {
        /// The guessed character, converted to uppercase if ASCII
        guess: char,
    },
    /// The user guessed a character that was not in the game's alphabet
    InvalidGuess {
        /// The guessed character, converted to uppercase if ASCII
        guess: char,
    },
    /// `Hangman::guess` was called after the game ended
    GameOver,
}

/// Error returned when a game cannot be created
#[derive(Clone, Copy, Debug, PartialEq, Eq, Structural)]
pub enum HangmanError {
    /// The secret word holds no character of the alphabet, so there would be
    /// nothing to guess
    NoAlphabetOverlap,
}

impl HangmanError {
    /// A description of the error for the user
    pub fn message(&self) -> (r: &'static str)
        ensures
            r@ == "secret word must contain at least one letter from the alphabet"@,
    {
        "secret word must contain at least one letter from the alphabet"
    }
}

/// The terminal outcome of a game, in mathematical terms
pub enum FateView {
    Won,
    Lost(Seq<char>),
}

/// The outcome of a guess, in mathematical terms
pub enum Outcome {
    GoodGuess { guess: char, count: nat, won: bool },
    BadGuess { guess: char, lost: Option<Seq<char>> },
    AlreadyGuessed { guess: char },
    InvalidGuess { guess: char },
    GameOver,
}

impl Outcome {
    /// The outcome of the guess that won the game
    pub open spec fn is_winning(self) -> bool {
        self matches Outcome::GoodGuess { won, .. } && won
    }
}

/// The state of a game, in mathematical terms
pub struct GameState {
    /// The alphabet's characters in ascending order, each with whether it has
    /// been guessed
    pub letters: Seq<(char, bool)>,
    pub gallows: Gallows,
    pub word: Seq<char>,
    /// For each position of the word, the character there if the user knows
    /// it
    pub known: Seq<Option<char>>,
    pub fate: Option<FateView>,
}

impl View for Lost {
    type V = Seq<char>;

    open spec fn view(&self) -> Seq<char> {
        self.word@
    }
}

impl View for Fate {
    type V = FateView;

    open spec fn view(&self) -> FateView {
        match self {
            Fate::Won => FateView::Won,
            Fate::Lost(l) => FateView::Lost(l@),
        }
    }
}

/// The mathematical form of an optional fate
pub open spec fn fate_view(f: Option<Fate>) -> Option<FateView> {
    match f {
        Some(f) => Some(f@),
        None => None,
    }
}

impl View for Response {
    type V = Outcome;

    open spec fn view(&self) -> Outcome {
        match self {
            Response::GoodGuess { guess, count, won } => Outcome::GoodGuess {
                guess: *guess,
                count: *count as nat,
                won: *won,
            },
            Response::BadGuess { guess, lost } => Outcome::BadGuess {
                guess: *guess,
                lost: match lost {
                    Some(l) => Some(l@),
                    None => None,
                },
            },
            Response::AlreadyGuessed { guess } => Outcome::AlreadyGuessed { guess: *guess },
            Response::InvalidGuess { guess } => Outcome::InvalidGuess { guess: *guess },
            Response::GameOver => Outcome::GameOver,
        }
    }
}

/// The keys of `letters` are strictly ascending, hence unique
pub open spec fn strictly_ascending(letters: Seq<(char, bool)>) -> bool {
    forall|i: int, j: int| 0 <= i < j < letters.len() ==> letters[i].0 < letters[j].0
}

/// `c` is one of the keys of `letters`
pub open spec fn in_alphabet(letters: Seq<(char, bool)>, c: char) -> bool {
    exists|i: int| 0 <= i < letters.len() && letters[i].0 == c
}

/// `c` is one of the keys of `letters`, marked as guessed
pub open spec fn is_guessed(letters: Seq<(char, bool)>, c: char) -> bool {
    exists|i: int| 0 <= i < letters.len() && letters[i] == (c, true)
}

/// `letters` with the entry for `c` marked as guessed
pub open spec fn mark_guessed(letters: Seq<(char, bool)>, c: char) -> Seq<(char, bool)> {
    letters.map_values(|p: (char, bool)| if p.0 == c { (p.0, true) } else { p })
}

/// Whether a character of the word is shown: it is outside the alphabet or
/// has been guessed
pub open spec fn is_shown(letters: Seq<(char, bool)>, c: char) -> bool {
    !in_alphabet(letters, c) || is_guessed(letters, c)
}

/// What the user knows of `word` given the state of the alphabet
pub open spec fn revealed(word: Seq<char>, letters: Seq<(char, bool)>) -> Seq<Option<char>> {
    Seq::new(
        word.len(),
        |i: int|
            if is_shown(letters, word[i]) {
                Some(word[i])
            } else {
                None
            },
    )
}

/// Every position of `known` is revealed
pub open spec fn fully_revealed(known: Seq<Option<char>>) -> bool {
    forall|i: int| 0 <= i < known.len() ==> known[i] is Some
}

/// The number of positions of `s` that hold `c`
pub open spec fn occurrences(s: Seq<char>, c: char) -> nat
    decreases s.len(),
{
    if s.len() == 0 {
        0
    } else {
        occurrences(s.drop_last(), c) + if s.last() == c {
            1nat
        } else {
            0nat
        }
    }
}

/// A character occurs nowhere in a sequence exactly when it is counted zero
/// times there
pub proof fn lemma_occurrences_zero(s: Seq<char>, c: char)
    ensures
        occurrences(s, c) == 0 <==> forall|i: int| 0 <= i < s.len() ==> s[i] != c,
    decreases s.len(),
{
    if s.len() > 0 {
        lemma_occurrences_zero(s.drop_last(), c);
        if occurrences(s, c) == 0 {
            assert forall|i: int| 0 <= i < s.len() implies s[i] != c by {
                if i < s.len() - 1 {
                    assert(s.drop_last()[i] == s[i]);
                }
            }
        }
        if forall|i: int| 0 <= i < s.len() ==> s[i] != c {
            assert forall|i: int| 0 <= i < s.drop_last().len() implies s.drop_last()[i] != c by {
                assert(s.drop_last()[i] == s[i]);
            }
        }
    }
}

/// The gallows one step further on, or unchanged at the final state
pub open spec fn advance(g: Gallows) -> Gallows {
    if g.index() < MAX_MISSES {
        Gallows::at(g.index() + 1)
    } else {
        g
    }
}

/// `c` occurs, after normalization, in `alphabet`
pub open spec fn alphabet_has(alphabet: Seq<char>, c: char) -> bool {
    exists|j: int| 0 <= j < alphabet.len() && normalized(alphabet[j]) == c
}

impl GameState {
    /// The invariant of every game
    pub open spec fn inv(self) -> bool {
        &&& strictly_ascending(self.letters)
        &&& self.known == revealed(self.word, self.letters)
        &&& self.fate is None ==> !fully_revealed(self.known) && self.gallows != Gallows::END
        &&& self.fate == Some(FateView::Won) ==> fully_revealed(self.known)
        &&& self.fate matches Some(FateView::Lost(w)) ==> w == self.word && self.gallows
            == Gallows::END
    }

    /// `self` is a game just created from `word` and `alphabet`: the
    /// normalized alphabet's characters in ascending order, none guessed;
    /// the normalized word; the gallows empty; no fate
    pub open spec fn is_initial(self, word: Seq<char>, alphabet: Seq<char>) -> bool {
        &&& strictly_ascending(self.letters)
        &&& forall|c: char| in_alphabet(self.letters, c) <==> alphabet_has(alphabet, c)
        &&& forall|i: int| 0 <= i < self.letters.len() ==> !self.letters[i].1
        &&& self.word == word.map_values(|c: char| normalized(c))
        &&& self.known == revealed(self.word, self.letters)
        &&& self.gallows == Gallows::Start
        &&& self.fate is None
    }
}

/// A game can be created from `word` and `alphabet`: some character of the
/// word is, after normalization, in the alphabet
pub open spec fn can_start(word: Seq<char>, alphabet: Seq<char>) -> bool {
    exists|i: int| 0 <= i < word.len() && alphabet_has(alphabet, normalized(word[i]))
}

/// The effect of guessing `g` in the game `s`: the game afterwards and the
/// outcome reported
pub open spec fn guess_step(s: GameState, g: char) -> (GameState, Outcome) {
    let c = normalized(g);
    if s.fate is Some {
        (s, Outcome::GameOver)
    } else if !in_alphabet(s.letters, c) {
        (s, Outcome::InvalidGuess { guess: c })
    } else if is_guessed(s.letters, c) {
        (s, Outcome::AlreadyGuessed { guess: c })
    } else {
        let letters = mark_guessed(s.letters, c);
        let known = revealed(s.word, letters);
        let count = occurrences(s.word, c);
        if count > 0 {
            let won = fully_revealed(known);
            (
                GameState {
                    letters,
                    gallows: s.gallows,
                    word: s.word,
                    known,
                    fate: if won {
                        Some(FateView::Won)
                    } else {
                        None
                    },
                },
                Outcome::GoodGuess { guess: c, count, won },
            )
        } else {
            let gallows = advance(s.gallows);
            let lost = gallows == Gallows::END;
            (
                GameState {
                    letters,
                    gallows,
                    word: s.word,
                    known,
                    fate: if lost {
                        Some(FateView::Lost(s.word))
                    } else {
                        None
                    },
                },
                Outcome::BadGuess {
                    guess: c,
                    lost: if lost {
                        Some(s.word)
                    } else {
                        None
                    },
                },
            )
        }
    }
}

/// The effect of guessing each of `gs` in turn, starting from `s`: the game
/// afterwards and the outcome of each guess
pub open spec fn play(s: GameState, gs: Seq<char>) -> (GameState, Seq<Outcome>)
    decreases gs.len(),
{
    if gs.len() == 0 {
        (s, Seq::empty())
    } else {
        let (s1, o) = guess_step(s, gs[0]);
        let (s2, os) = play(s1, gs.drop_first());
        (s2, seq![o] + os)
    }
}

/// A game of Hangman.
///
/// Text provided to a `Hangman` instance (the word or alphabet provided on
/// construction, or a character supplied as a guess) is normalized by
/// converting lowercase ASCII letters to uppercase.  No other normalization
/// is performed.
///
/// A game ends only won or lost.  It cannot run out of characters to guess
/// undecided: once every character of the alphabet has been guessed, the
/// game is over (see `lemma_alphabet_exhausted_decided`).
#[derive(Debug)]
pub struct Hangman {
    /// The normalized characters of the alphabet in ascending order, each
    /// with whether it has been guessed
    letters: Vec<(char, bool)>,
    gallows: Gallows,
    word: Vec<char>,
    /// At each index `i`, `Some(word[i])` if the user knows the character
    /// there (because they guessed it or because it is outside the alphabet)
    /// and `None` otherwise
    known_letters: Vec<Option<char>>,
    fate: Option<Fate>,
}

impl View for Hangman {
    type V = GameState;

    closed spec fn view(&self) -> GameState {
        GameState {
            letters: self.letters@,
            gallows: self.gallows,
            word: self.word@,
            known: self.known_letters@,
            fate: fate_view(self.fate),
        }
    }
}

/// A copy of `v`
fn copy_vec<T: Copy>(v: &Vec<T>) -> (r: Vec<T>)
    ensures
        r@ == v@,
{
    let mut r: Vec<T> = Vec::new();
    let mut i: usize = 0;
    while i < v.len()
        invariant
            i <= v.len(),
            r@ == v@.subrange(0, i as int),
        decreases v.len() - i,
    {
        r.push(v[i]);
        i = i + 1;
        assert(r@ =~= v@.subrange(0, i as int));
    }
    assert(r@ =~= v@);
    r
}

/// The index of `c` among the keys of `letters`, if it is one
fn find_letter(letters: &Vec<(char, bool)>, c: char) -> (r: Option<usize>)
    requires
        strictly_ascending(letters@),
    ensures
        r matches Some(i) ==> i < letters.len() && letters@[i as int].0 == c,
        r is None ==> !in_alphabet(letters@, c),
{
    let mut i: usize = 0;
    while i < letters.len()
        invariant
            i <= letters.len(),
            forall|k: int| 0 <= k < i ==> letters@[k].0 != c,
        decreases letters.len() - i,
    {
        if letters[i].0 == c {
            return Some(i);
        }
        i = i + 1;
    }
    None
}

/// Add `c`, not guessed, to the keys of `letters` unless it is one already
fn insert_letter(letters: &mut Vec<(char, bool)>, c: char)
    requires
        strictly_ascending(old(letters)@),
    ensures
        strictly_ascending(final(letters)@),
        forall|x: char| in_alphabet(final(letters)@, x) <==> (in_alphabet(old(letters)@, x) || x == c),
        forall|k: int| 0 <= k < final(letters).len() ==> (final(letters)@[k].1 ==> exists|m: int| 0 <= m < old(letters).len() && old(letters)@[m] == final(letters)@[k]),
{
    let mut j: usize = 0;
    while j < letters.len() && letters[j].0 < c
        invariant
            j <= letters.len(),
            forall|k: int| 0 <= k < j ==> letters@[k].0 < c,
        decreases letters.len() - j,
    {
        j = j + 1;
    }
    if j < letters.len() && letters[j].0 == c {
        return;
    }
    let ghost before = letters@;
    letters.insert(j, (c, false));
    assert forall|x: char| in_alphabet(letters@, x) <==> (in_alphabet(before, x) || x == c) by {
        if in_alphabet(before, x) {
            let m = choose|m: int| 0 <= m < before.len() && before[m].0 == x;
            if m < j {
                assert(letters@[m].0 == x);
            } else {
                assert(letters@[m + 1].0 == x);
            }
        }
        if x == c {
            assert(letters@[j as int].0 == x);
        }
        if in_alphabet(letters@, x) {
            let m = choose|m: int| 0 <= m < letters@.len() && letters@[m].0 == x;
            if m < j {
                assert(before[m].0 == x);
            } else if m > j {
                assert(before[m - 1].0 == x);
            }
        }
    }
    assert forall|k: int| 0 <= k < letters.len() && letters@[k].1 implies exists|m: int| 0 <= m < before.len() && before[m] == letters@[k] by {
        if k < j {
            assert(before[k] == letters@[k]);
        } else {
            assert(before[k - 1] == letters@[k]);
        }
    }
}

impl Hangman {
    /// Every game satisfies the invariant of its state
    #[verifier::type_invariant]
    pub open spec fn inv(&self) -> bool {
        self@.inv()
    }

    /// Create a game of Hangman in which the secret word is `word` and the
    /// user must guess characters from `alphabet`.
    ///
    /// `word` need not be limited to the characters in `alphabet`; any
    /// characters in `word` outside of `alphabet` start out revealed to the
    /// user without having to be guessed.  The game cannot be created when
    /// no character of `word` is in `alphabet`.
    pub fn new(word: Word, alphabet: &str) -> (r: Result<Hangman, HangmanError>)
        ensures
            r is Err <==> !can_start(word@, alphabet@),
            r matches Ok(h) ==> h@.is_initial(word@, alphabet@),
            r matches Err(e) ==> e == HangmanError::NoAlphabetOverlap,
    {
        let mut letters: Vec<(char, bool)> = Vec::new();
        let n = alphabet.unicode_len();
        for i in 0..n
            invariant
                n == alphabet@.len(),
                strictly_ascending(letters@),
                forall|c: char|
                    in_alphabet(letters@, c) <==> alphabet_has(alphabet@.subrange(0, i as int), c),
                forall|k: int| 0 <= k < letters.len() ==> !letters@[k].1,
        {
            let c = normalize_char(alphabet.get_char(i));
            insert_letter(&mut letters, c);
            assert forall|x: char|
                in_alphabet(letters@, x) <==> alphabet_has(alphabet@.subrange(0, i + 1), x) by {
                let pre = alphabet@.subrange(0, i as int);
                let post = alphabet@.subrange(0, i + 1);
                if alphabet_has(pre, x) {
                    let j = choose|j: int| 0 <= j < pre.len() && normalized(pre[j]) == x;
                    assert(post[j] == pre[j]);
                }
                if x == c {
                    assert(post[i as int] == alphabet@[i as int]);
                }
                if alphabet_has(post, x) {
                    let j = choose|j: int| 0 <= j < post.len() && normalized(post[j]) == x;
                    if j < i {
                        assert(post[j] == pre[j]);
                    }
                }
            }
        }
        assert(alphabet@.subrange(0, n as int) =~= alphabet@);
        let text = word.as_ref();
        let m = text.unicode_len();
        let mut chars: Vec<char> = Vec::new();
        let mut known: Vec<Option<char>> = Vec::new();
        let mut hidden = false;
        for i in 0..m
            invariant
                m == text@.len(),
                text@ == word@,
                strictly_ascending(letters@),
                forall|k: int| 0 <= k < letters.len() ==> !letters@[k].1,
                chars@ == text@.subrange(0, i as int).map_values(|c: char| normalized(c)),
                known@ == revealed(chars@, letters@),
                hidden <==> exists|k: int| 0 <= k < i && known@[k] is None,
        {
            let c = normalize_char(text.get_char(i));
            let shown = find_letter(&letters, c).is_none();
            let ghost before = known@;
            chars.push(c);
            if shown {
                known.push(Some(c));
            } else {
                known.push(None);
                hidden = true;
            }
            proof {
                assert(!is_guessed(letters@, c));
                assert(chars@ =~= text@.subrange(0, i + 1).map_values(|c: char| normalized(c)));
                assert(known@ =~= revealed(chars@, letters@));
                if exists|k: int| 0 <= k < i && before[k] is None {
                    let k = choose|k: int| 0 <= k < i && before[k] is None;
                    assert(known@[k] is None);
                }
                if exists|k: int| 0 <= k < i + 1 && known@[k] is None {
                    let k = choose|k: int| 0 <= k < i + 1 && known@[k] is None;
                    if k < i {
                        assert(before[k] is None);
                    }
                }
                if !shown {
                    assert(known@[i as int] is None);
                }
            }
        }
        assert(text@.subrange(0, m as int) =~= text@);
        if !hidden {
            proof {
                if can_start(word@, alphabet@) {
                    let i = choose|i: int| 0 <= i < word@.len() && alphabet_has(alphabet@, normalized(word@[i]));
                    assert(in_alphabet(letters@, chars@[i]));
                    assert(known@[i] is Some);
                }
            }
            return Err(HangmanError::NoAlphabetOverlap);
        }
        proof {
            let k = choose|k: int| 0 <= k < m && known@[k] is None;
            assert(in_alphabet(letters@, chars@[k]));
            assert(alphabet_has(alphabet@, normalized(word@[k])));
        }
        let h = Hangman {
            letters,
            gallows: Gallows::Start,
            word: chars,
            known_letters: known,
            fate: None,
        };
        Ok(h)
    }

    /// Process a guess at a character in the secret word.
    ///
    /// If `guess` is ASCII, it is handled case-insensitively.  If the game
    /// has ended, this returns `Response::GameOver` and changes nothing.
    pub fn guess(&mut self, guess: char) -> (r: Response)
        ensures
            final(self)@ == guess_step(old(self)@, guess).0,
            r@ == guess_step(old(self)@, guess).1,
    {
        proof {
            use_type_invariant(&*self);
        }
        if self.fate.is_some() {
            return Response::GameOver;
        }
        let guess = normalize_char(guess);
        let i = match find_letter(&self.letters, guess) {
            None => {
                return Response::InvalidGuess { guess };
            },
            Some(i) => i,
        };
        if self.letters[i].1 {
            assert(self.letters@[i as int] == (guess, true));
            return Response::AlreadyGuessed { guess };
        }
        let ghost s = self@;
        assert(!is_guessed(s.letters, guess));
        let mut letters = copy_vec(&self.letters);
        letters.set(i, (guess, true));
        assert(letters@ =~= mark_guessed(s.letters, guess));
        let ghost after = revealed(s.word, letters@);
        proof {
            lemma_mark_guessed(s.letters, guess);
        }
        let mut known = copy_vec(&self.known_letters);
        assert(known@ =~= s.known);
        let mut count: usize = 0;
        let mut j: usize = 0;
        while j < self.word.len()
            invariant
                s == self@,
                s.inv(),
                letters@ == mark_guessed(s.letters, guess),
                is_guessed(letters@, guess),
                forall|x: char| x != guess ==> is_shown(letters@, x) == is_shown(s.letters, x),
                after == revealed(s.word, letters@),
                j <= self.word.len(),
                known.len() == self.word.len(),
                forall|k: int| 0 <= k < j ==> known@[k] == after[k],
                forall|k: int| j <= k < known.len() ==> known@[k] == s.known[k],
                forall|k: int| 0 <= k < j && s.word[k] != guess ==> after[k] == s.known[k],
                count == occurrences(s.word.subrange(0, j as int), guess),
                count <= j,
            decreases self.word.len() - j,
        {
            assert(s.word.subrange(0, j + 1).drop_last() =~= s.word.subrange(0, j as int));
            if self.word[j] == guess {
                known.set(j, Some(guess));
                count = count + 1;
            }
            j = j + 1;
        }
        assert(s.word.subrange(0, j as int) =~= s.word);
        assert(known@ =~= after);
        if count > 0 {
            let mut won = true;
            let mut k: usize = 0;
            while k < known.len()
                invariant
                    k <= known.len(),
                    won <==> forall|x: int| 0 <= x < k ==> known@[x] is Some,
                decreases known.len() - k,
            {
                if known[k].is_none() {
                    won = false;
                }
                k = k + 1;
            }
            let fate = if won {
                Some(Fate::Won)
            } else {
                None
            };
            *self = Hangman {
                letters,
                gallows: self.gallows,
                word: copy_vec(&self.word),
                known_letters: known,
                fate,
            };
            Response::GoodGuess { guess, count, won }
        } else {
            proof {
                lemma_occurrences_zero(s.word, guess);
                assert(known@ =~= s.known);
            }
            let gallows = match self.gallows.succ() {
                Some(g) => g,
                None => self.gallows,
            };
            let lost = gallows == Gallows::END;
            let word = copy_vec(&self.word);
            let fate = if lost {
                Some(Fate::Lost(Lost { word: copy_vec(&self.word) }))
            } else {
                None
            };
            let lost_word = if lost {
                Some(Lost { word: copy_vec(&self.word) })
            } else {
                None
            };
            *self = Hangman { letters, gallows, word, known_letters: known, fate };
            Response::BadGuess { guess, lost: lost_word }
        }
    }

    /// The alphabet's characters (with lowercase ASCII letters converted to
    /// uppercase) in ascending order, each paired with whether the user has
    /// guessed it
    pub fn guessed(&self) -> (r: &Vec<(char, bool)>)
        ensures
            r@ == self@.letters,
    {
        &self.letters
    }

    /// The current state of the hangman's gallows
    pub fn gallows(&self) -> (r: Gallows)
        ensures
            r == self@.gallows,
    {
        self.gallows
    }

    /// The secret word as revealed to the user so far, with lowercase ASCII
    /// letters converted to uppercase: `Some(ch)` where the user knows the
    /// character and `None` where they have yet to guess it
    pub fn known_letters(&self) -> (r: &[Option<char>])
        ensures
            r@ == self@.known,
    {
        self.known_letters.as_slice()
    }

    /// The outcome of the game if it has ended, `None` while it goes on
    pub fn fate(&self) -> (r: Option<Fate>)
        ensures
            fate_view(r) == self@.fate,
    {
        match &self.fate {
            None => None,
            Some(Fate::Won) => Some(Fate::Won),
            Some(Fate::Lost(l)) => Some(Fate::Lost(Lost { word: copy_vec(&l.word) })),
        }
    }
}

/// Marking `c` as guessed keeps the keys of the alphabet, makes `c` guessed
/// if it is a key, and leaves whether any other character is shown as it was
pub proof fn lemma_mark_guessed(letters: Seq<(char, bool)>, c: char)
    ensures
        forall|x: char| in_alphabet(mark_guessed(letters, c), x) == in_alphabet(letters, x),
        in_alphabet(letters, c) ==> is_guessed(mark_guessed(letters, c), c),
        forall|x: char| x != c ==> is_shown(mark_guessed(letters, c), x) == is_shown(letters, x),
        strictly_ascending(letters) ==> strictly_ascending(mark_guessed(letters, c)),
{
    let m = mark_guessed(letters, c);
    assert forall|x: char| in_alphabet(m, x) == in_alphabet(letters, x) by {
        if in_alphabet(m, x) {
            let k = choose|k: int| 0 <= k < m.len() && m[k].0 == x;
            assert(letters[k].0 == x);
        }
        if in_alphabet(letters, x) {
            let k = choose|k: int| 0 <= k < letters.len() && letters[k].0 == x;
            assert(m[k].0 == x);
        }
    }
    if in_alphabet(letters, c) {
        let k = choose|k: int| 0 <= k < letters.len() && letters[k].0 == c;
        assert(m[k] == (c, true));
    }
    assert forall|x: char| x != c implies is_guessed(m, x) == is_guessed(letters, x) by {
        if is_guessed(m, x) {
            let k = choose|k: int| 0 <= k < m.len() && m[k] == (x, true);
            assert(letters[k] == (x, true));
        }
        if is_guessed(letters, x) {
            let k = choose|k: int| 0 <= k < letters.len() && letters[k] == (x, true);
            assert(m[k] == (x, true));
        }
    }
}

/// Marking as guessed a character that is nowhere in the word reveals
/// nothing
pub proof fn lemma_miss_reveals_nothing(word: Seq<char>, letters: Seq<(char, bool)>, c: char)
    requires
        occurrences(word, c) == 0,
    ensures
        revealed(word, mark_guessed(letters, c)) == revealed(word, letters),
{
    lemma_occurrences_zero(word, c);
    lemma_mark_guessed(letters, c);
    assert(revealed(word, mark_guessed(letters, c)) =~= revealed(word, letters));
}

/// Every guess keeps the invariant of a game
pub proof fn lemma_step_inv(s: GameState, g: char)
    requires
        s.inv(),
    ensures
        guess_step(s, g).0.inv(),
{
    let c = normalized(g);
    lemma_mark_guessed(s.letters, c);
    if occurrences(s.word, c) == 0 {
        lemma_miss_reveals_nothing(s.word, s.letters, c);
    }
}

/// The number of indices below `n` at which `p` holds
pub open spec fn count_where(n: nat, p: spec_fn(int) -> bool) -> nat
    decreases n,
{
    if n == 0 {
        0
    } else {
        count_where((n - 1) as nat, p) + if p(n - 1) {
            1nat
        } else {
            0nat
        }
    }
}

/// A new game starts with exactly those positions revealed whose character
/// is absent from the alphabet: position by position, and so in number
pub proof fn lemma_initial_reveals_absent(word: Seq<char>, alphabet: Seq<char>, s: GameState)
    requires
        s.is_initial(word, alphabet),
    ensures
        forall|i: int|
            0 <= i < word.len() ==> (s.known[i] is Some <==> !alphabet_has(
                alphabet,
                normalized(word[i]),
            )),
        count_where(s.known.len(), |i: int| s.known[i] is Some) == count_where(
            word.len(),
            |i: int| !alphabet_has(alphabet, normalized(word[i])),
        ),
{
    assert forall|i: int| 0 <= i < word.len() implies (s.known[i] is Some <==> !alphabet_has(
        alphabet,
        normalized(word[i]),
    )) by {
        let c = s.word[i];
        if is_guessed(s.letters, c) {
            let k = choose|k: int| 0 <= k < s.letters.len() && s.letters[k] == (c, true);
            assert(!s.letters[k].1);
        }
    }
    let shown = |i: int| s.known[i] is Some;
    let absent = |i: int| !alphabet_has(alphabet, normalized(word[i]));
    lemma_count_where_agree(word.len(), shown, absent);
}

/// Two predicates that agree below `n` hold equally often there
pub proof fn lemma_count_where_agree(n: nat, p: spec_fn(int) -> bool, q: spec_fn(int) -> bool)
    requires
        forall|i: int| 0 <= i < n ==> #[trigger] p(i) == q(i),
    ensures
        count_where(n, p) == count_where(n, q),
    decreases n,
{
    if n > 0 {
        lemma_count_where_agree((n - 1) as nat, p, q);
    }
}

/// The game is decided before the alphabet runs out: once every character
/// of the alphabet has been guessed, the game has been won or lost, so no
/// separate outcome is needed for an alphabet used up
pub proof fn lemma_alphabet_exhausted_decided(s: GameState)
    requires
        s.inv(),
        forall|i: int| 0 <= i < s.letters.len() ==> #[trigger] s.letters[i].1,
    ensures
        s.fate is Some,
{
    assert forall|i: int| 0 <= i < s.known.len() implies s.known[i] is Some by {
        let c = s.word[i];
        if in_alphabet(s.letters, c) {
            let k = choose|k: int| 0 <= k < s.letters.len() && s.letters[k].0 == c;
            assert(s.letters[k] == (c, true));
        }
    }
}

/// While the game goes on, guessing a character outside the alphabet
/// reports it as invalid and changes nothing
pub proof fn lemma_invalid_guess(s: GameState, g: char)
    requires
        s.fate is None,
        !in_alphabet(s.letters, normalized(g)),
    ensures
        guess_step(s, g) == (s, Outcome::InvalidGuess { guess: normalized(g) }),
{
}

/// Guessing a new character of the alphabet twice gives a real outcome the
/// first time and, unless that ended the game, reports a repeat and changes
/// nothing the second time
pub proof fn lemma_repeat_guess(s: GameState, g: char)
    requires
        s.inv(),
        s.fate is None,
        in_alphabet(s.letters, normalized(g)),
        !is_guessed(s.letters, normalized(g)),
        guess_step(s, g).0.fate is None,
    ensures
        guess_step(s, g).1 is GoodGuess || guess_step(s, g).1 is BadGuess,
        guess_step(guess_step(s, g).0, g) == (
            guess_step(s, g).0,
            Outcome::AlreadyGuessed { guess: normalized(g) },
        ),
{
    lemma_mark_guessed(s.letters, normalized(g));
}

/// The gallows advance by exactly one step on a guess of a new character of
/// the alphabet that is nowhere in the word while the game goes on, and stay
/// as they are on any other guess
pub proof fn lemma_gallows_step(s: GameState, g: char)
    requires
        s.inv(),
    ensures
        guess_step(s, g).0.gallows.index() == s.gallows.index() + if s.fate is None
            && in_alphabet(s.letters, normalized(g)) && !is_guessed(s.letters, normalized(g))
            && occurrences(s.word, normalized(g)) == 0 {
            1nat
        } else {
            0nat
        },
{
}

/// Playing a sequence of guesses gives one outcome per guess
pub proof fn lemma_play_len(s: GameState, gs: Seq<char>)
    ensures
        play(s, gs).1.len() == gs.len(),
    decreases gs.len(),
{
    if gs.len() > 0 {
        lemma_play_len(guess_step(s, gs[0]).0, gs.drop_first());
    }
}

/// Once the game has ended, every further guess reports that it is over and
/// changes nothing
pub proof fn lemma_game_over_final(s: GameState, gs: Seq<char>)
    requires
        s.fate is Some,
    ensures
        play(s, gs).0 == s,
        forall|k: int| 0 <= k < gs.len() ==> play(s, gs).1[k] == Outcome::GameOver,
    decreases gs.len(),
{
    if gs.len() > 0 {
        lemma_game_over_final(s, gs.drop_first());
        lemma_play_len(s, gs.drop_first());
        let os = play(s, gs.drop_first()).1;
        assert forall|k: int| 0 <= k < gs.len() implies play(s, gs).1[k] == Outcome::GameOver by {
            if k > 0 {
                assert(play(s, gs).1[k] == os[k - 1]);
            }
        }
    }
}

/// `gs`, normalized, has no repeats
pub open spec fn distinct_guesses(gs: Seq<char>) -> bool {
    forall|i: int, j: int| 0 <= i < j < gs.len() ==> normalized(gs[i]) != normalized(gs[j])
}

/// Each of `gs`, normalized, is a character of the alphabet not yet guessed
/// and nowhere in the word
pub open spec fn all_misses(s: GameState, gs: Seq<char>) -> bool {
    forall|k: int| 0 <= k < gs.len() ==> is_new_miss(s, normalized(#[trigger] gs[k]))
}

/// `c` is a character of the alphabet not yet guessed and nowhere in the
/// word
pub open spec fn is_new_miss(s: GameState, c: char) -> bool {
    in_alphabet(s.letters, c) && !is_guessed(s.letters, c) && occurrences(s.word, c) == 0
}

/// Distinct misses that bring the gallows to the final state lose the game:
/// each is reported as a bad guess, and the game ends lost, with the whole
/// word
pub proof fn lemma_misses_lose(s: GameState, gs: Seq<char>)
    requires
        s.inv(),
        s.fate is None,
        s.gallows.index() + gs.len() == MAX_MISSES,
        distinct_guesses(gs),
        all_misses(s, gs),
    ensures
        play(s, gs).0.fate == Some(FateView::Lost(s.word)),
        play(s, gs).0.gallows == Gallows::END,
        forall|k: int| 0 <= k < gs.len() ==> play(s, gs).1[k] is BadGuess,
    decreases gs.len(),
{
    let c = normalized(gs[0]);
    let (s1, o) = guess_step(s, gs[0]);
    lemma_step_inv(s, gs[0]);
    lemma_mark_guessed(s.letters, c);
    let rest = gs.drop_first();
    if rest.len() > 0 {
        assert forall|k: int| 0 <= k < rest.len() implies is_new_miss(s1, normalized(rest[k])) by {
            let x = normalized(rest[k]);
            assert(x == normalized(gs[k + 1]));
            assert(x != c);
            assert(is_shown(s1.letters, x) == is_shown(s.letters, x));
            if is_guessed(s1.letters, x) {
                let m = choose|m: int| 0 <= m < s1.letters.len() && s1.letters[m] == (x, true);
                assert(s.letters[m] == (x, true));
            }
        }
        assert(distinct_guesses(rest)) by {
            assert forall|i: int, j: int| 0 <= i < j < rest.len() implies normalized(rest[i])
                != normalized(rest[j]) by {
                assert(rest[i] == gs[i + 1]);
                assert(rest[j] == gs[j + 1]);
            }
        }
        lemma_misses_lose(s1, rest);
        lemma_play_len(s1, rest);
        let os = play(s1, rest).1;
        assert forall|k: int| 0 <= k < gs.len() implies play(s, gs).1[k] is BadGuess by {
            if k > 0 {
                assert(play(s, gs).1[k] == os[k - 1]);
            }
        }
    } else {
        assert(play(s1, rest).0 == s1);
    }
}

/// Guessing every character of the word that is still hidden, with no guess
/// outside the word, wins the game: the word ends fully revealed, the game
/// won, and one of the guesses is reported as the winning one
pub proof fn lemma_guessing_word_wins(s: GameState, gs: Seq<char>)
    requires
        s.inv(),
        s.fate is None,
        forall|k: int| 0 <= k < gs.len() ==> occurrences(s.word, normalized(gs[k])) > 0,
        forall|i: int|
            0 <= i < s.known.len() && s.known[i] is None ==> exists|k: int|
                0 <= k < gs.len() && normalized(gs[k]) == s.word[i],
    ensures
        fully_revealed(play(s, gs).0.known),
        play(s, gs).0.fate == Some(FateView::Won),
        exists|k: int|
            0 <= k < gs.len() && play(s, gs).1[k].is_winning(),
    decreases gs.len(),
{
    if gs.len() == 0 {
        assert(fully_revealed(s.known)) by {
            assert forall|i: int| 0 <= i < s.known.len() implies s.known[i] is Some by {
                if s.known[i] is None {
                    let k = choose|k: int| 0 <= k < gs.len() && normalized(gs[k]) == s.word[i];
                }
            }
        }
    } else {
        let c = normalized(gs[0]);
        let (s1, o) = guess_step(s, gs[0]);
        let rest = gs.drop_first();
        lemma_step_inv(s, gs[0]);
        lemma_mark_guessed(s.letters, c);
        if s1.fate is Some {
            lemma_game_over_final(s1, rest);
            assert(play(s, gs).1[0] == o);
        } else {
            assert forall|i: int|
                0 <= i < s1.known.len() && s1.known[i] is None implies exists|k: int|
                    0 <= k < rest.len() && normalized(rest[k]) == s1.word[i] by {
                let x = s.word[i];
                if x == c {
                    if in_alphabet(s.letters, c) {
                        assert(is_guessed(s1.letters, c));
                    }
                    assert(is_shown(s1.letters, x));
                } else {
                    assert(s.known[i] is None);
                    let k = choose|k: int| 0 <= k < gs.len() && normalized(gs[k]) == s.word[i];
                    assert(k > 0);
                    assert(normalized(rest[k - 1]) == s1.word[i]);
                }
            }
            assert forall|k: int| 0 <= k < rest.len() implies occurrences(
                s1.word,
                normalized(rest[k]),
            ) > 0 by {
                assert(rest[k] == gs[k + 1]);
            }
            lemma_guessing_word_wins(s1, rest);
            lemma_play_len(s1, rest);
            let os = play(s1, rest).1;
            let k = choose|k: int|
                0 <= k < rest.len() && os[k].is_winning();
            assert(play(s, gs).1[k + 1] == os[k]);
        }
    }
}

} // verus!
