//! Secret words, the hints that go with them, and the choice of one from a
//! list of words.

use rand::seq::IteratorRandom;
use vstd::prelude::*;

verus! {

/// `s` without leading and trailing whitespace, as `str::trim` gives it
pub uninterp spec fn trimmed(s: Seq<char>) -> Seq<char>;

/// Relies on `str::trim`: the string without leading and trailing
/// whitespace.  The result depends on the string alone.
#[verifier::external_body]
fn trim(s: &str) -> (r: &str)
    ensures
        r@ == trimmed(s@),
{
    s.trim()
}

/// The records of a word list in CSV form, as the csv crate reads them with
/// flexible record lengths, no header row and every field trimmed: each
/// record's fields, or `None` for a record that could not be read
pub uninterp spec fn csv_records(data: Seq<u8>) -> Seq<Option<Seq<Seq<char>>>>;

/// Relies on csv's `ReaderBuilder` (flexible, without headers, trimming
/// every field) and `Reader::records`: the records of the data in order,
/// each as its fields or `None` where it could not be read.  The result
/// depends on the data alone.
#[verifier::external_body]
fn read_records(data: &[u8]) -> (r: Vec<Option<Vec<String>>>)
    ensures
        r.deep_view() == csv_records(data@),
{
    csv::ReaderBuilder::new()
        .flexible(true)
        .has_headers(false)
        .trim(csv::Trim::All)
        .from_reader(data)
        .records()
        .map(|rec| rec.ok().map(|rec| rec.iter().map(String::from).collect()))
        .collect()
}

/// Relies on rand's `IteratorRandom::choose` with the thread's generator:
/// one of the indices below `n` at random, `None` if and only if `n` is 0.
#[verifier::external_body]
fn choose_index(n: usize) -> (r: Option<usize>)
    ensures
        r is None <==> n == 0,
        r matches Some(i) ==> i < n,
{
    (0..n).choose(&mut rand::thread_rng())
}

/// Error returned for a secret word that is empty or all whitespace
#[derive(Clone, Copy, Debug, PartialEq, Eq, Structural)]
pub struct ParseWordError;

impl ParseWordError {
    /// A description of the error for the user
    pub fn message(&self) -> (r: &'static str)
        ensures
            r@ == "hangman words cannot be empty or all-whitespace"@,
    {
        "hangman words cannot be empty or all-whitespace"
    }
}

/// A secret word for a game of Hangman: a string that is not empty
#[derive(Debug, PartialEq, Eq, Hash)]
pub struct Word(String);

impl View for Word {
    type V = Seq<char>;

    closed spec fn view(&self) -> Seq<char> {
        self.0@
    }
}

impl Word {
    #[verifier::type_invariant]
    closed spec fn inv(&self) -> bool {
        self.0@.len() > 0
    }

    /// The word as a string slice
    pub fn as_ref(&self) -> (r: &str)
        ensures
            r@ == self@,
    {
        self.0.as_str()
    }

    /// The word `t`, already stripped of surrounding whitespace; an error
    /// if it is empty
    pub fn from_trimmed(t: &str) -> (r: Result<Word, ParseWordError>)
        ensures
            r is Err <==> t@.len() == 0,
            r matches Ok(w) ==> w@ == t@,
    {
        if t.unicode_len() == 0 {
            Err(ParseWordError)
        } else {
            Ok(Word(t.to_owned()))
        }
    }

    /// The word `s` with surrounding whitespace removed; an error if nothing
    /// is left
    pub fn from_str(s: &str) -> (r: Result<Word, ParseWordError>)
        ensures
            r is Err <==> trimmed(s@).len() == 0,
            r matches Ok(w) ==> w@ == trimmed(s@),
    {
        Word::from_trimmed(trim(s))
    }
}

/// A secret word together with an optional hint about it
#[derive(Debug)]
pub struct WordWithHint {
    /// The secret word
    pub word: Word,
    /// The hint, if any
    pub hint: Option<String>,
}

impl WordWithHint {
    /// The hint, in mathematical terms
    pub open spec fn hint_view(&self) -> Option<Seq<char>> {
        match &self.hint {
            Some(h) => Some(h@),
            None => None,
        }
    }

    /// The word and hint that a record of a word list holds, if it holds a
    /// valid word: the first field is the word, trimmed, and the second, if
    /// there is one and it is not empty, the hint
    pub open spec fn of_record(fields: Seq<Seq<char>>) -> Option<(Seq<char>, Option<Seq<char>>)> {
        if fields.len() == 0 || trimmed(fields[0]).len() == 0 {
            None
        } else {
            Some(
                (
                    trimmed(fields[0]),
                    if fields.len() > 1 && fields[1].len() > 0 {
                        Some(fields[1])
                    } else {
                        None
                    },
                ),
            )
        }
    }

    /// The word and hint in a record of a word list
    pub fn from_record(fields: &Vec<String>) -> (r: Result<WordWithHint, ParseWordError>)
        ensures
            match WordWithHint::of_record(fields.deep_view()) {
                None => r is Err,
                Some((w, h)) => r matches Ok(wh) && wh.word@ == w && wh.hint_view() == h,
            },
    {
        if fields.len() == 0 {
            return Err(ParseWordError);
        }
        let word = match Word::from_str(fields[0].as_str()) {
            Ok(w) => w,
            Err(e) => {
                return Err(e);
            },
        };
        let hint = if fields.len() > 1 && fields[1].as_str().unicode_len() > 0 {
            Some(fields[1].clone())
        } else {
            None
        };
        Ok(WordWithHint { word, hint })
    }
}

/// Why no secret word could be taken from a word list
#[derive(Clone, Copy, Debug, PartialEq, Eq, Structural)]
pub enum WordListError {
    /// The chosen record could not be read
    Unreadable,
    /// The chosen record holds no valid word
    InvalidWord,
}

impl WordListError {
    /// A description of the error for the user
    pub fn message(&self) -> (r: &'static str)
        ensures
            self is Unreadable ==> r@ == "failed to read words file"@,
            self is InvalidWord ==> r@ == "hangman words cannot be empty or all-whitespace"@,
    {
        match self {
            WordListError::Unreadable => "failed to read words file",
            WordListError::InvalidWord => "hangman words cannot be empty or all-whitespace",
        }
    }
}

/// What a record of a word list gives: its word and hint, or the error
pub open spec fn record_outcome(
    rec: Option<Seq<Seq<char>>>,
    r: Result<WordWithHint, WordListError>,
) -> bool {
    match rec {
        None => r == Err::<WordWithHint, WordListError>(WordListError::Unreadable),
        Some(fields) => match WordWithHint::of_record(fields) {
            None => r == Err::<WordWithHint, WordListError>(WordListError::InvalidWord),
            Some((w, h)) => r matches Ok(wh) && wh.word@ == w && wh.hint_view() == h,
        },
    }
}

/// The word and hint of the `i`th of `records`
pub fn record_at(records: &Vec<Option<Vec<String>>>, i: usize) -> (r: Result<
    WordWithHint,
    WordListError,
>)
    requires
        i < records.len(),
    ensures
        record_outcome(records.deep_view()[i as int], r),
{
    match &records[i] {
        None => Err(WordListError::Unreadable),
        Some(fields) => match WordWithHint::from_record(fields) {
            Ok(wh) => Ok(wh),
            Err(_) => Err(WordListError::InvalidWord),
        },
    }
}

/// What each record of a word list in CSV form gives, in order
pub fn iter_words(data: &[u8]) -> (r: Vec<Result<WordWithHint, WordListError>>)
    ensures
        r.len() == csv_records(data@).len(),
        forall|i: int| 0 <= i < r.len() ==> record_outcome(csv_records(data@)[i], #[trigger] r@[i]),
{
    let records = read_records(data);
    let mut r: Vec<Result<WordWithHint, WordListError>> = Vec::new();
    let mut i: usize = 0;
    while i < records.len()
        invariant
            i <= records.len(),
            records.deep_view() == csv_records(data@),
            r.len() == i,
            forall|k: int| 0 <= k < i ==> record_outcome(csv_records(data@)[k], #[trigger] r@[k]),
        decreases records.len() - i,
    {
        r.push(record_at(&records, i));
        i = i + 1;
    }
    r
}

/// A word and hint taken at random from a word list in CSV form: `None` if
/// the list has no records, and otherwise what one of its records gives
pub fn word_from_csv(data: &[u8]) -> (r: Option<Result<WordWithHint, WordListError>>)
    ensures
        r is None <==> csv_records(data@).len() == 0,
        r matches Some(res) ==> exists|i: int|
            0 <= i < csv_records(data@).len() && record_outcome(csv_records(data@)[i], res),
{
    let mut words = iter_words(data);
    match choose_index(words.len()) {
        None => None,
        Some(i) => {
            let ghost all = words@;
            let w = words.remove(i);
            assert(w == all[i as int]);
            Some(w)
        },
    }
}

/// The words played when no other list is given, one record per line: a
/// word and its hint
pub const BUILTIN_WORDS: &'static str = "ablaze,On fire
buffalo,A large animal
crypt,An underground room
dwarves,Short folk of legend
fjord,A narrow inlet of the sea
gazebo,A garden structure
jackpot,A big prize
kayak,A small boat
oxygen,A gas
puzzle,What this is
quiz,A short test
rhythm,What music has
sphinx,A riddler
wizard,A worker of magic
zombie,The walking dead
";

} // verus!
