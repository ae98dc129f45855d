//! Composition of the screen: a snapshot of the game is laid out as a block
//! of centered lines, placed in the middle of the terminal.

use crate::model::Gallows;
use vstd::prelude::*;
use vstd::string::*;

verus! {

/// The display width of `s` as console measures it: ANSI escape codes count
/// as zero columns
pub uninterp spec fn text_width(s: Seq<char>) -> nat;

/// What console keeps of `s` when it is cut to `width` columns, with escape
/// codes kept intact and nothing appended
pub uninterp spec fn truncated(s: Seq<char>, width: nat) -> Seq<char>;

/// Relies on `console::measure_text_width`: the display width of a string,
/// with escape codes counted as zero-width.  The result depends on the
/// string alone.
#[verifier::external_body]
fn measure(s: &str) -> (r: usize)
    ensures
        r == text_width(s@),
{
    console::measure_text_width(s)
}

/// Relies on `console::truncate_str` with an empty tail: the string cut to a
/// number of columns.  The result depends on its arguments alone.
#[verifier::external_body]
fn truncate(s: &str, width: usize) -> (r: String)
    ensures
        r@ == truncated(s@, width as nat),
{
    console::truncate_str(s, width, "").into_owned()
}

/// A line of a frame, in mathematical terms
pub struct LineView {
    /// The text of the line
    pub content: Seq<char>,
    /// The width in which the line is centered
    pub width: nat,
}

/// A frame, in mathematical terms
pub struct FrameView {
    pub lines: Seq<LineView>,
    /// The width of the frame
    pub width: nat,
}

impl FrameView {
    /// Every line fits within the frame's width
    pub open spec fn wf(self) -> bool {
        forall|i: int| 0 <= i < self.lines.len() ==> #[trigger] self.lines[i].width <= self.width
    }

    /// The frame after a line of text `content` that is centered in `width`
    /// columns is added at the bottom.  A line wider than the frame widens
    /// it to the line's width.
    pub open spec fn pushed(self, content: Seq<char>, width: nat) -> FrameView {
        FrameView {
            lines: self.lines.push(LineView { content, width }),
            width: if width > self.width {
                width
            } else {
                self.width
            },
        }
    }

    /// The number of columns between the frame's left edge and line `l`:
    /// every line is centered in the frame's width, so when a wider line
    /// widens the frame, the lines above move right by half the increase
    pub open spec fn indent(self, l: LineView) -> nat {
        centering(self.width, l.width)
    }

    /// The frame after each of `pushes`, a text and the width it is centered
    /// in, is added in turn
    pub open spec fn pushed_all(self, pushes: Seq<(Seq<char>, nat)>) -> FrameView
        decreases pushes.len(),
    {
        if pushes.len() == 0 {
            self
        } else {
            self.pushed_all(pushes.drop_last()).pushed(pushes.last().0, pushes.last().1)
        }
    }
}

/// The offset that centers `inner` units in `outer` units, or zero where
/// `inner` does not fit
pub open spec fn centering(outer: nat, inner: nat) -> nat {
    if inner < outer {
        ((outer - inner) / 2) as nat
    } else {
        0
    }
}

/// The smaller of `a` and `b`
pub open spec fn min_nat(a: nat, b: nat) -> nat {
    if a < b {
        a
    } else {
        b
    }
}

impl FrameView {
    /// The column at which line `l` of this frame starts on a terminal
    /// `columns` wide: the frame is centered, and a line that would start
    /// beyond the right edge starts at it
    pub open spec fn line_column(self, l: LineView, columns: nat) -> nat {
        min_nat(centering(columns, self.width) + self.indent(l), columns)
    }
}

/// A line of text to be added to a frame
#[derive(Debug)]
pub struct Line {
    /// The text
    pub content: String,
    /// The width to center the text in; `None` for its own display width
    pub center_in_width: Option<usize>,
}

impl Line {
    /// The width that the line is centered in
    pub open spec fn width(&self) -> nat {
        match self.center_in_width {
            Some(w) => w as nat,
            None => text_width(self.content@),
        }
    }
}

/// An ordered list of lines of text, laid out to be drawn centered
#[derive(Debug)]
pub struct Frame {
    contents: Vec<String>,
    widths: Vec<usize>,
    width: usize,
}

impl View for Frame {
    type V = FrameView;

    closed spec fn view(&self) -> FrameView {
        FrameView {
            lines: Seq::new(
                self.contents.len() as nat,
                |i: int| LineView { content: self.contents@[i]@, width: self.widths@[i] as nat },
            ),
            width: self.width as nat,
        }
    }
}

impl Frame {
    #[verifier::type_invariant]
    closed spec fn inv(&self) -> bool {
        &&& self.widths.len() == self.contents.len()
        &&& self@.wf()
    }

    /// An empty frame, with room for `capacity` lines
    pub fn with_capacity(capacity: usize) -> (r: Frame)
        ensures
            r@ == (FrameView { lines: Seq::empty(), width: 0 }),
    {
        let r = Frame {
            contents: Vec::with_capacity(capacity),
            widths: Vec::with_capacity(capacity),
            width: 0,
        };
        assert(r@.lines =~= Seq::<LineView>::empty());
        r
    }

    /// The width of the frame
    pub fn width(&self) -> (r: usize)
        ensures
            r == self@.width,
    {
        self.width
    }

    /// The number of lines in the frame
    pub fn height(&self) -> (r: usize)
        ensures
            r == self@.lines.len(),
    {
        proof {
            use_type_invariant(self);
        }
        self.contents.len()
    }

    /// Add `line` at the bottom, centered in the width it asks for, or in
    /// its own display width if it asks for none
    pub fn push(&mut self, line: Line)
        ensures
            final(self)@ == old(self)@.pushed(line.content@, line.width()),
    {
        proof {
            use_type_invariant(&*self);
        }
        let ghost before = self@;
        let Line { content, center_in_width } = line;
        let width = match center_in_width {
            Some(w) => w,
            None => measure(content.as_str()),
        };
        let mut taken = Frame::with_capacity(0);
        std::mem::swap(self, &mut taken);
        proof {
            use_type_invariant(&taken);
        }
        let Frame { mut contents, mut widths, width: frame_width } = taken;
        let new_width = if width > frame_width {
            width
        } else {
            frame_width
        };
        let ghost text = content@;
        contents.push(content);
        widths.push(width);
        assert forall|k: int| 0 <= k < contents.len() implies widths@[k] <= new_width by {
            if k < before.lines.len() {
                assert(before.lines[k].width <= frame_width);
            }
        }
        *self = Frame { contents, widths, width: new_width };
        assert(self@.lines =~= before.pushed(text, width as nat).lines);
    }

    /// Add `content` at the bottom, centered in `width` columns
    pub fn push_in_width(&mut self, content: String, width: usize)
        ensures
            final(self)@ == old(self)@.pushed(content@, width as nat),
    {
        self.push(Line { content, center_in_width: Some(width) });
    }

    /// Add `content` at the bottom, centered in its own display width
    pub fn push_centered(&mut self, content: String)
        ensures
            final(self)@ == old(self)@.pushed(content@, text_width(content@)),
    {
        self.push(Line { content, center_in_width: None });
    }

    /// The left and top margins that center the frame on a terminal of
    /// `columns` by `rows`
    pub fn margins(&self, columns: u16, rows: u16) -> (r: (u16, u16))
        ensures
            r.0 == centering(columns as nat, self@.width),
            r.1 == centering(rows as nat, self@.lines.len()),
    {
        let height = self.height();
        let left = if self.width < columns as usize {
            ((columns as usize - self.width) / 2) as u16
        } else {
            0
        };
        let top = if height < rows as usize {
            ((rows as usize - height) / 2) as u16
        } else {
            0
        };
        (left, top)
    }

    /// The lines of the frame placed on a terminal of `columns` by `rows`:
    /// for each line that fits, its row, its column, and its text cut to the
    /// columns that remain to its right
    pub fn lines_in_area(&self, columns: u16, rows: u16) -> (r: Vec<(u16, u16, String)>)
        ensures
            r.len() == min_nat(self@.lines.len(), rows as nat),
            forall|k: int|
                0 <= k < r.len() ==> {
                    let l = self@.lines[k];
                    &&& (#[trigger] r@[k]).0 == centering(rows as nat, self@.lines.len()) + k
                    &&& r@[k].1 == self@.line_column(l, columns as nat)
                    &&& r@[k].2@ == truncated(l.content, (columns - r@[k].1) as nat)
                },
    {
        proof {
            use_type_invariant(self);
        }
        let (left, top) = self.margins(columns, rows);
        let n = self.contents.len();
        let shown = if n < rows as usize {
            n
        } else {
            rows as usize
        };
        let mut r: Vec<(u16, u16, String)> = Vec::new();
        let mut k: usize = 0;
        while k < shown
            invariant
                k <= shown,
                n == self.contents.len(),
                n == self.widths.len(),
                n == self@.lines.len(),
                self@.wf(),
                shown == min_nat(n as nat, rows as nat),
                left == centering(columns as nat, self@.width),
                top == centering(rows as nat, n as nat),
                left <= columns,
                r.len() == k,
                forall|j: int|
                    0 <= j < k ==> {
                        let l = self@.lines[j];
                        &&& (#[trigger] r@[j]).0 == top + j
                        &&& r@[j].1 == self@.line_column(l, columns as nat)
                        &&& r@[j].2@ == truncated(l.content, (columns - r@[j].1) as nat)
                    },
            decreases shown - k,
        {
            assert(self@.lines[k as int].width <= self@.width);
            let indent = (self.width - self.widths[k]) / 2;
            let x: u16 = if indent < (columns - left) as usize {
                left + indent as u16
            } else {
                columns
            };
            let text = truncate(self.contents[k].as_str(), (columns - x) as usize);
            r.push((top + k as u16, x, text));
            k = k + 1;
        }
        r
    }
}

/// Relies on `String::push`: the character is appended to the string.
#[verifier::external_body]
fn push_char(s: &mut String, c: char)
    ensures
        final(s)@ == old(s)@.push(c),
{
    s.push(c);
}

/// How `Debug` writes a character: quoted, and escaped as in Rust source
pub uninterp spec fn char_debug(c: char) -> Seq<char>;

/// Relies on the `Debug` formatting of `char`.  The result depends on the
/// character alone.
#[verifier::external_body]
fn debug_char(c: char) -> (r: String)
    ensures
        r@ == char_debug(c),
{
    format!("{:?}", c)
}

/// The decimal digit for `d < 10`
pub open spec fn digit(d: nat) -> char {
    (48 + d) as char
}

/// The decimal notation of `n`
pub open spec fn decimal(n: nat) -> Seq<char>
    decreases n,
{
    if n < 10 {
        seq![digit(n)]
    } else {
        decimal(n / 10) + seq![digit(n % 10)]
    }
}

/// Append the decimal notation of `n` to `s`
fn push_decimal(s: &mut String, n: usize)
    ensures
        final(s)@ == old(s)@ + decimal(n as nat),
    decreases n,
{
    if n >= 10 {
        push_decimal(s, n / 10);
    }
    let d = (n % 10) as u8;
    push_char(s, (48 + d) as char);
    proof {
        assert(final(s)@ =~= old(s)@ + decimal(n as nat));
    }
}

/// The emphasis code that opens a highlighted character of the word
pub open spec fn bold_on() -> Seq<char> {
    seq!['\x1B', '[', '1', 'm']
}

/// The emphasis code that opens the highlighted part of the figure
pub open spec fn red_on() -> Seq<char> {
    seq!['\x1B', '[', '1', ';', '3', '1', 'm']
}

/// The code that ends any emphasis
pub open spec fn style_off() -> Seq<char> {
    seq!['\x1B', '[', 'm']
}

/// How a position of the secret word is displayed
#[derive(Clone, Copy, Debug, PartialEq, Eq, Structural)]
pub enum CharDisplay {
    /// A revealed character
    Plain(char),
    /// A revealed character drawn with emphasis
    Highlighted(char),
    /// A character yet to be guessed
    Blank,
}

impl CharDisplay {
    /// The text of the position
    pub open spec fn text(self) -> Seq<char> {
        match self {
            CharDisplay::Plain(c) => seq![c],
            CharDisplay::Highlighted(c) => bold_on() + seq![c] + style_off(),
            CharDisplay::Blank => seq!['_'],
        }
    }

    /// Append the text of the position to `s`
    pub fn push_to(&self, s: &mut String)
        ensures
            final(s)@ == old(s)@ + self.text(),
    {
        match self {
            CharDisplay::Plain(c) => push_char(s, *c),
            CharDisplay::Highlighted(c) => {
                s.append("\x1B[1m");
                push_char(s, *c);
                s.append("\x1B[m");
                proof {
                    reveal_strlit("\x1B[1m");
                    reveal_strlit("\x1B[m");
                }
            },
            CharDisplay::Blank => push_char(s, '_'),
        }
        assert(final(s)@ =~= old(s)@ + self.text());
    }
}

/// The event that the screen reports
#[derive(Clone, Copy, Debug, PartialEq, Eq, Structural)]
pub enum Message {
    /// The game has just begun
    Start,
    /// A correct guess, found `count` times in the word
    GoodGuess { guess: char, count: usize },
    /// A guess that is not in the word
    BadGuess { guess: char },
    /// A repeated guess
    AlreadyGuessed { guess: char },
    /// A guess outside the alphabet
    InvalidGuess { guess: char },
    /// The user won
    Won,
    /// The user lost
    Lost,
}

impl Message {
    /// The game is over after this event
    pub open spec fn spec_is_game_over(self) -> bool {
        self is Won || self is Lost
    }

    /// The gallows advanced with this event
    pub open spec fn spec_gallows_advanced(self) -> bool {
        self is BadGuess || self is Lost
    }

    /// The game is over after this event
    pub fn is_game_over(&self) -> (r: bool)
        ensures
            r == self.spec_is_game_over(),
    {
        matches!(self, Message::Won | Message::Lost)
    }

    /// The gallows advanced with this event: it was a bad guess or the loss
    pub fn gallows_advanced(&self) -> (r: bool)
        ensures
            r == self.spec_gallows_advanced(),
    {
        matches!(self, Message::BadGuess { .. } | Message::Lost)
    }

    /// The guessed character that the event names, if any
    pub open spec fn guess_of(self) -> Option<char> {
        match self {
            Message::GoodGuess { guess, .. } => Some(guess),
            Message::BadGuess { guess } => Some(guess),
            Message::AlreadyGuessed { guess } => Some(guess),
            Message::InvalidGuess { guess } => Some(guess),
            _ => None,
        }
    }

    /// The text of the event, where `quoted` is how the guessed character is
    /// written
    pub open spec fn spec_text(self, quoted: Seq<char>) -> Seq<char> {
        match self {
            Message::Start => "Try to guess the secret word!"@,
            Message::GoodGuess { count, .. } => "Correct!  There "@ + if count == 1 {
                "is 1 "@ + quoted + " "@
            } else {
                "are "@ + decimal(count as nat) + " "@ + quoted + "s "@
            } + "in the word."@,
            Message::BadGuess { .. } => "Wrong!  There's no "@ + quoted + " in the word."@,
            Message::AlreadyGuessed { .. } => "You already guessed "@ + quoted + "."@,
            Message::InvalidGuess { .. } => quoted + " is not an option."@,
            Message::Won => "You win!"@,
            Message::Lost => "Oh dear, you are dead!"@,
        }
    }

    /// How the guessed character is written in the text of the event
    pub open spec fn quoted(self) -> Seq<char> {
        match self.guess_of() {
            Some(c) => char_debug(c),
            None => Seq::empty(),
        }
    }

    /// The text of the event, where `quoted` is how the guessed character is
    /// written
    pub fn text_with(&self, quoted: &str) -> (r: String)
        ensures
            r@ == self.spec_text(quoted@),
    {
        match self {
            Message::Start => String::from_str("Try to guess the secret word!"),
            Message::GoodGuess { count, .. } => {
                let mut s = String::from_str("Correct!  There ");
                if *count == 1 {
                    s.append("is 1 ");
                    s.append(quoted);
                    s.append(" ");
                } else {
                    s.append("are ");
                    push_decimal(&mut s, *count);
                    s.append(" ");
                    s.append(quoted);
                    s.append("s ");
                }
                s.append("in the word.");
                assert(s@ =~= self.spec_text(quoted@));
                s
            },
            Message::BadGuess { .. } => {
                let mut s = String::from_str("Wrong!  There's no ");
                s.append(quoted);
                s.append(" in the word.");
                s
            },
            Message::AlreadyGuessed { .. } => {
                let mut s = String::from_str("You already guessed ");
                s.append(quoted);
                s.append(".");
                s
            },
            Message::InvalidGuess { .. } => {
                let mut s = String::from_str(quoted);
                s.append(" is not an option.");
                s
            },
            Message::Won => String::from_str("You win!"),
            Message::Lost => String::from_str("Oh dear, you are dead!"),
        }
    }

    /// The text of the event
    pub fn text(&self) -> (r: String)
        ensures
            r@ == self.spec_text(self.quoted()),
    {
        let quoted = match self {
            Message::GoodGuess { guess, .. } => debug_char(*guess),
            Message::BadGuess { guess } => debug_char(*guess),
            Message::AlreadyGuessed { guess } => debug_char(*guess),
            Message::InvalidGuess { guess } => debug_char(*guess),
            _ => String::new(),
        };
        self.text_with(quoted.as_str())
    }
}

/// A body part of the figure, drawn with `c` once the gallows reach the
/// `k`th state; with emphasis when `highlight` is set and it is the part
/// just added
pub open spec fn part(g: Gallows, highlight: bool, k: nat, c: char) -> Seq<char> {
    if g.index() < k {
        seq![' ']
    } else if highlight && g.index() == k {
        red_on() + seq![c] + style_off()
    } else {
        seq![c]
    }
}

/// The five rows of the gallows art for a state: the frame, then the head,
/// the left arm, torso and right arm, the two legs, and the base
pub open spec fn gallows_art(g: Gallows, highlight: bool) -> Seq<Seq<char>> {
    seq![
        seq![' ', ' ', '┌', '─', '─', '─', '┐', ' '],
        seq![' ', ' ', '│', ' ', ' ', ' '] + part(g, highlight, 1, 'o') + seq![' '],
        seq![' ', ' ', '│', ' ', ' '] + part(g, highlight, 3, '/') + part(g, highlight, 2, '|')
            + part(g, highlight, 4, '\\'),
        seq![' ', ' ', '│', ' ', ' '] + part(g, highlight, 5, '/') + seq![' '] + part(
            g,
            highlight,
            6,
            '\\',
        ),
        seq!['─', '─', '┴', '─', '─', ' ', ' ', ' '],
    ]
}


/// `s` without its escape sequences, each of which runs from an escape
/// character to the next `m`; `in_escape` when `s` starts inside one
pub open spec fn strip_from(s: Seq<char>, in_escape: bool) -> Seq<char>
    decreases s.len(),
{
    if s.len() == 0 {
        Seq::empty()
    } else if in_escape {
        strip_from(s.drop_first(), s[0] != 'm')
    } else if s[0] == '\x1B' {
        strip_from(s.drop_first(), true)
    } else {
        seq![s[0]] + strip_from(s.drop_first(), false)
    }
}

/// Whether `s` ends inside an escape sequence; `in_escape` when it starts
/// inside one
pub open spec fn ends_in_escape(s: Seq<char>, in_escape: bool) -> bool
    decreases s.len(),
{
    if s.len() == 0 {
        in_escape
    } else if in_escape {
        ends_in_escape(s.drop_first(), s[0] != 'm')
    } else {
        ends_in_escape(s.drop_first(), s[0] == '\x1B')
    }
}

/// What of `s` shows on a terminal: `s` without its escape sequences.  Its
/// length is the display width of `s` where each character takes one column.
pub open spec fn visible(s: Seq<char>) -> Seq<char> {
    strip_from(s, false)
}

/// Stripping escape sequences works piece by piece
pub proof fn lemma_strip_concat(a: Seq<char>, b: Seq<char>, in_escape: bool)
    ensures
        strip_from(a + b, in_escape) == strip_from(a, in_escape) + strip_from(
            b,
            ends_in_escape(a, in_escape),
        ),
        ends_in_escape(a + b, in_escape) == ends_in_escape(b, ends_in_escape(a, in_escape)),
    decreases a.len(),
{
    if a.len() == 0 {
        assert(a + b =~= b);
        assert(strip_from(a, in_escape) =~= Seq::<char>::empty());
    } else {
        assert((a + b).drop_first() =~= a.drop_first() + b);
        let next = if in_escape {
            a[0] != 'm'
        } else {
            a[0] == '\x1B'
        };
        lemma_strip_concat(a.drop_first(), b, next);
        assert(strip_from(a + b, in_escape) =~= strip_from(a, in_escape) + strip_from(
            b,
            ends_in_escape(a, in_escape),
        ));
    }
}

/// Text without escape characters shows as it is
pub proof fn lemma_strip_plain(s: Seq<char>)
    requires
        forall|i: int| 0 <= i < s.len() ==> s[i] != '\x1B',
    ensures
        strip_from(s, false) == s,
        !ends_in_escape(s, false),
    decreases s.len(),
{
    if s.len() > 0 {
        lemma_strip_plain(s.drop_first());
        assert(strip_from(s, false) =~= s);
    }
}

/// A body part shows as its plain form, emphasis or not
proof fn lemma_strip_part(g: Gallows, highlight: bool, k: nat, c: char)
    requires
        c != '\x1B',
        c != 'm',
    ensures
        strip_from(part(g, highlight, k, c), false) == part(g, false, k, c),
        !ends_in_escape(part(g, highlight, k, c), false),
        part(g, false, k, c).len() == 1,
{
    if highlight && g.index() == k {
        let on = red_on();
        let off = style_off();
        lemma_strip_concat(on, seq![c] + off, false);
        lemma_strip_concat(seq![c], off, false);
        reveal_with_fuel(strip_from, 8);
        reveal_with_fuel(ends_in_escape, 8);
        assert(on.drop_first().drop_first().drop_first().drop_first().drop_first().drop_first()
            =~= seq!['m']);
        assert(off.drop_first().drop_first() =~= seq!['m']);
        assert(seq![c].drop_first() =~= Seq::<char>::empty());
        assert(part(g, highlight, k, c) =~= on + (seq![c] + off));
        assert(strip_from(seq![c], false) =~= seq![c]);
    } else {
        lemma_strip_plain(part(g, highlight, k, c));
    }
}

/// Every row of the gallows art is as wide as every other, in every state,
/// highlighted or not: highlighting only adds escape sequences, and each
/// row shows as eight characters
pub proof fn lemma_gallows_widths(g: Gallows, highlight: bool)
    ensures
        forall|i: int|
            0 <= i < Content::GALLOWS_HEIGHT ==> visible(#[trigger] gallows_art(g, highlight)[i])
                == gallows_art(g, false)[i] && gallows_art(g, false)[i].len() == Content::GALLOWS_WIDTH,
{
    let art = gallows_art(g, highlight);
    let plain = gallows_art(g, false);
    let bar = seq![' ', ' ', '│', ' ', ' '];
    let sp = seq![' '];
    lemma_strip_plain(bar);
    lemma_strip_plain(sp);
    lemma_strip_plain(bar + sp);
    lemma_strip_plain(art[0]);
    lemma_strip_plain(art[4]);
    lemma_strip_part(g, highlight, 1, 'o');
    lemma_strip_part(g, highlight, 2, '|');
    lemma_strip_part(g, highlight, 3, '/');
    lemma_strip_part(g, highlight, 4, '\\');
    lemma_strip_part(g, highlight, 5, '/');
    lemma_strip_part(g, highlight, 6, '\\');
    let head = part(g, highlight, 1, 'o');
    let torso = part(g, highlight, 2, '|');
    let left_arm = part(g, highlight, 3, '/');
    let right_arm = part(g, highlight, 4, '\\');
    let left_leg = part(g, highlight, 5, '/');
    let right_leg = part(g, highlight, 6, '\\');
    lemma_strip_concat(bar + sp, head, false);
    lemma_strip_concat(bar + sp + head, sp, false);
    lemma_strip_concat(bar, left_arm, false);
    lemma_strip_concat(bar + left_arm, torso, false);
    lemma_strip_concat(bar + left_arm + torso, right_arm, false);
    lemma_strip_concat(bar, left_leg, false);
    lemma_strip_concat(bar + left_leg, sp, false);
    lemma_strip_concat(bar + left_leg + sp, right_leg, false);
    assert(art[1] =~= bar + sp + head + sp);
    assert(plain[1] =~= bar + sp + part(g, false, 1, 'o') + sp);
    assert(art[2] =~= bar + left_arm + torso + right_arm);
    assert(art[3] =~= bar + left_leg + sp + right_leg);
}

/// `n` spaces
pub open spec fn spaces(n: nat) -> Seq<char> {
    Seq::new(n, |i: int| ' ')
}

/// `parts` separated by single spaces
pub open spec fn joined(parts: Seq<Seq<char>>) -> Seq<char>
    decreases parts.len(),
{
    if parts.len() == 0 {
        Seq::empty()
    } else if parts.len() == 1 {
        parts[0]
    } else {
        joined(parts.drop_last()) + seq![' '] + parts.last()
    }
}

/// How a letter of the grid is shown: itself while it may be guessed, a
/// blank once it has been
pub open spec fn letter_cell(o: Option<char>) -> Seq<char> {
    match o {
        Some(c) => seq![c],
        None => seq![' '],
    }
}

/// The `i`th row of at most six of the letter grid's entries
pub open spec fn letter_chunk(opts: Seq<Option<char>>, i: nat) -> Seq<Option<char>> {
    let n = opts.len() as int;
    let start = if Content::LETTER_COLUMNS * i < n {
        Content::LETTER_COLUMNS * i
    } else {
        n
    };
    let end = if Content::LETTER_COLUMNS * i + Content::LETTER_COLUMNS < n {
        Content::LETTER_COLUMNS * i + Content::LETTER_COLUMNS
    } else {
        n
    };
    opts.subrange(start as int, end as int)
}

/// The `i`th row of the letter grid, entries separated by spaces
pub open spec fn letters_row(opts: Seq<Option<char>>, i: nat) -> Seq<char> {
    joined(letter_chunk(opts, i).map_values(|o: Option<char>| letter_cell(o)))
}

/// The number of rows of the letter grid
pub open spec fn letter_rows(n: nat) -> nat {
    (n / Content::LETTER_COLUMNS as nat + if n % Content::LETTER_COLUMNS as nat == 0 {
        0nat
    } else {
        1nat
    }) as nat
}

/// The text shown for the hint
pub open spec fn hint_line(hint: Option<Seq<char>>) -> Seq<char> {
    match hint {
        Some(h) => "Hint: "@ + h,
        None => Seq::empty(),
    }
}

/// The prompt shown once the game is over
pub open spec fn prompt() -> Seq<char> {
    "Press the Any Key to exit."@
}

/// An immutable snapshot of everything shown on the screen in one turn
#[derive(Debug)]
pub struct Content {
    /// The hint for the secret word, if any
    pub hint: Option<String>,
    /// The state of the gallows
    pub gallows: Gallows,
    /// The alphabet in ascending order: each character that may still be
    /// guessed, `None` for each one already used
    pub guess_options: Vec<Option<char>>,
    /// How each position of the secret word is shown
    pub word_display: Vec<CharDisplay>,
    /// The event to report
    pub message: Message,
    /// Whether the game is over
    pub game_over: bool,
}

impl Content {
    /// The number of rows of the gallows art
    pub const GALLOWS_HEIGHT: usize = 5;

    /// The display width of each row of the gallows art
    pub const GALLOWS_WIDTH: usize = 8;

    /// The number of letters in each row of the letter grid
    pub const LETTER_COLUMNS: usize = 6;

    /// The number of columns between the gallows art and the letters
    pub const GUTTER: usize = 4;

    /// The width of the block of gallows art and letters: the frame is at
    /// least this wide, and the hint and the blank lines are centered in it
    pub const WIDTH: usize = Content::GALLOWS_WIDTH + Content::GUTTER + Content::LETTER_COLUMNS * 2 - 1;

    /// The number of lines of a frame whose letter grid fits beside the
    /// gallows art
    pub const HEIGHT: usize = Content::GALLOWS_HEIGHT + 8;

    /// The rows of the gallows art for a state.  With `highlight`, the body
    /// part added last is drawn with emphasis.
    pub fn draw_gallows(gallows: Gallows, highlight: bool) -> (r: [&'static str; 5])
        ensures
            forall|i: int| 0 <= i < Content::GALLOWS_HEIGHT ==> (#[trigger] r@[i])@ == gallows_art(gallows, highlight)[i],
    {
        let r = match (gallows, highlight) {
                (Gallows::Start, _) => {
                    proof {
                        reveal_strlit("  ┌───┐ ");
                        reveal_strlit("  │     ");
                        reveal_strlit("──┴──   ");
                    }
                    [
                    "  ┌───┐ ",
                    "  │     ",
                    "  │     ",
                    "  │     ",
                    "──┴──   ",
                    ]
                },
                (Gallows::AddHead, false) => {
                    proof {
                        reveal_strlit("  ┌───┐ ");
                        reveal_strlit("  │   o ");
                        reveal_strlit("  │     ");
                        reveal_strlit("──┴──   ");
                    }
                    [
                    "  ┌───┐ ",
                    "  │   o ",
                    "  │     ",
                    "  │     ",
                    "──┴──   ",
                    ]
                },
                (Gallows::AddHead, true) => {
                    proof {
                        reveal_strlit("  ┌───┐ ");
                        reveal_strlit("  │   \x1B[1;31mo\x1B[m ");
                        reveal_strlit("  │     ");
                        reveal_strlit("──┴──   ");
                    }
                    [
                    "  ┌───┐ ",
                    "  │   \x1B[1;31mo\x1B[m ",
                    "  │     ",
                    "  │     ",
                    "──┴──   ",
                    ]
                },
                (Gallows::AddTorso, false) => {
                    proof {
                        reveal_strlit("  ┌───┐ ");
                        reveal_strlit("  │   o ");
                        reveal_strlit("  │   | ");
                        reveal_strlit("  │     ");
                        reveal_strlit("──┴──   ");
                    }
                    [
                    "  ┌───┐ ",
                    "  │   o ",
                    "  │   | ",
                    "  │     ",
                    "──┴──   ",
                    ]
                },
                (Gallows::AddTorso, true) => {
                    proof {
                        reveal_strlit("  ┌───┐ ");
                        reveal_strlit("  │   o ");
                        reveal_strlit("  │   \x1B[1;31m|\x1B[m ");
                        reveal_strlit("  │     ");
                        reveal_strlit("──┴──   ");
                    }
                    [
                    "  ┌───┐ ",
                    "  │   o ",
                    "  │   \x1B[1;31m|\x1B[m ",
                    "  │     ",
                    "──┴──   ",
                    ]
                },
                (Gallows::AddLeftArm, false) => {
                    proof {
                        reveal_strlit("  ┌───┐ ");
                        reveal_strlit("  │   o ");
                        reveal_strlit("  │  /| ");
                        reveal_strlit("  │     ");
                        reveal_strlit("──┴──   ");
                    }
                    [
                    "  ┌───┐ ",
                    "  │   o ",
                    "  │  /| ",
                    "  │     ",
                    "──┴──   ",
                    ]
                },
                (Gallows::AddLeftArm, true) => {
                    proof {
                        reveal_strlit("  ┌───┐ ");
                        reveal_strlit("  │   o ");
                        reveal_strlit("  │  \x1B[1;31m/\x1B[m| ");
                        reveal_strlit("  │     ");
                        reveal_strlit("──┴──   ");
                    }
                    [
                    "  ┌───┐ ",
                    "  │   o ",
                    "  │  \x1B[1;31m/\x1B[m| ",
                    "  │     ",
                    "──┴──   ",
                    ]
                },
                (Gallows::AddRightArm, false) => {
                    proof {
                        reveal_strlit("  ┌───┐ ");
                        reveal_strlit("  │   o ");
                        reveal_strlit("  │  /|\\");
                        reveal_strlit("  │     ");
                        reveal_strlit("──┴──   ");
                    }
                    [
                    "  ┌───┐ ",
                    "  │   o ",
                    "  │  /|\\",
                    "  │     ",
                    "──┴──   ",
                    ]
                },
                (Gallows::AddRightArm, true) => {
                    proof {
                        reveal_strlit("  ┌───┐ ");
                        reveal_strlit("  │   o ");
                        reveal_strlit("  │  /|\x1B[1;31m\\\x1B[m");
                        reveal_strlit("  │     ");
                        reveal_strlit("──┴──   ");
                    }
                    [
                    "  ┌───┐ ",
                    "  │   o ",
                    "  │  /|\x1B[1;31m\\\x1B[m",
                    "  │     ",
                    "──┴──   ",
                    ]
                },
                (Gallows::AddLeftLeg, false) => {
                    proof {
                        reveal_strlit("  ┌───┐ ");
                        reveal_strlit("  │   o ");
                        reveal_strlit("  │  /|\\");
                        reveal_strlit("  │  /  ");
                        reveal_strlit("──┴──   ");
                    }
                    [
                    "  ┌───┐ ",
                    "  │   o ",
                    "  │  /|\\",
                    "  │  /  ",
                    "──┴──   ",
                    ]
                },
                (Gallows::AddLeftLeg, true) => {
                    proof {
                        reveal_strlit("  ┌───┐ ");
                        reveal_strlit("  │   o ");
                        reveal_strlit("  │  /|\\");
                        reveal_strlit("  │  \x1B[1;31m/\x1B[m  ");
                        reveal_strlit("──┴──   ");
                    }
                    [
                    "  ┌───┐ ",
                    "  │   o ",
                    "  │  /|\\",
                    "  │  \x1B[1;31m/\x1B[m  ",
                    "──┴──   ",
                    ]
                },
                (Gallows::AddRightLeg, false) => {
                    proof {
                        reveal_strlit("  ┌───┐ ");
                        reveal_strlit("  │   o ");
                        reveal_strlit("  │  /|\\");
                        reveal_strlit("  │  / \\");
                        reveal_strlit("──┴──   ");
                    }
                    [
                    "  ┌───┐ ",
                    "  │   o ",
                    "  │  /|\\",
                    "  │  / \\",
                    "──┴──   ",
                    ]
                },
                (Gallows::AddRightLeg, true) => {
                    proof {
                        reveal_strlit("  ┌───┐ ");
                        reveal_strlit("  │   o ");
                        reveal_strlit("  │  /|\\");
                        reveal_strlit("  │  / \x1B[1;31m\\\x1B[m");
                        reveal_strlit("──┴──   ");
                    }
                    [
                    "  ┌───┐ ",
                    "  │   o ",
                    "  │  /|\\",
                    "  │  / \x1B[1;31m\\\x1B[m",
                    "──┴──   ",
                    ]
                },
        };
        assert forall|i: int| 0 <= i < Content::GALLOWS_HEIGHT implies (#[trigger] r@[i])@ == gallows_art(gallows, highlight)[i] by {
            assert(r@[i]@ =~= gallows_art(gallows, highlight)[i]);
        }
        r
    }
}

impl Content {
    /// The hint, in mathematical terms
    pub open spec fn hint_view(&self) -> Option<Seq<char>> {
        match &self.hint {
            Some(h) => Some(h@),
            None => None,
        }
    }

    /// The number of rows of the block of gallows art and letters
    pub open spec fn block_rows(&self) -> nat {
        let r = letter_rows(self.guess_options@.len());
        if r < Content::GALLOWS_HEIGHT {
            Content::GALLOWS_HEIGHT as nat
        } else {
            r
        }
    }

    /// The `i`th row of the block: a row of the gallows art (blank below
    /// the art) and the gutter, then a row of the letter grid
    pub open spec fn block_row(&self, i: nat) -> Seq<char> {
        if i < Content::GALLOWS_HEIGHT {
            gallows_art(self.gallows, self.message.spec_gallows_advanced())[i as int] + spaces(
                Content::GUTTER as nat,
            ) + letters_row(self.guess_options@, i)
        } else {
            spaces((Content::GALLOWS_WIDTH + Content::GUTTER) as nat) + letters_row(self.guess_options@, i)
        }
    }

    /// The line showing the secret word, positions separated by spaces
    pub open spec fn word_line(&self) -> Seq<char> {
        joined(self.word_display@.map_values(|d: CharDisplay| d.text()))
    }

    /// The text of the message
    pub open spec fn message_line(&self) -> Seq<char> {
        self.message.spec_text(self.message.quoted())
    }

    /// The lines of the frame in order, each with the width it is centered
    /// in: the hint and a blank line; the block; a blank line and the word;
    /// a blank line and the message; a blank line and the prompt if the
    /// game is over, or another blank line
    pub open spec fn lines(&self) -> Seq<(Seq<char>, nat)> {
        self.head_lines() + self.block_lines() + self.tail_lines()
    }

    /// The hint and a blank line
    pub open spec fn head_lines(&self) -> Seq<(Seq<char>, nat)> {
        seq![
            (hint_line(self.hint_view()), Content::WIDTH as nat),
            (Seq::<char>::empty(), Content::WIDTH as nat),
        ]
    }

    /// The rows of the block
    pub open spec fn block_lines(&self) -> Seq<(Seq<char>, nat)> {
        Seq::new(self.block_rows(), |i: int| (self.block_row(i as nat), Content::WIDTH as nat))
    }

    /// The word, the message and the prompt, each after a blank line
    pub open spec fn tail_lines(&self) -> Seq<(Seq<char>, nat)> {
        let w = Content::WIDTH as nat;
        let e = Seq::<char>::empty();
        seq![
            (e, w),
            (self.word_line(), text_width(self.word_line())),
            (e, w),
            (self.message_line(), text_width(self.message_line())),
            (e, w),
        ] + if self.game_over {
            seq![(prompt(), text_width(prompt()))]
        } else {
            seq![(e, w)]
        }
    }

    /// The frame that shows this snapshot
    pub open spec fn rendered(&self) -> FrameView {
        FrameView { lines: Seq::empty(), width: 0 }.pushed_all(self.lines())
    }
}

/// Adding one more line to a series of additions
pub proof fn lemma_pushed_all_push(f: FrameView, pushes: Seq<(Seq<char>, nat)>, p: (Seq<char>, nat))
    ensures
        f.pushed_all(pushes.push(p)) == f.pushed_all(pushes).pushed(p.0, p.1),
{
    assert(pushes.push(p).drop_last() =~= pushes);
}

/// Append the cells of `opts[start..end]`, separated by spaces, to `s`
fn push_letters(s: &mut String, opts: &Vec<Option<char>>, start: usize, end: usize)
    requires
        start <= end <= opts.len(),
    ensures
        final(s)@ == old(s)@ + joined(
            opts@.subrange(start as int, end as int).map_values(|o: Option<char>| letter_cell(o)),
        ),
{
    let mut j = start;
    while j < end
        invariant
            start <= j <= end <= opts.len(),
            s@ == old(s)@ + joined(
                opts@.subrange(start as int, j as int).map_values(|o: Option<char>| letter_cell(o)),
            ),
        decreases end - j,
    {
        let ghost before = s@;
        let ghost cells = opts@.subrange(start as int, j as int).map_values(
            |o: Option<char>| letter_cell(o),
        );
        let ghost next = opts@.subrange(start as int, j + 1).map_values(
            |o: Option<char>| letter_cell(o),
        );
        if j > start {
            push_char(s, ' ');
        }
        let c = match opts[j] {
            Some(c) => c,
            None => ' ',
        };
        push_char(s, c);
        proof {
            assert(next.drop_last() =~= cells);
            assert(next.last() == seq![c]);
            if j == start {
                assert(next.len() == 1);
                assert(joined(cells) =~= Seq::<char>::empty());
            }
            assert(s@ =~= old(s)@ + joined(next));
        }
        j = j + 1;
    }
}

/// Append the positions of the word, separated by spaces, to `s`
fn push_word(s: &mut String, word: &Vec<CharDisplay>)
    ensures
        final(s)@ == old(s)@ + joined(word@.map_values(|d: CharDisplay| d.text())),
{
    let mut j: usize = 0;
    while j < word.len()
        invariant
            j <= word.len(),
            s@ == old(s)@ + joined(
                word@.subrange(0, j as int).map_values(|d: CharDisplay| d.text()),
            ),
        decreases word.len() - j,
    {
        let ghost cells = word@.subrange(0, j as int).map_values(|d: CharDisplay| d.text());
        let ghost next = word@.subrange(0, j + 1).map_values(|d: CharDisplay| d.text());
        if j > 0 {
            push_char(s, ' ');
        }
        word[j].push_to(s);
        proof {
            assert(next.drop_last() =~= cells);
            assert(next.last() == word@[j as int].text());
            if j == 0 {
                assert(next.len() == 1);
                assert(joined(cells) =~= Seq::<char>::empty());
            }
            assert(s@ =~= old(s)@ + joined(next));
        }
        j = j + 1;
    }
    assert(word@.subrange(0, j as int) =~= word@);
}

impl Content {
    /// Add the rows of the block to `frame`
    fn push_block(&self, frame: &mut Frame)
        ensures
            final(frame)@ == old(frame)@.pushed_all(self.block_lines()),
    {
        let ghost base = frame@;
        let ghost mut done: Seq<(Seq<char>, nat)> = Seq::empty();
        let art = Content::draw_gallows(self.gallows, self.message.gallows_advanced());
        let n = self.guess_options.len();
        let chunks = n / Content::LETTER_COLUMNS + if n % Content::LETTER_COLUMNS == 0 {
            0
        } else {
            1
        };
        let rows = if chunks < Content::GALLOWS_HEIGHT {
            Content::GALLOWS_HEIGHT
        } else {
            chunks
        };
        for i in 0..rows
            invariant
                n == self.guess_options.len(),
                chunks == letter_rows(n as nat),
                rows == self.block_rows(),
                forall|k: int|
                    0 <= k < Content::GALLOWS_HEIGHT ==> (#[trigger] art@[k])@ == gallows_art(
                        self.gallows,
                        self.message.spec_gallows_advanced(),
                    )[k],
                frame@ == base.pushed_all(done),
                done == Seq::new(i as nat, |k: int| (self.block_row(k as nat), Content::WIDTH as nat)),
        {
            let mut row = if i < Content::GALLOWS_HEIGHT {
                let mut r = String::from_str(art[i]);
                r.append("    ");
                r
            } else {
                String::from_str("            ")
            };
            proof {
                reveal_strlit("    ");
                reveal_strlit("            ");
            }
            let ghost pre = row@;
            if i < chunks {
                assert(Content::LETTER_COLUMNS * i < n);
                let start = i * Content::LETTER_COLUMNS;
                let end = if n - start > Content::LETTER_COLUMNS {
                    start + Content::LETTER_COLUMNS
                } else {
                    n
                };
                push_letters(&mut row, &self.guess_options, start, end);
                assert(row@ == pre + letters_row(self.guess_options@, i as nat));
            } else {
                assert(Content::LETTER_COLUMNS * i >= n);
                assert(letter_chunk(self.guess_options@, i as nat) =~= Seq::<Option<char>>::empty());
                assert(letters_row(self.guess_options@, i as nat) =~= Seq::<char>::empty());
                assert(row@ =~= pre + letters_row(self.guess_options@, i as nat));
            }
            assert(row@ =~= self.block_row(i as nat));
            proof {
                lemma_pushed_all_push(base, done, (row@, Content::WIDTH as nat));
                done = done.push((row@, Content::WIDTH as nat));
                assert(done =~= Seq::new(
                    (i + 1) as nat,
                    |k: int| (self.block_row(k as nat), Content::WIDTH as nat),
                ));
            }
            frame.push_in_width(row, Content::WIDTH);
        }
    }

    /// Add the lines below the block to `frame`
    fn push_tail(&self, frame: &mut Frame)
        ensures
            final(frame)@ == old(frame)@.pushed_all(self.tail_lines()),
    {
        let ghost base = frame@;
        let ghost mut done: Seq<(Seq<char>, nat)> = Seq::empty();
        proof {
            lemma_pushed_all_push(base, done, (Seq::empty(), Content::WIDTH as nat));
            done = done.push((Seq::empty(), Content::WIDTH as nat));
        }
        frame.push_in_width(String::new(), Content::WIDTH);
        let mut word = String::new();
        push_word(&mut word, &self.word_display);
        assert(word@ =~= self.word_line());
        proof {
            lemma_pushed_all_push(base, done, (word@, text_width(word@)));
            done = done.push((word@, text_width(word@)));
        }
        frame.push_centered(word);
        proof {
            lemma_pushed_all_push(base, done, (Seq::empty(), Content::WIDTH as nat));
            done = done.push((Seq::empty(), Content::WIDTH as nat));
        }
        frame.push_in_width(String::new(), Content::WIDTH);
        let message = self.message.text();
        proof {
            lemma_pushed_all_push(base, done, (message@, text_width(message@)));
            done = done.push((message@, text_width(message@)));
        }
        frame.push_centered(message);
        proof {
            lemma_pushed_all_push(base, done, (Seq::empty(), Content::WIDTH as nat));
            done = done.push((Seq::empty(), Content::WIDTH as nat));
        }
        frame.push_in_width(String::new(), Content::WIDTH);
        if self.game_over {
            let p = String::from_str("Press the Any Key to exit.");
            proof {
                lemma_pushed_all_push(base, done, (p@, text_width(p@)));
                done = done.push((p@, text_width(p@)));
            }
            frame.push_centered(p);
        } else {
            proof {
                lemma_pushed_all_push(base, done, (Seq::empty(), Content::WIDTH as nat));
                done = done.push((Seq::empty(), Content::WIDTH as nat));
            }
            frame.push_in_width(String::new(), Content::WIDTH);
        }
        assert(done =~= self.tail_lines());
    }

    /// Lay out the snapshot as a frame: see `lines` for what the frame holds
    pub fn render(self) -> (r: Frame)
        ensures
            r@ == self.rendered(),
    {
        let ghost base = FrameView { lines: Seq::empty(), width: 0 };
        let mut frame = Frame::with_capacity(Content::HEIGHT);
        let hint = match &self.hint {
            Some(h) => {
                let mut s = String::from_str("Hint: ");
                s.append(h.as_str());
                s
            },
            None => String::new(),
        };
        let ghost head = seq![(hint@, Content::WIDTH as nat), (Seq::<char>::empty(), Content::WIDTH as nat)];
        proof {
            lemma_pushed_all_push(base, Seq::empty(), head[0]);
            lemma_pushed_all_push(base, seq![head[0]], head[1]);
            assert(seq![head[0]] =~= Seq::empty().push(head[0]));
            assert(head =~= seq![head[0]].push(head[1]));
        }
        frame.push_in_width(hint, Content::WIDTH);
        frame.push_in_width(String::new(), Content::WIDTH);
        self.push_block(&mut frame);
        self.push_tail(&mut frame);
        proof {
            lemma_pushed_all_concat(base, head, self.block_lines());
            lemma_pushed_all_concat(base, head + self.block_lines(), self.tail_lines());
            assert(head == self.head_lines());
        }
        frame
    }
}

/// Adding two series of lines one after the other
pub proof fn lemma_pushed_all_concat(f: FrameView, a: Seq<(Seq<char>, nat)>, b: Seq<(Seq<char>, nat)>)
    ensures
        f.pushed_all(a + b) == f.pushed_all(a).pushed_all(b),
    decreases b.len(),
{
    if b.len() == 0 {
        assert(a + b =~= a);
    } else {
        lemma_pushed_all_concat(f, a, b.drop_last());
        assert((a + b).drop_last() =~= a + b.drop_last());
    }
}

/// Rendering depends on the snapshot alone: two snapshots that show the same
/// things give the same frame, and so the same lines on any terminal
pub proof fn lemma_render_pure(a: Content, b: Content)
    requires
        a.hint_view() == b.hint_view(),
        a.gallows == b.gallows,
        a.guess_options@ == b.guess_options@,
        a.word_display@ == b.word_display@,
        a.message == b.message,
        a.game_over == b.game_over,
    ensures
        a.rendered() == b.rendered(),
{
    assert(a.lines() =~= b.lines());
}

} // verus!
