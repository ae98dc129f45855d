use hangman::model::Gallows;
use console::measure_text_width;
use hangman::view::{CharDisplay, Content, Frame, Line, Message};

fn draw_frame(frame: Frame, width: u16, height: u16) -> Vec<String> {
    let mut lines = Vec::with_capacity(usize::from(height));
    for (y, x, line) in frame.lines_in_area(width, height) {
        let y = usize::from(y);
        let x = usize::from(x);
        if lines.is_empty() {
            lines.extend(std::iter::repeat_n(String::new(), y));
        } else {
            assert_eq!(y, lines.len());
        }
        if line.is_empty() {
            lines.push(line);
        } else {
            lines.push(" ".repeat(x) + &line);
        }
    }
    lines.extend(std::iter::repeat_n(
        String::new(),
        usize::from(height) - lines.len(),
    ));
    lines
}

#[test]
fn test_gallows_widths() {
    for gallows in std::iter::successors(Some(Gallows::Start), |&g| g.succ()) {
        for line in Content::draw_gallows(gallows, false) {
            assert_eq!(measure_text_width(line), Content::GALLOWS_WIDTH);
        }
        for line in Content::draw_gallows(gallows, true) {
            assert_eq!(measure_text_width(line), Content::GALLOWS_WIDTH);
        }
    }
}

#[test]
fn start() {
    let content = Content {
        hint: Some(String::from("A difficult word")),
        gallows: Gallows::Start,
        guess_options: vec![
            Some('A'),
            Some('B'),
            Some('C'),
            Some('D'),
            Some('E'),
            Some('F'),
            Some('G'),
            Some('H'),
            Some('I'),
            Some('J'),
            Some('K'),
            Some('L'),
            Some('M'),
            Some('N'),
            Some('O'),
            Some('P'),
            Some('Q'),
            Some('R'),
            Some('S'),
            Some('T'),
            Some('U'),
            Some('V'),
            Some('W'),
            Some('X'),
            Some('Y'),
            Some('Z'),
        ],
        word_display: vec![
            CharDisplay::Blank,
            CharDisplay::Blank,
            CharDisplay::Blank,
            CharDisplay::Blank,
            CharDisplay::Blank,
            CharDisplay::Blank,
        ],
        message: Message::Start,
        game_over: false,
    };
    let frame = content.render();
    assert_eq!(
        draw_frame(frame, 50, 15),
        [
            "",
            "             Hint: A difficult word",
            "",
            "               ┌───┐     A B C D E F",
            "               │         G H I J K L",
            "               │         M N O P Q R",
            "               │         S T U V W X",
            "             ──┴──       Y Z",
            "",
            "                   _ _ _ _ _ _",
            "",
            "          Try to guess the secret word!",
            "",
            "",
            "",
        ]
    );
}

#[test]
fn no_hint() {
    let content = Content {
        hint: None,
        gallows: Gallows::Start,
        guess_options: vec![
            Some('A'),
            Some('B'),
            Some('C'),
            Some('D'),
            Some('E'),
            Some('F'),
            Some('G'),
            Some('H'),
            Some('I'),
            Some('J'),
            Some('K'),
            Some('L'),
            Some('M'),
            Some('N'),
            Some('O'),
            Some('P'),
            Some('Q'),
            Some('R'),
            Some('S'),
            Some('T'),
            Some('U'),
            Some('V'),
            Some('W'),
            Some('X'),
            Some('Y'),
            Some('Z'),
        ],
        word_display: vec![
            CharDisplay::Blank,
            CharDisplay::Blank,
            CharDisplay::Blank,
            CharDisplay::Blank,
            CharDisplay::Blank,
            CharDisplay::Blank,
        ],
        message: Message::Start,
        game_over: false,
    };
    let frame = content.render();
    assert_eq!(
        draw_frame(frame, 50, 15),
        [
            "",
            "",
            "",
            "               ┌───┐     A B C D E F",
            "               │         G H I J K L",
            "               │         M N O P Q R",
            "               │         S T U V W X",
            "             ──┴──       Y Z",
            "",
            "                   _ _ _ _ _ _",
            "",
            "          Try to guess the secret word!",
            "",
            "",
            "",
        ]
    );
}

#[test]
fn after_good_guess() {
    let content = Content {
        hint: Some(String::from("A difficult word")),
        gallows: Gallows::Start,
        guess_options: vec![
            None,
            Some('B'),
            Some('C'),
            Some('D'),
            Some('E'),
            Some('F'),
            Some('G'),
            Some('H'),
            Some('I'),
            Some('J'),
            Some('K'),
            Some('L'),
            Some('M'),
            Some('N'),
            Some('O'),
            Some('P'),
            Some('Q'),
            Some('R'),
            Some('S'),
            Some('T'),
            Some('U'),
            Some('V'),
            Some('W'),
            Some('X'),
            Some('Y'),
            Some('Z'),
        ],
        word_display: vec![
            CharDisplay::Highlighted('A'),
            CharDisplay::Blank,
            CharDisplay::Highlighted('A'),
            CharDisplay::Blank,
            CharDisplay::Blank,
            CharDisplay::Blank,
        ],
        message: Message::GoodGuess {
            guess: 'A',
            count: 2,
        },
        game_over: false,
    };
    let frame = content.render();
    assert_eq!(
        draw_frame(frame, 50, 15),
        [
            "",
            "             Hint: A difficult word",
            "",
            "               ┌───┐       B C D E F",
            "               │         G H I J K L",
            "               │         M N O P Q R",
            "               │         S T U V W X",
            "             ──┴──       Y Z",
            "",
            "                   \x1B[1mA\x1B[m _ \x1B[1mA\x1B[m _ _ _",
            "",
            "     Correct!  There are 2 'A's in the word.",
            "",
            "",
            "",
        ]
    );
}

#[test]
fn after_bad_guess() {
    let content = Content {
        hint: Some(String::from("A difficult word")),
        gallows: Gallows::AddHead,
        guess_options: vec![
            None,
            Some('B'),
            Some('C'),
            Some('D'),
            None,
            Some('F'),
            Some('G'),
            Some('H'),
            Some('I'),
            Some('J'),
            Some('K'),
            Some('L'),
            Some('M'),
            Some('N'),
            Some('O'),
            Some('P'),
            Some('Q'),
            Some('R'),
            Some('S'),
            Some('T'),
            Some('U'),
            Some('V'),
            Some('W'),
            Some('X'),
            Some('Y'),
            Some('Z'),
        ],
        word_display: vec![
            CharDisplay::Plain('A'),
            CharDisplay::Blank,
            CharDisplay::Plain('A'),
            CharDisplay::Blank,
            CharDisplay::Blank,
            CharDisplay::Blank,
        ],
        message: Message::BadGuess { guess: 'E' },
        game_over: false,
    };
    let frame = content.render();
    assert_eq!(
        draw_frame(frame, 50, 15),
        [
            "",
            "             Hint: A difficult word",
            "",
            "               ┌───┐       B C D   F",
            "               │   \x1B[1;31mo\x1B[m     G H I J K L",
            "               │         M N O P Q R",
            "               │         S T U V W X",
            "             ──┴──       Y Z",
            "",
            "                   A _ A _ _ _",
            "",
            "       Wrong!  There's no 'E' in the word.",
            "",
            "",
            "",
        ]
    );
}

#[test]
fn win() {
    let content = Content {
        hint: Some(String::from("A difficult word")),
        gallows: Gallows::AddRightArm,
        guess_options: vec![
            None,
            None,
            None,
            None,
            None,
            Some('F'),
            Some('G'),
            Some('H'),
            None,
            Some('J'),
            Some('K'),
            Some('L'),
            Some('M'),
            Some('N'),
            Some('O'),
            Some('P'),
            Some('Q'),
            Some('R'),
            None,
            None,
            None,
            Some('V'),
            Some('W'),
            Some('X'),
            Some('Y'),
            Some('Z'),
        ],
        word_display: vec![
            CharDisplay::Plain('A'),
            CharDisplay::Plain('B'),
            CharDisplay::Plain('A'),
            CharDisplay::Plain('C'),
            CharDisplay::Highlighted('U'),
            CharDisplay::Plain('S'),
        ],
        message: Message::Won,
        game_over: true,
    };
    let frame = content.render();
    assert_eq!(
        draw_frame(frame, 50, 15),
        [
            "",
            "             Hint: A difficult word",
            "",
            "               ┌───┐               F",
            "               │   o     G H   J K L",
            "               │  /|\\    M N O P Q R",
            "               │               V W X",
            "             ──┴──       Y Z",
            "",
            "                   A B A C \x1B[1mU\x1B[m S",
            "",
            "                     You win!",
            "",
            "            Press the Any Key to exit.",
            "",
        ]
    );
}

#[test]
fn lose() {
    let content = Content {
        hint: Some(String::from("A difficult word")),
        gallows: Gallows::AddRightLeg,
        guess_options: vec![
            None,
            Some('B'),
            Some('C'),
            Some('D'),
            None,
            Some('F'),
            Some('G'),
            Some('H'),
            None,
            Some('J'),
            Some('K'),
            Some('L'),
            Some('M'),
            Some('N'),
            None,
            Some('P'),
            Some('Q'),
            None,
            Some('S'),
            None,
            None,
            Some('V'),
            Some('W'),
            Some('X'),
            None,
            Some('Z'),
        ],
        word_display: vec![
            CharDisplay::Plain('A'),
            CharDisplay::Highlighted('B'),
            CharDisplay::Plain('A'),
            CharDisplay::Highlighted('C'),
            CharDisplay::Plain('U'),
            CharDisplay::Highlighted('S'),
        ],
        message: Message::Lost,
        game_over: true,
    };
    let frame = content.render();
    assert_eq!(
        draw_frame(frame, 50, 15),
        [
            "",
            "             Hint: A difficult word",
            "",
            "               ┌───┐       B C D   F",
            "               │   o     G H   J K L",
            "               │  /|\\    M N   P Q  ",
            "               │  / \x1B[1;31m\\\x1B[m    S     V W X",
            "             ──┴──         Z",
            "",
            "                   A \x1B[1mB\x1B[m A \x1B[1mC\x1B[m U \x1B[1mS\x1B[m",
            "",
            "              Oh dear, you are dead!",
            "",
            "            Press the Any Key to exit.",
            "",
        ]
    );
}

#[test]
fn message_texts() {
    assert_eq!(
        Message::GoodGuess { guess: 'A', count: 1 }.text(),
        "Correct!  There is 1 'A' in the word."
    );
    assert_eq!(
        Message::GoodGuess { guess: 'E', count: 12 }.text(),
        "Correct!  There are 12 'E's in the word."
    );
    assert_eq!(
        Message::GoodGuess { guess: 'E', count: 105 }.text(),
        "Correct!  There are 105 'E's in the word."
    );
    assert_eq!(
        Message::BadGuess { guess: 'Q' }.text(),
        "Wrong!  There's no 'Q' in the word."
    );
    assert_eq!(
        Message::AlreadyGuessed { guess: 'R' }.text(),
        "You already guessed 'R'."
    );
    assert_eq!(
        Message::InvalidGuess { guess: '7' }.text(),
        "'7' is not an option."
    );
    assert_eq!(
        Message::InvalidGuess { guess: '\'' }.text(),
        "'\\'' is not an option."
    );
    assert_eq!(Message::Start.text(), "Try to guess the secret word!");
    assert_eq!(Message::Won.text(), "You win!");
    assert_eq!(Message::Lost.text(), "Oh dear, you are dead!");
}

#[test]
fn message_text_with_given_quoting() {
    assert_eq!(
        Message::BadGuess { guess: 'Q' }.text_with("<Q>"),
        "Wrong!  There's no <Q> in the word."
    );
    assert_eq!(
        Message::GoodGuess { guess: 'Q', count: 0 }.text_with("q"),
        "Correct!  There are 0 qs in the word."
    );
}

#[test]
fn message_flags() {
    assert!(Message::Won.is_game_over());
    assert!(Message::Lost.is_game_over());
    assert!(!Message::BadGuess { guess: 'X' }.is_game_over());
    assert!(Message::BadGuess { guess: 'X' }.gallows_advanced());
    assert!(Message::Lost.gallows_advanced());
    assert!(!Message::Won.gallows_advanced());
    assert!(!Message::GoodGuess { guess: 'X', count: 1 }.gallows_advanced());
}

#[test]
fn wider_line_widens_frame_and_recenters() {
    let mut frame = Frame::with_capacity(3);
    frame.push_in_width(String::from("block"), 10);
    frame.push_centered(String::from("abcd"));
    assert_eq!(frame.width(), 10);
    frame.push_centered(String::from("\x1B[1mfourteen chars\x1B[m"));
    assert_eq!(frame.width(), 14);
    assert_eq!(frame.height(), 3);
    let placed = frame.lines_in_area(20, 7);
    assert_eq!(frame.margins(20, 7), (3, 2));
    assert_eq!(
        placed,
        vec![
            (2, 5, String::from("block")),
            (3, 8, String::from("abcd")),
            (4, 3, String::from("\x1B[1mfourteen chars\x1B[m")),
        ]
    );
}

#[test]
fn lines_beyond_terminal_are_truncated() {
    let mut frame = Frame::with_capacity(3);
    frame.push_centered(String::from("abcdefghij"));
    frame.push_centered(String::from("xy"));
    frame.push_centered(String::from("z"));
    let placed = frame.lines_in_area(6, 2);
    assert_eq!(
        placed,
        vec![(0, 0, String::from("abcdef")), (1, 4, String::from("xy"))]
    );
}

#[test]
fn rendering_is_repeatable() {
    let content = || Content {
        hint: None,
        gallows: Gallows::AddLeftLeg,
        guess_options: vec![Some('A'), None, Some('C')],
        word_display: vec![CharDisplay::Blank, CharDisplay::Highlighted('C')],
        message: Message::BadGuess { guess: 'B' },
        game_over: false,
    };
    let a = draw_frame(content().render(), 40, 20);
    let b = draw_frame(content().render(), 40, 20);
    assert_eq!(a, b);
    assert_eq!(a.len(), 20);
}

#[test]
fn many_letters_add_rows_below_the_art() {
    let options: Vec<Option<char>> = (0..40u8).map(|i| Some((b'0' + i) as char)).collect();
    let content = Content {
        hint: None,
        gallows: Gallows::Start,
        guess_options: options,
        word_display: vec![CharDisplay::Plain('X')],
        message: Message::Start,
        game_over: false,
    };
    let frame = content.render();
    assert_eq!(frame.height(), 15);
    let lines = draw_frame(frame, 50, 15);
    assert_eq!(lines[6], "             ──┴──       H I J K L M");
    assert_eq!(lines[7], "                         N O P Q R S");
    assert_eq!(lines[8], "                         T U V W");
}

#[test]
fn pushed_lines_center_in_their_width() {
    let mut frame = Frame::with_capacity(2);
    assert_eq!(frame.width(), 0);
    frame.push(Line { content: String::from("ab"), center_in_width: Some(6) });
    frame.push(Line { content: String::from("\x1B[1mX\x1B[m"), center_in_width: None });
    assert_eq!(frame.width(), 6);
    assert_eq!(
        frame.lines_in_area(10, 2),
        vec![(0, 2, String::from("ab")), (1, 4, String::from("\x1B[1mX\x1B[m"))]
    );
}
