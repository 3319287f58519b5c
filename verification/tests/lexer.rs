use scriptling::error::LexError;
use scriptling::lexer::{tokenize, Lexer};
use scriptling::number::Number;
use scriptling::token::Token;

fn ident(name: &str) -> Token {
    Token::Identifier(name.to_string())
}

fn op(symbol: &str) -> Token {
    Token::Operator(symbol.to_string())
}

fn num(value: f64) -> Token {
    Token::Number(Number::from_bits(value.to_bits()))
}

fn text(value: &str) -> Token {
    Token::StringLiteral(value.to_string())
}

#[test]
fn lexes_assignment_and_print() {
    assert_eq!(
        tokenize("x = 5\nprint x").unwrap(),
        vec![ident("x"), Token::Assign, num(5.0), Token::Newline, Token::Print, ident("x")]
    );
}

#[test]
fn empty_input_has_no_tokens() {
    assert_eq!(tokenize("").unwrap(), vec![]);
    let mut lexer = Lexer::new(String::new());
    assert_eq!(lexer.next_token(), Ok(Token::EOF));
    assert_eq!(lexer.next_token(), Ok(Token::EOF));
}

#[test]
fn deeper_line_opens_a_level_and_shallower_closes_it() {
    assert_eq!(
        tokenize("if x:\n    y\nz").unwrap(),
        vec![
            Token::If,
            ident("x"),
            Token::Colon,
            Token::Indent,
            ident("y"),
            Token::Dedent,
            ident("z"),
        ]
    );
}

#[test]
fn equal_margin_is_a_newline() {
    assert_eq!(
        tokenize("a\n  b\n  c").unwrap(),
        vec![ident("a"), Token::Indent, ident("b"), Token::Newline, ident("c"), Token::Dedent]
    );
}

#[test]
fn open_levels_are_closed_one_per_call_at_the_end() {
    let mut lexer = Lexer::new("a\n  b\n    c".to_string());
    let mut tokens = Vec::new();
    for _ in 0..9 {
        tokens.push(lexer.next_token().unwrap());
    }
    assert_eq!(
        tokens,
        vec![
            ident("a"),
            Token::Indent,
            ident("b"),
            Token::Indent,
            ident("c"),
            Token::Dedent,
            Token::Dedent,
            Token::EOF,
            Token::EOF,
        ]
    );
}

#[test]
fn a_line_break_closes_every_level_that_the_line_leaves() {
    assert_eq!(
        tokenize("a\n  b\n    c\nd").unwrap(),
        vec![
            ident("a"),
            Token::Indent,
            ident("b"),
            Token::Indent,
            ident("c"),
            Token::Dedent,
            Token::Dedent,
            ident("d"),
        ]
    );
    assert_eq!(
        tokenize("if a:\n  if b:\n    c\nd").unwrap(),
        vec![
            Token::If,
            ident("a"),
            Token::Colon,
            Token::Indent,
            Token::If,
            ident("b"),
            Token::Colon,
            Token::Indent,
            ident("c"),
            Token::Dedent,
            Token::Dedent,
            ident("d"),
        ]
    );
}

#[test]
fn pending_dedents_come_one_per_call() {
    let mut lexer = Lexer::new("a\n  b\n    c\n      d\n\n  e".to_string());
    let mut tokens = Vec::new();
    for _ in 0..14 {
        tokens.push(lexer.next_token().unwrap());
    }
    assert_eq!(
        tokens,
        vec![
            ident("a"),
            Token::Indent,
            ident("b"),
            Token::Indent,
            ident("c"),
            Token::Indent,
            ident("d"),
            Token::Dedent,
            Token::Dedent,
            ident("e"),
            Token::Dedent,
            Token::EOF,
            Token::EOF,
            Token::EOF,
        ]
    );
}

#[test]
fn dedent_to_a_margin_between_two_levels() {
    assert_eq!(
        tokenize("a\n    b\n  c").unwrap(),
        vec![ident("a"), Token::Indent, ident("b"), Token::Dedent, ident("c")]
    );
    assert_eq!(
        tokenize("a\n  b\n      c\n    d").unwrap(),
        vec![
            ident("a"),
            Token::Indent,
            ident("b"),
            Token::Indent,
            ident("c"),
            Token::Dedent,
            ident("d"),
            Token::Dedent,
        ]
    );
}

#[test]
fn levels_left_at_the_last_line_break() {
    assert_eq!(
        tokenize("a\n  b\n    c\n").unwrap(),
        vec![ident("a"), Token::Indent, ident("b"), Token::Indent, ident("c"), Token::Dedent, Token::Dedent]
    );
}

#[test]
fn blank_lines_do_not_count_for_the_margin() {
    assert_eq!(
        tokenize("a\n\n   \n  b").unwrap(),
        vec![ident("a"), Token::Indent, ident("b"), Token::Dedent]
    );
    assert_eq!(tokenize("a\n\n\nb").unwrap(), vec![ident("a"), Token::Newline, ident("b")]);
}

#[test]
fn spaces_at_the_end_of_the_input_open_a_level() {
    assert_eq!(tokenize("x\n   ").unwrap(), vec![ident("x"), Token::Indent, Token::Dedent]);
}

#[test]
fn comment_runs_to_the_line_break() {
    assert_eq!(
        tokenize("x # a note = 1\ny").unwrap(),
        vec![ident("x"), Token::Newline, ident("y")]
    );
    assert_eq!(tokenize("# only a note").unwrap(), vec![]);
    assert_eq!(
        tokenize("a # note\n  b").unwrap(),
        vec![ident("a"), Token::Indent, ident("b"), Token::Dedent]
    );
}

#[test]
fn line_break_after_spaces_is_a_plain_newline() {
    assert_eq!(tokenize("x  \n    y").unwrap(), vec![ident("x"), Token::Newline, ident("y")]);
}

#[test]
fn carriage_returns() {
    assert_eq!(
        tokenize("a\r\nb").unwrap(),
        vec![ident("a"), Token::Newline, Token::Newline, ident("b")]
    );
    assert_eq!(tokenize("a\n\rb").unwrap(), vec![ident("a"), Token::Newline, ident("b")]);
    assert_eq!(tokenize("a\rb").unwrap(), vec![ident("a"), Token::Newline, ident("b")]);
}

#[test]
fn leading_line_break_is_a_newline() {
    assert_eq!(tokenize("\nx").unwrap(), vec![Token::Newline, ident("x")]);
}

#[test]
fn strings_have_no_escapes() {
    assert_eq!(tokenize("\"hi there\"").unwrap(), vec![text("hi there")]);
    assert_eq!(tokenize("\"\"").unwrap(), vec![text("")]);
    assert_eq!(tokenize("\"a\\n\" x").unwrap(), vec![text("a\\n"), ident("x")]);
    assert_eq!(tokenize("\"two\nlines\"").unwrap(), vec![text("two\nlines")]);
}

#[test]
fn unclosed_string_runs_to_the_end() {
    assert_eq!(tokenize("\"abc").unwrap(), vec![text("abc")]);
    assert_eq!(tokenize("\"").unwrap(), vec![text("")]);
}

#[test]
fn numerals() {
    assert_eq!(tokenize("3.14").unwrap(), vec![num(3.14)]);
    assert_eq!(tokenize("1.").unwrap(), vec![num(1.0)]);
    assert_eq!(tokenize("007").unwrap(), vec![num(7.0)]);
    assert_eq!(tokenize("0.1").unwrap(), vec![num(0.1)]);
    assert_eq!(tokenize("12abc").unwrap(), vec![num(12.0), ident("abc")]);
    assert_eq!(tokenize("1.5x").unwrap(), vec![num(1.5), ident("x")]);
}

#[test]
fn second_decimal_point_ends_the_numeral() {
    assert_eq!(tokenize("1.2.3"), Err(LexError::UnexpectedCharacter('.')));
    let mut lexer = Lexer::new("1.2.3".to_string());
    assert_eq!(lexer.next_token(), Ok(num(1.2)));
    assert_eq!(lexer.next_token(), Err(LexError::UnexpectedCharacter('.')));
}

#[test]
fn numeral_starts_with_a_digit() {
    assert_eq!(tokenize(".5"), Err(LexError::UnexpectedCharacter('.')));
}

#[test]
fn words_and_keywords() {
    assert_eq!(
        tokenize("if else while def return print true false and or not").unwrap(),
        vec![
            Token::If,
            Token::Else,
            Token::While,
            Token::Def,
            Token::Return,
            Token::Print,
            Token::True,
            Token::False,
            Token::And,
            Token::Or,
            Token::Not,
        ]
    );
    assert_eq!(
        tokenize("iffy If True _x1 x_1y notx").unwrap(),
        vec![ident("iffy"), ident("If"), ident("True"), ident("_x1"), ident("x_1y"), ident("notx")]
    );
}

#[test]
fn operators_of_two_characters_come_first() {
    assert_eq!(
        tokenize("== != <= >= < > = !").unwrap(),
        vec![
            op("=="),
            op("!="),
            op("<="),
            op(">="),
            op("<"),
            op(">"),
            Token::Assign,
            Token::Not,
        ]
    );
    assert_eq!(tokenize("===").unwrap(), vec![op("=="), Token::Assign]);
    assert_eq!(tokenize("a<=b").unwrap(), vec![ident("a"), op("<="), ident("b")]);
}

#[test]
fn operators_and_punctuation_of_one_character() {
    assert_eq!(
        tokenize("+ - * / % ( ) [ ] , :").unwrap(),
        vec![
            op("+"),
            op("-"),
            op("*"),
            op("/"),
            op("%"),
            Token::LeftParen,
            Token::RightParen,
            Token::LeftBracket,
            Token::RightBracket,
            Token::Comma,
            Token::Colon,
        ]
    );
}

#[test]
fn unknown_character_is_an_error() {
    assert_eq!(tokenize("a @ b"), Err(LexError::UnexpectedCharacter('@')));
    assert_eq!(tokenize("x = 1;"), Err(LexError::UnexpectedCharacter(';')));
    let mut lexer = Lexer::new("a @".to_string());
    assert_eq!(lexer.next_token(), Ok(ident("a")));
    assert_eq!(lexer.next_token(), Err(LexError::UnexpectedCharacter('@')));
    assert_eq!(lexer.next_token(), Err(LexError::UnexpectedCharacter('@')));
}

#[test]
fn letters_outside_ascii_start_no_word() {
    assert_eq!(tokenize("é"), Err(LexError::UnexpectedCharacter('é')));
    assert_eq!(tokenize("xé"), Err(LexError::UnexpectedCharacter('é')));
}

#[test]
fn white_space_within_a_line_is_passed() {
    assert_eq!(tokenize("a\t\u{a0}\u{3000} b").unwrap(), vec![ident("a"), ident("b")]);
    assert_eq!(tokenize("   a").unwrap(), vec![ident("a")]);
}

#[test]
fn a_tab_is_no_margin() {
    assert_eq!(tokenize("a\n\tb").unwrap(), vec![ident("a"), Token::Newline, ident("b")]);
}

#[test]
fn look_ahead_and_advance() {
    let mut lexer = Lexer::new("ab".to_string());
    assert_eq!(lexer.peek_char(), Some('b'));
    lexer.advance();
    assert_eq!(lexer.peek_char(), None);
    lexer.advance();
    lexer.advance();
    assert_eq!(lexer.peek_char(), None);
    assert_eq!(lexer.next_token(), Ok(Token::EOF));
}

#[test]
fn advance_moves_on_past_the_end() {
    let mut lexer = Lexer::new("a b".to_string());
    lexer.advance();
    lexer.advance();
    assert_eq!(lexer.next_token(), Ok(ident("b")));
    lexer.advance();
    lexer.advance();
    assert_eq!(lexer.peek_char(), None);
    assert_eq!(lexer.next_token(), Ok(Token::EOF));
    let mut lexer = Lexer::new("x\n  y".to_string());
    for _ in 0..10 {
        lexer.advance();
    }
    assert_eq!(lexer.next_token(), Ok(Token::EOF));
}

#[test]
fn tokens_compare_numbers_as_numbers() {
    assert_eq!(num(0.0), num(-0.0));
    assert_ne!(num(f64::NAN), num(f64::NAN));
    assert_ne!(ident("a"), text("a"));
    assert_eq!(ident("a").clone(), ident("a"));
}

