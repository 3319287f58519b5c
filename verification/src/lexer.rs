//! The lexer: from characters to tokens, with the indentation of each line
//! turned into `Indent`, `Dedent` and `Newline` tokens.

use crate::error::LexError;
use crate::number::{digits_end, is_numeral, Number};
use crate::text::{characters, is_word, push_char, text_of};
use crate::token::{token_views, Token, TokenView};
use vstd::prelude::*;

verus! {

/// The classes of characters that the lexer runs over.
pub enum CharClass {
    /// White space within a line.
    Space,
    /// Decimal digits.
    Digit,
    /// Letters, digits and the underscore.
    Word,
    /// Anything but the double quote.
    StringBody,
    /// Anything but a line break.
    CommentBody,
}

/// White space other than the line breaks.
pub open spec fn is_space_char(c: char) -> bool {
    c == '\t' || c == '\u{b}' || c == '\u{c}' || c == ' ' || c == '\u{85}' || c == '\u{a0}' || c
        == '\u{1680}' || ('\u{2000}' <= c && c <= '\u{200a}') || c == '\u{2028}' || c
        == '\u{2029}' || c == '\u{202f}' || c == '\u{205f}' || c == '\u{3000}'
}

/// The decimal digits.
pub open spec fn is_digit_char(c: char) -> bool {
    '0' <= c && c <= '9'
}

/// The characters that start a word: the letters of ASCII and the
/// underscore.
pub open spec fn is_word_start(c: char) -> bool {
    ('a' <= c && c <= 'z') || ('A' <= c && c <= 'Z') || c == '_'
}

/// The characters that a word goes on with: those that start one, and the
/// digits.
pub open spec fn is_word_char(c: char) -> bool {
    is_word_start(c) || is_digit_char(c)
}

impl CharClass {
    /// Whether a character is of the class.
    pub open spec fn holds(self, c: char) -> bool {
        match self {
            CharClass::Space => is_space_char(c),
            CharClass::Digit => is_digit_char(c),
            CharClass::Word => is_word_char(c),
            CharClass::StringBody => c != '"',
            CharClass::CommentBody => c != '\n' && c != '\r',
        }
    }
}

/// The first position at or after `from` that holds no character of the
/// class, or the end of the input.
pub open spec fn scan(input: Seq<char>, from: int, class: CharClass) -> int
    decreases input.len() - from,
{
    if 0 <= from < input.len() && class.holds(input[from]) {
        scan(input, from + 1, class)
    } else {
        from
    }
}

/// A scan ends at or after its start, and within the input.
pub proof fn lemma_scan_bounds(input: Seq<char>, from: int, class: CharClass)
    requires
        0 <= from <= input.len(),
    ensures
        from <= scan(input, from, class) <= input.len(),
    decreases input.len() - from,
{
    if from < input.len() && class.holds(input[from]) {
        lemma_scan_bounds(input, from + 1, class);
    }
}

/// The position after the line feed at `at` and a carriage return that
/// follows it directly.
pub open spec fn after_break(input: Seq<char>, at: int) -> int {
    if at + 1 < input.len() && input[at + 1] == '\r' {
        at + 2
    } else {
        at + 1
    }
}

/// Where a line's text starts and how many spaces stand before it.
pub struct Margin {
    pub position: int,
    pub width: nat,
}

/// The margin of the first line at or after `from` that is not blank, where
/// `width` spaces of the line at `from` have been passed already. A line of
/// spaces alone that ends in a line feed is blank.
pub open spec fn margin(input: Seq<char>, from: int, width: nat) -> Margin
    decreases input.len() - from,
{
    if 0 <= from < input.len() && input[from] == ' ' {
        margin(input, from + 1, width + 1)
    } else if 0 <= from < input.len() && input[from] == '\n' {
        margin(input, after_break(input, from), 0)
    } else {
        Margin { position: from, width }
    }
}

/// The token that a word stands for: a keyword, or else an identifier.
pub open spec fn word_token(text: Seq<char>) -> TokenView {
    if text == "if"@ {
        TokenView::If
    } else if text == "else"@ {
        TokenView::Else
    } else if text == "while"@ {
        TokenView::While
    } else if text == "def"@ {
        TokenView::Def
    } else if text == "return"@ {
        TokenView::Return
    } else if text == "print"@ {
        TokenView::Print
    } else if text == "true"@ {
        TokenView::True
    } else if text == "false"@ {
        TokenView::False
    } else if text == "and"@ {
        TokenView::And
    } else if text == "or"@ {
        TokenView::Or
    } else if text == "not"@ {
        TokenView::Not
    } else {
        TokenView::Identifier(text)
    }
}

/// The end of the numeral that starts at `from`: digits, then at most one
/// decimal point with the digits that follow it.
pub open spec fn numeral_end(input: Seq<char>, from: int) -> int {
    let whole = scan(input, from, CharClass::Digit);
    if 0 <= whole < input.len() && input[whole] == '.' {
        scan(input, whole + 1, CharClass::Digit)
    } else {
        whole
    }
}

/// One step of the lexer: the token, and the state after it.
pub struct LexStep {
    pub token: Result<TokenView, LexError>,
    pub position: int,
    pub indents: Seq<usize>,
}

/// The token for the line break at `position`, by the margin of the next
/// line that is not blank: deeper than the innermost open level opens a
/// level, shallower closes one, equal is a plain line break.
///
/// Where the level below the one that is closed is still deeper than the
/// margin, the cursor stays on the line break, so that the next step makes
/// the comparison again and closes that level too: the levels that a line
/// leaves are closed one per step, all of them before the first token of
/// the line.
pub open spec fn break_step(input: Seq<char>, position: int, indents: Seq<usize>) -> LexStep {
    let m = margin(input, after_break(input, position), 0);
    if m.width > indents.last() {
        LexStep {
            token: Ok(TokenView::Indent),
            position: m.position,
            indents: indents.push(m.width as usize),
        }
    } else if m.width < indents.last() {
        let open = indents.drop_last();
        LexStep {
            token: Ok(TokenView::Dedent),
            position: if open.len() > 0 && m.width < open.last() {
                position
            } else {
                m.position
            },
            indents: open,
        }
    } else {
        LexStep { token: Ok(TokenView::Newline), position: m.position, indents }
    }
}

/// The token at the end of the input: one `Dedent` for each level that is
/// still open, then `EOF`.
pub open spec fn end_step(position: int, indents: Seq<usize>) -> LexStep {
    if indents.len() > 1 {
        LexStep { token: Ok(TokenView::Dedent), position, indents: indents.drop_last() }
    } else {
        LexStep { token: Ok(TokenView::EOF), position, indents }
    }
}

/// The token that starts with the operator or punctuation character at
/// `at`, and the position after it.
pub open spec fn symbol_step(input: Seq<char>, at: int, indents: Seq<usize>) -> LexStep {
    let c = input[at];
    let paired = at + 1 < input.len() && input[at + 1] == '=';
    if c == '=' || c == '!' || c == '<' || c == '>' {
        if paired {
            LexStep {
                token: Ok(TokenView::Operator(seq![c, '='])),
                position: at + 2,
                indents,
            }
        } else if c == '=' {
            LexStep { token: Ok(TokenView::Assign), position: at + 1, indents }
        } else if c == '!' {
            LexStep { token: Ok(TokenView::Not), position: at + 1, indents }
        } else {
            LexStep { token: Ok(TokenView::Operator(seq![c])), position: at + 1, indents }
        }
    } else if c == '+' || c == '-' || c == '*' || c == '/' || c == '%' {
        LexStep { token: Ok(TokenView::Operator(seq![c])), position: at + 1, indents }
    } else if c == '(' {
        LexStep { token: Ok(TokenView::LeftParen), position: at + 1, indents }
    } else if c == ')' {
        LexStep { token: Ok(TokenView::RightParen), position: at + 1, indents }
    } else if c == '[' {
        LexStep { token: Ok(TokenView::LeftBracket), position: at + 1, indents }
    } else if c == ']' {
        LexStep { token: Ok(TokenView::RightBracket), position: at + 1, indents }
    } else if c == ',' {
        LexStep { token: Ok(TokenView::Comma), position: at + 1, indents }
    } else if c == ':' {
        LexStep { token: Ok(TokenView::Colon), position: at + 1, indents }
    } else {
        LexStep { token: Err(LexError::UnexpectedCharacter(c)), position: at, indents }
    }
}

/// The next token of `input` from `position`, with the indentation levels
/// `indents` open, and the state after it.
///
/// A line feed at `position` is answered by the margin of the next line.
/// Otherwise white space is passed; then comes the end of the input, a
/// comment (passed up to its line break, after which lexing starts over), a
/// line break, a string, a numeral, a word or a symbol. A character that
/// starts no token is not passed.
pub open spec fn lex_step(input: Seq<char>, position: int, indents: Seq<usize>) -> LexStep
    decreases input.len() - position,
{
    if 0 <= position < input.len() && input[position] == '\n' {
        break_step(input, position, indents)
    } else {
        let at = scan(input, position, CharClass::Space);
        if !(0 <= at < input.len()) {
            end_step(at, indents)
        } else {
            let c = input[at];
            if c == '#' {
                let rest = scan(input, at, CharClass::CommentBody);
                proof {
                    if 0 <= position {
                        lemma_scan_bounds(input, position, CharClass::Space);
                    }
                    lemma_scan_bounds(input, at + 1, CharClass::CommentBody);
                }
                lex_step(input, rest, indents)
            } else if c == '\n' || c == '\r' {
                LexStep { token: Ok(TokenView::Newline), position: at + 1, indents }
            } else if c == '"' {
                let close = scan(input, at + 1, CharClass::StringBody);
                LexStep {
                    token: Ok(TokenView::StringLiteral(input.subrange(at + 1, close))),
                    position: if close < input.len() {
                        close + 1
                    } else {
                        close
                    },
                    indents,
                }
            } else if is_digit_char(c) {
                let end = numeral_end(input, at);
                LexStep {
                    token: Ok(TokenView::Number(Number::of_numeral(input.subrange(at, end)))),
                    position: end,
                    indents,
                }
            } else if is_word_start(c) {
                let end = scan(input, at, CharClass::Word);
                LexStep { token: Ok(word_token(input.subrange(at, end))), position: end, indents }
            } else {
                symbol_step(input, at, indents)
            }
        }
    }
}

/// The lexer's state as a mathematical value.
pub struct LexerView {
    pub input: Seq<char>,
    pub position: int,
    pub indents: Seq<usize>,
}

/// A lexer over one source text.
pub struct Lexer {
    input: Vec<char>,
    position: usize,
    current_char: Option<char>,
    indent_stack: Vec<usize>,
}

impl View for Lexer {
    type V = LexerView;

    closed spec fn view(&self) -> LexerView {
        LexerView {
            input: self.input@,
            position: self.position as int,
            indents: self.indent_stack@,
        }
    }
}

impl LexerView {
    /// The character under the cursor.
    pub open spec fn current(self) -> Option<char> {
        if 0 <= self.position < self.input.len() {
            Some(self.input[self.position])
        } else {
            None
        }
    }

    /// The outermost indentation level is the left edge. The cursor may
    /// stand past the end of the input.
    pub open spec fn wf(self) -> bool {
        &&& 0 <= self.position
        &&& self.input.len() <= usize::MAX
        &&& self.indents.len() >= 1
        &&& self.indents[0] == 0
    }

    /// The next token and the state after it.
    pub open spec fn step(self) -> LexStep {
        lex_step(self.input, self.position, self.indents)
    }
}

impl Lexer {
    /// The character that the lexer holds as its look-ahead.
    pub closed spec fn look_ahead(&self) -> Option<char> {
        self.current_char
    }

    /// The state is well formed and the look-ahead is the character under
    /// the cursor.
    pub open spec fn wf(&self) -> bool {
        &&& self@.wf()
        &&& self.look_ahead() == self@.current()
    }

    /// A lexer at the start of `input`, with no indentation open.
    pub fn new(input: String) -> (r: Lexer)
        ensures
            r.wf(),
            r@ == (LexerView { input: input@, position: 0, indents: seq![0usize] }),
    {
        let chars = characters(input.as_str());
        let first_char = if chars.len() > 0 {
            Some(chars[0])
        } else {
            None
        };
        let mut indent_stack: Vec<usize> = Vec::new();
        indent_stack.push(0);
        Lexer { input: chars, position: 0, current_char: first_char, indent_stack }
    }

    /// Moves the cursor one character on, also at the end of the input and
    /// past it, where the look-ahead is none.
    pub fn advance(&mut self)
        requires
            old(self).wf(),
            old(self)@.position < usize::MAX,
        ensures
            final(self).wf(),
            final(self)@ == (LexerView { position: old(self)@.position + 1, ..old(self)@ }),
    {
        self.position += 1;
        if self.position >= self.input.len() {
            self.current_char = None;
        } else {
            self.current_char = Some(self.input[self.position]);
        }
    }

    /// The character after the one under the cursor.
    pub fn peek_char(&self) -> (r: Option<char>)
        requires
            self.wf(),
        ensures
            r == if self@.position + 1 < self@.input.len() {
                Some(self@.input[self@.position + 1])
            } else {
                None::<char>
            },
    {
        if self.position >= self.input.len() || self.position + 1 >= self.input.len() {
            None
        } else {
            Some(self.input[self.position + 1])
        }
    }

    /// Passes the characters of one class.
    fn pass(&mut self, class: CharClass)
        requires
            old(self).wf(),
        ensures
            final(self).wf(),
            final(self)@ == (LexerView {
                position: scan(old(self)@.input, old(self)@.position, class),
                ..old(self)@
            }),
    {
        let ghost start = self.position as int;
        loop
            invariant
                self.wf(),
                self@.input == old(self)@.input,
                self@.indents == old(self)@.indents,
                start == old(self)@.position,
                scan(self@.input, start, class) == scan(self@.input, self@.position, class),
            ensures
                self@.position == scan(self@.input, start, class),
            decreases self@.input.len() - self@.position,
        {
            match self.current_char {
                Some(c) => {
                    if in_class(&class, c) {
                        self.advance();
                    } else {
                        break ;
                    }
                },
                None => {
                    break ;
                },
            }
        }
    }

    /// Passes a carriage return, if one is under the cursor.
    fn pass_carriage_return(&mut self)
        requires
            old(self).wf(),
        ensures
            final(self).wf(),
            final(self)@ == (LexerView {
                position: if old(self)@.current() == Some('\r') {
                    old(self)@.position + 1
                } else {
                    old(self)@.position
                },
                ..old(self)@
            }),
    {
        match self.current_char {
            Some(c) => {
                if c == '\r' {
                    self.advance();
                }
            },
            None => {},
        }
    }

    /// Answers the line feed under the cursor by the margin of the next
    /// line that is not blank.
    fn line_break(&mut self) -> (r: Token)
        requires
            old(self).wf(),
            old(self)@.current() == Some('\n'),
        ensures
            final(self).wf(),
            final(self)@.input == old(self)@.input,
            ({
                let step = break_step(old(self)@.input, old(self)@.position, old(self)@.indents);
                &&& Ok::<TokenView, LexError>(r@) == step.token
                &&& final(self)@.position == step.position
                &&& final(self)@.indents == step.indents
            }),
    {
        let at = self.position;
        self.advance();
        self.pass_carriage_return();
        let ghost start = self.position as int;
        let mut num_spaces: usize = 0;
        loop
            invariant
                self.wf(),
                self@.input == old(self)@.input,
                self@.indents == old(self)@.indents,
                num_spaces <= self@.position,
                margin(self@.input, start, 0) == margin(
                    self@.input,
                    self@.position,
                    num_spaces as nat,
                ),
            ensures
                margin(self@.input, start, 0) == (Margin {
                    position: self@.position,
                    width: num_spaces as nat,
                }),
            decreases self@.input.len() - self@.position,
        {
            match self.current_char {
                Some(c) => {
                    if c == ' ' {
                        assert(self@.position < self.input.len());
                        num_spaces += 1;
                        self.advance();
                    } else if c == '\n' {
                        num_spaces = 0;
                        self.advance();
                        self.pass_carriage_return();
                    } else {
                        break ;
                    }
                },
                None => {
                    break ;
                },
            }
        }
        let current_indent = self.indent_stack[self.indent_stack.len() - 1];
        if num_spaces > current_indent {
            self.indent_stack.push(num_spaces);
            Token::Indent
        } else if num_spaces < current_indent {
            self.indent_stack.pop();
            if num_spaces < self.indent_stack[self.indent_stack.len() - 1] {
                self.position = at;
                self.current_char = Some('\n');
            }
            Token::Dedent
        } else {
            Token::Newline
        }
    }

    /// Lexes the word under the cursor.
    fn identifier(&mut self) -> (r: Token)
        requires
            old(self).wf(),
            old(self)@.position < old(self)@.input.len(),
        ensures
            final(self).wf(),
            final(self)@ == (LexerView {
                position: scan(old(self)@.input, old(self)@.position, CharClass::Word),
                ..old(self)@
            }),
            r@ == word_token(
                old(self)@.input.subrange(old(self)@.position, final(self)@.position),
            ),
    {
        let start = self.position;
        proof {
            lemma_scan_bounds(self@.input, self@.position, CharClass::Word);
        }
        self.pass(CharClass::Word);
        let result = text_of(&self.input, start, self.position);
        if is_word(result.as_str(), "if") {
            Token::If
        } else if is_word(result.as_str(), "else") {
            Token::Else
        } else if is_word(result.as_str(), "while") {
            Token::While
        } else if is_word(result.as_str(), "def") {
            Token::Def
        } else if is_word(result.as_str(), "return") {
            Token::Return
        } else if is_word(result.as_str(), "print") {
            Token::Print
        } else if is_word(result.as_str(), "true") {
            Token::True
        } else if is_word(result.as_str(), "false") {
            Token::False
        } else if is_word(result.as_str(), "and") {
            Token::And
        } else if is_word(result.as_str(), "or") {
            Token::Or
        } else if is_word(result.as_str(), "not") {
            Token::Not
        } else {
            Token::Identifier(result)
        }
    }

    /// Lexes the numeral under the cursor.
    fn number(&mut self) -> (r: Token)
        requires
            old(self).wf(),
            old(self)@.position < old(self)@.input.len(),
            is_digit_char(old(self)@.input[old(self)@.position]),
        ensures
            final(self).wf(),
            final(self)@ == (LexerView {
                position: numeral_end(old(self)@.input, old(self)@.position),
                ..old(self)@
            }),
            r@ == TokenView::Number(
                Number::of_numeral(
                    old(self)@.input.subrange(old(self)@.position, final(self)@.position),
                ),
            ),
    {
        let start = self.position;
        proof {
            lemma_scan_bounds(self@.input, self@.position, CharClass::Digit);
            lemma_numeral_form(self@.input, self@.position);
        }
        self.pass(CharClass::Digit);
        match self.current_char {
            Some(c) => {
                if c == '.' {
                    proof {
                        lemma_scan_bounds(self@.input, self@.position + 1, CharClass::Digit);
                    }
                    self.advance();
                    self.pass(CharClass::Digit);
                }
            },
            None => {},
        }
        let result = text_of(&self.input, start, self.position);
        Token::Number(Number::parse(result.as_str()).unwrap())
    }

    /// Lexes the string whose opening quote is under the cursor. A string
    /// that is not closed runs to the end of the input.
    fn string_literal(&mut self) -> (r: Token)
        requires
            old(self).wf(),
            old(self)@.position < old(self)@.input.len(),
        ensures
            final(self).wf(),
            final(self)@.input == old(self)@.input,
            final(self)@.indents == old(self)@.indents,
            ({
                let input = old(self)@.input;
                let close = scan(input, old(self)@.position + 1, CharClass::StringBody);
                &&& r@ == TokenView::StringLiteral(input.subrange(old(self)@.position + 1, close))
                &&& final(self)@.position == if close < input.len() {
                    close + 1
                } else {
                    close
                }
            }),
    {
        self.advance();
        let start = self.position;
        proof {
            lemma_scan_bounds(self@.input, self@.position, CharClass::StringBody);
        }
        self.pass(CharClass::StringBody);
        let result = text_of(&self.input, start, self.position);
        if self.current_char.is_some() {
            self.advance();
        }
        Token::StringLiteral(result)
    }

    /// Lexes the operator or punctuation mark under the cursor.
    fn symbol(&mut self, c: char) -> (r: Result<Token, LexError>)
        requires
            old(self).wf(),
            old(self)@.current() == Some(c),
        ensures
            final(self).wf(),
            final(self)@.input == old(self)@.input,
            ({
                let step = symbol_step(old(self)@.input, old(self)@.position, old(self)@.indents);
                &&& token_result_view(r) == step.token
                &&& final(self)@.position == step.position
                &&& final(self)@.indents == step.indents
            }),
    {
        if c == '=' || c == '!' || c == '<' || c == '>' {
            let paired = match self.peek_char() {
                Some(next) => next == '=',
                None => false,
            };
            if paired {
                let mut op = String::new();
                push_char(&mut op, c);
                push_char(&mut op, '=');
                assert(op@ =~= seq![c, '=']);
                self.advance();
                self.advance();
                Ok(Token::Operator(op))
            } else if c == '=' {
                self.advance();
                Ok(Token::Assign)
            } else if c == '!' {
                self.advance();
                Ok(Token::Not)
            } else {
                self.advance();
                Ok(Token::Operator(single(c)))
            }
        } else if c == '+' || c == '-' || c == '*' || c == '/' || c == '%' {
            self.advance();
            Ok(Token::Operator(single(c)))
        } else if c == '(' {
            self.advance();
            Ok(Token::LeftParen)
        } else if c == ')' {
            self.advance();
            Ok(Token::RightParen)
        } else if c == '[' {
            self.advance();
            Ok(Token::LeftBracket)
        } else if c == ']' {
            self.advance();
            Ok(Token::RightBracket)
        } else if c == ',' {
            self.advance();
            Ok(Token::Comma)
        } else if c == ':' {
            self.advance();
            Ok(Token::Colon)
        } else {
            Err(LexError::UnexpectedCharacter(c))
        }
    }

    /// The next token of the input; `EOF` once the input is used up and
    /// every indentation level closed.
    pub fn next_token(&mut self) -> (r: Result<Token, LexError>)
        requires
            old(self).wf(),
        ensures
            final(self).wf(),
            final(self)@.input == old(self)@.input,
            token_result_view(r) == old(self)@.step().token,
            final(self)@.position == old(self)@.step().position,
            final(self)@.indents == old(self)@.step().indents,
        decreases old(self)@.input.len() - old(self)@.position,
    {
        match self.current_char {
            Some(c) => {
                if c == '\n' {
                    return Ok(self.line_break());
                }
            },
            None => {},
        }
        proof {
            if self@.position <= self@.input.len() {
                lemma_scan_bounds(self@.input, self@.position, CharClass::Space);
            }
        }
        self.pass(CharClass::Space);
        match self.current_char {
            None => {
                if self.indent_stack.len() > 1 {
                    self.indent_stack.pop();
                    Ok(Token::Dedent)
                } else {
                    Ok(Token::EOF)
                }
            },
            Some(c) => {
                if c == '#' {
                    proof {
                        lemma_scan_bounds(self@.input, self@.position + 1, CharClass::CommentBody);
                    }
                    self.pass(CharClass::CommentBody);
                    self.next_token()
                } else if c == '\n' || c == '\r' {
                    self.advance();
                    Ok(Token::Newline)
                } else if c == '"' {
                    Ok(self.string_literal())
                } else if is_digit(c) {
                    Ok(self.number())
                } else if is_word_start_char(c) {
                    Ok(self.identifier())
                } else {
                    self.symbol(c)
                }
            },
        }
    }
}

/// The text that holds one character.
fn single(c: char) -> (r: String)
    ensures
        r@ == seq![c],
{
    let mut text = String::new();
    push_char(&mut text, c);
    text
}

/// Whether a character is white space within a line.
fn is_space(c: char) -> (r: bool)
    ensures
        r == is_space_char(c),
{
    c == '\t' || c == '\u{b}' || c == '\u{c}' || c == ' ' || c == '\u{85}' || c == '\u{a0}' || c
        == '\u{1680}' || ('\u{2000}' <= c && c <= '\u{200a}') || c == '\u{2028}' || c
        == '\u{2029}' || c == '\u{202f}' || c == '\u{205f}' || c == '\u{3000}'
}

/// Whether a character is a decimal digit.
fn is_digit(c: char) -> (r: bool)
    ensures
        r == is_digit_char(c),
{
    '0' <= c && c <= '9'
}

/// Whether a character starts a word.
fn is_word_start_char(c: char) -> (r: bool)
    ensures
        r == is_word_start(c),
{
    ('a' <= c && c <= 'z') || ('A' <= c && c <= 'Z') || c == '_'
}

/// Whether a character is of a class.
fn in_class(class: &CharClass, c: char) -> (r: bool)
    ensures
        r == class.holds(c),
{
    match class {
        CharClass::Space => is_space(c),
        CharClass::Digit => is_digit(c),
        CharClass::Word => is_word_start_char(c) || is_digit(c),
        CharClass::StringBody => c != '"',
        CharClass::CommentBody => c != '\n' && c != '\r',
    }
}

/// The view of a token or failure as the lexer hands it out.
pub open spec fn token_result_view(r: Result<Token, LexError>) -> Result<TokenView, LexError> {
    match r {
        Ok(token) => Ok(token@),
        Err(e) => Err(e),
    }
}

/// The digits of a part of the input are those of the input.
proof fn lemma_digits_of_part(input: Seq<char>, from: int, to: int, at: int)
    requires
        0 <= from <= from + at <= to <= input.len(),
        scan(input, from + at, CharClass::Digit) <= to,
    ensures
        digits_end(input.subrange(from, to), at) == scan(input, from + at, CharClass::Digit)
            - from,
    decreases to - from - at,
{
    let part = input.subrange(from, to);
    if from + at < to {
        assert(part[at] == input[from + at]);
        if is_digit_char(input[from + at]) {
            lemma_digits_of_part(input, from, to, at + 1);
        }
    } else {
        lemma_scan_bounds(input, to, CharClass::Digit);
    }
}

/// What the lexer takes for a numeral has the form of one: digits, and after
/// them at most one point with the digits that follow it.
pub proof fn lemma_numeral_form(input: Seq<char>, at: int)
    requires
        0 <= at < input.len(),
        is_digit_char(input[at]),
    ensures
        at < numeral_end(input, at) <= input.len(),
        is_numeral(input.subrange(at, numeral_end(input, at))),
{
    let whole = scan(input, at, CharClass::Digit);
    let end = numeral_end(input, at);
    lemma_scan_bounds(input, at + 1, CharClass::Digit);
    if whole < input.len() && input[whole] == '.' {
        lemma_scan_bounds(input, whole + 1, CharClass::Digit);
        lemma_digits_of_part(input, at, end, 0);
        lemma_digits_of_part(input, at, end, whole - at + 1);
    } else {
        lemma_digits_of_part(input, at, end, 0);
    }
}

/// What is left to lex: the characters after the cursor count double, the
/// open indentation levels once.
pub open spec fn lex_measure(input: Seq<char>, position: int, indents: Seq<usize>) -> int {
    2 * (input.len() - position) + indents.len()
}

/// A margin lies at or after the place it was sought from, within the
/// input.
pub proof fn lemma_margin_bounds(input: Seq<char>, from: int, width: nat)
    requires
        0 <= from <= input.len(),
    ensures
        from <= margin(input, from, width).position <= input.len(),
    decreases input.len() - from,
{
    if from < input.len() && input[from] == ' ' {
        lemma_margin_bounds(input, from + 1, width + 1);
    } else if from < input.len() && input[from] == '\n' {
        lemma_margin_bounds(input, after_break(input, from), 0);
    }
}

/// Every step keeps the state well formed and never moves back, and every
/// token but `EOF` uses up some of what is left to lex.
pub proof fn lemma_step_progress(input: Seq<char>, position: int, indents: Seq<usize>)
    requires
        0 <= position <= input.len(),
        indents.len() >= 1,
        indents[0] == 0,
    ensures
        ({
            let step = lex_step(input, position, indents);
            &&& position <= step.position <= input.len()
            &&& step.indents.len() >= 1
            &&& step.indents[0] == 0
            &&& step.token is Ok && step.token != Ok::<TokenView, LexError>(TokenView::EOF)
                ==> lex_measure(input, step.position, step.indents) < lex_measure(
                input,
                position,
                indents,
            )
        }),
    decreases input.len() - position,
{
    if position < input.len() && input[position] == '\n' {
        lemma_margin_bounds(input, after_break(input, position), 0);
    } else {
        lemma_scan_bounds(input, position, CharClass::Space);
        let at = scan(input, position, CharClass::Space);
        if at < input.len() {
            let c = input[at];
            if c == '#' {
                lemma_scan_bounds(input, at + 1, CharClass::CommentBody);
                lemma_step_progress(input, scan(input, at, CharClass::CommentBody), indents);
            } else if c == '"' {
                lemma_scan_bounds(input, at + 1, CharClass::StringBody);
            } else if is_digit_char(c) {
                lemma_scan_bounds(input, at + 1, CharClass::Digit);
                let whole = scan(input, at, CharClass::Digit);
                if whole < input.len() {
                    lemma_scan_bounds(input, whole + 1, CharClass::Digit);
                }
            } else if is_word_start(c) {
                lemma_scan_bounds(input, at + 1, CharClass::Word);
            }
        }
    }
}

/// The levels that a line leaves are closed before its first token: a step
/// from a line break either stays on the line break, and then it is a
/// `Dedent` that closes one level while the next is still deeper than the
/// margin of the line to come; or it moves to that line, and then no open
/// level is deeper than the line's margin.
pub proof fn law_line_break_drains(input: Seq<char>, position: int, indents: Seq<usize>)
    requires
        0 <= position < input.len(),
        input[position] == '\n',
        indents.len() >= 1,
        indents[0] == 0,
    ensures
        ({
            let step = lex_step(input, position, indents);
            let m = margin(input, after_break(input, position), 0);
            &&& position < m.position <= input.len()
            &&& step.position == position || step.position == m.position
            &&& step.position == position ==> {
                &&& step.token == Ok::<TokenView, LexError>(TokenView::Dedent)
                &&& step.indents == indents.drop_last()
                &&& step.indents.len() >= 1
                &&& m.width < step.indents.last()
            }
            &&& step.position == m.position ==> step.indents.len() >= 1 && step.indents.last()
                <= m.width
        }),
{
    lemma_margin_bounds(input, after_break(input, position), 0);
}

/// The tokens of `input` from `position` up to, and without, the first
/// `EOF`; or the first failure.
pub open spec fn lex_all(input: Seq<char>, position: int, indents: Seq<usize>) -> Result<
    Seq<TokenView>,
    LexError,
>
    decreases lex_measure(input, position, indents),
    when 0 <= position <= input.len() && indents.len() >= 1 && indents[0] == 0
{
    let step = lex_step(input, position, indents);
    match step.token {
        Err(e) => Err(e),
        Ok(TokenView::EOF) => Ok(Seq::empty()),
        Ok(token) => {
            proof {
                lemma_step_progress(input, position, indents);
            }
            match lex_all(input, step.position, step.indents) {
                Ok(rest) => Ok(seq![token] + rest),
                Err(e) => Err(e),
            }
        },
    }
}

/// The tokens of a source text, without the closing `EOF`.
pub open spec fn tokens_of(source: Seq<char>) -> Result<Seq<TokenView>, LexError> {
    lex_all(source, 0, seq![0usize])
}

/// `tokens` put before what is still to come.
pub open spec fn tokens_then(tokens: Seq<TokenView>, rest: Result<Seq<TokenView>, LexError>) -> Result<
    Seq<TokenView>,
    LexError,
> {
    match rest {
        Ok(more) => Ok(tokens + more),
        Err(e) => Err(e),
    }
}

/// The views of the tokens of a result.
pub open spec fn tokens_result_view(r: Result<Vec<Token>, LexError>) -> Result<
    Seq<TokenView>,
    LexError,
> {
    match r {
        Ok(tokens) => Ok(token_views(tokens@)),
        Err(e) => Err(e),
    }
}

/// Lexes a whole source text: every token up to the end of the input, the
/// closing `EOF` left out; or the first failure.
pub fn tokenize(source: &str) -> (r: Result<Vec<Token>, LexError>)
    ensures
        tokens_result_view(r) == tokens_of(source@),
{
    let mut lexer = Lexer::new(String::from_str(source));
    let mut tokens: Vec<Token> = Vec::new();
    assert(Seq::<TokenView>::empty() + lex_all(source@, 0, seq![0usize])->Ok_0 =~= lex_all(
        source@,
        0,
        seq![0usize],
    )->Ok_0);
    loop
        invariant
            lexer.wf(),
            lexer@.input == source@,
            lexer@.position <= lexer@.input.len(),
            tokens_of(source@) == tokens_then(
                token_views(tokens@),
                lex_all(lexer@.input, lexer@.position, lexer@.indents),
            ),
        decreases lex_measure(lexer@.input, lexer@.position, lexer@.indents),
    {
        proof {
            lemma_step_progress(lexer@.input, lexer@.position, lexer@.indents);
        }
        let ghost before = token_views(tokens@);
        match lexer.next_token() {
            Err(e) => {
                return Err(e);
            },
            Ok(token) => {
                if let Token::EOF = token {
                    return Ok(tokens);
                }
                tokens.push(token);
                proof {
                    let after = lex_all(lexer@.input, lexer@.position, lexer@.indents);
                    assert(token_views(tokens@) =~= before.push(token@));
                    if after is Ok {
                        assert(before.push(token@) + after->Ok_0 =~= before + (seq![token@]
                            + after->Ok_0));
                    }
                }
            },
        }
    }
}

} // verus!
