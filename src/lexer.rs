//! Splits source text into tokens.
use vstd::prelude::*;
use vstd::string::*;

use crate::common::decimal_string;

verus! {

#[derive(Debug, PartialEq, Clone)]
pub enum TokenType {
    OpenParen,
    CloseParen,
    OpenBrace,
    CloseBrace,
    Semicolon,
    Minus,
    Tilde,
    Decrement,
    Plus,
    Asterisk,
    Slash,
    Percent,
    QuestionMark,
    Colon,
    Not,
    And,
    Or,
    Equal,
    NotEqual,
    Less,
    LessEqual,
    Greater,
    GreaterEqual,
    Assign,
    Comma,
    KeywordInt,
    KeywordVoid,
    KeywordReturn,
    KeywordIf,
    KeywordElse,
    KeywordDo,
    KeywordWhile,
    KeywordFor,
    KeywordBreak,
    KeywordContinue,
    Identifier(String),
    IntegerConstant(i32),
}

#[derive(Debug, PartialEq, Clone)]
pub struct Token {
    pub token_type: TokenType,
    /// The line of the source the token ends on, counting from 1.
    pub line: usize,
}

/// A cursor over source text that produces one token at a time.
pub struct Lexer {
    source: String,
    chars: Vec<char>,
    position: usize,
    line: usize,
}

impl Lexer {
    pub closed spec fn wf(&self) -> bool {
        &&& self.chars@ == self.source@
        &&& self.position <= self.chars@.len()
    }

    /// The source text.
    pub closed spec fn text(&self) -> Seq<char> {
        self.chars@
    }

    /// The position of the next character to read.
    pub closed spec fn pos(&self) -> int {
        self.position as int
    }

    /// The characters not read yet.
    pub closed spec fn remaining(&self) -> nat {
        (self.chars@.len() - self.position) as nat
    }

    fn peek(&self) -> (r: Option<char>)
        requires
            self.wf(),
        ensures
            r is None <==> self.position == self.chars@.len(),
            r matches Some(c) ==> c == self.chars@[self.position as int],
    {
        if self.position < self.chars.len() {
            Some(self.chars[self.position])
        } else {
            None
        }
    }

    fn advance(&mut self)
        requires
            old(self).wf(),
            old(self).position < old(self).chars@.len(),
        ensures
            final(self).wf(),
            final(self).position == old(self).position + 1,
            final(self).chars == old(self).chars,
            final(self).source == old(self).source,
    {
        let len = self.chars.len();
        if self.chars[self.position] == '\n' {
            if self.line < usize::MAX {
                self.line = self.line + 1;
            }
        }
        self.position = self.position + 1;
    }

    /// The source text from `from` up to the current position.
    fn text_from(&self, from: usize) -> (r: String)
        requires
            self.wf(),
            from <= self.position,
        ensures
            r@ == self.chars@.subrange(from as int, self.position as int),
    {
        String::from_str(self.source.as_str().substring_char(from, self.position))
    }

    /// `message '<text>' on line N`.
    fn error_at(&self, message: &str, text: &String) -> (r: String) {
        let mut s = String::from_str(message);
        s.append(" '");
        s.append(text.as_str());
        s.append("' on line ");
        let n = decimal_string(self.line);
        s.append(n.as_str());
        s
    }

    /// Reads letters, digits and underscores; the word is a keyword or an identifier.
    fn lex_identifier_or_keyword(&mut self) -> (r: TokenType)
        requires
            old(self).wf(),
            old(self).position < old(self).chars@.len(),
            ascii_letter(old(self).chars@[old(self).position as int])
                || old(self).chars@[old(self).position as int] == '_',
        ensures
            final(self).wf(),
            final(self).position > old(self).position,
            final(self).chars == old(self).chars,
            r is Identifier ==> keyword(r->Identifier_0@) is None,
            spells(r, final(self).chars@.subrange(old(self).position as int, final(self).position as int)),
    {
        let start = self.position;
        self.advance();
        while self.position < self.chars.len()
            invariant
                self.wf(),
                self.position > start,
                start == old(self).position,
                self.chars == old(self).chars,
                self.source == old(self).source,
                identifier_word(self.chars@.subrange(start as int, self.position as int)),
            decreases self.chars@.len() - self.position,
        {
            let c = self.chars[self.position];
            if is_alphanumeric(c) || c == '_' {
                let ghost before = self.chars@.subrange(start as int, self.position as int);
                self.advance();
                proof {
                    assert(self.chars@.subrange(start as int, self.position as int) =~= before.push(c));
                }
            } else {
                break;
            }
        }
        let word = self.text_from(start);
        proof {
            reveal_strlit("int");
            reveal_strlit("void");
            reveal_strlit("return");
            reveal_strlit("if");
            reveal_strlit("else");
            reveal_strlit("continue");
            reveal_strlit("do");
            reveal_strlit("while");
            reveal_strlit("for");
            reveal_strlit("break");
        }
        if is_word(&word, "int") {
            TokenType::KeywordInt
        } else if is_word(&word, "void") {
            TokenType::KeywordVoid
        } else if is_word(&word, "return") {
            TokenType::KeywordReturn
        } else if is_word(&word, "if") {
            TokenType::KeywordIf
        } else if is_word(&word, "else") {
            TokenType::KeywordElse
        } else if is_word(&word, "continue") {
            TokenType::KeywordContinue
        } else if is_word(&word, "do") {
            TokenType::KeywordDo
        } else if is_word(&word, "while") {
            TokenType::KeywordWhile
        } else if is_word(&word, "for") {
            TokenType::KeywordFor
        } else if is_word(&word, "break") {
            TokenType::KeywordBreak
        } else {
            TokenType::Identifier(word)
        }
    }

    /// Reads a decimal constant. A constant directly followed by a letter is
    /// an invalid token; one that does not fit an `i32` is an error too.
    fn lex_integer_constant(&mut self) -> (r: Result<TokenType, String>)
        requires
            old(self).wf(),
            old(self).position < old(self).chars@.len(),
            ascii_digit(old(self).chars@[old(self).position as int]),
        ensures
            final(self).wf(),
            final(self).position > old(self).position,
            final(self).chars == old(self).chars,
            r is Ok <==> !lex_error_at(old(self).chars@, old(self).position as int),
            r matches Ok(tt) ==> tt is IntegerConstant && spells(
                tt,
                final(self).chars@.subrange(old(self).position as int, final(self).position as int),
            ),
            r matches Ok(TokenType::IntegerConstant(v)) ==> v as int == digits_value(
                final(self).chars@.subrange(old(self).position as int, final(self).position as int),
            ),
    {
        let start = self.position;
        let mut digits: Vec<char> = Vec::new();
        digits.push(self.chars[start]);
        self.advance();
        proof {
            assert(digit_end(self.chars@, start as int) == digit_end(self.chars@, start + 1));
        }
        proof {
            assert(digits@ =~= self.chars@.subrange(start as int, self.position as int));
        }
        while self.position < self.chars.len()
            invariant
                self.wf(),
                start < self.position,
                self.chars == old(self).chars,
                self.source == old(self).source,
                start == old(self).position,
                ascii_digit(self.chars@[start as int]),
                digits@ == self.chars@.subrange(start as int, self.position as int),
                forall|i: int| 0 <= i < digits@.len() ==> ascii_digit(#[trigger] digits@[i]),
                digit_end(self.chars@, self.position as int) == digit_end(self.chars@, start as int),
            ensures
                self.wf(),
                start < self.position,
                self.chars == old(self).chars,
                self.source == old(self).source,
                start == old(self).position,
                digits@ == self.chars@.subrange(start as int, self.position as int),
                forall|i: int| 0 <= i < digits@.len() ==> ascii_digit(#[trigger] digits@[i]),
                digit_end(self.chars@, self.position as int) == digit_end(self.chars@, start as int),
                self.position == self.chars@.len() || !ascii_digit(self.chars@[self.position as int]),
            decreases self.chars@.len() - self.position,
        {
            let c = self.chars[self.position];
            if '0' <= c && c <= '9' {
                digits.push(c);
                self.advance();
                proof {
                    assert(digits@ =~= self.chars@.subrange(start as int, self.position as int));
                }
            } else {
                break;
            }
        }
        proof {
            assert(digit_end(self.chars@, self.position as int) == self.position);
        }
        if self.position < self.chars.len() && is_alphabetic(self.chars[self.position]) {
            while self.position < self.chars.len()
                invariant
                    self.wf(),
                    start < self.position,
                    self.chars == old(self).chars,
                    self.source == old(self).source,
                decreases self.chars@.len() - self.position,
            {
                let c = self.chars[self.position];
                if is_alphanumeric(c) || c == '_' {
                    self.advance();
                } else {
                    break;
                }
            }
            let text = self.text_from(start);
            return Err(self.error_at("Invalid token", &text));
        }
        match parse_decimal(&digits) {
            Some(num) => Ok(TokenType::IntegerConstant(num)),
            None => {
                let text = self.text_from(start);
                let mut m = String::from_str("Failed to parse number: ");
                m.append(text.as_str());
                Err(m)
            },
        }
    }

    /// Skips blanks, newlines and preprocessor lines, then reads one token.
    /// `None` means the input is used up; every other result consumes input.
    pub fn next_token(&mut self) -> (r: Option<Result<Token, String>>)
        requires
            old(self).wf(),
        ensures
            final(self).wf(),
            final(self).text() == old(self).text(),
            r is None <==> skip_blank(old(self).text(), old(self).pos()) == old(self).text().len(),
            r is None ==> final(self).remaining() == 0,
            r is Some ==> final(self).remaining() < old(self).remaining(),
            r matches Some(Ok(t)) ==> (t.token_type is Identifier ==> keyword(
                t.token_type->Identifier_0@,
            ) is None),
            r matches Some(Err(_)) ==> lex_error_at(old(self).text(), skip_blank(old(self).text(), old(self).pos())),
            r matches Some(Ok(_)) ==> !lex_error_at(old(self).text(), skip_blank(old(self).text(), old(self).pos())),
            r matches Some(Ok(t)) ==> spells(
                t.token_type,
                old(self).text().subrange(
                    skip_blank(old(self).text(), old(self).pos()),
                    final(self).pos(),
                ),
            ),
    {
        loop
            invariant
                self.wf(),
                self.chars == old(self).chars,
                self.source == old(self).source,
                self.position >= old(self).position,
                skip_blank(self.chars@, self.position as int) == skip_blank(
                    old(self).chars@,
                    old(self).position as int,
                ),
            ensures
                self.wf(),
                self.chars == old(self).chars,
                self.source == old(self).source,
                self.position >= old(self).position,
                skip_blank(self.chars@, self.position as int) == self.position,
                skip_blank(self.chars@, self.position as int) == skip_blank(
                    old(self).chars@,
                    old(self).position as int,
                ),
            decreases self.chars@.len() - self.position,
        {
            match self.peek() {
                Some(c) => {
                    if c == '\n' || c == ' ' || c == '\t' || c == '\r' {
                        self.advance();
                    } else if c == '#' {
                        // a preprocessor line: skip to its end
                        let ghost hash_at = self.position as int;
                        self.advance();
                        proof {
                            lemma_end_of_line_after(self.chars@, self.position as int);
                        }
                        while self.position < self.chars.len() && self.chars[self.position] != '\n'
                            invariant
                                self.wf(),
                                self.position > hash_at,
                                0 <= hash_at < self.chars@.len(),
                                self.chars@[hash_at] == '#',
                                end_of_line(self.chars@, self.position as int) == end_of_line(
                                    self.chars@,
                                    hash_at + 1,
                                ),
                                skip_blank(self.chars@, hash_at) == skip_blank(
                                    old(self).chars@,
                                    old(self).position as int,
                                ),
                                self.chars == old(self).chars,
                                self.source == old(self).source,
                                self.position >= old(self).position,
                            decreases self.chars@.len() - self.position,
                        {
                            self.advance();
                        }
                    } else {
                        break;
                    }
                },
                None => break,
            }
        }
        let c = match self.peek() {
            Some(c) => c,
            None => {
                return None;
            },
        };
        let start = self.position;
        let result: Result<TokenType, String> = if c == '(' || c == ')' || c == '{' || c == '}'
            || c == ';' || c == '~' || c == '+' || c == '*' || c == '/' || c == '%' || c == '?'
            || c == ':' || c == ',' {
            self.advance();
            proof {
                assert(self.chars@.subrange(start as int, self.position as int) =~= seq![c]);
            }
            Ok(
                if c == '(' {
                    TokenType::OpenParen
                } else if c == ')' {
                    TokenType::CloseParen
                } else if c == '{' {
                    TokenType::OpenBrace
                } else if c == '}' {
                    TokenType::CloseBrace
                } else if c == ';' {
                    TokenType::Semicolon
                } else if c == '~' {
                    TokenType::Tilde
                } else if c == '+' {
                    TokenType::Plus
                } else if c == '*' {
                    TokenType::Asterisk
                } else if c == '/' {
                    TokenType::Slash
                } else if c == '%' {
                    TokenType::Percent
                } else if c == '?' {
                    TokenType::QuestionMark
                } else if c == ':' {
                    TokenType::Colon
                } else {
                    TokenType::Comma
                },
            )
        } else if c == '-' || c == '!' || c == '<' || c == '>' || c == '=' {
            // one of these, possibly followed by a second character
            self.advance();
            proof {
                assert(self.chars@.subrange(start as int, self.position as int) =~= seq![c]);
            }
            let next = self.peek();
            if c == '-' && next == Some('-') {
                self.advance();
                proof {
                    assert(self.chars@.subrange(start as int, self.position as int) =~= seq![c, '-']);
                }
                Ok(TokenType::Decrement)
            } else if c == '-' {
                Ok(TokenType::Minus)
            } else if next == Some('=') {
                self.advance();
                proof {
                    assert(self.chars@.subrange(start as int, self.position as int) =~= seq![c, '=']);
                }
                Ok(
                    if c == '!' {
                        TokenType::NotEqual
                    } else if c == '<' {
                        TokenType::LessEqual
                    } else if c == '>' {
                        TokenType::GreaterEqual
                    } else {
                        TokenType::Equal
                    },
                )
            } else {
                Ok(
                    if c == '!' {
                        TokenType::Not
                    } else if c == '<' {
                        TokenType::Less
                    } else if c == '>' {
                        TokenType::Greater
                    } else {
                        TokenType::Assign
                    },
                )
            }
        } else if c == '&' || c == '|' {
            self.advance();
            if self.peek() == Some(c) {
                self.advance();
                proof {
                    assert(self.chars@.subrange(start as int, self.position as int) =~= seq![c, c]);
                }
                Ok(if c == '&' { TokenType::And } else { TokenType::Or })
            } else {
                let text = self.text_from(start);
                Err(self.error_at("Unrecognized character", &text))
            }
        } else if ('a' <= c && c <= 'z') || ('A' <= c && c <= 'Z') || c == '_' {
            let tt = self.lex_identifier_or_keyword();
            Ok(tt)
        } else if '0' <= c && c <= '9' {
            self.lex_integer_constant()
        } else {
            self.advance();
            let text = self.text_from(start);
            Err(self.error_at("Unrecognized character", &text))
        };
        match result {
            Ok(token_type) => {
                let t = Token { token_type, line: self.line };
                Some(Ok(t))
            },
            Err(e) => Some(Err(e)),
        }
    }

    /// Reads every token of the input, stopping at the first error. No
    /// identifier token spells a keyword.
    pub fn tokenize(&mut self) -> (r: Result<Vec<Token>, String>)
        requires
            old(self).wf(),
        ensures
            final(self).wf(),
            r is Ok ==> final(self).remaining() == 0,
            r matches Ok(tokens) ==> forall|i: int|
                0 <= i < tokens@.len() && (#[trigger] tokens@[i]).token_type is Identifier
                    ==> keyword(tokens@[i].token_type->Identifier_0@) is None,
    {
        let mut tokens: Vec<Token> = Vec::new();
        loop
            invariant
                self.wf(),
                forall|i: int|
                    0 <= i < tokens@.len() && (#[trigger] tokens@[i]).token_type is Identifier
                        ==> keyword(tokens@[i].token_type->Identifier_0@) is None,
            decreases self.remaining(),
        {
            match self.next_token() {
                None => {
                    return Ok(tokens);
                },
                Some(Ok(t)) => tokens.push(t),
                Some(Err(e)) => {
                    return Err(e);
                },
            }
        }
    }

    pub fn new(source: &str) -> (r: Self)
        ensures
            r.wf(),
            r.remaining() == source@.len(),
    {
        let mut chars: Vec<char> = Vec::new();
        for c in it: source.chars()
            invariant
                chars@ == it.seq().take(it.index() as int),
        {
            chars.push(c);
        }
        proof {
            assert(chars@ =~= source@);
        }
        Lexer { source: String::from_str(source), chars, position: 0, line: 1 }
    }
}

fn is_word(word: &String, kw: &str) -> (r: bool)
    ensures
        r == (word@ == kw@),
{
    *word == String::from_str(kw)
}

/// The result of `char::is_alphanumeric`: Unicode's alphabetic or numeric class.
pub uninterp spec fn unicode_alphanumeric(c: char) -> bool;

/// The result of `char::is_alphabetic`: Unicode's alphabetic class.
pub uninterp spec fn unicode_alphabetic(c: char) -> bool;

pub open spec fn ascii_letter(c: char) -> bool {
    ('a' <= c && c <= 'z') || ('A' <= c && c <= 'Z')
}

pub open spec fn ascii_digit(c: char) -> bool {
    '0' <= c && c <= '9'
}

/// Relies on `char::is_alphanumeric`, which is true of ASCII letters and digits.
#[verifier::external_body]
fn is_alphanumeric(c: char) -> (r: bool)
    ensures
        r == unicode_alphanumeric(c),
        ascii_letter(c) || ascii_digit(c) ==> r,
{
    c.is_alphanumeric()
}

/// Relies on `char::is_alphabetic`, which is true of ASCII letters and false
/// of ASCII digits.
#[verifier::external_body]
fn is_alphabetic(c: char) -> (r: bool)
    ensures
        r == unicode_alphabetic(c),
        ascii_letter(c) ==> r,
        ascii_digit(c) ==> !r,
{
    c.is_alphabetic()
}

pub open spec fn blank(c: char) -> bool {
    c == '\n' || c == ' ' || c == '\t' || c == '\r'
}

/// The first position at or after `p` that is a newline or the end.
pub open spec fn end_of_line(chars: Seq<char>, p: int) -> int
    decreases chars.len() - p,
{
    if p >= chars.len() || chars[p] == '\n' {
        p
    } else {
        end_of_line(chars, p + 1)
    }
}

/// Where the next token starts: blanks and preprocessor lines (`#` to the end
/// of its line) from `p` on are skipped.
pub open spec fn skip_blank(chars: Seq<char>, p: int) -> int
    decreases chars.len() - p,
{
    if p < 0 || p >= chars.len() {
        p
    } else if blank(chars[p]) {
        skip_blank(chars, p + 1)
    } else if chars[p] == '#' {
        if p < end_of_line(chars, p + 1) <= chars.len() {
            skip_blank(chars, end_of_line(chars, p + 1))
        } else {
            p
        }
    } else {
        p
    }
}

proof fn lemma_end_of_line_after(chars: Seq<char>, p: int)
    requires
        0 <= p,
    ensures
        p <= end_of_line(chars, p),
        end_of_line(chars, p) <= chars.len() || end_of_line(chars, p) == p,
    decreases chars.len() - p,
{
    if !(p >= chars.len() || chars[p] == '\n') {
        lemma_end_of_line_after(chars, p + 1);
    }
}

/// A word of identifier characters starting with a letter or `_`.
pub open spec fn identifier_word(w: Seq<char>) -> bool {
    &&& w.len() > 0
    &&& (ascii_letter(w[0]) || w[0] == '_')
    &&& forall|i: int| 1 <= i < w.len() ==> unicode_alphanumeric(#[trigger] w[i]) || w[i] == '_'
}

/// `w` is the spelling of a token of type `tt`.
pub open spec fn spells(tt: TokenType, w: Seq<char>) -> bool {
    match tt {
        TokenType::OpenParen => w == seq!['('],
        TokenType::CloseParen => w == seq![')'],
        TokenType::OpenBrace => w == seq!['{'],
        TokenType::CloseBrace => w == seq!['}'],
        TokenType::Semicolon => w == seq![';'],
        TokenType::Minus => w == seq!['-'],
        TokenType::Tilde => w == seq!['~'],
        TokenType::Decrement => w == seq!['-', '-'],
        TokenType::Plus => w == seq!['+'],
        TokenType::Asterisk => w == seq!['*'],
        TokenType::Slash => w == seq!['/'],
        TokenType::Percent => w == seq!['%'],
        TokenType::QuestionMark => w == seq!['?'],
        TokenType::Colon => w == seq![':'],
        TokenType::Not => w == seq!['!'],
        TokenType::And => w == seq!['&', '&'],
        TokenType::Or => w == seq!['|', '|'],
        TokenType::Equal => w == seq!['=', '='],
        TokenType::NotEqual => w == seq!['!', '='],
        TokenType::Less => w == seq!['<'],
        TokenType::LessEqual => w == seq!['<', '='],
        TokenType::Greater => w == seq!['>'],
        TokenType::GreaterEqual => w == seq!['>', '='],
        TokenType::Assign => w == seq!['='],
        TokenType::Comma => w == seq![','],
        TokenType::Identifier(s) => s@ == w && identifier_word(w) && keyword(w) is None,
        TokenType::IntegerConstant(v) => {
            &&& w.len() > 0
            &&& forall|i: int| 0 <= i < w.len() ==> ascii_digit(#[trigger] w[i])
            &&& v as int == digits_value(w)
        },
        _ => identifier_word(w) && keyword(w) == Some(tt),
    }
}

/// The end of the run of decimal digits that starts at `p`.
pub open spec fn digit_end(chars: Seq<char>, p: int) -> int
    decreases chars.len() - p,
{
    if 0 <= p < chars.len() && ascii_digit(chars[p]) {
        digit_end(chars, p + 1)
    } else {
        p
    }
}

/// The token starting at `p` is malformed: a single `&` or `|`, a character
/// that starts no token, or a constant followed by a letter or too large for `i32`.
pub open spec fn lex_error_at(chars: Seq<char>, p: int) -> bool {
    let c = chars[p];
    if c == '(' || c == ')' || c == '{' || c == '}' || c == ';' || c == '~' || c == '+' || c == '*'
        || c == '/' || c == '%' || c == '?' || c == ':' || c == ',' || c == '-' || c == '!' || c == '<'
        || c == '>' || c == '=' || ascii_letter(c) || c == '_' {
        false
    } else if c == '&' || c == '|' {
        !(p + 1 < chars.len() && chars[p + 1] == c)
    } else if ascii_digit(c) {
        let e = digit_end(chars, p);
        (e < chars.len() && unicode_alphabetic(chars[e])) || digits_value(chars.subrange(p, e))
            > i32::MAX
    } else {
        true
    }
}

/// The keyword a word spells, if any.
pub open spec fn keyword(w: Seq<char>) -> Option<TokenType> {
    if w == "int"@ {
        Some(TokenType::KeywordInt)
    } else if w == "void"@ {
        Some(TokenType::KeywordVoid)
    } else if w == "return"@ {
        Some(TokenType::KeywordReturn)
    } else if w == "if"@ {
        Some(TokenType::KeywordIf)
    } else if w == "else"@ {
        Some(TokenType::KeywordElse)
    } else if w == "continue"@ {
        Some(TokenType::KeywordContinue)
    } else if w == "do"@ {
        Some(TokenType::KeywordDo)
    } else if w == "while"@ {
        Some(TokenType::KeywordWhile)
    } else if w == "for"@ {
        Some(TokenType::KeywordFor)
    } else if w == "break"@ {
        Some(TokenType::KeywordBreak)
    } else {
        None
    }
}

/// The value of a string of decimal digits.
pub open spec fn digits_value(s: Seq<char>) -> int
    decreases s.len(),
{
    if s.len() == 0 {
        0
    } else {
        10 * digits_value(s.drop_last()) + (s.last() as int - '0' as int)
    }
}

/// Reads a non-empty string of decimal digits as an `i32`; fails exactly when
/// the value does not fit.
pub fn parse_decimal(s: &Vec<char>) -> (r: Option<i32>)
    requires
        s@.len() > 0,
        forall|i: int| 0 <= i < s@.len() ==> ascii_digit(#[trigger] s@[i]),
    ensures
        r is Some <==> digits_value(s@) <= i32::MAX,
        r matches Some(v) ==> v as int == digits_value(s@),
{
    let mut value: i32 = 0;
    let mut i: usize = 0;
    while i < s.len()
        invariant
            i <= s.len(),
            forall|k: int| 0 <= k < s@.len() ==> ascii_digit(#[trigger] s@[k]),
            value as int == digits_value(s@.take(i as int)),
            0 <= value,
        decreases s.len() - i,
    {
        proof {
            assert(s@.take(i + 1).drop_last() =~= s@.take(i as int));
            assert(s@.take(i + 1).last() == s@[i as int]);
        }
        let d = (s[i] as u32 - '0' as u32) as i32;
        if value > (i32::MAX - d) / 10 {
            proof {
                lemma_digits_grow(s@, i as int + 1);
            }
            return None;
        }
        value = value * 10 + d;
        i = i + 1;
    }
    proof {
        assert(s@.take(s@.len() as int) =~= s@);
    }
    Some(value)
}

proof fn lemma_digits_grow(s: Seq<char>, n: int)
    requires
        0 < n <= s.len(),
        forall|i: int| 0 <= i < s.len() ==> ascii_digit(#[trigger] s[i]),
        digits_value(s.take(n)) > i32::MAX,
    ensures
        digits_value(s) > i32::MAX,
    decreases s.len(),
{
    if n < s.len() {
        assert(s.drop_last().take(n) =~= s.take(n));
        lemma_digits_grow(s.drop_last(), n);
        lemma_digits_nonneg(s.drop_last());
    } else {
        assert(s.take(n) =~= s);
    }
}

proof fn lemma_digits_nonneg(s: Seq<char>)
    requires
        forall|i: int| 0 <= i < s.len() ==> ascii_digit(#[trigger] s[i]),
    ensures
        digits_value(s) >= 0,
    decreases s.len(),
{
    if s.len() > 0 {
        lemma_digits_nonneg(s.drop_last());
    }
}

} // verus!
