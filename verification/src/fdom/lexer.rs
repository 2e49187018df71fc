//! Lexer of the overlay markup language: turns source text into a stream
//! of tokens. Keywords are matched case-insensitively; strings support
//! single, double and triple quoting with escapes; numbers keep their
//! lexeme, a decimal with at most one point.

use crate::textutil::{chars_to_string, lowercase, str_eq, string_to_chars};
use vstd::prelude::*;
use vstd::string::StringExecFns;

verus! {

/// One token of the markup language.
#[derive(Debug)]
pub enum Token {
    At,
    OpenBrace,
    CloseBrace,
    Equals,
    Comma,
    Identifier(String),
    String(String),
    Number(String),
    Boolean(bool),
    Page,
    Header,
    Section,
    Footer,
    Aside,
    Heading,
    Paragraph,
    Text,
    Link,
    Image,
    Code,
    Pre,
    List,
    Ordered,
    Table,
    Form,
    Video,
    Audio,
    Eof,
}

impl Clone for Token {
    fn clone(&self) -> (r: Self)
        ensures
            r == *self,
    {
        match self {
            Token::At => Token::At,
            Token::OpenBrace => Token::OpenBrace,
            Token::CloseBrace => Token::CloseBrace,
            Token::Equals => Token::Equals,
            Token::Comma => Token::Comma,
            Token::Identifier(s) => Token::Identifier(s.clone()),
            Token::String(s) => Token::String(s.clone()),
            Token::Number(s) => Token::Number(s.clone()),
            Token::Boolean(b) => Token::Boolean(*b),
            Token::Page => Token::Page,
            Token::Header => Token::Header,
            Token::Section => Token::Section,
            Token::Footer => Token::Footer,
            Token::Aside => Token::Aside,
            Token::Heading => Token::Heading,
            Token::Paragraph => Token::Paragraph,
            Token::Text => Token::Text,
            Token::Link => Token::Link,
            Token::Image => Token::Image,
            Token::Code => Token::Code,
            Token::Pre => Token::Pre,
            Token::List => Token::List,
            Token::Ordered => Token::Ordered,
            Token::Table => Token::Table,
            Token::Form => Token::Form,
            Token::Video => Token::Video,
            Token::Audio => Token::Audio,
            Token::Eof => Token::Eof,
        }
    }
}

/// Why lexing failed.
#[derive(Debug)]
pub enum LexError {
    /// A character no token can start with, and its position.
    UnexpectedChar(char, usize),
    /// A string literal with no closing quote, and where it started.
    UnterminatedString(usize),
    /// A numeric lexeme with more than one decimal point.
    InvalidNumber(String),
}

/// Whether a character is Unicode whitespace, as `char::is_whitespace`
/// decides it: a function of the character alone.
pub uninterp spec fn is_unicode_ws(c: char) -> bool;

/// Relies on char::is_whitespace.
#[verifier::external_body]
fn is_whitespace_char(c: char) -> (r: bool)
    ensures
        r == is_unicode_ws(c),
{
    c.is_whitespace()
}

/// Whether a character is Unicode alphanumeric, as `char::is_alphanumeric`
/// decides it.
pub uninterp spec fn is_unicode_alnum(c: char) -> bool;

/// Relies on char::is_alphanumeric.
#[verifier::external_body]
fn is_alphanumeric_char(c: char) -> (r: bool)
    ensures
        r == is_unicode_alnum(c),
{
    c.is_alphanumeric()
}

/// Whether a character is Unicode alphabetic, as `char::is_alphabetic`
/// decides it; every alphabetic character is alphanumeric, which
/// `char::is_alphanumeric` documents.
pub uninterp spec fn is_unicode_alpha(c: char) -> bool;

/// Relies on char::is_alphabetic (and on is_alphanumeric being the union
/// of alphabetic and numeric).
#[verifier::external_body]
fn is_alphabetic_char(c: char) -> (r: bool)
    ensures
        r == is_unicode_alpha(c),
        r ==> is_unicode_alnum(c),
{
    c.is_alphabetic()
}

/// A character an identifier may hold.
pub open spec fn is_ident_char(c: char) -> bool {
    is_unicode_alnum(c) || c == '_' || c == '-'
}

/// An ASCII decimal digit.
pub open spec fn is_ascii_digit(c: char) -> bool {
    48 <= c as u32 <= 57
}

fn is_ascii_digit_char(c: char) -> (r: bool)
    ensures
        r == is_ascii_digit(c),
{
    let u = c as u32;
    48 <= u && u <= 57
}

/// How many of a character a string holds.
pub open spec fn count_char(s: Seq<char>, c: char) -> int
    decreases s.len(),
{
    if s.len() == 0 {
        0
    } else {
        (if s.first() == c {
            1int
        } else {
            0int
        }) + count_char(s.drop_first(), c)
    }
}

/// The lexer's cursor over the source characters.
pub struct Lexer {
    input: Vec<char>,
    position: usize,
    current_char: Option<char>,
}

impl Lexer {
    /// The source characters.
    pub closed spec fn input_model(&self) -> Seq<char> {
        self.input@
    }

    /// The cursor position.
    pub closed spec fn pos(&self) -> int {
        self.position as int
    }

    /// Well-formedness: the cursor stays inside the source and the cached
    /// character mirrors it.
    pub open spec fn wf(&self) -> bool {
        &&& self.pos() <= self.input_model().len()
        &&& self.current_char() == (if self.pos() < self.input_model().len() {
            Some(self.input_model()[self.pos()])
        } else {
            None::<char>
        })
    }

    /// The cached character under the cursor.
    pub closed spec fn current_char(&self) -> Option<char> {
        self.current_char
    }

    /// A lexer at the start of the source.
    pub fn new(input: &str) -> (r: Lexer)
        ensures
            r.wf(),
            r.input_model() == input@,
            r.pos() == 0,
    {
        let chars = string_to_chars(input);
        let current_char = if chars.len() == 0 {
            None
        } else {
            Some(chars[0])
        };
        Lexer { input: chars, position: 0, current_char }
    }

    /// Step the cursor one character forward (stopping at the end).
    fn advance(&mut self)
        requires
            old(self).wf(),
        ensures
            final(self).wf(),
            final(self).input_model() == old(self).input_model(),
            final(self).pos() == if old(self).pos() < old(self).input_model().len() {
                old(self).pos() + 1
            } else {
                old(self).pos()
            },
    {
        if self.position < self.input.len() {
            self.position = self.position + 1;
        }
        if self.position >= self.input.len() {
            self.current_char = None;
        } else {
            self.current_char = Some(self.input[self.position]);
        }
    }

    /// The character after the cursor, if any.
    fn peek(&self) -> (r: Option<char>)
        requires
            self.wf(),
        ensures
            r == (if self.pos() + 1 < self.input_model().len() {
                Some(self.input_model()[self.pos() + 1])
            } else {
                None::<char>
            }),
    {
        if self.position < self.input.len() && self.input.len() - self.position > 1 {
            Some(self.input[self.position + 1])
        } else {
            None
        }
    }

    /// Skip past whitespace; afterwards the cursor sits on the first
    /// non-whitespace character, or at the end.
    fn skip_whitespace(&mut self)
        requires
            old(self).wf(),
        ensures
            final(self).wf(),
            final(self).input_model() == old(self).input_model(),
            final(self).pos() >= old(self).pos(),
            final(self).pos() < final(self).input_model().len() ==> !is_unicode_ws(
                final(self).input_model()[final(self).pos()],
            ),
    {
        loop
            invariant
                self.wf(),
                self.input_model() == old(self).input_model(),
                self.pos() >= old(self).pos(),
            ensures
                self.wf(),
                self.input_model() == old(self).input_model(),
                self.pos() >= old(self).pos(),
                self.pos() < self.input_model().len() ==> !is_unicode_ws(
                    self.input_model()[self.pos()],
                ),
            decreases self.input_model().len() - self.pos(),
        {
            match self.current_char {
                Some(ch) => {
                    if is_whitespace_char(ch) {
                        self.advance();
                    } else {
                        break;
                    }
                },
                None => {
                    break;
                },
            }
        }
    }

    /// Skip a line comment ("//" up to, not including, the line feed).
    fn skip_comment(&mut self)
        requires
            old(self).wf(),
        ensures
            final(self).wf(),
            final(self).input_model() == old(self).input_model(),
            final(self).pos() >= old(self).pos(),
            ({
                let p = old(self).pos();
                let src = old(self).input_model();
                (p + 1 < src.len() && src[p] == '/' && src[p + 1] == '/') ==> final(self).pos() >= p
                    + 2
            }),
    {
        let slash_now = match self.current_char {
            Some(c) => c == '/',
            None => false,
        };
        let slash_next = match self.peek() {
            Some(c) => c == '/',
            None => false,
        };
        if slash_now && slash_next {
            self.advance();
            self.advance();
            loop
                invariant
                    self.wf(),
                    self.input_model() == old(self).input_model(),
                    self.pos() >= old(self).pos() + 2,
                ensures
                    self.wf(),
                    self.input_model() == old(self).input_model(),
                    self.pos() >= old(self).pos() + 2,
                decreases self.input_model().len() - self.pos(),
            {
                match self.current_char {
                    Some(ch) => {
                        if ch == '\n' {
                            break;
                        }
                        self.advance();
                    },
                    None => {
                        break;
                    },
                }
            }
        }
    }

    /// Read the identifier under the cursor: the maximal run of
    /// alphanumeric characters, underscores and hyphens.
    fn read_identifier(&mut self) -> (r: String)
        requires
            old(self).wf(),
        ensures
            final(self).wf(),
            final(self).input_model() == old(self).input_model(),
            final(self).pos() >= old(self).pos(),
            r@ == final(self).input_model().subrange(old(self).pos(), final(self).pos()),
            forall|j: int|
                old(self).pos() <= j < final(self).pos() ==> is_ident_char(
                    #[trigger] final(self).input_model()[j],
                ),
            final(self).pos() < final(self).input_model().len() ==> !is_ident_char(
                final(self).input_model()[final(self).pos()],
            ),
            final(self).pos() == old(self).pos() ==> (final(self).pos()
                >= final(self).input_model().len() || !is_ident_char(
                final(self).input_model()[final(self).pos()],
            )),
    {
        let mut ident: Vec<char> = Vec::new();
        loop
            invariant
                self.wf(),
                self.input_model() == old(self).input_model(),
                self.pos() >= old(self).pos(),
                ident@ == self.input_model().subrange(old(self).pos(), self.pos()),
                forall|j: int|
                    old(self).pos() <= j < self.pos() ==> is_ident_char(
                        #[trigger] self.input_model()[j],
                    ),
            ensures
                self.wf(),
                self.input_model() == old(self).input_model(),
                self.pos() >= old(self).pos(),
                ident@ == self.input_model().subrange(old(self).pos(), self.pos()),
                forall|j: int|
                    old(self).pos() <= j < self.pos() ==> is_ident_char(
                        #[trigger] self.input_model()[j],
                    ),
                self.pos() < self.input_model().len() ==> !is_ident_char(
                    self.input_model()[self.pos()],
                ),
            decreases self.input_model().len() - self.pos(),
        {
            match self.current_char {
                Some(ch) => {
                    let ok = is_alphanumeric_char(ch) || ch == '_' || ch == '-';
                    if ok {
                        ident.push(ch);
                        self.advance();
                        proof {
                            assert(ident@ =~= self.input_model().subrange(
                                old(self).pos(),
                                self.pos(),
                            ));
                        }
                    } else {
                        break;
                    }
                },
                None => {
                    break;
                },
            }
        }
        chars_to_string(&ident)
    }

    /// Read a quoted string starting at the cursor (which sits on the
    /// opening quote): single or triple quoting, with backslash escapes.
    fn read_string(&mut self, quote: char) -> (r: Result<String, LexError>)
        requires
            old(self).wf(),
            old(self).pos() < old(self).input_model().len(),
        ensures
            final(self).wf(),
            final(self).input_model() == old(self).input_model(),
            final(self).pos() > old(self).pos(),
    {
        let start_pos = self.position;
        self.advance();
        let mut out: Vec<char> = Vec::new();
        let mut is_triple = false;
        let cur_is_quote = match self.current_char {
            Some(c) => c == quote,
            None => false,
        };
        let next_is_quote = match self.peek() {
            Some(c) => c == quote,
            None => false,
        };
        if cur_is_quote && next_is_quote {
            is_triple = true;
            self.advance();
            self.advance();
        }
        loop
            invariant
                self.wf(),
                self.input_model() == old(self).input_model(),
                self.pos() > old(self).pos(),
            ensures
                self.wf(),
                self.input_model() == old(self).input_model(),
                self.pos() > old(self).pos(),
            decreases self.input_model().len() - self.pos(),
        {
            match self.current_char {
                None => {
                    return Err(LexError::UnterminatedString(start_pos));
                },
                Some(ch) => {
                    if ch == quote {
                        if is_triple {
                            let peek1 = match self.peek() {
                                Some(c) => c == quote,
                                None => false,
                            };
                            if peek1 {
                                self.advance();
                                let peek2 = match self.peek() {
                                    Some(c) => c == quote,
                                    None => false,
                                };
                                if peek2 {
                                    self.advance();
                                    self.advance();
                                    break;
                                } else {
                                    out.push(quote);
                                    out.push(quote);
                                }
                            } else {
                                // a lone quote inside a triple-quoted
                                // string is kept, and the cursor moves on
                                out.push(quote);
                                self.advance();
                            }
                        } else {
                            self.advance();
                            break;
                        }
                    } else if ch == '\\' {
                        self.advance();
                        match self.current_char {
                            Some(e) => {
                                if e == 'n' {
                                    out.push('\n');
                                } else if e == 't' {
                                    out.push('\t');
                                } else if e == 'r' {
                                    out.push('\r');
                                } else if e == '\\' {
                                    out.push('\\');
                                } else if e == '"' {
                                    out.push('"');
                                } else if e == '\'' {
                                    out.push('\'');
                                } else {
                                    out.push(ch);
                                }
                            },
                            None => {
                                out.push(ch);
                            },
                        }
                        self.advance();
                    } else {
                        out.push(ch);
                        self.advance();
                    }
                },
            }
        }
        Ok(chars_to_string(&out))
    }

    /// Read the numeric lexeme under the cursor: digits, points, and a
    /// leading minus; more than one point is an error.
    fn read_number(&mut self) -> (r: Result<String, LexError>)
        requires
            old(self).wf(),
        ensures
            final(self).wf(),
            final(self).input_model() == old(self).input_model(),
            final(self).pos() >= old(self).pos(),
            match r {
                Ok(s) => s@ == final(self).input_model().subrange(
                    old(self).pos(),
                    final(self).pos(),
                ) && count_char(s@, '.') <= 1,
                Err(_) => true,
            },
            (old(self).pos() < old(self).input_model().len() && (is_ascii_digit(
                old(self).input_model()[old(self).pos()],
            ) || old(self).input_model()[old(self).pos()] == '-')) ==> final(self).pos() > old(
                self,
            ).pos(),
    {
        let mut num: Vec<char> = Vec::new();
        loop
            invariant
                self.wf(),
                self.input_model() == old(self).input_model(),
                self.pos() >= old(self).pos(),
                num@ == self.input_model().subrange(old(self).pos(), self.pos()),
            ensures
                self.wf(),
                self.input_model() == old(self).input_model(),
                self.pos() >= old(self).pos(),
                num@ == self.input_model().subrange(old(self).pos(), self.pos()),
                self.pos() == old(self).pos() ==> (self.pos() >= self.input_model().len() || !(
                is_ascii_digit(self.input_model()[self.pos()]) || self.input_model()[self.pos()]
                    == '.' || self.input_model()[self.pos()] == '-')),
            decreases self.input_model().len() - self.pos(),
        {
            match self.current_char {
                Some(ch) => {
                    let ok = is_ascii_digit_char(ch) || ch == '.' || (ch == '-' && num.len() == 0);
                    if ok {
                        num.push(ch);
                        self.advance();
                        proof {
                            assert(num@ =~= self.input_model().subrange(
                                old(self).pos(),
                                self.pos(),
                            ));
                        }
                    } else {
                        break;
                    }
                },
                None => {
                    break;
                },
            }
        }
        let mut dots: usize = 0;
        let mut i: usize = 0;
        while i < num.len()
            invariant
                i <= num@.len(),
                dots <= i,
                dots == count_char(num@.take(i as int), '.'),
            decreases num@.len() - i,
        {
            proof {
                lemma_count_char_push(num@.take(i as int), num@[i as int], '.');
                assert(num@.take(i + 1) =~= num@.take(i as int).push(num@[i as int]));
            }
            if num[i] == '.' {
                dots = dots + 1;
            }
            i = i + 1;
        }
        proof {
            assert(num@.take(num@.len() as int) =~= num@);
        }
        if dots > 1 {
            Err(LexError::InvalidNumber(chars_to_string(&num)))
        } else {
            Ok(chars_to_string(&num))
        }
    }

    /// The next token of the source. A token other than end-of-input
    /// always consumes at least one character.
    pub fn next_token(&mut self) -> (r: Result<Token, LexError>)
        requires
            old(self).wf(),
        ensures
            final(self).wf(),
            final(self).input_model() == old(self).input_model(),
            final(self).pos() >= old(self).pos(),
            (r matches Ok(t) && !(t is Eof)) ==> final(self).pos() > old(self).pos(),
            (r matches Ok(t) && t is Eof) ==> final(self).pos() == final(self).input_model().len(),
    {
        loop
            invariant
                self.wf(),
                self.input_model() == old(self).input_model(),
                self.pos() >= old(self).pos(),
            decreases self.input_model().len() - self.pos(),
        {
            self.skip_whitespace();
            match self.current_char {
                None => {
                    return Ok(Token::Eof);
                },
                Some(ch) => {
                    if ch == '@' {
                        self.advance();
                        let ident = self.read_identifier();
                        let low = lowercase(ident.as_str());
                        let token = if str_eq(low.as_str(), "page") {
                            Token::Page
                        } else if str_eq(low.as_str(), "header") {
                            Token::Header
                        } else if str_eq(low.as_str(), "section") {
                            Token::Section
                        } else if str_eq(low.as_str(), "footer") {
                            Token::Footer
                        } else if str_eq(low.as_str(), "aside") {
                            Token::Aside
                        } else if str_eq(low.as_str(), "heading") || str_eq(low.as_str(), "h1")
                            || str_eq(low.as_str(), "h2") || str_eq(low.as_str(), "h3") || str_eq(
                            low.as_str(),
                            "h4",
                        ) || str_eq(low.as_str(), "h5") || str_eq(low.as_str(), "h6") {
                            Token::Heading
                        } else if str_eq(low.as_str(), "paragraph") {
                            Token::Paragraph
                        } else if str_eq(low.as_str(), "text") {
                            Token::Text
                        } else if str_eq(low.as_str(), "link") {
                            Token::Link
                        } else if str_eq(low.as_str(), "image") {
                            Token::Image
                        } else if str_eq(low.as_str(), "code") {
                            Token::Code
                        } else if str_eq(low.as_str(), "pre") {
                            Token::Pre
                        } else if str_eq(low.as_str(), "list") {
                            Token::List
                        } else if str_eq(low.as_str(), "ordered") {
                            Token::Ordered
                        } else if str_eq(low.as_str(), "table") {
                            Token::Table
                        } else if str_eq(low.as_str(), "form") {
                            Token::Form
                        } else if str_eq(low.as_str(), "video") {
                            Token::Video
                        } else if str_eq(low.as_str(), "audio") {
                            Token::Audio
                        } else {
                            let mut name = String::from_str("@");
                            name.append(ident.as_str());
                            Token::Identifier(name)
                        };
                        return Ok(token);
                    } else if ch == '{' {
                        self.advance();
                        return Ok(Token::OpenBrace);
                    } else if ch == '}' {
                        self.advance();
                        return Ok(Token::CloseBrace);
                    } else if ch == '=' {
                        self.advance();
                        return Ok(Token::Equals);
                    } else if ch == ',' {
                        self.advance();
                        return Ok(Token::Comma);
                    } else if ch == '"' {
                        let s = match self.read_string('"') {
                            Ok(s) => s,
                            Err(e) => {
                                return Err(e);
                            },
                        };
                        return Ok(Token::String(s));
                    } else if ch == '\'' {
                        let s = match self.read_string('\'') {
                            Ok(s) => s,
                            Err(e) => {
                                return Err(e);
                            },
                        };
                        return Ok(Token::String(s));
                    } else {
                        let next_slash = match self.peek() {
                            Some(c) => c == '/',
                            None => false,
                        };
                        if ch == '/' && next_slash {
                            self.skip_comment();
                            continue ;
                        }
                        let next_digit = match self.peek() {
                            Some(c) => is_ascii_digit_char(c),
                            None => false,
                        };
                        if is_ascii_digit_char(ch) || (ch == '-' && next_digit) {
                            let n = match self.read_number() {
                                Ok(n) => n,
                                Err(e) => {
                                    return Err(e);
                                },
                            };
                            proof {
                                assert(self.pos() > old(self).pos());
                            }
                            return Ok(Token::Number(n));
                        }
                        if is_alphabetic_char(ch) || ch == '_' {
                            let ident = self.read_identifier();
                            let low = lowercase(ident.as_str());
                            let token = if str_eq(low.as_str(), "true") {
                                Token::Boolean(true)
                            } else if str_eq(low.as_str(), "false") {
                                Token::Boolean(false)
                            } else {
                                Token::Identifier(ident)
                            };
                            return Ok(token);
                        }
                        return Err(LexError::UnexpectedChar(ch, self.position));
                    }
                },
            }
        }
    }

    /// Tokenize the whole source: every token in order, ending with the
    /// end-of-input token, which appears nowhere else.
    pub fn tokenize(&mut self) -> (r: Result<Vec<Token>, LexError>)
        requires
            old(self).wf(),
        ensures
            final(self).wf(),
            match r {
                Ok(ts) => ts@.len() > 0 && ts@.last() is Eof && (forall|i: int|
                    0 <= i < ts@.len() - 1 ==> !(#[trigger] ts@[i] is Eof)),
                Err(_) => true,
            },
    {
        let mut tokens: Vec<Token> = Vec::new();
        loop
            invariant
                self.wf(),
                self.input_model() == old(self).input_model(),
                forall|i: int| 0 <= i < tokens@.len() ==> !(#[trigger] tokens@[i] is Eof),
            decreases self.input_model().len() - self.pos() + 1,
        {
            let token = match self.next_token() {
                Ok(t) => t,
                Err(e) => {
                    return Err(e);
                },
            };
            let is_eof = matches!(token, Token::Eof);
            tokens.push(token);
            if is_eof {
                return Ok(tokens);
            }
        }
    }
}

proof fn lemma_count_char_push(s: Seq<char>, x: char, c: char)
    ensures
        count_char(s.push(x), c) == count_char(s, c) + (if x == c {
            1int
        } else {
            0int
        }),
    decreases s.len(),
{
    if s.len() == 0 {
        assert(s.push(x).drop_first() =~= Seq::<char>::empty());
        assert(s.push(x).first() == x);
        assert(count_char(Seq::<char>::empty(), c) == 0);
        assert(count_char(s, c) == 0);
    } else {
        lemma_count_char_push(s.drop_first(), x, c);
        assert(s.push(x).drop_first() =~= s.drop_first().push(x));
        assert(s.push(x).first() == s.first());
        assert(count_char(s.push(x), c) == (if s.first() == c {
            1int
        } else {
            0int
        }) + count_char(s.drop_first().push(x), c));
        assert(count_char(s, c) == (if s.first() == c {
            1int
        } else {
            0int
        }) + count_char(s.drop_first(), c));
    }
}

} // verus!
