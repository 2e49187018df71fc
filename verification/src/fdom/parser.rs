//! Parser of the overlay markup language: builds a document tree from the
//! token stream. A document is an optional page block of attributes
//! followed by elements; an element is a tag, attributes and children.

use crate::fdom::lexer::Token;
use vstd::prelude::*;
use vstd::string::StringExecFns;

verus! {

/// An attribute value.
#[derive(Debug, PartialEq)]
pub enum Value {
    String(String),
    Number(String),
    Boolean(bool),
    Array(Vec<Value>),
    Object(Vec<Attribute>),
}

impl Value {
    /// The string inside, if this is a string value.
    pub fn as_string(&self) -> (r: Option<&str>)
        ensures
            (self is String) <==> (r is Some),
            match *self {
                Value::String(ref s) => r matches Some(v) && v@ == s@,
                _ => r is None,
            },
    {
        match self {
            Value::String(s) => Some(s.as_str()),
            _ => None,
        }
    }

    /// The numeric lexeme inside, if this is a number value.
    pub fn as_number(&self) -> (r: Option<&str>)
        ensures
            (self is Number) <==> (r is Some),
            match *self {
                Value::Number(ref s) => r matches Some(v) && v@ == s@,
                _ => r is None,
            },
    {
        match self {
            Value::Number(s) => Some(s.as_str()),
            _ => None,
        }
    }

    /// The boolean inside, if this is a boolean value.
    pub fn as_bool(&self) -> (r: Option<bool>)
        ensures
            (self is Boolean) <==> (r is Some),
            match *self {
                Value::Boolean(b) => r == Some(b),
                _ => r is None,
            },
    {
        match self {
            Value::Boolean(b) => Some(*b),
            _ => None,
        }
    }
}

/// A named attribute.
#[derive(Debug, PartialEq)]
pub struct Attribute {
    pub key: String,
    pub value: Value,
}

/// A node of the document tree.
#[derive(Debug)]
pub enum AstNode {
    Document { metadata: Vec<Attribute>, children: Vec<AstNode> },
    Element { tag: String, attributes: Vec<Attribute>, children: Vec<AstNode> },
    Text(String),
}

/// A discriminating number per token variant, for kind comparison.
pub open spec fn spec_token_kind(t: Token) -> int {
    match t {
        Token::At => 0,
        Token::OpenBrace => 1,
        Token::CloseBrace => 2,
        Token::Equals => 3,
        Token::Comma => 4,
        Token::Identifier(_) => 5,
        Token::String(_) => 6,
        Token::Number(_) => 7,
        Token::Boolean(_) => 8,
        Token::Page => 9,
        Token::Header => 10,
        Token::Section => 11,
        Token::Footer => 12,
        Token::Aside => 13,
        Token::Heading => 14,
        Token::Paragraph => 15,
        Token::Text => 16,
        Token::Link => 17,
        Token::Image => 18,
        Token::Code => 19,
        Token::Pre => 20,
        Token::List => 21,
        Token::Ordered => 22,
        Token::Table => 23,
        Token::Form => 24,
        Token::Video => 25,
        Token::Audio => 26,
        Token::Eof => 27,
    }
}

/// The kind of a token, for comparisons that ignore payloads.
fn token_kind(t: &Token) -> (r: u32)
    ensures
        r == spec_token_kind(*t),
{
    match t {
        Token::At => 0,
        Token::OpenBrace => 1,
        Token::CloseBrace => 2,
        Token::Equals => 3,
        Token::Comma => 4,
        Token::Identifier(_) => 5,
        Token::String(_) => 6,
        Token::Number(_) => 7,
        Token::Boolean(_) => 8,
        Token::Page => 9,
        Token::Header => 10,
        Token::Section => 11,
        Token::Footer => 12,
        Token::Aside => 13,
        Token::Heading => 14,
        Token::Paragraph => 15,
        Token::Text => 16,
        Token::Link => 17,
        Token::Image => 18,
        Token::Code => 19,
        Token::Pre => 20,
        Token::List => 21,
        Token::Ordered => 22,
        Token::Table => 23,
        Token::Form => 24,
        Token::Video => 25,
        Token::Audio => 26,
        Token::Eof => 27,
    }
}

/// The display name of a token's kind, for error messages.
fn token_name(t: &Token) -> (r: &'static str) {
    match t {
        Token::At => "At",
        Token::OpenBrace => "OpenBrace",
        Token::CloseBrace => "CloseBrace",
        Token::Equals => "Equals",
        Token::Comma => "Comma",
        Token::Identifier(_) => "Identifier",
        Token::String(_) => "String",
        Token::Number(_) => "Number",
        Token::Boolean(_) => "Boolean",
        Token::Page => "Page",
        Token::Header => "Header",
        Token::Section => "Section",
        Token::Footer => "Footer",
        Token::Aside => "Aside",
        Token::Heading => "Heading",
        Token::Paragraph => "Paragraph",
        Token::Text => "Text",
        Token::Link => "Link",
        Token::Image => "Image",
        Token::Code => "Code",
        Token::Pre => "Pre",
        Token::List => "List",
        Token::Ordered => "Ordered",
        Token::Table => "Table",
        Token::Form => "Form",
        Token::Video => "Video",
        Token::Audio => "Audio",
        Token::Eof => "Eof",
    }
}

/// Walks the token stream and builds the tree.
pub struct Parser {
    tokens: Vec<Token>,
    position: usize,
}

impl Parser {
    /// The token stream.
    pub closed spec fn tokens_model(&self) -> Seq<Token> {
        self.tokens@
    }

    /// The cursor position.
    pub closed spec fn pos(&self) -> int {
        self.position as int
    }

    /// Well-formedness: the cursor stays inside (or just past) the stream.
    pub open spec fn wf(&self) -> bool {
        self.pos() <= self.tokens_model().len()
    }

    /// The token under the cursor, end-of-input past the end.
    pub open spec fn spec_current(&self) -> Token {
        if self.pos() < self.tokens_model().len() {
            self.tokens_model()[self.pos()]
        } else {
            Token::Eof
        }
    }

    /// A parser at the start of a token stream.
    pub fn new(tokens: Vec<Token>) -> (r: Parser)
        ensures
            r.wf(),
            r.tokens_model() == tokens@,
            r.pos() == 0,
    {
        Parser { tokens, position: 0 }
    }

    /// The token under the cursor.
    fn current_token(&self) -> (r: Token)
        requires
            self.wf(),
        ensures
            r == self.spec_current(),
    {
        if self.position < self.tokens.len() {
            self.tokens[self.position].clone()
        } else {
            Token::Eof
        }
    }

    /// The token after the cursor.
    fn peek_token(&self) -> (r: Token)
        requires
            self.wf(),
        ensures
            r == (if self.pos() + 1 < self.tokens_model().len() {
                self.tokens_model()[self.pos() + 1]
            } else {
                Token::Eof
            }),
    {
        if self.position < self.tokens.len() && self.tokens.len() - self.position > 1 {
            self.tokens[self.position + 1].clone()
        } else {
            Token::Eof
        }
    }

    /// Step the cursor one token forward (stopping past the end).
    fn advance(&mut self)
        requires
            old(self).wf(),
        ensures
            final(self).wf(),
            final(self).tokens_model() == old(self).tokens_model(),
            final(self).pos() == if old(self).pos() < old(self).tokens_model().len() {
                old(self).pos() + 1
            } else {
                old(self).pos()
            },
    {
        if self.position < self.tokens.len() {
            self.position = self.position + 1;
        }
    }

    /// Consume the current token when it has the expected kind; error
    /// without moving otherwise.
    fn expect(&mut self, expected: Token) -> (r: Result<(), String>)
        requires
            old(self).wf(),
        ensures
            final(self).wf(),
            final(self).tokens_model() == old(self).tokens_model(),
            r is Ok <==> spec_token_kind(old(self).spec_current()) == spec_token_kind(expected),
            r is Ok ==> final(self).pos() == (if old(self).pos() < old(
                self,
            ).tokens_model().len() {
                old(self).pos() + 1
            } else {
                old(self).pos()
            }),
            r is Err ==> final(self).pos() == old(self).pos(),
    {
        let cur = self.current_token();
        if token_kind(&cur) == token_kind(&expected) {
            self.advance();
            Ok(())
        } else {
            let mut msg = String::from_str("Expected ");
            msg.append(token_name(&expected));
            msg.append(", got ");
            msg.append(token_name(&cur));
            Err(msg)
        }
    }

    /// Parse the whole stream as a document; on success the whole stream
    /// was consumed.
    pub fn parse(&mut self) -> (r: Result<AstNode, String>)
        requires
            old(self).wf(),
        ensures
            final(self).wf(),
            r matches Ok(node) ==> node is Document,
            r is Ok ==> final(self).spec_current() is Eof,
    {
        self.parse_document()
    }

    /// Parse a document: an optional page block of attributes, then
    /// elements until the end of input, which success reaches.
    fn parse_document(&mut self) -> (r: Result<AstNode, String>)
        requires
            old(self).wf(),
        ensures
            final(self).wf(),
            final(self).tokens_model() == old(self).tokens_model(),
            r matches Ok(node) ==> node is Document,
            r is Ok ==> final(self).spec_current() is Eof,
    {
        let mut metadata: Vec<Attribute> = Vec::new();
        let mut children: Vec<AstNode> = Vec::new();
        if matches!(self.current_token(), Token::Page) {
            self.advance();
            match self.expect(Token::OpenBrace) {
                Ok(_) => {},
                Err(e) => {
                    return Err(e);
                },
            }
            loop
                invariant
                    self.wf(),
                    self.tokens_model() == old(self).tokens_model(),
                decreases self.tokens_model().len() - self.pos(),
            {
                let cur = self.current_token();
                if matches!(cur, Token::CloseBrace) || matches!(cur, Token::Eof) {
                    break;
                }
                let (key, value) = match self.parse_attribute() {
                    Ok(kv) => kv,
                    Err(e) => {
                        return Err(e);
                    },
                };
                metadata.push(Attribute { key, value });
                if matches!(self.current_token(), Token::Comma) {
                    self.advance();
                }
            }
            match self.expect(Token::CloseBrace) {
                Ok(_) => {},
                Err(e) => {
                    return Err(e);
                },
            }
        }
        loop
            invariant
                self.wf(),
                self.tokens_model() == old(self).tokens_model(),
            ensures
                self.wf(),
                self.tokens_model() == old(self).tokens_model(),
                self.spec_current() is Eof,
            decreases self.tokens_model().len() - self.pos(),
        {
            if matches!(self.current_token(), Token::Eof) {
                break;
            }
            let child = match self.parse_element() {
                Ok(c) => c,
                Err(e) => {
                    return Err(e);
                },
            };
            children.push(child);
        }
        Ok(AstNode::Document { metadata, children })
    }

    /// Parse one element: a tag, an open brace, attributes and children,
    /// and a close brace. Consumes at least one token on success.
    fn parse_element(&mut self) -> (r: Result<AstNode, String>)
        requires
            old(self).wf(),
        ensures
            final(self).wf(),
            final(self).tokens_model() == old(self).tokens_model(),
            final(self).pos() >= old(self).pos(),
            r is Ok ==> final(self).pos() > old(self).pos(),
        decreases old(self).tokens_model().len() - old(self).pos(),
    {
        let cur = self.current_token();
        let tag: String = match cur {
            Token::Identifier(name) => name,
            Token::Header => String::from_str("header"),
            Token::Section => String::from_str("section"),
            Token::Footer => String::from_str("footer"),
            Token::Aside => String::from_str("aside"),
            Token::Paragraph => String::from_str("paragraph"),
            Token::Heading => String::from_str("heading"),
            Token::Text => String::from_str("text"),
            Token::Link => String::from_str("link"),
            Token::Image => String::from_str("image"),
            Token::Code => String::from_str("code"),
            Token::List => String::from_str("list"),
            Token::Page => String::from_str("page"),
            other => {
                let mut msg = String::from_str("Unexpected token: ");
                msg.append(token_name(&other));
                return Err(msg);
            },
        };
        self.advance();
        match self.expect(Token::OpenBrace) {
            Ok(_) => {},
            Err(e) => {
                return Err(e);
            },
        }
        let mut attributes: Vec<Attribute> = Vec::new();
        let mut children: Vec<AstNode> = Vec::new();
        loop
            invariant
                self.wf(),
                self.tokens_model() == old(self).tokens_model(),
                self.pos() > old(self).pos(),
            decreases self.tokens_model().len() - self.pos(),
        {
            let cur = self.current_token();
            if matches!(cur, Token::CloseBrace) || matches!(cur, Token::Eof) {
                break;
            }
            let is_attr = matches!(cur, Token::Identifier(_)) && matches!(
                self.peek_token(),
                Token::Equals,
            );
            if is_attr {
                let key: String = match self.current_token() {
                    Token::Identifier(k) => k,
                    _ => {
                        return vstd::pervasive::unreached();
                    },
                };
                self.advance();
                self.advance();
                let value = match self.parse_value() {
                    Ok(v) => v,
                    Err(e) => {
                        return Err(e);
                    },
                };
                attributes.push(Attribute { key, value });
            } else if let Token::String(text) = self.current_token() {
                // a bare string literal is a text child
                children.push(AstNode::Text(text));
                self.advance();
            } else {
                let child = match self.parse_element() {
                    Ok(c) => c,
                    Err(e) => {
                        return Err(e);
                    },
                };
                children.push(child);
            }
            if matches!(self.current_token(), Token::Comma) {
                self.advance();
            }
        }
        match self.expect(Token::CloseBrace) {
            Ok(_) => {},
            Err(e) => {
                return Err(e);
            },
        }
        Ok(AstNode::Element { tag, attributes, children })
    }

    /// Parse one "key = value" attribute.
    fn parse_attribute(&mut self) -> (r: Result<(String, Value), String>)
        requires
            old(self).wf(),
        ensures
            final(self).wf(),
            final(self).tokens_model() == old(self).tokens_model(),
            final(self).pos() >= old(self).pos(),
            r is Ok ==> final(self).pos() > old(self).pos(),
    {
        let key: String = match self.current_token() {
            Token::Identifier(k) => k,
            _ => {
                return Err(String::from_str("Expected identifier for attribute"));
            },
        };
        self.advance();
        match self.expect(Token::Equals) {
            Ok(_) => {},
            Err(e) => {
                return Err(e);
            },
        }
        let value = match self.parse_value() {
            Ok(v) => v,
            Err(e) => {
                return Err(e);
            },
        };
        Ok((key, value))
    }

    /// Parse one literal value: a string, number or boolean, consumed
    /// exactly when one is under the cursor.
    fn parse_value(&mut self) -> (r: Result<Value, String>)
        requires
            old(self).wf(),
        ensures
            final(self).wf(),
            final(self).tokens_model() == old(self).tokens_model(),
            final(self).pos() >= old(self).pos(),
            r is Ok ==> final(self).pos() > old(self).pos(),
            match old(self).spec_current() {
                Token::String(s) => r matches Ok(v) && v == Value::String(s),
                Token::Number(n) => r matches Ok(v) && v == Value::Number(n),
                Token::Boolean(b) => r matches Ok(v) && v == Value::Boolean(b),
                _ => r is Err,
            },
            r is Ok ==> final(self).pos() == old(self).pos() + 1,
    {
        let cur = self.current_token();
        match cur {
            Token::String(s) => {
                self.advance();
                Ok(Value::String(s))
            },
            Token::Number(n) => {
                self.advance();
                Ok(Value::Number(n))
            },
            Token::Boolean(b) => {
                self.advance();
                Ok(Value::Boolean(b))
            },
            other => {
                let mut msg = String::from_str("Expected value, got ");
                msg.append(token_name(&other));
                Err(msg)
            },
        }
    }
}

} // verus!
