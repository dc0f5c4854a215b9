//! Recursive-descent parsing of MessageFormat 2 tokens into a message tree.
use vstd::prelude::*;

use crate::i18n_error::I18nError;
use crate::mf2_ast::{
    Annotation, ComplexBody, ComplexMessage, Declaration, Expression, FunctionOption,
    InputDeclaration, LocalDeclaration, Matcher, Message, Operand, OptionValue, Pattern,
    PatternPart, Variant, VariantKey,
};
use crate::mf2_lexer::{SpannedToken, Token};
use crate::text::owned;

verus! {

/// Kinds of token, as `tag_of` numbers them.
const DOT_INPUT: u8 = 0;
const DOT_LOCAL: u8 = 1;
const DOT_MATCH: u8 = 2;
const VARIABLE: u8 = 3;
const FUNCTION: u8 = 4;
const NAME: u8 = 5;
const NUMBER: u8 = 6;
const QUOTED: u8 = 7;
const TEXT: u8 = 8;
const OPEN_BRACE: u8 = 9;
const CLOSE_BRACE: u8 = 10;
const OPEN_QUOTED: u8 = 11;
const CLOSE_QUOTED: u8 = 12;
const EQUALS: u8 = 13;
const STAR: u8 = 14;
const NEWLINE: u8 = 15;

/// Which kind of token `t` is.
pub open spec fn tag_of(t: Token) -> u8 {
    match t {
        Token::DotInput => 0,
        Token::DotLocal => 1,
        Token::DotMatch => 2,
        Token::Variable(_) => 3,
        Token::Function(_) => 4,
        Token::Name(_) => 5,
        Token::Number(_) => 6,
        Token::QuotedLiteral(_) => 7,
        Token::Text(_) => 8,
        Token::OpenBrace => 9,
        Token::CloseBrace => 10,
        Token::DoubleOpenBrace => 11,
        Token::DoubleCloseBrace => 12,
        Token::Equals => 13,
        Token::Star => 14,
        Token::Newline => 15,
    }
}

fn tag(t: &Token) -> (r: u8)
    ensures
        r == tag_of(*t),
{
    match t {
        Token::DotInput => 0,
        Token::DotLocal => 1,
        Token::DotMatch => 2,
        Token::Variable(_) => 3,
        Token::Function(_) => 4,
        Token::Name(_) => 5,
        Token::Number(_) => 6,
        Token::QuotedLiteral(_) => 7,
        Token::Text(_) => 8,
        Token::OpenBrace => 9,
        Token::CloseBrace => 10,
        Token::DoubleOpenBrace => 11,
        Token::DoubleCloseBrace => 12,
        Token::Equals => 13,
        Token::Star => 14,
        Token::Newline => 15,
    }
}

fn copy_string(s: &String) -> (r: String)
    ensures
        r@ == s@,
{
    owned(s.as_str())
}

/// Parser over the tokens of one message.
pub struct Parser {
    tokens: Vec<SpannedToken>,
    pos: usize,
}

impl Parser {
    /// The tokens.
    pub closed spec fn toks(&self) -> Seq<SpannedToken> {
        self.tokens@
    }

    /// How many tokens have been consumed.
    pub closed spec fn at(&self) -> int {
        self.pos as int
    }

    spec fn moved(&self, old: &Parser) -> bool {
        &&& self.tokens@ == old.tokens@
        &&& old.pos <= self.pos <= self.tokens@.len()
    }

    /// A parser at the first of `tokens`.
    pub fn new(tokens: Vec<SpannedToken>) -> (r: Parser)
        ensures
            r.toks() == tokens@,
            r.at() == 0,
    {
        Parser { tokens, pos: 0 }
    }

    fn check(&self, t: u8) -> (r: bool)
        requires
            self.pos <= self.tokens@.len(),
        ensures
            r == (self.pos < self.tokens@.len() && tag_of(self.tokens@[self.pos as int].token) == t),
    {
        self.pos < self.tokens.len() && tag(&self.tokens[self.pos].token) == t
    }

    fn advance(&mut self)
        requires
            old(self).pos <= old(self).tokens@.len(),
        ensures
            final(self).moved(old(self)),
            old(self).pos < old(self).tokens@.len() ==> final(self).pos == old(self).pos + 1,
    {
        if self.pos < self.tokens.len() {
            self.pos = self.pos + 1;
        }
    }

    fn error(&self, message: &str) -> (r: I18nError)
        requires
            self.pos <= self.tokens@.len(),
        ensures
            r is Mf2Parse,
    {
        let offset = if self.pos < self.tokens.len() {
            self.tokens[self.pos].span.start
        } else {
            0
        };
        I18nError::Mf2Parse { offset, message: owned(message) }
    }

    fn expect(&mut self, t: u8) -> (r: Result<(), I18nError>)
        requires
            old(self).pos <= old(self).tokens@.len(),
        ensures
            final(self).moved(old(self)),
            r is Ok ==> final(self).pos == old(self).pos + 1,
    {
        if self.check(t) {
            self.advance();
            Ok(())
        } else {
            Err(self.error("unexpected token"))
        }
    }

    /// The string of the current token when it has kind `t`, consumed.
    fn try_consume(&mut self, t: u8) -> (r: Option<String>)
        requires
            old(self).pos <= old(self).tokens@.len(),
        ensures
            final(self).moved(old(self)),
            r is Some ==> final(self).pos == old(self).pos + 1,
            r is None ==> final(self).pos == old(self).pos,
    {
        if self.pos >= self.tokens.len() {
            return None;
        }
        let found = match &self.tokens[self.pos].token {
            Token::Variable(s) => if t == VARIABLE {
                Some(copy_string(s))
            } else {
                None
            },
            Token::Function(s) => if t == FUNCTION {
                Some(copy_string(s))
            } else {
                None
            },
            Token::Name(s) => if t == NAME {
                Some(copy_string(s))
            } else {
                None
            },
            Token::Number(s) => if t == NUMBER {
                Some(copy_string(s))
            } else {
                None
            },
            Token::QuotedLiteral(s) => if t == QUOTED {
                Some(copy_string(s))
            } else {
                None
            },
            _ => None,
        };
        if found.is_some() {
            self.pos = self.pos + 1;
        }
        found
    }

    fn skip_newlines(&mut self)
        requires
            old(self).pos <= old(self).tokens@.len(),
        ensures
            final(self).moved(old(self)),
    {
        while self.check(NEWLINE)
            invariant
                self.moved(old(self)),
            decreases self.tokens@.len() - self.pos,
        {
            self.advance();
        }
    }

    fn try_parse_function_option(&mut self) -> (r: Result<Option<FunctionOption>, I18nError>)
        requires
            old(self).pos <= old(self).tokens@.len(),
        ensures
            final(self).moved(old(self)),
            r matches Ok(Some(_)) ==> final(self).pos > old(self).pos,
    {
        if self.tokens.len() - self.pos > 1 && tag(&self.tokens[self.pos + 1].token) == EQUALS {
            if self.check(NAME) {
                let name = match self.try_consume(NAME) {
                    Some(n) => n,
                    None => {
                        return Ok(None);
                    },
                };
                self.advance();
                let value = self.parse_option_value()?;
                return Ok(Some(FunctionOption { name, value }));
            }
        }
        Ok(None)
    }

    fn parse_option_value(&mut self) -> (r: Result<OptionValue, I18nError>)
        requires
            old(self).pos <= old(self).tokens@.len(),
        ensures
            final(self).moved(old(self)),
    {
        if let Some(v) = self.try_consume(VARIABLE) {
            Ok(OptionValue::Variable(v))
        } else if let Some(n) = self.try_consume(NUMBER) {
            Ok(OptionValue::Literal(n))
        } else if let Some(n) = self.try_consume(NAME) {
            Ok(OptionValue::Literal(n))
        } else if let Some(q) = self.try_consume(QUOTED) {
            Ok(OptionValue::Literal(q))
        } else {
            Err(self.error("expected option value"))
        }
    }

    fn try_parse_annotation(&mut self) -> (r: Result<Option<Annotation>, I18nError>)
        requires
            old(self).pos <= old(self).tokens@.len(),
        ensures
            final(self).moved(old(self)),
            r matches Ok(Some(_)) ==> final(self).pos > old(self).pos,
    {
        match self.try_consume(FUNCTION) {
            Some(function) => {
                let mut options: Vec<FunctionOption> = Vec::new();
                let mut done = false;
                while !done
                    invariant
                        self.moved(old(self)),
                        self.pos > old(self).pos,
                    decreases self.tokens@.len() - self.pos + if done { 0int } else { 1int },
                {
                    match self.try_parse_function_option()? {
                        Some(opt) => {
                            options.push(opt);
                        },
                        None => {
                            done = true;
                        },
                    }
                }
                Ok(Some(Annotation { function, options }))
            },
            None => Ok(None),
        }
    }

    fn try_parse_operand(&mut self) -> (r: Option<Operand>)
        requires
            old(self).pos <= old(self).tokens@.len(),
        ensures
            final(self).moved(old(self)),
            r is Some ==> final(self).pos > old(self).pos,
            r is None ==> final(self).pos == old(self).pos,
    {
        if let Some(v) = self.try_consume(VARIABLE) {
            Some(Operand::Variable(v))
        } else if let Some(n) = self.try_consume(NUMBER) {
            Some(Operand::Literal(n))
        } else if let Some(q) = self.try_consume(QUOTED) {
            Some(Operand::Literal(q))
        } else {
            None
        }
    }

    fn parse_expression_body(&mut self) -> (r: Result<Expression, I18nError>)
        requires
            old(self).pos <= old(self).tokens@.len(),
        ensures
            final(self).moved(old(self)),
            r is Ok ==> final(self).pos > old(self).pos,
    {
        let operand = self.try_parse_operand();
        let annotation = self.try_parse_annotation()?;
        if operand.is_none() && annotation.is_none() {
            return Err(self.error("expected variable, literal, or function in expression"));
        }
        Ok(Expression { operand, annotation })
    }

    fn parse_expression(&mut self) -> (r: Result<Expression, I18nError>)
        requires
            old(self).pos <= old(self).tokens@.len(),
        ensures
            final(self).moved(old(self)),
            r is Ok ==> final(self).pos > old(self).pos,
    {
        self.expect(OPEN_BRACE)?;
        let expression = self.parse_expression_body()?;
        self.expect(CLOSE_BRACE)?;
        Ok(expression)
    }

    /// Text and expressions; inside a quoted pattern, up to `}}`.
    fn parse_pattern_until(&mut self, in_quoted: bool) -> (r: Result<Pattern, I18nError>)
        requires
            old(self).pos <= old(self).tokens@.len(),
        ensures
            final(self).moved(old(self)),
    {
        let mut parts: Vec<PatternPart> = Vec::new();
        let mut done = false;
        while !done && self.pos < self.tokens.len()
            invariant
                self.moved(old(self)),
            decreases self.tokens@.len() - self.pos + if done { 0int } else { 1int },
        {
            if in_quoted && self.check(CLOSE_QUOTED) {
                done = true;
            } else {
                let t = tag(&self.tokens[self.pos].token);
                if t == TEXT {
                    let text = match &self.tokens[self.pos].token {
                        Token::Text(s) => copy_string(s),
                        _ => String::new(),
                    };
                    parts.push(PatternPart::Text(text));
                    self.advance();
                } else if t == OPEN_BRACE {
                    let expr = self.parse_expression()?;
                    parts.push(PatternPart::Expression(expr));
                } else {
                    done = true;
                }
            }
        }
        Ok(Pattern { parts })
    }

    fn parse_quoted_pattern(&mut self) -> (r: Result<Pattern, I18nError>)
        requires
            old(self).pos <= old(self).tokens@.len(),
        ensures
            final(self).moved(old(self)),
            r is Ok ==> final(self).pos > old(self).pos,
    {
        self.expect(OPEN_QUOTED)?;
        let pattern = self.parse_pattern_until(true)?;
        self.expect(CLOSE_QUOTED)?;
        Ok(pattern)
    }

    fn try_parse_variant_key(&mut self) -> (r: Option<VariantKey>)
        requires
            old(self).pos <= old(self).tokens@.len(),
        ensures
            final(self).moved(old(self)),
            r is Some ==> final(self).pos > old(self).pos,
    {
        if self.check(STAR) {
            self.advance();
            Some(VariantKey::Wildcard)
        } else if let Some(name) = self.try_consume(NAME) {
            Some(VariantKey::Literal(name))
        } else if let Some(n) = self.try_consume(NUMBER) {
            Some(VariantKey::Literal(n))
        } else {
            None
        }
    }

    fn try_parse_variant(&mut self, selector_count: usize) -> (r: Result<Option<Variant>, I18nError>)
        requires
            old(self).pos <= old(self).tokens@.len(),
        ensures
            final(self).moved(old(self)),
            r matches Ok(Some(_)) ==> final(self).pos > old(self).pos,
    {
        let mut keys: Vec<VariantKey> = Vec::new();
        let mut i: usize = 0;
        while i < selector_count
            invariant
                self.moved(old(self)),
                i <= selector_count,
                keys@.len() == i,
            decreases selector_count - i,
        {
            match self.try_parse_variant_key() {
                Some(key) => {
                    keys.push(key);
                },
                None => {
                    if keys.len() == 0 {
                        return Ok(None);
                    }
                    return Err(self.error("too few variant keys"));
                },
            }
            i = i + 1;
        }
        let pattern = self.parse_quoted_pattern()?;
        Ok(Some(Variant { keys, pattern }))
    }

    fn parse_matcher(&mut self) -> (r: Result<Matcher, I18nError>)
        requires
            old(self).pos <= old(self).tokens@.len(),
        ensures
            final(self).moved(old(self)),
    {
        self.advance();
        let mut selectors: Vec<String> = Vec::new();
        let mut more = true;
        while more
            invariant
                self.moved(old(self)),
            decreases self.tokens@.len() - self.pos + if more { 1int } else { 0int },
        {
            match self.try_consume(VARIABLE) {
                Some(v) => {
                    selectors.push(v);
                },
                None => {
                    more = false;
                },
            }
        }
        if selectors.len() == 0 {
            return Err(self.error("expected at least one selector variable after .match"));
        }
        self.skip_newlines();
        let mut variants: Vec<Variant> = Vec::new();
        let mut done = false;
        while !done && self.pos < self.tokens.len()
            invariant
                self.moved(old(self)),
            decreases self.tokens@.len() - self.pos + if done { 0int } else { 1int },
        {
            match self.try_parse_variant(selectors.len())? {
                Some(v) => {
                    variants.push(v);
                    self.skip_newlines();
                },
                None => {
                    done = true;
                },
            }
        }
        if variants.len() == 0 {
            return Err(self.error("expected at least one variant"));
        }
        Ok(Matcher { selectors, variants })
    }

    fn parse_declaration(&mut self) -> (r: Result<Declaration, I18nError>)
        requires
            old(self).pos < old(self).tokens@.len(),
        ensures
            final(self).moved(old(self)),
            final(self).pos > old(self).pos,
    {
        if self.check(DOT_INPUT) {
            self.advance();
            self.expect(OPEN_BRACE)?;
            let variable = match self.try_consume(VARIABLE) {
                Some(v) => v,
                None => {
                    return Err(self.error("expected variable ($name)"));
                },
            };
            let annotation = self.try_parse_annotation()?;
            self.expect(CLOSE_BRACE)?;
            Ok(Declaration::Input(InputDeclaration { variable, annotation }))
        } else {
            self.advance();
            let variable = match self.try_consume(VARIABLE) {
                Some(v) => v,
                None => {
                    return Err(self.error("expected variable ($name)"));
                },
            };
            self.expect(EQUALS)?;
            self.expect(OPEN_BRACE)?;
            let expression = self.parse_expression_body()?;
            self.expect(CLOSE_BRACE)?;
            Ok(Declaration::Local(LocalDeclaration { variable, expression }))
        }
    }

    fn parse_complex_message(&mut self) -> (r: Result<ComplexMessage, I18nError>)
        requires
            old(self).pos <= old(self).tokens@.len(),
        ensures
            final(self).moved(old(self)),
    {
        let mut declarations: Vec<Declaration> = Vec::new();
        while self.check(DOT_INPUT) || self.check(DOT_LOCAL)
            invariant
                self.moved(old(self)),
            decreases self.tokens@.len() - self.pos,
        {
            let d = self.parse_declaration()?;
            declarations.push(d);
            self.skip_newlines();
        }
        let body = if self.check(DOT_MATCH) {
            ComplexBody::Matcher(self.parse_matcher()?)
        } else if self.check(OPEN_QUOTED) {
            ComplexBody::QuotedPattern(self.parse_quoted_pattern()?)
        } else {
            return Err(self.error("expected .match or quoted pattern {{...}}"));
        };
        Ok(ComplexMessage { declarations, body })
    }

    /// Parses the message: complex when its first token after line breaks
    /// is `.input`, `.local` or `.match`, simple otherwise.
    pub fn parse(&mut self) -> (r: Result<Message, I18nError>)
        requires
            old(self).at() <= old(self).toks().len(),
        ensures
            final(self).toks() == old(self).toks(),
    {
        self.skip_newlines();
        if self.check(DOT_INPUT) || self.check(DOT_LOCAL) || self.check(DOT_MATCH) {
            let complex = self.parse_complex_message()?;
            Ok(Message::Complex(complex))
        } else {
            let pattern = self.parse_pattern_until(false)?;
            Ok(Message::Simple(pattern))
        }
    }
}

/// Parses an MF2 message. A source that does not tokenize fails with the
/// byte offset where tokenizing stopped.
pub fn parse(source: &str) -> (r: Result<Message, I18nError>)
{
    let tokens = match crate::mf2_lexer::tokenize(source) {
        Ok(t) => t,
        Err(offset) => {
            return Err(I18nError::Mf2Parse { offset, message: owned("unexpected character") });
        },
    };
    let mut p = Parser::new(tokens);
    p.parse()
}

/// Parses an MF2 message and lists its validation errors.
pub fn parse_and_validate(source: &str) -> (r: Result<(Message, Vec<I18nError>), I18nError>)
    ensures
        r matches Ok(v) ==> crate::mf2_validator::all_validation(v.1@),
{
    let message = parse(source)?;
    let errors = crate::mf2_validator::validate(&message);
    Ok((message, errors))
}

} // verus!
