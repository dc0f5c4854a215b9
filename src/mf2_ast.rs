//! The tree of a MessageFormat 2 message.
use vstd::prelude::*;

verus! {

/// A whole message.
#[derive(Debug, Clone, PartialEq)]
pub enum Message {
    /// A pattern with no declarations.
    Simple(Pattern),
    /// Declarations followed by a matcher or a quoted pattern.
    Complex(ComplexMessage),
}

/// A message that starts with declarations or `.match`.
#[derive(Debug, Clone, PartialEq)]
pub struct ComplexMessage {
    pub declarations: Vec<Declaration>,
    pub body: ComplexBody,
}

/// What follows the declarations.
#[derive(Debug, Clone, PartialEq)]
pub enum ComplexBody {
    Matcher(Matcher),
    QuotedPattern(Pattern),
}

/// `.input` or `.local`.
#[derive(Debug, Clone, PartialEq)]
pub enum Declaration {
    Input(InputDeclaration),
    Local(LocalDeclaration),
}

/// `.input {$var :fn ...}`.
#[derive(Debug, Clone, PartialEq)]
pub struct InputDeclaration {
    pub variable: String,
    pub annotation: Option<Annotation>,
}

/// `.local $var = {...}`.
#[derive(Debug, Clone, PartialEq)]
pub struct LocalDeclaration {
    pub variable: String,
    pub expression: Expression,
}

/// `.match $a $b` and its variants.
#[derive(Debug, Clone, PartialEq)]
pub struct Matcher {
    pub selectors: Vec<String>,
    pub variants: Vec<Variant>,
}

/// One key per selector, then a quoted pattern.
#[derive(Debug, Clone, PartialEq)]
pub struct Variant {
    pub keys: Vec<VariantKey>,
    pub pattern: Pattern,
}

/// A literal key or the catch-all `*`.
#[derive(Debug, Clone, PartialEq)]
pub enum VariantKey {
    Literal(String),
    Wildcard,
}

/// Text and placeholders.
#[derive(Debug, Clone, PartialEq)]
pub struct Pattern {
    pub parts: Vec<PatternPart>,
}

/// A piece of a pattern.
#[derive(Debug, Clone, PartialEq)]
pub enum PatternPart {
    Text(String),
    Expression(Expression),
}

/// `{operand :fn opt=value}`; at least one of operand and annotation.
#[derive(Debug, Clone, PartialEq)]
pub struct Expression {
    pub operand: Option<Operand>,
    pub annotation: Option<Annotation>,
}

/// A variable or a literal.
#[derive(Debug, Clone, PartialEq)]
pub enum Operand {
    Variable(String),
    Literal(String),
}

/// A function and its options.
#[derive(Debug, Clone, PartialEq)]
pub struct Annotation {
    pub function: String,
    pub options: Vec<FunctionOption>,
}

/// `name=value`.
#[derive(Debug, Clone, PartialEq)]
pub struct FunctionOption {
    pub name: String,
    pub value: OptionValue,
}

/// The value of an option.
#[derive(Debug, Clone, PartialEq)]
pub enum OptionValue {
    Literal(String),
    Variable(String),
}

} // verus!
