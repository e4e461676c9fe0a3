//! Expression nodes.

use vstd::prelude::*;
use crate::lexer::token::SourceSpan;
use crate::lexer::token_type::TokenKind;
use crate::nodes::types::Type;

verus! {

/// The value of a literal. A float is held as its IEEE 754 bit pattern.
#[derive(Debug, PartialEq)]
pub enum LiteralValue {
    Int(i128),
    Float(u64),
    Bool(bool),
    Str(String),
}

/// A literal, with the span of its lexeme.
#[derive(Debug, PartialEq)]
pub struct LiteralExpr {
    pub value: LiteralValue,
    pub type_info: Option<Type>,
    pub span: SourceSpan,
}

/// The operators that join two operands.
#[derive(Debug, Clone, Copy, PartialEq, Eq, Structural)]
pub enum BinaryOp {
    Add,
    Sub,
    Mul,
    Div,
    Mod,
    Equal,
    NotEqual,
    Less,
    LessEqual,
    Greater,
    GreaterEqual,
    And,
    Or,
}

/// Two operands joined by an operator.
#[derive(Debug, PartialEq)]
pub struct BinaryExpr {
    pub left: Box<Expr>,
    pub op: BinaryOp,
    pub right: Box<Expr>,
    pub type_info: Option<Type>,
}

/// The operators that take one operand.
#[derive(Debug, Clone, Copy, PartialEq, Eq, Structural)]
pub enum UnaryOp {
    Ref,
    Deref,
    Neg,
    Not,
}

/// An operator applied to one operand. The parser builds none yet.
#[derive(Debug, PartialEq)]
pub struct UnaryExpr {
    pub op: UnaryOp,
    pub expr: Box<Expr>,
    pub type_info: Option<Type>,
}

/// An expression: a tree that owns its operands.
#[derive(Debug, PartialEq)]
pub enum Expr {
    Literal(LiteralExpr),
    Binary(BinaryExpr),
    Unary(UnaryExpr),
}

impl Clone for LiteralValue {
    fn clone(&self) -> (copy: LiteralValue)
        ensures
            copy == *self,
    {
        match self {
            LiteralValue::Int(value) => LiteralValue::Int(*value),
            LiteralValue::Float(bits) => LiteralValue::Float(*bits),
            LiteralValue::Bool(value) => LiteralValue::Bool(*value),
            LiteralValue::Str(value) => LiteralValue::Str(value.clone()),
        }
    }
}

impl Clone for LiteralExpr {
    fn clone(&self) -> (copy: LiteralExpr)
        ensures
            copy == *self,
    {
        LiteralExpr {
            value: self.value.clone(),
            type_info: copy_type(&self.type_info),
            span: self.span,
        }
    }
}

impl LiteralExpr {
    /// A literal without a type.
    pub fn new(value: LiteralValue, span: SourceSpan) -> (literal: LiteralExpr)
        ensures
            literal == (LiteralExpr { value, type_info: None, span }),
    {
        LiteralExpr { value, span, type_info: None }
    }

    /// The span of the node.
    pub fn span(&self) -> (span: SourceSpan)
        ensures
            span == self.span,
    {
        self.span
    }

    /// The type of the node, if it has been given one.
    pub fn type_info(&self) -> (typ: Option<Type>)
        ensures
            typ == self.type_info,
    {
        copy_type(&self.type_info)
    }

    /// Gives the node the type `typ`.
    pub fn set_type_info(&mut self, typ: Type)
        ensures
            *final(self) == (LiteralExpr { type_info: Some(typ), ..*old(self) }),
    {
        self.type_info = Some(typ);
    }
}

/// A copy of a type slot.
fn copy_type(typ: &Option<Type>) -> (copy: Option<Type>)
    ensures
        copy == *typ,
{
    match typ {
        Some(t) => Some(t.clone()),
        None => None,
    }
}

impl BinaryOp {
    /// Whether a token of this kind is a binary operator.
    pub open spec fn is_operator(kind: TokenKind) -> bool {
        Self::of_token(kind) is Some
    }

    /// The operator that a token of this kind stands for.
    pub open spec fn of_token(kind: TokenKind) -> Option<BinaryOp> {
        match kind {
            TokenKind::PLUS => Some(BinaryOp::Add),
            TokenKind::DASH => Some(BinaryOp::Sub),
            TokenKind::STAR => Some(BinaryOp::Mul),
            TokenKind::SLASH => Some(BinaryOp::Div),
            TokenKind::MODULO => Some(BinaryOp::Mod),
            TokenKind::LESS => Some(BinaryOp::Less),
            TokenKind::GREATER => Some(BinaryOp::Greater),
            TokenKind::AMPER => Some(BinaryOp::And),
            TokenKind::VERTICAL_BAR => Some(BinaryOp::Or),
            _ => None,
        }
    }

    /// The operator that a token of this kind stands for.
    pub fn from_token(kind: TokenKind) -> (op: BinaryOp)
        requires
            Self::is_operator(kind),
        ensures
            Some(op) == Self::of_token(kind),
    {
        match kind {
            TokenKind::PLUS => BinaryOp::Add,
            TokenKind::DASH => BinaryOp::Sub,
            TokenKind::STAR => BinaryOp::Mul,
            TokenKind::SLASH => BinaryOp::Div,
            TokenKind::MODULO => BinaryOp::Mod,
            TokenKind::LESS => BinaryOp::Less,
            TokenKind::GREATER => BinaryOp::Greater,
            TokenKind::AMPER => BinaryOp::And,
            _ => BinaryOp::Or,
        }
    }
}

impl Expr {
    /// The span of the expression: a literal's own, an operation's from the
    /// start of its first operand to the end of its last.
    pub open spec fn span_of(self) -> SourceSpan
        decreases self,
    {
        match self {
            Expr::Literal(literal) => literal.span,
            Expr::Binary(binary) => binary.left.span_of().join(binary.right.span_of()),
            Expr::Unary(unary) => unary.expr.span_of(),
        }
    }

    /// The type slot of the root node.
    pub open spec fn type_of(self) -> Option<Type> {
        match self {
            Expr::Literal(literal) => literal.type_info,
            Expr::Binary(binary) => binary.type_info,
            Expr::Unary(unary) => unary.type_info,
        }
    }

    /// The same expression with `typ` in the type slot of the root node.
    pub open spec fn with_type(self, typ: Type) -> Expr {
        match self {
            Expr::Literal(literal) => Expr::Literal(
                LiteralExpr { type_info: Some(typ), ..literal },
            ),
            Expr::Binary(binary) => Expr::Binary(BinaryExpr { type_info: Some(typ), ..binary }),
            Expr::Unary(unary) => Expr::Unary(UnaryExpr { type_info: Some(typ), ..unary }),
        }
    }

    /// The span of the node.
    pub fn span(&self) -> (span: SourceSpan)
        ensures
            span == self.span_of(),
        decreases self,
    {
        match self {
            Expr::Literal(literal) => literal.span(),
            Expr::Binary(binary) => binary.span(),
            Expr::Unary(unary) => unary.span(),
        }
    }

    /// The type of the node, if it has been given one.
    pub fn type_info(&self) -> (typ: Option<Type>)
        ensures
            typ == self.type_of(),
    {
        match self {
            Expr::Literal(literal) => literal.type_info(),
            Expr::Binary(binary) => binary.type_info(),
            Expr::Unary(unary) => unary.type_info(),
        }
    }

    /// Gives the node the type `typ`.
    pub fn set_type_info(&mut self, typ: Type)
        ensures
            *final(self) == old(self).with_type(typ),
    {
        match self {
            Expr::Literal(literal) => literal.set_type_info(typ),
            Expr::Binary(binary) => binary.set_type_info(typ),
            Expr::Unary(unary) => unary.set_type_info(typ),
        }
    }
}

impl BinaryExpr {
    /// The span of the node.
    pub fn span(&self) -> (span: SourceSpan)
        ensures
            span == self.left.span_of().join(self.right.span_of()),
        decreases self,
    {
        let left_span = self.left.span();
        let right_span = self.right.span();
        left_span.combine(&right_span)
    }

    /// The type of the node, if it has been given one.
    pub fn type_info(&self) -> (typ: Option<Type>)
        ensures
            typ == self.type_info,
    {
        copy_type(&self.type_info)
    }

    /// Gives the node the type `typ`.
    pub fn set_type_info(&mut self, typ: Type)
        ensures
            *final(self) == (BinaryExpr { type_info: Some(typ), ..*old(self) }),
    {
        self.type_info = Some(typ);
    }
}

impl UnaryExpr {
    /// The span of the node.
    pub fn span(&self) -> (span: SourceSpan)
        ensures
            span == self.expr.span_of(),
        decreases self,
    {
        self.expr.span()
    }

    /// The type of the node, if it has been given one.
    pub fn type_info(&self) -> (typ: Option<Type>)
        ensures
            typ == self.type_info,
    {
        copy_type(&self.type_info)
    }

    /// Gives the node the type `typ`.
    pub fn set_type_info(&mut self, typ: Type)
        ensures
            *final(self) == (UnaryExpr { type_info: Some(typ), ..*old(self) }),
    {
        self.type_info = Some(typ);
    }
}

} // verus!
