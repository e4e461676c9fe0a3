//! What holds of every sequence of tokens: the laws of the expression
//! grammar.

use vstd::prelude::*;
use crate::lexer::laws::{spans_ascend, token_spans};
use crate::lexer::token::{
    lemma_join_well_formed, lemma_not_after_transitive, SourceSpan, Token,
};
use crate::lexer::token_type::TokenKind;
use crate::nodes::exprs::{BinaryOp, Expr, LiteralExpr, LiteralValue, UnaryOp};
use crate::parser::grammar::{
    binary, climb, continues, expression, integer, lemma_parse_advances, operation, primary,
    ParseFailure, ParseFault,
};
use crate::parser::literal::i128_value;
use crate::parser::lookups::{has_led, level_of, BindingPower};

verus! {

/// Only an integer literal starts an expression: at a token of any other
/// kind, parsing fails at that token with an unsupported primary, whatever
/// the level.
pub proof fn lemma_only_integers_start(tokens: Seq<Token>, pos: int, min: BindingPower)
    requires
        0 <= pos < tokens.len(),
        tokens[pos].kind != TokenKind::INTEGER,
    ensures
        expression(tokens, pos, min) == Err::<(Expr, int), ParseFailure>(
            ParseFailure {
                fault: ParseFault::UnsupportedPrimary { kind: tokens[pos].kind },
                at: pos,
            },
        ),
{
}

/// Whether a unary node stands anywhere in the tree.
pub open spec fn holds_unary(expr: Expr) -> bool
    decreases expr,
{
    match expr {
        Expr::Literal(_) => false,
        Expr::Binary(node) => holds_unary(*node.left) || holds_unary(*node.right),
        Expr::Unary(_) => true,
    }
}

/// The parser builds no unary node: a parsed expression holds none.
pub proof fn lemma_expression_no_unary(tokens: Seq<Token>, pos: int, min: BindingPower)
    requires
        0 <= pos,
    ensures
        expression(tokens, pos, min) matches Ok((expr, _)) ==> !holds_unary(expr),
    decreases tokens.len() - pos, 2int,
{
    if let Ok((left, next)) = primary(tokens, pos) {
        lemma_climb_no_unary(tokens, next, min, left);
    }
}

/// Climbing from a tree that holds no unary node gives a tree that holds
/// none.
proof fn lemma_climb_no_unary(tokens: Seq<Token>, pos: int, min: BindingPower, left: Expr)
    requires
        0 <= pos,
        !holds_unary(left),
    ensures
        climb(tokens, pos, min, left) matches Ok((expr, _)) ==> !holds_unary(expr),
    decreases tokens.len() - pos, 1int,
{
    if continues(tokens, pos, min) {
        lemma_operation_no_unary(tokens, pos, left);
        lemma_parse_advances(tokens, pos, min, left);
        if let Ok((joined, next)) = operation(tokens, pos, left) {
            lemma_climb_no_unary(tokens, next, min, joined);
        }
    }
}

/// An operation on a tree that holds no unary node gives a tree that holds
/// none.
pub proof fn lemma_operation_no_unary(tokens: Seq<Token>, pos: int, left: Expr)
    requires
        0 <= pos,
        !holds_unary(left),
    ensures
        operation(tokens, pos, left) matches Ok((expr, _)) ==> !holds_unary(expr),
    decreases tokens.len() - pos, 0int,
{
    if pos < tokens.len() {
        lemma_expression_no_unary(tokens, pos + 1, BindingPower::of_token(tokens[pos].kind));
    }
}

/// Whether the token at `pos` is an integer literal that fits.
pub open spec fn is_operand(tokens: Seq<Token>, pos: int) -> bool {
    &&& 0 <= pos < tokens.len()
    &&& tokens[pos].kind == TokenKind::INTEGER
    &&& i128_value(tokens[pos].value@) is Some
}

/// The node for the operand at `pos`.
pub open spec fn operand(tokens: Seq<Token>, pos: int) -> Expr {
    integer(i128_value(tokens[pos].value@)->0, tokens[pos].span)
}

/// The operator that the token at `pos` stands for.
pub open spec fn operator(tokens: Seq<Token>, pos: int) -> BinaryOp {
    BinaryOp::of_token(tokens[pos].kind)->0
}

/// The level of the token at `pos`.
pub open spec fn level(tokens: Seq<Token>, pos: int) -> BindingPower {
    BindingPower::of_token(tokens[pos].kind)
}

/// Precedence and associativity: of two operators between three operands,
/// the second takes the middle operand if it binds more tightly than the
/// first; if not, the first takes it, and the second takes the result.
pub proof fn lemma_tighter_operator_nests(tokens: Seq<Token>)
    requires
        tokens.len() == 5,
        is_operand(tokens, 0),
        has_led(tokens[1].kind),
        is_operand(tokens, 2),
        has_led(tokens[3].kind),
        is_operand(tokens, 4),
    ensures
        expression(tokens, 0, BindingPower::Primary) == Ok::<(Expr, int), ParseFailure>(
            (
                if level(tokens, 1).rank_of() < level(tokens, 3).rank_of() {
                    binary(
                        operand(tokens, 0),
                        operator(tokens, 1),
                        binary(operand(tokens, 2), operator(tokens, 3), operand(tokens, 4)),
                    )
                } else {
                    binary(
                        binary(operand(tokens, 0), operator(tokens, 1), operand(tokens, 2)),
                        operator(tokens, 3),
                        operand(tokens, 4),
                    )
                },
                5,
            ),
        ),
{
    let a = operand(tokens, 0);
    let b = operand(tokens, 2);
    let c = operand(tokens, 4);
    let first = level(tokens, 1);
    let second = level(tokens, 3);
    let sentinel = BindingPower::Primary;
    // The last operand, at either operator's level.
    assert forall|min: BindingPower| #[trigger]
        expression(tokens, 4, min) == Ok::<(Expr, int), ParseFailure>((c, 5)) by {
        assert(!continues(tokens, 5, min));
        assert(climb(tokens, 5, min, c) == Ok::<(Expr, int), ParseFailure>((c, 5)));
    }
    assert(expression(tokens, 4, second) == Ok::<(Expr, int), ParseFailure>((c, 5)));
    if first.rank_of() < second.rank_of() {
        let inner = binary(b, operator(tokens, 3), c);
        assert(operation(tokens, 3, b) == Ok::<(Expr, int), ParseFailure>((inner, 5)));
        assert(!continues(tokens, 5, first));
        assert(climb(tokens, 5, first, inner) == Ok::<(Expr, int), ParseFailure>((inner, 5)));
        assert(continues(tokens, 3, first));
        assert(climb(tokens, 3, first, b) == Ok::<(Expr, int), ParseFailure>((inner, 5)));
        assert(expression(tokens, 2, first) == Ok::<(Expr, int), ParseFailure>((inner, 5)));
        let outer = binary(a, operator(tokens, 1), inner);
        assert(operation(tokens, 1, a) == Ok::<(Expr, int), ParseFailure>((outer, 5)));
        assert(!continues(tokens, 5, sentinel));
        assert(climb(tokens, 5, sentinel, outer) == Ok::<(Expr, int), ParseFailure>((outer, 5)));
        assert(continues(tokens, 1, sentinel));
        assert(climb(tokens, 1, sentinel, a) == Ok::<(Expr, int), ParseFailure>((outer, 5)));
    } else {
        assert(!continues(tokens, 3, first));
        assert(climb(tokens, 3, first, b) == Ok::<(Expr, int), ParseFailure>((b, 3)));
        assert(expression(tokens, 2, first) == Ok::<(Expr, int), ParseFailure>((b, 3)));
        let inner = binary(a, operator(tokens, 1), b);
        assert(operation(tokens, 1, a) == Ok::<(Expr, int), ParseFailure>((inner, 3)));
        let outer = binary(inner, operator(tokens, 3), c);
        assert(operation(tokens, 3, inner) == Ok::<(Expr, int), ParseFailure>((outer, 5)));
        assert(!continues(tokens, 5, sentinel));
        assert(climb(tokens, 5, sentinel, outer) == Ok::<(Expr, int), ParseFailure>((outer, 5)));
        assert(continues(tokens, 3, sentinel));
        assert(climb(tokens, 3, sentinel, inner) == Ok::<(Expr, int), ParseFailure>(
            (outer, 5),
        ));
        assert(continues(tokens, 1, sentinel));
        assert(climb(tokens, 1, sentinel, a) == Ok::<(Expr, int), ParseFailure>((outer, 5)));
    }
}

/// A parsed expression spans its tokens: from the start of the first to
/// the end of the last.
pub proof fn lemma_expression_spans_its_tokens(tokens: Seq<Token>, pos: int, min: BindingPower)
    requires
        0 <= pos,
        expression(tokens, pos, min) is Ok,
    ensures
        ({
            let (expr, next) = expression(tokens, pos, min)->Ok_0;
            pos < next <= tokens.len() && expr.span_of() == tokens[pos].span.join(
                tokens[next - 1].span,
            )
        }),
    decreases tokens.len() - pos, 2int,
{
    let (left, next) = primary(tokens, pos)->Ok_0;
    lemma_climb_spans_its_tokens(tokens, pos, next, min, left);
}

/// Climbing widens the span to the last token taken in.
proof fn lemma_climb_spans_its_tokens(
    tokens: Seq<Token>,
    start: int,
    pos: int,
    min: BindingPower,
    left: Expr,
)
    requires
        0 <= start < pos <= tokens.len(),
        left.span_of() == tokens[start].span.join(tokens[pos - 1].span),
        climb(tokens, pos, min, left) is Ok,
    ensures
        ({
            let (expr, next) = climb(tokens, pos, min, left)->Ok_0;
            pos <= next <= tokens.len() && expr.span_of() == tokens[start].span.join(
                tokens[next - 1].span,
            )
        }),
    decreases tokens.len() - pos, 1int,
{
    if continues(tokens, pos, min) {
        lemma_parse_advances(tokens, pos, min, left);
        let power = BindingPower::of_token(tokens[pos].kind);
        lemma_expression_spans_its_tokens(tokens, pos + 1, power);
        let (joined, next) = operation(tokens, pos, left)->Ok_0;
        lemma_climb_spans_its_tokens(tokens, start, next, min, joined);
    }
}

/// In ascending spans, an earlier one starts no later than a later one
/// ends.
proof fn lemma_ascending_spans_reach(spans: Seq<SourceSpan>, i: int, j: int)
    requires
        spans_ascend(spans),
        0 <= i <= j < spans.len(),
    ensures
        spans[i].start.not_after(spans[j].end),
        spans[i].end.not_after(spans[j].end),
    decreases j - i,
{
    if i < j {
        lemma_ascending_spans_reach(spans, i + 1, j);
        lemma_not_after_transitive(spans[i].end, spans[i + 1].start, spans[i + 1].end);
        lemma_not_after_transitive(spans[i].end, spans[i + 1].end, spans[j].end);
        lemma_not_after_transitive(spans[i].start, spans[i].end, spans[j].end);
    }
}

/// A parsed expression has a well-formed span, if the spans of the tokens
/// ascend as those of a lexed text do.
pub proof fn lemma_expression_span_well_formed(tokens: Seq<Token>, pos: int, min: BindingPower)
    requires
        0 <= pos,
        spans_ascend(token_spans(tokens)),
        expression(tokens, pos, min) is Ok,
    ensures
        expression(tokens, pos, min)->Ok_0.0.span_of().well_formed(),
{
    let (_, next) = expression(tokens, pos, min)->Ok_0;
    let spans = token_spans(tokens);
    lemma_expression_spans_its_tokens(tokens, pos, min);
    lemma_ascending_spans_reach(spans, pos, next - 1);
    assert(spans[pos].well_formed() && spans[next - 1].well_formed());
    lemma_join_well_formed(spans[pos], spans[next - 1]);
}

/// How tightly the root of a tree binds: an operation as its operator
/// does, anything else more tightly than every operator.
pub open spec fn root_rank(expr: Expr) -> int {
    match expr {
        Expr::Binary(node) => level_of(node.op).rank_of(),
        _ => 7,
    }
}

/// Whether the tree respects precedence and groups to the left: at every
/// operation the right operand binds more tightly than the operator, and
/// the left operand at least as tightly.
pub open spec fn respects_precedence(expr: Expr) -> bool
    decreases expr,
{
    match expr {
        Expr::Literal(_) => true,
        Expr::Binary(node) => {
            &&& respects_precedence(*node.left)
            &&& respects_precedence(*node.right)
            &&& root_rank(*node.left) >= level_of(node.op).rank_of()
            &&& root_rank(*node.right) > level_of(node.op).rank_of()
        },
        Expr::Unary(node) => respects_precedence(*node.expr),
    }
}

/// Precedence and associativity: a parsed expression respects precedence
/// and groups to the left, its root binds more tightly than the level at
/// which it was parsed, and it ends only where the tokens end or the next
/// token does not bind more tightly than that level.
pub proof fn lemma_expression_respects_precedence(
    tokens: Seq<Token>,
    pos: int,
    min: BindingPower,
)
    requires
        0 <= pos,
        expression(tokens, pos, min) is Ok,
    ensures
        ({
            let (expr, next) = expression(tokens, pos, min)->Ok_0;
            &&& respects_precedence(expr)
            &&& root_rank(expr) > min.rank_of()
            &&& !continues(tokens, next, min)
        }),
    decreases tokens.len() - pos, 2int,
{
    let (left, next) = primary(tokens, pos)->Ok_0;
    lemma_climb_respects_precedence(tokens, next, min, left);
}

/// Climbing from a tree that respects precedence, and binds at least as
/// tightly as the next operator, gives a tree that respects precedence.
proof fn lemma_climb_respects_precedence(
    tokens: Seq<Token>,
    pos: int,
    min: BindingPower,
    left: Expr,
)
    requires
        0 <= pos,
        respects_precedence(left),
        root_rank(left) > min.rank_of(),
        continues(tokens, pos, min) ==> level(tokens, pos).rank_of() <= root_rank(left),
        climb(tokens, pos, min, left) is Ok,
    ensures
        ({
            let (expr, next) = climb(tokens, pos, min, left)->Ok_0;
            &&& respects_precedence(expr)
            &&& root_rank(expr) > min.rank_of()
            &&& !continues(tokens, next, min)
        }),
    decreases tokens.len() - pos, 1int,
{
    if continues(tokens, pos, min) {
        lemma_parse_advances(tokens, pos, min, left);
        let power = level(tokens, pos);
        assert(level_of(operator(tokens, pos)) == power);
        lemma_expression_respects_precedence(tokens, pos + 1, power);
        let (joined, next) = operation(tokens, pos, left)->Ok_0;
        lemma_climb_respects_precedence(tokens, next, min, joined);
    }
}

/// What a tree holds, read from left to right.
pub enum Item {
    Leaf(LiteralExpr),
    Infix(BinaryOp),
    Prefix(UnaryOp),
}

/// The literals and operators of a tree, from left to right.
pub open spec fn in_order(expr: Expr) -> Seq<Item>
    decreases expr,
{
    match expr {
        Expr::Literal(literal) => seq![Item::Leaf(literal)],
        Expr::Binary(node) => in_order(*node.left) + seq![Item::Infix(node.op)] + in_order(
            *node.right,
        ),
        Expr::Unary(node) => seq![Item::Prefix(node.op)] + in_order(*node.expr),
    }
}

/// What a token stands for in a tree: an integer literal for its value,
/// any other token for its operator.
pub open spec fn item_of(token: Token) -> Item {
    if token.kind == TokenKind::INTEGER {
        Item::Leaf(
            LiteralExpr {
                value: LiteralValue::Int(i128_value(token.value@)->0),
                type_info: None,
                span: token.span,
            },
        )
    } else {
        Item::Infix(BinaryOp::of_token(token.kind)->0)
    }
}

/// What the tokens between `from` and `to` stand for.
pub open spec fn items_between(tokens: Seq<Token>, from: int, to: int) -> Seq<Item> {
    Seq::new((to - from) as nat, |i: int| item_of(tokens[from + i]))
}

/// A parsed expression keeps its tokens: read from left to right, the
/// tree holds what the tokens stand for, all of them and in their order.
pub proof fn lemma_expression_keeps_tokens(tokens: Seq<Token>, pos: int, min: BindingPower)
    requires
        0 <= pos,
        expression(tokens, pos, min) is Ok,
    ensures
        ({
            let (expr, next) = expression(tokens, pos, min)->Ok_0;
            pos < next <= tokens.len() && in_order(expr) == items_between(tokens, pos, next)
        }),
    decreases tokens.len() - pos, 2int,
{
    let (left, next) = primary(tokens, pos)->Ok_0;
    assert(in_order(left) =~= items_between(tokens, pos, next));
    lemma_climb_keeps_tokens(tokens, pos, next, min, left);
}

/// Climbing keeps the tokens it takes in, behind those of the tree so far.
proof fn lemma_climb_keeps_tokens(
    tokens: Seq<Token>,
    start: int,
    pos: int,
    min: BindingPower,
    left: Expr,
)
    requires
        0 <= start < pos <= tokens.len(),
        in_order(left) == items_between(tokens, start, pos),
        climb(tokens, pos, min, left) is Ok,
    ensures
        ({
            let (expr, next) = climb(tokens, pos, min, left)->Ok_0;
            pos <= next <= tokens.len() && in_order(expr) == items_between(tokens, start, next)
        }),
    decreases tokens.len() - pos, 1int,
{
    if continues(tokens, pos, min) {
        lemma_parse_advances(tokens, pos, min, left);
        lemma_expression_keeps_tokens(tokens, pos + 1, level(tokens, pos));
        let (joined, next) = operation(tokens, pos, left)->Ok_0;
        assert(in_order(joined) =~= items_between(tokens, start, next)) by {
            let (right, _) = expression(tokens, pos + 1, level(tokens, pos))->Ok_0;
            assert(in_order(joined) == in_order(left) + seq![Item::Infix(operator(tokens, pos))]
                + in_order(right));
            assert(items_between(tokens, start, next) =~= items_between(tokens, start, pos)
                + seq![item_of(tokens[pos])] + items_between(tokens, pos + 1, next));
        }
        lemma_climb_keeps_tokens(tokens, start, next, min, joined);
    }
}

} // verus!
