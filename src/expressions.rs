//! The grammar of expressions of the markup language.
//!
//! Every function here leaves the parser advanced: exactly the tokens it
//! passed over are attached, in order, and every node it opened is closed.

use vstd::prelude::*;
use crate::parser::{
    lemma_moved_refl, starts_expression, text_ends_with, text_eq, text_starts_with,
    DefaultParser, Event, ParseError, SyntaxKind,
};

verus! {

/// How tightly an operator binds, loosest first.
#[derive(Clone, Copy, Debug, PartialEq, Eq, Structural)]
enum OperatorPrecedence {
    /// ` ?: `
    Default,
    /// `||`, `&&`
    Logical,
    /// `==` `!=` `>=` `<=` `<` `>`
    Equality,
    /// `+ -`
    Add,
    /// `* /`
    Mul,
    Unary,
}

impl OperatorPrecedence {
    fn level(&self) -> u8 {
        match self {
            OperatorPrecedence::Default => 0,
            OperatorPrecedence::Logical => 1,
            OperatorPrecedence::Equality => 2,
            OperatorPrecedence::Add => 3,
            OperatorPrecedence::Mul => 4,
            OperatorPrecedence::Unary => 5,
        }
    }
}

/// Parses an expression into an `Expression` node: the events it records
/// start with that node and end by closing a node.
///
/// Tokens are consumed exactly when the first one can start an expression;
/// otherwise an error is recorded and `false` returned. `false` always comes
/// with a recorded error: either the first token cannot start an
/// expression, or the parse stopped right after a `.` that is not followed
/// by a name. `true` means that an expression was parsed, though it may
/// still hold recorded errors.
pub fn parse_expression(p: &mut DefaultParser) -> (r: bool)
    requires
        old(p).wf(),
    ensures
        old(p).advanced_to(final(p)),
        forall|a: DefaultParser, d: int| #[trigger] a.moved(&*old(p), d) ==> a.moved(&*final(p), d),
        starts_expression(old(p).kind_at(0)) <==> final(p).pos() > old(p).pos(),
        r ==> final(p).pos() > old(p).pos(),
        !r ==> final(p).diagnostic_seq().len() > old(p).diagnostic_seq().len(),
        !r && starts_expression(old(p).kind_at(0)) ==> final(p).pos() >= 1
            && final(p).token_seq()[final(p).pos() - 1].kind == SyntaxKind::Dot
            && final(p).kind_at(0) != SyntaxKind::Identifier,
        final(p).event_seq().len() >= old(p).event_seq().len() + 2,
        final(p).event_seq()[old(p).event_seq().len() as int] == Event::StartNode(SyntaxKind::Expression),
        final(p).event_seq().last() == Event::FinishNode,
    decreases old(p).remaining(), 4nat,
{
    parse_expression_helper(p, OperatorPrecedence::Default)
}

#[verifier::rlimit(100)]
#[verifier::spinoff_prover]
fn parse_expression_helper(p: &mut DefaultParser, precedence: OperatorPrecedence) -> (r: bool)
    requires
        old(p).wf(),
    ensures
        old(p).advanced_to(final(p)),
        forall|a: DefaultParser, d: int| #[trigger] a.moved(&*old(p), d) ==> a.moved(&*final(p), d),
        starts_expression(old(p).kind_at(0)) <==> final(p).pos() > old(p).pos(),
        r ==> final(p).pos() > old(p).pos(),
        !r ==> final(p).diagnostic_seq().len() > old(p).diagnostic_seq().len(),
        !r && starts_expression(old(p).kind_at(0)) ==> final(p).pos() >= 1
            && final(p).token_seq()[final(p).pos() - 1].kind == SyntaxKind::Dot
            && final(p).kind_at(0) != SyntaxKind::Identifier,
        final(p).event_seq().len() >= old(p).event_seq().len() + 2,
        final(p).event_seq()[old(p).event_seq().len() as int] == Event::StartNode(SyntaxKind::Expression),
        final(p).event_seq().last() == Event::FinishNode,
    decreases old(p).remaining(), 3nat,
{
    let ghost p0 = *p;
    proof {
        lemma_moved_refl(*p);
    }
    p.start_node(SyntaxKind::Expression);
    let ghost p1 = *p;
    proof {
        lemma_moved_refl(*p);
    }
    let checkpoint = p.checkpoint();
    match p.nth(0) {
        SyntaxKind::Identifier => {
            parse_qualified_name(p);
        },
        SyntaxKind::StringLiteral => {
            if text_ends_with(p.nth_text(0), '{') {
                parse_template_string(p);
            } else {
                p.consume();
            }
        },
        SyntaxKind::NumberLiteral => p.consume(),
        SyntaxKind::ColorLiteral => p.consume(),
        SyntaxKind::LParent => {
            p.consume();
            parse_expression(p);
            p.expect(SyntaxKind::RParent);
        },
        SyntaxKind::LBracket => parse_array(p),
        SyntaxKind::LBrace => parse_object_notation(p),
        SyntaxKind::Plus | SyntaxKind::Minus | SyntaxKind::Bang => {
            p.start_node(SyntaxKind::UnaryOpExpression);
            p.consume();
            parse_expression_helper(p, OperatorPrecedence::Unary);
            p.finish_node();
        },
        SyntaxKind::At => {
            parse_at_keyword(p);
        },
        _ => {
            p.error(ParseError::InvalidExpression);
            p.finish_node();
            return false;
        },
    }
    assert(p.pos() > p0.pos());
    assert(starts_expression(p0.kind_at(0)));

    loop
        invariant
            p.wf(),
            p0 == *old(p),
            starts_expression(p0.kind_at(0)),
            p1.event_seq() == p0.event_seq().push(Event::StartNode(SyntaxKind::Expression)),
            p1.moved(&*p, 0),
            p0.moved(&*p, 1),
            forall|a: DefaultParser, d: int| #[trigger] a.moved(&p0, d) ==> a.moved(&*p, d + 1),
            p.pos() > p0.pos(),
            p0.event_seq().len() < checkpoint <= p.event_seq().len(),
        decreases p.remaining(),
    {
        match p.nth(0) {
            SyntaxKind::Dot => {
                p.start_node_at(checkpoint, SyntaxKind::Expression);
                p.finish_node();
                p.start_node_at(checkpoint, SyntaxKind::MemberAccess);
                let ghost dot_at = p.pos();
                p.consume();  // '.'
                assert(p.token_seq()[dot_at].kind == SyntaxKind::Dot);
                if !p.expect(SyntaxKind::Identifier) {
                    p.finish_node();
                    p.finish_node();
                    return false;
                }
                p.finish_node();
            },
            SyntaxKind::LParent => {
                p.start_node_at(checkpoint, SyntaxKind::Expression);
                p.finish_node();
                p.start_node_at(checkpoint, SyntaxKind::FunctionCallExpression);
                parse_function_arguments(p);
                p.finish_node();
            },
            SyntaxKind::LBracket => {
                p.start_node_at(checkpoint, SyntaxKind::Expression);
                p.finish_node();
                p.start_node_at(checkpoint, SyntaxKind::IndexExpression);
                p.expect(SyntaxKind::LBracket);
                parse_expression(p);
                p.expect(SyntaxKind::RBracket);
                p.finish_node();
            },
            _ => break,
        }
    }

    if precedence.level() >= OperatorPrecedence::Mul.level() {
        p.finish_node();
        return true;
    }

    while p.nth(0) == SyntaxKind::Star || p.nth(0) == SyntaxKind::Div
        invariant
            p.wf(),
            p0 == *old(p),
            starts_expression(p0.kind_at(0)),
            p1.event_seq() == p0.event_seq().push(Event::StartNode(SyntaxKind::Expression)),
            p1.moved(&*p, 0),
            p0.moved(&*p, 1),
            forall|a: DefaultParser, d: int| #[trigger] a.moved(&p0, d) ==> a.moved(&*p, d + 1),
            p.pos() > p0.pos(),
            p0.event_seq().len() < checkpoint <= p.event_seq().len(),
        decreases p.remaining(),
    {
        p.start_node_at(checkpoint, SyntaxKind::Expression);
        p.finish_node();
        p.start_node_at(checkpoint, SyntaxKind::BinaryExpression);
        p.consume();
        parse_expression_helper(p, OperatorPrecedence::Mul);
        p.finish_node();
    }

    if precedence.level() >= OperatorPrecedence::Add.level() {
        p.finish_node();
        return true;
    }

    while p.nth(0) == SyntaxKind::Plus || p.nth(0) == SyntaxKind::Minus
        invariant
            p.wf(),
            p0 == *old(p),
            starts_expression(p0.kind_at(0)),
            p1.event_seq() == p0.event_seq().push(Event::StartNode(SyntaxKind::Expression)),
            p1.moved(&*p, 0),
            p0.moved(&*p, 1),
            forall|a: DefaultParser, d: int| #[trigger] a.moved(&p0, d) ==> a.moved(&*p, d + 1),
            p.pos() > p0.pos(),
            p0.event_seq().len() < checkpoint <= p.event_seq().len(),
        decreases p.remaining(),
    {
        p.start_node_at(checkpoint, SyntaxKind::Expression);
        p.finish_node();
        p.start_node_at(checkpoint, SyntaxKind::BinaryExpression);
        p.consume();
        parse_expression_helper(p, OperatorPrecedence::Add);
        p.finish_node();
    }

    if precedence.level() > OperatorPrecedence::Equality.level() {
        p.finish_node();
        return true;
    }

    let k = p.nth(0);
    if k == SyntaxKind::LessEqual || k == SyntaxKind::GreaterEqual || k == SyntaxKind::EqualEqual
        || k == SyntaxKind::NotEqual || k == SyntaxKind::LAngle || k == SyntaxKind::RAngle {
        if precedence == OperatorPrecedence::Equality {
            p.error(ParseError::AmbiguousEquality);
        }
        p.start_node_at(checkpoint, SyntaxKind::Expression);
        p.finish_node();
        p.start_node_at(checkpoint, SyntaxKind::BinaryExpression);
        p.consume();
        parse_expression_helper(p, OperatorPrecedence::Equality);
        p.finish_node();
    }

    if precedence.level() >= OperatorPrecedence::Logical.level() {
        p.finish_node();
        return true;
    }

    let mut prev_logical_op: Option<SyntaxKind> = None;
    while p.nth(0) == SyntaxKind::AndAnd || p.nth(0) == SyntaxKind::OrOr
        invariant
            p.wf(),
            p0 == *old(p),
            starts_expression(p0.kind_at(0)),
            p1.event_seq() == p0.event_seq().push(Event::StartNode(SyntaxKind::Expression)),
            p1.moved(&*p, 0),
            p0.moved(&*p, 1),
            forall|a: DefaultParser, d: int| #[trigger] a.moved(&p0, d) ==> a.moved(&*p, d + 1),
            p.pos() > p0.pos(),
            p0.event_seq().len() < checkpoint <= p.event_seq().len(),
        decreases p.remaining(),
    {
        let op = p.nth(0);
        match prev_logical_op {
            Some(prev) => {
                if prev != op {
                    p.error(ParseError::AmbiguousLogical);
                    prev_logical_op = None;
                }
            },
            None => {
                prev_logical_op = Some(op);
            },
        }
        p.start_node_at(checkpoint, SyntaxKind::Expression);
        p.finish_node();
        p.start_node_at(checkpoint, SyntaxKind::BinaryExpression);
        p.consume();
        parse_expression_helper(p, OperatorPrecedence::Logical);
        p.finish_node();
    }

    if p.nth(0) == SyntaxKind::Question {
        p.start_node_at(checkpoint, SyntaxKind::Expression);
        p.finish_node();
        p.start_node_at(checkpoint, SyntaxKind::ConditionalExpression);
        p.consume();
        parse_expression(p);
        p.expect(SyntaxKind::Colon);
        parse_expression(p);
        p.finish_node();
    }
    p.finish_node();
    true
}

/// Parses `a.b.c` into a `QualifiedName` node.
pub fn parse_qualified_name(p: &mut DefaultParser) -> (r: bool)
    requires
        old(p).wf(),
    ensures
        old(p).advanced_to(final(p)),
        forall|a: DefaultParser, d: int| #[trigger] a.moved(&*old(p), d) ==> a.moved(&*final(p), d),
        r == (old(p).kind_at(0) == SyntaxKind::Identifier),
        r ==> final(p).pos() > old(p).pos(),
        !r ==> final(p).pos() == old(p).pos(),
{
    proof {
        lemma_moved_refl(*p);
    }
    let ghost p0 = *p;
    p.start_node(SyntaxKind::QualifiedName);
    if !p.expect(SyntaxKind::Identifier) {
        p.finish_node();
        return false;
    }
    loop
        invariant
            p.wf(),
            p0 == *old(p),
            p0.moved(&*p, 1),
            forall|a: DefaultParser, d: int| #[trigger] a.moved(&p0, d) ==> a.moved(&*p, d + 1),
            p.pos() > p0.pos(),
        decreases p.remaining(),
    {
        if p.nth(0) != SyntaxKind::Dot {
            break;
        }
        p.consume();
        p.expect(SyntaxKind::Identifier);
    }
    p.finish_node();
    true
}

/// Parses `@image-url("...")` or `@linear-gradient(...)`; any other word
/// after `@` is an error.
fn parse_at_keyword(p: &mut DefaultParser)
    requires
        old(p).wf(),
        old(p).kind_at(0) == SyntaxKind::At,
    ensures
        old(p).advanced_to(final(p)),
        forall|a: DefaultParser, d: int| #[trigger] a.moved(&*old(p), d) ==> a.moved(&*final(p), d),
        final(p).pos() > old(p).pos(),
    decreases old(p).remaining(), 2nat,
{
    proof {
        lemma_moved_refl(*p);
    }
    proof {
        reveal_strlit("image-url");
        reveal_strlit("image_url");
        reveal_strlit("linear-gradient");
        reveal_strlit("linear_gradient");
    }
    let word = p.nth_text(1);
    if text_eq(word, "image-url") || text_eq(word, "image_url") {
        p.start_node(SyntaxKind::AtImageUrl);
        p.consume();  // "@"
        p.consume();  // "image-url"
        p.expect(SyntaxKind::LParent);
        p.expect(SyntaxKind::StringLiteral);
        p.expect(SyntaxKind::RParent);
        p.finish_node();
    } else if text_eq(word, "linear-gradient") || text_eq(word, "linear_gradient") {
        parse_at_linear_gradient(p);
    } else {
        p.consume();
        p.error(ParseError::UnknownAtKeyword);
    }
}

/// Parses `[a, b, c]` into an `Array` node; a trailing comma is allowed.
fn parse_array(p: &mut DefaultParser)
    requires
        old(p).wf(),
        old(p).kind_at(0) == SyntaxKind::LBracket,
    ensures
        old(p).advanced_to(final(p)),
        forall|a: DefaultParser, d: int| #[trigger] a.moved(&*old(p), d) ==> a.moved(&*final(p), d),
        final(p).pos() > old(p).pos(),
    decreases old(p).remaining(), 2nat,
{
    proof {
        lemma_moved_refl(*p);
    }
    let ghost p0 = *p;
    p.start_node(SyntaxKind::Array);
    p.expect(SyntaxKind::LBracket);
    while p.nth(0) != SyntaxKind::RBracket
        invariant
            p.wf(),
            p0 == *old(p),
            p0.moved(&*p, 1),
            forall|a: DefaultParser, d: int| #[trigger] a.moved(&p0, d) ==> a.moved(&*p, d + 1),
            p.pos() > p0.pos(),
        decreases p.remaining(),
    {
        parse_expression(p);
        if !p.test(SyntaxKind::Comma) {
            break;
        }
    }
    p.expect(SyntaxKind::RBracket);
    p.finish_node();
}

/// Parses `{a: 1, b: 2}` into an `ObjectLiteral` node of `ObjectMember`s.
fn parse_object_notation(p: &mut DefaultParser)
    requires
        old(p).wf(),
        old(p).kind_at(0) == SyntaxKind::LBrace,
    ensures
        old(p).advanced_to(final(p)),
        forall|a: DefaultParser, d: int| #[trigger] a.moved(&*old(p), d) ==> a.moved(&*final(p), d),
        final(p).pos() > old(p).pos(),
    decreases old(p).remaining(), 2nat,
{
    proof {
        lemma_moved_refl(*p);
    }
    let ghost p0 = *p;
    p.start_node(SyntaxKind::ObjectLiteral);
    p.expect(SyntaxKind::LBrace);
    while p.nth(0) != SyntaxKind::RBrace
        invariant
            p.wf(),
            p0 == *old(p),
            p0.moved(&*p, 1),
            forall|a: DefaultParser, d: int| #[trigger] a.moved(&p0, d) ==> a.moved(&*p, d + 1),
            p.pos() > p0.pos(),
        decreases p.remaining(),
    {
        p.start_node(SyntaxKind::ObjectMember);
        p.expect(SyntaxKind::Identifier);
        p.expect(SyntaxKind::Colon);
        parse_expression(p);
        if !p.test(SyntaxKind::Comma) {
            p.finish_node();
            break;
        }
        p.finish_node();
    }
    p.expect(SyntaxKind::RBrace);
    p.finish_node();
}

/// Parses `(a, b, c)`, the arguments of a call; a trailing comma is allowed.
fn parse_function_arguments(p: &mut DefaultParser)
    requires
        old(p).wf(),
        old(p).kind_at(0) == SyntaxKind::LParent,
    ensures
        old(p).advanced_to(final(p)),
        forall|a: DefaultParser, d: int| #[trigger] a.moved(&*old(p), d) ==> a.moved(&*final(p), d),
        final(p).pos() > old(p).pos(),
    decreases old(p).remaining(), 2nat,
{
    proof {
        lemma_moved_refl(*p);
    }
    let ghost p0 = *p;
    p.expect(SyntaxKind::LParent);
    while p.nth(0) != SyntaxKind::RParent
        invariant
            p.wf(),
            p0 == *old(p),
            p0.moved(&*p, 0),
            forall|a: DefaultParser, d: int| #[trigger] a.moved(&p0, d) ==> a.moved(&*p, d),
            p.pos() > p0.pos(),
        decreases p.remaining(),
    {
        parse_expression(p);
        if !p.test(SyntaxKind::Comma) {
            break;
        }
    }
    p.expect(SyntaxKind::RParent);
}

/// Parses a string template `"a\{x}b\{y}c"`, split by the lexer into string
/// pieces around the embedded expressions, into a `StringTemplate` node.
fn parse_template_string(p: &mut DefaultParser)
    requires
        old(p).wf(),
        old(p).kind_at(0) == SyntaxKind::StringLiteral,
    ensures
        old(p).advanced_to(final(p)),
        forall|a: DefaultParser, d: int| #[trigger] a.moved(&*old(p), d) ==> a.moved(&*final(p), d),
        final(p).pos() > old(p).pos(),
    decreases old(p).remaining(), 2nat,
{
    proof {
        lemma_moved_refl(*p);
    }
    let ghost p0 = *p;
    p.start_node(SyntaxKind::StringTemplate);
    p.start_node(SyntaxKind::Expression);
    p.consume();
    p.finish_node();
    loop
        invariant
            p.wf(),
            p0 == *old(p),
            p0.moved(&*p, 1),
            forall|a: DefaultParser, d: int| #[trigger] a.moved(&p0, d) ==> a.moved(&*p, d + 1),
            p.pos() > p0.pos(),
        decreases p.remaining(),
    {
        parse_expression(p);
        let kind = p.nth(0);
        let text = p.nth_text(0);
        let closes = text_starts_with(text, '}');
        let cont = text_ends_with(text, '{');
        if kind != SyntaxKind::StringLiteral || !closes {
            p.error(ParseError::InvalidStringTemplate);
        }
        p.start_node(SyntaxKind::Expression);
        p.consume();
        p.finish_node();
        if !cont {
            break;
        }
    }
    p.finish_node();
}

/// Parses `@linear-gradient(angle, color stop, ...)` into an
/// `AtLinearGradient` node.
fn parse_at_linear_gradient(p: &mut DefaultParser)
    requires
        old(p).wf(),
        old(p).kind_at(0) == SyntaxKind::At,
    ensures
        old(p).advanced_to(final(p)),
        forall|a: DefaultParser, d: int| #[trigger] a.moved(&*old(p), d) ==> a.moved(&*final(p), d),
        final(p).pos() > old(p).pos(),
    decreases old(p).remaining(), 1nat,
{
    proof {
        lemma_moved_refl(*p);
    }
    let ghost p0 = *p;
    p.start_node(SyntaxKind::AtLinearGradient);
    p.expect(SyntaxKind::At);
    p.consume();  // "linear-gradient"
    p.expect(SyntaxKind::LParent);
    while !p.test(SyntaxKind::RParent)
        invariant
            p.wf(),
            p0 == *old(p),
            p0.moved(&*p, 1),
            forall|a: DefaultParser, d: int| #[trigger] a.moved(&p0, d) ==> a.moved(&*p, d + 1),
            p.pos() > p0.pos(),
        decreases p.remaining(),
    {
        if !parse_expression(p) {
            p.finish_node();
            return;
        }
        p.test(SyntaxKind::Comma);
    }
    p.finish_node();
}

} // verus!
