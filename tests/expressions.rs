use slint_model::expressions::{parse_expression, parse_qualified_name};
use slint_model::parser::{DefaultParser, Diagnostic, Event, ParseError, SyntaxKind, Token};

fn tok(kind: SyntaxKind, text: &str) -> Token {
    Token { kind, text: text.to_string() }
}

fn attached(events: &[Event]) -> Vec<usize> {
    events
        .iter()
        .filter_map(|e| match e {
            Event::Token(i) => Some(*i),
            _ => None,
        })
        .collect()
}

fn balanced(events: &[Event]) -> bool {
    let mut depth: i64 = 0;
    for e in events {
        match e {
            Event::StartNode(_) => depth += 1,
            Event::FinishNode => depth -= 1,
            Event::Token(_) => {}
        }
        if depth < 0 {
            return false;
        }
    }
    depth == 0
}

fn parse(tokens: Vec<Token>) -> (bool, DefaultParser) {
    let mut p = DefaultParser::new(tokens);
    let r = parse_expression(&mut p);
    (r, p)
}

#[test]
fn addition_nests_operands() {
    let (r, p) = parse(vec![tok(SyntaxKind::NumberLiteral, "4"), tok(SyntaxKind::Plus, "+"), tok(SyntaxKind::NumberLiteral, "4")]);
    assert!(r);
    assert_eq!(p.position(), 3);
    assert_eq!(
        *p.events(),
        vec![
            Event::StartNode(SyntaxKind::Expression),
            Event::StartNode(SyntaxKind::BinaryExpression),
            Event::StartNode(SyntaxKind::Expression),
            Event::Token(0),
            Event::FinishNode,
            Event::Token(1),
            Event::StartNode(SyntaxKind::Expression),
            Event::Token(2),
            Event::FinishNode,
            Event::FinishNode,
            Event::FinishNode,
        ]
    );
    assert!(p.diagnostics().is_empty());
}

#[test]
fn invalid_start_consumes_nothing() {
    let (r, p) = parse(vec![tok(SyntaxKind::RParent, ")")]);
    assert!(!r);
    assert_eq!(p.position(), 0);
    assert_eq!(*p.events(), vec![Event::StartNode(SyntaxKind::Expression), Event::FinishNode]);
    assert_eq!(
        *p.diagnostics(),
        vec![Diagnostic { position: 0, error: ParseError::InvalidExpression }]
    );
}

#[test]
fn empty_input_is_invalid() {
    let (r, p) = parse(Vec::new());
    assert!(!r);
    assert_eq!(p.diagnostics().len(), 1);
}

#[test]
fn precedence_of_mul_over_add() {
    // 1 + 2 * 3
    let (r, p) = parse(vec![
        tok(SyntaxKind::NumberLiteral, "1"),
        tok(SyntaxKind::Plus, "+"),
        tok(SyntaxKind::NumberLiteral, "2"),
        tok(SyntaxKind::Star, "*"),
        tok(SyntaxKind::NumberLiteral, "3"),
    ]);
    assert!(r);
    assert_eq!(p.position(), 5);
    assert_eq!(attached(p.events()), vec![0, 1, 2, 3, 4]);
    assert!(balanced(p.events()));
    // The multiplication forms its own binary node inside the right operand.
    let binaries = p.events().iter().filter(|e| **e == Event::StartNode(SyntaxKind::BinaryExpression)).count();
    assert_eq!(binaries, 2);
    assert_eq!(p.events()[1], Event::StartNode(SyntaxKind::BinaryExpression));
}

#[test]
fn chained_equality_is_reported() {
    // a == b == c
    let (r, p) = parse(vec![
        tok(SyntaxKind::Identifier, "a"),
        tok(SyntaxKind::EqualEqual, "=="),
        tok(SyntaxKind::Identifier, "b"),
        tok(SyntaxKind::EqualEqual, "=="),
        tok(SyntaxKind::Identifier, "c"),
    ]);
    assert!(r);
    assert_eq!(p.position(), 5);
    assert_eq!(
        *p.diagnostics(),
        vec![Diagnostic { position: 3, error: ParseError::AmbiguousEquality }]
    );
}

#[test]
fn mixed_logical_operators_are_reported() {
    // a && b || c
    let (r, p) = parse(vec![
        tok(SyntaxKind::Identifier, "a"),
        tok(SyntaxKind::AndAnd, "&&"),
        tok(SyntaxKind::Identifier, "b"),
        tok(SyntaxKind::OrOr, "||"),
        tok(SyntaxKind::Identifier, "c"),
    ]);
    assert!(r);
    assert_eq!(
        *p.diagnostics(),
        vec![Diagnostic { position: 3, error: ParseError::AmbiguousLogical }]
    );
    assert!(balanced(p.events()));
}

#[test]
fn conditional_member_call_and_index() {
    // cond ? (x).y : f(a, b)[0]
    let tokens = vec![
        tok(SyntaxKind::Identifier, "cond"),
        tok(SyntaxKind::Question, "?"),
        tok(SyntaxKind::LParent, "("),
        tok(SyntaxKind::Identifier, "x"),
        tok(SyntaxKind::RParent, ")"),
        tok(SyntaxKind::Dot, "."),
        tok(SyntaxKind::Identifier, "y"),
        tok(SyntaxKind::Colon, ":"),
        tok(SyntaxKind::Identifier, "f"),
        tok(SyntaxKind::LParent, "("),
        tok(SyntaxKind::Identifier, "a"),
        tok(SyntaxKind::Comma, ","),
        tok(SyntaxKind::Identifier, "b"),
        tok(SyntaxKind::RParent, ")"),
        tok(SyntaxKind::LBracket, "["),
        tok(SyntaxKind::NumberLiteral, "0"),
        tok(SyntaxKind::RBracket, "]"),
    ];
    let n = tokens.len();
    let (r, p) = parse(tokens);
    assert!(r);
    assert_eq!(p.position(), n);
    assert_eq!(attached(p.events()), (0..n).collect::<Vec<_>>());
    assert!(balanced(p.events()));
    assert!(p.diagnostics().is_empty());
    for kind in [SyntaxKind::ConditionalExpression, SyntaxKind::MemberAccess, SyntaxKind::FunctionCallExpression, SyntaxKind::IndexExpression] {
        assert!(p.events().contains(&Event::StartNode(kind)));
    }
}

#[test]
fn member_access_needs_identifier() {
    let (r, p) = parse(vec![tok(SyntaxKind::LParent, "("), tok(SyntaxKind::Identifier, "a"), tok(SyntaxKind::RParent, ")"), tok(SyntaxKind::Dot, "."), tok(SyntaxKind::NumberLiteral, "3")]);
    assert!(!r);
    assert_eq!(p.position(), 4);
    assert_eq!(
        *p.diagnostics(),
        vec![Diagnostic { position: 4, error: ParseError::Expected(SyntaxKind::Identifier) }]
    );
    assert!(balanced(p.events()));
}

#[test]
fn image_url_keyword() {
    let (r, p) = parse(vec![
        tok(SyntaxKind::At, "@"),
        tok(SyntaxKind::Identifier, "image-url"),
        tok(SyntaxKind::LParent, "("),
        tok(SyntaxKind::StringLiteral, "\"a.png\""),
        tok(SyntaxKind::RParent, ")"),
    ]);
    assert!(r);
    assert_eq!(
        *p.events(),
        vec![
            Event::StartNode(SyntaxKind::Expression),
            Event::StartNode(SyntaxKind::AtImageUrl),
            Event::Token(0),
            Event::Token(1),
            Event::Token(2),
            Event::Token(3),
            Event::Token(4),
            Event::FinishNode,
            Event::FinishNode,
        ]
    );
}

#[test]
fn linear_gradient_keyword() {
    let tokens = vec![
        tok(SyntaxKind::At, "@"),
        tok(SyntaxKind::Identifier, "linear_gradient"),
        tok(SyntaxKind::LParent, "("),
        tok(SyntaxKind::NumberLiteral, "90deg"),
        tok(SyntaxKind::Comma, ","),
        tok(SyntaxKind::ColorLiteral, "#333"),
        tok(SyntaxKind::NumberLiteral, "50%"),
        tok(SyntaxKind::RParent, ")"),
    ];
    let (r, p) = parse(tokens);
    assert!(r);
    assert_eq!(p.position(), 8);
    assert!(p.events().contains(&Event::StartNode(SyntaxKind::AtLinearGradient)));
    assert!(p.diagnostics().is_empty());
    assert!(balanced(p.events()));
}

#[test]
fn unknown_at_keyword_is_reported() {
    let (r, p) = parse(vec![tok(SyntaxKind::At, "@"), tok(SyntaxKind::Identifier, "radial")]);
    assert!(r);
    assert_eq!(p.position(), 1);
    assert_eq!(
        *p.diagnostics(),
        vec![Diagnostic { position: 1, error: ParseError::UnknownAtKeyword }]
    );
}

#[test]
fn array_and_object_literals() {
    // [a, {b: 1,},]
    let tokens = vec![
        tok(SyntaxKind::LBracket, "["),
        tok(SyntaxKind::Identifier, "a"),
        tok(SyntaxKind::Comma, ","),
        tok(SyntaxKind::LBrace, "{"),
        tok(SyntaxKind::Identifier, "b"),
        tok(SyntaxKind::Colon, ":"),
        tok(SyntaxKind::NumberLiteral, "1"),
        tok(SyntaxKind::Comma, ","),
        tok(SyntaxKind::RBrace, "}"),
        tok(SyntaxKind::Comma, ","),
        tok(SyntaxKind::RBracket, "]"),
    ];
    let (r, p) = parse(tokens);
    assert!(r);
    assert_eq!(p.position(), 11);
    assert!(p.diagnostics().is_empty());
    for kind in [SyntaxKind::Array, SyntaxKind::ObjectLiteral, SyntaxKind::ObjectMember] {
        assert!(p.events().contains(&Event::StartNode(kind)));
    }
    assert!(balanced(p.events()));
}

#[test]
fn string_template() {
    let tokens = vec![
        tok(SyntaxKind::StringLiteral, "\"foo\\{"),
        tok(SyntaxKind::Identifier, "bar"),
        tok(SyntaxKind::StringLiteral, "}baz\""),
    ];
    let (r, p) = parse(tokens);
    assert!(r);
    assert_eq!(p.position(), 3);
    assert!(p.diagnostics().is_empty());
    assert_eq!(p.events()[1], Event::StartNode(SyntaxKind::StringTemplate));
    assert!(balanced(p.events()));
}

#[test]
fn unterminated_string_template_is_reported() {
    let (r, p) = parse(vec![tok(SyntaxKind::StringLiteral, "\"foo\\{"), tok(SyntaxKind::Identifier, "bar")]);
    assert!(r);
    assert_eq!(
        *p.diagnostics(),
        vec![Diagnostic { position: 2, error: ParseError::InvalidStringTemplate }]
    );
}

#[test]
fn qualified_name_takes_dotted_identifiers() {
    let mut p = DefaultParser::new(vec![tok(SyntaxKind::Identifier, "a"), tok(SyntaxKind::Dot, "."), tok(SyntaxKind::Identifier, "b"), tok(SyntaxKind::Comma, ",")]);
    assert!(parse_qualified_name(&mut p));
    assert_eq!(p.position(), 3);
}

#[test]
fn unary_minus() {
    let (r, p) = parse(vec![tok(SyntaxKind::Minus, "-"), tok(SyntaxKind::NumberLiteral, "3"), tok(SyntaxKind::Star, "*"), tok(SyntaxKind::NumberLiteral, "2")]);
    assert!(r);
    assert_eq!(p.position(), 4);
    // The product wraps the negated operand: -3 * 2 is (-3) * 2.
    assert_eq!(p.events()[1], Event::StartNode(SyntaxKind::BinaryExpression));
    assert_eq!(p.events()[3], Event::StartNode(SyntaxKind::UnaryOpExpression));
    assert!(balanced(p.events()));
}

#[test]
fn error_messages() {
    assert_eq!(ParseError::InvalidExpression.message(), "invalid expression");
    assert_eq!(
        ParseError::AmbiguousLogical.message(),
        "Use parentheses to disambiguate between && and ||"
    );
}
