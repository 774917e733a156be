//! The token stream and the event-producing parser that the grammar
//! functions drive.
//!
//! The parser reads a sequence of tokens (whitespace and comments already
//! removed) and records a flat list of events: a node starts, a token is
//! attached to the current node, a node ends. A checkpoint lets a later
//! decision wrap what was already parsed into a new node, which is how binary
//! and postfix expressions get their left operand.

use vstd::prelude::*;

verus! {

/// The kinds of tokens and of syntax nodes.
#[derive(Clone, Copy, Debug, PartialEq, Eq, Structural)]
pub enum SyntaxKind {
    /// Past the last token.
    Eof,
    // Tokens
    Identifier,
    StringLiteral,
    NumberLiteral,
    ColorLiteral,
    LParent,
    RParent,
    LBracket,
    RBracket,
    LBrace,
    RBrace,
    Plus,
    Minus,
    Star,
    Div,
    Bang,
    At,
    Dot,
    Comma,
    Colon,
    Question,
    AndAnd,
    OrOr,
    LessEqual,
    GreaterEqual,
    EqualEqual,
    NotEqual,
    LAngle,
    RAngle,
    // Nodes
    Expression,
    QualifiedName,
    UnaryOpExpression,
    BinaryExpression,
    ConditionalExpression,
    MemberAccess,
    FunctionCallExpression,
    IndexExpression,
    Array,
    ObjectLiteral,
    ObjectMember,
    StringTemplate,
    AtImageUrl,
    AtLinearGradient,
}

/// A token: its kind and its text.
#[derive(Clone, Debug, PartialEq, Eq)]
pub struct Token {
    pub kind: SyntaxKind,
    pub text: String,
}

/// One step of the parse.
#[derive(Clone, Copy, Debug, PartialEq, Eq, Structural)]
pub enum Event {
    /// A node of this kind starts.
    StartNode(SyntaxKind),
    /// The innermost open node ends.
    FinishNode,
    /// The token at this index is attached to the innermost open node.
    Token(usize),
}

/// What went wrong at a position of the token stream.
#[derive(Clone, Copy, Debug, PartialEq, Eq, Structural)]
pub enum ParseError {
    /// The token cannot start an expression.
    InvalidExpression,
    /// A token of this kind was expected.
    Expected(SyntaxKind),
    /// `@` is followed by neither `image-url` nor `linear-gradient`.
    UnknownAtKeyword,
    /// Two equality operators follow each other without parentheses.
    AmbiguousEquality,
    /// `&&` and `||` are mixed without parentheses.
    AmbiguousLogical,
    /// A string template is not continued by a string literal.
    InvalidStringTemplate,
}

impl ParseError {
    /// A human readable description.
    pub fn message(&self) -> &'static str {
        match self {
            ParseError::InvalidExpression => "invalid expression",
            ParseError::Expected(_) => "syntax error: unexpected token",
            ParseError::UnknownAtKeyword => "Expected 'image-url' or 'linear-gradient' after '@'",
            ParseError::AmbiguousEquality => {
                "Use parentheses to disambiguate equality expression on the same level"
            },
            ParseError::AmbiguousLogical => "Use parentheses to disambiguate between && and ||",
            ParseError::InvalidStringTemplate => "Error while parsing string template",
        }
    }
}

/// A problem found by the parser, with the index of the token it was found at.
#[derive(Clone, Copy, Debug, PartialEq, Eq, Structural)]
pub struct Diagnostic {
    pub position: usize,
    pub error: ParseError,
}

/// How far a single event moves the nesting depth.
pub open spec fn step(e: Event) -> int {
    match e {
        Event::StartNode(_) => 1,
        Event::FinishNode => -1,
        Event::Token(_) => 0,
    }
}

/// Open nodes minus closed nodes.
pub open spec fn depth(s: Seq<Event>) -> int
    decreases s.len(),
{
    if s.len() == 0 {
        0
    } else {
        depth(s.drop_last()) + step(s.last())
    }
}

/// The indices of the tokens that the events attach, in order.
pub open spec fn tokens_in(s: Seq<Event>) -> Seq<usize>
    decreases s.len(),
{
    if s.len() == 0 {
        Seq::empty()
    } else {
        match s.last() {
            Event::Token(i) => tokens_in(s.drop_last()).push(i),
            _ => tokens_in(s.drop_last()),
        }
    }
}

/// The indices `from, from + 1, ..., to - 1`.
pub open spec fn index_range(from: int, to: int) -> Seq<usize> {
    Seq::new((to - from) as nat, |k: int| (from + k) as usize)
}

/// Whether a token of this kind can start an expression.
pub open spec fn starts_expression(k: SyntaxKind) -> bool {
    match k {
        SyntaxKind::Identifier | SyntaxKind::StringLiteral | SyntaxKind::NumberLiteral
        | SyntaxKind::ColorLiteral | SyntaxKind::LParent | SyntaxKind::LBracket
        | SyntaxKind::LBrace | SyntaxKind::Plus | SyntaxKind::Minus | SyntaxKind::Bang
        | SyntaxKind::At => true,
        _ => false,
    }
}

/// Inserting a node start leaves the attached tokens as they were and
/// deepens the whole sequence by one.
pub proof fn lemma_insert_start(s: Seq<Event>, c: int, k: SyntaxKind)
    requires
        0 <= c <= s.len(),
    ensures
        tokens_in(s.insert(c, Event::StartNode(k))) == tokens_in(s),
        depth(s.insert(c, Event::StartNode(k))) == depth(s) + 1,
    decreases s.len(),
{
    let t = s.insert(c, Event::StartNode(k));
    if c == s.len() {
        assert(t.drop_last() =~= s);
    } else {
        assert(t.drop_last() =~= s.drop_last().insert(c, Event::StartNode(k)));
        assert(t.last() == s.last());
        lemma_insert_start(s.drop_last(), c, k);
    }
}

/// The attached tokens and the depth of a concatenation.
pub proof fn lemma_concat(a: Seq<Event>, b: Seq<Event>)
    ensures
        tokens_in(a + b) == tokens_in(a) + tokens_in(b),
        depth(a + b) == depth(a) + depth(b),
    decreases b.len(),
{
    if b.len() == 0 {
        assert(a + b =~= a);
        assert(tokens_in(a) + tokens_in(b) =~= tokens_in(a));
    } else {
        assert((a + b).drop_last() =~= a + b.drop_last());
        lemma_concat(a, b.drop_last());
        match b.last() {
            Event::Token(i) => {
                assert(tokens_in(a) + tokens_in(b) =~= (tokens_in(a) + tokens_in(b.drop_last())).push(i));
            },
            _ => {},
        }
    }
}

/// A parser over a fixed sequence of tokens.
pub struct DefaultParser {
    tokens: Vec<Token>,
    cursor: usize,
    events: Vec<Event>,
    diagnostics: Vec<Diagnostic>,
}

impl DefaultParser {
    /// The tokens.
    pub closed spec fn token_seq(&self) -> Seq<Token> {
        self.tokens@
    }

    /// The index of the next token.
    pub closed spec fn pos(&self) -> int {
        self.cursor as int
    }

    /// The events recorded so far.
    pub closed spec fn event_seq(&self) -> Seq<Event> {
        self.events@
    }

    /// The problems found so far.
    pub closed spec fn diagnostic_seq(&self) -> Seq<Diagnostic> {
        self.diagnostics@
    }

    /// The cursor stands within the tokens.
    pub open spec fn wf(&self) -> bool {
        0 <= self.pos() <= self.token_seq().len()
    }

    /// The kind of the token `n` places ahead, `Eof` past the end.
    pub open spec fn kind_at(&self, n: int) -> SyntaxKind {
        if self.pos() + n < self.token_seq().len() {
            self.token_seq()[self.pos() + n].kind
        } else {
            SyntaxKind::Eof
        }
    }

    /// How many tokens remain.
    pub open spec fn remaining(&self) -> nat {
        (self.token_seq().len() - self.pos()) as nat
    }

    /// `after` is this parser later on: same tokens, cursor not moved back,
    /// earlier events untouched, exactly the tokens passed over attached in
    /// between, and the nesting depth changed by `d`.
    pub open spec fn moved(&self, after: &DefaultParser, d: int) -> bool {
        &&& after.wf()
        &&& after.token_seq() == self.token_seq()
        &&& self.pos() <= after.pos()
        &&& self.event_seq().len() <= after.event_seq().len()
        &&& after.event_seq().subrange(0, self.event_seq().len() as int) == self.event_seq()
        &&& tokens_in(after.event_seq()) == tokens_in(self.event_seq()) + index_range(
            self.pos(),
            after.pos(),
        )
        &&& depth(after.event_seq()) == depth(self.event_seq()) + d
        &&& self.diagnostic_seq().is_prefix_of(after.diagnostic_seq())
    }

    /// `after` is this parser later on, with as many node ends as node
    /// starts recorded in between.
    pub open spec fn advanced_to(&self, after: &DefaultParser) -> bool {
        self.moved(after, 0)
    }

    /// A parser at the first of `tokens`, with nothing recorded.
    pub fn new(tokens: Vec<Token>) -> (r: Self)
        ensures
            r.wf(),
            r.token_seq() == tokens@,
            r.pos() == 0,
            r.event_seq() == Seq::<Event>::empty(),
            r.diagnostic_seq() == Seq::<Diagnostic>::empty(),
    {
        DefaultParser { tokens, cursor: 0, events: Vec::new(), diagnostics: Vec::new() }
    }

    /// The events recorded so far.
    pub fn events(&self) -> (r: &Vec<Event>)
        ensures
            r@ == self.event_seq(),
    {
        &self.events
    }

    /// The problems found so far.
    pub fn diagnostics(&self) -> (r: &Vec<Diagnostic>)
        ensures
            r@ == self.diagnostic_seq(),
    {
        &self.diagnostics
    }

    /// The index of the next token.
    pub fn position(&self) -> (r: usize)
        ensures
            r == self.pos(),
    {
        self.cursor
    }

    /// The kind of the token `n` places ahead, `Eof` past the end.
    pub fn nth(&self, n: usize) -> (r: SyntaxKind)
        requires
            self.wf(),
        ensures
            r == self.kind_at(n as int),
    {
        if n < self.tokens.len() - self.cursor {
            self.tokens[self.cursor + n].kind
        } else {
            SyntaxKind::Eof
        }
    }

    /// The text of the token `n` places ahead, empty past the end.
    pub fn nth_text(&self, n: usize) -> (r: &str)
        requires
            self.wf(),
        ensures
            self.pos() + n < self.token_seq().len() ==> r@ == self.token_seq()[self.pos()
                + n].text@,
            self.pos() + n >= self.token_seq().len() ==> r@ == Seq::<char>::empty(),
    {
        if n < self.tokens.len() - self.cursor {
            self.tokens[self.cursor + n].text.as_str()
        } else {
            proof {
                reveal_strlit("");
            }
            ""
        }
    }

    /// Attaches the next token to the current node and moves past it; does
    /// nothing at the end.
    pub fn consume(&mut self)
        requires
            old(self).wf(),
        ensures
            old(self).advanced_to(final(self)),
            final(self).event_seq().len() <= old(self).event_seq().len() + 1,
            final(self).diagnostic_seq() == old(self).diagnostic_seq(),
            old(self).pos() < old(self).token_seq().len() ==> final(self).pos() == old(self).pos()
                + 1,
            forall|a: DefaultParser, d: int|
                #[trigger] a.moved(&*old(self), d) ==> a.moved(&*final(self), d),
    {
        if self.cursor < self.tokens.len() {
            let ghost before = self.events@;
            self.events.push(Event::Token(self.cursor));
            self.cursor = self.cursor + 1;
            proof {
                assert(self.events@.drop_last() =~= before);
                assert(index_range(old(self).pos(), self.pos()) =~= seq![old(self).cursor]);
                assert(tokens_in(self.events@) == tokens_in(before).push(old(self).cursor));
                assert(tokens_in(before).push(old(self).cursor) =~= tokens_in(before) + seq![
                    old(self).cursor,
                ]);
                assert(depth(self.events@) == depth(before));
            }
        } else {
            proof {
                assert(index_range(old(self).pos(), self.pos()) =~= Seq::<usize>::empty());
                assert(tokens_in(self.events@) + Seq::<usize>::empty() =~= tokens_in(self.events@));
            }
        }
        proof {
            assert(self.events@.subrange(0, old(self).events@.len() as int) =~= old(self).events@);
            assert forall|a: DefaultParser, d: int| #[trigger] a.moved(&*old(self), d) implies a.moved(
                &*self,
                d + 0,
            ) by {
                lemma_moved_trans(a, *old(self), *self, d, 0);
            }
        }
    }

    /// Records a problem at the cursor.
    pub fn error(&mut self, error: ParseError)
        requires
            old(self).wf(),
        ensures
            final(self).wf(),
            final(self).token_seq() == old(self).token_seq(),
            final(self).pos() == old(self).pos(),
            final(self).event_seq() == old(self).event_seq(),
            final(self).diagnostic_seq() == old(self).diagnostic_seq().push(
                Diagnostic { position: old(self).pos() as usize, error },
            ),
            old(self).advanced_to(final(self)),
            forall|a: DefaultParser, d: int|
                #[trigger] a.moved(&*old(self), d) ==> a.moved(&*final(self), d),
    {
        self.diagnostics.push(Diagnostic { position: self.cursor, error });
        proof {
            assert(index_range(old(self).pos(), self.pos()) =~= Seq::<usize>::empty());
            assert(tokens_in(self.events@) + Seq::<usize>::empty() =~= tokens_in(self.events@));
            assert(self.events@.subrange(0, self.events@.len() as int) =~= self.events@);
            assert forall|a: DefaultParser, d: int| #[trigger] a.moved(&*old(self), d) implies a.moved(
                &*self,
                d + 0,
            ) by {
                lemma_moved_trans(a, *old(self), *self, d, 0);
            }
        }
    }

    /// Consumes the next token if it has kind `kind`.
    pub fn test(&mut self, kind: SyntaxKind) -> (r: bool)
        requires
            old(self).wf(),
        ensures
            old(self).advanced_to(final(self)),
            r == (old(self).kind_at(0) == kind && kind != SyntaxKind::Eof),
            r ==> final(self).pos() == old(self).pos() + 1,
            !r ==> *final(self) == *old(self),
            forall|a: DefaultParser, d: int|
                #[trigger] a.moved(&*old(self), d) ==> a.moved(&*final(self), d),
    {
        if kind != SyntaxKind::Eof && self.nth(0) == kind {
            self.consume();
            true
        } else {
            proof {
                assert(index_range(old(self).pos(), self.pos()) =~= Seq::<usize>::empty());
                assert(tokens_in(self.events@) + Seq::<usize>::empty() =~= tokens_in(self.events@));
                assert(self.events@.subrange(0, self.events@.len() as int) =~= self.events@);
                assert forall|a: DefaultParser, d: int| #[trigger] a.moved(&*old(self), d) implies a.moved(
                    &*self,
                    d + 0,
                ) by {
                    lemma_moved_trans(a, *old(self), *self, d, 0);
                }
            }
            false
        }
    }

    /// Consumes the next token if it has kind `kind`; records that it was
    /// expected otherwise.
    pub fn expect(&mut self, kind: SyntaxKind) -> (r: bool)
        requires
            old(self).wf(),
        ensures
            old(self).advanced_to(final(self)),
            r == (old(self).kind_at(0) == kind && kind != SyntaxKind::Eof),
            r ==> final(self).pos() == old(self).pos() + 1,
            !r ==> final(self).pos() == old(self).pos() && final(self).event_seq() == old(
                self,
            ).event_seq(),
            !r ==> final(self).diagnostic_seq() == old(self).diagnostic_seq().push(
                Diagnostic { position: old(self).pos() as usize, error: ParseError::Expected(kind) },
            ),
            forall|a: DefaultParser, d: int|
                #[trigger] a.moved(&*old(self), d) ==> a.moved(&*final(self), d),
    {
        if self.test(kind) {
            true
        } else {
            self.error(ParseError::Expected(kind));
            false
        }
    }

    /// Where the next event will go, to wrap what follows in a node later.
    pub fn checkpoint(&self) -> (r: usize)
        ensures
            r == self.event_seq().len(),
    {
        self.events.len()
    }

    /// Opens a node of kind `kind`.
    pub fn start_node(&mut self, kind: SyntaxKind)
        requires
            old(self).wf(),
        ensures
            final(self).wf(),
            final(self).token_seq() == old(self).token_seq(),
            final(self).pos() == old(self).pos(),
            final(self).event_seq() == old(self).event_seq().push(Event::StartNode(kind)),
            final(self).diagnostic_seq() == old(self).diagnostic_seq(),
            old(self).moved(final(self), 1),
            forall|a: DefaultParser, d: int|
                #[trigger] a.moved(&*old(self), d) ==> a.moved(&*final(self), d + 1),
    {
        self.events.push(Event::StartNode(kind));
        proof {
            assert(self.events@.drop_last() =~= old(self).events@);
            lemma_push_node(*old(self), *self);
            assert forall|a: DefaultParser, d: int| #[trigger] a.moved(&*old(self), d) implies a.moved(
                &*self,
                d + 1,
            ) by {
                lemma_moved_trans(a, *old(self), *self, d, 1);
            }
        }
    }

    /// Closes the innermost open node.
    pub fn finish_node(&mut self)
        requires
            old(self).wf(),
        ensures
            final(self).wf(),
            final(self).token_seq() == old(self).token_seq(),
            final(self).pos() == old(self).pos(),
            final(self).event_seq() == old(self).event_seq().push(Event::FinishNode),
            final(self).diagnostic_seq() == old(self).diagnostic_seq(),
            old(self).moved(final(self), -1),
            forall|a: DefaultParser, d: int|
                #[trigger] a.moved(&*old(self), d) ==> a.moved(&*final(self), d + -1),
    {
        self.events.push(Event::FinishNode);
        proof {
            assert(self.events@.drop_last() =~= old(self).events@);
            lemma_push_node(*old(self), *self);
            assert forall|a: DefaultParser, d: int| #[trigger] a.moved(&*old(self), d) implies a.moved(
                &*self,
                d + -1,
            ) by {
                lemma_moved_trans(a, *old(self), *self, d, -1);
            }
        }
    }

    /// Opens a node of kind `kind` that starts at `checkpoint`: everything
    /// recorded since becomes its content.
    pub fn start_node_at(&mut self, checkpoint: usize, kind: SyntaxKind)
        requires
            old(self).wf(),
            checkpoint <= old(self).event_seq().len(),
        ensures
            final(self).wf(),
            final(self).token_seq() == old(self).token_seq(),
            final(self).pos() == old(self).pos(),
            final(self).event_seq() == old(self).event_seq().insert(
                checkpoint as int,
                Event::StartNode(kind),
            ),
            final(self).diagnostic_seq() == old(self).diagnostic_seq(),
            forall|a: DefaultParser, d: int|
                #[trigger] a.moved(&*old(self), d) && a.event_seq().len() <= checkpoint ==> a.moved(
                    &*final(self),
                    d + 1,
                ),
    {
        self.events.insert(checkpoint, Event::StartNode(kind));
        proof {
            assert forall|a: DefaultParser, d: int|
                #[trigger] a.moved(&*old(self), d) && a.event_seq().len() <= checkpoint implies a.moved(
                    &*self,
                    d + 1,
                ) by {
                lemma_moved_insert(a, *old(self), *self, checkpoint as int, kind, d);
            }
        }
    }
}

/// Recording a node start or end moves the depth by one step and
/// attaches no token.
pub proof fn lemma_push_node(a: DefaultParser, b: DefaultParser)
    requires
        a.wf(),
        b.token_seq() == a.token_seq(),
        b.pos() == a.pos(),
        b.diagnostic_seq() == a.diagnostic_seq(),
        b.event_seq().len() == a.event_seq().len() + 1,
        b.event_seq().drop_last() == a.event_seq(),
        !(b.event_seq().last() is Token),
    ensures
        a.moved(&b, step(b.event_seq().last())),
{
    assert(b.event_seq().subrange(0, a.event_seq().len() as int) =~= a.event_seq());
    assert(index_range(a.pos(), b.pos()) =~= Seq::<usize>::empty());
    assert(tokens_in(a.event_seq()) + Seq::<usize>::empty() =~= tokens_in(a.event_seq()));
}

/// Staying put is a move by nothing.
pub proof fn lemma_moved_refl(a: DefaultParser)
    requires
        a.wf(),
    ensures
        a.moved(&a, 0),
{
    assert(a.event_seq().subrange(0, a.event_seq().len() as int) =~= a.event_seq());
    assert(index_range(a.pos(), a.pos()) =~= Seq::<usize>::empty());
    assert(tokens_in(a.event_seq()) + Seq::<usize>::empty() =~= tokens_in(a.event_seq()));
}

/// Two moves in a row make one.
pub proof fn lemma_moved_trans(a: DefaultParser, b: DefaultParser, c: DefaultParser, d1: int, d2: int)
    requires
        a.moved(&b, d1),
        b.moved(&c, d2),
    ensures
        a.moved(&c, d1 + d2),
{
    let la = a.event_seq().len() as int;
    let lb = b.event_seq().len() as int;
    assert(c.event_seq().subrange(0, la) =~= c.event_seq().subrange(0, lb).subrange(0, la));
    assert(index_range(a.pos(), b.pos()) + index_range(b.pos(), c.pos()) =~= index_range(
        a.pos(),
        c.pos(),
    ));
    assert(tokens_in(a.event_seq()) + index_range(a.pos(), b.pos()) + index_range(b.pos(), c.pos())
        =~= tokens_in(a.event_seq()) + index_range(a.pos(), c.pos()));
}

/// Wrapping, at a checkpoint taken after `a`, what follows into a new node
/// deepens the move by one and attaches no token.
pub proof fn lemma_moved_insert(a: DefaultParser, b: DefaultParser, c: DefaultParser, cp: int, k: SyntaxKind, d: int)
    requires
        a.moved(&b, d),
        a.event_seq().len() <= cp <= b.event_seq().len(),
        c.wf(),
        c.token_seq() == b.token_seq(),
        c.pos() == b.pos(),
        c.diagnostic_seq() == b.diagnostic_seq(),
        c.event_seq() == b.event_seq().insert(cp, Event::StartNode(k)),
    ensures
        a.moved(&c, d + 1),
{
    lemma_insert_start(b.event_seq(), cp, k);
    let la = a.event_seq().len() as int;
    assert(c.event_seq().subrange(0, la) =~= b.event_seq().subrange(0, la));
}

/// Whether `a` and `b` hold the same characters.
pub fn text_eq(a: &str, b: &str) -> (r: bool)
    ensures
        r == (a@ == b@),
{
    let n = a.unicode_len();
    if n != b.unicode_len() {
        return false;
    }
    let mut i: usize = 0;
    while i < n
        invariant
            n == a@.len() == b@.len(),
            i <= n,
            forall|k: int| 0 <= k < i ==> a@[k] == b@[k],
        decreases n - i,
    {
        if a.get_char(i) != b.get_char(i) {
            return false;
        }
        i = i + 1;
    }
    assert(a@ =~= b@);
    true
}

/// Whether the last character of `a` is `c`.
pub fn text_ends_with(a: &str, c: char) -> (r: bool)
    ensures
        r == (a@.len() > 0 && a@.last() == c),
{
    let n = a.unicode_len();
    n > 0 && a.get_char(n - 1) == c
}

/// Whether the first character of `a` is `c`.
pub fn text_starts_with(a: &str, c: char) -> (r: bool)
    ensures
        r == (a@.len() > 0 && a@[0] == c),
{
    let n = a.unicode_len();
    n > 0 && a.get_char(0) == c
}

} // verus!
