//! The parser: consumes the token sequence (tokenizer output minus
//! spaces) and builds a binary expression tree honoring operator
//! precedence, left-associativity, and bracket nesting.

use vstd::prelude::*;

use crate::error::{result_view, Error, ErrorV};
use crate::tokenizer::{
    dot_count, key_kind, spec_precede, token_wf, tokens_wf, valid_number_keys, Key, Kind, Token,
    TokenV,
};

verus! {

/// An expression-tree slot: either an owned subtree or a leaf token.
#[derive(Debug, PartialEq)]
pub enum Node {
    Ast(Box<Ast>),
    Token(Token),
}

/// A binary expression-tree node: an optional operator token and two
/// optional operand slots. During construction an `Ast` may be
/// partially filled.
#[derive(Debug, PartialEq)]
pub struct Ast {
    pub operator: Option<Token>,
    pub operand_a: Option<Node>,
    pub operand_b: Option<Node>,
}

/// The mathematical shape of a `Node`.
pub enum NodeV {
    Ast(Box<AstV>),
    Token(TokenV),
}

/// The mathematical shape of an `Ast`.
pub struct AstV {
    pub operator: Option<TokenV>,
    pub operand_a: Option<NodeV>,
    pub operand_b: Option<NodeV>,
}

/// The mathematical shape of a node.
pub open spec fn node_view(n: Node) -> NodeV
    decreases n,
{
    match n {
        Node::Ast(b) => NodeV::Ast(Box::new(ast_view(*b))),
        Node::Token(t) => NodeV::Token(t@),
    }
}

/// The mathematical shape of a tree node.
pub open spec fn ast_view(a: Ast) -> AstV
    decreases a,
{
    AstV {
        operator: match a.operator {
            Some(t) => Some(t@),
            None => None,
        },
        operand_a: match a.operand_a {
            Some(n) => Some(node_view(n)),
            None => None,
        },
        operand_b: match a.operand_b {
            Some(n) => Some(node_view(n)),
            None => None,
        },
    }
}

impl View for Node {
    type V = NodeV;

    open spec fn view(&self) -> NodeV {
        node_view(*self)
    }
}

impl DeepView for Node {
    type V = NodeV;

    open spec fn deep_view(&self) -> NodeV {
        node_view(*self)
    }
}

impl View for Ast {
    type V = AstV;

    open spec fn view(&self) -> AstV {
        ast_view(*self)
    }
}

impl DeepView for Ast {
    type V = AstV;

    open spec fn deep_view(&self) -> AstV {
        ast_view(*self)
    }
}

/// Whether a tree slot is well formed: a leaf must be a valid numeral
/// when it claims to be a number, and a subtree must be well formed.
pub open spec fn node_wf(n: NodeV) -> bool
    decreases n,
{
    match n {
        NodeV::Token(t) => t.kind == Kind::Number ==> valid_number_keys(t.keys),
        NodeV::Ast(b) => ast_wf(*b),
    }
}

/// Whether a tree is well formed: operator tokens carry at least one
/// key and every operand slot is well formed.
pub open spec fn ast_wf(a: AstV) -> bool
    decreases a,
{
    &&& match a.operator {
        Some(t) => t.keys.len() > 0,
        None => true,
    }
    &&& match a.operand_a {
        Some(n) => node_wf(n),
        None => true,
    }
    &&& match a.operand_b {
        Some(n) => node_wf(n),
        None => true,
    }
}

/// The distinguished pre-construction state: no operator, no operands.
pub open spec fn ast_is_empty(a: AstV) -> bool {
    a.operator is None && a.operand_a is None && a.operand_b is None
}

/// The implicit zero numeral used for leading signs and lone literals.
pub open spec fn zero_token() -> TokenV {
    TokenV { kind: Kind::Number, keys: seq![Key::Zero] }
}

/// The operator token of a single operator key.
pub open spec fn operator_token(k: Key) -> TokenV {
    TokenV { kind: Kind::Operator, keys: seq![k] }
}

/// The operator slot that a token yields: the token when it is an
/// operator, nothing otherwise.
pub open spec fn opt_operator(t: TokenV) -> Option<TokenV> {
    if t.kind == Kind::Operator {
        Some(t)
    } else {
        None
    }
}

/// The operand slot that a token yields: a leaf when the token is a
/// number, nothing otherwise.
pub open spec fn opt_token(t: TokenV) -> Option<NodeV> {
    if t.kind == Kind::Number {
        Some(NodeV::Token(t))
    } else {
        None
    }
}

impl Ast {
    /// A tree node made of the given parts.
    pub fn new(operator: Option<Token>, operand_a: Option<Node>, operand_b: Option<Node>) -> (r:
        Ast)
        ensures
            r@ == (AstV {
                operator: operator.deep_view(),
                operand_a: operand_a.deep_view(),
                operand_b: operand_b.deep_view(),
            }),
    {
        Ast { operator, operand_a, operand_b }
    }

    /// The operator slot of a single operator key.
    pub fn new_operator(key: Key) -> (r: Option<Token>)
        requires
            key_kind(key) == Kind::Operator,
        ensures
            r.deep_view() == Some(operator_token(key)),
    {
        let token = Token::new_operator(key);
        match token.kind {
            Kind::Operator => Some(token),
            _ => None,
        }
    }

    /// The operand slot of a numeral's key sequence.
    pub fn new_number(keys: Vec<Key>) -> (r: Option<Node>)
        requires
            valid_number_keys(keys@),
        ensures
            r.deep_view() == Some(NodeV::Token(TokenV { kind: Kind::Number, keys: keys@ })),
    {
        let token = Token::new_number(keys);
        match token.kind {
            Kind::Number => Some(Node::Token(token)),
            _ => None,
        }
    }

    /// The operand slot holding a subtree.
    pub fn node_ast(ast: Ast) -> (r: Option<Node>)
        ensures
            r.deep_view() == Some(NodeV::Ast(Box::new(ast@))),
    {
        Some(Node::Ast(Box::new(ast)))
    }

    /// The operand slot that a token yields; see `opt_token`.
    pub fn node_token(token: Token) -> (r: Option<Node>)
        ensures
            r.deep_view() == opt_token(token@),
    {
        match token.kind {
            Kind::Number => Some(Node::Token(token)),
            _ => None,
        }
    }

    /// The operator slot that a token yields; see `opt_operator`.
    pub fn node_operator(token: Token) -> (r: Option<Token>)
        ensures
            r.deep_view() == opt_operator(token@),
    {
        match token.kind {
            Kind::Operator => Some(token),
            _ => None,
        }
    }

    /// The empty operand slot.
    pub fn node_empty() -> (r: Option<Node>)
        ensures
            r.deep_view() == Option::<NodeV>::None,
    {
        Option::None
    }

    /// Whether this node is in the pre-construction state.
    fn is_empty(&self) -> (r: bool)
        ensures
            r == ast_is_empty(self@),
    {
        self.operator.is_none() && self.operand_a.is_none() && self.operand_b.is_none()
    }
}

/// The closing key of an opening bracket key, if the key opens one.
pub open spec fn spec_bracket_close(k: Key) -> Option<Key> {
    match k {
        Key::CurlyOpen => Some(Key::CurlyClose),
        Key::BoxOpen => Some(Key::BoxClose),
        Key::RoundOpen => Some(Key::RoundClose),
        _ => None,
    }
}

/// The single-key bracket token closing the species that the given
/// token opens, if it opens one.
pub fn bracket_close_of(bracket: &Token) -> (r: Option<Token>)
    requires
        bracket@.keys.len() > 0,
    ensures
        match spec_bracket_close(bracket@.keys[0]) {
            Some(ck) => r matches Some(t) && t@ == (TokenV {
                kind: Kind::Bracket,
                keys: seq![ck],
            }),
            None => r is None,
        },
{
    match bracket.keys[0] {
        Key::CurlyOpen => Some(Token::new_bracket(Key::CurlyClose)),
        Key::BoxOpen => Some(Token::new_bracket(Key::BoxClose)),
        Key::RoundOpen => Some(Token::new_bracket(Key::RoundClose)),
        _ => None,
    }
}

/// Whether a token is the single-key bracket token of the given key.
pub open spec fn is_bracket_key(t: TokenV, k: Key) -> bool {
    t.kind == Kind::Bracket && t.keys == seq![k]
}

/// The position one past the matching close of the opening bracket at
/// the start of the scan: same-species opens and closes are counted
/// from position `i` onward, and the scan stops when the counts first
/// agree after an open was seen. When they never agree the whole
/// sequence is taken.
pub open spec fn spec_bracket_cut(
    ts: Seq<TokenV>,
    open: Key,
    close: Key,
    i: int,
    opens: int,
    closes: int,
) -> int
    decreases ts.len() - i,
{
    if i < 0 || i >= ts.len() {
        i
    } else {
        let opens2 = opens + if is_bracket_key(ts[i], open) {
            1int
        } else {
            0int
        };
        let closes2 = closes + if is_bracket_key(ts[i], close) {
            1int
        } else {
            0int
        };
        if opens2 > 0 && opens2 == closes2 {
            i + 1
        } else {
            spec_bracket_cut(ts, open, close, i + 1, opens2, closes2)
        }
    }
}

proof fn lemma_bracket_cut_range(
    ts: Seq<TokenV>,
    open: Key,
    close: Key,
    i: int,
    opens: int,
    closes: int,
)
    requires
        0 <= i <= ts.len(),
    ensures
        i <= spec_bracket_cut(ts, open, close, i, opens, closes) <= ts.len(),
    decreases ts.len() - i,
{
    if i < ts.len() {
        let opens2 = opens + if is_bracket_key(ts[i], open) {
            1int
        } else {
            0int
        };
        let closes2 = closes + if is_bracket_key(ts[i], close) {
            1int
        } else {
            0int
        };
        if !(opens2 > 0 && opens2 == closes2) {
            lemma_bracket_cut_range(ts, open, close, i + 1, opens2, closes2);
        }
    }
}

/// The bracket-group prefix of the scan: the tokens up to and including
/// the close matching the opening bracket at the front (the whole
/// sequence when that close never comes). Fails with
/// `InvalidExpression` when the first token is no opening bracket.
pub open spec fn spec_bracket_expression(ts: Seq<TokenV>) -> Result<Seq<TokenV>, ErrorV> {
    if ts.len() == 0 || ts[0].kind != Kind::Bracket {
        Err(ErrorV::InvalidExpression("Bad format: Is expected a bracket at this point"@))
    } else {
        match spec_bracket_close(ts[0].keys[0]) {
            None => Err(
                ErrorV::InvalidExpression("Bad format: Is expected a bracket at this point"@),
            ),
            Some(close) => Ok(
                ts.take(spec_bracket_cut(ts, ts[0].keys[0], close, 0, 0, 0)),
            ),
        }
    }
}

fn clone_token(token: &Token) -> (r: Token)
    ensures
        r@ == token@,
{
    let mut keys: Vec<Key> = Vec::new();
    let mut i: usize = 0;
    while i < token.keys.len()
        invariant
            i <= token.keys.len(),
            keys@ == token.keys@.take(i as int),
        decreases token.keys.len() - i,
    {
        keys.push(token.keys[i]);
        proof {
            assert(token.keys@.take(i + 1) =~= token.keys@.take(i as int).push(
                token.keys@[i as int],
            ));
        }
        i = i + 1;
    }
    proof {
        assert(token.keys@.take(token.keys@.len() as int) =~= token.keys@);
    }
    Token { kind: token.kind, keys }
}

fn clone_tokens(tokens: &Vec<Token>) -> (r: Vec<Token>)
    ensures
        r.deep_view() == tokens.deep_view(),
{
    let mut r: Vec<Token> = Vec::new();
    let mut i: usize = 0;
    while i < tokens.len()
        invariant
            i <= tokens.len(),
            r.deep_view() == tokens.deep_view().take(i as int),
        decreases tokens.len() - i,
    {
        let ghost r0 = r.deep_view();
        let t = clone_token(&tokens[i]);
        r.push(t);
        proof {
            assert(r.deep_view() =~= r0.push(tokens.deep_view()[i as int]));
            assert(tokens.deep_view().take(i + 1) =~= tokens.deep_view().take(i as int).push(
                tokens.deep_view()[i as int],
            ));
        }
        i = i + 1;
    }
    proof {
        assert(tokens.deep_view().take(tokens.deep_view().len() as int) =~= tokens.deep_view());
    }
    r
}

fn tokens_from(tokens: &Vec<Token>, start: usize) -> (r: Vec<Token>)
    requires
        start <= tokens@.len(),
    ensures
        r.deep_view() == tokens.deep_view().skip(start as int),
{
    let mut r: Vec<Token> = Vec::new();
    let mut i: usize = start;
    while i < tokens.len()
        invariant
            start <= i <= tokens.len(),
            r.deep_view() == tokens.deep_view().subrange(start as int, i as int),
        decreases tokens.len() - i,
    {
        let ghost r0 = r.deep_view();
        let t = clone_token(&tokens[i]);
        r.push(t);
        proof {
            assert(r.deep_view() =~= r0.push(tokens.deep_view()[i as int]));
            assert(tokens.deep_view().subrange(start as int, i + 1) =~= tokens.deep_view()
                .subrange(start as int, i as int).push(tokens.deep_view()[i as int]));
        }
        i = i + 1;
    }
    proof {
        assert(tokens.deep_view().subrange(start as int, tokens.deep_view().len() as int)
            =~= tokens.deep_view().skip(start as int));
    }
    r
}

/// The bracket-group prefix of the token sequence; see
/// `spec_bracket_expression`.
pub fn bracket_expression(tokens: Vec<Token>) -> (r: Result<Vec<Token>, Error>)
    requires
        tokens@.len() > 0,
        tokens_wf(tokens.deep_view()),
    ensures
        result_view(r) == spec_bracket_expression(tokens.deep_view()),
        r matches Ok(v) ==> 1 <= v@.len() <= tokens@.len(),
{
    let ghost ts = tokens.deep_view();
    if !(tokens[0].kind == Kind::Bracket) {
        return Err(
            Error::InvalidExpression("Bad format: Is expected a bracket at this point".to_string()),
        );
    }
    let open_key = tokens[0].keys[0];
    let close_token = match bracket_close_of(&tokens[0]) {
        None => {
            return Err(
                Error::InvalidExpression(
                    "Bad format: Is expected a bracket at this point".to_string(),
                ),
            );
        },
        Some(t) => t,
    };
    let close_key = close_token.keys[0];
    let ghost cut = spec_bracket_cut(ts, open_key, close_key, 0, 0, 0);
    let mut count_opens: usize = 0;
    let mut count_closes: usize = 0;
    let mut expression: Vec<Token> = Vec::new();
    let mut i: usize = 0;
    proof {
        lemma_bracket_cut_range(ts, open_key, close_key, 0, 0, 0);
    }
    while i < tokens.len()
        invariant
            i <= tokens.len(),
            ts == tokens.deep_view(),
            ts.len() > 0,
            ts[0].kind == Kind::Bracket,
            ts[0].keys.len() > 0,
            ts[0].keys[0] == open_key,
            spec_bracket_close(open_key) == Some(close_key),
            count_opens <= i,
            count_closes <= i,
            cut == spec_bracket_cut(ts, open_key, close_key, 0, 0, 0),
            cut == spec_bracket_cut(
                ts,
                open_key,
                close_key,
                i as int,
                count_opens as int,
                count_closes as int,
            ),
            expression.deep_view() == ts.take(i as int),
            !(count_opens > 0 && count_opens == count_closes),
        decreases tokens.len() - i,
    {
        let t = &tokens[i];
        let matches_open = t.kind == Kind::Bracket && t.keys.len() == 1 && t.keys[0] == open_key;
        let matches_close = t.kind == Kind::Bracket && t.keys.len() == 1 && t.keys[0]
            == close_key;
        proof {
            assert(matches_open == is_bracket_key(ts[i as int], open_key)) by {
                if matches_open {
                    assert(ts[i as int].keys =~= seq![open_key]);
                }
                if is_bracket_key(ts[i as int], open_key) {
                    assert(ts[i as int].keys.len() == 1);
                }
            }
            assert(matches_close == is_bracket_key(ts[i as int], close_key)) by {
                if matches_close {
                    assert(ts[i as int].keys =~= seq![close_key]);
                }
                if is_bracket_key(ts[i as int], close_key) {
                    assert(ts[i as int].keys.len() == 1);
                }
            }
        }
        if matches_open {
            count_opens = count_opens + 1;
        }
        if matches_close {
            count_closes = count_closes + 1;
        }
        let ghost e0 = expression.deep_view();
        expression.push(clone_token(t));
        proof {
            assert(expression.deep_view() =~= e0.push(ts[i as int]));
            assert(ts.take(i + 1) =~= ts.take(i as int).push(ts[i as int]));
        }
        i = i + 1;
        if count_opens > 0 && count_opens == count_closes {
            proof {
                assert(cut == i as int);
                assert(expression.deep_view() =~= ts.take(cut));
                assert(ts[0].kind == Kind::Bracket);
                assert(ts[0].keys[0] == open_key);
                assert(spec_bracket_close(ts[0].keys[0]) == Some(close_key));
                assert(spec_bracket_expression(ts) == Ok::<Seq<TokenV>, ErrorV>(ts.take(cut)));
            }
            return Ok(expression);
        }
    }
    proof {
        assert(cut == i as int);
        assert(expression.deep_view() =~= ts.take(cut));
        assert(ts[0].kind == Kind::Bracket);
        assert(ts[0].keys[0] == open_key);
        assert(spec_bracket_close(ts[0].keys[0]) == Some(close_key));
        assert(spec_bracket_expression(ts) == Ok::<Seq<TokenV>, ErrorV>(ts.take(cut)));
    }
    Ok(expression)
}

/// The token sequence with its first and last token removed: the
/// interior of a bracket group.
pub fn remove_border_bracket(tokens: Vec<Token>) -> (r: Vec<Token>)
    requires
        tokens@.len() >= 2,
    ensures
        r.deep_view() == tokens.deep_view().subrange(1, tokens.deep_view().len() - 1),
{
    let ghost ts = tokens.deep_view();
    let mut tokens = tokens;
    tokens.remove(0);
    tokens.remove(tokens.len() - 1);
    proof {
        assert(tokens.deep_view() =~= ts.subrange(1, ts.len() - 1));
    }
    tokens
}

/// The pre-construction state as a value.
pub open spec fn empty_ast() -> AstV {
    AstV { operator: None, operand_a: None, operand_b: None }
}

/// Whether the sequence begins with a leading sign: an addition or
/// subtraction key in its first token.
pub open spec fn spec_start_with_sign(ts: Seq<TokenV>) -> bool {
    ts.len() > 0 && ts[0].keys.len() > 0 && (ts[0].keys[0] == Key::Addition || ts[0].keys[0]
        == Key::Subtraction)
}

/// One when the leading-sign step applies, zero otherwise; a component
/// of the termination measure of `spec_to_ast`.
pub open spec fn sign_flag(ts: Seq<TokenV>, ast: AstV) -> int {
    if spec_start_with_sign(ts) && ast_is_empty(ast) {
        1int
    } else {
        0int
    }
}

/// The tree built from a token sequence against a partially built node.
///
/// An empty sequence yields the node as it stands. A lone token against
/// a fresh node becomes `0 + token` when the token is a number. A
/// leading sign against a fresh node has the implicit zero numeral
/// prepended and parsing re-entered, turning a signed literal into
/// `0 + N` or `0 - N`. Otherwise the first token's kind dispatches to
/// brackets, number, or operator resolution.
pub open spec fn spec_to_ast(ts: Seq<TokenV>, ast: AstV) -> Result<AstV, ErrorV>
    decreases 2 * ts.len() + 3 * sign_flag(ts, ast), 1int,
{
    if ts.len() == 0 {
        Ok(ast)
    } else if ts.len() == 1 && ast_is_empty(ast) {
        if ts[0].kind == Kind::Number {
            Ok(
                AstV {
                    operator: Some(operator_token(Key::Addition)),
                    operand_a: Some(NodeV::Token(zero_token())),
                    operand_b: Some(NodeV::Token(ts[0])),
                },
            )
        } else {
            Err(ErrorV::InvalidExpression("Bad format: Unique value should be a number"@))
        }
    } else if spec_start_with_sign(ts) && ast_is_empty(ast) {
        spec_to_ast(seq![zero_token()] + ts, ast)
    } else if ts[0].kind == Kind::Bracket {
        spec_resolve_brackets(ts, ast)
    } else if ts[0].kind == Kind::Number {
        spec_resolve_number(ts, ast)
    } else if ts[0].kind == Kind::Operator {
        spec_resolve_operator(ts, ast)
    } else {
        Err(ErrorV::InvalidTokenSequence)
    }
}

/// Bracket resolution: the bracket group at the front is parsed as an
/// independent sub-expression, spliced into the first unfilled operand
/// slot, and parsing continues with what follows the group.
pub open spec fn spec_resolve_brackets(ts: Seq<TokenV>, ast: AstV) -> Result<AstV, ErrorV>
    decreases 2 * ts.len(), 0int,
    via spec_resolve_brackets_decreases
{
    match spec_bracket_expression(ts) {
        Err(e) => Err(e),
        Ok(expr) => if expr.len() < 2 {
            Err(ErrorV::InvalidExpression("Bad format: Is expected a bracket at this point"@))
        } else {
            let rest = ts.skip(expr.len() as int);
            let interior = expr.subrange(1, expr.len() - 1);
            match spec_to_ast(interior, empty_ast()) {
                Err(e) => Err(e),
                Ok(sub) => {
                    if rest.len() == 0 && ast_is_empty(ast) {
                        Ok(sub)
                    } else if ast.operand_a is None && ast.operand_b is None {
                        let ast2 = AstV {
                            operator: ast.operator,
                            operand_a: Some(NodeV::Ast(Box::new(sub))),
                            operand_b: ast.operand_b,
                        };
                        if rest.len() == 0 {
                            Ok(ast2)
                        } else {
                            spec_to_ast(rest, ast2)
                        }
                    } else if ast.operand_a is Some && ast.operand_b is None {
                        let ast2 = AstV {
                            operator: ast.operator,
                            operand_a: ast.operand_a,
                            operand_b: Some(NodeV::Ast(Box::new(sub))),
                        };
                        if rest.len() == 0 {
                            Ok(ast2)
                        } else {
                            spec_to_ast(rest, ast2)
                        }
                    } else {
                        Err(
                            ErrorV::InvalidExpression(
                                "Bad format: There is no operator associated with this expression"@,
                            ),
                        )
                    }
                },
            }
        },
    }
}

#[via_fn]
proof fn spec_resolve_brackets_decreases(ts: Seq<TokenV>, ast: AstV) {
    if ts.len() > 0 && ts[0].kind == Kind::Bracket {
        if let Some(close) = spec_bracket_close(ts[0].keys[0]) {
            lemma_bracket_cut_range(ts, ts[0].keys[0], close, 0, 0, 0);
        }
    }
}

/// Number resolution: the leading number token fills the first
/// unfilled operand slot (via `opt_token`), and parsing continues.
pub open spec fn spec_resolve_number(ts: Seq<TokenV>, ast: AstV) -> Result<AstV, ErrorV>
    decreases 2 * ts.len(), 0int,
{
    if ts.len() == 0 || ts[0].kind != Kind::Number {
        Err(ErrorV::InvalidTokenSequence)
    } else if ast.operand_a is None && ast.operand_b is None {
        spec_to_ast(
            ts.drop_first(),
            AstV { operator: ast.operator, operand_a: opt_token(ts[0]), operand_b: ast.operand_b },
        )
    } else if ast.operand_a is Some && ast.operand_b is None {
        spec_to_ast(
            ts.drop_first(),
            AstV { operator: ast.operator, operand_a: ast.operand_a, operand_b: opt_token(ts[0]) },
        )
    } else {
        Err(ErrorV::InvalidTokenSequence)
    }
}

/// Operator resolution: a first operator is adopted; a later operator
/// either captures the most recent operand when it strictly outranks
/// the held one, or takes the whole partial tree as its left operand.
pub open spec fn spec_resolve_operator(ts: Seq<TokenV>, ast: AstV) -> Result<AstV, ErrorV>
    decreases 2 * ts.len(), 0int,
{
    if ts.len() == 0 {
        Err(ErrorV::InvalidTokenSequence)
    } else {
        let token = ts[0];
        let rest = ts.drop_first();
        if token.kind != Kind::Operator {
            Err(ErrorV::InvalidTokenSequence)
        } else {
            match ast.operator {
                None => spec_to_ast(
                    rest,
                    AstV {
                        operator: opt_operator(token),
                        operand_a: ast.operand_a,
                        operand_b: ast.operand_b,
                    },
                ),
                Some(op) => {
                    if spec_precede(token.keys[0], op.keys[0]) {
                        match spec_to_ast(
                            rest,
                            AstV {
                                operator: opt_operator(token),
                                operand_a: ast.operand_b,
                                operand_b: None,
                            },
                        ) {
                            Err(e) => Err(e),
                            Ok(sub) => Ok(
                                AstV {
                                    operator: opt_operator(op),
                                    operand_a: ast.operand_a,
                                    operand_b: Some(NodeV::Ast(Box::new(sub))),
                                },
                            ),
                        }
                    } else {
                        spec_to_ast(
                            rest,
                            AstV {
                                operator: opt_operator(token),
                                operand_a: Some(
                                    NodeV::Ast(
                                        Box::new(
                                            AstV {
                                                operator: opt_operator(op),
                                                operand_a: ast.operand_a,
                                                operand_b: ast.operand_b,
                                            },
                                        ),
                                    ),
                                ),
                                operand_b: None,
                            },
                        )
                    }
                },
            }
        }
    }
}

fn start_with_sign(tokens: &Vec<Token>) -> (r: bool)
    requires
        tokens_wf(tokens.deep_view()),
    ensures
        r == spec_start_with_sign(tokens.deep_view()),
{
    if tokens.len() == 0 {
        return false;
    }
    proof {
        assert(token_wf(tokens.deep_view()[0]));
        assert(tokens@[0]@.keys.len() > 0);
    }
    let key = &tokens[0].keys[0];
    *key == Key::Addition || *key == Key::Subtraction
}

fn to_ast(tokens: Vec<Token>, ast: Ast) -> (r: Result<Ast, Error>)
    requires
        tokens_wf(tokens.deep_view()),
        ast_wf(ast@),
    ensures
        result_view(r) == spec_to_ast(tokens.deep_view(), ast@),
        r matches Ok(a) ==> ast_wf(a@),
    decreases 2 * tokens@.len() + 3 * sign_flag(tokens.deep_view(), ast@), 1int,
{
    let ghost ts = tokens.deep_view();
    let token_len = tokens.len();

    if token_len == 0 {
        return Ok(ast);
    }

    if token_len == 1 && ast.is_empty() {
        let mut tokens = tokens;
        return match tokens.pop() {
            Some(token) => {
                if token.kind == Kind::Number {
                    let zero_keys = vec![Key::Zero];
                    proof {
                        lemma_zero_keys_valid();
                        assert(zero_keys@ =~= seq![Key::Zero]);
                    }
                    Ok(
                        Ast {
                            operator: Ast::new_operator(Key::Addition),
                            operand_a: Ast::new_number(zero_keys),
                            operand_b: Ast::node_token(token),
                        },
                    )
                } else {
                    Err(
                        Error::InvalidExpression(
                            "Bad format: Unique value should be a number".to_string(),
                        ),
                    )
                }
            },
            None => {
                proof {
                    assert(false);
                }
                Err(Error::InvalidTokenSequence)
            },
        };
    }

    if start_with_sign(&tokens) && ast.is_empty() {
        let zero_keys = vec![Key::Zero];
        proof {
            lemma_zero_keys_valid();
            assert(zero_keys@ =~= seq![Key::Zero]);
        }
        let mut new_tokens = vec![Token::new_number(zero_keys)];
        let mut tokens = tokens;
        new_tokens.append(&mut tokens);
        proof {
            assert(new_tokens.deep_view() =~= seq![zero_token()] + ts);
            assert forall|i: int|
                0 <= i < new_tokens.deep_view().len() implies token_wf(
                #[trigger] new_tokens.deep_view()[i],
            ) by {
                if i > 0 {
                    assert(new_tokens.deep_view()[i] == ts[i - 1]);
                } else {
                    assert(new_tokens.deep_view()[0] == zero_token());
                }
            }
        }
        return to_ast(new_tokens, ast);
    }

    let first_kind = tokens[0].kind;
    match first_kind {
        Kind::Bracket => resolve_brackets(tokens, ast),
        Kind::Number => resolve_number(tokens, ast),
        Kind::Operator => resolve_operator(tokens, ast),
        _ => Err(Error::InvalidTokenSequence),
    }
}

proof fn lemma_zero_keys_valid()
    ensures
        valid_number_keys(seq![Key::Zero]),
{
    let ks: Seq<Key> = seq![Key::Zero];
    assert(ks.drop_last() =~= Seq::<Key>::empty());
    assert(dot_count(Seq::<Key>::empty()) == 0);
    assert(dot_count(ks) == 0);
}

fn resolve_brackets(tokens: Vec<Token>, ast: Ast) -> (r: Result<Ast, Error>)
    requires
        tokens@.len() > 0,
        tokens_wf(tokens.deep_view()),
        ast_wf(ast@),
    ensures
        result_view(r) == spec_resolve_brackets(tokens.deep_view(), ast@),
        r matches Ok(a) ==> ast_wf(a@),
    decreases 2 * tokens@.len(), 0int,
{
    let ghost ts = tokens.deep_view();
    let cloned = clone_tokens(&tokens);
    let bracket_expr = match bracket_expression(cloned) {
        Err(e) => {
            return Err(e);
        },
        Ok(v) => v,
    };
    let expr_len = bracket_expr.len();
    if expr_len < 2 {
        return Err(
            Error::InvalidExpression("Bad format: Is expected a bracket at this point".to_string()),
        );
    }
    let rest_expression = tokens_from(&tokens, expr_len);
    let expression = remove_border_bracket(bracket_expr);
    proof {
        if let Some(close) = spec_bracket_close(ts[0].keys[0]) {
            lemma_bracket_cut_range(ts, ts[0].keys[0], close, 0, 0, 0);
        }
        assert forall|i: int|
            0 <= i < expression.deep_view().len() implies token_wf(
            #[trigger] expression.deep_view()[i],
        ) by {
            assert(expression.deep_view()[i] == ts[i + 1]);
        }
        assert forall|i: int|
            0 <= i < rest_expression.deep_view().len() implies token_wf(
            #[trigger] rest_expression.deep_view()[i],
        ) by {
            assert(rest_expression.deep_view()[i] == ts[expr_len + i]);
        }
        assert(tokens_wf(expression.deep_view()));
        assert(tokens_wf(rest_expression.deep_view()));
    }
    let ast_expression = match to_ast(expression, Ast::new(None, None, None)) {
        Err(e) => {
            return Err(e);
        },
        Ok(a) => a,
    };

    if rest_expression.len() == 0 && ast.is_empty() {
        return Ok(ast_expression);
    }

    let mut ast = ast;
    if ast.operand_a.is_none() && ast.operand_b.is_none() {
        ast.operand_a = Ast::node_ast(ast_expression);
    } else if ast.operand_a.is_some() && ast.operand_b.is_none() {
        ast.operand_b = Ast::node_ast(ast_expression);
    } else {
        return Err(
            Error::InvalidExpression(
                "Bad format: There is no operator associated with this expression".to_string(),
            ),
        );
    }

    if rest_expression.len() == 0 {
        return Ok(ast);
    }

    to_ast(rest_expression, ast)
}

fn resolve_number(tokens: Vec<Token>, ast: Ast) -> (r: Result<Ast, Error>)
    requires
        tokens@.len() > 0,
        tokens_wf(tokens.deep_view()),
        ast_wf(ast@),
    ensures
        result_view(r) == spec_resolve_number(tokens.deep_view(), ast@),
        r matches Ok(a) ==> ast_wf(a@),
    decreases 2 * tokens@.len(), 0int,
{
    let ghost ts = tokens.deep_view();
    if !(tokens[0].kind == Kind::Number) {
        return Err(Error::InvalidTokenSequence);
    }
    let a_none = ast.operand_a.is_none();
    let b_none = ast.operand_b.is_none();
    if a_none && b_none {
        let mut tokens = tokens;
        let token = tokens.remove(0);
        proof {
            assert(tokens.deep_view() =~= ts.drop_first());
        }
        let mut ast = ast;
        ast.operand_a = Ast::node_token(token);
        to_ast(tokens, ast)
    } else if !a_none && b_none {
        let mut tokens = tokens;
        let token = tokens.remove(0);
        proof {
            assert(tokens.deep_view() =~= ts.drop_first());
        }
        let mut ast = ast;
        ast.operand_b = Ast::node_token(token);
        to_ast(tokens, ast)
    } else {
        Err(Error::InvalidTokenSequence)
    }
}

fn resolve_operator(tokens: Vec<Token>, ast: Ast) -> (r: Result<Ast, Error>)
    requires
        tokens@.len() > 0,
        tokens_wf(tokens.deep_view()),
        ast_wf(ast@),
    ensures
        result_view(r) == spec_resolve_operator(tokens.deep_view(), ast@),
        r matches Ok(a) ==> ast_wf(a@),
    decreases 2 * tokens@.len(), 0int,
{
    let ghost ts = tokens.deep_view();
    let mut tokens = tokens;
    let token = tokens.remove(0);
    proof {
        assert(tokens.deep_view() =~= ts.drop_first());
    }
    if !(token.kind == Kind::Operator) {
        return Err(Error::InvalidTokenSequence);
    }

    if ast.operator.is_none() {
        let mut ast = ast;
        ast.operator = Ast::node_operator(token);
        return to_ast(tokens, ast);
    }

    let Ast { operator, operand_a, operand_b } = ast;
    let operator = match operator {
        Some(t) => t,
        None => {
            proof {
                assert(false);
            }
            return Err(Error::InvalidTokenSequence);
        },
    };
    let curr = token.keys[0];
    let prev = operator.keys[0];

    if Key::precede(&curr, &prev) {
        let node_ast_val = Ast {
            operator: Ast::node_operator(token),
            operand_a: operand_b,
            operand_b: Ast::node_empty(),
        };
        match to_ast(tokens, node_ast_val) {
            Err(e) => Err(e),
            Ok(sub) => {
                let new_ast = Ast {
                    operator: Ast::node_operator(operator),
                    operand_a,
                    operand_b: Ast::node_ast(sub),
                };
                Ok(new_ast)
            },
        }
    } else {
        let left = Ast { operator: Ast::node_operator(operator), operand_a, operand_b };
        proof {
            assert(ast_wf(left@));
        }
        let new_ast = Ast {
            operator: Ast::node_operator(token),
            operand_a: Ast::node_ast(left),
            operand_b: Ast::node_empty(),
        };
        proof {
            assert(ast_wf(new_ast@));
        }
        to_ast(tokens, new_ast)
    }
}

/// The token sequence with every Space token dropped, order kept.
pub open spec fn spec_remove_space(ts: Seq<TokenV>) -> Seq<TokenV>
    decreases ts.len(),
{
    if ts.len() == 0 {
        Seq::empty()
    } else if ts.last().kind == Kind::Space {
        spec_remove_space(ts.drop_last())
    } else {
        spec_remove_space(ts.drop_last()).push(ts.last())
    }
}

proof fn lemma_remove_space_wf(ts: Seq<TokenV>)
    requires
        tokens_wf(ts),
    ensures
        tokens_wf(spec_remove_space(ts)),
        spec_remove_space(ts).len() <= ts.len(),
    decreases ts.len(),
{
    if ts.len() > 0 {
        assert(tokens_wf(ts.drop_last()));
        lemma_remove_space_wf(ts.drop_last());
    }
}

/// Drops every Space token; see `spec_remove_space`.
pub fn remove_space(tokens: Vec<Token>) -> (r: Vec<Token>)
    ensures
        r.deep_view() == spec_remove_space(tokens.deep_view()),
{
    let ghost ts = tokens.deep_view();
    let mut r: Vec<Token> = Vec::new();
    let mut i: usize = 0;
    proof {
        assert(ts.take(0) =~= Seq::<TokenV>::empty());
    }
    while i < tokens.len()
        invariant
            i <= tokens.len(),
            ts == tokens.deep_view(),
            r.deep_view() == spec_remove_space(ts.take(i as int)),
        decreases tokens.len() - i,
    {
        proof {
            assert(ts.take(i + 1).drop_last() =~= ts.take(i as int));
            assert(ts.take(i + 1).last() == ts[i as int]);
        }
        if !(tokens[i].kind == Kind::Space) {
            let ghost r0 = r.deep_view();
            r.push(clone_token(&tokens[i]));
            proof {
                assert(r.deep_view() =~= r0.push(ts[i as int]));
            }
        }
        i = i + 1;
    }
    proof {
        assert(ts.take(ts.len() as int) =~= ts);
    }
    r
}

/// The result of the parser: spaces are dropped, an empty remainder is
/// `InvalidExpression`, and the rest is built into a tree by
/// `spec_to_ast` starting from the pre-construction state.
pub open spec fn spec_parse(input: Result<Seq<TokenV>, ErrorV>) -> Result<AstV, ErrorV> {
    match input {
        Err(e) => Err(e),
        Ok(ts0) => {
            let ts = spec_remove_space(ts0);
            if ts.len() == 0 {
                Err(ErrorV::InvalidExpression("Input is empty"@))
            } else {
                spec_to_ast(ts, empty_ast())
            }
        },
    }
}

proof fn lemma_remove_space_no_space(ts: Seq<TokenV>)
    ensures
        forall|i: int|
            0 <= i < spec_remove_space(ts).len() ==> (#[trigger] spec_remove_space(ts)[i]).kind
                != Kind::Space,
    decreases ts.len(),
{
    if ts.len() > 0 {
        lemma_remove_space_no_space(ts.drop_last());
    }
}

proof fn lemma_remove_space_id(ts: Seq<TokenV>)
    requires
        forall|i: int| 0 <= i < ts.len() ==> (#[trigger] ts[i]).kind != Kind::Space,
    ensures
        spec_remove_space(ts) == ts,
    decreases ts.len(),
{
    if ts.len() > 0 {
        lemma_remove_space_id(ts.drop_last());
        assert(spec_remove_space(ts) =~= ts);
    } else {
        assert(spec_remove_space(ts) =~= ts);
    }
}

/// Spaces carry no meaning for the parser: stripping every Space token
/// from the input beforehand does not change the parse result.
pub proof fn lemma_parse_ignores_spaces(ts: Seq<TokenV>)
    ensures
        spec_parse(Ok(ts)) == spec_parse(Ok(spec_remove_space(ts))),
{
    lemma_remove_space_no_space(ts);
    lemma_remove_space_id(spec_remove_space(ts));
}

/// A lone number token parses to the implicit-zero tree `0 + N`.
pub proof fn lemma_parse_lone_number(t: TokenV)
    requires
        t.kind == Kind::Number,
    ensures
        spec_parse(Ok(seq![t])) == Ok::<AstV, ErrorV>(
            AstV {
                operator: Some(operator_token(Key::Addition)),
                operand_a: Some(NodeV::Token(zero_token())),
                operand_b: Some(NodeV::Token(t)),
            },
        ),
{
    let ts = seq![t];
    assert(ts.drop_last() =~= Seq::<TokenV>::empty());
    assert(ts.last() == t);
    assert(spec_remove_space(Seq::<TokenV>::empty()) =~= Seq::<TokenV>::empty());
    assert(spec_remove_space(ts) =~= ts);
}

/// A signed numeral parses to the implicit-zero tree: a leading sign
/// operator and a number token yield `0 ± N`, so signed and unsigned
/// literals share one tree shape.
pub proof fn lemma_parse_signed_number(sign: Key, t: TokenV)
    requires
        sign == Key::Addition || sign == Key::Subtraction,
        t.kind == Kind::Number,
    ensures
        spec_parse(Ok(seq![operator_token(sign), t])) == Ok::<AstV, ErrorV>(
            AstV {
                operator: Some(operator_token(sign)),
                operand_a: Some(NodeV::Token(zero_token())),
                operand_b: Some(NodeV::Token(t)),
            },
        ),
{
    let op = operator_token(sign);
    let ts = seq![op, t];
    assert(ts.drop_last() =~= seq![op]);
    assert(ts.last() == t);
    assert(seq![op].drop_last() =~= Seq::<TokenV>::empty());
    assert(seq![op].last() == op);
    assert(spec_remove_space(Seq::<TokenV>::empty()) =~= Seq::<TokenV>::empty());
    assert(spec_remove_space(seq![op]) =~= seq![op]);
    assert(spec_remove_space(ts) =~= ts);

    let filled = AstV {
        operator: None,
        operand_a: Some(NodeV::Token(zero_token())),
        operand_b: None,
    };
    assert(spec_start_with_sign(ts));
    let padded = seq![zero_token()] + ts;
    assert(spec_parse(Ok(ts)) == spec_to_ast(padded, empty_ast()));
    assert(padded.len() == 3 && padded[0] == zero_token());
    assert(!spec_start_with_sign(padded));
    assert(spec_to_ast(padded, empty_ast()) == spec_resolve_number(padded, empty_ast()));
    assert(padded.drop_first() =~= ts);
    assert(spec_resolve_number(padded, empty_ast()) == spec_to_ast(ts, filled));
    assert(spec_to_ast(ts, filled) == spec_resolve_operator(ts, filled));
    let rest = ts.drop_first();
    assert(rest =~= seq![t]);
    let after_op = AstV {
        operator: Some(op),
        operand_a: Some(NodeV::Token(zero_token())),
        operand_b: None,
    };
    assert(spec_resolve_operator(ts, filled) == spec_to_ast(rest, after_op));
    assert(spec_to_ast(rest, after_op) == spec_resolve_number(rest, after_op));
    let done = AstV {
        operator: Some(op),
        operand_a: Some(NodeV::Token(zero_token())),
        operand_b: Some(NodeV::Token(t)),
    };
    assert(rest.drop_first() =~= Seq::<TokenV>::empty());
    assert(spec_resolve_number(rest, after_op) == spec_to_ast(rest.drop_first(), done));
    assert(spec_to_ast(rest.drop_first(), done) == Ok::<AstV, ErrorV>(done));
}

/// Builds the expression tree of a token sequence (or passes an earlier
/// stage's failure through); see `spec_parse`.
pub fn parse(tokens: Result<Vec<Token>, Error>) -> (r: Result<Ast, Error>)
    requires
        tokens matches Ok(v) ==> tokens_wf(v.deep_view()),
    ensures
        result_view(r) == spec_parse(result_view(tokens)),
        r matches Ok(a) ==> ast_wf(a@),
{
    match tokens {
        Err(e) => Err(e),
        Ok(v) => {
            let ghost ts0 = v.deep_view();
            let stripped = remove_space(v);
            proof {
                lemma_remove_space_wf(ts0);
            }
            if stripped.len() == 0 {
                return Err(Error::InvalidExpression("Input is empty".to_string()));
            }
            to_ast(stripped, Ast::new(None, None, None))
        },
    }
}

} // verus!
