use vstd::prelude::*;

use crate::errors::{Failure, MakerError, MakerErrorType};
use crate::lexer::{Location, Token, TokenType};
use crate::nodes::{self, Ast, Block, Expression, Loc, LogicalOperator};

verus! {

/// A token as the parser sees it.
pub struct TokenView {
    pub text: Seq<char>,
    pub kind: TokenType,
    pub loc: Loc,
}

/// The views of a token sequence.
pub open spec fn token_views(ts: Seq<Token>) -> Seq<TokenView> {
    ts.map_values(|t: Token| TokenView { text: t.value@, kind: t.token_type, loc: t.location@ })
}

/// A parse of one production: the tree and the position after it, or the failure.
pub type Parsed = Result<(Ast, nat), Failure>;

/// A parse of a sequence of nodes closed by a token.
pub type ParsedList = Result<(Seq<Ast>, nat), Failure>;

pub open spec fn kind_at(ts: Seq<TokenView>, i: nat) -> Option<TokenType> {
    if i < ts.len() {
        Some(ts[i as int].kind)
    } else {
        None
    }
}

/// A parser error with `message`, located at token `i` if there is one.
pub open spec fn fail_at(ts: Seq<TokenView>, i: nat, message: Seq<char>) -> Failure {
    Failure {
        message,
        error_type: MakerErrorType::ParserError,
        source: None,
        location: if i < ts.len() {
            Some(ts[i as int].loc)
        } else {
            None
        },
    }
}

pub open spec fn fail_literal(ts: Seq<TokenView>, i: nat) -> Failure {
    if i < ts.len() {
        fail_at(ts, i, "Cannot handle this: "@ + ts[i as int].text)
    } else {
        fail_at(ts, i, "Unexpected end of input"@)
    }
}

/// `literal := NUMBER | IDENT | STRING`
pub open spec fn p_literal(ts: Seq<TokenView>, i: nat) -> Parsed {
    if i < ts.len() {
        let t = ts[i as int];
        match t.kind {
            TokenType::Number => Ok((Ast::Number { digits: t.text, loc: t.loc }, i + 1)),
            TokenType::Identifier => Ok((Ast::Identifier { name: t.text, loc: t.loc }, i + 1)),
            TokenType::String => Ok((Ast::Str { text: t.text, loc: t.loc }, i + 1)),
            _ => Err(fail_literal(ts, i)),
        }
    } else {
        Err(fail_literal(ts, i))
    }
}

/// `member := literal ('.' literal)?`
pub open spec fn p_member(ts: Seq<TokenView>, i: nat) -> Parsed {
    match p_literal(ts, i) {
        Err(f) => Err(f),
        Ok((left, j)) => if kind_at(ts, j) == Some(TokenType::Dot) {
            match p_literal(ts, j + 1) {
                Err(f) => Err(f),
                Ok((right, k)) => Ok(
                    (
                        Ast::Member {
                            left: Box::new(left),
                            right: Box::new(right),
                            loc: ts[j as int].loc,
                        },
                        k,
                    ),
                ),
            }
        } else {
            Ok((left, j))
        },
    }
}

/// `call := member ('(' (expr (',' expr)*)? ')')?`
pub open spec fn p_call(ts: Seq<TokenView>, i: nat) -> Parsed
    decreases ts.len() - i, 1nat,
{
    match p_member(ts, i) {
        Err(f) => Err(f),
        Ok((callee, j)) => if kind_at(ts, j) == Some(TokenType::OpenBrace) {
            match p_args(ts, (j + 1) as nat, Seq::empty()) {
                Err(f) => Err(f),
                Ok((args, k)) => Ok(
                    (Ast::Call { callee: Box::new(callee), args, loc: ts[j as int].loc }, k),
                ),
            }
        } else {
            Ok((callee, j))
        },
    }
}

/// The arguments of a call from position `k`, after the arguments `done`.
pub open spec fn p_args(ts: Seq<TokenView>, k: nat, done: Seq<Ast>) -> ParsedList
    decreases ts.len() - k, 3nat,
{
    if kind_at(ts, k) == Some(TokenType::CloseBrace) {
        Ok((done, k + 1))
    } else if k >= ts.len() || kind_at(ts, k) == Some(TokenType::EOF) {
        Err(fail_at(ts, k, "Expected closing of arguments"@))
    } else {
        match p_logical(ts, k) {
            Err(f) => Err(f),
            Ok((arg, m)) => if m <= k {
                Err(fail_at(ts, m, "Expected closing of arguments"@))
            } else if kind_at(ts, m) == Some(TokenType::Comma) {
                p_args(ts, m + 1, done.push(arg))
            } else if kind_at(ts, m) == Some(TokenType::CloseBrace) {
                Ok((done.push(arg), m + 1))
            } else {
                Err(fail_at(ts, m, "Expected closing of arguments"@))
            },
        }
    }
}

/// `expr := logical := call ('==' call)?`
pub open spec fn p_logical(ts: Seq<TokenView>, i: nat) -> Parsed
    decreases ts.len() - i, 2nat,
{
    match p_call(ts, i) {
        Err(f) => Err(f),
        Ok((left, j)) => if j > i && kind_at(ts, j) == Some(TokenType::Equals) {
            match p_call(ts, j + 1) {
                Err(f) => Err(f),
                Ok((right, k)) => Ok(
                    (
                        Ast::Equals {
                            left: Box::new(left),
                            right: Box::new(right),
                            loc: ts[j as int].loc,
                        },
                        k,
                    ),
                ),
            }
        } else {
            Ok((left, j))
        },
    }
}

/// `do_block := 'do' (statement)* 'end'`: the statements, the block's location and
/// the position after `end`.
pub open spec fn p_do_block(ts: Seq<TokenView>, i: nat) -> Result<(Seq<Ast>, Loc, nat), Failure>
    decreases ts.len() - i, 3nat,
{
    if kind_at(ts, i) == Some(TokenType::Do) {
        match p_block_items(ts, i + 1, Seq::empty()) {
            Err(f) => Err(f),
            Ok((nodes, k)) => Ok((nodes, ts[i as int].loc, k)),
        }
    } else {
        Err(fail_at(ts, i, "Expected do"@))
    }
}

/// The statements of a `do` block from position `k`, after the statements `done`.
pub open spec fn p_block_items(ts: Seq<TokenView>, k: nat, done: Seq<Ast>) -> ParsedList
    decreases ts.len() - k, 6nat,
{
    if kind_at(ts, k) == Some(TokenType::End) {
        Ok((done, k + 1))
    } else if k >= ts.len() || kind_at(ts, k) == Some(TokenType::EOF) {
        Err(fail_at(ts, k, "Expected end"@))
    } else {
        match p_statement(ts, k) {
            Err(f) => Err(f),
            Ok((node, m)) => if m <= k || m > ts.len() {
                Err(fail_at(ts, m, "Expected end"@))
            } else {
                p_block_items(ts, m, done.push(node))
            },
        }
    }
}

/// `if_stmt := 'if' expr do_block ('else' (do_block | if_stmt))?`, with `if` at `i`.
pub open spec fn p_if(ts: Seq<TokenView>, i: nat) -> Parsed
    decreases ts.len() - i, 4nat,
{
    match p_logical(ts, i + 1) {
        Err(f) => Err(f),
        Ok((test, j)) => if j <= i || j > ts.len() {
            Err(fail_at(ts, j, "Expected do"@))
        } else {
            match p_do_block(ts, j) {
                Err(f) => Err(f),
                Ok((success, success_loc, k)) => if k <= i {
                    Err(fail_at(ts, k, "Expected do"@))
                } else if kind_at(ts, k) == Some(TokenType::Else) {
                    let alternate = if kind_at(ts, k + 1) == Some(TokenType::Do) {
                        match p_do_block(ts, k + 1) {
                            Err(f) => Err(f),
                            Ok((nodes, loc, m)) => Ok((Ast::Block { nodes, loc }, m)),
                        }
                    } else if kind_at(ts, k + 1) == Some(TokenType::If) {
                        p_if(ts, k + 1)
                    } else {
                        Err(fail_at(ts, k + 1, "Expected if or do"@))
                    };
                    match alternate {
                        Err(f) => Err(f),
                        Ok((alt, m)) => Ok(
                            (
                                Ast::If {
                                    test: Box::new(test),
                                    success,
                                    success_loc,
                                    alternate: Some(Box::new(alt)),
                                    loc: ts[i as int].loc,
                                },
                                m,
                            ),
                        ),
                    }
                } else {
                    Ok(
                        (
                            Ast::If {
                                test: Box::new(test),
                                success,
                                success_loc,
                                alternate: None,
                                loc: ts[i as int].loc,
                            },
                            k,
                        ),
                    )
                },
            }
        },
    }
}

/// `var_decl := 'var' IDENT '=' expr`, with `var` at `i`.
pub open spec fn p_declaration(ts: Seq<TokenView>, i: nat) -> Parsed
    decreases ts.len() - i, 4nat,
{
    if kind_at(ts, i + 1) != Some(TokenType::Identifier) {
        Err(fail_at(ts, i + 1, "Expected an identifier"@))
    } else if kind_at(ts, i + 2) != Some(TokenType::Assign) {
        Err(fail_at(ts, i + 2, "Expected ="@))
    } else {
        match p_logical(ts, i + 3) {
            Err(f) => Err(f),
            Ok((value, k)) => Ok(
                (
                    Ast::Declaration {
                        name: ts[i + 1 as int].text,
                        name_loc: ts[i + 1 as int].loc,
                        value: Box::new(value),
                        loc: ts[i as int].loc,
                    },
                    k,
                ),
            ),
        }
    }
}

/// `statement := var_decl | if_stmt | expr`
pub open spec fn p_statement(ts: Seq<TokenView>, i: nat) -> Parsed
    decreases ts.len() - i, 5nat,
{
    if kind_at(ts, i) == Some(TokenType::Var) {
        p_declaration(ts, i)
    } else if kind_at(ts, i) == Some(TokenType::If) {
        p_if(ts, i)
    } else {
        p_logical(ts, i)
    }
}

/// The statements of the whole program from position `k`, after the statements
/// `done`, up to `EOF` or the end of the tokens.
pub open spec fn p_program(ts: Seq<TokenView>, k: nat, done: Seq<Ast>) -> ParsedList
    decreases ts.len() - k,
{
    if k >= ts.len() || kind_at(ts, k) == Some(TokenType::EOF) {
        Ok((done, k))
    } else {
        match p_statement(ts, k) {
            Err(f) => Err(f),
            Ok((node, m)) => if m <= k || m > ts.len() {
                Err(fail_at(ts, m, "Unexpected end of input"@))
            } else {
                p_program(ts, m, done.push(node))
            },
        }
    }
}

/// The parse of a token sequence from position `i`: a block located at token `i`.
pub open spec fn parse_tokens(ts: Seq<TokenView>, i: nat) -> Result<Ast, Failure> {
    if i >= ts.len() {
        Err(fail_at(ts, i, "Unexpected end of input"@))
    } else {
        match p_program(ts, i, Seq::empty()) {
            Err(f) => Err(f),
            Ok((nodes, _)) => Ok(Ast::Block { nodes, loc: ts[i as int].loc }),
        }
    }
}

/// Whether a successful parse from `i` ends after `i` and within `len` tokens.
pub open spec fn advances(p: Parsed, i: nat, len: nat) -> bool {
    p matches Ok((_, j)) ==> i < j <= len
}

/// Whether a successful list parse from `k` ends after `k` and within `len` tokens.
pub open spec fn list_advances(p: ParsedList, k: nat, len: nat) -> bool {
    p matches Ok((_, m)) ==> k < m <= len
}

proof fn lemma_call_advances(ts: Seq<TokenView>, i: nat)
    ensures
        advances(p_call(ts, i), i, ts.len()),
    decreases ts.len() - i, 1nat,
{
    if let Ok((_, j)) = p_member(ts, i) {
        if kind_at(ts, j) == Some(TokenType::OpenBrace) {
            lemma_args_advance(ts, j + 1, Seq::empty());
        }
    }
}

proof fn lemma_args_advance(ts: Seq<TokenView>, k: nat, done: Seq<Ast>)
    ensures
        list_advances(p_args(ts, k, done), k, ts.len()),
    decreases ts.len() - k, 3nat,
{
    if kind_at(ts, k) != Some(TokenType::CloseBrace) && k < ts.len() && kind_at(ts, k) != Some(
        TokenType::EOF,
    ) {
        lemma_logical_advances(ts, k);
        if let Ok((arg, m)) = p_logical(ts, k) {
            if m > k && kind_at(ts, m) == Some(TokenType::Comma) {
                lemma_args_advance(ts, m + 1, done.push(arg));
            }
        }
    }
}

proof fn lemma_logical_advances(ts: Seq<TokenView>, i: nat)
    ensures
        advances(p_logical(ts, i), i, ts.len()),
    decreases ts.len() - i, 2nat,
{
    lemma_call_advances(ts, i);
    if let Ok((_, j)) = p_call(ts, i) {
        if j > i && kind_at(ts, j) == Some(TokenType::Equals) {
            lemma_call_advances(ts, j + 1);
        }
    }
}

proof fn lemma_do_block_advances(ts: Seq<TokenView>, i: nat)
    ensures
        p_do_block(ts, i) matches Ok((_, _, k)) ==> i < k <= ts.len(),
    decreases ts.len() - i, 3nat,
{
    if kind_at(ts, i) == Some(TokenType::Do) {
        lemma_items_advance(ts, i + 1, Seq::empty());
    }
}

proof fn lemma_items_advance(ts: Seq<TokenView>, k: nat, done: Seq<Ast>)
    ensures
        list_advances(p_block_items(ts, k, done), k, ts.len()),
    decreases ts.len() - k, 6nat,
{
    if kind_at(ts, k) != Some(TokenType::End) && k < ts.len() && kind_at(ts, k) != Some(
        TokenType::EOF,
    ) {
        lemma_statement_advances(ts, k);
        if let Ok((node, m)) = p_statement(ts, k) {
            if k < m <= ts.len() {
                lemma_items_advance(ts, m, done.push(node));
            }
        }
    }
}

proof fn lemma_if_advances(ts: Seq<TokenView>, i: nat)
    ensures
        advances(p_if(ts, i), i, ts.len()),
    decreases ts.len() - i, 4nat,
{
    lemma_logical_advances(ts, i + 1);
    if let Ok((_, j)) = p_logical(ts, i + 1) {
        if i < j <= ts.len() {
            lemma_do_block_advances(ts, j);
            if let Ok((_, _, k)) = p_do_block(ts, j) {
                if k > i && kind_at(ts, k) == Some(TokenType::Else) {
                    if kind_at(ts, k + 1) == Some(TokenType::Do) {
                        lemma_do_block_advances(ts, k + 1);
                    } else if kind_at(ts, k + 1) == Some(TokenType::If) {
                        lemma_if_advances(ts, k + 1);
                    }
                }
            }
        }
    }
}

proof fn lemma_statement_advances(ts: Seq<TokenView>, i: nat)
    ensures
        advances(p_statement(ts, i), i, ts.len()),
    decreases ts.len() - i, 5nat,
{
    if kind_at(ts, i) == Some(TokenType::Var) {
        if kind_at(ts, i + 1) == Some(TokenType::Identifier) && kind_at(ts, i + 2) == Some(
            TokenType::Assign,
        ) {
            lemma_logical_advances(ts, i + 3);
        }
    } else if kind_at(ts, i) == Some(TokenType::If) {
        lemma_if_advances(ts, i);
    } else {
        lemma_logical_advances(ts, i);
    }
}

/// Every production that succeeds ends after the token where it began and within
/// the tokens; so the grammar's checks that a sub-parse moved forward never fail,
/// and no parse reports an error from them.
pub proof fn parsing_advances(ts: Seq<TokenView>, i: nat, done: Seq<Ast>)
    ensures
        advances(p_logical(ts, i), i, ts.len()),
        advances(p_statement(ts, i), i, ts.len()),
        list_advances(p_args(ts, i, done), i, ts.len()),
        list_advances(p_block_items(ts, i, done), i, ts.len()),
        p_do_block(ts, i) matches Ok((_, _, k)) ==> i < k <= ts.len(),
{
    lemma_logical_advances(ts, i);
    lemma_statement_advances(ts, i);
    lemma_args_advance(ts, i, done);
    lemma_items_advance(ts, i, done);
    lemma_do_block_advances(ts, i);
}

/// Parsing is a function of the tokens' texts, kinds and locations: two token
/// sequences that agree on them, among them the same sequence parsed twice, give
/// the same tree or the same failure.
pub proof fn parse_is_deterministic(a: Seq<Token>, b: Seq<Token>, i: nat)
    requires
        token_views(a) == token_views(b),
    ensures
        parse_tokens(token_views(a), i) == parse_tokens(token_views(b), i),
{
}

/// Whether `r`, with the parser left at `pos`, is the parse `p`.
pub open spec fn parsed_as(r: Result<Expression, MakerError>, pos: nat, p: Parsed) -> bool {
    match (r, p) {
        (Ok(e), Ok((a, j))) => e.model() == a && pos == j,
        (Err(e), Err(f)) => e.failure() == f,
        _ => false,
    }
}

/// A recursive-descent parser over a token sequence; `pos` is the next token.
pub struct Parser {
    pub tokens: Vec<Token>,
    pub pos: usize,
}

impl Token {
    /// A copy of this token.
    pub fn duplicate(&self) -> (r: Token)
        ensures
            r.value@ == self.value@,
            r.token_type == self.token_type,
            r.location@ == self.location@,
    {
        Token { value: self.value.clone(), token_type: self.token_type, location: self.location.duplicate() }
    }
}

fn parser_error(message: String, location: Option<&Location>) -> (e: MakerError)
    ensures
        e.message == message,
        e.error_type == MakerErrorType::ParserError,
        e.source is None,
        e.failure().location == match location {
            Some(l) => Some(l@),
            None => None::<Loc>,
        },
{
    let location = match location {
        Some(l) => Some(l.duplicate()),
        None => None,
    };
    let e = MakerError { message, error_type: MakerErrorType::ParserError, source: None, location };
    assert(e.failure().location == match location {
        Some(l) => Some(l@),
        None => None::<Loc>,
    });
    e
}

impl Parser {
    /// A parser at the start of `tokens`.
    pub fn new(tokens: Vec<Token>) -> (r: Parser)
        ensures
            r.tokens@ == tokens@,
            r.pos == 0,
            r.wf(),
    {
        let _ = tokens.len();
        Parser { tokens, pos: 0 }
    }

    pub open spec fn wf(&self) -> bool {
        self.pos <= self.tokens@.len() && self.tokens@.len() <= usize::MAX
    }

    /// The next token, if any is left.
    pub fn at(&self) -> (r: Option<&Token>)
        ensures
            r == (if self.pos < self.tokens@.len() {
                Some(&self.tokens@[self.pos as int])
            } else {
                None
            }),
    {
        if self.pos < self.tokens.len() {
            Some(&self.tokens[self.pos])
        } else {
            None
        }
    }

    fn next_is(&self, kind: TokenType) -> (r: bool)
        ensures
            r == (kind_at(token_views(self.tokens@), self.pos as nat) == Some(kind)),
    {
        self.pos < self.tokens.len() && self.tokens[self.pos].token_type == kind
    }

    fn fail(&self, message: String) -> (e: MakerError)
        ensures
            e.failure() == fail_at(token_views(self.tokens@), self.pos as nat, message@),
    {
        match self.at() {
            Some(t) => parser_error(message, Some(&t.location)),
            None => parser_error(message, None),
        }
    }

    /// Consumes the next token if it is of kind `what`; else fails with `message`
    /// at that token.
    pub fn expect(&mut self, what: TokenType, message: String) -> (r: Result<Token, MakerError>)
        requires
            old(self).wf(),
        ensures
            final(self).tokens@ == old(self).tokens@,
            final(self).wf(),
            match r {
                Ok(t) => {
                    &&& kind_at(token_views(old(self).tokens@), old(self).pos as nat) == Some(what)
                    &&& final(self).pos == old(self).pos + 1
                    &&& t.token_type == what
                    &&& t.value@ == old(self).tokens@[old(self).pos as int].value@
                    &&& t.location@ == old(self).tokens@[old(self).pos as int].location@
                },
                Err(e) => {
                    &&& kind_at(token_views(old(self).tokens@), old(self).pos as nat) != Some(what)
                    &&& final(self).pos == old(self).pos
                    &&& e.failure() == fail_at(token_views(old(self).tokens@), old(self).pos as nat, message@)
                },
            },
    {
        if self.next_is(what) {
            let t = self.tokens[self.pos].duplicate();
            self.pos = self.pos + 1;
            Ok(t)
        } else {
            Err(self.fail(message))
        }
    }

    /// Consumes an identifier token and makes it a name node.
    pub fn get_identifier(&mut self) -> (r: Result<nodes::Identifier, MakerError>)
        requires
            old(self).wf(),
        ensures
            final(self).tokens@ == old(self).tokens@,
            final(self).wf(),
            match r {
                Ok(id) => {
                    &&& kind_at(token_views(old(self).tokens@), old(self).pos as nat) == Some(TokenType::Identifier)
                    &&& final(self).pos == old(self).pos + 1
                    &&& id.name@ == old(self).tokens@[old(self).pos as int].value@
                    &&& id.location@ == old(self).tokens@[old(self).pos as int].location@
                },
                Err(e) => {
                    &&& kind_at(token_views(old(self).tokens@), old(self).pos as nat) != Some(TokenType::Identifier)
                    &&& e.failure() == fail_at(
                        token_views(old(self).tokens@),
                        old(self).pos as nat,
                        "Expected an identifier"@,
                    )
                },
            },
    {
        proof {
            reveal_strlit("Expected an identifier");
        }
        let token = self.expect(TokenType::Identifier, "Expected an identifier".to_owned())?;
        Ok(nodes::Identifier { name: token.value, location: token.location })
    }

    fn parse_literal(&mut self) -> (r: Result<Expression, MakerError>)
        requires
            old(self).wf(),
        ensures
            final(self).tokens@ == old(self).tokens@,
            final(self).wf(),
            parsed_as(r, final(self).pos as nat, p_literal(token_views(old(self).tokens@), old(self).pos as nat)),
            r is Ok ==> final(self).pos > old(self).pos,
    {
        if self.pos >= self.tokens.len() {
            proof {
                reveal_strlit("Unexpected end of input");
            }
            return Err(self.fail("Unexpected end of input".to_owned()));
        }
        let t = &self.tokens[self.pos];
        let e = match t.token_type {
            TokenType::Number => Expression::Number(
                nodes::Number { value: t.value.clone(), location: t.location.duplicate() },
            ),
            TokenType::Identifier => Expression::Identifier(
                nodes::Identifier { name: t.value.clone(), location: t.location.duplicate() },
            ),
            TokenType::String => Expression::StringNode(
                nodes::StringNode { value: t.value.clone(), location: t.location.duplicate() },
            ),
            _ => {
                proof {
                    reveal_strlit("Cannot handle this: ");
                }
                let message = "Cannot handle this: ".to_owned().concat(t.value.as_str());
                return Err(self.fail(message));
            },
        };
        self.pos = self.pos + 1;
        Ok(e)
    }

    fn parse_member_expression(&mut self) -> (r: Result<Expression, MakerError>)
        requires
            old(self).wf(),
        ensures
            final(self).tokens@ == old(self).tokens@,
            final(self).wf(),
            parsed_as(r, final(self).pos as nat, p_member(token_views(old(self).tokens@), old(self).pos as nat)),
            r is Ok ==> final(self).pos > old(self).pos,
    {
        let left = self.parse_literal()?;
        if self.next_is(TokenType::Dot) {
            let location = self.tokens[self.pos].location.duplicate();
            self.pos = self.pos + 1;
            let key = self.parse_literal()?;
            return Ok(
                Expression::Member(
                    nodes::Member { left: Box::new(left), right: Box::new(key), location },
                ),
            );
        }
        Ok(left)
    }

    fn parse_call_expression(&mut self) -> (r: Result<Expression, MakerError>)
        requires
            old(self).wf(),
        ensures
            final(self).tokens@ == old(self).tokens@,
            final(self).wf(),
            parsed_as(r, final(self).pos as nat, p_call(token_views(old(self).tokens@), old(self).pos as nat)),
            r is Ok ==> final(self).pos > old(self).pos,
        decreases old(self).tokens@.len() - old(self).pos, 1nat,
    {
        let ghost ts = token_views(self.tokens@);
        let ghost toks = self.tokens@;
        let ghost start = self.pos;
        let callee = self.parse_member_expression()?;
        if !self.next_is(TokenType::OpenBrace) {
            return Ok(callee);
        }
        let ghost j = self.pos;
        let location = self.tokens[self.pos].location.duplicate();
        self.pos = self.pos + 1;
        let mut args: Vec<Expression> = Vec::new();
        proof {
            assert(nodes::models(args@) =~= Seq::empty());
        }
        loop
            invariant_except_break
                toks == old(self).tokens@,
                start == old(self).pos,
                self.tokens@ == toks,
                ts == token_views(toks),
                self.wf(),
                start < self.pos,
                j < ts.len(),
                location@ == ts[j as int].loc,
                p_call(ts, start as nat) == match p_args(ts, (j + 1) as nat, Seq::empty()) {
                    Err(f) => Err(f),
                    Ok((args, k)) => Ok(
                        (Ast::Call { callee: Box::new(callee.model()), args, loc: ts[j as int].loc }, k),
                    ),
                },
                p_args(ts, (j + 1) as nat, Seq::empty()) == p_args(ts, self.pos as nat, nodes::models(args@)),
            ensures
                self.tokens@ == toks,
                ts == token_views(toks),
                self.wf(),
                start < self.pos,
                p_call(ts, start as nat) == match p_args(ts, (j + 1) as nat, Seq::empty()) {
                    Err(f) => Err(f),
                    Ok((args, k)) => Ok(
                        (Ast::Call { callee: Box::new(callee.model()), args, loc: ts[j as int].loc }, k),
                    ),
                },
                p_args(ts, (j + 1) as nat, Seq::empty()) == ParsedList::Ok((nodes::models(args@), self.pos as nat)),
                location@ == ts[j as int].loc,
            decreases self.tokens@.len() - self.pos,
        {
            if self.next_is(TokenType::CloseBrace) {
                self.pos = self.pos + 1;
                break;
            }
            if self.pos >= self.tokens.len() || self.next_is(TokenType::EOF) {
                proof {
                    reveal_strlit("Expected closing of arguments");
                }
                return Err(self.fail("Expected closing of arguments".to_owned()));
            }
            let ghost k = self.pos;
            let arg = self.parse_logical_expression()?;
            let ghost before = nodes::models(args@);
            let ghost am = arg.model();
            args.push(arg);
            proof {
                assert(nodes::models(args@) =~= before.push(am));
            }
            if self.next_is(TokenType::Comma) {
                self.pos = self.pos + 1;
            } else if self.next_is(TokenType::CloseBrace) {
                self.pos = self.pos + 1;
                break;
            } else {
                proof {
                    reveal_strlit("Expected closing of arguments");
                }
                return Err(self.fail("Expected closing of arguments".to_owned()));
            }
        }
        let r = Expression::Call(nodes::Call { callee: Box::new(callee), args, location });
        proof {
            assert(r.model()->Call_args =~= nodes::models(args@));
        }
        Ok(r)
    }

    fn parse_logical_expression(&mut self) -> (r: Result<Expression, MakerError>)
        requires
            old(self).wf(),
        ensures
            final(self).tokens@ == old(self).tokens@,
            final(self).wf(),
            parsed_as(r, final(self).pos as nat, p_logical(token_views(old(self).tokens@), old(self).pos as nat)),
            r is Ok ==> final(self).pos > old(self).pos,
        decreases old(self).tokens@.len() - old(self).pos, 2nat,
    {
        let left = self.parse_call_expression()?;
        if self.next_is(TokenType::Equals) {
            let location = self.tokens[self.pos].location.duplicate();
            self.pos = self.pos + 1;
            let right = self.parse_call_expression()?;
            return Ok(
                Expression::Logical(
                    nodes::Logical {
                        left: Box::new(left),
                        right: Box::new(right),
                        operator: LogicalOperator::Equals,
                        location,
                    },
                ),
            );
        }
        Ok(left)
    }

    fn parse_block(&mut self) -> (r: Result<Block, MakerError>)
        requires
            old(self).wf(),
        ensures
            final(self).tokens@ == old(self).tokens@,
            final(self).wf(),
            match (r, p_do_block(token_views(old(self).tokens@), old(self).pos as nat)) {
                (Ok(b), Ok((nodes, loc, k))) => nodes::models(b.nodes@) == nodes && b.location@ == loc
                    && final(self).pos == k,
                (Err(e), Err(f)) => e.failure() == f,
                _ => false,
            },
            r is Ok ==> final(self).pos > old(self).pos,
        decreases old(self).tokens@.len() - old(self).pos, 3nat,
    {
        let ghost ts = token_views(self.tokens@);
        let ghost toks = self.tokens@;
        let ghost start = self.pos;
        if !self.next_is(TokenType::Do) {
            proof {
                reveal_strlit("Expected do");
            }
            return Err(self.fail("Expected do".to_owned()));
        }
        let location = self.tokens[self.pos].location.duplicate();
        self.pos = self.pos + 1;
        let mut nodes: Vec<Expression> = Vec::new();
        proof {
            assert(nodes::models(nodes@) =~= Seq::empty());
        }
        loop
            invariant_except_break
                toks == old(self).tokens@,
                start == old(self).pos,
                kind_at(ts, start as nat) == Some(TokenType::Do),
                location@ == ts[start as int].loc,
                self.tokens@ == toks,
                ts == token_views(toks),
                self.wf(),
                start < self.pos,
                p_block_items(ts, (start + 1) as nat, Seq::empty()) == p_block_items(
                    ts,
                    self.pos as nat,
                    nodes::models(nodes@),
                ),
            ensures
                toks == old(self).tokens@,
                start == old(self).pos,
                kind_at(ts, start as nat) == Some(TokenType::Do),
                location@ == ts[start as int].loc,
                self.tokens@ == toks,
                ts == token_views(toks),
                self.wf(),
                start < self.pos,
                p_block_items(ts, (start + 1) as nat, Seq::empty()) == ParsedList::Ok(
                    (nodes::models(nodes@), self.pos as nat),
                ),
            decreases self.tokens@.len() - self.pos,
        {
            if self.next_is(TokenType::End) {
                self.pos = self.pos + 1;
                break;
            }
            if self.pos >= self.tokens.len() || self.next_is(TokenType::EOF) {
                proof {
                    reveal_strlit("Expected end");
                }
                return Err(self.fail("Expected end".to_owned()));
            }
            let node = self.parse_statement()?;
            let ghost before = nodes::models(nodes@);
            let ghost nm = node.model();
            nodes.push(node);
            proof {
                assert(nodes::models(nodes@) =~= before.push(nm));
            }
        }
        Ok(Block { nodes, location })
    }

    fn parse_if(&mut self) -> (r: Result<Expression, MakerError>)
        requires
            old(self).wf(),
            kind_at(token_views(old(self).tokens@), old(self).pos as nat) == Some(TokenType::If),
        ensures
            final(self).tokens@ == old(self).tokens@,
            final(self).wf(),
            parsed_as(r, final(self).pos as nat, p_if(token_views(old(self).tokens@), old(self).pos as nat)),
            r is Ok ==> final(self).pos > old(self).pos,
        decreases old(self).tokens@.len() - old(self).pos, 4nat,
    {
        let location = self.tokens[self.pos].location.duplicate();
        self.pos = self.pos + 1;
        let test = self.parse_logical_expression()?;
        let success = self.parse_block()?;
        let mut alternate: Option<Box<Expression>> = None;
        if self.next_is(TokenType::Else) {
            self.pos = self.pos + 1;
            if self.next_is(TokenType::Do) {
                let b = self.parse_block()?;
                let alt = Expression::Block(b);
                proof {
                    assert(alt.model()->Block_nodes =~= nodes::models(b.nodes@));
                }
                alternate = Some(Box::new(alt));
            } else if self.next_is(TokenType::If) {
                let alt = self.parse_if()?;
                alternate = Some(Box::new(alt));
            } else {
                proof {
                    reveal_strlit("Expected if or do");
                }
                return Err(self.fail("Expected if or do".to_owned()));
            }
        }
        let r = Expression::IfBlock(nodes::IfBlock { test: Box::new(test), success, alternate, location });
        proof {
            assert(r.model()->If_success =~= nodes::models(success.nodes@));
        }
        Ok(r)
    }

    fn parse_variable_declaration(&mut self) -> (r: Result<Expression, MakerError>)
        requires
            old(self).wf(),
            kind_at(token_views(old(self).tokens@), old(self).pos as nat) == Some(TokenType::Var),
        ensures
            final(self).tokens@ == old(self).tokens@,
            final(self).wf(),
            parsed_as(r, final(self).pos as nat, p_declaration(token_views(old(self).tokens@), old(self).pos as nat)),
            r is Ok ==> final(self).pos > old(self).pos,
        decreases old(self).tokens@.len() - old(self).pos, 4nat,
    {
        let location = self.tokens[self.pos].location.duplicate();
        self.pos = self.pos + 1;
        let name = self.get_identifier()?;
        proof {
            reveal_strlit("Expected =");
        }
        self.expect(TokenType::Assign, "Expected =".to_owned())?;
        let value = self.parse_logical_expression()?;
        Ok(
            Expression::VariableDeclaration(
                nodes::VariableDeclaration { name, value: Box::new(value), location },
            ),
        )
    }

    fn parse_statement(&mut self) -> (r: Result<Expression, MakerError>)
        requires
            old(self).wf(),
        ensures
            final(self).tokens@ == old(self).tokens@,
            final(self).wf(),
            parsed_as(r, final(self).pos as nat, p_statement(token_views(old(self).tokens@), old(self).pos as nat)),
            r is Ok ==> final(self).pos > old(self).pos,
        decreases old(self).tokens@.len() - old(self).pos, 5nat,
    {
        if self.next_is(TokenType::Var) {
            self.parse_variable_declaration()
        } else if self.next_is(TokenType::If) {
            self.parse_if()
        } else {
            self.parse_logical_expression()
        }
    }

    /// Parses statements up to `EOF` (or the end of the tokens) into a block located
    /// at the first token.
    pub fn parse(&mut self) -> (r: Result<Block, MakerError>)
        requires
            old(self).wf(),
        ensures
            final(self).tokens@ == old(self).tokens@,
            match (r, parse_tokens(token_views(old(self).tokens@), old(self).pos as nat)) {
                (Ok(b), Ok(a)) => (Ast::Block { nodes: nodes::models(b.nodes@), loc: b.location@ }) == a,
                (Err(e), Err(f)) => e.failure() == f,
                _ => false,
            },
    {
        let ghost ts = token_views(self.tokens@);
        let ghost toks = self.tokens@;
        let ghost start = self.pos;
        if self.pos >= self.tokens.len() {
            proof {
                reveal_strlit("Unexpected end of input");
            }
            return Err(self.fail("Unexpected end of input".to_owned()));
        }
        let location = self.tokens[self.pos].location.duplicate();
        let mut nodes: Vec<Expression> = Vec::new();
        proof {
            assert(nodes::models(nodes@) =~= Seq::empty());
        }
        loop
            invariant_except_break
                toks == old(self).tokens@,
                start == old(self).pos,
                start < ts.len(),
                location@ == ts[start as int].loc,
                self.tokens@ == toks,
                ts == token_views(toks),
                self.wf(),
                p_program(ts, start as nat, Seq::empty()) == p_program(
                    ts,
                    self.pos as nat,
                    nodes::models(nodes@),
                ),
            ensures
                toks == old(self).tokens@,
                start == old(self).pos,
                start < ts.len(),
                location@ == ts[start as int].loc,
                self.tokens@ == toks,
                ts == token_views(toks),
                p_program(ts, start as nat, Seq::empty()) == ParsedList::Ok(
                    (nodes::models(nodes@), self.pos as nat),
                ),
            decreases self.tokens@.len() - self.pos,
        {
            if self.pos >= self.tokens.len() || self.next_is(TokenType::EOF) {
                break;
            }
            let ghost k = self.pos;
            let ghost before = nodes::models(nodes@);
            let node = self.parse_statement()?;
            let ghost nm = node.model();
            assert(p_program(ts, k as nat, before) == p_program(ts, self.pos as nat, before.push(nm)));
            nodes.push(node);
            proof {
                assert(nodes::models(nodes@) =~= before.push(nm));
            }
        }
        Ok(Block { nodes, location })
    }
}

} // verus!
