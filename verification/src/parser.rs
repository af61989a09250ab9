//! The typed syntax tree and the recursive-descent parser that builds it
//! from the token stream.

use crate::lexer::{lemma_spec_tokens_step, spec_skip_ws, spec_token_at, spec_tokens, token_view, Lexer, Token, TokenKind, TokenV};
use crate::text::{append_str, str_eq};
use vstd::prelude::*;

verus! {

broadcast use vstd::std_specs::vec::group_vec_axioms;

/// A binary operator of the source language.
#[derive(Debug, Clone, Copy, PartialEq, Eq, Structural)]
pub enum BinaryOp {
    Plus,
    Minus,
}

/// A node of the typed syntax tree.
#[derive(Debug)]
pub enum AstNode {
    /// The program root: its top-level statements.
    Program(Vec<AstNode>),
    /// `function name(params) { body }`
    FunctionDecl { name: String, params: Vec<String>, body: Vec<AstNode> },
    /// `let name = initializer;`
    VariableDecl { name: String, initializer: Box<AstNode> },
    /// A declaration with an optional initializer and type annotation.
    VarDecl { name: String, init: Option<Box<AstNode>>, typ: Option<String> },
    /// `return expr;`
    ReturnStmt(Box<AstNode>),
    /// An expression in statement position.
    ExpressionStmt(Box<AstNode>),
    /// `left op right`
    BinaryExpr { left: Box<AstNode>, operator: BinaryOp, right: Box<AstNode> },
    /// A name in expression position.
    Identifier(String),
    /// An integer literal.
    NumberLiteral(u64),
    /// `callee(args)`
    CallExpr { callee: String, args: Vec<AstNode> },
}

/// The mathematical form of a syntax tree node, used in contracts.
#[verifier::ext_equal]
pub enum AstV {
    Program(Seq<AstV>),
    FunctionDecl { name: Seq<char>, params: Seq<Seq<char>>, body: Seq<AstV> },
    VariableDecl { name: Seq<char>, initializer: Box<AstV> },
    VarDecl { name: Seq<char>, init: Option<Box<AstV>>, typ: Option<Seq<char>> },
    ReturnStmt(Box<AstV>),
    ExpressionStmt(Box<AstV>),
    BinaryExpr { left: Box<AstV>, operator: BinaryOp, right: Box<AstV> },
    Identifier(Seq<char>),
    NumberLiteral(u64),
    CallExpr { callee: Seq<char>, args: Seq<AstV> },
}

/// The mathematical form of a list of strings.
pub open spec fn seq_str_view(s: Seq<String>) -> Seq<Seq<char>> {
    Seq::new(s.len(), |i: int| s[i]@)
}

/// The mathematical form of a syntax tree.
pub open spec fn ast_view(t: AstNode) -> AstV
    decreases t,
{
    match t {
        AstNode::Program(stmts) => AstV::Program(seq_ast_view(stmts@)),
        AstNode::FunctionDecl { name, params, body } => AstV::FunctionDecl {
            name: name@,
            params: seq_str_view(params@),
            body: seq_ast_view(body@),
        },
        AstNode::VariableDecl { name, initializer } => AstV::VariableDecl {
            name: name@,
            initializer: Box::new(ast_view(*initializer)),
        },
        AstNode::VarDecl { name, init, typ } => AstV::VarDecl {
            name: name@,
            init: match init {
                Some(e) => Some(Box::new(ast_view(*e))),
                None => None,
            },
            typ: match typ {
                Some(a) => Some(a@),
                None => None,
            },
        },
        AstNode::ReturnStmt(e) => AstV::ReturnStmt(Box::new(ast_view(*e))),
        AstNode::ExpressionStmt(e) => AstV::ExpressionStmt(Box::new(ast_view(*e))),
        AstNode::BinaryExpr { left, operator, right } => AstV::BinaryExpr {
            left: Box::new(ast_view(*left)),
            operator,
            right: Box::new(ast_view(*right)),
        },
        AstNode::Identifier(n) => AstV::Identifier(n@),
        AstNode::NumberLiteral(v) => AstV::NumberLiteral(v),
        AstNode::CallExpr { callee, args } => AstV::CallExpr {
            callee: callee@,
            args: seq_ast_view(args@),
        },
    }
}

/// The mathematical form of a list of syntax tree nodes.
pub open spec fn seq_ast_view(s: Seq<AstNode>) -> Seq<AstV>
    decreases s,
{
    if s.len() == 0 {
        Seq::empty()
    } else {
        seq_ast_view(s.drop_last()).push(ast_view(s.last()))
    }
}

/// `seq_ast_view` maps `ast_view` over the elements.
pub proof fn lemma_seq_ast_view(s: Seq<AstNode>)
    ensures
        seq_ast_view(s).len() == s.len(),
        forall|i: int| 0 <= i < s.len() ==> #[trigger] seq_ast_view(s)[i] == ast_view(s[i]),
    decreases s.len(),
{
    if s.len() > 0 {
        lemma_seq_ast_view(s.drop_last());
        assert forall|i: int| 0 <= i < s.len() implies #[trigger] seq_ast_view(s)[i] == ast_view(
            s[i],
        ) by {
            if i < s.len() - 1 {
                assert(s.drop_last()[i] == s[i]);
            }
        }
    }
}

/// A parsing failure: the token stream did not match the grammar.
#[derive(Debug)]
pub enum ParseError {
    UnexpectedToken,
}

/// Clamps a continuation position so that it lies strictly past `i` and
/// within the stream; successful parses in fact always land there already,
/// so the clamp never changes a reachable position.
pub open spec fn adv(i: int, j: int, n: int) -> int {
    if i < j && j <= n {
        j
    } else {
        i + 1
    }
}

/// Parses a primary expression: a number literal, an identifier with an
/// optional member access, or a call with at most one argument.
pub open spec fn spec_parse_primary(toks: Seq<TokenV>, i: int) -> Option<(AstV, int)>
    decreases toks.len() - i, 0int when 0 <= i <= toks.len()
{
    if i >= toks.len() {
        None
    } else {
        match toks[i] {
            TokenV::Number(v) => Some((AstV::NumberLiteral(v), i + 1)),
            TokenV::Identifier(nm) => {
                let (name2, k): (Seq<char>, int) = if i + 1 < toks.len() && toks[i + 1]
                    is Dot {
                    if i + 2 < toks.len() && toks[i + 2] is Identifier {
                        (nm + "."@ + toks[i + 2]->Identifier_0, i + 3)
                    } else {
                        (nm, i + 2)
                    }
                } else {
                    (nm, i + 1)
                };
                if k < toks.len() && toks[k] is LParen {
                    if k + 1 < toks.len() && toks[k + 1] is RParen {
                        Some((AstV::CallExpr { callee: name2, args: Seq::empty() }, k + 2))
                    } else {
                        match spec_parse_expression(toks, k + 1) {
                            Some((arg, ja)) => if ja < toks.len() && toks[ja] is RParen {
                                Some(
                                    (
                                        AstV::CallExpr { callee: name2, args: seq![arg] },
                                        ja + 1,
                                    ),
                                )
                            } else {
                                None
                            },
                            None => None,
                        }
                    }
                } else {
                    Some((AstV::Identifier(name2), k))
                }
            },
            _ => None,
        }
    }
}

/// Parses a binary expression: a primary, optionally followed by `+` or `-`
/// and a further expression (so the operators group to the right).
pub open spec fn spec_parse_binary(toks: Seq<TokenV>, i: int) -> Option<(AstV, int)>
    decreases toks.len() - i, 1int when 0 <= i <= toks.len()
{
    match spec_parse_primary(toks, i) {
        None => None,
        Some((left, j0)) => {
            let j = adv(i, j0, toks.len() as int);
            if j < toks.len() && (toks[j] is Plus || toks[j] is Minus) {
                let op = if toks[j] is Plus {
                    BinaryOp::Plus
                } else {
                    BinaryOp::Minus
                };
                match spec_parse_expression(toks, j + 1) {
                    None => None,
                    Some((right, jr)) => Some(
                        (
                            AstV::BinaryExpr {
                                left: Box::new(left),
                                operator: op,
                                right: Box::new(right),
                            },
                            jr,
                        ),
                    ),
                }
            } else {
                Some((left, j0))
            }
        },
    }
}

/// Parses an expression.
pub open spec fn spec_parse_expression(toks: Seq<TokenV>, i: int) -> Option<(AstV, int)>
    decreases toks.len() - i, 2int when 0 <= i <= toks.len()
{
    spec_parse_binary(toks, i)
}

/// Parses a `let` declaration.
pub open spec fn spec_parse_var_decl(toks: Seq<TokenV>, i: int) -> Option<(AstV, int)>
    decreases toks.len() - i, 3int when 0 <= i <= toks.len()
{
    if i + 1 < toks.len() && toks[i + 1] is Identifier && i + 2 < toks.len() && toks[i + 2]
        is Assign {
        match spec_parse_expression(toks, i + 3) {
            None => None,
            Some((e, j)) => if j < toks.len() && toks[j] is Semicolon {
                Some(
                    (
                        AstV::VariableDecl {
                            name: toks[i + 1]->Identifier_0,
                            initializer: Box::new(e),
                        },
                        j + 1,
                    ),
                )
            } else {
                None
            },
        }
    } else {
        None
    }
}

/// Parses a `return` statement.
pub open spec fn spec_parse_return(toks: Seq<TokenV>, i: int) -> Option<(AstV, int)>
    decreases toks.len() - i, 3int when 0 <= i <= toks.len()
{
    if i >= toks.len() {
        None
    } else {
        match spec_parse_expression(toks, i + 1) {
            None => None,
            Some((e, j)) => if j < toks.len() && toks[j] is Semicolon {
                Some((AstV::ReturnStmt(Box::new(e)), j + 1))
            } else {
                None
            },
        }
    }
}

/// Parses an expression statement.
pub open spec fn spec_parse_expr_stmt(toks: Seq<TokenV>, i: int) -> Option<(AstV, int)>
    decreases toks.len() - i, 3int when 0 <= i <= toks.len()
{
    match spec_parse_expression(toks, i) {
        None => None,
        Some((e, j)) => if j < toks.len() && toks[j] is Semicolon {
            Some((AstV::ExpressionStmt(Box::new(e)), j + 1))
        } else {
            None
        },
    }
}

/// Parses the parameter list of a function, stopping at the closing
/// parenthesis without consuming it. Each parameter may carry a `: number`
/// annotation; a trailing comma is accepted.
pub open spec fn spec_parse_parameters(toks: Seq<TokenV>, i: int) -> Option<(Seq<Seq<char>>, int)>
    decreases toks.len() - i, 1int when 0 <= i <= toks.len()
{
    if i >= toks.len() {
        None
    } else if toks[i] is RParen {
        Some((Seq::empty(), i))
    } else {
        match toks[i] {
            TokenV::Identifier(nm) => {
                if i + 1 < toks.len() && toks[i + 1] is Colon {
                    if i + 2 < toks.len() && toks[i + 2] == TokenV::Identifier("number"@) {
                        spec_parse_params_rest(toks, i + 3, nm)
                    } else {
                        None
                    }
                } else {
                    spec_parse_params_rest(toks, i + 1, nm)
                }
            },
            _ => None,
        }
    }
}

/// Continues a parameter list after one parameter has been read.
pub open spec fn spec_parse_params_rest(toks: Seq<TokenV>, k: int, nm: Seq<char>) -> Option<
    (Seq<Seq<char>>, int),
>
    decreases toks.len() - k, 0int when 0 <= k <= toks.len()
{
    if k >= toks.len() {
        None
    } else if toks[k] is RParen {
        Some((seq![nm], k))
    } else if toks[k] is Comma {
        match spec_parse_parameters(toks, k + 1) {
            Some((rest, j)) => Some((seq![nm] + rest, j)),
            None => None,
        }
    } else {
        None
    }
}

/// Parses a function declaration: name, parameters, an optional `: number`
/// return annotation, and a braced body.
pub open spec fn spec_parse_fn_decl(toks: Seq<TokenV>, i: int) -> Option<(AstV, int)>
    decreases toks.len() - i, 3int when 0 <= i <= toks.len()
{
    if i + 1 < toks.len() && toks[i + 1] is Identifier && i + 2 < toks.len() && toks[i + 2]
        is LParen {
        match spec_parse_parameters(toks, i + 3) {
            None => None,
            Some((ps, jp0)) => {
                let jp = adv(i + 2, jp0, toks.len() as int);
                let j1 = jp + 1;
                let j2 = if j1 < toks.len() && toks[j1] is Colon {
                    if j1 + 1 < toks.len() && toks[j1 + 1] == TokenV::Identifier("number"@) {
                        j1 + 2
                    } else {
                        -1
                    }
                } else {
                    j1
                };
                if j2 < 0 {
                    None
                } else if j2 < toks.len() && toks[j2] is LBrace {
                    match spec_parse_block(toks, j2 + 1) {
                        None => None,
                        Some((body, jb)) => if jb < toks.len() && toks[jb] is RBrace {
                            Some(
                                (
                                    AstV::FunctionDecl {
                                        name: toks[i + 1]->Identifier_0,
                                        params: ps,
                                        body,
                                    },
                                    jb + 1,
                                ),
                            )
                        } else {
                            None
                        },
                    }
                } else {
                    None
                }
            },
        }
    } else {
        None
    }
}

/// Parses one statement, dispatching on the current token.
pub open spec fn spec_parse_statement(toks: Seq<TokenV>, i: int) -> Option<(AstV, int)>
    decreases toks.len() - i, 4int when 0 <= i <= toks.len()
{
    if i >= toks.len() {
        None
    } else {
        match toks[i] {
            TokenV::Function => spec_parse_fn_decl(toks, i),
            TokenV::Let => spec_parse_var_decl(toks, i),
            TokenV::Return => spec_parse_return(toks, i),
            _ => spec_parse_expr_stmt(toks, i),
        }
    }
}

/// Parses statements up to a closing brace, without consuming it.
pub open spec fn spec_parse_block(toks: Seq<TokenV>, i: int) -> Option<(Seq<AstV>, int)>
    decreases toks.len() - i, 5int when 0 <= i <= toks.len()
{
    if i >= toks.len() {
        None
    } else if toks[i] is RBrace {
        Some((Seq::empty(), i))
    } else {
        match spec_parse_statement(toks, i) {
            None => None,
            Some((s, j)) => match spec_parse_block(toks, adv(i, j, toks.len() as int)) {
                None => None,
                Some((rest, jr)) => Some((seq![s] + rest, jr)),
            },
        }
    }
}

/// Parses statements up to the end of the token stream.
pub open spec fn spec_parse_program_stmts(toks: Seq<TokenV>, i: int) -> Option<(Seq<AstV>, int)>
    decreases toks.len() - i, 5int when 0 <= i <= toks.len()
{
    if i >= toks.len() {
        Some((Seq::empty(), i))
    } else {
        match spec_parse_statement(toks, i) {
            None => None,
            Some((s, j)) => match spec_parse_program_stmts(toks, adv(i, j, toks.len() as int)) {
                None => None,
                Some((rest, jr)) => Some((seq![s] + rest, jr)),
            },
        }
    }
}

/// Parses a whole program.
pub open spec fn spec_parse_program(toks: Seq<TokenV>) -> Option<AstV> {
    match spec_parse_program_stmts(toks, 0) {
        Some((ss, _)) => Some(AstV::Program(ss)),
        None => None,
    }
}

/// The mathematical form of a scanned token list.
pub open spec fn toks_of(s: Seq<Token>) -> Seq<TokenV> {
    Seq::new(s.len(), |i: int| token_view(s[i].kind))
}

/// The recursive-descent parser, working over the scanned token list.
#[derive(Debug)]
pub struct Parser {
    tokens: Vec<Token>,
    pos: usize,
}

impl Parser {
    /// The token stream being parsed.
    pub closed spec fn toks(&self) -> Seq<TokenV> {
        toks_of(self.tokens@)
    }

    /// The current position in the token stream.
    pub closed spec fn at(&self) -> nat {
        self.pos as nat
    }

    /// The parser never moves past the end of the stream.
    pub closed spec fn wf(&self) -> bool {
        self.pos <= self.tokens@.len()
    }

    /// Creates a parser by scanning the whole input.
    pub fn new(lexer: Lexer) -> (r: Parser)
        requires
            lexer.wf(),
        ensures
            r.wf(),
            r.at() == 0,
            r.toks() == spec_tokens(lexer.chars(), lexer.pos() as int),
    {
        let mut lx = lexer;
        let mut tokens: Vec<Token> = Vec::new();
        let ghost input = lx.chars();
        let ghost p0 = lx.pos() as int;
        loop
            invariant
                lx.wf(),
                lx.chars() == input,
                toks_of(tokens@) + spec_tokens(input, lx.pos() as int) == spec_tokens(input, p0),
            ensures
                toks_of(tokens@) == spec_tokens(input, p0),
            decreases input.len() - lx.pos(),
        {
            let ghost oldpos = lx.pos() as int;
            proof {
                lemma_spec_tokens_step(input, oldpos);
            }
            let t = lx.next_token();
            let ghost p = spec_skip_ws(input, oldpos);
            let ghost tk = spec_token_at(input, p);
            let is_end = matches!(t.kind, TokenKind::EOF);
            if is_end {
                proof {
                    assert(tk.0 is EOF);
                    assert(p >= input.len()) by {
                        if p < input.len() {
                            assert(!(tk.0 is EOF));
                        }
                    }
                    assert(lx.pos() == p);
                    assert(spec_tokens(input, lx.pos() as int) == Seq::<TokenV>::empty());
                    assert(toks_of(tokens@) + spec_tokens(input, lx.pos() as int) =~= toks_of(
                        tokens@,
                    ));
                }
                break ;
            }
            let ghost before = tokens@;
            tokens.push(t);
            proof {
                assert(toks_of(tokens@) =~= toks_of(before) + seq![token_view(t.kind)]);
                assert(toks_of(tokens@) + spec_tokens(input, lx.pos() as int) =~= toks_of(before)
                    + (seq![token_view(t.kind)] + spec_tokens(input, lx.pos() as int)));
            }
        }
        Parser { tokens, pos: 0 }
    }

    /// Parses a primary expression.
    fn parse_primary(&self, pos: usize) -> (r: Result<(AstNode, usize), ParseError>)
        requires
            self.wf(),
            pos <= self.toks().len(),
        ensures
            ({
                let s = spec_parse_primary(self.toks(), pos as int);
                match r {
                    Ok(nj) => s == Some((ast_view(nj.0), nj.1 as int)) && pos < nj.1
                        <= self.toks().len(),
                    Err(_) => s is None,
                }
            }),
        decreases self.toks().len() - pos, 0int,
    {
        let n: usize = self.tokens.len();
        if pos >= n {
            return Err(ParseError::UnexpectedToken);
        }
        match &self.tokens[pos].kind {
            TokenKind::Number(v) => Ok((AstNode::NumberLiteral(*v), pos + 1)),
            TokenKind::Identifier(nm) => {
                let mut name2: String = nm.clone();
                let mut k: usize = pos + 1;
                if pos + 1 < n && matches!(self.tokens[pos + 1].kind, TokenKind::Dot) {
                    if pos + 2 < n {
                        match &self.tokens[pos + 2].kind {
                            TokenKind::Identifier(member) => {
                                append_str(&mut name2, ".");
                                append_str(&mut name2, member.as_str());
                                k = pos + 3;
                            },
                            _ => {
                                k = pos + 2;
                            },
                        }
                    } else {
                        k = pos + 2;
                    }
                }
                if k < n && matches!(self.tokens[k].kind, TokenKind::LParen) {
                    if k + 1 < n && matches!(self.tokens[k + 1].kind, TokenKind::RParen) {
                        let args: Vec<AstNode> = Vec::new();
                        proof {
                            assert(seq_ast_view(args@) =~= Seq::<AstV>::empty());
                        }
                        Ok((AstNode::CallExpr { callee: name2, args }, k + 2))
                    } else {
                        match self.parse_expression(k + 1) {
                            Ok((arg, ja)) => {
                                if ja < n && matches!(self.tokens[ja].kind, TokenKind::RParen) {
                                    let ghost argv = ast_view(arg);
                                    let mut args: Vec<AstNode> = Vec::new();
                                    args.push(arg);
                                    proof {
                                        assert(args@.drop_last() =~= Seq::<AstNode>::empty());
                                        assert(seq_ast_view(args@.drop_last()) == Seq::<
                                            AstV,
                                        >::empty());
                                        assert(seq_ast_view(args@) =~= seq![argv]);
                                    }
                                    Ok((AstNode::CallExpr { callee: name2, args }, ja + 1))
                                } else {
                                    Err(ParseError::UnexpectedToken)
                                }
                            },
                            Err(e) => Err(e),
                        }
                    }
                } else {
                    Ok((AstNode::Identifier(name2), k))
                }
            },
            _ => Err(ParseError::UnexpectedToken),
        }
    }

    /// Parses a binary expression.
    fn parse_binary(&self, pos: usize) -> (r: Result<(AstNode, usize), ParseError>)
        requires
            self.wf(),
            pos <= self.toks().len(),
        ensures
            ({
                let s = spec_parse_binary(self.toks(), pos as int);
                match r {
                    Ok(nj) => s == Some((ast_view(nj.0), nj.1 as int)) && pos < nj.1
                        <= self.toks().len(),
                    Err(_) => s is None,
                }
            }),
        decreases self.toks().len() - pos, 1int,
    {
        let n: usize = self.tokens.len();
        match self.parse_primary(pos) {
            Err(e) => Err(e),
            Ok((left, j0)) => {
                proof {
                    assert(adv(pos as int, j0 as int, self.toks().len() as int) == j0 as int);
                }
                let has_op = j0 < n && (matches!(self.tokens[j0].kind, TokenKind::Plus)
                    || matches!(self.tokens[j0].kind, TokenKind::Minus));
                if has_op {
                    let op = if matches!(self.tokens[j0].kind, TokenKind::Plus) {
                        BinaryOp::Plus
                    } else {
                        BinaryOp::Minus
                    };
                    match self.parse_expression(j0 + 1) {
                        Err(e) => Err(e),
                        Ok((right, jr)) => Ok(
                            (
                                AstNode::BinaryExpr {
                                    left: Box::new(left),
                                    operator: op,
                                    right: Box::new(right),
                                },
                                jr,
                            ),
                        ),
                    }
                } else {
                    Ok((left, j0))
                }
            },
        }
    }

    /// Parses an expression.
    fn parse_expression(&self, pos: usize) -> (r: Result<(AstNode, usize), ParseError>)
        requires
            self.wf(),
            pos <= self.toks().len(),
        ensures
            ({
                let s = spec_parse_expression(self.toks(), pos as int);
                match r {
                    Ok(nj) => s == Some((ast_view(nj.0), nj.1 as int)) && pos < nj.1
                        <= self.toks().len(),
                    Err(_) => s is None,
                }
            }),
        decreases self.toks().len() - pos, 2int,
    {
        self.parse_binary(pos)
    }

    /// Parses a `let` declaration.
    fn parse_variable_declaration(&self, pos: usize) -> (r: Result<(AstNode, usize), ParseError>)
        requires
            self.wf(),
            pos <= self.toks().len(),
        ensures
            ({
                let s = spec_parse_var_decl(self.toks(), pos as int);
                match r {
                    Ok(nj) => s == Some((ast_view(nj.0), nj.1 as int)) && pos < nj.1
                        <= self.toks().len(),
                    Err(_) => s is None,
                }
            }),
        decreases self.toks().len() - pos, 3int,
    {
        let n: usize = self.tokens.len();
        if pos >= n || pos + 1 >= n {
            return Err(ParseError::UnexpectedToken);
        }
        if matches!(self.tokens[pos + 1].kind, TokenKind::Identifier(_)) && pos + 2 < n
            && matches!(self.tokens[pos + 2].kind, TokenKind::Assign) {
            let name: String = match &self.tokens[pos + 1].kind {
                TokenKind::Identifier(nm) => nm.clone(),
                _ => {
                    proof {
                        assert(false);
                    }
                    String::new()
                },
            };
            match self.parse_expression(pos + 3) {
                Err(e) => Err(e),
                Ok((e, j)) => {
                    if j < n && matches!(self.tokens[j].kind, TokenKind::Semicolon) {
                        Ok(
                            (
                                AstNode::VariableDecl { name, initializer: Box::new(e) },
                                j + 1,
                            ),
                        )
                    } else {
                        Err(ParseError::UnexpectedToken)
                    }
                },
            }
        } else {
            Err(ParseError::UnexpectedToken)
        }
    }

    /// Parses a `return` statement.
    fn parse_return_statement(&self, pos: usize) -> (r: Result<(AstNode, usize), ParseError>)
        requires
            self.wf(),
            pos <= self.toks().len(),
        ensures
            ({
                let s = spec_parse_return(self.toks(), pos as int);
                match r {
                    Ok(nj) => s == Some((ast_view(nj.0), nj.1 as int)) && pos < nj.1
                        <= self.toks().len(),
                    Err(_) => s is None,
                }
            }),
        decreases self.toks().len() - pos, 3int,
    {
        let n: usize = self.tokens.len();
        if pos >= n {
            return Err(ParseError::UnexpectedToken);
        }
        match self.parse_expression(pos + 1) {
            Err(e) => Err(e),
            Ok((e, j)) => {
                if j < n && matches!(self.tokens[j].kind, TokenKind::Semicolon) {
                    Ok((AstNode::ReturnStmt(Box::new(e)), j + 1))
                } else {
                    Err(ParseError::UnexpectedToken)
                }
            },
        }
    }

    /// Parses an expression statement.
    fn parse_expression_statement(&self, pos: usize) -> (r: Result<(AstNode, usize), ParseError>)
        requires
            self.wf(),
            pos <= self.toks().len(),
        ensures
            ({
                let s = spec_parse_expr_stmt(self.toks(), pos as int);
                match r {
                    Ok(nj) => s == Some((ast_view(nj.0), nj.1 as int)) && pos < nj.1
                        <= self.toks().len(),
                    Err(_) => s is None,
                }
            }),
        decreases self.toks().len() - pos, 3int,
    {
        let n: usize = self.tokens.len();
        match self.parse_expression(pos) {
            Err(e) => Err(e),
            Ok((e, j)) => {
                if j < n && matches!(self.tokens[j].kind, TokenKind::Semicolon) {
                    Ok((AstNode::ExpressionStmt(Box::new(e)), j + 1))
                } else {
                    Err(ParseError::UnexpectedToken)
                }
            },
        }
    }

    /// Parses a parameter list, stopping at the closing parenthesis.
    fn parse_parameters(&self, pos: usize) -> (r: Result<(Vec<String>, usize), ParseError>)
        requires
            self.wf(),
            pos <= self.toks().len(),
        ensures
            ({
                let s = spec_parse_parameters(self.toks(), pos as int);
                match r {
                    Ok(nj) => s == Some((seq_str_view(nj.0@), nj.1 as int)) && pos <= nj.1
                        < self.toks().len(),
                    Err(_) => s is None,
                }
            }),
        decreases self.toks().len() - pos, 1int,
    {
        let n: usize = self.tokens.len();
        if pos >= n {
            return Err(ParseError::UnexpectedToken);
        }
        if matches!(self.tokens[pos].kind, TokenKind::RParen) {
            let out: Vec<String> = Vec::new();
            proof {
                assert(seq_str_view(out@) =~= Seq::<Seq<char>>::empty());
            }
            return Ok((out, pos));
        }
        match &self.tokens[pos].kind {
            TokenKind::Identifier(nm) => {
                let first: String = nm.clone();
                if pos + 1 < n && matches!(self.tokens[pos + 1].kind, TokenKind::Colon) {
                    let annotated = pos + 2 < n && (match &self.tokens[pos + 2].kind {
                        TokenKind::Identifier(a) => str_eq(a.as_str(), "number"),
                        _ => false,
                    });
                    if annotated {
                        self.parse_params_rest(pos + 3, first)
                    } else {
                        Err(ParseError::UnexpectedToken)
                    }
                } else {
                    self.parse_params_rest(pos + 1, first)
                }
            },
            _ => Err(ParseError::UnexpectedToken),
        }
    }

    /// Continues a parameter list after one parameter.
    fn parse_params_rest(&self, k: usize, first: String) -> (r: Result<
        (Vec<String>, usize),
        ParseError,
    >)
        requires
            self.wf(),
            k <= self.toks().len(),
        ensures
            ({
                let s = spec_parse_params_rest(self.toks(), k as int, first@);
                match r {
                    Ok(nj) => s == Some((seq_str_view(nj.0@), nj.1 as int)) && k <= nj.1
                        < self.toks().len(),
                    Err(_) => s is None,
                }
            }),
        decreases self.toks().len() - k, 0int,
    {
        let n: usize = self.tokens.len();
        if k >= n {
            return Err(ParseError::UnexpectedToken);
        }
        if matches!(self.tokens[k].kind, TokenKind::RParen) {
            let mut out: Vec<String> = Vec::new();
            out.push(first);
            proof {
                assert(seq_str_view(out@) =~= seq![out@[0]@]);
            }
            return Ok((out, k));
        }
        if matches!(self.tokens[k].kind, TokenKind::Comma) {
            match self.parse_parameters(k + 1) {
                Err(e) => Err(e),
                Ok((rest, j)) => {
                    let ghost firstv = first@;
                    let ghost restv = rest@;
                    let mut out: Vec<String> = Vec::new();
                    out.push(first);
                    let mut rest2 = rest;
                    out.append(&mut rest2);
                    proof {
                        assert(seq_str_view(out@) =~= seq![firstv] + seq_str_view(restv));
                    }
                    Ok((out, j))
                },
            }
        } else {
            Err(ParseError::UnexpectedToken)
        }
    }

    /// Parses a function declaration.
    fn parse_function_declaration(&self, pos: usize) -> (r: Result<(AstNode, usize), ParseError>)
        requires
            self.wf(),
            pos <= self.toks().len(),
        ensures
            ({
                let s = spec_parse_fn_decl(self.toks(), pos as int);
                match r {
                    Ok(nj) => s == Some((ast_view(nj.0), nj.1 as int)) && pos < nj.1
                        <= self.toks().len(),
                    Err(_) => s is None,
                }
            }),
        decreases self.toks().len() - pos, 3int,
    {
        let n: usize = self.tokens.len();
        if pos >= n || pos + 1 >= n {
            return Err(ParseError::UnexpectedToken);
        }
        if !(matches!(self.tokens[pos + 1].kind, TokenKind::Identifier(_)) && pos + 2 < n
            && matches!(self.tokens[pos + 2].kind, TokenKind::LParen)) {
            return Err(ParseError::UnexpectedToken);
        }
        let name: String = match &self.tokens[pos + 1].kind {
            TokenKind::Identifier(nm) => nm.clone(),
            _ => {
                proof {
                    assert(false);
                }
                String::new()
            },
        };
        match self.parse_parameters(pos + 3) {
            Err(e) => Err(e),
            Ok((ps, jp)) => {
                proof {
                    assert(adv(pos + 2, jp as int, self.toks().len() as int) == jp as int);
                }
                let j1: usize = jp + 1;
                let mut j2: usize = j1;
                if j1 < n && matches!(self.tokens[j1].kind, TokenKind::Colon) {
                    let annotated = j1 + 1 < n && (match &self.tokens[j1 + 1].kind {
                        TokenKind::Identifier(a) => str_eq(a.as_str(), "number"),
                        _ => false,
                    });
                    if annotated {
                        j2 = j1 + 2;
                    } else {
                        return Err(ParseError::UnexpectedToken);
                    }
                }
                if j2 < n && matches!(self.tokens[j2].kind, TokenKind::LBrace) {
                    match self.parse_block_at(j2 + 1) {
                        Err(e) => Err(e),
                        Ok((body, jb)) => {
                            if jb < n && matches!(self.tokens[jb].kind, TokenKind::RBrace) {
                                Ok((AstNode::FunctionDecl { name, params: ps, body }, jb + 1))
                            } else {
                                Err(ParseError::UnexpectedToken)
                            }
                        },
                    }
                } else {
                    Err(ParseError::UnexpectedToken)
                }
            },
        }
    }

    /// Parses one statement.
    fn parse_statement(&self, pos: usize) -> (r: Result<(AstNode, usize), ParseError>)
        requires
            self.wf(),
            pos <= self.toks().len(),
        ensures
            ({
                let s = spec_parse_statement(self.toks(), pos as int);
                match r {
                    Ok(nj) => s == Some((ast_view(nj.0), nj.1 as int)) && pos < nj.1
                        <= self.toks().len(),
                    Err(_) => s is None,
                }
            }),
        decreases self.toks().len() - pos, 4int,
    {
        let n: usize = self.tokens.len();
        if pos >= n {
            return Err(ParseError::UnexpectedToken);
        }
        match &self.tokens[pos].kind {
            TokenKind::Function => self.parse_function_declaration(pos),
            TokenKind::Let => self.parse_variable_declaration(pos),
            TokenKind::Return => self.parse_return_statement(pos),
            _ => self.parse_expression_statement(pos),
        }
    }

    /// Parses statements up to a closing brace, without consuming it.
    fn parse_block_at(&self, pos: usize) -> (r: Result<(Vec<AstNode>, usize), ParseError>)
        requires
            self.wf(),
            pos <= self.toks().len(),
        ensures
            ({
                let s = spec_parse_block(self.toks(), pos as int);
                match r {
                    Ok(nj) => s == Some((seq_ast_view(nj.0@), nj.1 as int)) && pos <= nj.1
                        <= self.toks().len(),
                    Err(_) => s is None,
                }
            }),
        decreases self.toks().len() - pos, 5int,
    {
        let n: usize = self.tokens.len();
        if pos >= n {
            return Err(ParseError::UnexpectedToken);
        }
        if matches!(self.tokens[pos].kind, TokenKind::RBrace) {
            let out: Vec<AstNode> = Vec::new();
            proof {
                assert(seq_ast_view(out@) =~= Seq::<AstV>::empty());
            }
            return Ok((out, pos));
        }
        match self.parse_statement(pos) {
            Err(e) => Err(e),
            Ok((s, j)) => {
                proof {
                    assert(adv(pos as int, j as int, self.toks().len() as int) == j as int);
                }
                match self.parse_block_at(j) {
                    Err(e) => Err(e),
                    Ok((rest, jr)) => {
                        let ghost sv = ast_view(s);
                        let ghost restv = rest@;
                        let mut out: Vec<AstNode> = Vec::new();
                        out.push(s);
                        let mut rest2 = rest;
                        out.append(&mut rest2);
                        proof {
                            lemma_seq_ast_view(out@);
                            lemma_seq_ast_view(restv);
                            assert(seq_ast_view(out@) =~= seq![sv] + seq_ast_view(restv));
                        }
                        Ok((out, jr))
                    },
                }
            },
        }
    }

    /// Parses statements up to the end of the token stream.
    fn parse_program_stmts(&self, pos: usize) -> (r: Result<(Vec<AstNode>, usize), ParseError>)
        requires
            self.wf(),
            pos <= self.toks().len(),
        ensures
            ({
                let s = spec_parse_program_stmts(self.toks(), pos as int);
                match r {
                    Ok(nj) => s == Some((seq_ast_view(nj.0@), nj.1 as int)) && pos <= nj.1
                        <= self.toks().len(),
                    Err(_) => s is None,
                }
            }),
        decreases self.toks().len() - pos, 5int,
    {
        let n: usize = self.tokens.len();
        if pos >= n {
            let out: Vec<AstNode> = Vec::new();
            proof {
                assert(seq_ast_view(out@) =~= Seq::<AstV>::empty());
            }
            return Ok((out, pos));
        }
        match self.parse_statement(pos) {
            Err(e) => Err(e),
            Ok((s, j)) => {
                proof {
                    assert(adv(pos as int, j as int, self.toks().len() as int) == j as int);
                }
                match self.parse_program_stmts(j) {
                    Err(e) => Err(e),
                    Ok((rest, jr)) => {
                        let ghost sv = ast_view(s);
                        let ghost restv = rest@;
                        let mut out: Vec<AstNode> = Vec::new();
                        out.push(s);
                        let mut rest2 = rest;
                        out.append(&mut rest2);
                        proof {
                            lemma_seq_ast_view(out@);
                            lemma_seq_ast_view(restv);
                            assert(seq_ast_view(out@) =~= seq![sv] + seq_ast_view(restv));
                        }
                        Ok((out, jr))
                    },
                }
            },
        }
    }

    /// Parses a whole program from the current position.
    pub fn parse_program(&mut self) -> (r: Result<AstNode, ParseError>)
        requires
            old(self).wf(),
        ensures
            final(self).wf(),
            final(self).toks() == old(self).toks(),
            ({
                let s = spec_parse_program_stmts(old(self).toks(), old(self).at() as int);
                match r {
                    Ok(ast) => s matches Some(sj) && ast_view(ast) == AstV::Program(sj.0)
                        && final(self).at() == sj.1,
                    Err(_) => s is None,
                }
            }),
    {
        match self.parse_program_stmts(self.pos) {
            Err(e) => Err(e),
            Ok((stmts, j)) => {
                self.pos = j;
                Ok(AstNode::Program(stmts))
            },
        }
    }
}

} // verus!
