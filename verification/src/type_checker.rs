//! The type checker: a single typed walk over the syntax tree.
//!
//! Typing rules: a numeric literal has type `Number`; an identifier has the
//! type of its symbol-table binding, and an unbound identifier is an error; a
//! binary expression requires both operands to check to the same type; a call
//! to the one recognized intrinsic, `console.log`, requires at least one
//! argument and yields `Void`; a function declaration opens a scope, binds
//! its parameters as numbers, checks its body in order, and its inferred
//! return type is that of its last statement. A declaration binds its name
//! for the statements that follow it. The first ill-typed construct aborts
//! the walk.

use crate::parser::{ast_view, seq_ast_view, AstNode, AstV};
use crate::symbol_table::{spec_lookup, SymbolTable, SymbolV};
use crate::text::str_eq;
use crate::types::{clone_type, spec_from_annotation, type_eq, type_view, Type, TypeV};
use vstd::prelude::*;

verus! {

broadcast use vstd::std_specs::vec::group_vec_axioms;

/// A type-checking failure.
#[derive(Debug)]
pub enum TypeError {
    /// An identifier had no binding.
    Undefined(String),
    /// The operands of a binary expression had different types.
    Mismatch,
    /// A construct outside the supported subset, such as a call to an
    /// unrecognized function.
    UnsupportedConstruct(String),
}

/// The mathematical form of a type-checking failure.
#[verifier::ext_equal]
pub enum TypeErrorV {
    Undefined(Seq<char>),
    Mismatch,
    UnsupportedConstruct(Seq<char>),
}

/// The mathematical form of a failure value.
pub open spec fn err_view(e: TypeError) -> TypeErrorV {
    match e {
        TypeError::Undefined(n) => TypeErrorV::Undefined(n@),
        TypeError::Mismatch => TypeErrorV::Mismatch,
        TypeError::UnsupportedConstruct(n) => TypeErrorV::UnsupportedConstruct(n@),
    }
}

/// The bindings a function's parameters contribute: each parameter is a
/// number, bound immutably.
pub open spec fn params_env(params: Seq<Seq<char>>) -> Seq<SymbolV> {
    Seq::new(params.len(), |i: int| SymbolV {
        name: params[i],
        typ: TypeV::Number,
        is_mutable: false,
    })
}

/// The typing judgment: the type assigned to `ast` and the environment left
/// behind, or the first failure.
pub open spec fn spec_check(ast: AstV, env: Seq<SymbolV>) -> Result<
    (TypeV, Seq<SymbolV>),
    TypeErrorV,
>
    decreases ast,
{
    match ast {
        AstV::Program(stmts) => match spec_check_seq(stmts, env) {
            Ok((_, env2)) => Ok((TypeV::Void, env2)),
            Err(e) => Err(e),
        },
        AstV::FunctionDecl { name, params, body } => {
            match spec_check_seq(body, env + params_env(params)) {
                Ok((t, _)) => Ok((t, env)),
                Err(e) => Err(e),
            }
        },
        AstV::VariableDecl { name, initializer } => match spec_check(*initializer, env) {
            Ok((t, env1)) => Ok(
                (t, env1.push(SymbolV { name, typ: t, is_mutable: true })),
            ),
            Err(e) => Err(e),
        },
        AstV::VarDecl { name, init, typ } => {
            let checked = match init {
                Some(e) => spec_check(*e, env),
                None => Ok((TypeV::Unknown, env)),
            };
            match checked {
                Ok((ti, env1)) => {
                    let eff = match typ {
                        Some(a) => spec_from_annotation(a),
                        None => ti,
                    };
                    Ok((eff, env1.push(SymbolV { name, typ: eff, is_mutable: true })))
                },
                Err(e) => Err(e),
            }
        },
        AstV::ReturnStmt(e) => spec_check(*e, env),
        AstV::ExpressionStmt(e) => spec_check(*e, env),
        AstV::BinaryExpr { left, operator, right } => match spec_check(*left, env) {
            Ok((tl, env1)) => match spec_check(*right, env1) {
                Ok((tr, env2)) => if tl == tr {
                    Ok((tl, env2))
                } else {
                    Err(TypeErrorV::Mismatch)
                },
                Err(e) => Err(e),
            },
            Err(e) => Err(e),
        },
        AstV::Identifier(n) => match spec_lookup(env, n) {
            Some((t, _)) => Ok((t, env)),
            None => Err(TypeErrorV::Undefined(n)),
        },
        AstV::NumberLiteral(_) => Ok((TypeV::Number, env)),
        AstV::CallExpr { callee, args } => if callee == "console.log"@ {
            if args.len() == 0 {
                Err(TypeErrorV::UnsupportedConstruct(callee))
            } else {
                match spec_check_seq(args, env) {
                    Ok((_, env2)) => Ok((TypeV::Void, env2)),
                    Err(e) => Err(e),
                }
            }
        } else {
            Err(TypeErrorV::UnsupportedConstruct(callee))
        },
    }
}

/// The typing judgment for a statement sequence, threading the environment:
/// the type of the last statement (`Void` for an empty sequence) and the
/// final environment, or the first failure.
pub open spec fn spec_check_seq(stmts: Seq<AstV>, env: Seq<SymbolV>) -> Result<
    (TypeV, Seq<SymbolV>),
    TypeErrorV,
>
    decreases stmts,
{
    if stmts.len() == 0 {
        Ok((TypeV::Void, env))
    } else {
        match spec_check(stmts[0], env) {
            Ok((t0, env1)) => if stmts.len() == 1 {
                Ok((t0, env1))
            } else {
                spec_check_seq(stmts.drop_first(), env1)
            },
            Err(e) => Err(e),
        }
    }
}

/// `e2` carries `e1` as a prefix.
pub open spec fn env_extends(e1: Seq<SymbolV>, e2: Seq<SymbolV>) -> bool {
    e2.len() >= e1.len() && e2.take(e1.len() as int) == e1
}

proof fn lemma_extends_trans(e1: Seq<SymbolV>, e2: Seq<SymbolV>, e3: Seq<SymbolV>)
    requires
        env_extends(e1, e2),
        env_extends(e2, e3),
    ensures
        env_extends(e1, e3),
{
    assert(e3.take(e1.len() as int) =~= e1);
}

/// Checking only ever appends bindings: the resulting environment carries the
/// starting one as a prefix.
pub proof fn lemma_check_extends(ast: AstV, env: Seq<SymbolV>)
    ensures
        spec_check(ast, env) matches Ok(te) ==> env_extends(env, te.1),
    decreases ast,
{
    assert(env.take(env.len() as int) =~= env);
    match ast {
        AstV::Program(stmts) => {
            lemma_check_seq_extends(stmts, env);
        },
        AstV::FunctionDecl { name, params, body } => {
        },
        AstV::VariableDecl { name, initializer } => {
            lemma_check_extends(*initializer, env);
            if let Ok((t, env1)) = spec_check(*initializer, env) {
                assert(env1.push(SymbolV { name, typ: t, is_mutable: true }).take(
                    env.len() as int,
                ) =~= env1.take(env.len() as int));
            }
        },
        AstV::VarDecl { name, init, typ } => {
            match init {
                Some(e) => {
                    lemma_check_extends(*e, env);
                    if let Ok((ti, env1)) = spec_check(*e, env) {
                        let eff = match typ {
                            Some(a) => spec_from_annotation(a),
                            None => ti,
                        };
                        assert(env1.push(SymbolV { name, typ: eff, is_mutable: true }).take(
                            env.len() as int,
                        ) =~= env1.take(env.len() as int));
                    }
                },
                None => {
                    let eff = match typ {
                        Some(a) => spec_from_annotation(a),
                        None => TypeV::Unknown,
                    };
                    assert(env.push(SymbolV { name, typ: eff, is_mutable: true }).take(
                        env.len() as int,
                    ) =~= env);
                },
            }
        },
        AstV::ReturnStmt(e) => {
            lemma_check_extends(*e, env);
        },
        AstV::ExpressionStmt(e) => {
            lemma_check_extends(*e, env);
        },
        AstV::BinaryExpr { left, operator, right } => {
            lemma_check_extends(*left, env);
            if let Ok((tl, env1)) = spec_check(*left, env) {
                lemma_check_extends(*right, env1);
                if let Ok((tr, env2)) = spec_check(*right, env1) {
                    lemma_extends_trans(env, env1, env2);
                }
            }
        },
        AstV::Identifier(n) => {
        },
        AstV::NumberLiteral(_) => {
        },
        AstV::CallExpr { callee, args } => {
            lemma_check_seq_extends(args, env);
        },
    }
}

/// Checking a statement sequence only ever appends bindings.
pub proof fn lemma_check_seq_extends(stmts: Seq<AstV>, env: Seq<SymbolV>)
    ensures
        spec_check_seq(stmts, env) matches Ok(te) ==> env_extends(env, te.1),
    decreases stmts,
{
    assert(env.take(env.len() as int) =~= env);
    if stmts.len() > 0 {
        lemma_check_extends(stmts[0], env);
        if let Ok((t0, env1)) = spec_check(stmts[0], env) {
            if stmts.len() > 1 {
                lemma_check_seq_extends(stmts.drop_first(), env1);
                if let Ok((tr, env2)) = spec_check_seq(stmts.drop_first(), env1) {
                    lemma_extends_trans(env, env1, env2);
                }
            }
        }
    }
}

/// A binary expression whose operands check to different types — such as a
/// number next to a boolean — fails with a mismatch.
pub proof fn lemma_mixed_operands_mismatch(
    left: AstV,
    right: AstV,
    operator: crate::parser::BinaryOp,
    env: Seq<SymbolV>,
    l: (TypeV, Seq<SymbolV>),
    rr: (TypeV, Seq<SymbolV>),
)
    requires
        spec_check(left, env) == Ok::<_, TypeErrorV>(l),
        spec_check(right, l.1) == Ok::<_, TypeErrorV>(rr),
        l.0 == TypeV::Number,
        rr.0 == TypeV::Boolean,
    ensures
        spec_check(
            AstV::BinaryExpr { left: Box::new(left), operator, right: Box::new(right) },
            env,
        ) == Err::<(TypeV, Seq<SymbolV>), _>(TypeErrorV::Mismatch),
{
}

/// How an executable checking result relates to the judgment: same success,
/// same type, same environment, same failure.
pub open spec fn check_matches(
    r: Result<Type, TypeError>,
    s: Result<(TypeV, Seq<SymbolV>), TypeErrorV>,
    env_after: Seq<SymbolV>,
) -> bool {
    match (r, s) {
        (Ok(t), Ok(te)) => type_view(t) == te.0 && env_after == te.1,
        (Err(e), Err(ev)) => err_view(e) == ev,
        _ => false,
    }
}

/// The type checker: a symbol table driven over the tree.
#[derive(Debug)]
pub struct TypeChecker {
    symbol_table: SymbolTable,
}

impl TypeChecker {
    /// The current environment.
    pub closed spec fn env(&self) -> Seq<SymbolV> {
        self.symbol_table.env()
    }

    /// The current scope-start stack.
    pub closed spec fn starts(&self) -> Seq<usize> {
        self.symbol_table.starts()
    }

    /// Well-formed: the symbol table is.
    pub closed spec fn wf(&self) -> bool {
        self.symbol_table.wf()
    }

    /// Creates a checker with an empty outermost scope.
    pub fn new() -> (r: Self)
        ensures
            r.wf(),
            r.env() == Seq::<SymbolV>::empty(),
            r.starts() == Seq::<usize>::empty(),
    {
        TypeChecker { symbol_table: SymbolTable::new() }
    }

    /// Checks one tree, threading the environment through it.
    pub fn check(&mut self, ast: &AstNode) -> (r: Result<Type, TypeError>)
        requires
            old(self).wf(),
        ensures
            final(self).wf(),
            final(self).starts() == old(self).starts(),
            check_matches(r, spec_check(ast_view(*ast), old(self).env()), final(self).env()),
        decreases *ast,
    {
        let ghost env0 = self.env();
        match ast {
            AstNode::Program(stmts) => {
                proof {
                    assert(decreases_to!(*ast => *stmts));
                }
                match self.check_seq(stmts) {
                    Ok(_) => Ok(Type::Void),
                    Err(e) => Err(e),
                }
            },
            AstNode::FunctionDecl { name, params, body } => {
                self.symbol_table.enter_scope();
                let ghost pv = crate::parser::seq_str_view(params@);
                let mut i: usize = 0;
                while i < params.len()
                    invariant
                        self.wf(),
                        i <= params@.len(),
                        pv == crate::parser::seq_str_view(params@),
                        self.env() == env0 + params_env(pv).take(i as int),
                        self.starts() == old(self).starts().push(
                            old(self).symbol_table.binds_len(),
                        ),
                    decreases params@.len() - i,
                {
                    self.symbol_table.define(params[i].clone(), Type::Number, false);
                    i += 1;
                    proof {
                        assert(env0 + params_env(pv).take(i - 1) + seq![
                            SymbolV {
                                name: pv[i - 1],
                                typ: TypeV::Number,
                                is_mutable: false,
                            },
                        ] =~= env0 + params_env(pv).take(i as int));
                    }
                }
                proof {
                    assert(params_env(pv).take(i as int) =~= params_env(pv));
                }
                let body_result = self.check_seq(body);
                proof {
                    lemma_check_seq_extends(seq_ast_view(body@), env0 + params_env(pv));
                    assert(self.starts().len() > 0);
                }
                self.symbol_table.exit_scope();
                proof {
                    assert(old(self).starts().push(
                        old(self).symbol_table.binds_len(),
                    ).drop_last() =~= old(self).starts());
                    if let Ok(te) = spec_check_seq(seq_ast_view(body@), env0 + params_env(pv)) {
                        assert(te.1.take(env0.len() as int) =~= (env0 + params_env(pv)).take(
                            env0.len() as int,
                        ));
                        assert((env0 + params_env(pv)).take(env0.len() as int) =~= env0);
                    }
                }
                match body_result {
                    Ok(t) => Ok(t),
                    Err(e) => Err(e),
                }
            },
            AstNode::VariableDecl { name, initializer } => {
                proof {
                    assert(decreases_to!(*ast => **initializer));
                }
                match self.check(&**initializer) {
                    Ok(t) => {
                        let tc = clone_type(&t);
                        self.symbol_table.define(name.clone(), tc, true);
                        Ok(t)
                    },
                    Err(e) => Err(e),
                }
            },
            AstNode::VarDecl { name, init, typ } => {
                let checked: Result<Type, TypeError> = match init {
                    Some(e) => {
                        proof {
                            assert(decreases_to!(*ast => **e));
                        }
                        self.check(&**e)
                    },
                    None => Ok(Type::Unknown),
                };
                match checked {
                    Ok(ti) => {
                        let eff: Type = match typ {
                            Some(a) => Type::from_annotation(a.as_str()),
                            None => ti,
                        };
                        let ec = clone_type(&eff);
                        self.symbol_table.define(name.clone(), ec, true);
                        Ok(eff)
                    },
                    Err(e) => Err(e),
                }
            },
            AstNode::ReturnStmt(e) => {
                proof {
                    assert(decreases_to!(*ast => **e));
                }
                self.check(&**e)
            },
            AstNode::ExpressionStmt(e) => {
                proof {
                    assert(decreases_to!(*ast => **e));
                }
                self.check(&**e)
            },
            AstNode::BinaryExpr { left, operator, right } => {
                proof {
                    assert(decreases_to!(*ast => **left));
                }
                match self.check(&**left) {
                    Ok(tl) => {
                        proof {
                            assert(decreases_to!(*ast => **right));
                        }
                        match self.check(&**right) {
                            Ok(tr) => {
                                if type_eq(&tl, &tr) {
                                    Ok(tl)
                                } else {
                                    Err(TypeError::Mismatch)
                                }
                            },
                            Err(e) => Err(e),
                        }
                    },
                    Err(e) => Err(e),
                }
            },
            AstNode::Identifier(n) => {
                let found: Option<Type> = match self.symbol_table.lookup(n.as_str()) {
                    Some(sym) => Some(clone_type(&sym.typ)),
                    None => None,
                };
                match found {
                    Some(t) => Ok(t),
                    None => Err(TypeError::Undefined(n.clone())),
                }
            },
            AstNode::NumberLiteral(_) => Ok(Type::Number),
            AstNode::CallExpr { callee, args } => {
                proof {
                    crate::parser::lemma_seq_ast_view(args@);
                }
                if str_eq(callee.as_str(), "console.log") {
                    if args.len() == 0 {
                        Err(TypeError::UnsupportedConstruct(callee.clone()))
                    } else {
                        proof {
                            assert(decreases_to!(*ast => *args));
                        }
                        match self.check_seq(args) {
                            Ok(_) => Ok(Type::Void),
                            Err(e) => Err(e),
                        }
                    }
                } else {
                    Err(TypeError::UnsupportedConstruct(callee.clone()))
                }
            },
        }
    }

    /// Checks a statement sequence in order, threading the environment, and
    /// returns the type of the last statement.
    fn check_seq(&mut self, stmts: &Vec<AstNode>) -> (r: Result<Type, TypeError>)
        requires
            old(self).wf(),
        ensures
            final(self).wf(),
            final(self).starts() == old(self).starts(),
            check_matches(
                r,
                spec_check_seq(seq_ast_view(stmts@), old(self).env()),
                final(self).env(),
            ),
        decreases *stmts,
    {
        proof {
            crate::parser::lemma_seq_ast_view(stmts@);
        }
        let ghost sa = seq_ast_view(stmts@);
        let ghost env0 = self.env();
        let n: usize = stmts.len();
        let mut last: Type = Type::Void;
        let mut i: usize = 0;
        proof {
            assert(sa.subrange(0, sa.len() as int) =~= sa);
        }
        while i < n
            invariant
                self.wf(),
                n == stmts@.len(),
                sa == seq_ast_view(stmts@),
                sa.len() == n,
                forall|j: int| 0 <= j < n ==> #[trigger] sa[j] == ast_view(stmts@[j]),
                i <= n,
                env0 == old(self).env(),
                self.starts() == old(self).starts(),
                i < n ==> spec_check_seq(sa, env0) == spec_check_seq(
                    sa.subrange(i as int, n as int),
                    self.env(),
                ),
                i == n ==> spec_check_seq(sa, env0) == Ok::<_, TypeErrorV>(
                    (type_view(last), self.env()),
                ),
                i == 0 ==> self.env() == env0,
            decreases n - i,
        {
            proof {
                assert(decreases_to!(*stmts => stmts@[i as int]));
            }
            let ghost env_cur = self.env();
            let step = self.check(&stmts[i]);
            proof {
                assert(sa.subrange(i as int, n as int)[0] == sa[i as int]);
            }
            match step {
                Ok(t) => {
                    proof {
                        if i + 1 < n {
                            assert(sa.subrange(i as int, n as int).drop_first() =~= sa.subrange(
                                i as int + 1,
                                n as int,
                            ));
                        }
                    }
                    last = t;
                    i += 1;
                },
                Err(e) => {
                    proof {
                        let sub = sa.subrange(i as int, n as int);
                        assert(sub[0] == ast_view(stmts@[i as int]));
                        assert(spec_check(sub[0], env_cur) is Err);
                        assert(spec_check_seq(sub, env_cur) == spec_check(sub[0], env_cur));
                        assert(spec_check_seq(sa, env0) == spec_check(sub[0], env_cur));
                    }
                    return Err(e);
                },
            }
        }
        if n == 0 {
            proof {
                assert(spec_check_seq(sa, env0) == Ok::<_, TypeErrorV>((TypeV::Void, env0)));
            }
        }
        Ok(last)
    }
}

} // verus!
