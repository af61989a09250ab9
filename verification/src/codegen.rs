//! The code generator: walks the checked tree and emits intermediate
//! representation instructions, driving the heap tracker for every
//! reference-typed allocation.
//!
//! The intermediate form is a stack machine: every expression leaves exactly
//! one value on the stack. Each top-level function declaration becomes a
//! function of its own in the intermediate module; all other top-level
//! statements make up `main`. Every declared binding is registered with the
//! heap tracker under its source name, a conservative over-approximation of
//! escape analysis. Emission order is exactly program declaration order.

use crate::gc::GarbageCollector;
use crate::parser::{ast_view, seq_ast_view, seq_str_view, AstNode, AstV, BinaryOp};
use crate::text::str_eq;
use vstd::prelude::*;

verus! {

broadcast use vstd::std_specs::vec::group_vec_axioms;

/// One stack-machine instruction.
#[derive(Debug, Clone, Copy, PartialEq, Eq, Structural)]
pub enum Instruction {
    /// Push a constant.
    Push(u64),
    /// Push the value of a stack slot.
    Load(usize),
    /// Pop a value into a stack slot.
    Store(usize),
    /// Pop a value, print it, and push the call's result, zero.
    Print,
    /// Pop two values and push their wrapping sum.
    Add,
    /// Pop two values and push their wrapping difference.
    Sub,
    /// Finish the function.
    Ret,
}

/// A code-generation failure.
#[derive(Debug)]
pub enum CodegenError {
    /// An identifier had no slot; after a successful type check this marks a
    /// desynchronization between the checker and the generator.
    UndefinedVariable(String),
    /// A construct outside the supported subset.
    Unsupported,
    /// The external backend failed; never produced by generation itself.
    BackendFailure,
}

/// The mathematical form of a code-generation failure.
#[verifier::ext_equal]
pub enum CodegenErrV {
    UndefinedVariable(Seq<char>),
    Unsupported,
    BackendFailure,
}

/// The mathematical form of a failure value.
pub open spec fn cg_err_view(e: CodegenError) -> CodegenErrV {
    match e {
        CodegenError::UndefinedVariable(n) => CodegenErrV::UndefinedVariable(n@),
        CodegenError::Unsupported => CodegenErrV::Unsupported,
        CodegenError::BackendFailure => CodegenErrV::BackendFailure,
    }
}

/// One generated function: its name and instruction sequence.
#[derive(Debug)]
pub struct IrFunction {
    pub name: String,
    pub instructions: Vec<Instruction>,
}

/// The mathematical form of a generated function.
#[verifier::ext_equal]
pub struct IrFunctionV {
    pub name: Seq<char>,
    pub instructions: Seq<Instruction>,
}

/// The mathematical form of one generated function value.
pub open spec fn ir_fn_view(f: IrFunction) -> IrFunctionV {
    IrFunctionV { name: f.name@, instructions: f.instructions@ }
}

/// The mathematical form of a function list.
pub open spec fn seq_ir_fn_view(s: Seq<IrFunction>) -> Seq<IrFunctionV> {
    Seq::new(s.len(), |i: int| ir_fn_view(s[i]))
}

/// The intermediate module: generated functions in emission order.
#[derive(Debug)]
pub struct IrModule {
    pub functions: Vec<IrFunction>,
}

impl View for IrModule {
    type V = Seq<IrFunctionV>;

    open spec fn view(&self) -> Seq<IrFunctionV> {
        seq_ir_fn_view(self.functions@)
    }
}

/// The slot bound to `n`: the most recent binding of that name.
pub open spec fn slot_lookup(vars: Seq<(Seq<char>, usize)>, n: Seq<char>) -> Option<usize>
    decreases vars.len(),
{
    if vars.len() == 0 {
        None
    } else if vars.last().0 == n {
        Some(vars.last().1)
    } else {
        slot_lookup(vars.drop_last(), n)
    }
}

/// The generator state threaded through statement emission: the name-to-slot
/// mapping, the next free slot, and the heap-tracker contents.
#[verifier::ext_equal]
pub struct GenSt {
    pub vars: Seq<(Seq<char>, usize)>,
    pub next_slot: int,
    pub gc: Map<Seq<char>, (u64, u32)>,
}

/// The instructions an expression compiles to, leaving exactly one value on
/// the stack.
pub open spec fn spec_gen_expr(e: AstV, vars: Seq<(Seq<char>, usize)>) -> Result<
    Seq<Instruction>,
    CodegenErrV,
>
    decreases e,
{
    match e {
        AstV::NumberLiteral(v) => Ok(seq![Instruction::Push(v)]),
        AstV::Identifier(n) => match slot_lookup(vars, n) {
            Some(s) => Ok(seq![Instruction::Load(s)]),
            None => Err(CodegenErrV::UndefinedVariable(n)),
        },
        AstV::BinaryExpr { left, operator, right } => match spec_gen_expr(*left, vars) {
            Err(er) => Err(er),
            Ok(li) => match spec_gen_expr(*right, vars) {
                Err(er) => Err(er),
                Ok(ri) => Ok(
                    li + ri + seq![
                        if operator is Plus {
                            Instruction::Add
                        } else {
                            Instruction::Sub
                        },
                    ],
                ),
            },
        },
        AstV::CallExpr { callee, args } => if callee == "console.log"@ && args.len() >= 1 {
            match spec_gen_expr(args[0], vars) {
                Err(er) => Err(er),
                Ok(ai) => Ok(ai + seq![Instruction::Print]),
            }
        } else {
            Err(CodegenErrV::Unsupported)
        },
        _ => Err(CodegenErrV::Unsupported),
    }
}

/// The instructions a statement emits into the surrounding function, and the
/// generator state it leaves behind.
pub open spec fn spec_gen_stmt(s: AstV, st: GenSt) -> Result<
    (Seq<Instruction>, GenSt),
    CodegenErrV,
>
    decreases s,
{
    match s {
        AstV::VariableDecl { name, initializer } => spec_gen_binding(
            name,
            *initializer,
            st,
        ),
        AstV::VarDecl { name, init, typ } => match init {
            Some(e) => spec_gen_binding(name, *e, st),
            None => Ok((Seq::empty(), st)),
        },
        AstV::ExpressionStmt(e) => match spec_gen_expr(*e, st.vars) {
            Err(er) => Err(er),
            Ok(is) => Ok((is, st)),
        },
        AstV::ReturnStmt(e) => match spec_gen_expr(*e, st.vars) {
            Err(er) => Err(er),
            Ok(is) => Ok((is + seq![Instruction::Ret], st)),
        },
        _ => Err(CodegenErrV::Unsupported),
    }
}

/// Emits a declared binding: the initializer's value is stored into a fresh
/// slot, the binding is recorded, and the allocation is registered with the
/// heap tracker at a count of one.
pub open spec fn spec_gen_binding(name: Seq<char>, init: AstV, st: GenSt) -> Result<
    (Seq<Instruction>, GenSt),
    CodegenErrV,
>
    decreases init,
{
    match spec_gen_expr(init, st.vars) {
        Err(er) => Err(er),
        Ok(is) => if st.next_slot >= usize::MAX {
            Err(CodegenErrV::Unsupported)
        } else {
            let slot = st.next_slot as usize;
            Ok(
                (
                    is + seq![Instruction::Store(slot)],
                    GenSt {
                        vars: st.vars.push((name, slot)),
                        next_slot: st.next_slot + 1,
                        gc: st.gc.insert(name, (slot as u64, 1u32)),
                    },
                ),
            )
        },
    }
}

/// Emits a statement sequence, concatenating the instructions and threading
/// the state.
pub open spec fn spec_gen_stmts(ss: Seq<AstV>, st: GenSt) -> Result<
    (Seq<Instruction>, GenSt),
    CodegenErrV,
>
    decreases ss,
{
    if ss.len() == 0 {
        Ok((Seq::empty(), st))
    } else {
        match spec_gen_stmt(ss[0], st) {
            Err(er) => Err(er),
            Ok((is0, st1)) => match spec_gen_stmts(ss.drop_first(), st1) {
                Err(er) => Err(er),
                Ok((isr, st2)) => Ok((is0 + isr, st2)),
            },
        }
    }
}

/// The slot bindings a function's parameters start with: parameter `i` in
/// slot `i`.
pub open spec fn param_slots(params: Seq<Seq<char>>) -> Seq<(Seq<char>, usize)> {
    Seq::new(params.len(), |i: int| (params[i], i as usize))
}

/// Emits one function: parameters bound to the first slots, the body in
/// order, and a trailing return. The heap tracker carries across functions.
pub open spec fn spec_gen_function(
    name: Seq<char>,
    params: Seq<Seq<char>>,
    body: Seq<AstV>,
    gc: Map<Seq<char>, (u64, u32)>,
) -> Result<(IrFunctionV, Map<Seq<char>, (u64, u32)>), CodegenErrV> {
    if params.len() > usize::MAX {
        Err(CodegenErrV::Unsupported)
    } else {
        let st0 = GenSt { vars: param_slots(params), next_slot: params.len() as int, gc };
        match spec_gen_stmts(body, st0) {
            Err(er) => Err(er),
            Ok((is, st1)) => Ok(
                (
                    IrFunctionV { name, instructions: is + seq![Instruction::Ret] },
                    st1.gc,
                ),
            ),
        }
    }
}

/// Emits a whole program: one function per top-level function declaration,
/// in order, and a `main` holding the remaining top-level statements, ending
/// in a return. The result is the emitted function list, `main` last, and
/// the final heap-tracker contents.
pub open spec fn spec_generate(
    stmts: Seq<AstV>,
    st: GenSt,
    main_acc: Seq<Instruction>,
    fns_acc: Seq<IrFunctionV>,
) -> Result<(Seq<IrFunctionV>, Seq<Instruction>, GenSt), CodegenErrV>
    decreases stmts,
{
    if stmts.len() == 0 {
        Ok((fns_acc, main_acc, st))
    } else {
        match stmts[0] {
            AstV::FunctionDecl { name, params, body } => {
                match spec_gen_function(name, params, body, st.gc) {
                    Err(er) => Err(er),
                    Ok((f, gc1)) => spec_generate(
                        stmts.drop_first(),
                        GenSt { vars: st.vars, next_slot: st.next_slot, gc: gc1 },
                        main_acc,
                        fns_acc.push(f),
                    ),
                }
            },
            _ => match spec_gen_stmt(stmts[0], st) {
                Err(er) => Err(er),
                Ok((is, st1)) => spec_generate(
                    stmts.drop_first(),
                    st1,
                    main_acc + is,
                    fns_acc,
                ),
            },
        }
    }
}

/// The mathematical form of a name-to-slot list.
pub open spec fn vars_view(s: Seq<(String, usize)>) -> Seq<(Seq<char>, usize)> {
    Seq::new(s.len(), |i: int| (s[i].0@, s[i].1))
}

/// The name-to-slot mapping and slot counter of the function being emitted.
#[derive(Debug)]
pub struct FnCtx {
    vars: Vec<(String, usize)>,
    next_slot: usize,
}

impl FnCtx {
    /// The bindings, oldest first.
    pub closed spec fn vars_v(&self) -> Seq<(Seq<char>, usize)> {
        vars_view(self.vars@)
    }

    /// The next free slot.
    pub closed spec fn next_v(&self) -> int {
        self.next_slot as int
    }
}

/// Finds the slot bound to `n`, most recent binding first.
fn find_slot(vars: &Vec<(String, usize)>, n: &str) -> (r: Option<usize>)
    ensures
        r == slot_lookup(vars_view(vars@), n@),
{
    proof {
        assert(vars_view(vars@).take(vars@.len() as int) =~= vars_view(vars@));
    }
    let mut i: usize = vars.len();
    while i > 0
        invariant
            i <= vars@.len(),
            slot_lookup(vars_view(vars@), n@) == slot_lookup(
                vars_view(vars@).take(i as int),
                n@,
            ),
        decreases i,
    {
        i = i - 1;
        if str_eq(vars[i].0.as_str(), n) {
            proof {
                assert(vars_view(vars@).take((i + 1) as int).last() == vars_view(vars@)[i as int]);
            }
            return Some(vars[i].1);
        }
        proof {
            assert(vars_view(vars@).take((i + 1) as int).drop_last() =~= vars_view(vars@).take(
                i as int,
            ));
        }
    }
    None
}

/// Emits the instructions for one expression.
fn generate_expression(ctx: &FnCtx, e: &AstNode) -> (r: Result<Vec<Instruction>, CodegenError>)
    ensures
        ({
            let s = spec_gen_expr(ast_view(*e), ctx.vars_v());
            match r {
                Ok(is) => s == Ok::<_, CodegenErrV>(is@),
                Err(er) => s == Err::<Seq<Instruction>, _>(cg_err_view(er)),
            }
        }),
    decreases *e,
{
    match e {
        AstNode::NumberLiteral(v) => {
            let mut out: Vec<Instruction> = Vec::new();
            out.push(Instruction::Push(*v));
            proof {
                assert(out@ =~= seq![Instruction::Push(*v)]);
            }
            Ok(out)
        },
        AstNode::Identifier(n) => {
            match find_slot(&ctx.vars, n.as_str()) {
                Some(slot) => {
                    let mut out: Vec<Instruction> = Vec::new();
                    out.push(Instruction::Load(slot));
                    proof {
                        assert(out@ =~= seq![Instruction::Load(slot)]);
                    }
                    Ok(out)
                },
                None => Err(CodegenError::UndefinedVariable(n.clone())),
            }
        },
        AstNode::BinaryExpr { left, operator, right } => {
            proof {
                assert(decreases_to!(*e => **left));
            }
            match generate_expression(ctx, &**left) {
                Err(er) => Err(er),
                Ok(mut li) => {
                    proof {
                        assert(decreases_to!(*e => **right));
                    }
                    match generate_expression(ctx, &**right) {
                        Err(er) => Err(er),
                        Ok(mut ri) => {
                            let ghost liv = li@;
                            let ghost riv = ri@;
                            li.append(&mut ri);
                            let opcode = match operator {
                                BinaryOp::Plus => Instruction::Add,
                                BinaryOp::Minus => Instruction::Sub,
                            };
                            li.push(opcode);
                            proof {
                                assert(li@ =~= liv + riv + seq![opcode]);
                            }
                            Ok(li)
                        },
                    }
                },
            }
        },
        AstNode::CallExpr { callee, args } => {
            proof {
                crate::parser::lemma_seq_ast_view(args@);
            }
            if str_eq(callee.as_str(), "console.log") && args.len() >= 1 {
                proof {
                    assert(decreases_to!(*e => args@[0]));
                }
                match generate_expression(ctx, &args[0]) {
                    Err(er) => Err(er),
                    Ok(mut ai) => {
                        let ghost aiv = ai@;
                        ai.push(Instruction::Print);
                        proof {
                            assert(ai@ =~= aiv + seq![Instruction::Print]);
                        }
                        Ok(ai)
                    },
                }
            } else {
                Err(CodegenError::Unsupported)
            }
        },
        _ => Err(CodegenError::Unsupported),
    }
}

/// Emits a declared binding: stores the initializer into a fresh slot,
/// records the binding, registers the allocation with the heap tracker, and
/// remembers the name for teardown.
fn generate_variable_declaration(
    ctx: &mut FnCtx,
    gc: &mut GarbageCollector,
    registered: &mut Vec<String>,
    out: &mut Vec<Instruction>,
    name: &String,
    init: &AstNode,
) -> (r: Result<(), CodegenError>)
    requires
        old(gc).wf(),
    ensures
        final(gc).wf(),
        ({
            let s = spec_gen_binding(
                name@,
                ast_view(*init),
                GenSt { vars: old(ctx).vars_v(), next_slot: old(ctx).next_v(), gc: old(gc)@ },
            );
            match (r, s) {
                (Ok(_), Ok(d)) => final(out)@ == old(out)@ + d.0 && final(ctx).vars_v()
                    == d.1.vars && final(ctx).next_v() == d.1.next_slot && final(gc)@ == d.1.gc
                    && final(registered)@ == old(registered)@.push(*name),
                (Err(er), Err(ev)) => cg_err_view(er) == ev && final(out)@ == old(out)@
                    && final(ctx).vars_v() == old(ctx).vars_v() && final(ctx).next_v() == old(
                    ctx,
                ).next_v()
                    && final(gc)@ == old(gc)@ && final(registered)@ == old(registered)@,
                _ => false,
            }
        }),
    decreases *init,
{
    match generate_expression(ctx, init) {
        Err(er) => Err(er),
        Ok(mut is) => {
            if ctx.next_slot == usize::MAX {
                return Err(CodegenError::Unsupported);
            }
            let slot: usize = ctx.next_slot;
            is.push(Instruction::Store(slot));
            let ghost outv = out@;
            let ghost isv = is@;
            let mut is2 = is;
            out.append(&mut is2);
            proof {
                assert(out@ =~= outv + isv);
            }
            ctx.vars.push((name.clone(), slot));
            ctx.next_slot = ctx.next_slot + 1;
            gc.alloc_object(name.as_str(), slot as u64);
            registered.push(name.clone());
            proof {
                assert(ctx.vars_v() =~= old(ctx).vars_v().push((name@, slot)));
            }
            Ok(())
        },
    }
}

/// Emits one statement into the surrounding function.
fn generate_statement(
    ctx: &mut FnCtx,
    gc: &mut GarbageCollector,
    registered: &mut Vec<String>,
    out: &mut Vec<Instruction>,
    stmt: &AstNode,
) -> (r: Result<(), CodegenError>)
    requires
        old(gc).wf(),
    ensures
        final(gc).wf(),
        ({
            let s = spec_gen_stmt(
                ast_view(*stmt),
                GenSt { vars: old(ctx).vars_v(), next_slot: old(ctx).next_v(), gc: old(gc)@ },
            );
            match (r, s) {
                (Ok(_), Ok(d)) => final(out)@ == old(out)@ + d.0 && final(ctx).vars_v()
                    == d.1.vars && final(ctx).next_v() == d.1.next_slot && final(gc)@ == d.1.gc,
                (Err(er), Err(ev)) => cg_err_view(er) == ev && final(out)@ == old(out)@
                    && final(ctx).vars_v() == old(ctx).vars_v() && final(ctx).next_v() == old(
                    ctx,
                ).next_v()
                    && final(gc)@ == old(gc)@,
                _ => false,
            }
        }),
    decreases *stmt,
{
    match stmt {
        AstNode::VariableDecl { name, initializer } => {
            proof {
                assert(decreases_to!(*stmt => **initializer));
            }
            generate_variable_declaration(ctx, gc, registered, out, name, &**initializer)
        },
        AstNode::VarDecl { name, init, typ } => match init {
            Some(e) => {
                proof {
                    assert(decreases_to!(*stmt => **e));
                }
                generate_variable_declaration(ctx, gc, registered, out, name, &**e)
            },
            None => {
                proof {
                    assert(old(out)@ + Seq::<Instruction>::empty() =~= old(out)@);
                }
                Ok(())
            },
        },
        AstNode::ExpressionStmt(e) => {
            proof {
                assert(decreases_to!(*stmt => **e));
            }
            match generate_expression(ctx, &**e) {
                Err(er) => Err(er),
                Ok(is) => {
                    let ghost outv = out@;
                    let mut is2 = is;
                    out.append(&mut is2);
                    Ok(())
                },
            }
        },
        AstNode::ReturnStmt(e) => {
            proof {
                assert(decreases_to!(*stmt => **e));
            }
            match generate_expression(ctx, &**e) {
                Err(er) => Err(er),
                Ok(mut is) => {
                    let ghost isv = is@;
                    is.push(Instruction::Ret);
                    let ghost outv = out@;
                    let mut is2 = is;
                    out.append(&mut is2);
                    proof {
                        assert(out@ =~= outv + (isv + seq![Instruction::Ret]));
                    }
                    Ok(())
                },
            }
        },
        _ => Err(CodegenError::Unsupported),
    }
}

/// Emits one function declaration as a function of its own.
#[verifier::loop_isolation(false)]
fn generate_function(
    gc: &mut GarbageCollector,
    registered: &mut Vec<String>,
    name: &String,
    params: &Vec<String>,
    body: &Vec<AstNode>,
) -> (r: Result<IrFunction, CodegenError>)
    requires
        old(gc).wf(),
    ensures
        final(gc).wf(),
        ({
            let s = spec_gen_function(
                name@,
                seq_str_view(params@),
                seq_ast_view(body@),
                old(gc)@,
            );
            match (r, s) {
                (Ok(f), Ok(d)) => ir_fn_view(f) == d.0 && final(gc)@ == d.1,
                (Err(er), Err(ev)) => cg_err_view(er) == ev,
                _ => false,
            }
        }),
    decreases body@.len(), 1int,
{
    let ghost pv = seq_str_view(params@);
    let mut vars: Vec<(String, usize)> = Vec::new();
    let mut i: usize = 0;
    while i < params.len()
        invariant
            i <= params@.len(),
            pv == seq_str_view(params@),
            vars_view(vars@) == param_slots(pv).take(i as int),
        decreases params@.len() - i,
    {
        let cloned_name: String = params[i].clone();
        proof {
            assert(cloned_name@ == pv[i as int]);
        }
        vars.push((cloned_name, i));
        i += 1;
        proof {
            assert(vars_view(vars@) =~= param_slots(pv).take(i as int));
        }
    }
    let mut ctx = FnCtx { vars, next_slot: i };
    proof {
        assert(param_slots(pv).take(i as int) =~= param_slots(pv));
        assert(ctx.vars_v() == param_slots(pv));
        assert(ctx.next_v() == params@.len());
    }
    let mut out: Vec<Instruction> = Vec::new();
    let ghost sa = seq_ast_view(body@);
    let ghost st0 = GenSt { vars: ctx.vars_v(), next_slot: ctx.next_v(), gc: gc@ };
    proof {
        crate::parser::lemma_seq_ast_view(body@);
        assert(sa.subrange(0, sa.len() as int) =~= sa);
        assert(ctx.vars_v() == param_slots(pv));
        assert(out@ + Seq::<Instruction>::empty() =~= out@);
    }
    let n: usize = body.len();
    let mut j: usize = 0;
    while j < n
        invariant
            j <= n,
            n == body@.len(),
            sa == seq_ast_view(body@),
            sa.len() == n,
            forall|k: int| 0 <= k < n ==> #[trigger] sa[k] == ast_view(body@[k]),
            gc.wf(),
            ({
                let rest = spec_gen_stmts(
                    sa.subrange(j as int, n as int),
                    GenSt { vars: ctx.vars_v(), next_slot: ctx.next_v(), gc: gc@ },
                );
                match (spec_gen_stmts(sa, st0), rest) {
                    (Ok(d), Ok(d2)) => d.0 == out@ + d2.0 && d.1 == d2.1,
                    (Err(ev), Err(ev2)) => ev == ev2,
                    _ => false,
                }
            }),
        decreases n - j,
    {
        let ghost st_cur = GenSt { vars: ctx.vars_v(), next_slot: ctx.next_v(), gc: gc@ };
        let ghost sub = sa.subrange(j as int, n as int);
        proof {
            assert(decreases_to!(*body => body@[j as int]));
            assert(sub[0] == sa[j as int]);
        }
        let ghost out_head = out@;
        let step = generate_statement(&mut ctx, gc, registered, &mut out, &body[j]);
        proof {
            assert(sub.drop_first() =~= sa.subrange(j as int + 1, n as int));
        }
        match step {
            Ok(_) => {
                j += 1;
                proof {
                    let sub2 = sa.subrange(j as int, n as int);
                    let st_new = GenSt { vars: ctx.vars_v(), next_slot: ctx.next_v(), gc: gc@ };
                    if let Ok(d) = spec_gen_stmt(sub[0], st_cur) {
                        assert(out@ == out_head + d.0);
                        assert(st_new =~= d.1);
                        match spec_gen_stmts(sub2, st_new) {
                            Ok(d3) => {
                                assert(spec_gen_stmts(sub, st_cur) == Ok::<_, CodegenErrV>(
                                    (d.0 + d3.0, d3.1),
                                ));
                                assert(out_head + (d.0 + d3.0) =~= out@ + d3.0);
                            },
                            Err(ev3) => {
                                assert(spec_gen_stmts(sub, st_cur) == Err::<
                                    (Seq<Instruction>, GenSt),
                                    _,
                                >(ev3));
                            },
                        }
                    }
                }
            },
            Err(er) => {
                proof {
                    assert(spec_gen_stmt(sub[0], st_cur) is Err);
                    assert(spec_gen_stmts(sub, st_cur) is Err);
                }
                return Err(er);
            },
        }
    }
    proof {
        assert(sa.subrange(n as int, n as int) =~= Seq::<AstV>::empty());
        assert(spec_gen_stmts(sa.subrange(n as int, n as int), GenSt {
            vars: ctx.vars_v(),
            next_slot: ctx.next_v(),
            gc: gc@,
        }) == Ok::<_, CodegenErrV>((
            Seq::<Instruction>::empty(),
            GenSt { vars: ctx.vars_v(), next_slot: ctx.next_v(), gc: gc@ },
        )));
    }
    let mut instrs = out;
    let ghost outv = instrs@;
    instrs.push(Instruction::Ret);
    proof {
        assert(instrs@ =~= outv + seq![Instruction::Ret]);
        if let Ok(dfull) = spec_gen_stmts(sa, st0) {
            assert(dfull.0 =~= outv);
        }
    }
    Ok(IrFunction { name: name.clone(), instructions: instrs })
}

/// Releases every name in order: a record at count one is removed and the
/// name collected; a deeper count is decremented; an unknown name is a
/// no-op. The result is the final tracker contents and the collected names.
pub open spec fn spec_release(
    names: Seq<Seq<char>>,
    gc: Map<Seq<char>, (u64, u32)>,
    acc: Seq<Seq<char>>,
) -> (Map<Seq<char>, (u64, u32)>, Seq<Seq<char>>)
    decreases names.len(),
{
    if names.len() == 0 {
        (gc, acc)
    } else {
        let n = names[0];
        if gc.dom().contains(n) {
            if gc[n].1 == 1 {
                spec_release(names.drop_first(), gc.remove(n), acc.push(n))
            } else {
                spec_release(
                    names.drop_first(),
                    gc.insert(n, (gc[n].0, (gc[n].1 - 1) as u32)),
                    acc,
                )
            }
        } else {
            spec_release(names.drop_first(), gc, acc)
        }
    }
}

/// The mathematical form of a name list.
pub open spec fn names_view(s: Seq<String>) -> Seq<Seq<char>> {
    Seq::new(s.len(), |i: int| s[i]@)
}

/// The code generator: accumulates functions and the body of `main`, and
/// tracks every registered allocation for teardown.
#[derive(Debug)]
pub struct CodeGenerator {
    functions: Vec<IrFunction>,
    main_instrs: Vec<Instruction>,
    main_ctx: FnCtx,
    registered: Vec<String>,
    gc: GarbageCollector,
}

impl CodeGenerator {
    /// The functions emitted so far, in declaration order.
    pub closed spec fn fns_v(&self) -> Seq<IrFunctionV> {
        seq_ir_fn_view(self.functions@)
    }

    /// The instructions of `main` emitted so far.
    pub closed spec fn main_v(&self) -> Seq<Instruction> {
        self.main_instrs@
    }

    /// The generator state: `main`'s bindings and the heap tracker.
    pub closed spec fn st(&self) -> GenSt {
        GenSt {
            vars: self.main_ctx.vars_v(),
            next_slot: self.main_ctx.next_v(),
            gc: self.gc@,
        }
    }

    /// The heap-tracker contents.
    pub closed spec fn gc_v(&self) -> Map<Seq<char>, (u64, u32)> {
        self.gc@
    }

    /// Every name registered with the tracker, in registration order.
    pub closed spec fn registered_v(&self) -> Seq<Seq<char>> {
        names_view(self.registered@)
    }

    /// Well-formed: the heap tracker is.
    pub closed spec fn wf(&self) -> bool {
        self.gc.wf()
    }

    /// Creates a generator with an empty module and an empty tracker.
    pub fn new() -> (r: Self)
        ensures
            r.wf(),
            r.fns_v() == Seq::<IrFunctionV>::empty(),
            r.main_v() == Seq::<Instruction>::empty(),
            r.st() == (GenSt {
                vars: Seq::<(Seq<char>, usize)>::empty(),
                next_slot: 0int,
                gc: Map::<Seq<char>, (u64, u32)>::empty(),
            }),
            r.registered_v() == Seq::<Seq<char>>::empty(),
    {
        let r = CodeGenerator {
            functions: Vec::new(),
            main_instrs: Vec::new(),
            main_ctx: FnCtx { vars: Vec::new(), next_slot: 0 },
            registered: Vec::new(),
            gc: GarbageCollector::new(),
        };
        proof {
            assert(r.fns_v() =~= Seq::<IrFunctionV>::empty());
            assert(r.registered_v() =~= Seq::<Seq<char>>::empty());
            assert(r.st().vars =~= Seq::<(Seq<char>, usize)>::empty());
        }
        r
    }

    /// Emits a whole program: each top-level function declaration becomes a
    /// function of the module, every other top-level statement extends
    /// `main`.
    #[verifier::loop_isolation(false)]
    pub fn generate(&mut self, program: &AstNode) -> (r: Result<(), CodegenError>)
        requires
            old(self).wf(),
        ensures
            final(self).wf(),
            ({
                match ast_view(*program) {
                    AstV::Program(ss) => {
                        let s = spec_generate(
                            ss,
                            old(self).st(),
                            old(self).main_v(),
                            old(self).fns_v(),
                        );
                        match (r, s) {
                            (Ok(_), Ok(d)) => final(self).fns_v() == d.0 && final(self).main_v()
                                == d.1 && final(self).st() == d.2,
                            (Err(er), Err(ev)) => cg_err_view(er) == ev,
                            _ => false,
                        }
                    },
                    _ => r is Err && cg_err_view(r->Err_0) == CodegenErrV::Unsupported,
                }
            }),
    {
        match program {
            AstNode::Program(stmts) => {
                proof {
                    crate::parser::lemma_seq_ast_view(stmts@);
                }
                let ghost sa = seq_ast_view(stmts@);
                let ghost st0 = self.st();
                let ghost main0 = self.main_v();
                let ghost fns0 = self.fns_v();
                proof {
                    assert(sa.subrange(0, sa.len() as int) =~= sa);
                }
                let n: usize = stmts.len();
                let mut i: usize = 0;
                while i < n
                    invariant
                        i <= n,
                        n == stmts@.len(),
                        self.wf(),
                        spec_generate(sa, st0, main0, fns0) == spec_generate(
                            sa.subrange(i as int, n as int),
                            self.st(),
                            self.main_v(),
                            self.fns_v(),
                        ),
                    decreases n - i,
                {
                    let ghost sub = sa.subrange(i as int, n as int);
                    proof {
                        assert(sub[0] == sa[i as int]);
                        assert(sub.drop_first() =~= sa.subrange(i as int + 1, n as int));
                    }
                    match &stmts[i] {
                        AstNode::FunctionDecl { name, params, body } => {
                            let step = generate_function(
                                &mut self.gc,
                                &mut self.registered,
                                name,
                                params,
                                body,
                            );
                            match step {
                                Ok(f) => {
                                    let ghost fv = ir_fn_view(f);
                                    let ghost fns_before = self.functions@;
                                    self.functions.push(f);
                                    proof {
                                        assert(self.fns_v() =~= seq_ir_fn_view(fns_before).push(
                                            fv,
                                        ));
                                    }
                                    i += 1;
                                },
                                Err(er) => {
                                    return Err(er);
                                },
                            }
                        },
                        _ => {
                            let step = generate_statement(
                                &mut self.main_ctx,
                                &mut self.gc,
                                &mut self.registered,
                                &mut self.main_instrs,
                                &stmts[i],
                            );
                            match step {
                                Ok(_) => {
                                    i += 1;
                                },
                                Err(er) => {
                                    return Err(er);
                                },
                            }
                        },
                    }
                }
                proof {
                    assert(sa.subrange(n as int, n as int) =~= Seq::<AstV>::empty());
                }
                Ok(())
            },
            _ => Err(CodegenError::Unsupported),
        }
    }

    /// Teardown at the end of a compilation unit: decrements every tracked
    /// binding's count, in registration order, and returns the names whose
    /// storage became reclaimable.
    #[verifier::loop_isolation(false)]
    pub fn finish(&mut self) -> (r: Vec<String>)
        requires
            old(self).wf(),
        ensures
            final(self).wf(),
            final(self).gc_v() == spec_release(
                old(self).registered_v(),
                old(self).gc_v(),
                Seq::empty(),
            ).0,
            names_view(r@) == spec_release(
                old(self).registered_v(),
                old(self).gc_v(),
                Seq::empty(),
            ).1,
            final(self).registered_v() == Seq::<Seq<char>>::empty(),
            final(self).fns_v() == old(self).fns_v(),
            final(self).main_v() == old(self).main_v(),
    {
        let ghost reg0 = self.registered_v();
        let ghost gc0 = self.gc@;
        let mut out: Vec<String> = Vec::new();
        let n: usize = self.registered.len();
        let mut i: usize = 0;
        proof {
            assert(reg0.subrange(0, reg0.len() as int) =~= reg0);
            assert(names_view(out@) =~= Seq::<Seq<char>>::empty());
        }
        while i < n
            invariant
                i <= n,
                n == self.registered@.len(),
                self.wf(),
                self.registered@ == old(self).registered@,
                self.fns_v() == old(self).fns_v(),
                self.main_v() == old(self).main_v(),
                spec_release(reg0, gc0, Seq::empty()) == spec_release(
                    reg0.subrange(i as int, n as int),
                    self.gc@,
                    names_view(out@),
                ),
            decreases n - i,
        {
            let ghost sub = reg0.subrange(i as int, n as int);
            proof {
                assert(sub[0] == reg0[i as int]);
                assert(reg0[i as int] == self.registered@[i as int]@);
                assert(sub.drop_first() =~= reg0.subrange(i as int + 1, n as int));
            }
            let ghost gc_head = self.gc@;
            let ghost out_head = names_view(out@);
            proof {
                self.gc.lemma_no_dead_records();
            }
            let reclaimed = self.gc.decrement_ref(self.registered[i].as_str());
            if reclaimed {
                out.push(self.registered[i].clone());
                proof {
                    assert(names_view(out@) =~= out_head.push(reg0[i as int]));
                }
            }
            i += 1;
            proof {
                let nm = sub[0];
                if gc_head.dom().contains(nm) {
                    if gc_head[nm].1 == 1 {
                        assert(self.gc@ == gc_head.remove(nm));
                        assert(names_view(out@) == out_head.push(nm));
                        assert(spec_release(sub, gc_head, out_head) == spec_release(
                            sub.drop_first(),
                            self.gc@,
                            names_view(out@),
                        ));
                    } else {
                        assert(self.gc@ == gc_head.insert(
                            nm,
                            (gc_head[nm].0, (gc_head[nm].1 - 1) as u32),
                        ));
                        assert(spec_release(sub, gc_head, out_head) == spec_release(
                            sub.drop_first(),
                            self.gc@,
                            names_view(out@),
                        ));
                    }
                } else {
                    assert(self.gc@ == gc_head);
                    assert(spec_release(sub, gc_head, out_head) == spec_release(
                        sub.drop_first(),
                        self.gc@,
                        names_view(out@),
                    ));
                }
            }
        }
        proof {
            assert(reg0.subrange(n as int, n as int) =~= Seq::<Seq<char>>::empty());
        }
        self.registered = Vec::new();
        proof {
            assert(self.registered_v() =~= Seq::<Seq<char>>::empty());
        }
        out
    }

    /// Assembles the intermediate module: the emitted functions, then `main`
    /// with a trailing return.
    pub fn into_module(self) -> (m: IrModule)
        ensures
            m@ == self.fns_v().push(
                IrFunctionV {
                    name: "main"@,
                    instructions: self.main_v() + seq![Instruction::Ret],
                },
            ),
    {
        let CodeGenerator { functions, main_instrs, main_ctx, registered, gc } = self;
        let mut fns = functions;
        let mut instrs = main_instrs;
        let ghost mainv = instrs@;
        instrs.push(Instruction::Ret);
        proof {
            assert(instrs@ =~= mainv + seq![Instruction::Ret]);
        }
        let ghost fns_before = fns@;
        let main_name: String = "main".to_owned();
        let mf = IrFunction { name: main_name, instructions: instrs };
        let ghost mfv = ir_fn_view(mf);
        fns.push(mf);
        let m = IrModule { functions: fns };
        proof {
            assert(m@ =~= seq_ir_fn_view(fns_before).push(mfv));
        }
        m
    }
}

} // verus!
