//! Execution semantics for the intermediate form: a straight-line stack
//! machine, used to state and test what generated programs do.

use crate::codegen::{Instruction, IrModule};
use crate::text::str_eq;
use vstd::prelude::*;

verus! {

broadcast use vstd::std_specs::vec::group_vec_axioms;

/// A failure while running intermediate code: an instruction found too few
/// stack values or an unset slot, or the module has no entry function.
#[derive(Debug)]
pub enum RunError {
    StackUnderflow,
    UnboundSlot,
    NoMain,
}

/// The machine state: operand stack, stack slots, and everything printed.
#[verifier::ext_equal]
pub struct RunSt {
    pub stack: Seq<u64>,
    pub slots: Map<int, u64>,
    pub output: Seq<u64>,
}

/// Addition modulo two to the sixty-fourth.
pub open spec fn wrap_add(a: u64, b: u64) -> u64 {
    ((a + b) % 0x10000000000000000) as u64
}

/// Subtraction modulo two to the sixty-fourth.
pub open spec fn wrap_sub(a: u64, b: u64) -> u64 {
    ((a - b + 0x10000000000000000) % 0x10000000000000000) as u64
}

/// What one step does to the machine.
pub enum StepRes {
    /// Continue with the next instruction.
    Next(RunSt),
    /// The function returned.
    Done(RunSt),
    /// The instruction could not execute.
    Fail,
}

/// One instruction's effect.
pub open spec fn spec_step(ins: Instruction, st: RunSt) -> StepRes {
    match ins {
        Instruction::Push(v) => StepRes::Next(
            RunSt { stack: st.stack.push(v), ..st },
        ),
        Instruction::Load(s) => if st.slots.dom().contains(s as int) {
            StepRes::Next(RunSt { stack: st.stack.push(st.slots[s as int]), ..st })
        } else {
            StepRes::Fail
        },
        Instruction::Store(s) => if st.stack.len() > 0 {
            StepRes::Next(
                RunSt {
                    stack: st.stack.drop_last(),
                    slots: st.slots.insert(s as int, st.stack.last()),
                    ..st
                },
            )
        } else {
            StepRes::Fail
        },
        Instruction::Print => if st.stack.len() > 0 {
            StepRes::Next(
                RunSt {
                    stack: st.stack.drop_last().push(0u64),
                    output: st.output.push(st.stack.last()),
                    ..st
                },
            )
        } else {
            StepRes::Fail
        },
        Instruction::Add => if st.stack.len() >= 2 {
            StepRes::Next(
                RunSt {
                    stack: st.stack.drop_last().drop_last().push(
                        wrap_add(st.stack[st.stack.len() - 2], st.stack.last()),
                    ),
                    ..st
                },
            )
        } else {
            StepRes::Fail
        },
        Instruction::Sub => if st.stack.len() >= 2 {
            StepRes::Next(
                RunSt {
                    stack: st.stack.drop_last().drop_last().push(
                        wrap_sub(st.stack[st.stack.len() - 2], st.stack.last()),
                    ),
                    ..st
                },
            )
        } else {
            StepRes::Fail
        },
        Instruction::Ret => StepRes::Done(st),
    }
}

/// Runs instructions in order until a return, the end, or a failure.
pub open spec fn spec_run(instrs: Seq<Instruction>, st: RunSt) -> Option<RunSt>
    decreases instrs.len(),
{
    if instrs.len() == 0 {
        Some(st)
    } else {
        match spec_step(instrs[0], st) {
            StepRes::Fail => None,
            StepRes::Done(st1) => Some(st1),
            StepRes::Next(st1) => spec_run(instrs.drop_first(), st1),
        }
    }
}

/// The entry function of a module: the last function named `main`.
pub open spec fn spec_find_main(fns: Seq<crate::codegen::IrFunctionV>) -> Option<
    crate::codegen::IrFunctionV,
>
    decreases fns.len(),
{
    if fns.len() == 0 {
        None
    } else if fns.last().name == "main"@ {
        Some(fns.last())
    } else {
        spec_find_main(fns.drop_last())
    }
}

/// The mathematical form of a slot store: later writes win.
pub open spec fn slots_map(s: Seq<(usize, u64)>) -> Map<int, u64>
    decreases s.len(),
{
    if s.len() == 0 {
        Map::empty()
    } else {
        slots_map(s.drop_last()).insert(s.last().0 as int, s.last().1)
    }
}

/// The most recent write to slot `k`, if any.
pub open spec fn slots_lookup(s: Seq<(usize, u64)>, k: usize) -> Option<u64>
    decreases s.len(),
{
    if s.len() == 0 {
        None
    } else if s.last().0 == k {
        Some(s.last().1)
    } else {
        slots_lookup(s.drop_last(), k)
    }
}

proof fn lemma_slots_lookup(s: Seq<(usize, u64)>, k: usize)
    ensures
        slots_map(s).dom().contains(k as int) <==> slots_lookup(s, k) is Some,
        slots_lookup(s, k) matches Some(v) ==> slots_map(s)[k as int] == v,
    decreases s.len(),
{
    if s.len() > 0 {
        lemma_slots_lookup(s.drop_last(), k);
        if s.last().0 != k {
            assert(s.last().0 as int != k as int);
        }
    }
}

/// Runs one instruction sequence from an empty state and returns everything
/// it printed.
#[verifier::loop_isolation(false)]
pub fn run_instructions(instrs: &Vec<Instruction>) -> (r: Result<Vec<u64>, RunError>)
    ensures
        ({
            let s = spec_run(
                instrs@,
                RunSt { stack: Seq::empty(), slots: Map::empty(), output: Seq::empty() },
            );
            match r {
                Ok(out) => s matches Some(st) && out@ == st.output,
                Err(e) => s is None && !(e is NoMain),
            }
        }),
{
    let mut stack: Vec<u64> = Vec::new();
    let mut slots: Vec<(usize, u64)> = Vec::new();
    let mut output: Vec<u64> = Vec::new();
    let ghost st0 = RunSt { stack: Seq::empty(), slots: Map::empty(), output: Seq::empty() };
    proof {
        assert(slots_map(slots@) =~= Map::<int, u64>::empty());
    }
    let n: usize = instrs.len();
    let mut i: usize = 0;
    proof {
        assert(instrs@.subrange(0, n as int) =~= instrs@);
    }
    while i < n
        invariant
            i <= n,
            n == instrs@.len(),
            spec_run(instrs@, st0) == spec_run(
                instrs@.subrange(i as int, n as int),
                RunSt { stack: stack@, slots: slots_map(slots@), output: output@ },
            ),
        decreases n - i,
    {
        let ghost st_cur = RunSt { stack: stack@, slots: slots_map(slots@), output: output@ };
        let ghost sub = instrs@.subrange(i as int, n as int);
        proof {
            assert(sub[0] == instrs@[i as int]);
            assert(sub.drop_first() =~= instrs@.subrange(i as int + 1, n as int));
        }
        match instrs[i] {
            Instruction::Push(v) => {
                stack.push(v);
            },
            Instruction::Load(s) => {
                proof {
                    lemma_slots_lookup(slots@, s);
                    assert(slots@.take(slots@.len() as int) =~= slots@);
                }
                let mut j: usize = slots.len();
                let mut loaded: Option<u64> = None;
                while j > 0 && loaded.is_none()
                    invariant
                        j <= slots@.len(),
                        match loaded {
                            Some(v) => slots_lookup(slots@, s) == Some(v),
                            None => slots_lookup(slots@, s) == slots_lookup(
                                slots@.take(j as int),
                                s,
                            ),
                        },
                    decreases j,
                {
                    j = j - 1;
                    if slots[j].0 == s {
                        loaded = Some(slots[j].1);
                        proof {
                            assert(slots@.take((j + 1) as int).last() == slots@[j as int]);
                        }
                    } else {
                        proof {
                            assert(slots@.take((j + 1) as int).drop_last() =~= slots@.take(
                                j as int,
                            ));
                        }
                    }
                }
                match loaded {
                    Some(v) => {
                        stack.push(v);
                        proof {
                            assert(st_cur.slots[s as int] == v);
                        }
                    },
                    None => {
                        proof {
                            assert(!st_cur.slots.dom().contains(s as int));
                        }
                        return Err(RunError::UnboundSlot);
                    },
                }
            },
            Instruction::Store(s) => {
                match stack.pop() {
                    Some(v) => {
                        let ghost slots_before = slots@;
                        slots.push((s, v));
                        proof {
                            assert(slots@.drop_last() =~= slots_before);
                            assert(slots_map(slots@) =~= st_cur.slots.insert(s as int, v));
                        }
                    },
                    None => {
                        return Err(RunError::StackUnderflow);
                    },
                }
            },
            Instruction::Print => {
                match stack.pop() {
                    Some(v) => {
                        output.push(v);
                        stack.push(0);
                    },
                    None => {
                        return Err(RunError::StackUnderflow);
                    },
                }
            },
            Instruction::Add => {
                let b = match stack.pop() {
                    Some(v) => v,
                    None => {
                        return Err(RunError::StackUnderflow);
                    },
                };
                let a = match stack.pop() {
                    Some(v) => v,
                    None => {
                        return Err(RunError::StackUnderflow);
                    },
                };
                let sum: u64 = (((a as u128) + (b as u128)) % 0x10000000000000000u128) as u64;
                stack.push(sum);
                proof {
                    assert(stack@ =~= st_cur.stack.drop_last().drop_last().push(
                        wrap_add(a, b),
                    ));
                }
            },
            Instruction::Sub => {
                let b = match stack.pop() {
                    Some(v) => v,
                    None => {
                        return Err(RunError::StackUnderflow);
                    },
                };
                let a = match stack.pop() {
                    Some(v) => v,
                    None => {
                        return Err(RunError::StackUnderflow);
                    },
                };
                let diff: u64 = (((a as u128) + 0x10000000000000000u128 - (b as u128))
                    % 0x10000000000000000u128) as u64;
                stack.push(diff);
                proof {
                    assert(stack@ =~= st_cur.stack.drop_last().drop_last().push(
                        wrap_sub(a, b),
                    ));
                }
            },
            Instruction::Ret => {
                return Ok(output);
            },
        }
        i += 1;
        proof {
            assert(stack@ =~= (match spec_step(sub[0], st_cur) {
                StepRes::Next(st1) => st1,
                _ => st_cur,
            }).stack);
        }
    }
    Ok(output)
}

/// Runs a module's entry function from an empty state and returns everything
/// it printed.
pub fn run_main(m: &IrModule) -> (r: Result<Vec<u64>, RunError>)
    ensures
        ({
            match spec_find_main(m@) {
                None => r matches Err(e) && e is NoMain,
                Some(f) => {
                    let s = spec_run(
                        f.instructions,
                        RunSt { stack: Seq::empty(), slots: Map::empty(), output: Seq::empty() },
                    );
                    match r {
                        Ok(out) => s matches Some(st) && out@ == st.output,
                        Err(e) => s is None && !(e is NoMain),
                    }
                },
            }
        }),
{
    proof {
        assert(m@.take(m.functions@.len() as int) =~= m@);
    }
    let mut i: usize = m.functions.len();
    while i > 0
        invariant
            i <= m.functions@.len(),
            spec_find_main(m@) == spec_find_main(m@.take(i as int)),
            m@.len() == m.functions@.len(),
        decreases i,
    {
        i = i - 1;
        if str_eq(m.functions[i].name.as_str(), "main") {
            proof {
                assert(m@.take((i + 1) as int).last() == m@[i as int]);
            }
            return match run_instructions(&m.functions[i].instructions) {
                Ok(out) => Ok(out),
                Err(e) => Err(e),
            };
        }
        proof {
            assert(m@.take((i + 1) as int).drop_last() =~= m@.take(i as int));
        }
    }
    Err(RunError::NoMain)
}

} // verus!
