//! The execution engine: the lexical state machine fused with the operator
//! evaluator.
//!
//! [`execute`] consumes one line's characters left to right, exactly once,
//! with no backtracking, and is verified to agree with the model in
//! [`crate::model`] on every input: which effects the line causes, the
//! stack depth they leave, whether the one remaining value is printed, and
//! on a failing line the exact error and the effects that preceded it.

use vstd::prelude::*;

use crate::bindings::Bindings;
use crate::errors::Error;
use crate::model::{
    dot_count, env_err_msg, init_cfg, lemma_dot_count_le, lemma_run_skip, line_run, op_of_char,
    parse_err_msg, run, step, Cfg, LexState, Op, SpecEffect, SpecErr,
};
use crate::text::{char_is_alphabetic, char_is_digit, char_is_whitespace, push_char};

verus! {

/// One effect of a line on the numeric stack, ready for an interpreter:
/// push the parsed value of a literal, push the value bound to a name, or
/// pop two values and push the operator's result.
#[derive(Debug)]
pub enum Effect {
    PushLiteral(String),
    PushBinding(String),
    Apply(Op),
}

impl View for Effect {
    type V = SpecEffect;

    open spec fn view(&self) -> SpecEffect {
        match self {
            Effect::PushLiteral(s) => SpecEffect::PushLit(s@),
            Effect::PushBinding(s) => SpecEffect::PushBind(s@),
            Effect::Apply(op) => SpecEffect::Apply(*op),
        }
    }
}

/// The effects of a line, as the model sees them.
pub open spec fn effects_seq(s: Seq<Effect>) -> Seq<SpecEffect> {
    s.map_values(|e: Effect| e@)
}

/// A successful line: its effects in order, and whether the single value
/// they leave is to be popped and printed.
#[derive(Debug)]
pub struct LineProgram {
    pub effects: Vec<Effect>,
    pub print: bool,
}

/// A failed line: the error that stopped it, and the effects that took
/// place before the failing character, which the stack keeps.
#[derive(Debug)]
pub struct LineFailure {
    pub effects: Vec<Effect>,
    pub error: Error,
}

/// The per-line lexer state, carrying the partial token's text.
enum LexBuf {
    Start,
    Num(String),
    Ident(String),
}

impl View for LexBuf {
    type V = LexState;

    closed spec fn view(&self) -> LexState {
        match self {
            LexBuf::Start => LexState::Start,
            LexBuf::Num(b) => LexState::Num(b@),
            LexBuf::Ident(b) => LexState::Ident(b@),
        }
    }
}

/// The operator a character stands for, if any.
pub fn op_of(c: char) -> (r: Option<Op>)
    ensures
        r == op_of_char(c),
{
    if c == '+' {
        Some(Op::Add)
    } else if c == '-' {
        Some(Op::Sub)
    } else if c == '*' {
        Some(Op::Mul)
    } else if c == '/' {
        Some(Op::Div)
    } else if c == '%' {
        Some(Op::Rem)
    } else if c == '^' {
        Some(Op::Pow)
    } else {
        None
    }
}

/// Run one line of input through the machine over a stack of depth
/// `stack_len`, against the bound names in `bindings`.
///
/// On success the returned program lists the line's stack effects in
/// order, and `print` says whether exactly one value remains afterwards,
/// to be popped and printed.  On failure the error is the model's, with
/// its exact message, and the returned effects are those the line caused
/// before the failing character.  The machine itself never raises an
/// input/output error, and never changes the bindings.
pub fn execute(input: &str, stack_len: usize, bindings: &Bindings) -> (r: Result<
    LineProgram,
    LineFailure,
>)
    requires
        stack_len + input@.len() <= usize::MAX,
    ensures
        ({
            let m = line_run(input@, stack_len as nat, bindings@);
            match r {
                Ok(prog) => {
                    &&& m.err is None
                    &&& effects_seq(prog.effects@) == m.cfg.effects
                    &&& prog.print == (m.cfg.len == 1)
                },
                Err(fail) => {
                    &&& m.err matches Some(e) && fail.error@ == e
                    &&& !(fail.error is IoErr)
                    &&& effects_seq(fail.effects@) == m.cfg.effects
                },
            }
        }),
{
    let ghost binds = bindings@;
    let n = input.unicode_len();
    let mut state = LexBuf::Start;
    let mut dots: usize = 0;
    let mut len: usize = stack_len;
    let mut effects: Vec<Effect> = Vec::new();
    let mut i: usize = 0;
    proof {
        assert(effects_seq(effects@) =~= Seq::<SpecEffect>::empty());
        assert(input@.skip(0) =~= input@);
        assert(Cfg { state: state@, len: len as nat, effects: effects_seq(effects@) } =~= init_cfg(
            stack_len as nat,
        ));
    }
    while i < n
        invariant
            i <= n,
            n == input@.len(),
            stack_len + input@.len() <= usize::MAX,
            binds == bindings@,
            len <= stack_len + i,
            state matches LexBuf::Num(b) ==> dots == dot_count(b@) && b@.len() <= i,
            run(init_cfg(stack_len as nat), input@, binds) == run(
                Cfg { state: state@, len: len as nat, effects: effects_seq(effects@) },
                input@.skip(i as int),
                binds,
            ),
        decreases n - i,
    {
        let c = input.get_char(i);
        let ghost pre = Cfg { state: state@, len: len as nat, effects: effects_seq(effects@) };
        proof {
            lemma_run_skip(pre, input@, i as int, binds);
        }
        state = match state {
            LexBuf::Start => {
                if char_is_digit(c) {
                    let mut b = String::new();
                    push_char(&mut b, c);
                    dots = 0;
                    proof {
                        assert(b@ =~= seq![c]);
                        assert(seq![c].drop_last() =~= Seq::<char>::empty());
                        assert(dot_count(Seq::<char>::empty()) == 0);
                        assert(dot_count(b@) == 0);
                    }
                    LexBuf::Num(b)
                } else if char_is_alphabetic(c) {
                    let mut b = String::new();
                    push_char(&mut b, c);
                    proof {
                        assert(b@ =~= seq![c]);
                    }
                    LexBuf::Ident(b)
                } else {
                    match op_of(c) {
                        Some(op) => {
                            if len >= 2 {
                                effects.push(Effect::Apply(op));
                                len = len - 1;
                                proof {
                                    assert(effects_seq(effects@) =~= pre.effects.push(
                                        SpecEffect::Apply(op),
                                    ));
                                }
                                LexBuf::Start
                            } else {
                                let msg = if len == 0 {
                                    String::from_str("2 stack items required where only 0 exist!")
                                } else {
                                    String::from_str("2 stack items required where only 1 exist!")
                                };
                                return Err(LineFailure { effects, error: Error::StackErr(msg) });
                            }
                        },
                        None => {
                            if char_is_whitespace(c) {
                                LexBuf::Start
                            } else {
                                let mut msg = String::from_str("unexpected char: '");
                                push_char(&mut msg, c);
                                msg.append("'");
                                proof {
                                    assert(msg@ =~= parse_err_msg(c));
                                }
                                return Err(LineFailure { effects, error: Error::ParseErr(msg) });
                            }
                        },
                    }
                }
            },
            LexBuf::Num(mut b) => {
                if char_is_digit(c) || c == '.' {
                    let ghost ob = b@;
                    proof {
                        lemma_dot_count_le(ob);
                    }
                    push_char(&mut b, c);
                    if c == '.' {
                        dots = dots + 1;
                    }
                    proof {
                        assert(b@.drop_last() =~= ob);
                        assert(dot_count(b@) == dot_count(ob) + if c == '.' {
                            1nat
                        } else {
                            0nat
                        });
                    }
                    LexBuf::Num(b)
                } else {
                    if dots <= 1 {
                        let ghost ob = b@;
                        effects.push(Effect::PushLiteral(b));
                        len = len + 1;
                        proof {
                            assert(effects_seq(effects@) =~= pre.effects.push(
                                SpecEffect::PushLit(ob),
                            ));
                        }
                        LexBuf::Start
                    } else {
                        let msg = String::from_str("invalid float literal");
                        return Err(LineFailure { effects, error: Error::MathErr(msg) });
                    }
                }
            },
            LexBuf::Ident(mut b) => {
                if char_is_alphabetic(c) {
                    push_char(&mut b, c);
                    LexBuf::Ident(b)
                } else {
                    if bindings.contains(&b) {
                        let ghost ob = b@;
                        effects.push(Effect::PushBinding(b));
                        len = len + 1;
                        proof {
                            assert(effects_seq(effects@) =~= pre.effects.push(
                                SpecEffect::PushBind(ob),
                            ));
                        }
                        LexBuf::Start
                    } else {
                        let mut msg = String::from_str("binding '");
                        msg.append(b.as_str());
                        msg.append("' does not exist");
                        proof {
                            assert(msg@ =~= env_err_msg(b@));
                        }
                        return Err(LineFailure { effects, error: Error::EnvErr(msg) });
                    }
                }
            },
        };
        proof {
            let post = Cfg { state: state@, len: len as nat, effects: effects_seq(effects@) };
            assert(step(pre, input@[i as int], binds) == Ok::<Cfg, SpecErr>(post));
        }
        i = i + 1;
    }
    proof {
        assert(input@.skip(n as int) =~= Seq::<char>::empty());
    }
    Ok(LineProgram { effects, print: len == 1 })
}

} // verus!
