//! The mathematical model of the execution engine.
//!
//! One line is processed left to right, one character at a time, by a
//! three-state lexical machine fused with an operator evaluator.  The model
//! tracks everything about a line that does not depend on the numeric values
//! themselves: the lexer state, the stack depth, and the sequence of stack
//! effects the line causes.  A failure stops the line at the failing
//! character and keeps the effects that came before it.

use vstd::prelude::*;

use crate::text::{is_alphabetic_char, is_digit, is_num_char, is_whitespace_char};

verus! {

/// The six recognized operators, all binary.
#[derive(Clone, Copy, Debug, PartialEq, Eq, Structural)]
pub enum Op {
    Add,
    Sub,
    Mul,
    Div,
    Rem,
    Pow,
}

/// The per-line lexer state: nothing buffered, a partial number, or a
/// partial identifier.
pub enum LexState {
    Start,
    Num(Seq<char>),
    Ident(Seq<char>),
}

/// One effect of a line on the stack: push the value of a numeric literal,
/// push the value bound to a name, or pop two values and push the operator's
/// result.
pub enum SpecEffect {
    PushLit(Seq<char>),
    PushBind(Seq<char>),
    Apply(Op),
}

/// The error taxonomy of the model.  `Io` never arises from the machine
/// itself; it belongs to the surrounding input/output layer.
pub enum SpecErr {
    Io(Seq<char>),
    Math(Seq<char>),
    Stack(Seq<char>),
    Env(Seq<char>),
    Parse(Seq<char>),
}

/// A machine configuration: the lexer state, the stack depth, and the
/// effects emitted so far.
#[verifier::ext_equal]
pub struct Cfg {
    pub state: LexState,
    pub len: nat,
    pub effects: Seq<SpecEffect>,
}

/// The outcome of running the machine over some characters: the reached
/// configuration, and the error that stopped it, if one did.  On an error
/// the configuration is the one at the failing character, so the effects
/// emitted before the failure are kept.
#[verifier::ext_equal]
pub struct RunResult {
    pub cfg: Cfg,
    pub err: Option<SpecErr>,
}

/// The configuration at the start of a line over a stack of depth
/// `stack_len`.
pub open spec fn init_cfg(stack_len: nat) -> Cfg {
    Cfg { state: LexState::Start, len: stack_len, effects: Seq::empty() }
}

/// How many decimal points a number buffer holds.
pub open spec fn dot_count(buf: Seq<char>) -> nat
    decreases buf.len(),
{
    if buf.len() == 0 {
        0
    } else {
        dot_count(buf.drop_last()) + if buf.last() == '.' {
            1nat
        } else {
            0nat
        }
    }
}

/// A buffer holds no more decimal points than characters.
pub proof fn lemma_dot_count_le(buf: Seq<char>)
    ensures
        dot_count(buf) <= buf.len(),
    decreases buf.len(),
{
    if buf.len() > 0 {
        lemma_dot_count_le(buf.drop_last());
    }
}

/// A number buffer parses as a floating-point literal exactly when it holds
/// at most one decimal point: the machine only ever buffers digits and
/// points, starting with a digit, and every such text with at most one
/// point is a literal.
pub open spec fn buf_parses(buf: Seq<char>) -> bool {
    dot_count(buf) <= 1
}

/// The operator a character stands for, if any.
pub open spec fn op_of_char(c: char) -> Option<Op> {
    if c == '+' {
        Some(Op::Add)
    } else if c == '-' {
        Some(Op::Sub)
    } else if c == '*' {
        Some(Op::Mul)
    } else if c == '/' {
        Some(Op::Div)
    } else if c == '%' {
        Some(Op::Rem)
    } else if c == '^' {
        Some(Op::Pow)
    } else {
        None
    }
}

/// The message of a failed numeric literal, as the standard float parser
/// words it.
pub open spec fn math_err_msg() -> Seq<char> {
    "invalid float literal"@
}

/// The message of an operator met over a stack of depth `len < 2`: it names
/// the required count and the present count.
pub open spec fn stack_err_msg(len: nat) -> Seq<char> {
    if len == 0 {
        "2 stack items required where only 0 exist!"@
    } else {
        "2 stack items required where only 1 exist!"@
    }
}

/// The message of a lookup of an unbound name.
pub open spec fn env_err_msg(name: Seq<char>) -> Seq<char> {
    "binding '"@ + name + "' does not exist"@
}

/// The message of a character that is no digit, letter, operator or
/// whitespace.
pub open spec fn parse_err_msg(c: char) -> Seq<char> {
    "unexpected char: '"@ + seq![c] + "'"@
}

/// A completed number buffer is pushed if it parses; otherwise the line
/// fails with a math error.
pub open spec fn flush_num(cfg: Cfg, buf: Seq<char>) -> Result<Cfg, SpecErr> {
    if buf_parses(buf) {
        Ok(Cfg {
            state: LexState::Start,
            len: cfg.len + 1,
            effects: cfg.effects.push(SpecEffect::PushLit(buf)),
        })
    } else {
        Err(SpecErr::Math(math_err_msg()))
    }
}

/// A completed identifier is looked up among the bound names: its value is
/// pushed if the name is bound, else the line fails with an env error.
pub open spec fn flush_ident(cfg: Cfg, buf: Seq<char>, binds: Set<Seq<char>>) -> Result<
    Cfg,
    SpecErr,
> {
    if binds.contains(buf) {
        Ok(Cfg {
            state: LexState::Start,
            len: cfg.len + 1,
            effects: cfg.effects.push(SpecEffect::PushBind(buf)),
        })
    } else {
        Err(SpecErr::Env(env_err_msg(buf)))
    }
}

/// A character met in the `Start` state that is no digit and no letter:
/// an operator pops two values and pushes one (a stack error names the
/// shortfall when fewer than two are present), whitespace does nothing, and
/// anything else is a parse error.
pub open spec fn op_step(cfg: Cfg, c: char) -> Result<Cfg, SpecErr> {
    match op_of_char(c) {
        Some(op) => if cfg.len >= 2 {
            Ok(Cfg {
                state: cfg.state,
                len: (cfg.len - 1) as nat,
                effects: cfg.effects.push(SpecEffect::Apply(op)),
            })
        } else {
            Err(SpecErr::Stack(stack_err_msg(cfg.len)))
        },
        None => if is_whitespace_char(c) {
            Ok(cfg)
        } else {
            Err(SpecErr::Parse(parse_err_msg(c)))
        },
    }
}

/// One transition of the machine on one character.  A digit or a letter in
/// `Start` opens a buffer; a buffer grows while its class continues; any
/// other character completes the buffer and is itself dropped, not
/// reprocessed as an operator.
pub open spec fn step(cfg: Cfg, c: char, binds: Set<Seq<char>>) -> Result<Cfg, SpecErr> {
    match cfg.state {
        LexState::Start => {
            if is_digit(c) {
                Ok(Cfg { state: LexState::Num(seq![c]), len: cfg.len, effects: cfg.effects })
            } else if is_alphabetic_char(c) {
                Ok(Cfg { state: LexState::Ident(seq![c]), len: cfg.len, effects: cfg.effects })
            } else {
                op_step(cfg, c)
            }
        },
        LexState::Num(buf) => {
            if is_num_char(c) {
                Ok(Cfg { state: LexState::Num(buf.push(c)), len: cfg.len, effects: cfg.effects })
            } else {
                flush_num(cfg, buf)
            }
        },
        LexState::Ident(buf) => {
            if is_alphabetic_char(c) {
                Ok(Cfg { state: LexState::Ident(buf.push(c)), len: cfg.len, effects: cfg.effects })
            } else {
                flush_ident(cfg, buf, binds)
            }
        },
    }
}

/// The machine run over a sequence of characters, left to right, exactly
/// once, with no backtracking.  The first failing character stops the run.
pub open spec fn run(cfg: Cfg, input: Seq<char>, binds: Set<Seq<char>>) -> RunResult
    decreases input.len(),
{
    if input.len() == 0 {
        RunResult { cfg, err: None }
    } else {
        match step(cfg, input[0], binds) {
            Ok(next) => run(next, input.drop_first(), binds),
            Err(e) => RunResult { cfg, err: Some(e) },
        }
    }
}

/// A whole line run from the `Start` state.  A buffer still open when the
/// line ends is dropped unflushed, exactly as the machine leaves it.
pub open spec fn line_run(input: Seq<char>, stack_len: nat, binds: Set<Seq<char>>) -> RunResult {
    run(init_cfg(stack_len), input, binds)
}

/// After a successful line, exactly one remaining value is popped and
/// printed; zero or several remain silently on the stack.
pub open spec fn prints(r: RunResult) -> bool {
    r.err is None && r.cfg.len == 1
}

/// Splitting the input splits the run: the machine is a fold over the
/// characters, so running over `a + b` is running over `a` and, if no error
/// stopped it, continuing over `b`.
pub proof fn lemma_run_concat(cfg: Cfg, a: Seq<char>, b: Seq<char>, binds: Set<Seq<char>>)
    ensures
        run(cfg, a + b, binds) == (if run(cfg, a, binds).err is Some {
            run(cfg, a, binds)
        } else {
            run(run(cfg, a, binds).cfg, b, binds)
        }),
    decreases a.len(),
{
    if a.len() == 0 {
        assert(a + b =~= b);
    } else {
        assert((a + b)[0] == a[0]);
        match step(cfg, a[0], binds) {
            Ok(next) => {
                assert((a + b).drop_first() =~= a.drop_first() + b);
                lemma_run_concat(next, a.drop_first(), b, binds);
            },
            Err(e) => {
                assert((a + b).len() != 0);
            },
        }
    }
}

/// One loop iteration of the engine advances the run by one character:
/// running from position `i` is stepping on character `i` and running from
/// position `i + 1`.
pub proof fn lemma_run_skip(cfg: Cfg, input: Seq<char>, i: int, binds: Set<Seq<char>>)
    requires
        0 <= i < input.len(),
    ensures
        run(cfg, input.skip(i), binds) == (match step(cfg, input[i], binds) {
            Ok(next) => run(next, input.skip(i + 1), binds),
            Err(e) => RunResult { cfg, err: Some(e) },
        }),
{
    assert(input.skip(i)[0] == input[i]);
    assert(input.skip(i).drop_first() =~= input.skip(i + 1));
}

} // verus!
