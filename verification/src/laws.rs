//! Laws of the machine, proved against the model in [`crate::model`].
//!
//! Each public proof function here states a property of every input of its
//! shape: lines of bare literals, lookups of unbound names, blank lines,
//! and the absence of input/output errors from the machine itself.

use vstd::prelude::*;

use crate::model::{
    dot_count, env_err_msg, init_cfg, lemma_run_concat, line_run, op_of_char, prints, run, step,
    Cfg, LexState, RunResult, SpecEffect, SpecErr,
};
use crate::text::{is_alphabetic_char, is_digit, is_num_char, is_whitespace_char};

verus! {

/// A separating character: whitespace, and therefore neither a digit, nor
/// a decimal point, nor a letter, nor an operator.
pub open spec fn is_sep_char(c: char) -> bool {
    &&& is_whitespace_char(c)
    &&& !is_num_char(c)
    &&& !is_alphabetic_char(c)
    &&& op_of_char(c) is None
}

/// Nothing but separating characters.
pub open spec fn all_sep(s: Seq<char>) -> bool {
    forall|i: int| 0 <= i < s.len() ==> is_sep_char(s[i])
}

/// A whole numeric literal as the machine buffers it: nonempty, beginning
/// with a digit, made of digits and decimal points, at most one point.
pub open spec fn lit_token(s: Seq<char>) -> bool {
    &&& s.len() > 0
    &&& is_digit(s[0])
    &&& forall|i: int| 0 <= i < s.len() ==> is_num_char(s[i])
    &&& dot_count(s) <= 1
}

/// The literals interleaved with their separators: each literal followed
/// by its run of separating characters.
pub open spec fn cat_tokens(lits: Seq<Seq<char>>, seps: Seq<Seq<char>>) -> Seq<char>
    decreases lits.len(),
{
    if lits.len() == 0 {
        Seq::empty()
    } else {
        lits[0] + seps[0] + cat_tokens(lits.drop_first(), seps.drop_first())
    }
}

/// Separating characters met in the `Start` state change nothing.
proof fn lemma_sep_run(cfg: Cfg, s: Seq<char>, binds: Set<Seq<char>>)
    requires
        (cfg.state is Start),
        all_sep(s),
    ensures
        (run(cfg, s, binds) == RunResult { cfg, err: None::<SpecErr> }),
    decreases s.len(),
{
    if s.len() > 0 {
        assert(is_sep_char(s[0]));
        assert(step(cfg, s[0], binds) == Ok::<Cfg, SpecErr>(cfg));
        assert(all_sep(s.drop_first())) by {
            assert(forall|i: int|
                0 <= i < s.drop_first().len() ==> s.drop_first()[i] == s[i + 1]);
        }
        lemma_sep_run(cfg, s.drop_first(), binds);
    }
}

/// Digits and decimal points keep growing an open number buffer.
proof fn lemma_num_scan(cfg: Cfg, buf: Seq<char>, rest: Seq<char>, binds: Set<Seq<char>>)
    requires
        (cfg.state == LexState::Num(buf)),
        forall|i: int| 0 <= i < rest.len() ==> is_num_char(rest[i]),
    ensures
        (run(cfg, rest, binds) == RunResult {
            cfg: Cfg { state: LexState::Num(buf + rest), len: cfg.len, effects: cfg.effects },
            err: None::<SpecErr>,
        }),
    decreases rest.len(),
{
    if rest.len() == 0 {
        assert(buf + rest =~= buf);
    } else {
        let next = Cfg {
            state: LexState::Num(buf.push(rest[0])),
            len: cfg.len,
            effects: cfg.effects,
        };
        assert(step(cfg, rest[0], binds) == Ok::<Cfg, SpecErr>(next));
        assert(forall|i: int| 0 <= i < rest.drop_first().len() ==> rest.drop_first()[i] == rest[i + 1]);
        lemma_num_scan(next, buf.push(rest[0]), rest.drop_first(), binds);
        assert(buf.push(rest[0]) + rest.drop_first() =~= buf + rest);
    }
}

/// Letters keep growing an open identifier buffer.
proof fn lemma_ident_scan(cfg: Cfg, buf: Seq<char>, rest: Seq<char>, binds: Set<Seq<char>>)
    requires
        (cfg.state == LexState::Ident(buf)),
        forall|i: int| 0 <= i < rest.len() ==> is_alphabetic_char(rest[i]),
    ensures
        (run(cfg, rest, binds) == RunResult {
            cfg: Cfg { state: LexState::Ident(buf + rest), len: cfg.len, effects: cfg.effects },
            err: None::<SpecErr>,
        }),
    decreases rest.len(),
{
    if rest.len() == 0 {
        assert(buf + rest =~= buf);
    } else {
        let next = Cfg {
            state: LexState::Ident(buf.push(rest[0])),
            len: cfg.len,
            effects: cfg.effects,
        };
        assert(step(cfg, rest[0], binds) == Ok::<Cfg, SpecErr>(next));
        assert(forall|i: int| 0 <= i < rest.drop_first().len() ==> rest.drop_first()[i] == rest[i + 1]);
        lemma_ident_scan(next, buf.push(rest[0]), rest.drop_first(), binds);
        assert(buf.push(rest[0]) + rest.drop_first() =~= buf + rest);
    }
}

/// One literal followed by at least one separating character pushes
/// exactly that literal and returns to `Start`.
proof fn lemma_one_token(cfg: Cfg, lit: Seq<char>, sep: Seq<char>, binds: Set<Seq<char>>)
    requires
        (cfg.state is Start),
        lit_token(lit),
        all_sep(sep),
        sep.len() >= 1,
    ensures
        (run(cfg, lit + sep, binds) == RunResult {
            cfg: Cfg {
                state: LexState::Start,
                len: cfg.len + 1,
                effects: cfg.effects.push(SpecEffect::PushLit(lit)),
            },
            err: None::<SpecErr>,
        }),
{
    lemma_run_concat(cfg, lit, sep, binds);
    let c1 = Cfg { state: LexState::Num(seq![lit[0]]), len: cfg.len, effects: cfg.effects };
    assert(step(cfg, lit[0], binds) == Ok::<Cfg, SpecErr>(c1));
    assert(forall|i: int| 0 <= i < lit.drop_first().len() ==> lit.drop_first()[i] == lit[i + 1]);
    lemma_num_scan(c1, seq![lit[0]], lit.drop_first(), binds);
    assert(seq![lit[0]] + lit.drop_first() =~= lit);
    let cn = Cfg { state: LexState::Num(lit), len: cfg.len, effects: cfg.effects };
    assert(run(cfg, lit, binds) == RunResult { cfg: cn, err: None::<SpecErr> });
    let cf = Cfg {
        state: LexState::Start,
        len: cfg.len + 1,
        effects: cfg.effects.push(SpecEffect::PushLit(lit)),
    };
    assert(step(cn, sep[0], binds) == Ok::<Cfg, SpecErr>(cf));
    assert(all_sep(sep.drop_first())) by {
        assert(forall|i: int| 0 <= i < sep.drop_first().len() ==> sep.drop_first()[i] == sep[i + 1]);
    }
    lemma_sep_run(cf, sep.drop_first(), binds);
}

/// Literals separated by separating characters push exactly those
/// literals, in order, and deepen the stack by their number.
proof fn lemma_tokens_run(cfg: Cfg, lits: Seq<Seq<char>>, seps: Seq<Seq<char>>, binds: Set<Seq<char>>)
    requires
        (cfg.state is Start),
        lits.len() == seps.len(),
        forall|k: int| 0 <= k < lits.len() ==> lit_token(lits[k]),
        forall|k: int| 0 <= k < seps.len() ==> all_sep(#[trigger] seps[k]) && seps[k].len() >= 1,
    ensures
        (run(cfg, cat_tokens(lits, seps), binds) == RunResult {
            cfg: Cfg {
                state: LexState::Start,
                len: cfg.len + lits.len(),
                effects: cfg.effects + lits.map_values(|l: Seq<char>| SpecEffect::PushLit(l)),
            },
            err: None::<SpecErr>,
        }),
    decreases lits.len(),
{
    let f = |l: Seq<char>| SpecEffect::PushLit(l);
    if lits.len() == 0 {
        assert(cfg.effects + lits.map_values(f) =~= cfg.effects);
    } else {
        lemma_one_token(cfg, lits[0], seps[0], binds);
        lemma_run_concat(
            cfg,
            lits[0] + seps[0],
            cat_tokens(lits.drop_first(), seps.drop_first()),
            binds,
        );
        assert(lits[0] + seps[0] + cat_tokens(lits.drop_first(), seps.drop_first())
            =~= (lits[0] + seps[0]) + cat_tokens(lits.drop_first(), seps.drop_first()));
        let cf = Cfg {
            state: LexState::Start,
            len: cfg.len + 1,
            effects: cfg.effects.push(SpecEffect::PushLit(lits[0])),
        };
        assert(forall|k: int|
            0 <= k < lits.drop_first().len() ==> lits.drop_first()[k] == lits[k + 1]);
        assert(forall|k: int|
            0 <= k < seps.drop_first().len() ==> seps.drop_first()[k] == seps[k + 1]);
        lemma_tokens_run(cf, lits.drop_first(), seps.drop_first(), binds);
        assert(cfg.effects.push(SpecEffect::PushLit(lits[0])) + lits.drop_first().map_values(f)
            =~= cfg.effects + lits.map_values(f));
    }
}

/// Law: for a line of whitespace-separated numeric literals with no
/// operators, over a stack of depth `stack_len`, the run succeeds, its
/// effects push exactly those literals in order, the stack deepens by
/// their number, and the one remaining value is popped and printed exactly
/// when `stack_len` plus the number of literals is one — so a single
/// literal over an empty stack is printed and leaves the stack empty.
pub proof fn lemma_literal_line(
    lead: Seq<char>,
    lits: Seq<Seq<char>>,
    seps: Seq<Seq<char>>,
    stack_len: nat,
    binds: Set<Seq<char>>,
)
    requires
        all_sep(lead),
        lits.len() == seps.len(),
        forall|k: int| 0 <= k < lits.len() ==> lit_token(lits[k]),
        forall|k: int| 0 <= k < seps.len() ==> all_sep(#[trigger] seps[k]) && seps[k].len() >= 1,
    ensures
        ({
            let m = line_run(lead + cat_tokens(lits, seps), stack_len, binds);
            &&& m.err is None
            &&& m.cfg.effects == lits.map_values(|l: Seq<char>| SpecEffect::PushLit(l))
            &&& m.cfg.len == stack_len + lits.len()
            &&& (prints(m) <==> stack_len + lits.len() == 1)
        }),
{
    let cfg0 = init_cfg(stack_len);
    lemma_run_concat(cfg0, lead, cat_tokens(lits, seps), binds);
    lemma_sep_run(cfg0, lead, binds);
    lemma_tokens_run(cfg0, lits, seps, binds);
    assert(Seq::<SpecEffect>::empty() + lits.map_values(|l: Seq<char>| SpecEffect::PushLit(l))
        =~= lits.map_values(|l: Seq<char>| SpecEffect::PushLit(l)));
}

/// Law: a lookup of an unbound name fails the line with an env error
/// naming it, with no effects kept — in particular, while the bindings are
/// never populated, every identifier lookup fails.
pub proof fn lemma_unbound_identifier(
    ident: Seq<char>,
    t: char,
    rest: Seq<char>,
    stack_len: nat,
    binds: Set<Seq<char>>,
)
    requires
        ident.len() > 0,
        forall|i: int|
            0 <= i < ident.len() ==> is_alphabetic_char(#[trigger] ident[i]) && !is_digit(ident[i]),
        !is_alphabetic_char(t),
        !binds.contains(ident),
    ensures
        ({
            let m = line_run(ident + seq![t] + rest, stack_len, binds);
            &&& m.err == Some(SpecErr::Env(env_err_msg(ident)))
            &&& m.cfg.effects == Seq::<SpecEffect>::empty()
            &&& m.cfg.len == stack_len
        }),
{
    let cfg0 = init_cfg(stack_len);
    assert(ident + seq![t] + rest =~= ident + (seq![t] + rest));
    lemma_run_concat(cfg0, ident, seq![t] + rest, binds);
    let c1 = Cfg { state: LexState::Ident(seq![ident[0]]), len: stack_len, effects: Seq::empty() };
    assert(step(cfg0, ident[0], binds) == Ok::<Cfg, SpecErr>(c1));
    assert(forall|i: int|
        0 <= i < ident.drop_first().len() ==> ident.drop_first()[i] == ident[i + 1]);
    lemma_ident_scan(c1, seq![ident[0]], ident.drop_first(), binds);
    assert(seq![ident[0]] + ident.drop_first() =~= ident);
    let ci = Cfg { state: LexState::Ident(ident), len: stack_len, effects: Seq::empty() };
    assert(run(cfg0, ident, binds) == RunResult { cfg: ci, err: None::<SpecErr> });
    assert((seq![t] + rest)[0] == t);
    assert(step(ci, t, binds) == Err::<Cfg, SpecErr>(SpecErr::Env(env_err_msg(ident))));
}

/// Law: a blank line — nothing but whitespace, such as an empty line of
/// just its newline — causes no effects and leaves the stack depth as it
/// was; nothing is printed unless the stack already held exactly one
/// value, which the line then pops and prints.
pub proof fn lemma_blank_line(input: Seq<char>, stack_len: nat, binds: Set<Seq<char>>)
    requires
        all_sep(input),
    ensures
        (line_run(input, stack_len, binds) == RunResult {
            cfg: init_cfg(stack_len),
            err: None::<SpecErr>,
        }),
        (prints(line_run(input, stack_len, binds)) <==> stack_len == 1),
{
    lemma_sep_run(init_cfg(stack_len), input, binds);
}

/// Law: the machine itself never raises an input/output error: every
/// failure of a run is a math, stack, env or parse error.  Input/output
/// errors belong to the surrounding layer alone.
pub proof fn lemma_run_no_io(cfg: Cfg, input: Seq<char>, binds: Set<Seq<char>>)
    ensures
        (!(run(cfg, input, binds).err matches Some(e) && e is Io)),
    decreases input.len(),
{
    if input.len() != 0 {
        match step(cfg, input[0], binds) {
            Ok(next) => {
                lemma_run_no_io(next, input.drop_first(), binds);
            },
            Err(e) => {},
        }
    }
}

} // verus!
