use arpc::bindings::Bindings;
use arpc::engine::{execute, op_of, Effect};
use arpc::model::Op;
use arpc::errors::Error;

/// Interprets a program's stack effects on a numeric stack, as the shell
/// around the library does.
fn apply(effects: Vec<Effect>, stack: &mut Vec<f64>) {
    for eff in effects {
        match eff {
            Effect::PushLiteral(text) => stack.push(text.parse::<f64>().unwrap()),
            Effect::PushBinding(_) => unreachable!(),
            Effect::Apply(op) => {
                let b = stack.pop().unwrap();
                let a = stack.pop().unwrap();
                stack.push(match op {
                    Op::Add => a + b,
                    Op::Sub => a - b,
                    Op::Mul => a * b,
                    Op::Div => a / b,
                    Op::Rem => a % b,
                    Op::Pow => a.powf(b),
                });
            }
        }
    }
}

/// Runs one line against empty bindings: the printed text on success, the
/// error on failure, with the stack mutated either way.
fn run_line(input: &str, stack: &mut Vec<f64>) -> Result<Option<String>, Error> {
    let bindings = Bindings::new();
    match execute(input, stack.len(), &bindings) {
        Ok(prog) => {
            apply(prog.effects, stack);
            if prog.print {
                Ok(Some(format!("{}", stack.pop().unwrap())))
            } else {
                Ok(None)
            }
        }
        Err(fail) => {
            apply(fail.effects, stack);
            Err(fail.error)
        }
    }
}

#[test]
fn literals_only_stack_depth() {
    let mut stack = Vec::new();
    let printed = run_line("2.5 3 4\n", &mut stack).unwrap();
    assert_eq!(printed, None);
    assert_eq!(stack, vec![2.5, 3.0, 4.0]);
}

#[test]
fn single_literal_printed_and_popped() {
    let mut stack = Vec::new();
    let printed = run_line("42\n", &mut stack).unwrap();
    assert_eq!(printed, Some("42".to_string()));
    assert!(stack.is_empty());
}

#[test]
fn addition_prints_and_empties() {
    let mut stack = Vec::new();
    let printed = run_line("3 4 +\n", &mut stack).unwrap();
    assert_eq!(printed, Some("7".to_string()));
    assert!(stack.is_empty());
}

#[test]
fn division() {
    let mut stack = Vec::new();
    let printed = run_line("10 2 /\n", &mut stack).unwrap();
    assert_eq!(printed, Some("5".to_string()));
}

#[test]
fn power() {
    let mut stack = Vec::new();
    let printed = run_line("2 3 ^\n", &mut stack).unwrap();
    assert_eq!(printed, Some("8".to_string()));
}

#[test]
fn subtraction_keeps_operand_order() {
    let mut stack = Vec::new();
    let printed = run_line("3 5 -\n", &mut stack).unwrap();
    assert_eq!(printed, Some("-2".to_string()));
}

#[test]
fn multiplication() {
    let mut stack = Vec::new();
    let printed = run_line("6 7 *\n", &mut stack).unwrap();
    assert_eq!(printed, Some("42".to_string()));
}

#[test]
fn remainder() {
    let mut stack = Vec::new();
    let printed = run_line("10 3 %\n", &mut stack).unwrap();
    assert_eq!(printed, Some("1".to_string()));
}

#[test]
fn three_values_one_operator() {
    let mut stack = Vec::new();
    let printed = run_line("1 2 3 +\n", &mut stack).unwrap();
    assert_eq!(printed, None);
    assert_eq!(stack, vec![1.0, 5.0]);
}

#[test]
fn operator_on_empty_stack() {
    let mut stack = Vec::new();
    let err = run_line("+\n", &mut stack).unwrap_err();
    match err {
        Error::StackErr(msg) => {
            assert_eq!(msg, "2 stack items required where only 0 exist!");
        }
        _ => panic!("expected a stack error"),
    }
    assert!(stack.is_empty());
}

#[test]
fn operator_on_single_value() {
    let mut stack = Vec::new();
    let err = run_line("4 *\n", &mut stack).unwrap_err();
    match err {
        Error::StackErr(msg) => {
            assert_eq!(msg, "2 stack items required where only 1 exist!");
        }
        _ => panic!("expected a stack error"),
    }
    assert_eq!(stack, vec![4.0]);
}

#[test]
fn unknown_identifier() {
    let mut stack = Vec::new();
    let err = run_line("x\n", &mut stack).unwrap_err();
    match err {
        Error::EnvErr(msg) => {
            assert_eq!(msg, "binding 'x' does not exist");
        }
        _ => panic!("expected an env error"),
    }
    assert!(stack.is_empty());
}

#[test]
fn longer_identifier_named_in_error() {
    let mut stack = Vec::new();
    let err = run_line("velocity\n", &mut stack).unwrap_err();
    match err {
        Error::EnvErr(msg) => {
            assert_eq!(msg, "binding 'velocity' does not exist");
        }
        _ => panic!("expected an env error"),
    }
}

#[test]
fn double_decimal_point() {
    let mut stack = Vec::new();
    let err = run_line("3..\n", &mut stack).unwrap_err();
    match err {
        Error::MathErr(msg) => {
            assert_eq!(msg, "invalid float literal");
        }
        _ => panic!("expected a math error"),
    }
    assert!(stack.is_empty());
}

#[test]
fn unexpected_character_named_in_error() {
    let mut stack = Vec::new();
    let err = run_line("3 # 4\n", &mut stack).unwrap_err();
    match err {
        Error::ParseErr(msg) => {
            assert_eq!(msg, "unexpected char: '#'");
        }
        _ => panic!("expected a parse error"),
    }
    // the push of 3 before the failing character is kept
    assert_eq!(stack, vec![3.0]);
}

#[test]
fn blank_line_changes_nothing() {
    let mut stack = vec![1.0, 2.0];
    let printed = run_line("\n", &mut stack).unwrap();
    assert_eq!(printed, None);
    assert_eq!(stack, vec![1.0, 2.0]);

    let mut empty = Vec::new();
    let printed = run_line("\n", &mut empty).unwrap();
    assert_eq!(printed, None);
    assert!(empty.is_empty());
}

#[test]
fn blank_line_prints_a_lone_value() {
    let mut stack = vec![7.0];
    let printed = run_line("\n", &mut stack).unwrap();
    assert_eq!(printed, Some("7".to_string()));
    assert!(stack.is_empty());
}

#[test]
fn stack_persists_across_lines() {
    let mut stack = Vec::new();
    assert_eq!(run_line("3 4\n", &mut stack).unwrap(), None);
    assert_eq!(stack, vec![3.0, 4.0]);
    let printed = run_line("+\n", &mut stack).unwrap();
    assert_eq!(printed, Some("7".to_string()));
    assert!(stack.is_empty());
}

#[test]
fn boundary_operator_is_dropped_not_applied() {
    // the character that ends a number buffer is consumed as a delimiter:
    // in "3+4" the '+' only terminates the literal 3 and is never applied
    let mut stack = Vec::new();
    let printed = run_line("3+4\n", &mut stack).unwrap();
    assert_eq!(printed, None);
    assert_eq!(stack, vec![3.0, 4.0]);
}

#[test]
fn open_buffer_at_line_end_is_dropped() {
    // without a terminating character the final buffer is never flushed
    let mut stack = Vec::new();
    let printed = run_line("12", &mut stack).unwrap();
    assert_eq!(printed, None);
    assert!(stack.is_empty());
}

#[test]
fn division_by_zero_is_floating_point() {
    let mut stack = Vec::new();
    let printed = run_line("1 0 /\n", &mut stack).unwrap();
    assert_eq!(printed, Some("inf".to_string()));
}

#[test]
fn fractional_arithmetic() {
    let mut stack = Vec::new();
    let printed = run_line("2.5 1.5 +\n", &mut stack).unwrap();
    assert_eq!(printed, Some("4".to_string()));
}

#[test]
fn trailing_point_literal_parses() {
    let mut stack = Vec::new();
    let printed = run_line("3.\n", &mut stack).unwrap();
    assert_eq!(printed, Some("3".to_string()));
}

#[test]
fn operator_table() {
    assert_eq!(op_of('+'), Some(Op::Add));
    assert_eq!(op_of('-'), Some(Op::Sub));
    assert_eq!(op_of('*'), Some(Op::Mul));
    assert_eq!(op_of('/'), Some(Op::Div));
    assert_eq!(op_of('%'), Some(Op::Rem));
    assert_eq!(op_of('^'), Some(Op::Pow));
    assert_eq!(op_of('#'), None);
    assert_eq!(op_of(' '), None);
}

#[test]
fn fractional_exponent() {
    let mut stack = Vec::new();
    let printed = run_line("4 0.5 ^\n", &mut stack).unwrap();
    assert_eq!(printed, Some("2".to_string()));
}
