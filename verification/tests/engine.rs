use tinyscript::interpreter::{interpret, Data, InterpreterError, RunOutcome};
use tinyscript::number::Number;
use tinyscript::parser::{Instruction, Value};

fn run_ok(instructions: Vec<Instruction>, input: Vec<String>) -> Vec<String> {
    let (output, outcome) = interpret(instructions, input, u64::MAX);
    match outcome {
        RunOutcome::Completed(_) => output,
        RunOutcome::Failed(e) => panic!("program failed: {:?}", e),
        RunOutcome::OutOfFuel => panic!("program ran out of fuel"),
    }
}

fn run_err(instructions: Vec<Instruction>, input: Vec<String>) -> InterpreterError {
    let (_, outcome) = interpret(instructions, input, u64::MAX);
    match outcome {
        RunOutcome::Failed(e) => e,
        other => panic!("expected a runtime error, got {:?}", other),
    }
}

#[test]
fn print_integer_literal() {
    let program = vec![Instruction::Print {
        message: Value::Number(Number::Integer(42)),
    }];
    assert_eq!(run_ok(program, vec![]), vec!["42".to_string()]);
}

#[test]
fn print_float_literal() {
    let program = vec![Instruction::Print {
        message: Value::Number(Number::Float(2.5f64.to_bits())),
    }];
    assert_eq!(run_ok(program, vec![]), vec!["2.5".to_string()]);
}

#[test]
fn print_string_and_boolean() {
    let program = vec![
        Instruction::Print {
            message: Value::String("hello".to_string()),
        },
        Instruction::Print {
            message: Value::Boolean(true),
        },
    ];
    assert_eq!(
        run_ok(program, vec![]),
        vec!["hello".to_string(), "true".to_string()]
    );
}

#[test]
fn undefined_variable_is_reported() {
    let program = vec![Instruction::Print {
        message: Value::Identifier("c".to_string()),
    }];
    match run_err(program, vec![]) {
        InterpreterError::VariableNotDefined(name) => assert_eq!(name, "c"),
        other => panic!("expected VariableNotDefined, got {:?}", other),
    }
}

#[test]
fn number_promotion_in_engine() {
    // 2 + 3 stays an integer; 2 + 3.0 becomes a float; 2 ^ 3 is always a float.
    let a = Number::Integer(2).add(&Number::Integer(3));
    assert!(matches!(a, Number::Integer(5)));
    let b = Number::Integer(2).add(&Number::Float(3.0f64.to_bits()));
    match b {
        Number::Float(bits) => assert_eq!(f64::from_bits(bits), 5.0),
        other => panic!("expected float, got {:?}", other),
    }
    let c = Number::Integer(2).pow(&Number::Integer(3));
    match c {
        Number::Float(bits) => assert_eq!(f64::from_bits(bits), 8.0),
        other => panic!("expected float, got {:?}", other),
    }
    assert_eq!(Data::Number(c).to_string(), "8");
}
