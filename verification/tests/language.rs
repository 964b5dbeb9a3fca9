use tinyscript::interpreter::{interpret, InterpreterError, RunOutcome};
use tinyscript::number::Number;
use tinyscript::parser::{is_operator_single, parse, Expression, ParserError, Value};
use tinyscript::tokenizer::{tokenize, Keyword, Operator, Token, TokenizerError};

fn run_program(source: &str, input: Vec<&str>) -> (Vec<String>, RunOutcome) {
    let tokens = tokenize(source).expect("tokenize failed");
    let instructions = parse(tokens).expect("parse failed");
    let input: Vec<String> = input.into_iter().map(|s| s.to_string()).collect();
    interpret(instructions, input, u64::MAX)
}

fn run_ok(source: &str, input: Vec<&str>) -> Vec<String> {
    let (output, outcome) = run_program(source, input);
    match outcome {
        RunOutcome::Completed(_) => output,
        RunOutcome::Failed(e) => panic!("program failed: {:?}", e),
        RunOutcome::OutOfFuel => panic!("out of fuel"),
    }
}

fn run_err(source: &str, input: Vec<&str>) -> InterpreterError {
    let (_, outcome) = run_program(source, input);
    match outcome {
        RunOutcome::Failed(e) => e,
        other => panic!("expected runtime error, got {:?}", other),
    }
}

#[test]
fn whole_pipeline_hello() {
    assert_eq!(run_ok("print(\"Hello, world!\");", vec![]), vec!["Hello, world!"]);
}

#[test]
fn whole_pipeline_arithmetic_and_loop() {
    let source = "
        i = 3;
        total = 0;
        while (0 < i) {
            total += i;
            i -= 1;
        }
        print(total);
    ";
    assert_eq!(run_ok(source, vec![]), vec!["6"]);
}

#[test]
fn grouping_identity_scenario() {
    let plain = run_ok("print(2 + 3);", vec![]);
    let grouped = run_ok("print((2 + 3));", vec![]);
    assert_eq!(plain, grouped);
    assert_eq!(plain, vec!["5"]);
}

#[test]
fn promotion_integer_plus_integer_is_integer() {
    assert_eq!(run_ok("print(2 + 3);", vec![]), vec!["5"]);
}

#[test]
fn promotion_integer_plus_float_is_float() {
    // The float result prints as "5", computed through IEEE doubles.
    assert_eq!(run_ok("print(2 + 3.0);", vec![]), vec!["5"]);
    assert_eq!(run_ok("print(2 + 3.5);", vec![]), vec!["5.5"]);
}

#[test]
fn exponent_is_always_float() {
    assert_eq!(run_ok("print(2 ^ 3);", vec![]), vec!["8"]);
    let n = Number::Integer(2).pow(&Number::Integer(3));
    assert!(matches!(n, Number::Float(_)));
    assert_eq!(run_ok("print(2 ^ 0.5);", vec![]), vec!["1.4142135623730951"]);
}

#[test]
fn subtraction_is_right_associative() {
    assert_eq!(run_ok("print(10 - 3 - 2);", vec![]), vec!["9"]);
}

#[test]
fn scoping_inner_assignment_mutates_outer() {
    assert_eq!(run_ok("a = 1; { a = 2; } print(a);", vec![]), vec!["2"]);
}

#[test]
fn scoping_first_write_in_block_is_global() {
    assert_eq!(run_ok("{ b = 3; } print(b);", vec![]), vec!["3"]);
}

#[test]
fn scoping_never_assigned_is_undefined() {
    match run_err("print(c);", vec![]) {
        InterpreterError::VariableNotDefined(name) => assert_eq!(name, "c"),
        other => panic!("expected VariableNotDefined, got {:?}", other),
    }
}

#[test]
fn no_short_circuit_and_evaluates_right_operand() {
    // The right operand of && assigns x even though the left operand is
    // already false.
    let source = "x = 0; c = false && (x = 1) == 1; print(x); print(c);";
    assert_eq!(run_ok(source, vec![]), vec!["1", "false"]);
}

#[test]
fn no_short_circuit_or_evaluates_right_operand() {
    let source = "x = 0; c = true || (x = 5) == 5; print(x); print(c);";
    assert_eq!(run_ok(source, vec![]), vec!["5", "true"]);
}

#[test]
fn cross_kind_equality_is_false_not_an_error() {
    assert_eq!(run_ok("print(1 == \"1\");", vec![]), vec!["false"]);
    assert_eq!(run_ok("print(1 != \"1\");", vec![]), vec!["true"]);
    assert_eq!(run_ok("print(true == 1);", vec![]), vec!["false"]);
}

#[test]
fn break_ends_the_nearest_enclosing_loop() {
    // The break sits inside an if block; it still ends the while loop after
    // one iteration.
    let source = "n = 0; while (true) { n += 1; if (true) { break; } } print(n);";
    assert_eq!(run_ok(source, vec![]), vec!["1"]);
}

#[test]
fn break_outside_a_loop_ends_the_sequence() {
    assert_eq!(run_ok("print(\"a\"); break; print(\"b\");", vec![]), vec!["a"]);
}

#[test]
fn else_runs_when_if_was_false() {
    let source = "if (false) { print(\"then\"); } else { print(\"else\"); }";
    assert_eq!(run_ok(source, vec![]), vec!["else"]);
}

#[test]
fn else_skipped_when_if_was_true() {
    let source = "if (true) { print(\"then\"); } else { print(\"else\"); }";
    assert_eq!(run_ok(source, vec![]), vec!["then"]);
}

#[test]
fn orphan_else_is_a_no_op() {
    assert_eq!(run_ok("else { print(\"never\"); } print(\"end\");", vec![]), vec!["end"]);
}

#[test]
fn input_is_trimmed_and_stored_as_string() {
    // Only the trailing line-ending and whitespace are stripped; leading
    // whitespace is part of the value.
    let source = "input x; print(x); print(x + \"!\");";
    assert_eq!(run_ok(source, vec!["hi \t\r\n"]), vec!["hi", "hi!"]);
    assert_eq!(run_ok(source, vec!["  hi \t"]), vec!["  hi", "  hi!"]);
}

#[test]
fn input_past_end_reads_empty_string() {
    assert_eq!(run_ok("input x; print(x + \"<\");", vec![]), vec!["<"]);
}

#[test]
fn string_concatenation() {
    assert_eq!(run_ok("print(\"foo\" + \"bar\");", vec![]), vec!["foobar"]);
}

#[test]
fn comments_are_ignored() {
    assert_eq!(run_ok("print(1); # a comment # print(2);", vec![]), vec!["1", "2"]);
}

#[test]
fn postfix_negation() {
    assert_eq!(run_ok("x = true; print(x!);", vec![]), vec!["false"]);
}

#[test]
fn float_arithmetic_through_doubles() {
    assert_eq!(run_ok("print(1.5 + 2.25);", vec![]), vec!["3.75"]);
    assert_eq!(run_ok("print(5.5 - 1.25);", vec![]), vec!["4.25"]);
    assert_eq!(run_ok("print(2.5 * 4.0);", vec![]), vec!["10"]);
    assert_eq!(run_ok("print(7.5 / 2.5);", vec![]), vec!["3"]);
    assert_eq!(run_ok("print(7.5 % 2.0);", vec![]), vec!["1.5"]);
    assert_eq!(run_ok("print(1.5 < 2.5);", vec![]), vec!["true"]);
    assert_eq!(run_ok("print(2.5 <= 2.5);", vec![]), vec!["true"]);
    assert_eq!(run_ok("print(3.5 > 4.5);", vec![]), vec!["false"]);
    assert_eq!(run_ok("print(1 < 2.5);", vec![]), vec!["true"]);
}

#[test]
fn integer_division_truncates() {
    assert_eq!(run_ok("print(7 / 2);", vec![]), vec!["3"]);
    assert_eq!(run_ok("print(7 % 3);", vec![]), vec!["1"]);
}

#[test]
fn integer_division_by_zero_is_a_typed_error() {
    match run_err("print(1 / 0);", vec![]) {
        InterpreterError::TypeMismatch(msg) => assert_eq!(msg, "Division by zero"),
        other => panic!("expected TypeMismatch, got {:?}", other),
    }
    match run_err("print(1 % 0);", vec![]) {
        InterpreterError::TypeMismatch(msg) => assert_eq!(msg, "Modulo by zero"),
        other => panic!("expected TypeMismatch, got {:?}", other),
    }
}

#[test]
fn float_division_by_zero_is_infinite() {
    assert_eq!(run_ok("print(1.0 / 0.0);", vec![]), vec!["inf"]);
}

#[test]
fn type_mismatch_messages() {
    match run_err("print(1 + true);", vec![]) {
        InterpreterError::TypeMismatch(msg) => {
            assert_eq!(msg, "Expected 2 strings or 2 numbers when adding")
        }
        other => panic!("unexpected {:?}", other),
    }
    match run_err("print(true && 1);", vec![]) {
        InterpreterError::TypeMismatch(msg) => assert_eq!(msg, "Expected 2 booleans "),
        other => panic!("unexpected {:?}", other),
    }
    match run_err("if (1) { print(1); }", vec![]) {
        InterpreterError::TypeMismatch(msg) => {
            assert_eq!(msg, "Expected boolean for if condition")
        }
        other => panic!("unexpected {:?}", other),
    }
    match run_err("1 = 2;", vec![]) {
        InterpreterError::TypeMismatch(msg) => {
            assert_eq!(msg, "Expected identifier on left side of assignment")
        }
        other => panic!("unexpected {:?}", other),
    }
}

#[test]
fn compound_assignment_desugars() {
    let source = "x = 10; x -= 3; x *= 2; x += 1; x /= 5; print(x); x %= 2; print(x);";
    assert_eq!(run_ok(source, vec![]), vec!["3", "1"]);
}

#[test]
fn while_loop_out_of_fuel() {
    let tokens = tokenize("while (true) { x = 1; }").unwrap();
    let instructions = parse(tokens).unwrap();
    let (_, outcome) = interpret(instructions, vec![], 10);
    assert!(matches!(outcome, RunOutcome::OutOfFuel));
}

#[test]
fn tokenizer_basics() {
    let tokens = tokenize("if else while print input break true false x;").unwrap();
    assert!(matches!(tokens[0], Token::Keyword(Keyword::If)));
    assert!(matches!(tokens[1], Token::Keyword(Keyword::Else)));
    assert!(matches!(tokens[2], Token::Keyword(Keyword::While)));
    assert!(matches!(tokens[3], Token::Keyword(Keyword::Print)));
    assert!(matches!(tokens[4], Token::Keyword(Keyword::Input)));
    assert!(matches!(tokens[5], Token::Keyword(Keyword::Break)));
    assert!(matches!(tokens[6], Token::Boolean(true)));
    assert!(matches!(tokens[7], Token::Boolean(false)));
    assert!(matches!(&tokens[8], Token::Identifier(s) if s == "x"));
    assert!(matches!(tokens[9], Token::EndStatement));
}

#[test]
fn tokenizer_operators() {
    let tokens = tokenize("+ - * / % ^ == != < > <= >= && || ! = += -= *= /= %=").unwrap();
    let expected = [
        Operator::Add,
        Operator::Subtract,
        Operator::Multiply,
        Operator::Divide,
        Operator::Modulo,
        Operator::Exponent,
        Operator::Equal,
        Operator::NotEqual,
        Operator::LessThan,
        Operator::GreaterThan,
        Operator::LessThanOrEqual,
        Operator::GreaterThanOrEqual,
        Operator::And,
        Operator::Or,
        Operator::Not,
        Operator::Assign,
        Operator::AddAssign,
        Operator::SubtractAssign,
        Operator::MultiplyAssign,
        Operator::DivideAssign,
        Operator::ModuloAssign,
    ];
    assert_eq!(tokens.len(), expected.len());
    for (tok, op) in tokens.iter().zip(expected.iter()) {
        match tok {
            Token::Operator(o) => assert_eq!(o, op),
            other => panic!("expected operator, got {:?}", other),
        }
    }
}

#[test]
fn tokenizer_numbers_with_separators() {
    let output = run_ok("print(1_000 + 2,5);", vec![]);
    assert_eq!(output, vec!["1025"]);
    assert_eq!(run_ok("print(1_000.5);", vec![]), vec!["1000.5"]);
}

#[test]
fn tokenizer_unknown_operator() {
    match tokenize("a & b") {
        Err(TokenizerError::UnknownOperator(s)) => assert_eq!(s, "&"),
        other => panic!("expected UnknownOperator, got {:?}", other),
    }
    match tokenize("a ^= b") {
        Err(TokenizerError::UnknownOperator(s)) => assert_eq!(s, "^="),
        other => panic!("expected UnknownOperator, got {:?}", other),
    }
}

#[test]
fn tokenizer_unexpected_character() {
    match tokenize("a $ b") {
        Err(TokenizerError::UnexpectedCharacter(c)) => assert_eq!(c, '$'),
        other => panic!("expected UnexpectedCharacter, got {:?}", other),
    }
}

#[test]
fn tokenizer_invalid_numbers() {
    match tokenize("99999999999999999999;") {
        Err(TokenizerError::InvalidNumber(s)) => assert_eq!(s, "99999999999999999999"),
        other => panic!("expected InvalidNumber, got {:?}", other),
    }
    match tokenize("1.2.3;") {
        Err(TokenizerError::InvalidNumber(s)) => assert_eq!(s, "1.2.3"),
        other => panic!("expected InvalidNumber, got {:?}", other),
    }
    let tokens = tokenize("9223372036854775807;").unwrap();
    assert!(matches!(tokens[0], Token::Number(Number::Integer(i64::MAX))));
}

#[test]
fn parser_reports_missing_condition_bracket() {
    let tokens = tokenize("if { print(1); }").unwrap();
    match parse(tokens) {
        Err(ParserError::ExpectedToken(Token::BracketOpen)) => {}
        other => panic!("expected ExpectedToken(BracketOpen), got {:?}", other),
    }
}

#[test]
fn parser_reports_unterminated_spans() {
    let tokens = tokenize("print(1 + 2").unwrap();
    assert!(matches!(parse(tokens), Err(ParserError::UnexpectedEnd)));
    let tokens = tokenize("{ print(1);").unwrap();
    assert!(matches!(parse(tokens), Err(ParserError::UnexpectedEnd)));
}

#[test]
fn parser_reports_unexpected_token() {
    let tokens = tokenize("} print(1);").unwrap();
    assert!(matches!(parse(tokens), Err(ParserError::UnexpectedToken(Token::ScopeClose))));
}

#[test]
fn parser_input_needs_identifier() {
    let tokens = tokenize("input 5;").unwrap();
    match parse(tokens) {
        Err(ParserError::ExpectedToken(Token::Identifier(s))) => assert_eq!(s, ""),
        other => panic!("expected ExpectedToken(Identifier), got {:?}", other),
    }
}

#[test]
fn expression_constructors_and_getters() {
    assert!(is_operator_single(&Operator::Not));
    assert!(is_operator_single(&Operator::Brackets));
    assert!(!is_operator_single(&Operator::Add));
    let e = Expression::new(
        Operator::Add,
        Value::Number(Number::Integer(1)),
        Value::Number(Number::Integer(2)),
    );
    assert!(matches!(e.get_operator(), Operator::Add));
    assert!(matches!(e.get_left(), Value::Number(Number::Integer(1))));
    assert!(matches!(e.get_right(), Some(Value::Number(Number::Integer(2)))));
    let u = Expression::new_not_or_bracket(Operator::Not, Value::Boolean(true));
    assert!(matches!(u.get_right(), None));
}

#[test]
fn number_to_string_extremes() {
    assert_eq!(Number::Integer(i64::MIN).to_string(), "-9223372036854775808");
    assert_eq!(Number::Integer(i64::MAX).to_string(), "9223372036854775807");
    assert_eq!(Number::Integer(0).to_string(), "0");
    assert_eq!(Number::Float(0.1f64.to_bits()).to_string(), "0.1");
}

#[test]
fn number_division_edge_cases() {
    // Truncated division and remainder, with i64::MIN / -1 wrapping.
    match Number::Integer(-7).div(&Number::Integer(2)) {
        Some(Number::Integer(q)) => assert_eq!(q, -3),
        other => panic!("unexpected {:?}", other),
    }
    match Number::Integer(-7).rem(&Number::Integer(2)) {
        Some(Number::Integer(m)) => assert_eq!(m, -1),
        other => panic!("unexpected {:?}", other),
    }
    match Number::Integer(i64::MIN).div(&Number::Integer(-1)) {
        Some(Number::Integer(q)) => assert_eq!(q, i64::MIN),
        other => panic!("unexpected {:?}", other),
    }
    assert!(Number::Integer(5).div(&Number::Integer(0)).is_none());
}

#[test]
fn nested_loops_and_breaks() {
    let source = "
        i = 0;
        rows = \"\";
        while (i < 2) {
            j = 0;
            while (true) {
                rows += \"x\";
                j += 1;
                if (j == 3) { break; }
            }
            i += 1;
        }
        print(rows);
    ";
    assert_eq!(run_ok(source, vec![]), vec!["xxxxxx"]);
}

#[test]
fn if_condition_with_comparison_chain() {
    let source = "
        if ((1+5) > (1*2)) {
            print(\"bigger\");
        }
    ";
    assert_eq!(run_ok(source, vec![]), vec!["bigger"]);
}

#[test]
fn else_pairs_with_the_immediately_preceding_if() {
    let source = "if (false) { } if (false) { } else { print(\"e\"); }";
    assert_eq!(run_ok(source, vec![]), vec!["e"]);
    let source = "if (false) { } if (true) { } else { print(\"e\"); } print(\"end\");";
    assert_eq!(run_ok(source, vec![]), vec!["end"]);
}

#[test]
fn while_condition_must_be_boolean() {
    match run_err("while (1) { break; }", vec![]) {
        InterpreterError::TypeMismatch(msg) => {
            assert_eq!(msg, "Expected boolean for if condition")
        }
        other => panic!("unexpected {:?}", other),
    }
}

#[test]
fn unterminated_string_swallows_the_rest() {
    let tokens = tokenize("print(\"abc").unwrap();
    assert!(matches!(&tokens[2], Token::String(s) if s == "abc"));
    assert!(matches!(parse(tokens), Err(ParserError::UnexpectedEnd)));
}

#[test]
fn empty_program_runs() {
    assert_eq!(run_ok("", vec![]), Vec::<String>::new());
    assert_eq!(run_ok("   \n\t ;;", vec![]), Vec::<String>::new());
}

#[test]
fn comparison_needs_numbers() {
    match run_err("print(\"a\" < \"b\");", vec![]) {
        InterpreterError::TypeMismatch(msg) => assert_eq!(msg, "Expected 2 numbers "),
        other => panic!("unexpected {:?}", other),
    }
}

#[test]
fn exponent_needs_numbers() {
    match run_err("print(true ^ 2);", vec![]) {
        InterpreterError::TypeMismatch(msg) => {
            assert_eq!(msg, "Expected 2 numbers when taking exponent")
        }
        other => panic!("unexpected {:?}", other),
    }
}
