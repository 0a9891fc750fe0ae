use calc::error::Error;
use calc::interpreter::addition;
use calc::interpreter::basic_operation;
use calc::interpreter::division;
use calc::interpreter::interpret;
use calc::interpreter::multiplication;
use calc::interpreter::run;
use calc::interpreter::subtraction;
use calc::interpreter::to_value;
use calc::interpreter::Value;
use calc::parser::Ast;
use calc::tokenizer::Key;
use calc::tokenizer::Token;

#[test]
fn testing_run() {
    let formula = "1+2-3*4/6".to_string();
    let result = run(formula);

    assert_eq!(result, Ok("1".to_string()), "should calculate formula 1+2 and return 3");
}

#[test]
fn testing_interpret() {
    let ast = Ast::new(
        Ast::new_operator(Key::Addition),
        Ast::new_number(vec![Key::One]),
        Ast::new_number(vec![Key::Two]),
    );
    let result = interpret(ast);

    assert_eq!(
        result,
        Ok(Value { num: 3, den: 1 }),
        "should calculate formula 1+2 and return 3"
    );
}

#[test]
fn testing_format() {
    assert_eq!(
        calc::interpreter::format(Value { num: 1, den: 2 }),
        "0.5".to_string(),
        "should keep as float when the number has fraction"
    );
    assert_eq!(
        calc::interpreter::format(Value { num: 0, den: 1 }),
        "0".to_string(),
        "should convert to integer numbers without fraction"
    );
}

#[test]
fn testing_to_float() {
    let token_01 = Token::new_number(vec![Key::One]);
    let token_02 = Token::new_number(vec![Key::One, Key::Dot, Key::Five]);
    let token_03 = Token::new_operator(Key::Multiplication);

    assert_eq!(
        to_value(token_01),
        Ok(Value { num: 1, den: 1 }),
        "should convert token to float 1.0"
    );
    assert_eq!(
        to_value(token_02),
        Ok(Value { num: 15, den: 10 }),
        "should convert token to float 1.5"
    );
    assert_eq!(
        to_value(token_03),
        Err(Error::TokenNaN),
        "should return an error when token is not a number"
    );
}

#[test]
fn testing_basic_operation_calling_multiplication() {
    let operator = Token::new_operator(Key::Multiplication);
    let operand_a = Value { num: 6, den: 1 };
    let operand_b = Value { num: 7, den: 1 };
    let result = basic_operation(operator, operand_a, operand_b);

    assert_eq!(
        result,
        Ok(Value { num: 42, den: 1 }),
        "should calculate tokens using the multiplication function"
    );
}

#[test]
fn testing_basic_operation_calling_division() {
    let operator = Token::new_operator(Key::Division);
    let operand_a = Value { num: 210, den: 1 };
    let operand_b = Value { num: 5, den: 1 };
    let result = basic_operation(operator, operand_a, operand_b);

    assert!(
        result.unwrap().eqv(&Value { num: 42, den: 1 }),
        "should calculate tokens using the division function"
    );
}

#[test]
fn testing_basic_operation_calling_addiction() {
    let operator = Token::new_operator(Key::Addition);
    let operand_a = Value { num: 17, den: 1 };
    let operand_b = Value { num: 25, den: 1 };
    let result = basic_operation(operator, operand_a, operand_b);

    assert_eq!(
        result,
        Ok(Value { num: 42, den: 1 }),
        "should calculate tokens using the addition function"
    );
}

#[test]
fn testing_basic_operation_calling_subtraction() {
    let operator = Token::new_operator(Key::Subtraction);
    let operand_a = Value { num: 78, den: 1 };
    let operand_b = Value { num: 36, den: 1 };
    let result = basic_operation(operator, operand_a, operand_b);

    assert_eq!(
        result,
        Ok(Value { num: 42, den: 1 }),
        "should calculate tokens using the subtraction function"
    );
}

#[test]
fn testing_basic_operation_returning_error() {
    let operator = Token::new_number(vec![Key::Zero]);
    let operand_a = Value { num: 78, den: 1 };
    let operand_b = Value { num: 36, den: 1 };
    let result = basic_operation(operator, operand_a, operand_b);

    assert_eq!(
        result,
        Err(Error::TokenNaO),
        "should return the error: Token is not an operator"
    );
}

#[test]
fn testing_multiplication() {
    let token_a = Value { num: 2, den: 1 };
    let token_b = Value { num: 8, den: 1 };

    let result = multiplication(token_a, token_b);
    assert_eq!(result, Ok(Value { num: 16, den: 1 }));
}

#[test]
fn testing_division() {
    let token_a = Value { num: 5, den: 1 };
    let token_b = Value { num: 2, den: 1 };

    let result = division(token_a, token_b);
    assert_eq!(result, Ok(Value { num: 5, den: 2 }));
    assert!(result.unwrap().eqv(&Value { num: 25, den: 10 }));
}

#[test]
fn testing_division_by_zero() {
    let token_a = Value { num: 5, den: 1 };
    let token_b = Value { num: 0, den: 1 };

    let result = division(token_a, token_b);
    assert_eq!(result, Err(Error::DivisionByZero));
}

#[test]
fn testing_addition() {
    let token_a = Value { num: 40, den: 1 };
    let token_b = Value { num: 2, den: 1 };

    let result = addition(token_a, token_b);
    assert_eq!(result, Ok(Value { num: 42, den: 1 }));
}

#[test]
fn testing_subtraction() {
    let token_a = Value { num: 40, den: 1 };
    let token_b = Value { num: 2, den: 1 };

    let result = subtraction(token_a, token_b);
    assert_eq!(result, Ok(Value { num: 38, den: 1 }));
}

#[test]
fn format_suppresses_an_integral_fraction() {
    assert_eq!(calc::interpreter::format(Value { num: 4, den: 1 }), "4".to_string());
    assert_eq!(calc::interpreter::format(Value { num: 875, den: 1000 }), "0.875".to_string());
    assert_eq!(calc::interpreter::format(Value { num: 18, den: 3 }), "6".to_string());
}

#[test]
fn format_renders_a_negative_fraction() {
    assert_eq!(calc::interpreter::format(Value { num: -5, den: 2 }), "-2.5".to_string());
    assert_eq!(calc::interpreter::format(Value { num: -12, den: 4 }), "-3".to_string());
}

#[test]
fn format_cuts_a_non_terminating_expansion() {
    let expected = "0.".to_string() + &"3".repeat(64);
    assert_eq!(calc::interpreter::format(Value { num: 1, den: 3 }), expected);
}

#[test]
fn division_keeps_the_denominator_positive() {
    let result = division(Value { num: 1, den: 1 }, Value { num: -2, den: 1 });
    assert_eq!(result, Ok(Value { num: -1, den: 2 }));
}

#[test]
fn addition_reports_overflow() {
    let big = Value { num: i64::MAX, den: 1 };
    assert_eq!(addition(big, big), Err(Error::Overflow));
}

#[test]
fn to_value_reports_overflow_on_a_long_numeral() {
    let mut keys = Vec::new();
    for _ in 0..20 {
        keys.push(Key::Nine);
    }
    let token = Token::new_number(keys);
    assert_eq!(to_value(token), Err(Error::Overflow));
}

#[test]
fn interpret_without_operands_is_invalid_operand() {
    let ast = Ast::new(Ast::new_operator(Key::Addition), Ast::node_empty(), Ast::node_empty());
    assert_eq!(interpret(ast), Err(Error::InvalidOperand));
}
