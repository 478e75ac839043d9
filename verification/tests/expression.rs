use signed_floating_point_parser::{
    parse_decimal, parse_expression, DecimalNumber, Expression, Operator, Sign,
};

fn whole_number(sign: Sign, value: &str) -> DecimalNumber {
    DecimalNumber::Whole { sign, value: value.to_string() }
}

fn decimal_number(sign: Sign, whole: &str, fraction: &str) -> DecimalNumber {
    DecimalNumber::Decimal { sign, whole: whole.to_string(), fraction: fraction.to_string() }
}

fn operation(left: DecimalNumber, op: Operator, right: DecimalNumber) -> Option<Expression> {
    Some(Expression::Operation { left, op, right })
}

fn single(d: DecimalNumber) -> Option<Expression> {
    Some(Expression::Single(d))
}

#[test]
fn addition_of_two_decimals() {
    assert_eq!(
        parse_expression("10.5 + 20.3"),
        operation(
            decimal_number(Sign::Positive, "10", "5"),
            Operator::Add,
            decimal_number(Sign::Positive, "20", "3"),
        )
    );
}

#[test]
fn multiplication_with_a_negative_left_operand() {
    assert_eq!(
        parse_expression("-15.2 * 3.7"),
        operation(
            decimal_number(Sign::Negative, "15", "2"),
            Operator::Mul,
            decimal_number(Sign::Positive, "3", "7"),
        )
    );
}

#[test]
fn subtraction_of_a_negative_number() {
    assert_eq!(
        parse_expression("100 - -50"),
        operation(whole_number(Sign::Positive, "100"), Operator::Sub, whole_number(Sign::Negative, "50"))
    );
}

#[test]
fn division_of_a_decimal_by_a_whole() {
    assert_eq!(
        parse_expression("-25.5 / 5"),
        operation(decimal_number(Sign::Negative, "25", "5"), Operator::Div, whole_number(Sign::Positive, "5"))
    );
}

#[test]
fn a_bare_number_is_a_single() {
    assert_eq!(parse_expression("123"), single(whole_number(Sign::Positive, "123")));
}

#[test]
fn a_signed_number_is_a_single() {
    assert_eq!(parse_expression("-456"), single(whole_number(Sign::Negative, "456")));
    assert_eq!(parse_expression("+789"), single(whole_number(Sign::Positive, "789")));
    assert_eq!(parse_expression("123.45"), single(decimal_number(Sign::Positive, "123", "45")));
    assert_eq!(parse_expression("-123.45"), single(decimal_number(Sign::Negative, "123", "45")));
    assert_eq!(parse_expression("+123.45"), single(decimal_number(Sign::Positive, "123", "45")));
}

#[test]
fn every_literal_is_a_single_of_itself() {
    let samples = ["0", "007", "-0.50", "+1", "12345678901234567890.5"];
    for s in samples {
        let d = parse_decimal(s).unwrap();
        assert_eq!(parse_expression(s), single(d), "{s:?}");
    }
}

#[test]
fn a_single_may_stand_in_white_space() {
    assert_eq!(parse_expression(" 123 "), single(whole_number(Sign::Positive, "123")));
    assert_eq!(parse_expression("\t-1.5\n"), single(decimal_number(Sign::Negative, "1", "5")));
    assert_eq!(parse_expression("  +7"), single(whole_number(Sign::Positive, "7")));
}

#[test]
fn malformed_text_is_rejected() {
    assert_eq!(parse_expression("12.3.4"), None);
    assert_eq!(parse_expression("-"), None);
    assert_eq!(parse_expression("+"), None);
    assert_eq!(parse_expression("abc"), None);
    assert_eq!(parse_expression(""), None);
    assert_eq!(parse_expression("   "), None);
}

#[test]
fn operands_need_no_white_space() {
    assert_eq!(
        parse_expression("1+2"),
        operation(whole_number(Sign::Positive, "1"), Operator::Add, whole_number(Sign::Positive, "2"))
    );
    assert_eq!(
        parse_expression("1.5/0.5"),
        operation(decimal_number(Sign::Positive, "1", "5"), Operator::Div, decimal_number(
            Sign::Positive,
            "0",
            "5"
        ))
    );
}

#[test]
fn a_sign_right_behind_the_operator_belongs_to_the_right_operand() {
    assert_eq!(
        parse_expression("1+-2"),
        operation(whole_number(Sign::Positive, "1"), Operator::Add, whole_number(Sign::Negative, "2"))
    );
    assert_eq!(
        parse_expression("100--50"),
        operation(whole_number(Sign::Positive, "100"), Operator::Sub, whole_number(Sign::Negative, "50"))
    );
    assert_eq!(
        parse_expression("-1--1"),
        operation(whole_number(Sign::Negative, "1"), Operator::Sub, whole_number(Sign::Negative, "1"))
    );
    assert_eq!(
        parse_expression("2*+3"),
        operation(whole_number(Sign::Positive, "2"), Operator::Mul, whole_number(Sign::Positive, "3"))
    );
}

#[test]
fn both_operands_may_carry_a_sign() {
    assert_eq!(
        parse_expression("+1.0 - +2.0"),
        operation(decimal_number(Sign::Positive, "1", "0"), Operator::Sub, decimal_number(
            Sign::Positive,
            "2",
            "0"
        ))
    );
    assert_eq!(
        parse_expression("-3 / -4"),
        operation(whole_number(Sign::Negative, "3"), Operator::Div, whole_number(Sign::Negative, "4"))
    );
}

#[test]
fn a_candidate_without_operands_is_passed_over() {
    // The sign of the left operand is a candidate here, since white space
    // stands before it; nothing stands on its left, so the scan goes on.
    assert_eq!(
        parse_expression(" -5 + 3"),
        operation(whole_number(Sign::Negative, "5"), Operator::Add, whole_number(Sign::Positive, "3"))
    );
    assert_eq!(
        parse_expression("\t+0.5*2 "),
        operation(decimal_number(Sign::Positive, "0", "5"), Operator::Mul, whole_number(Sign::Positive, "2"))
    );
}

#[test]
fn white_space_around_the_operands_is_set_aside() {
    assert_eq!(
        parse_expression("  1   +   2  "),
        operation(whole_number(Sign::Positive, "1"), Operator::Add, whole_number(Sign::Positive, "2"))
    );
    assert_eq!(
        parse_expression("1\u{A0}*\u{3000}2"),
        operation(whole_number(Sign::Positive, "1"), Operator::Mul, whole_number(Sign::Positive, "2"))
    );
    assert_eq!(
        parse_expression("1\t-\n2"),
        operation(whole_number(Sign::Positive, "1"), Operator::Sub, whole_number(Sign::Positive, "2"))
    );
}

#[test]
fn white_space_between_sign_and_digits_is_rejected() {
    assert_eq!(parse_expression("1 + - 2"), None);
    assert_eq!(parse_expression("- 1 + 2"), None);
    assert_eq!(parse_expression("100 -- 50"), None);
}

#[test]
fn a_missing_operand_is_rejected() {
    assert_eq!(parse_expression("1 +"), None);
    assert_eq!(parse_expression("1+"), None);
    assert_eq!(parse_expression("* 2"), None);
    assert_eq!(parse_expression("/"), None);
    assert_eq!(parse_expression("1 2"), None);
}

#[test]
fn a_first_character_is_never_the_operator() {
    assert_eq!(parse_expression("+5"), single(whole_number(Sign::Positive, "5")));
    assert_eq!(parse_expression("-5"), single(whole_number(Sign::Negative, "5")));
    assert_eq!(parse_expression("*5"), None);
    assert_eq!(parse_expression("/5"), None);
}

#[test]
fn more_than_one_operator_is_rejected() {
    assert_eq!(parse_expression("1 + 2 + 3"), None);
    assert_eq!(parse_expression("1*2/3"), None);
    assert_eq!(parse_expression("1 - 2 - -3"), None);
    assert_eq!(parse_expression("1*/2"), None);
    assert_eq!(parse_expression("1 --- 2"), None);
}

#[test]
fn malformed_operands_are_rejected() {
    assert_eq!(parse_expression("1. + 2"), None);
    assert_eq!(parse_expression("1 + .2"), None);
    assert_eq!(parse_expression("1.2.3 + 4"), None);
    assert_eq!(parse_expression("a + 1"), None);
    assert_eq!(parse_expression("1e-5 + 2"), None);
    assert_eq!(parse_expression("1 + 2é"), None);
    assert_eq!(parse_expression("é + 2"), None);
}

#[test]
fn characters_beyond_ascii_do_not_shift_the_split() {
    assert_eq!(
        parse_expression("\u{3000}\u{3000}12\u{2003}/\u{2003}-3.4\u{3000}"),
        operation(whole_number(Sign::Positive, "12"), Operator::Div, decimal_number(Sign::Negative, "3", "4"))
    );
}

#[test]
fn expressions_compare_by_shape_and_parts() {
    let one = whole_number(Sign::Positive, "1");
    let two = whole_number(Sign::Positive, "2");
    assert_eq!(single(one.clone()), single(one.clone()));
    assert_ne!(single(one.clone()), single(two.clone()));
    assert_eq!(
        operation(one.clone(), Operator::Add, two.clone()),
        operation(one.clone(), Operator::Add, two.clone())
    );
    assert_ne!(
        operation(one.clone(), Operator::Add, two.clone()),
        operation(one.clone(), Operator::Sub, two.clone())
    );
    assert_ne!(
        operation(one.clone(), Operator::Add, two.clone()),
        operation(two.clone(), Operator::Add, one.clone())
    );
    assert_ne!(operation(one.clone(), Operator::Add, two.clone()), single(one.clone()));
    let e = operation(one, Operator::Mul, two).unwrap();
    assert_eq!(e.clone(), e);
}
