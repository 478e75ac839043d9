//! Recognition of signed decimal literals and of expressions made of two such
//! literals around one binary operator.
//!
//! Text is modelled as a sequence of characters (`Seq<char>`), and every
//! function states its result as a function of that sequence:
//!
//! - [`parse_digit`] tells an ASCII digit (`chars::is_digit`);
//! - [`parse_number`] tells a non-empty run of digits (`number::is_number`);
//! - [`parse_decimal`] reads an optional sign, digits, and optionally a point
//!   and more digits (`decimal::decimal_of`);
//! - [`parse_expression`] reads one literal, or two literals around one of
//!   `+ - * /` (`expression::expression_of`).
//!
//! Digits are kept as text and never turned into a machine number, so
//! leading zeros and literals of any length come back as they were written.
//! Nothing is evaluated, and there is one way to fail: the result is `None`.

pub mod chars;
pub mod decimal;
pub mod expression;
pub mod number;
pub mod text;

pub use chars::parse_digit;
pub use decimal::{parse_decimal, DecimalNumber, Sign};
pub use expression::{parse_expression, Expression, Operator};
pub use number::parse_number;
