use lisplib::lexer::{alphanumerics_at, byte_at, digits_at, letters_at, skip_space};
use lisplib::parser::{
    parse, parse_application, parse_atom, parse_boolean, parse_constant, parse_define, parse_expr,
    parse_instructions, parse_integer, parse_key, ParseError, ParseErrorKind, Rule,
};
use lisplib::types::{Atom, Expr, Instructions};

fn name(text: &str) -> Expr {
    Expr::Constant(Atom::Key(text.to_string()))
}

fn number(value: i32) -> Expr {
    Expr::Constant(Atom::Int(value))
}

fn op(tag: Instructions) -> Expr {
    Expr::Constant(Atom::Instructions(tag))
}

fn form(head: Expr, operands: Vec<Expr>) -> Expr {
    Expr::Application(Box::new(head), operands)
}

fn refused(kind: ParseErrorKind, position: usize, trace: Vec<Rule>) -> ParseError {
    ParseError { kind, position, trace }
}

#[test]
fn integer_is_a_run_of_digits() {
    assert_eq!(parse_integer("42"), Ok((2, 42)));
    assert_eq!(parse_integer("007x"), Ok((3, 7)));
    assert_eq!(parse_integer("0"), Ok((1, 0)));
    assert_eq!(parse_integer("12 34"), Ok((2, 12)));
}

#[test]
fn integer_must_fit_32_bits() {
    assert_eq!(parse_integer("2147483647"), Ok((10, i32::MAX)));
    assert_eq!(parse_integer("00000000002147483647"), Ok((20, i32::MAX)));
    assert_eq!(
        parse_integer("2147483648"),
        Err(refused(ParseErrorKind::IntegerOverflow, 0, vec![Rule::Integer]))
    );
    assert_eq!(
        parse_integer("99999999999999999999"),
        Err(refused(ParseErrorKind::IntegerOverflow, 0, vec![Rule::Integer]))
    );
}

#[test]
fn integer_needs_a_digit() {
    let expected = Err(refused(ParseErrorKind::ExpectedDigit, 0, vec![Rule::Integer]));
    assert_eq!(parse_integer(""), expected);
    assert_eq!(parse_integer("x1"), expected);
    assert_eq!(parse_integer("-1"), expected);
    assert_eq!(parse_integer(" 1"), expected);
}

#[test]
fn key_is_an_identifier() {
    assert_eq!(parse_key("abc"), Ok((3, "abc".to_string())));
    assert_eq!(parse_key("abc_1 rest"), Ok((5, "abc_1".to_string())));
    assert_eq!(parse_key("_x9-"), Ok((3, "_x9".to_string())));
    assert_eq!(parse_key("__"), Ok((2, "__".to_string())));
    assert_eq!(parse_key("a1b2_c3)"), Ok((7, "a1b2_c3".to_string())));
    assert_eq!(parse_key("Zz"), Ok((2, "Zz".to_string())));
}

#[test]
fn key_starts_with_a_letter_or_underscore() {
    let expected = Err(refused(ParseErrorKind::ExpectedIdentifier, 0, vec![Rule::Key]));
    assert_eq!(parse_key("1a"), expected);
    assert_eq!(parse_key(""), expected);
    assert_eq!(parse_key("+"), expected);
    assert_eq!(parse_key("\u{e9}t"), expected);
}

#[test]
fn boolean_takes_the_whitespace_after_it() {
    assert_eq!(parse_boolean("t"), Ok((1, true)));
    assert_eq!(parse_boolean("f"), Ok((1, false)));
    assert_eq!(parse_boolean("t \t\r\n x"), Ok((6, true)));
    assert_eq!(parse_boolean("fx"), Ok((1, false)));
    assert_eq!(
        parse_boolean("x"),
        Err(refused(ParseErrorKind::ExpectedBoolean, 0, vec![Rule::Boolean]))
    );
    assert_eq!(
        parse_boolean(" t"),
        Err(refused(ParseErrorKind::ExpectedBoolean, 0, vec![Rule::Boolean]))
    );
}

#[test]
fn instruction_tokens() {
    assert_eq!(parse_instructions("+"), Ok((1, Instructions::Plus)));
    assert_eq!(parse_instructions("-1"), Ok((1, Instructions::Minus)));
    assert_eq!(parse_instructions("*"), Ok((1, Instructions::Multiply)));
    assert_eq!(parse_instructions("/"), Ok((1, Instructions::Divide)));
    assert_eq!(parse_instructions("= 1"), Ok((1, Instructions::Equal)));
    assert_eq!(parse_instructions("not"), Ok((3, Instructions::Not)));
    assert_eq!(parse_instructions("nothing"), Ok((3, Instructions::Not)));
    assert_eq!(parse_instructions("define x"), Ok((6, Instructions::Define)));
    assert_eq!(
        parse_instructions("defin"),
        Err(refused(ParseErrorKind::ExpectedInstruction, 0, vec![Rule::Instructions]))
    );
    assert_eq!(
        parse_instructions("no"),
        Err(refused(ParseErrorKind::ExpectedInstruction, 0, vec![Rule::Instructions]))
    );
}

#[test]
fn atom_tries_its_alternatives_in_order() {
    assert_eq!(parse_atom("12"), Ok((2, Atom::Int(12))));
    assert_eq!(parse_atom("x"), Ok((1, Atom::Key("x".to_string()))));
    assert_eq!(parse_atom("t"), Ok((1, Atom::Key("t".to_string()))));
    assert_eq!(parse_atom("f "), Ok((1, Atom::Key("f".to_string()))));
    assert_eq!(parse_atom("define"), Ok((6, Atom::Key("define".to_string()))));
    assert_eq!(parse_atom("not"), Ok((3, Atom::Key("not".to_string()))));
    assert_eq!(parse_atom("/"), Ok((1, Atom::Instructions(Instructions::Divide))));
    assert_eq!(parse_atom("1x"), Ok((1, Atom::Int(1))));
}

#[test]
fn unrecognized_atom() {
    let expected = Err(refused(ParseErrorKind::UnrecognizedAtom, 0, vec![Rule::Atom]));
    assert_eq!(parse_atom("#"), expected);
    assert_eq!(parse_atom(""), expected);
    assert_eq!(parse_atom("(1)"), expected);
    assert_eq!(parse_atom("2147483648"), expected);
    assert_eq!(
        parse_constant("'x'"),
        Err(refused(ParseErrorKind::UnrecognizedAtom, 0, vec![Rule::Atom, Rule::Constant]))
    );
}

#[test]
fn constant_lifts_an_atom() {
    assert_eq!(parse_constant("5"), Ok((1, number(5))));
    assert_eq!(parse_constant("abc)"), Ok((3, name("abc"))));
    assert_eq!(parse_constant("*"), Ok((1, op(Instructions::Multiply))));
}

#[test]
fn application_of_an_instruction() {
    let expected = form(op(Instructions::Plus), vec![number(1), number(2), number(3)]);
    assert_eq!(parse_expr("(+ 1 2 3)"), Ok((9, expected)));
}

#[test]
fn application_skips_whitespace_between_its_parts() {
    let expected = form(op(Instructions::Minus), vec![number(1), name("a")]);
    assert_eq!(parse_application("(  -\t1\n a  )"), Ok((12, expected)));
    let tight = form(op(Instructions::Plus), vec![number(1)]);
    assert_eq!(parse_application("(+1)"), Ok((4, tight)));
}

#[test]
fn application_of_an_operator_alone() {
    assert_eq!(parse_expr("(+)"), Ok((3, form(op(Instructions::Plus), vec![]))));
    assert_eq!(parse_expr("(f)"), Ok((3, form(name("f"), vec![]))));
}

#[test]
fn nested_application() {
    let inner = form(op(Instructions::Multiply), vec![number(2), number(3)]);
    let outer = form(op(Instructions::Plus), vec![number(1), inner]);
    assert_eq!(parse_expr("(+ 1 (* 2 3))"), Ok((13, outer)));
    let head = form(name("f"), vec![]);
    assert_eq!(parse_expr("((f) 1)"), Ok((7, form(head, vec![number(1)]))));
}

#[test]
fn general_define_form() {
    let expected = form(name("define"), vec![name("x"), number(42)]);
    assert_eq!(parse_expr("(define x 42)"), Ok((13, expected)));
}

#[test]
fn empty_application_is_refused() {
    assert_eq!(
        parse_application("()"),
        Err(refused(ParseErrorKind::EmptyApplication, 1, vec![Rule::Application]))
    );
    assert_eq!(
        parse_application("(   )"),
        Err(refused(ParseErrorKind::EmptyApplication, 4, vec![Rule::Application]))
    );
    assert_eq!(
        parse_application("("),
        Err(refused(ParseErrorKind::EmptyApplication, 1, vec![Rule::Application]))
    );
    assert!(parse_expr("()").is_err());
}

#[test]
fn unterminated_application_is_refused() {
    assert_eq!(
        parse_application("(+ 1 2"),
        Err(refused(ParseErrorKind::ExpectedClose, 6, vec![Rule::Application]))
    );
    assert_eq!(
        parse_application("(+ 1 2 #)"),
        Err(refused(ParseErrorKind::ExpectedClose, 7, vec![Rule::Application]))
    );
    assert_eq!(
        parse_application("(+ 1 (* 2 3)"),
        Err(refused(ParseErrorKind::ExpectedClose, 12, vec![Rule::Application]))
    );
    assert_eq!(
        parse_application("+ 1)"),
        Err(refused(ParseErrorKind::ExpectedOpen, 0, vec![Rule::Application]))
    );
    assert!(parse_expr("(+ 1 2").is_err());
}

#[test]
fn choice_fails_with_the_failure_that_got_furthest() {
    assert_eq!(
        parse_expr("(+ 1 2"),
        Err(refused(ParseErrorKind::ExpectedClose, 6, vec![Rule::Application, Rule::Expr]))
    );
    assert_eq!(
        parse_expr("()"),
        Err(refused(ParseErrorKind::EmptyApplication, 1, vec![Rule::Application, Rule::Expr]))
    );
    let nothing = Err(refused(
        ParseErrorKind::UnrecognizedAtom,
        0,
        vec![Rule::Atom, Rule::Constant, Rule::Expr],
    ));
    assert_eq!(parse_expr(""), nothing);
    assert_eq!(parse_expr("'x'"), nothing);
    assert_eq!(parse_expr("\"Hello Strings\""), nothing);
    assert_eq!(parse_expr("2147483648"), nothing);
    assert_eq!(parse(""), Err(refused(
        ParseErrorKind::UnrecognizedAtom,
        0,
        vec![Rule::Atom, Rule::Constant, Rule::Expr],
    )));
}

#[test]
fn failure_inside_a_nested_form_is_reported() {
    assert_eq!(
        parse_application("(+ 1 (* 2"),
        Err(refused(
            ParseErrorKind::ExpectedClose,
            9,
            vec![Rule::Application, Rule::Expr, Rule::Application]
        ))
    );
    assert_eq!(
        parse_application("(("),
        Err(refused(
            ParseErrorKind::EmptyApplication,
            2,
            vec![Rule::Application, Rule::Expr, Rule::Application]
        ))
    );
    assert_eq!(
        parse_expr("(+ (- 1 2) (* 3 ()))"),
        Err(refused(
            ParseErrorKind::EmptyApplication,
            17,
            vec![
                Rule::Application,
                Rule::Expr,
                Rule::Application,
                Rule::Expr,
                Rule::Application,
                Rule::Expr
            ]
        ))
    );
    assert_eq!(
        parse_application("(+ 2147483648)"),
        Err(refused(ParseErrorKind::ExpectedClose, 3, vec![Rule::Application]))
    );
}

#[test]
fn parse_yields_the_expression_alone() {
    assert_eq!(parse("(+ 1 2) rest"), Ok(form(op(Instructions::Plus), vec![number(1), number(2)])));
    assert_eq!(parse("x"), Ok(name("x")));
    let tree = parse("(define x (+ 1 2))").unwrap();
    assert_eq!(tree.clone(), tree);
    assert_eq!(tree.duplicate(), tree);
}

#[test]
fn short_define_form() {
    let expected = form(name("x"), vec![number(42)]);
    assert_eq!(parse_define("define(x(42))"), Ok((13, expected)));
    let spaced = form(name("y_1"), vec![form(op(Instructions::Plus), vec![number(1)])]);
    assert_eq!(parse_define("define( y_1( (+ 1) ))"), Ok((21, spaced)));
}

#[test]
fn short_define_form_failures() {
    assert_eq!(
        parse_define("defin(x(1))"),
        Err(refused(ParseErrorKind::ExpectedDefine, 0, vec![Rule::Define]))
    );
    assert_eq!(
        parse_define("define x"),
        Err(refused(ParseErrorKind::ExpectedOpen, 6, vec![Rule::Define]))
    );
    assert_eq!(
        parse_define("define(1(2))"),
        Err(refused(ParseErrorKind::ExpectedIdentifier, 7, vec![Rule::Key, Rule::Define]))
    );
    assert_eq!(
        parse_define("define(x 1)"),
        Err(refused(ParseErrorKind::ExpectedOpen, 8, vec![Rule::Define]))
    );
    assert_eq!(
        parse_define("define(x())"),
        Err(refused(
            ParseErrorKind::UnrecognizedAtom,
            9,
            vec![Rule::Atom, Rule::Constant, Rule::Expr, Rule::Define]
        ))
    );
    assert_eq!(
        parse_define("define(x(1 2))"),
        Err(refused(ParseErrorKind::ExpectedClose, 11, vec![Rule::Define]))
    );
    assert_eq!(
        parse_define("define(x(1)"),
        Err(refused(ParseErrorKind::ExpectedClose, 11, vec![Rule::Define]))
    );
}

#[test]
fn a_constant_wins_over_the_short_define_form() {
    assert_eq!(parse_expr("define(x(42))"), Ok((6, name("define"))));
}

#[test]
fn text_after_the_expression_is_left_unread() {
    assert_eq!(parse_expr("1 2"), Ok((1, number(1))));
    let sum = form(op(Instructions::Plus), vec![number(1), number(2)]);
    assert_eq!(parse_expr("(+ 1 2) (- 3)"), Ok((7, sum)));
    assert_eq!(parse_expr("x y"), Ok((1, name("x"))));
}

#[test]
fn leading_whitespace_is_not_skipped() {
    assert!(parse_expr(" 1").is_err());
    assert!(parse_expr(" (+ 1 2)").is_err());
}

#[test]
fn bytes_outside_ascii_end_a_name() {
    assert_eq!(parse_expr("ab\u{e9}"), Ok((2, name("ab"))));
    assert!(parse_expr("\u{e9}").is_err());
}

#[test]
fn runs_of_bytes() {
    let text = "ab12  \t(x";
    let bytes = text.as_bytes();
    assert_eq!(letters_at(bytes, 0), Some(2));
    assert_eq!(letters_at(bytes, 2), None);
    assert_eq!(digits_at(bytes, 2), Some(4));
    assert_eq!(digits_at(bytes, 0), None);
    assert_eq!(digits_at(bytes, 9), None);
    assert_eq!(alphanumerics_at(bytes, 0), Some(4));
    assert_eq!(alphanumerics_at(bytes, 1), Some(4));
    assert_eq!(alphanumerics_at(bytes, 4), None);
    assert_eq!(skip_space(bytes, 4), 7);
    assert_eq!(skip_space(bytes, 0), 0);
    assert_eq!(skip_space(bytes, 9), 9);
    assert!(byte_at(bytes, 7, b'('));
    assert!(!byte_at(bytes, 8, b'('));
    assert!(!byte_at(bytes, 9, b'('));
}

#[test]
fn a_value_that_was_read_ends_inside_the_text() {
    let texts =
        ["1", "(+ 1 2)   ", "abc", "(define x 42) x", "((f))", "t   ", "(+ 1 (* 2 3)) (", "+"];
    for text in texts {
        let (rest, _) = parse_expr(text).unwrap();
        assert!(0 < rest && rest <= text.len());
    }
}
