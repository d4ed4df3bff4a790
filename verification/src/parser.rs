//! The grammar: text to syntax tree.
//!
//! Every rule reads the input as bytes from a position and either yields a
//! value with the position after it, or fails with the innermost cause, the
//! position of that cause and the rules that were being read, innermost
//! first. A choice tries its alternatives in order at the same position and
//! yields what the first that matches yields. Where a rule fails because
//! of several failures, it reports the one that got furthest into the
//! input, and of two that got equally far the earlier. Whitespace is
//! skipped only where a rule says so. Nothing after the value is looked at.

use vstd::prelude::*;
use vstd::string::StringSliceAdditionalSpecFns;
use crate::lexer::{
    alphanumerics_at, at, byte_at, digits_at, in_class, lemma_run, lemma_run_is, letters_at,
    run_len, skip_space, ByteClass,
};
use crate::lexer::{
    CLOSE, DIGIT_0, EQUALS, LOWER_D, LOWER_E, LOWER_F, LOWER_I, LOWER_N, LOWER_O, LOWER_T, MINUS,
    OPEN, PLUS, SLASH, STAR, UNDERSCORE,
};
use crate::types::{views_of, Atom, AtomView, Expr, ExprView, Instructions};

verus! {

/// The rules of the grammar.
#[derive(Debug, Clone, Copy, PartialEq, Eq, Structural)]
pub enum Rule {
    Instructions,
    Atom,
    Integer,
    Key,
    Boolean,
    Constant,
    Define,
    Application,
    Expr,
}

/// The innermost cause of a failure.
#[derive(Debug, Clone, Copy, PartialEq, Eq, Structural)]
pub enum ParseErrorKind {
    /// A decimal digit was expected.
    ExpectedDigit,
    /// The digits denote a number above the largest 32-bit signed integer.
    IntegerOverflow,
    /// A letter or `_` was expected.
    ExpectedIdentifier,
    /// `t` or `f` was expected.
    ExpectedBoolean,
    /// One of the operator tokens was expected.
    ExpectedInstruction,
    /// Neither an integer nor a key, a boolean or an operator token was
    /// found.
    UnrecognizedAtom,
    /// `(` was expected.
    ExpectedOpen,
    /// `)` was expected: the form is not terminated.
    ExpectedClose,
    /// The word `define` was expected.
    ExpectedDefine,
    /// Nothing that could be an expression follows the `(`.
    EmptyApplication,
}

/// Why and where a text was refused.
#[derive(Debug, Clone, PartialEq, Eq)]
pub struct ParseError {
    /// The innermost cause.
    pub kind: ParseErrorKind,
    /// The offset in bytes at which the cause was met.
    pub position: usize,
    /// The rules that were being read, innermost first.
    pub trace: Vec<Rule>,
}

/// What a `ParseError` stands for.
pub ghost struct ParseErrorView {
    pub kind: ParseErrorKind,
    pub position: int,
    pub trace: Seq<Rule>,
}

impl View for ParseError {
    type V = ParseErrorView;

    open spec fn view(&self) -> ParseErrorView {
        ParseErrorView { kind: self.kind, position: self.position as int, trace: self.trace@ }
    }
}

/// A failure of `kind` at `pos`, outside any rule.
pub open spec fn spec_fail(kind: ParseErrorKind, pos: int) -> ParseErrorView {
    ParseErrorView { kind, position: pos, trace: Seq::empty() }
}

/// The failure `error`, met while `rule` was being read.
pub open spec fn spec_within(rule: Rule, error: ParseErrorView) -> ParseErrorView {
    ParseErrorView { kind: error.kind, position: error.position, trace: error.trace.push(rule) }
}

/// A failure of `kind` at `pos` in `rule`.
pub open spec fn spec_fail_in(rule: Rule, kind: ParseErrorKind, pos: int) -> ParseErrorView {
    spec_within(rule, spec_fail(kind, pos))
}

/// A failure of `kind` at `pos` in `rule`.
fn fail_in(rule: Rule, kind: ParseErrorKind, pos: usize) -> (error: ParseError)
    ensures
        error@ == spec_fail_in(rule, kind, pos as int),
{
    let mut trace: Vec<Rule> = Vec::new();
    trace.push(rule);
    ParseError { kind, position: pos, trace }
}

/// The failure `error`, met while `rule` was being read.
fn within(rule: Rule, error: ParseError) -> (outer: ParseError)
    ensures
        outer@ == spec_within(rule, error@),
{
    let mut outer = error;
    outer.trace.push(rule);
    outer
}

/// Of two failures the one that got further into the input; the first
/// where they got equally far.
pub open spec fn spec_further(first: ParseErrorView, second: ParseErrorView) -> ParseErrorView {
    if second.position > first.position {
        second
    } else {
        first
    }
}

/// Of two failures the one that got further; the first where they got
/// equally far.
fn further(first: ParseError, second: ParseError) -> (chosen: ParseError)
    ensures
        chosen@ == spec_further(first@, second@),
{
    if second.position > first.position {
        second
    } else {
        first
    }
}

/// What a rule yields, as the contracts state it: the position after the
/// value and the value, or the failure.
pub type Parsed<T> = Result<(int, T), ParseErrorView>;

/// The view of an executable result whose value is its own view.
pub open spec fn plain<T>(result: Result<(usize, T), ParseError>) -> Parsed<T> {
    match result {
        Ok((end, value)) => Ok((end as int, value)),
        Err(error) => Err(error@),
    }
}

/// The view of an executable result.
pub open spec fn viewed<T: View>(result: Result<(usize, T), ParseError>) -> Parsed<T::V> {
    match result {
        Ok((end, value)) => Ok((end as int, value@)),
        Err(error) => Err(error@),
    }
}

/// The number that decimal digits denote; 0 for no digits.
pub open spec fn decimal_value(digits: Seq<u8>) -> nat
    decreases digits.len(),
{
    if digits.len() == 0 {
        0
    } else {
        (decimal_value(digits.drop_last()) * 10 + (digits.last() - DIGIT_0)) as nat
    }
}

/// The characters that ASCII bytes stand for.
pub open spec fn chars_of(bytes: Seq<u8>) -> Seq<char> {
    bytes.map_values(|b: u8| b as char)
}

/// `integer`: one or more decimal digits that denote a number which fits
/// 32 bits with a sign.
pub open spec fn spec_integer(s: Seq<u8>, pos: int) -> Parsed<i32> {
    let end = pos + run_len(ByteClass::Digit, s, pos);
    if end == pos {
        Err(spec_fail_in(Rule::Integer, ParseErrorKind::ExpectedDigit, pos))
    } else if decimal_value(s.subrange(pos, end)) > i32::MAX {
        Err(spec_fail_in(Rule::Integer, ParseErrorKind::IntegerOverflow, pos))
    } else {
        Ok((end, decimal_value(s.subrange(pos, end)) as i32))
    }
}

/// `key`: a letter or `_`, then the longest run of letters, digits and `_`.
pub open spec fn spec_key(s: Seq<u8>, pos: int) -> Parsed<Seq<char>> {
    if 0 <= pos < s.len() && (in_class(ByteClass::Alpha, s[pos]) || s[pos] == UNDERSCORE) {
        let end = pos + run_len(ByteClass::Identifier, s, pos);
        Ok((end, chars_of(s.subrange(pos, end))))
    } else {
        Err(spec_fail_in(Rule::Key, ParseErrorKind::ExpectedIdentifier, pos))
    }
}

/// `boolean`: `t` or `f`, and the whitespace after it.
pub open spec fn spec_boolean(s: Seq<u8>, pos: int) -> Parsed<bool> {
    if at(s, pos, LOWER_T) || at(s, pos, LOWER_F) {
        Ok((pos + 1 + run_len(ByteClass::Space, s, pos + 1), s[pos] == LOWER_T))
    } else {
        Err(spec_fail_in(Rule::Boolean, ParseErrorKind::ExpectedBoolean, pos))
    }
}

/// Whether the word `not` stands at `pos`.
pub open spec fn word_not(s: Seq<u8>, pos: int) -> bool {
    at(s, pos, LOWER_N) && at(s, pos + 1, LOWER_O) && at(s, pos + 2, LOWER_T)
}

/// Whether the word `define` stands at `pos`.
pub open spec fn word_define(s: Seq<u8>, pos: int) -> bool {
    at(s, pos, LOWER_D) && at(s, pos + 1, LOWER_E) && at(s, pos + 2, LOWER_F) && at(
        s,
        pos + 3,
        LOWER_I,
    ) && at(s, pos + 4, LOWER_N) && at(s, pos + 5, LOWER_E)
}

/// `instruction`: one of the tokens `+ - * / = not define`.
pub open spec fn spec_instructions(s: Seq<u8>, pos: int) -> Parsed<Instructions> {
    if at(s, pos, PLUS) {
        Ok((pos + 1, Instructions::Plus))
    } else if at(s, pos, MINUS) {
        Ok((pos + 1, Instructions::Minus))
    } else if at(s, pos, STAR) {
        Ok((pos + 1, Instructions::Multiply))
    } else if at(s, pos, SLASH) {
        Ok((pos + 1, Instructions::Divide))
    } else if at(s, pos, EQUALS) {
        Ok((pos + 1, Instructions::Equal))
    } else if word_not(s, pos) {
        Ok((pos + 3, Instructions::Not))
    } else if word_define(s, pos) {
        Ok((pos + 6, Instructions::Define))
    } else {
        Err(spec_fail_in(Rule::Instructions, ParseErrorKind::ExpectedInstruction, pos))
    }
}

/// `atom`: the first that matches of `integer`, `key`, `boolean` and
/// `instruction`. A word is therefore a key, whatever it spells.
pub open spec fn spec_atom(s: Seq<u8>, pos: int) -> Parsed<AtomView> {
    if let Ok((end, value)) = spec_integer(s, pos) {
        Ok((end, AtomView::Int(value)))
    } else if let Ok((end, name)) = spec_key(s, pos) {
        Ok((end, AtomView::Key(name)))
    } else if let Ok((end, value)) = spec_boolean(s, pos) {
        Ok((end, AtomView::Boolean(value)))
    } else if let Ok((end, op)) = spec_instructions(s, pos) {
        Ok((end, AtomView::Instructions(op)))
    } else {
        Err(spec_fail_in(Rule::Atom, ParseErrorKind::UnrecognizedAtom, pos))
    }
}

/// `constant`: an atom as an expression.
pub open spec fn spec_constant(s: Seq<u8>, pos: int) -> Parsed<ExprView> {
    match spec_atom(s, pos) {
        Ok((end, atom)) => Ok((end, ExprView::Constant(atom))),
        Err(error) => Err(spec_within(Rule::Constant, error)),
    }
}

/// What is left of the input from `pos` on.
pub open spec fn remaining(s: Seq<u8>, pos: int) -> nat {
    if 0 <= pos <= s.len() {
        (s.len() - pos) as nat
    } else {
        0
    }
}

/// `expr`: the first that matches of `constant`, `application` and the
/// short binding form. Where none matches it fails with the failure that
/// got furthest.
pub open spec fn spec_expr(s: Seq<u8>, pos: int) -> Parsed<ExprView>
    decreases remaining(s, pos), 2nat,
{
    match spec_constant(s, pos) {
        Ok(found) => Ok(found),
        Err(no_constant) => match spec_application(s, pos) {
            Ok(found) => Ok(found),
            Err(no_application) => match spec_define(s, pos) {
                Ok(found) => Ok(found),
                Err(no_define) => Err(
                    spec_within(
                        Rule::Expr,
                        spec_further(spec_further(no_constant, no_application), no_define),
                    ),
                ),
            },
        },
    }
}

/// The expressions that follow one another from `pos`, each after optional
/// whitespace: the position after the last of them, the expressions, and
/// the failure that ended the sequence.
pub open spec fn spec_sequence(s: Seq<u8>, pos: int) -> (int, Seq<ExprView>, Option<ParseErrorView>)
    decreases remaining(s, pos), 3nat,
{
    match spec_expr(s, pos + run_len(ByteClass::Space, s, pos)) {
        Ok((end, first)) => if 0 <= pos < end <= s.len() {
            let (last, rest, stop) = spec_sequence(s, end);
            (last, seq![first] + rest, stop)
        } else {
            (pos, Seq::empty(), None)
        },
        Err(stop) => (pos, Seq::empty(), Some(stop)),
    }
}

/// `application`: `(`, one or more expressions, optional whitespace, `)`.
/// The first expression is the operator, the others are the operands.
/// Where the `)` is missing and what stands there failed as an expression
/// further on, that failure is reported; else the missing `)`, or that
/// there is no expression at all.
pub open spec fn spec_application(s: Seq<u8>, pos: int) -> Parsed<ExprView>
    decreases remaining(s, pos), 1nat,
{
    if !at(s, pos, OPEN) {
        Err(spec_fail_in(Rule::Application, ParseErrorKind::ExpectedOpen, pos))
    } else {
        let (last, items, stop) = spec_sequence(s, pos + 1);
        let close = last + run_len(ByteClass::Space, s, last);
        if items.len() > 0 && at(s, close, CLOSE) {
            Ok((close + 1, ExprView::Application(Box::new(items[0]), items.skip(1))))
        } else if stop is Some && stop->Some_0.position > close {
            Err(spec_within(Rule::Application, stop->Some_0))
        } else if items.len() == 0 {
            Err(spec_fail_in(Rule::Application, ParseErrorKind::EmptyApplication, close))
        } else {
            Err(spec_fail_in(Rule::Application, ParseErrorKind::ExpectedClose, close))
        }
    }
}

/// The short binding form: `define`, `(`, optional whitespace, a key, `(`,
/// optional whitespace, an expression, optional whitespace, `)`, `)`. It
/// yields the application of the key to the expression.
pub open spec fn spec_define(s: Seq<u8>, pos: int) -> Parsed<ExprView>
    decreases remaining(s, pos), 1nat,
{
    if !word_define(s, pos) {
        Err(spec_fail_in(Rule::Define, ParseErrorKind::ExpectedDefine, pos))
    } else if !at(s, pos + 6, OPEN) {
        Err(spec_fail_in(Rule::Define, ParseErrorKind::ExpectedOpen, pos + 6))
    } else {
        match spec_key(s, pos + 7 + run_len(ByteClass::Space, s, pos + 7)) {
            Err(error) => Err(spec_within(Rule::Define, error)),
            Ok((after_key, name)) => if !at(s, after_key, OPEN) {
                Err(spec_fail_in(Rule::Define, ParseErrorKind::ExpectedOpen, after_key))
            } else {
                match spec_expr(s, after_key + 1 + run_len(ByteClass::Space, s, after_key + 1)) {
                    Err(error) => Err(spec_within(Rule::Define, error)),
                    Ok((after_value, value)) => {
                        let close = after_value + run_len(ByteClass::Space, s, after_value);
                        if !at(s, close, CLOSE) {
                            Err(spec_fail_in(Rule::Define, ParseErrorKind::ExpectedClose, close))
                        } else if !at(s, close + 1, CLOSE) {
                            Err(
                                spec_fail_in(
                                    Rule::Define,
                                    ParseErrorKind::ExpectedClose,
                                    close + 1,
                                ),
                            )
                        } else {
                            Ok(
                                (
                                    close + 2,
                                    ExprView::Application(
                                        Box::new(ExprView::Constant(AtomView::Key(name))),
                                        seq![value],
                                    ),
                                ),
                            )
                        }
                    },
                }
            },
        }
    }
}

/// An atom that was read ends after its start and inside the input.
pub proof fn lemma_atom_advances(s: Seq<u8>, pos: int)
    requires
        0 <= pos <= s.len(),
    ensures
        spec_atom(s, pos) matches Ok((end, _)) ==> pos < end <= s.len(),
{
    lemma_run(ByteClass::Digit, s, pos);
    lemma_run(ByteClass::Identifier, s, pos);
    if pos < s.len() {
        lemma_run(ByteClass::Space, s, pos + 1);
    }
}

/// An expression that was read ends after its start and inside the input.
pub proof fn lemma_expr_advances(s: Seq<u8>, pos: int)
    requires
        0 <= pos <= s.len(),
    ensures
        spec_expr(s, pos) matches Ok((end, _)) ==> pos < end <= s.len(),
    decreases remaining(s, pos), 2nat,
{
    lemma_atom_advances(s, pos);
    lemma_application_advances(s, pos);
    lemma_define_advances(s, pos);
}

/// A sequence of expressions ends inside the input, and it ends because
/// what stands there failed as an expression: no sequence is cut short.
pub proof fn lemma_sequence_advances(s: Seq<u8>, pos: int)
    requires
        0 <= pos <= s.len(),
    ensures
        pos <= spec_sequence(s, pos).0 <= s.len(),
        spec_sequence(s, pos).2 is Some,
    decreases remaining(s, pos), 3nat,
{
    lemma_run(ByteClass::Space, s, pos);
    let start = pos + run_len(ByteClass::Space, s, pos);
    lemma_expr_advances(s, start);
    if let Ok((end, _)) = spec_expr(s, start) {
        lemma_sequence_advances(s, end);
    }
}

/// An application that was read ends after its start and inside the input.
pub proof fn lemma_application_advances(s: Seq<u8>, pos: int)
    requires
        0 <= pos <= s.len(),
    ensures
        spec_application(s, pos) matches Ok((end, _)) ==> pos < end <= s.len(),
    decreases remaining(s, pos), 1nat,
{
    if at(s, pos, OPEN) {
        lemma_sequence_advances(s, pos + 1);
    }
}

/// A short binding form that was read ends after its start and inside the
/// input.
pub proof fn lemma_define_advances(s: Seq<u8>, pos: int)
    requires
        0 <= pos <= s.len(),
    ensures
        spec_define(s, pos) matches Ok((end, _)) ==> pos < end <= s.len(),
    decreases remaining(s, pos), 1nat,
{
    if word_define(s, pos) && at(s, pos + 6, OPEN) {
        lemma_run(ByteClass::Space, s, pos + 7);
        let name_at = pos + 7 + run_len(ByteClass::Space, s, pos + 7);
        lemma_run(ByteClass::Identifier, s, name_at);
        if let Ok((after_key, _)) = spec_key(s, name_at) {
            if at(s, after_key, OPEN) {
                lemma_run(ByteClass::Space, s, after_key + 1);
                let value_at = after_key + 1 + run_len(ByteClass::Space, s, after_key + 1);
                lemma_expr_advances(s, value_at);
            }
        }
    }
}

/// Whether `expr` is made of constants and applications alone.
pub open spec fn is_plain(expr: ExprView) -> bool
    decreases expr,
{
    match expr {
        ExprView::Constant(_) => true,
        ExprView::Application(operator, operands) => is_plain(*operator) && forall|i: int|
            0 <= i < operands.len() ==> is_plain(#[trigger] operands[i]),
        _ => false,
    }
}

/// No rule builds a reserved form: an expression that was read is made of
/// constants and applications alone.
pub proof fn lemma_expr_is_plain(s: Seq<u8>, pos: int)
    ensures
        spec_expr(s, pos) matches Ok((_, expr)) ==> is_plain(expr),
    decreases remaining(s, pos), 2nat,
{
    lemma_application_is_plain(s, pos);
    lemma_define_is_plain(s, pos);
}

/// The expressions of a sequence are made of constants and applications
/// alone.
pub proof fn lemma_sequence_is_plain(s: Seq<u8>, pos: int)
    ensures
        forall|i: int|
            0 <= i < spec_sequence(s, pos).1.len() ==> is_plain(
                #[trigger] spec_sequence(s, pos).1[i],
            ),
    decreases remaining(s, pos), 3nat,
{
    let start = pos + run_len(ByteClass::Space, s, pos);
    lemma_expr_is_plain(s, start);
    if let Ok((end, first)) = spec_expr(s, start) {
        if 0 <= pos < end <= s.len() {
            lemma_sequence_is_plain(s, end);
            let rest = spec_sequence(s, end).1;
            let all = spec_sequence(s, pos).1;
            assert forall|i: int| 0 <= i < all.len() implies is_plain(#[trigger] all[i]) by {
                if i > 0 {
                    assert(all[i] == rest[i - 1]);
                }
            }
        }
    }
}

/// An application that was read is made of constants and applications
/// alone.
pub proof fn lemma_application_is_plain(s: Seq<u8>, pos: int)
    ensures
        spec_application(s, pos) matches Ok((_, expr)) ==> is_plain(expr),
    decreases remaining(s, pos), 1nat,
{
    if at(s, pos, OPEN) {
        lemma_sequence_is_plain(s, pos + 1);
        let items = spec_sequence(s, pos + 1).1;
        if items.len() > 0 {
            assert(is_plain(items[0]));
            assert forall|i: int| 0 <= i < items.skip(1).len() implies is_plain(
                #[trigger] items.skip(1)[i],
            ) by {
                assert(items.skip(1)[i] == items[i + 1]);
            }
        }
    }
}

/// A short binding form that was read is made of constants and
/// applications alone.
pub proof fn lemma_define_is_plain(s: Seq<u8>, pos: int)
    ensures
        spec_define(s, pos) matches Ok((_, expr)) ==> is_plain(expr),
    decreases remaining(s, pos), 1nat,
{
    if word_define(s, pos) && at(s, pos + 6, OPEN) {
        let name_at = pos + 7 + run_len(ByteClass::Space, s, pos + 7);
        if let Ok((after_key, _)) = spec_key(s, name_at) {
            if at(s, after_key, OPEN) {
                let value_at = after_key + 1 + run_len(ByteClass::Space, s, after_key + 1);
                lemma_expr_is_plain(s, value_at);
                if let Ok((_, value)) = spec_expr(s, value_at) {
                    if let Ok((_, name)) = spec_key(s, name_at) {
                        let operator = ExprView::Constant(AtomView::Key(name));
                        let operands = seq![value];
                        assert(is_plain(operator));
                        assert(forall|i: int|
                            0 <= i < operands.len() ==> is_plain(#[trigger] operands[i]));
                        assert(is_plain(ExprView::Application(Box::new(operator), operands)));
                    }
                }
            }
        }
    }
}

/// `String::push` of the standard library: the string afterwards is the
/// string before with `c` appended at its end.
pub assume_specification[ String::push ](s: &mut String, c: char)
    ensures
        final(s)@ == old(s)@.push(c),
;

/// The digits read so far never denote more than all of them do.
pub proof fn lemma_decimal_prefix(digits: Seq<u8>, k: int)
    requires
        0 <= k <= digits.len(),
        forall|j: int| 0 <= j < digits.len() ==> in_class(ByteClass::Digit, #[trigger] digits[j]),
    ensures
        decimal_value(digits.take(k)) <= decimal_value(digits),
    decreases digits.len(),
{
    if k == digits.len() {
        assert(digits.take(k) =~= digits);
    } else {
        assert(digits.drop_last().take(k) =~= digits.take(k));
        lemma_decimal_prefix(digits.drop_last(), k);
    }
}

/// `integer` at `pos`.
fn integer_at(input: &[u8], pos: usize) -> (result: Result<(usize, i32), ParseError>)
    requires
        pos <= input.len(),
    ensures
        plain(result) == spec_integer(input@, pos as int),
        result matches Ok((end, _)) ==> pos < end <= input.len(),
{
    let end = match digits_at(input, pos) {
        None => {
            return Err(fail_in(Rule::Integer, ParseErrorKind::ExpectedDigit, pos));
        },
        Some(end) => end,
    };
    let ghost digits = input@.subrange(pos as int, end as int);
    proof {
        lemma_run(ByteClass::Digit, input@, pos as int);
    }
    let mut value: i32 = 0;
    let mut i: usize = pos;
    while i < end
        invariant
            pos <= i <= end <= input.len(),
            pos < end,
            end == pos + run_len(ByteClass::Digit, input@, pos as int),
            digits == input@.subrange(pos as int, end as int),
            forall|j: int|
                0 <= j < digits.len() ==> in_class(ByteClass::Digit, #[trigger] digits[j]),
            value == decimal_value(digits.take(i - pos)),
        decreases end - i,
    {
        assert(digits.take(i - pos + 1).drop_last() =~= digits.take(i - pos));
        assert(in_class(ByteClass::Digit, digits[i - pos]));
        let digit: i32 = (input[i] - DIGIT_0) as i32;
        let next = match value.checked_mul(10) {
            Some(tens) => tens.checked_add(digit),
            None => None,
        };
        match next {
            Some(v) => {
                value = v;
            },
            None => {
                proof {
                    lemma_decimal_prefix(digits, i - pos + 1);
                }
                return Err(fail_in(Rule::Integer, ParseErrorKind::IntegerOverflow, pos));
            },
        }
        i += 1;
    }
    assert(digits.take(end - pos) =~= digits);
    Ok((end, value))
}

/// `key` at `pos`.
fn key_at(input: &[u8], pos: usize) -> (result: Result<(usize, String), ParseError>)
    requires
        pos <= input.len(),
    ensures
        viewed(result) == spec_key(input@, pos as int),
        result matches Ok((end, _)) ==> pos < end <= input.len(),
{
    proof {
        lemma_run(ByteClass::Alpha, input@, pos as int);
    }
    let mut end: usize = match letters_at(input, pos) {
        Some(after) => after,
        None => {
            if byte_at(input, pos, UNDERSCORE) {
                pos + 1
            } else {
                return Err(fail_in(Rule::Key, ParseErrorKind::ExpectedIdentifier, pos));
            }
        },
    };
    let mut more = true;
    while more
        invariant
            pos < end <= input.len(),
            in_class(ByteClass::Alpha, input@[pos as int]) || input@[pos as int] == UNDERSCORE,
            forall|j: int| pos <= j < end ==> in_class(ByteClass::Identifier, #[trigger] input@[j]),
            !more ==> (end < input.len() ==> !in_class(ByteClass::Identifier, input@[end as int])),
        decreases input.len() - end + (if more { 1int } else { 0int }),
    {
        proof {
            lemma_run(ByteClass::Alphanumeric, input@, end as int);
        }
        match alphanumerics_at(input, end) {
            Some(after) => {
                end = after;
            },
            None => {
                if byte_at(input, end, UNDERSCORE) {
                    end = end + 1;
                } else {
                    more = false;
                }
            },
        }
    }
    proof {
        lemma_run_is(ByteClass::Identifier, input@, pos as int, end as int);
    }
    let mut name = String::new();
    let mut i: usize = pos;
    while i < end
        invariant
            pos <= i <= end <= input.len(),
            name@ == chars_of(input@.subrange(pos as int, i as int)),
        decreases end - i,
    {
        name.push(input[i] as char);
        i += 1;
    }
    Ok((end, name))
}

/// `boolean` at `pos`.
fn boolean_at(input: &[u8], pos: usize) -> (result: Result<(usize, bool), ParseError>)
    requires
        pos <= input.len(),
    ensures
        plain(result) == spec_boolean(input@, pos as int),
        result matches Ok((end, _)) ==> pos < end <= input.len(),
{
    if byte_at(input, pos, LOWER_T) {
        Ok((skip_space(input, pos + 1), true))
    } else if byte_at(input, pos, LOWER_F) {
        Ok((skip_space(input, pos + 1), false))
    } else {
        Err(fail_in(Rule::Boolean, ParseErrorKind::ExpectedBoolean, pos))
    }
}

/// Whether the word `not` stands at `pos`.
fn not_at(input: &[u8], pos: usize) -> (yes: bool)
    requires
        pos <= input.len(),
    ensures
        yes == word_not(input@, pos as int),
{
    input.len() - pos >= 3 && input[pos] == LOWER_N && input[pos + 1] == LOWER_O && input[pos + 2]
        == LOWER_T
}

/// Whether the word `define` stands at `pos`.
fn define_word_at(input: &[u8], pos: usize) -> (yes: bool)
    requires
        pos <= input.len(),
    ensures
        yes == word_define(input@, pos as int),
{
    input.len() - pos >= 6 && input[pos] == LOWER_D && input[pos + 1] == LOWER_E && input[pos
        + 2] == LOWER_F && input[pos + 3] == LOWER_I && input[pos + 4] == LOWER_N && input[pos
        + 5] == LOWER_E
}

/// `instruction` at `pos`.
fn instructions_at(input: &[u8], pos: usize) -> (result: Result<(usize, Instructions), ParseError>)
    requires
        pos <= input.len(),
    ensures
        plain(result) == spec_instructions(input@, pos as int),
        result matches Ok((end, _)) ==> pos < end <= input.len(),
{
    if byte_at(input, pos, PLUS) {
        Ok((pos + 1, Instructions::Plus))
    } else if byte_at(input, pos, MINUS) {
        Ok((pos + 1, Instructions::Minus))
    } else if byte_at(input, pos, STAR) {
        Ok((pos + 1, Instructions::Multiply))
    } else if byte_at(input, pos, SLASH) {
        Ok((pos + 1, Instructions::Divide))
    } else if byte_at(input, pos, EQUALS) {
        Ok((pos + 1, Instructions::Equal))
    } else if not_at(input, pos) {
        Ok((pos + 3, Instructions::Not))
    } else if define_word_at(input, pos) {
        Ok((pos + 6, Instructions::Define))
    } else {
        Err(fail_in(Rule::Instructions, ParseErrorKind::ExpectedInstruction, pos))
    }
}

/// `atom` at `pos`.
fn atom_at(input: &[u8], pos: usize) -> (result: Result<(usize, Atom), ParseError>)
    requires
        pos <= input.len(),
    ensures
        viewed(result) == spec_atom(input@, pos as int),
        result matches Ok((end, _)) ==> pos < end <= input.len(),
{
    if let Ok((end, value)) = integer_at(input, pos) {
        return Ok((end, Atom::Int(value)));
    }
    if let Ok((end, name)) = key_at(input, pos) {
        return Ok((end, Atom::Key(name)));
    }
    if let Ok((end, value)) = boolean_at(input, pos) {
        return Ok((end, Atom::Boolean(value)));
    }
    match instructions_at(input, pos) {
        Ok((end, op)) => Ok((end, Atom::Instructions(op))),
        Err(_) => Err(fail_in(Rule::Atom, ParseErrorKind::UnrecognizedAtom, pos)),
    }
}

/// `constant` at `pos`.
fn constant_at(input: &[u8], pos: usize) -> (result: Result<(usize, Expr), ParseError>)
    requires
        pos <= input.len(),
    ensures
        viewed(result) == spec_constant(input@, pos as int),
        result matches Ok((end, _)) ==> pos < end <= input.len(),
{
    match atom_at(input, pos) {
        Ok((end, atom)) => Ok((end, Expr::Constant(atom))),
        Err(error) => Err(within(Rule::Constant, error)),
    }
}

/// Reads an operator token at the start of `input`.
pub fn parse_instructions(input: &str) -> (result: Result<(usize, Instructions), ParseError>)
    ensures
        plain(result) == spec_instructions(input.spec_bytes(), 0),
        result matches Ok((end, _)) ==> 0 < end <= input.spec_bytes().len(),
{
    instructions_at(input.as_bytes(), 0)
}

/// Reads an atom at the start of `input`.
pub fn parse_atom(input: &str) -> (result: Result<(usize, Atom), ParseError>)
    ensures
        viewed(result) == spec_atom(input.spec_bytes(), 0),
        result matches Ok((end, _)) ==> 0 < end <= input.spec_bytes().len(),
{
    atom_at(input.as_bytes(), 0)
}

/// Reads an integer at the start of `input`.
pub fn parse_integer(input: &str) -> (result: Result<(usize, i32), ParseError>)
    ensures
        plain(result) == spec_integer(input.spec_bytes(), 0),
        result matches Ok((end, _)) ==> 0 < end <= input.spec_bytes().len(),
{
    integer_at(input.as_bytes(), 0)
}

/// Reads a key at the start of `input`.
pub fn parse_key(input: &str) -> (result: Result<(usize, String), ParseError>)
    ensures
        viewed(result) == spec_key(input.spec_bytes(), 0),
        result matches Ok((end, _)) ==> 0 < end <= input.spec_bytes().len(),
{
    key_at(input.as_bytes(), 0)
}

/// Reads a boolean at the start of `input`.
pub fn parse_boolean(input: &str) -> (result: Result<(usize, bool), ParseError>)
    ensures
        plain(result) == spec_boolean(input.spec_bytes(), 0),
        result matches Ok((end, _)) ==> 0 < end <= input.spec_bytes().len(),
{
    boolean_at(input.as_bytes(), 0)
}

/// Reads a constant at the start of `input`.
pub fn parse_constant(input: &str) -> (result: Result<(usize, Expr), ParseError>)
    ensures
        viewed(result) == spec_constant(input.spec_bytes(), 0),
        result matches Ok((end, _)) ==> 0 < end <= input.spec_bytes().len(),
{
    constant_at(input.as_bytes(), 0)
}

/// `expr` at `pos`.
fn expr_at(input: &[u8], pos: usize) -> (result: Result<(usize, Expr), ParseError>)
    requires
        pos <= input.len(),
    ensures
        viewed(result) == spec_expr(input@, pos as int),
        result matches Ok((end, _)) ==> pos < end <= input.len(),
    decreases input.len() - pos, 2nat,
{
    let no_constant = match constant_at(input, pos) {
        Ok(found) => {
            return Ok(found);
        },
        Err(error) => error,
    };
    let no_application = match application_at(input, pos) {
        Ok(found) => {
            return Ok(found);
        },
        Err(error) => error,
    };
    match define_at(input, pos) {
        Ok(found) => Ok(found),
        Err(no_define) => Err(
            within(Rule::Expr, further(further(no_constant, no_application), no_define)),
        ),
    }
}

/// The expressions that follow one another from `pos`, and the failure
/// that ended them.
fn sequence_at(input: &[u8], pos: usize) -> (result: (usize, Vec<Expr>, ParseError))
    requires
        pos <= input.len(),
    ensures
        spec_sequence(input@, pos as int) == (
            result.0 as int,
            views_of(result.1@),
            Some(result.2@),
        ),
        pos <= result.0 <= input.len(),
    decreases input.len() - pos, 3nat,
{
    let mut items: Vec<Expr> = Vec::new();
    let mut at_pos: usize = pos;
    loop
        invariant
            pos <= at_pos <= input.len(),
            spec_sequence(input@, pos as int) == (
                spec_sequence(input@, at_pos as int).0,
                views_of(items@) + spec_sequence(input@, at_pos as int).1,
                spec_sequence(input@, at_pos as int).2,
            ),
        decreases input.len() - at_pos,
    {
        let start = skip_space(input, at_pos);
        match expr_at(input, start) {
            Ok((end, item)) => {
                items.push(item);
                at_pos = end;
            },
            Err(stop) => {
                return (at_pos, items, stop);
            },
        }
    }
}

/// `application` at `pos`.
fn application_at(input: &[u8], pos: usize) -> (result: Result<(usize, Expr), ParseError>)
    requires
        pos <= input.len(),
    ensures
        viewed(result) == spec_application(input@, pos as int),
        result matches Ok((end, _)) ==> pos < end <= input.len(),
    decreases input.len() - pos, 1nat,
{
    if !byte_at(input, pos, OPEN) {
        return Err(fail_in(Rule::Application, ParseErrorKind::ExpectedOpen, pos));
    }
    let (last, mut items, stop) = sequence_at(input, pos + 1);
    let close = skip_space(input, last);
    if items.len() > 0 && byte_at(input, close, CLOSE) {
        let ghost all = views_of(items@);
        let head = items.remove(0);
        assert(views_of(items@) =~= all.skip(1));
        Ok((close + 1, Expr::Application(Box::new(head), items)))
    } else if stop.position > close {
        Err(within(Rule::Application, stop))
    } else if items.len() == 0 {
        Err(fail_in(Rule::Application, ParseErrorKind::EmptyApplication, close))
    } else {
        Err(fail_in(Rule::Application, ParseErrorKind::ExpectedClose, close))
    }
}

/// The short binding form at `pos`.
fn define_at(input: &[u8], pos: usize) -> (result: Result<(usize, Expr), ParseError>)
    requires
        pos <= input.len(),
    ensures
        viewed(result) == spec_define(input@, pos as int),
        result matches Ok((end, _)) ==> pos < end <= input.len(),
    decreases input.len() - pos, 1nat,
{
    if !define_word_at(input, pos) {
        return Err(fail_in(Rule::Define, ParseErrorKind::ExpectedDefine, pos));
    }
    if !byte_at(input, pos + 6, OPEN) {
        return Err(fail_in(Rule::Define, ParseErrorKind::ExpectedOpen, pos + 6));
    }
    let (after_key, name) = match key_at(input, skip_space(input, pos + 7)) {
        Ok(found) => found,
        Err(error) => {
            return Err(within(Rule::Define, error));
        },
    };
    if !byte_at(input, after_key, OPEN) {
        return Err(fail_in(Rule::Define, ParseErrorKind::ExpectedOpen, after_key));
    }
    let (after_value, value) = match expr_at(input, skip_space(input, after_key + 1)) {
        Ok(found) => found,
        Err(error) => {
            return Err(within(Rule::Define, error));
        },
    };
    let close = skip_space(input, after_value);
    if !byte_at(input, close, CLOSE) {
        return Err(fail_in(Rule::Define, ParseErrorKind::ExpectedClose, close));
    }
    if !byte_at(input, close + 1, CLOSE) {
        return Err(fail_in(Rule::Define, ParseErrorKind::ExpectedClose, close + 1));
    }
    let mut operands: Vec<Expr> = Vec::new();
    operands.push(value);
    assert(views_of(operands@) =~= seq![value@]);
    let operator = Expr::Constant(Atom::Key(name));
    assert(operator@ == ExprView::Constant(AtomView::Key(name@)));
    Ok((close + 2, Expr::Application(Box::new(operator), operands)))
}

/// Reads the short binding form at the start of `input`.
pub fn parse_define(input: &str) -> (result: Result<(usize, Expr), ParseError>)
    ensures
        viewed(result) == spec_define(input.spec_bytes(), 0),
        result matches Ok((end, _)) ==> 0 < end <= input.spec_bytes().len(),
{
    define_at(input.as_bytes(), 0)
}

/// Reads an application at the start of `input`.
pub fn parse_application(input: &str) -> (result: Result<(usize, Expr), ParseError>)
    ensures
        viewed(result) == spec_application(input.spec_bytes(), 0),
        result matches Ok((end, _)) ==> 0 < end <= input.spec_bytes().len(),
{
    application_at(input.as_bytes(), 0)
}

/// Reads one expression at the start of `input`. The first part of the
/// result is the offset in bytes at which the text that was not read
/// begins.
pub fn parse_expr(input: &str) -> (result: Result<(usize, Expr), ParseError>)
    ensures
        viewed(result) == spec_expr(input.spec_bytes(), 0),
        result matches Ok((end, _)) ==> 0 < end <= input.spec_bytes().len(),
{
    expr_at(input.as_bytes(), 0)
}

/// Reads one expression at the start of `input` and yields it alone. Text
/// after the expression is left unread and is no failure.
pub fn parse(input: &str) -> (result: Result<Expr, ParseError>)
    ensures
        match spec_expr(input.spec_bytes(), 0) {
            Ok((_, expr)) => result matches Ok(found) && found@ == expr,
            Err(error) => result matches Err(found) && found@ == error,
        },
{
    match expr_at(input.as_bytes(), 0) {
        Ok((_, expr)) => Ok(expr),
        Err(error) => Err(error),
    }
}

} // verus!
