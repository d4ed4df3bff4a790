//! What holds of every evaluation, proved from what the contracts of the
//! evaluator and of the grammar state.

use vstd::prelude::*;
use vstd::wrapping::i32_specs;
use crate::evaluator::{
    all_ints, define_keyword, difference_from, ints_of, product_of, quotient, quotient_from,
    spec_apply, spec_eval, spec_eval_operands, sum_of, EvalErrorView,
};
use crate::parser::{is_plain, lemma_expr_is_plain, spec_expr};
use crate::types::{AtomView, Bindings, ExprView, Instructions};

verus! {

/// The application of the instruction `op` to `operands`.
pub open spec fn instruction_form(op: Instructions, operands: Seq<ExprView>) -> ExprView {
    ExprView::Application(Box::new(ExprView::Constant(AtomView::Instructions(op))), operands)
}

/// The form that binds `name` to the value of `value`.
pub open spec fn define_form(name: Seq<char>, value: ExprView) -> ExprView {
    ExprView::Application(
        Box::new(ExprView::Constant(AtomView::Key(define_keyword()))),
        seq![ExprView::Constant(AtomView::Key(name)), value],
    )
}

/// A bare name.
pub open spec fn name_form(name: Seq<char>) -> ExprView {
    ExprView::Constant(AtomView::Key(name))
}

/// Whether `op` is one of the four arithmetic instructions.
pub open spec fn is_arithmetic(op: Instructions) -> bool {
    op == Instructions::Plus || op == Instructions::Minus || op == Instructions::Multiply || op
        == Instructions::Divide
}

/// A sum of no operands is 0 and a product of no operands is 1, in any
/// environment, and the environment stays as it was.
pub proof fn lemma_identity_elements(env: Bindings)
    ensures
        spec_eval(instruction_form(Instructions::Plus, Seq::empty()), env) == (
            Ok::<AtomView, EvalErrorView>(AtomView::Int(0)),
            env,
        ),
        spec_eval(instruction_form(Instructions::Multiply, Seq::empty()), env) == (
            Ok::<AtomView, EvalErrorView>(AtomView::Int(1)),
            env,
        ),
{
}

/// Subtraction and division fold from the left: the first operand is the
/// start, and each further operand is applied to what the ones before it
/// left.
pub proof fn lemma_left_to_right(a: i32, b: i32, c: i32)
    ensures
        spec_apply(Instructions::Minus, seq![AtomView::Int(a), AtomView::Int(b), AtomView::Int(c)])
            == Ok::<AtomView, EvalErrorView>(
            AtomView::Int(i32_specs::wrapping_sub(i32_specs::wrapping_sub(a, b), c)),
        ),
        b != 0 && c != 0 ==> spec_apply(
            Instructions::Divide,
            seq![AtomView::Int(a), AtomView::Int(b), AtomView::Int(c)],
        ) == Ok::<AtomView, EvalErrorView>(AtomView::Int(quotient(quotient(a, b), c))),
{
    let values = seq![AtomView::Int(a), AtomView::Int(b), AtomView::Int(c)];
    let xs = ints_of(values);
    let rest = xs.skip(1);
    assert(rest.drop_last() =~= seq![b]);
    assert(seq![b].drop_last() =~= Seq::<i32>::empty());
    assert(difference_from(a, Seq::<i32>::empty()) == a);
    assert(difference_from(a, seq![b]) == i32_specs::wrapping_sub(a, b));
    assert(quotient_from(a, Seq::<i32>::empty()) == Some(a));
    if b != 0 && c != 0 {
        assert(quotient_from(a, seq![b]) == Some(quotient(a, b)));
    }
}

/// The sum of `xs` as a mathematical integer.
pub open spec fn total(xs: Seq<i32>) -> int
    decreases xs.len(),
{
    if xs.len() == 0 {
        0
    } else {
        total(xs.drop_last()) + xs.last()
    }
}

/// The product of `xs` as a mathematical integer.
pub open spec fn product(xs: Seq<i32>) -> int
    decreases xs.len(),
{
    if xs.len() == 0 {
        1
    } else {
        product(xs.drop_last()) * xs.last()
    }
}

/// `value` moved by `turns` times the number of 32-bit patterns.
pub open spec fn turned(value: int, turns: int) -> int {
    value + turns * 0x1_0000_0000
}

/// Whether `a` and `b` differ by a multiple of the number of 32-bit
/// patterns, so that they have the same low 32 bits.
pub open spec fn same_low_bits(a: int, b: int) -> bool {
    exists|turns: int| a == #[trigger] turned(b, turns)
}

/// What `+` yields is the sum of its operands reduced to 32 bits, and the
/// sum itself where the sum is a 32-bit signed integer.
pub proof fn lemma_sum_is_total(xs: Seq<i32>)
    ensures
        same_low_bits(sum_of(xs) as int, total(xs)),
        i32::MIN <= total(xs) <= i32::MAX ==> sum_of(xs) == total(xs),
    decreases xs.len(),
{
    if xs.len() == 0 {
        assert(sum_of(xs) == turned(total(xs), 0));
    } else {
        let front = xs.drop_last();
        lemma_sum_is_total(front);
        let k = choose|k: int| sum_of(front) == #[trigger] turned(total(front), k);
        let plain = sum_of(front) + xs.last();
        let c: int = if plain > i32::MAX {
            -1
        } else if plain < i32::MIN {
            1
        } else {
            0
        };
        assert(sum_of(xs) == turned(total(xs), k + c));
    }
    let k = choose|k: int| sum_of(xs) == #[trigger] turned(total(xs), k);
    if i32::MIN <= total(xs) <= i32::MAX {
        assert(k == 0);
    }
}

/// What `-` yields is its first operand less the sum of the others,
/// reduced to 32 bits, and that difference itself where it is a 32-bit
/// signed integer.
pub proof fn lemma_difference_is_total(start: i32, xs: Seq<i32>)
    ensures
        same_low_bits(difference_from(start, xs) as int, start - total(xs)),
        i32::MIN <= start - total(xs) <= i32::MAX ==> difference_from(start, xs) == start - total(
            xs,
        ),
    decreases xs.len(),
{
    if xs.len() == 0 {
        assert(difference_from(start, xs) == turned(start - total(xs), 0));
    } else {
        let front = xs.drop_last();
        lemma_difference_is_total(start, front);
        let k = choose|k: int|
            difference_from(start, front) == #[trigger] turned(start - total(front), k);
        let plain = difference_from(start, front) - xs.last();
        let c: int = if plain > i32::MAX {
            -1
        } else if plain < i32::MIN {
            1
        } else {
            0
        };
        assert(difference_from(start, xs) == turned(start - total(xs), k + c));
    }
    let k = choose|k: int| difference_from(start, xs) == #[trigger] turned(start - total(xs), k);
    if i32::MIN <= start - total(xs) <= i32::MAX {
        assert(k == 0);
    }
}

/// What `*` yields is the product of its operands reduced to 32 bits, and
/// the product itself where the product is a 32-bit signed integer.
pub proof fn lemma_product_is_total(xs: Seq<i32>)
    ensures
        same_low_bits(product_of(xs) as int, product(xs)),
        i32::MIN <= product(xs) <= i32::MAX ==> product_of(xs) == product(xs),
    decreases xs.len(),
{
    if xs.len() == 0 {
        assert(product_of(xs) == turned(product(xs), 0));
    } else {
        let front = xs.drop_last();
        lemma_product_is_total(front);
        let k = choose|k: int| product_of(front) == #[trigger] turned(product(front), k);
        let last = xs.last() as int;
        let plain = product_of(front) * last;
        let q = plain / 0x1_0000_0000;
        let c: int = if plain % 0x1_0000_0000 > i32::MAX {
            -q - 1
        } else {
            -q
        };
        assert(plain == q * 0x1_0000_0000 + plain % 0x1_0000_0000);
        assert(product_of(xs) == plain + c * 0x1_0000_0000);
        assert(plain == product(front) * last + (k * last) * 0x1_0000_0000) by (nonlinear_arith)
            requires
                plain == product_of(front) * last,
                product_of(front) == product(front) + k * 0x1_0000_0000,
        ;
        assert(product_of(xs) == turned(product(xs), k * last + c));
    }
    let k = choose|k: int| product_of(xs) == #[trigger] turned(product(xs), k);
    if i32::MIN <= product(xs) <= i32::MAX {
        assert(k == 0);
    }
}

/// A chain of divisions yields no value exactly where one of the divisors
/// is zero.
pub proof fn lemma_quotient_fails_on_zero(start: i32, xs: Seq<i32>)
    ensures
        quotient_from(start, xs) is None <==> exists|i: int| 0 <= i < xs.len() && xs[i] == 0,
    decreases xs.len(),
{
    if xs.len() > 0 {
        let front = xs.drop_last();
        lemma_quotient_fails_on_zero(start, front);
        if exists|i: int| 0 <= i < xs.len() && xs[i] == 0 {
            let i = choose|i: int| 0 <= i < xs.len() && xs[i] == 0;
            if i < front.len() {
                assert(front[i] == 0);
            }
        }
    }
}

/// A division of integers fails for a divisor of zero, and only then: the
/// failure is `DivisionByZero` exactly where an operand after the first is
/// zero.
pub proof fn lemma_division_by_zero(values: Seq<AtomView>)
    requires
        all_ints(values),
        values.len() >= 1,
    ensures
        spec_apply(Instructions::Divide, values) == Err::<AtomView, EvalErrorView>(
            EvalErrorView::DivisionByZero,
        ) <==> exists|i: int| 1 <= i < values.len() && values[i] == AtomView::Int(0),
        spec_apply(Instructions::Divide, values) is Ok <==> !exists|i: int|
            1 <= i < values.len() && values[i] == AtomView::Int(0),
{
    let xs = ints_of(values);
    let rest = xs.skip(1);
    lemma_quotient_fails_on_zero(xs[0], rest);
    if exists|i: int| 1 <= i < values.len() && values[i] == AtomView::Int(0) {
        let i = choose|i: int| 1 <= i < values.len() && values[i] == AtomView::Int(0);
        assert(rest[i - 1] == 0);
    }
}

/// A name that the environment does not bind evaluates to
/// `UndefinedVariable` with that name, and the environment stays as it was.
pub proof fn lemma_undefined_variable(name: Seq<char>, env: Bindings)
    requires
        !env.contains_key(name),
    ensures
        spec_eval(name_form(name), env) == (
            Err::<AtomView, EvalErrorView>(EvalErrorView::UndefinedVariable(name)),
            env,
        ),
{
}

/// Binding a name and then looking it up: where the value evaluates, the
/// binding form yields the name itself, and the name then evaluates to the
/// value.
pub proof fn lemma_define_then_lookup(name: Seq<char>, value: ExprView, env: Bindings)
    requires
        spec_eval(value, env).0 is Ok,
    ensures
        spec_eval(define_form(name, value), env).0 == Ok::<AtomView, EvalErrorView>(
            AtomView::Key(name),
        ),
        spec_eval(name_form(name), spec_eval(define_form(name, value), env).1).0 == spec_eval(
            value,
            env,
        ).0,
{
    let operands = seq![ExprView::Constant(AtomView::Key(name)), value];
}

/// An arithmetic instruction with an operand that is no integer fails with
/// a type mismatch that names the instruction.
pub proof fn lemma_type_mismatch(op: Instructions, values: Seq<AtomView>)
    requires
        is_arithmetic(op),
        !all_ints(values),
    ensures
        spec_apply(op, values) == Err::<AtomView, EvalErrorView>(EvalErrorView::TypeMismatch(op)),
{
}

/// Binding a name twice: the second binding replaces the first, and the
/// name then evaluates to the second value only.
pub proof fn lemma_redefine_overwrites(
    name: Seq<char>,
    first: ExprView,
    second: ExprView,
    env: Bindings,
)
    requires
        spec_eval(first, env).0 is Ok,
        spec_eval(second, spec_eval(define_form(name, first), env).1).0 is Ok,
    ensures
        ({
            let once = spec_eval(define_form(name, first), env).1;
            let twice = spec_eval(define_form(name, second), once).1;
            spec_eval(name_form(name), twice).0 == spec_eval(second, once).0
        }),
{
    let once = spec_eval(define_form(name, first), env).1;
    lemma_define_then_lookup(name, second, once);
}

/// Operands made of constants and applications alone never fail as an
/// unsupported expression.
pub proof fn lemma_plain_operands_are_supported(operands: Seq<ExprView>, env: Bindings)
    requires
        forall|i: int| 0 <= i < operands.len() ==> is_plain(#[trigger] operands[i]),
    ensures
        spec_eval_operands(operands, env).0 != Err::<Seq<AtomView>, EvalErrorView>(
            EvalErrorView::UnsupportedExpression,
        ),
    decreases operands,
{
    if operands.len() > 0 {
        let front = operands.drop_last();
        assert forall|i: int| 0 <= i < front.len() implies is_plain(#[trigger] front[i]) by {
            assert(front[i] == operands[i]);
        }
        lemma_plain_operands_are_supported(front, env);
        lemma_plain_is_supported(operands.last(), spec_eval_operands(front, env).1);
    }
}

/// An expression made of constants and applications alone never fails as
/// an unsupported expression.
pub proof fn lemma_plain_is_supported(expr: ExprView, env: Bindings)
    requires
        is_plain(expr),
    ensures
        spec_eval(expr, env).0 != Err::<AtomView, EvalErrorView>(
            EvalErrorView::UnsupportedExpression,
        ),
    decreases expr,
{
    if let ExprView::Application(operator, operands) = expr {
        match *operator {
            ExprView::Constant(AtomView::Instructions(_)) => {
                lemma_plain_operands_are_supported(operands, env);
            },
            ExprView::Constant(AtomView::Key(keyword)) => {
                if keyword == define_keyword() && operands.len() == 2 {
                    assert(is_plain(operands[1]));
                    lemma_plain_is_supported(operands[1], env);
                }
            },
            _ => {},
        }
    }
}

/// What the grammar reads, the evaluator supports: an expression that was
/// read from a text never fails as an unsupported expression, in any
/// environment.
pub proof fn lemma_read_is_supported(text: Seq<u8>, env: Bindings)
    ensures
        spec_expr(text, 0) matches Ok((_, expr)) ==> spec_eval(expr, env).0 != Err::<
            AtomView,
            EvalErrorView,
        >(EvalErrorView::UnsupportedExpression),
{
    lemma_expr_is_plain(text, 0);
    if let Ok((_, expr)) = spec_expr(text, 0) {
        lemma_plain_is_supported(expr, env);
    }
}

} // verus!
