//! The tree-walking evaluator: reduces an expression to an atom against one
//! mutable environment.
//!
//! Integer arithmetic is that of 32-bit two's complement: sums, differences
//! and products wrap around, and a quotient is truncated towards zero.
//! Operands are evaluated from left to right and the first failure ends the
//! evaluation; bindings made before the failure stay in the environment.
//! The four arithmetic instructions check the kind of every operand before
//! they count or fold them.

use vstd::prelude::*;
use vstd::math::abs;
use vstd::wrapping::i32_specs;
use crate::types::{views_of, Atom, AtomView, Bindings, Environment, Expr, ExprView, Instructions};

verus! {

/// Why an evaluation stopped.
#[derive(Debug, Clone, PartialEq, Eq)]
pub enum EvalError {
    /// A name was looked up that the environment does not bind.
    UndefinedVariable(String),
    /// An operand of the named operation has the wrong kind.
    TypeMismatch(Instructions),
    /// The named operation was given the wrong number of operands.
    ArityError(Instructions),
    /// A divisor was zero.
    DivisionByZero,
    /// The operator of an application is neither an instruction nor `define`.
    InvalidOperator,
    /// The instruction is reserved and has no meaning yet.
    UnsupportedInstruction,
    /// The form is reserved and has no meaning yet.
    UnsupportedExpression,
}

/// What an `EvalError` stands for.
pub ghost enum EvalErrorView {
    UndefinedVariable(Seq<char>),
    TypeMismatch(Instructions),
    ArityError(Instructions),
    DivisionByZero,
    InvalidOperator,
    UnsupportedInstruction,
    UnsupportedExpression,
}

impl View for EvalError {
    type V = EvalErrorView;

    open spec fn view(&self) -> EvalErrorView {
        match self {
            EvalError::UndefinedVariable(name) => EvalErrorView::UndefinedVariable(name@),
            EvalError::TypeMismatch(op) => EvalErrorView::TypeMismatch(*op),
            EvalError::ArityError(op) => EvalErrorView::ArityError(*op),
            EvalError::DivisionByZero => EvalErrorView::DivisionByZero,
            EvalError::InvalidOperator => EvalErrorView::InvalidOperator,
            EvalError::UnsupportedInstruction => EvalErrorView::UnsupportedInstruction,
            EvalError::UnsupportedExpression => EvalErrorView::UnsupportedExpression,
        }
    }
}

/// The outcome of an evaluation, as the contracts state it.
pub type Outcome = Result<AtomView, EvalErrorView>;

/// The view of an executable outcome.
pub open spec fn outcome_of(result: Result<Atom, EvalError>) -> Outcome {
    match result {
        Ok(atom) => Ok(atom@),
        Err(error) => Err(error@),
    }
}

/// The views of a sequence of atoms, in order.
pub open spec fn atom_views(atoms: Seq<Atom>) -> Seq<AtomView> {
    atoms.map_values(|atom: Atom| atom@)
}

/// The name that marks a binding form.
pub open spec fn define_keyword() -> Seq<char> {
    "define"@
}

/// Every value is an integer.
pub open spec fn all_ints(values: Seq<AtomView>) -> bool {
    forall|i: int| 0 <= i < values.len() ==> (#[trigger] values[i]) is Int
}

/// The integers that the values hold, in order.
pub open spec fn ints_of(values: Seq<AtomView>) -> Seq<i32> {
    values.map_values(|value: AtomView| value->Int_0)
}

/// The wrapping sum of `xs`; 0 for no integers.
pub open spec fn sum_of(xs: Seq<i32>) -> i32
    decreases xs.len(),
{
    if xs.len() == 0 {
        0
    } else {
        i32_specs::wrapping_add(sum_of(xs.drop_last()), xs.last())
    }
}

/// The wrapping product of `xs`; 1 for no integers.
pub open spec fn product_of(xs: Seq<i32>) -> i32
    decreases xs.len(),
{
    if xs.len() == 0 {
        1
    } else {
        i32_specs::wrapping_mul(product_of(xs.drop_last()), xs.last())
    }
}

/// `start` with each of `xs` subtracted in turn, wrapping.
pub open spec fn difference_from(start: i32, xs: Seq<i32>) -> i32
    decreases xs.len(),
{
    if xs.len() == 0 {
        start
    } else {
        i32_specs::wrapping_sub(difference_from(start, xs.drop_last()), xs.last())
    }
}

/// The quotient of `a` by a non-zero `b`, truncated towards zero. The one
/// quotient that does not fit, that of the least integer by -1, wraps to
/// the least integer.
pub open spec fn quotient(a: i32, b: i32) -> i32 {
    if a == i32::MIN && b == -1 {
        i32::MIN
    } else if (a >= 0) == (b > 0) {
        (abs(a as int) / abs(b as int)) as i32
    } else {
        (-(abs(a as int) / abs(b as int))) as i32
    }
}

/// `start` divided by each of `xs` in turn; `None` where one of them is zero.
pub open spec fn quotient_from(start: i32, xs: Seq<i32>) -> Option<i32>
    decreases xs.len(),
{
    if xs.len() == 0 {
        Some(start)
    } else {
        match quotient_from(start, xs.drop_last()) {
            Some(q) if xs.last() != 0 => Some(quotient(q, xs.last())),
            _ => None,
        }
    }
}

/// What an instruction makes of its evaluated operands. The four
/// arithmetic instructions first ask that every operand is an integer;
/// subtraction and division then ask for at least one operand. Every other
/// tag is reserved and unsupported.
pub open spec fn spec_apply(op: Instructions, values: Seq<AtomView>) -> Outcome {
    let xs = ints_of(values);
    match op {
        Instructions::Plus => if !all_ints(values) {
            Err(EvalErrorView::TypeMismatch(op))
        } else {
            Ok(AtomView::Int(sum_of(xs)))
        },
        Instructions::Multiply => if !all_ints(values) {
            Err(EvalErrorView::TypeMismatch(op))
        } else {
            Ok(AtomView::Int(product_of(xs)))
        },
        Instructions::Minus => if !all_ints(values) {
            Err(EvalErrorView::TypeMismatch(op))
        } else if values.len() == 0 {
            Err(EvalErrorView::ArityError(op))
        } else {
            Ok(AtomView::Int(difference_from(xs[0], xs.skip(1))))
        },
        Instructions::Divide => if !all_ints(values) {
            Err(EvalErrorView::TypeMismatch(op))
        } else if values.len() == 0 {
            Err(EvalErrorView::ArityError(op))
        } else {
            match quotient_from(xs[0], xs.skip(1)) {
                Some(q) => Ok(AtomView::Int(q)),
                None => Err(EvalErrorView::DivisionByZero),
            }
        },
        _ => Err(EvalErrorView::UnsupportedInstruction),
    }
}

/// The value of a constant: a key is looked up, any other atom is itself.
pub open spec fn spec_lookup(atom: AtomView, env: Bindings) -> Outcome {
    match atom {
        AtomView::Key(name) => if env.contains_key(name) {
            Ok(env[name])
        } else {
            Err(EvalErrorView::UndefinedVariable(name))
        },
        _ => Ok(atom),
    }
}

/// The outcome of evaluating `expr` in `env`, and the bindings afterwards.
pub open spec fn spec_eval(expr: ExprView, env: Bindings) -> (Outcome, Bindings)
    decreases expr,
{
    match expr {
        ExprView::Constant(atom) => (spec_lookup(atom, env), env),
        ExprView::Application(operator, operands) => match *operator {
            ExprView::Constant(AtomView::Instructions(op)) => {
                let (values, after) = spec_eval_operands(operands, env);
                match values {
                    Ok(values) => (spec_apply(op, values), after),
                    Err(error) => (Err(error), after),
                }
            },
            ExprView::Constant(AtomView::Key(keyword)) => if keyword == define_keyword() {
                spec_define(operands, env)
            } else {
                (Err(EvalErrorView::InvalidOperator), env)
            },
            _ => (Err(EvalErrorView::InvalidOperator), env),
        },
        _ => (Err(EvalErrorView::UnsupportedExpression), env),
    }
}

/// The values of `operands`, evaluated from left to right, each in the
/// bindings that the one before it left; the first failure ends it.
pub open spec fn spec_eval_operands(operands: Seq<ExprView>, env: Bindings) -> (
    Result<Seq<AtomView>, EvalErrorView>,
    Bindings,
)
    decreases operands,
{
    if operands.len() == 0 {
        (Ok(Seq::empty()), env)
    } else {
        let (front, mid) = spec_eval_operands(operands.drop_last(), env);
        match front {
            Err(error) => (Err(error), mid),
            Ok(values) => {
                let (last, after) = spec_eval(operands.last(), mid);
                match last {
                    Ok(value) => (Ok(values.push(value)), after),
                    Err(error) => (Err(error), after),
                }
            },
        }
    }
}

/// The binding form: two operands, the first a bare name that is not
/// evaluated, the second the expression whose value the name is bound to.
/// The outcome is the name.
pub open spec fn spec_define(operands: Seq<ExprView>, env: Bindings) -> (Outcome, Bindings)
    decreases operands,
{
    if operands.len() != 2 {
        (Err(EvalErrorView::ArityError(Instructions::Define)), env)
    } else {
        match operands[0] {
            ExprView::Constant(AtomView::Key(name)) => {
                let (value, after) = spec_eval(operands[1], env);
                match value {
                    Ok(value) => (Ok(AtomView::Key(name)), after.insert(name, value)),
                    Err(error) => (Err(error), after),
                }
            },
            _ => (Err(EvalErrorView::TypeMismatch(Instructions::Define)), env),
        }
    }
}

/// Once the operands up to some point have failed, the rest change nothing.
pub proof fn lemma_operands_failure_stays(operands: Seq<ExprView>, env: Bindings, k: int)
    requires
        0 <= k <= operands.len(),
        spec_eval_operands(operands.take(k), env).0 is Err,
    ensures
        spec_eval_operands(operands, env) == spec_eval_operands(operands.take(k), env),
    decreases operands.len(),
{
    if k == operands.len() {
        assert(operands.take(k) =~= operands);
    } else {
        assert(operands.drop_last().take(k) =~= operands.take(k));
        lemma_operands_failure_stays(operands.drop_last(), env, k);
    }
}

/// Once a divisor up to some point was zero, the rest change nothing.
pub proof fn lemma_zero_divisor_stays(start: i32, xs: Seq<i32>, k: int)
    requires
        0 <= k <= xs.len(),
        quotient_from(start, xs.take(k)) is None,
    ensures
        quotient_from(start, xs) is None,
    decreases xs.len(),
{
    if k == xs.len() {
        assert(xs.take(k) =~= xs);
    } else {
        assert(xs.drop_last().take(k) =~= xs.take(k));
        lemma_zero_divisor_stays(start, xs.drop_last(), k);
    }
}

/// The integers that `operands` hold, or `None` where one of them is no
/// integer.
fn integers_of(operands: &Vec<Atom>) -> (xs: Option<Vec<i32>>)
    ensures
        xs is Some <==> all_ints(atom_views(operands@)),
        xs matches Some(v) ==> v@ == ints_of(atom_views(operands@)),
{
    let mut xs: Vec<i32> = Vec::new();
    let mut i: usize = 0;
    while i < operands.len()
        invariant
            i <= operands.len(),
            xs@.len() == i,
            forall|j: int| 0 <= j < i ==> atom_views(operands@)[j] == AtomView::Int(xs@[j]),
        decreases operands.len() - i,
    {
        match &operands[i] {
            Atom::Int(x) => {
                xs.push(*x);
            },
            _ => {
                assert(!(atom_views(operands@)[i as int] is Int));
                return None;
            },
        }
        i += 1;
    }
    Some(xs)
}

/// The sum of the operands.
pub fn eval_plus(evaluated_operands: Vec<Atom>) -> (result: Result<Atom, EvalError>)
    ensures
        outcome_of(result) == spec_apply(Instructions::Plus, atom_views(evaluated_operands@)),
{
    match integers_of(&evaluated_operands) {
        None => Err(EvalError::TypeMismatch(Instructions::Plus)),
        Some(xs) => {
            let mut sum: i32 = 0;
            let mut i: usize = 0;
            while i < xs.len()
                invariant
                    i <= xs.len(),
                    sum == sum_of(xs@.take(i as int)),
                decreases xs.len() - i,
            {
                assert(xs@.take(i + 1).drop_last() =~= xs@.take(i as int));
                sum = sum.wrapping_add(xs[i]);
                i += 1;
            }
            assert(xs@.take(i as int) =~= xs@);
            Ok(Atom::Int(sum))
        },
    }
}

/// The first operand less each of the others in turn.
pub fn eval_minus(evaluated_operands: Vec<Atom>) -> (result: Result<Atom, EvalError>)
    ensures
        outcome_of(result) == spec_apply(Instructions::Minus, atom_views(evaluated_operands@)),
{
    match integers_of(&evaluated_operands) {
        None => Err(EvalError::TypeMismatch(Instructions::Minus)),
        Some(xs) => {
            if xs.len() == 0 {
                return Err(EvalError::ArityError(Instructions::Minus));
            }
            let mut diff: i32 = xs[0];
            let mut i: usize = 1;
            while i < xs.len()
                invariant
                    1 <= i <= xs.len(),
                    diff == difference_from(xs@[0], xs@.subrange(1, i as int)),
                decreases xs.len() - i,
            {
                assert(xs@.subrange(1, i + 1).drop_last() =~= xs@.subrange(1, i as int));
                diff = diff.wrapping_sub(xs[i]);
                i += 1;
            }
            Ok(Atom::Int(diff))
        },
    }
}

/// The product of the operands.
pub fn eval_multiply(evaluated_operands: Vec<Atom>) -> (result: Result<Atom, EvalError>)
    ensures
        outcome_of(result) == spec_apply(Instructions::Multiply, atom_views(evaluated_operands@)),
{
    match integers_of(&evaluated_operands) {
        None => Err(EvalError::TypeMismatch(Instructions::Multiply)),
        Some(xs) => {
            let mut product: i32 = 1;
            let mut i: usize = 0;
            while i < xs.len()
                invariant
                    i <= xs.len(),
                    product == product_of(xs@.take(i as int)),
                decreases xs.len() - i,
            {
                assert(xs@.take(i + 1).drop_last() =~= xs@.take(i as int));
                product = product.wrapping_mul(xs[i]);
                i += 1;
            }
            assert(xs@.take(i as int) =~= xs@);
            Ok(Atom::Int(product))
        },
    }
}

/// The quotient of `a` by a divisor that is not zero.
fn divide(a: i32, b: i32) -> (q: i32)
    requires
        b != 0,
    ensures
        q == quotient(a, b),
{
    proof {
        let n = abs(a as int);
        let d = abs(b as int);
        assert(0 <= n / d <= n && (d == 1 ==> n / d == n) && (d >= 2 ==> 2 * (n / d) <= n))
            by (nonlinear_arith)
            requires
                n >= 0,
                d >= 1,
        ;
    }
    match a.checked_div(b) {
        Some(q) => q,
        None => i32::MIN,
    }
}

/// The first operand divided by each of the others in turn.
pub fn eval_divide(evaluated_operands: Vec<Atom>) -> (result: Result<Atom, EvalError>)
    ensures
        outcome_of(result) == spec_apply(Instructions::Divide, atom_views(evaluated_operands@)),
{
    match integers_of(&evaluated_operands) {
        None => Err(EvalError::TypeMismatch(Instructions::Divide)),
        Some(xs) => {
            if xs.len() == 0 {
                return Err(EvalError::ArityError(Instructions::Divide));
            }
            let mut acc: i32 = xs[0];
            let mut i: usize = 1;
            while i < xs.len()
                invariant
                    1 <= i <= xs.len(),
                    all_ints(atom_views(evaluated_operands@)),
                    xs@ == ints_of(atom_views(evaluated_operands@)),
                    quotient_from(xs@[0], xs@.subrange(1, i as int)) == Some(acc),
                decreases xs.len() - i,
            {
                assert(xs@.subrange(1, i + 1).drop_last() =~= xs@.subrange(1, i as int));
                if xs[i] == 0 {
                    proof {
                        lemma_zero_divisor_stays(xs@[0], xs@.skip(1), i as int);
                    }
                    return Err(EvalError::DivisionByZero);
                }
                acc = divide(acc, xs[i]);
                i += 1;
            }
            Ok(Atom::Int(acc))
        },
    }
}

/// The value of a constant: a key is looked up in `env`, any other atom is
/// itself.
pub fn eval_variable_lookup(atom: &Atom, env: &Environment) -> (result: Result<Atom, EvalError>)
    ensures
        outcome_of(result) == spec_lookup(atom@, env@),
{
    match atom {
        Atom::Key(name) => match env.get(name.as_str()) {
            Some(value) => Ok(value),
            None => Err(EvalError::UndefinedVariable(name.clone())),
        },
        _ => Ok(atom.duplicate()),
    }
}

/// Whether `name` is the keyword of the binding form.
fn is_define(name: &String) -> (yes: bool)
    ensures
        yes == (name@ == define_keyword()),
{
    let keyword = "define".to_owned();
    *name == keyword
}

/// The binding form on its operands.
pub fn eval_variable_assignment(operands: &Vec<Expr>, env: &mut Environment) -> (result: Result<
    Atom,
    EvalError,
>)
    ensures
        outcome_of(result) == spec_define(views_of(operands@), old(env)@).0,
        final(env)@ == spec_define(views_of(operands@), old(env)@).1,
    decreases operands,
{
    if operands.len() == 2 {
        match &operands[0] {
            Expr::Constant(Atom::Key(name)) => {
                match eval(&operands[1], env) {
                    Ok(value) => {
                        env.insert(name.clone(), value);
                        Ok(Atom::Key(name.clone()))
                    },
                    Err(error) => Err(error),
                }
            },
            _ => Err(EvalError::TypeMismatch(Instructions::Define)),
        }
    } else {
        Err(EvalError::ArityError(Instructions::Define))
    }
}

/// The values of the operands, evaluated from left to right.
fn eval_operands(operands: &Vec<Expr>, env: &mut Environment) -> (result: Result<
    Vec<Atom>,
    EvalError,
>)
    ensures
        match result {
            Ok(values) => spec_eval_operands(views_of(operands@), old(env)@).0 == Ok::<
                Seq<AtomView>,
                EvalErrorView,
            >(atom_views(values@)),
            Err(error) => spec_eval_operands(views_of(operands@), old(env)@).0 == Err::<
                Seq<AtomView>,
                EvalErrorView,
            >(error@),
        },
        final(env)@ == spec_eval_operands(views_of(operands@), old(env)@).1,
    decreases operands,
{
    let ghost start = env@;
    let ghost all = views_of(operands@);
    let mut values: Vec<Atom> = Vec::new();
    let mut i: usize = 0;
    assert(atom_views(values@) =~= Seq::empty());
    while i < operands.len()
        invariant
            i <= operands.len(),
            all == views_of(operands@),
            start == old(env)@,
            spec_eval_operands(all.take(i as int), start) == (
                Ok::<Seq<AtomView>, EvalErrorView>(atom_views(values@)),
                env@,
            ),
        decreases operands.len() - i,
    {
        assert(all.take(i + 1).drop_last() =~= all.take(i as int));
        let ghost before = atom_views(values@);
        match eval(&operands[i], env) {
            Ok(value) => {
                values.push(value);
                assert(atom_views(values@) =~= before.push(value@));
            },
            Err(error) => {
                proof {
                    lemma_operands_failure_stays(all, start, i + 1);
                }
                return Err(error);
            },
        }
        i += 1;
    }
    assert(all.take(i as int) =~= all);
    Ok(values)
}

/// Evaluates `expr` in `env`.
///
/// A constant key is looked up; any other constant is itself. An
/// application of an instruction evaluates its operands from left to right
/// and applies the instruction to their values. An application of the key
/// `define` binds a name. Any other application, and the reserved forms,
/// fail. Bindings made before a failure stay.
pub fn eval(expr: &Expr, env: &mut Environment) -> (result: Result<Atom, EvalError>)
    ensures
        outcome_of(result) == spec_eval(expr@, old(env)@).0,
        final(env)@ == spec_eval(expr@, old(env)@).1,
    decreases expr,
{
    match expr {
        Expr::Constant(atom) => eval_variable_lookup(atom, env),
        Expr::Application(operator, operands) => {
            let head: &Expr = &**operator;
            assert(expr@ == ExprView::Application(Box::new(head@), views_of(operands@)));
            match head {
                Expr::Constant(Atom::Instructions(instruction)) => {
                    match eval_operands(operands, env) {
                        Err(error) => Err(error),
                        Ok(values) => match instruction {
                            Instructions::Plus => eval_plus(values),
                            Instructions::Minus => eval_minus(values),
                            Instructions::Multiply => eval_multiply(values),
                            Instructions::Divide => eval_divide(values),
                            _ => Err(EvalError::UnsupportedInstruction),
                        },
                    }
                },
                Expr::Constant(Atom::Key(keyword)) => {
                    if is_define(keyword) {
                        eval_variable_assignment(operands, env)
                    } else {
                        Err(EvalError::InvalidOperator)
                    }
                },
                _ => Err(EvalError::InvalidOperator),
            }
        },
        _ => Err(EvalError::UnsupportedExpression),
    }
}

} // verus!
