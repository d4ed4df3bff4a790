//! The data model shared by the grammar and the evaluator, with the
//! mathematical view of each type that the contracts speak of.

use vstd::prelude::*;
use vstd::hash_map::StringHashMap;

verus! {

/// The closed set of built-in operator tags.
#[derive(Debug, Clone, Copy, PartialEq, Eq, Structural)]
pub enum Instructions {
    Plus,
    Minus,
    Multiply,
    Divide,
    Equal,
    Not,
    Define,
}

/// A resolved scalar value.
#[derive(Debug, Clone, PartialEq, Eq)]
pub enum Atom {
    Int(i32),
    Key(String),
    Boolean(bool),
    Instructions(Instructions),
}

/// What an `Atom` stands for: a key is the sequence of its characters.
pub ghost enum AtomView {
    Int(i32),
    Key(Seq<char>),
    Boolean(bool),
    Instructions(Instructions),
}

impl View for Atom {
    type V = AtomView;

    open spec fn view(&self) -> AtomView {
        match self {
            Atom::Int(i) => AtomView::Int(*i),
            Atom::Key(name) => AtomView::Key(name@),
            Atom::Boolean(b) => AtomView::Boolean(*b),
            Atom::Instructions(op) => AtomView::Instructions(*op),
        }
    }
}

impl Atom {
    /// A copy that stands for the same value.
    pub fn duplicate(&self) -> (copy: Atom)
        ensures
            copy@ == self@,
    {
        match self {
            Atom::Int(i) => Atom::Int(*i),
            Atom::Key(name) => Atom::Key(name.clone()),
            Atom::Boolean(b) => Atom::Boolean(*b),
            Atom::Instructions(op) => Atom::Instructions(*op),
        }
    }
}

/// A node of the syntax tree. The conditional and quoting forms are part of
/// the tree's shape only: no grammar rule builds them and evaluation rejects
/// them.
#[derive(Debug, PartialEq, Eq)]
pub enum Expr {
    Constant(Atom),
    Application(Box<Expr>, Vec<Expr>),
    If(Box<Expr>, Box<Expr>),
    IfElse(Box<Expr>, Box<Expr>, Box<Expr>),
    Quote(Vec<Expr>),
}

/// What an `Expr` stands for: the same tree over atom views and sequences.
pub ghost enum ExprView {
    Constant(AtomView),
    Application(Box<ExprView>, Seq<ExprView>),
    If(Box<ExprView>, Box<ExprView>),
    IfElse(Box<ExprView>, Box<ExprView>, Box<ExprView>),
    Quote(Seq<ExprView>),
}

/// The views of a sequence of expressions, in order.
pub open spec fn views_of(exprs: Seq<Expr>) -> Seq<ExprView>
    decreases exprs,
{
    Seq::new(
        exprs.len(),
        |i: int|
            if 0 <= i < exprs.len() {
                view_of(exprs[i])
            } else {
                ExprView::Quote(Seq::empty())
            },
    )
}

/// The view of one expression.
pub open spec fn view_of(expr: Expr) -> ExprView
    decreases expr,
{
    match expr {
        Expr::Constant(atom) => ExprView::Constant(atom@),
        Expr::Application(operator, operands) => ExprView::Application(
            Box::new(view_of(*operator)),
            views_of(operands@),
        ),
        Expr::If(condition, consequent) => ExprView::If(
            Box::new(view_of(*condition)),
            Box::new(view_of(*consequent)),
        ),
        Expr::IfElse(condition, consequent, alternative) => ExprView::IfElse(
            Box::new(view_of(*condition)),
            Box::new(view_of(*consequent)),
            Box::new(view_of(*alternative)),
        ),
        Expr::Quote(items) => ExprView::Quote(views_of(items@)),
    }
}

impl View for Expr {
    type V = ExprView;

    open spec fn view(&self) -> ExprView {
        view_of(*self)
    }
}

/// Copies of `exprs`, in order.
fn duplicate_all(exprs: &Vec<Expr>) -> (copies: Vec<Expr>)
    ensures
        views_of(copies@) == views_of(exprs@),
    decreases exprs,
{
    let mut copies: Vec<Expr> = Vec::new();
    let mut i: usize = 0;
    while i < exprs.len()
        invariant
            i <= exprs.len(),
            copies@.len() == i,
            forall|j: int| 0 <= j < i ==> (#[trigger] copies@[j])@ == exprs@[j]@,
        decreases exprs.len() - i,
    {
        copies.push(exprs[i].duplicate());
        i += 1;
    }
    copies
}

impl Expr {
    /// A copy that stands for the same tree.
    pub fn duplicate(&self) -> (copy: Expr)
        ensures
            copy@ == self@,
        decreases self,
    {
        match self {
            Expr::Constant(atom) => Expr::Constant(atom.duplicate()),
            Expr::Application(operator, operands) => Expr::Application(
                Box::new(operator.duplicate()),
                duplicate_all(operands),
            ),
            Expr::If(condition, consequent) => Expr::If(
                Box::new(condition.duplicate()),
                Box::new(consequent.duplicate()),
            ),
            Expr::IfElse(condition, consequent, alternative) => Expr::IfElse(
                Box::new(condition.duplicate()),
                Box::new(consequent.duplicate()),
                Box::new(alternative.duplicate()),
            ),
            Expr::Quote(items) => Expr::Quote(duplicate_all(items)),
        }
    }
}

impl Clone for Expr {
    fn clone(&self) -> (copy: Expr)
        ensures
            copy@ == self@,
    {
        self.duplicate()
    }
}

/// The bindings that an environment holds: each name with the value bound
/// to it.
pub type Bindings = Map<Seq<char>, AtomView>;

/// The single mutable scope of an evaluation session: a table from names to
/// values in which a name occurs at most once.
pub struct Environment {
    table: StringHashMap<Atom>,
}

impl View for Environment {
    type V = Bindings;

    closed spec fn view(&self) -> Bindings {
        self.table@.map_values(|value: Atom| value@)
    }
}

impl Environment {
    /// A scope without bindings.
    pub fn new() -> (env: Environment)
        ensures
            env@ == Map::<Seq<char>, AtomView>::empty(),
    {
        let env = Environment { table: StringHashMap::new() };
        env
    }

    /// Whether `name` is bound.
    pub fn contains_key(&self, name: &str) -> (bound: bool)
        ensures
            bound == self@.contains_key(name@),
    {
        self.table.contains_key(name)
    }

    /// The value bound to `name`, if there is one.
    pub fn get(&self, name: &str) -> (value: Option<Atom>)
        ensures
            value is Some <==> self@.contains_key(name@),
            value matches Some(atom) ==> atom@ == self@[name@],
    {
        match self.table.get(name) {
            Some(atom) => Some(atom.duplicate()),
            None => None,
        }
    }

    /// Binds `name` to `value`; an earlier binding of `name` is replaced and
    /// every other binding is kept.
    pub fn insert(&mut self, name: String, value: Atom)
        ensures
            final(self)@ == old(self)@.insert(name@, value@),
    {
        self.table.insert(name, value);
    }
}

} // verus!
