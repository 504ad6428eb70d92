//! The scripting language: expressions, the environment that names them,
//! the store of dishes that they share, and how they are shown and
//! compared.

pub mod eval;
pub mod functions;
pub mod functions_nonnative;
pub mod laws;
pub mod parser;
pub mod round_trip;

use vstd::prelude::*;
use vstd::string::StringExecFns;
use crate::dish_text;
use crate::lisp::eval::eval;
use crate::lisp::eval::eval_spec;
use crate::lisp::eval::state_of;
use crate::lisp::eval::Evaluated;
use crate::lisp::eval::StateV;
use crate::lisp::functions::embed_operation;
use crate::lisp::parser::parse_text;
pub use crate::lisp::parser::Reader;
use crate::ops::info_views;
use crate::ops::operation_table;
use crate::ops::operations;
use crate::number::number_text;
use crate::number::Number;
use crate::number::NumberV;
use crate::table::lemma_table_absent;
use crate::table::lemma_table_found;
use crate::table::lemma_table_push;
use crate::table::table_of;
use crate::text::chars_of;
use crate::text::same_text;
use crate::Dish;
use crate::DishV;
use crate::Operation;
use crate::OperationArgV;
use crate::OperationArguments;
use crate::OperationInfo;
use crate::OperationInfoV;

verus! {

/// Why an evaluation or a parse failed.
#[derive(Debug, Clone, Copy, PartialEq, Eq, Structural)]
pub enum ErrorKind {
    /// The text is no expression: an unclosed parenthesis or string, a
    /// token that is none.
    Syntax,
    /// A symbol has no binding, or a dish handle no dish.
    Name,
    /// A form or a call has the wrong number of arguments.
    Arity,
    /// An expression is not of the kind that its place asks for.
    Type,
    /// Calls are nested deeper than the interpreter goes.
    Limit,
}

/// An error of the language: its cause and a message for the user.
#[derive(Debug)]
pub struct Error {
    pub kind: ErrorKind,
    pub message: String,
}

/// The mathematical model of an [`Error`].
pub struct ErrorV {
    pub kind: ErrorKind,
    pub message: Seq<char>,
}

impl View for Error {
    type V = ErrorV;

    open spec fn view(&self) -> ErrorV {
        ErrorV { kind: self.kind, message: self.message@ }
    }
}

impl Error {
    /// An error of the given kind with the given message.
    pub fn new(kind: ErrorKind, message: &str) -> (r: Error)
        ensures
            r@ == (ErrorV { kind, message: message@ }),
    {
        Error { kind, message: message.to_owned() }
    }

    /// The message.
    pub fn to_text(&self) -> (r: String)
        ensures
            r@ == self@.message,
    {
        self.message.clone()
    }
}

/// What can be called: the built-in functions, by name, and the operations
/// on dishes, before and after they have been given their arguments.
#[derive(Debug)]
pub enum Function {
    Add,
    Subtract,
    Equal,
    Apply,
    First,
    Rest,
    ButLast,
    Last,
    Empty,
    Cons,
    Dish,
    Recipe,
    Bake,
    /// An operation as it is installed under its name.
    Operation(OperationInfo),
    /// An operation that has its arguments and waits for a dish.
    Bound(Operation, OperationArguments),
}

/// The mathematical model of a [`Function`].
pub enum FunctionV {
    Add,
    Subtract,
    Equal,
    Apply,
    First,
    Rest,
    ButLast,
    Last,
    Empty,
    Cons,
    Dish,
    Recipe,
    Bake,
    Operation(OperationInfoV),
    Bound(Operation, Option<Map<Seq<char>, OperationArgV>>),
}

impl View for Function {
    type V = FunctionV;

    open spec fn view(&self) -> FunctionV {
        match self {
            Function::Add => FunctionV::Add,
            Function::Subtract => FunctionV::Subtract,
            Function::Equal => FunctionV::Equal,
            Function::Apply => FunctionV::Apply,
            Function::First => FunctionV::First,
            Function::Rest => FunctionV::Rest,
            Function::ButLast => FunctionV::ButLast,
            Function::Last => FunctionV::Last,
            Function::Empty => FunctionV::Empty,
            Function::Cons => FunctionV::Cons,
            Function::Dish => FunctionV::Dish,
            Function::Recipe => FunctionV::Recipe,
            Function::Bake => FunctionV::Bake,
            Function::Operation(info) => FunctionV::Operation(info@),
            Function::Bound(op, args) => FunctionV::Bound(*op, args@),
        }
    }
}

impl Function {
    /// A copy of the function.
    pub fn copy(&self) -> (r: Function)
        ensures
            r@ == self@,
    {
        match self {
            Function::Add => Function::Add,
            Function::Subtract => Function::Subtract,
            Function::Equal => Function::Equal,
            Function::Apply => Function::Apply,
            Function::First => Function::First,
            Function::Rest => Function::Rest,
            Function::ButLast => Function::ButLast,
            Function::Last => Function::Last,
            Function::Empty => Function::Empty,
            Function::Cons => Function::Cons,
            Function::Dish => Function::Dish,
            Function::Recipe => Function::Recipe,
            Function::Bake => Function::Bake,
            Function::Operation(info) => Function::Operation(info.copy()),
            Function::Bound(op, args) => Function::Bound(*op, args.copy()),
        }
    }
}

/// A function of the user: the list of its parameters and its body, as
/// they were written.
#[derive(Debug)]
pub struct Lambda {
    pub params: Box<Expression>,
    pub body: Box<Expression>,
}

/// An expression of the language:
///   * `Symbol`: a name;
///   * `Number`: an exact decimal number;
///   * `Bool`: `true` or `false`;
///   * `String`: text;
///   * `List`: expressions in a row, code or data;
///   * `Func`: a built-in function or an operation;
///   * `Lambda`: a function of the user;
///   * `Dish`: the handle of a dish in the [`DishStore`], which every copy
///     of the expression shares.
#[derive(Debug)]
pub enum Expression {
    Symbol(String),
    Number(Number),
    Bool(bool),
    String(String),
    List(Vec<Expression>),
    Func(Function),
    Lambda(Lambda),
    Dish(usize),
}

/// The mathematical model of an [`Expression`].
pub enum ExprV {
    Symbol(Seq<char>),
    Number(NumberV),
    Bool(bool),
    Str(Seq<char>),
    List(Seq<ExprV>),
    Func(FunctionV),
    Lambda(Box<ExprV>, Box<ExprV>),
    Dish(nat),
}

/// What an evaluation returns.
pub type LispResult = Result<Expression, Error>;

impl Expression {
    /// The model of the expression.
    pub open spec fn model(&self) -> ExprV
        decreases self,
    {
        match self {
            Expression::Symbol(s) => ExprV::Symbol(s@),
            Expression::Number(n) => ExprV::Number(n@),
            Expression::Bool(b) => ExprV::Bool(*b),
            Expression::String(s) => ExprV::Str(s@),
            Expression::List(v) => ExprV::List(
                Seq::new(
                    v.len() as nat,
                    |i: int|
                        if 0 <= i < v.len() {
                            v[i].model()
                        } else {
                            ExprV::Bool(false)
                        },
                ),
            ),
            Expression::Func(f) => ExprV::Func(f@),
            Expression::Lambda(l) => ExprV::Lambda(
                Box::new((*l.params).model()),
                Box::new((*l.body).model()),
            ),
            Expression::Dish(h) => ExprV::Dish(*h as nat),
        }
    }
}

impl View for Expression {
    type V = ExprV;

    open spec fn view(&self) -> ExprV {
        self.model()
    }
}

/// The models of a list of expressions.
pub open spec fn models(v: Seq<Expression>) -> Seq<ExprV> {
    Seq::new(v.len(), |i: int| v[i].model())
}

/// The model of a list is the list of the models.
pub proof fn lemma_list_model(e: &Expression)
    requires
        e is List,
    ensures
        e@ == ExprV::List(models(e->List_0@)),
{
    assert(e.model()->List_0 =~= models(e->List_0@));
}

impl Expression {
    /// A copy of the expression. A copy of a dish is the same handle: it
    /// stands for the same dish.
    pub fn copy(&self) -> (r: Expression)
        ensures
            r@ == self@,
        decreases self,
    {
        match self {
            Expression::Symbol(s) => Expression::Symbol(s.clone()),
            Expression::Number(n) => Expression::Number(n.copy()),
            Expression::Bool(b) => Expression::Bool(*b),
            Expression::String(s) => Expression::String(s.clone()),
            Expression::List(v) => {
                let mut out: Vec<Expression> = Vec::new();
                let mut i: usize = 0;
                while i < v.len()
                    invariant
                        i <= v.len(),
                        out@.len() == i,
                        *self == Expression::List(*v),
                        forall|j: int| 0 <= j < i ==> out[j].model() == v[j].model(),
                    decreases v.len() - i,
                {
                    proof {
                        assert(decreases_to!(*self => self->List_0));
                    }
                    let c = v[i].copy();
                    out.push(c);
                    i = i + 1;
                }
                let r = Expression::List(out);
                assert(r.model()->List_0 =~= self.model()->List_0);
                r
            },
            Expression::Func(f) => Expression::Func(f.copy()),
            Expression::Lambda(l) => Expression::Lambda(
                Lambda { params: Box::new(l.params.copy()), body: Box::new(l.body.copy()) },
            ),
            Expression::Dish(h) => Expression::Dish(*h),
        }
    }
}

impl Clone for Function {
    /// A copy, as [`Function::copy`] makes it.
    fn clone(&self) -> (r: Function)
        ensures
            r@ == self@,
    {
        self.copy()
    }
}

impl Clone for Expression {
    /// A copy of the expression, as [`Expression::copy`] makes it.
    fn clone(&self) -> (r: Expression)
        ensures
            r@ == self@,
    {
        self.copy()
    }
}

impl Clone for Lambda {
    /// A copy of the function.
    fn clone(&self) -> (r: Lambda)
        ensures
            r.params@ == self.params@,
            r.body@ == self.body@,
    {
        Lambda { params: Box::new(self.params.copy()), body: Box::new(self.body.copy()) }
    }
}

/// The dishes that the expressions of a session share. An expression holds
/// a dish by its handle, the place of the dish in the store, so that every
/// copy of the expression sees what an operation did to the dish.
#[derive(Debug)]
pub struct DishStore {
    pub dishes: Vec<Dish>,
}

impl View for DishStore {
    type V = Seq<DishV>;

    open spec fn view(&self) -> Seq<DishV> {
        Seq::new(self.dishes@.len(), |i: int| self.dishes@[i]@)
    }
}

impl DishStore {
    /// A store without dishes.
    pub fn new() -> (r: DishStore)
        ensures
            r@ == Seq::<DishV>::empty(),
    {
        let r = DishStore { dishes: Vec::new() };
        assert(r@ =~= Seq::<DishV>::empty());
        r
    }

    /// How many dishes the store holds.
    pub fn len(&self) -> (r: usize)
        ensures
            r == self@.len(),
    {
        self.dishes.len()
    }

    /// Puts a dish into the store and returns its handle.
    pub fn insert(&mut self, dish: Dish) -> (r: usize)
        ensures
            r == old(self)@.len(),
            final(self)@ == old(self)@.push(dish@),
    {
        let handle = self.dishes.len();
        self.dishes.push(dish);
        assert(self@ =~= old(self)@.push(dish@));
        handle
    }

    /// The dish behind a handle, if the store holds one there.
    pub fn get(&self, handle: usize) -> (r: Option<&Dish>)
        ensures
            handle < self@.len() ==> r is Some && r->Some_0@ == self@[handle as int],
            handle >= self@.len() ==> r is None,
    {
        if handle < self.dishes.len() {
            Some(&self.dishes[handle])
        } else {
            None
        }
    }

    /// Takes away every dish from the handle `len` on.
    pub fn truncate(&mut self, len: usize)
        ensures
            final(self)@ == (if len <= old(self)@.len() {
                old(self)@.take(len as int)
            } else {
                old(self)@
            }),
    {
        if len <= self.dishes.len() {
            self.dishes.truncate(len);
            assert(self@ =~= old(self)@.take(len as int));
        }
    }
}

/// How the dish behind a handle is shown.
pub open spec fn handle_text(handle: nat, dishes: Seq<DishV>) -> Seq<char> {
    if handle < dishes.len() {
        dish_text(dishes[handle as int])
    } else {
        "dangling dish"@
    }
}

/// How an expression is shown: a symbol and a string as their text, a
/// number and a boolean as they are written, a list between parentheses
/// with one space between its items, a dish as [`dish_text`] shows it.
pub open spec fn display(e: ExprV, dishes: Seq<DishV>) -> Seq<char>
    decreases e, 0nat,
{
    match e {
        ExprV::Symbol(s) => s,
        ExprV::Number(n) => number_text(n),
        ExprV::Bool(b) => if b {
            "true"@
        } else {
            "false"@
        },
        ExprV::Str(s) => s,
        ExprV::List(items) => "("@ + display_items(items, items.len(), dishes) + ")"@,
        ExprV::Func(_) => "built-in function"@,
        ExprV::Lambda(_, _) => "lambda function"@,
        ExprV::Dish(h) => handle_text(h, dishes),
    }
}

/// The first `n` items of a list as they are shown, with one space between
/// them.
pub open spec fn display_items(items: Seq<ExprV>, n: nat, dishes: Seq<DishV>) -> Seq<char>
    decreases items, n,
{
    if n == 0 || n > items.len() {
        Seq::empty()
    } else if n == 1 {
        display(items[0], dishes)
    } else {
        display_items(items, (n - 1) as nat, dishes) + " "@ + display(items[n - 1], dishes)
    }
}

impl Expression {
    /// The expression as shown to the user.
    pub fn to_text(&self, dishes: &DishStore) -> (r: String)
        ensures
            r@ == display(self@, dishes@),
        decreases self,
    {
        match self {
            Expression::Symbol(s) => s.clone(),
            Expression::Number(n) => n.to_text(),
            Expression::Bool(b) => if *b {
                String::from_str("true")
            } else {
                String::from_str("false")
            },
            Expression::String(s) => s.clone(),
            Expression::List(v) => {
                let ghost items = self@->List_0;
                proof {
                    lemma_list_model(self);
                }
                let mut out = String::from_str("(");
                let mut i: usize = 0;
                while i < v.len()
                    invariant
                        i <= v.len(),
                        *self == Expression::List(*v),
                        items == models(v@),
                        out@ == "("@ + display_items(items, i as nat, dishes@),
                    decreases v.len() - i,
                {
                    proof {
                        assert(decreases_to!(*self => self->List_0));
                    }
                    let item = v[i].to_text(dishes);
                    if i > 0 {
                        out.append(" ");
                    }
                    out.append(item.as_str());
                    proof {
                        assert(items[i as int] == v[i as int].model());
                        if i > 0 {
                            assert(out@ =~= "("@ + (display_items(items, i as nat, dishes@) + " "@
                                + display(items[i as int], dishes@)));
                        } else {
                            assert(display_items(items, 0, dishes@) =~= Seq::<char>::empty());
                            assert(out@ =~= "("@ + display(items[0], dishes@));
                        }
                    }
                    i = i + 1;
                }
                out.append(")");
                out
            },
            Expression::Func(_) => String::from_str("built-in function"),
            Expression::Lambda(_) => String::from_str("lambda function"),
            Expression::Dish(h) => match dishes.get(*h) {
                Some(dish) => dish.to_text(),
                None => String::from_str("dangling dish"),
            },
        }
    }
}

/// Whether the dishes behind two handles are both successes with the same
/// data. A failure, on either side, equals nothing.
pub open spec fn dishes_equal(a: nat, b: nat, dishes: Seq<DishV>) -> bool {
    &&& a < dishes.len()
    &&& b < dishes.len()
    &&& dishes[a as int] is Success
    &&& dishes[b as int] is Success
    &&& dishes[a as int]->Success_0 == dishes[b as int]->Success_0
}

/// Whether two expressions are equal: symbols, numbers, booleans and
/// strings by what they hold, lists item by item, user functions by their
/// parameters and their body, dishes as [`dishes_equal`] says. A built-in
/// function or an operation is opaque, and equals nothing.
pub open spec fn equal(a: ExprV, b: ExprV, dishes: Seq<DishV>) -> bool
    decreases a, 0nat,
{
    match (a, b) {
        (ExprV::Symbol(x), ExprV::Symbol(y)) => x == y,
        (ExprV::Str(x), ExprV::Str(y)) => x == y,
        (ExprV::Number(x), ExprV::Number(y)) => x == y,
        (ExprV::Bool(x), ExprV::Bool(y)) => x == y,
        (ExprV::List(x), ExprV::List(y)) => x.len() == y.len() && equal_items(
            x,
            y,
            x.len(),
            dishes,
        ),
        (ExprV::Lambda(p, b), ExprV::Lambda(q, c)) => equal(*p, *q, dishes) && equal(
            *b,
            *c,
            dishes,
        ),
        (ExprV::Dish(x), ExprV::Dish(y)) => dishes_equal(x, y, dishes),
        _ => false,
    }
}

/// Whether the first `n` items of two lists are equal, each to the one in
/// its place.
pub open spec fn equal_items(a: Seq<ExprV>, b: Seq<ExprV>, n: nat, dishes: Seq<DishV>) -> bool
    decreases a, n,
{
    if n == 0 {
        true
    } else if n > a.len() || n > b.len() {
        false
    } else {
        equal_items(a, b, (n - 1) as nat, dishes) && equal(a[n - 1], b[n - 1], dishes)
    }
}

impl Expression {
    /// Whether two expressions are equal, as [`equal`] says.
    pub fn equals(&self, other: &Expression, dishes: &DishStore) -> (r: bool)
        ensures
            r == equal(self@, other@, dishes@),
        decreases self,
    {
        match (self, other) {
            (Expression::Symbol(x), Expression::Symbol(y)) => same_text(x.as_str(), y.as_str()),
            (Expression::String(x), Expression::String(y)) => same_text(x.as_str(), y.as_str()),
            (Expression::Number(x), Expression::Number(y)) => x.equals(y),
            (Expression::Bool(x), Expression::Bool(y)) => *x == *y,
            (Expression::List(x), Expression::List(y)) => {
                proof {
                    lemma_list_model(self);
                    lemma_list_model(other);
                }
                if x.len() != y.len() {
                    return false;
                }
                let mut i: usize = 0;
                while i < x.len()
                    invariant
                        i <= x.len(),
                        x.len() == y.len(),
                        *self == Expression::List(*x),
                        self@ == ExprV::List(models(x@)),
                        other@ == ExprV::List(models(y@)),
                        equal_items(models(x@), models(y@), i as nat, dishes@),
                    decreases x.len() - i,
                {
                    proof {
                        assert(decreases_to!(*self => self->List_0));
                    }
                    let same = x[i].equals(&y[i], dishes);
                    proof {
                        assert(models(x@)[i as int] == x[i as int].model());
                        assert(models(y@)[i as int] == y[i as int].model());
                    }
                    if !same {
                        proof {
                            lemma_unequal_items(
                                models(x@),
                                models(y@),
                                (i + 1) as nat,
                                x.len() as nat,
                                dishes@,
                            );
                        }
                        return false;
                    }
                    i = i + 1;
                }
                true
            },
            (Expression::Lambda(f), Expression::Lambda(g)) => {
                f.params.equals(&g.params, dishes) && f.body.equals(&g.body, dishes)
            },
            (Expression::Dish(a), Expression::Dish(b)) => {
                match (dishes.get(*a), dishes.get(*b)) {
                    (Some(Dish::Success(x)), Some(Dish::Success(y))) => x.equals(y),
                    _ => false,
                }
            },
            _ => false,
        }
    }
}

/// Lists that differ in one of their first `n` items differ.
pub proof fn lemma_unequal_items(a: Seq<ExprV>, b: Seq<ExprV>, n: nat, m: nat, dishes: Seq<DishV>)
    requires
        n <= m,
        !equal_items(a, b, n, dishes),
    ensures
        !equal_items(a, b, m, dishes),
    decreases m,
{
    if n < m {
        lemma_unequal_items(a, b, n, (m - 1) as nat, dishes);
    }
}

/// Whether the parentheses of `s` that stand outside strings are balanced
/// so far: the count of those still open and whether a string is open, or
/// nothing where one was closed that had not been opened.
pub open spec fn parens_state(s: Seq<char>) -> Option<(nat, bool)>
    decreases s.len(),
{
    if s.len() == 0 {
        Some((0nat, false))
    } else {
        match parens_state(s.drop_last()) {
            None => None,
            Some((depth, in_string)) => {
                let c = s.last();
                if c == '"' {
                    Some((depth, !in_string))
                } else if in_string {
                    Some((depth, in_string))
                } else if c == '(' {
                    Some((depth + 1, in_string))
                } else if c == ')' {
                    if depth == 0 {
                        None
                    } else {
                        Some(((depth - 1) as nat, in_string))
                    }
                } else {
                    Some((depth, in_string))
                }
            },
        }
    }
}

/// Whether every parenthesis of `s` outside strings is matched.
pub open spec fn parens_balanced(s: Seq<char>) -> bool {
    parens_state(s) matches Some((depth, _)) && depth == 0
}

/// Whether `s` is complete input: as many parentheses closed as opened,
/// none closed before it was opened, those inside strings not counted.
pub fn check_parens(s: &String) -> (r: bool)
    ensures
        r == parens_balanced(s@),
{
    let chars = chars_of(s.as_str());
    let mut depth: usize = 0;
    let mut in_string = false;
    let mut i: usize = 0;
    assert(chars@.take(0) =~= Seq::<char>::empty());
    while i < chars.len()
        invariant
            i <= chars.len(),
            depth <= i,
            chars@ == s@,
            parens_state(chars@.take(i as int)) == Some((depth as nat, in_string)),
        decreases chars.len() - i,
    {
        let c = chars[i];
        proof {
            assert(chars@.take(i + 1).drop_last() =~= chars@.take(i as int));
            assert(chars@.take(i + 1).last() == c);
        }
        if c == '"' {
            in_string = !in_string;
        } else if in_string {
        } else if c == '(' {
            depth = depth + 1;
        } else if c == ')' {
            if depth == 0 {
                proof {
                    lemma_parens_closed(chars@, i + 1);
                }
                return false;
            }
            depth = depth - 1;
        }
        i = i + 1;
    }
    assert(chars@.take(chars.len() as int) =~= chars@);
    depth == 0
}

/// Once a parenthesis was closed that had not been opened, no later input
/// mends it.
pub proof fn lemma_parens_closed(s: Seq<char>, i: int)
    requires
        0 <= i <= s.len(),
        parens_state(s.take(i)) is None,
    ensures
        parens_state(s) is None,
    decreases s.len() - i,
{
    if i < s.len() {
        assert(s.take(i + 1).drop_last() =~= s.take(i));
        lemma_parens_closed(s, i + 1);
    } else {
        assert(s.take(i) =~= s);
    }
}


/// The scopes of an evaluation: a chain of frames, each a table from names
/// to expressions. The last frame is the innermost scope; a name is looked
/// up from there outward, and defined there.
#[derive(Debug)]
pub struct Environment {
    frames: Vec<Vec<(String, Expression)>>,
}

/// The entries of a frame as mathematical values.
pub open spec fn frame_entries(entries: Seq<(String, Expression)>) -> Seq<(Seq<char>, ExprV)> {
    Seq::new(entries.len(), |i: int| (entries[i].0@, entries[i].1@))
}

/// The table of a frame.
pub open spec fn frame_table(entries: Vec<(String, Expression)>) -> Map<Seq<char>, ExprV> {
    table_of(frame_entries(entries@))
}

impl Clone for Environment {
    /// A copy, as [`Environment::copy`] makes it.
    fn clone(&self) -> (r: Environment)
        ensures
            r@ == self@,
    {
        self.copy()
    }
}

impl View for Environment {
    type V = Seq<Map<Seq<char>, ExprV>>;

    closed spec fn view(&self) -> Seq<Map<Seq<char>, ExprV>> {
        Seq::new(self.frames@.len(), |i: int| frame_table(self.frames@[i]))
    }
}

/// The bindings of `names` to `values`, each name to the value in its
/// place.
pub open spec fn bindings(names: Seq<Seq<char>>, values: Seq<ExprV>) -> Seq<(Seq<char>, ExprV)> {
    Seq::new(names.len(), |i: int| (names[i], values[i]))
}

/// The frame in which each name is bound to the value in its place; a
/// later binding of a name replaces an earlier one.
pub open spec fn frame_of(names: Seq<Seq<char>>, values: Seq<ExprV>) -> Map<Seq<char>, ExprV> {
    table_of(bindings(names, values))
}

/// What a name stands for: its binding in the innermost frame that has
/// one.
pub open spec fn lookup(frames: Seq<Map<Seq<char>, ExprV>>, name: Seq<char>) -> Option<ExprV>
    decreases frames.len(),
{
    if frames.len() == 0 {
        None
    } else if frames.last().contains_key(name) {
        Some(frames.last()[name])
    } else {
        lookup(frames.drop_last(), name)
    }
}

/// The frames with `name` bound to `value` in the innermost one.
pub open spec fn defined(frames: Seq<Map<Seq<char>, ExprV>>, name: Seq<char>, value: ExprV) -> Seq<
    Map<Seq<char>, ExprV>,
> {
    if frames.len() == 0 {
        seq![Map::empty().insert(name, value)]
    } else {
        frames.update(frames.len() - 1, frames.last().insert(name, value))
    }
}

/// The frames without the innermost one.
pub open spec fn popped(frames: Seq<Map<Seq<char>, ExprV>>) -> Seq<Map<Seq<char>, ExprV>> {
    if frames.len() == 0 {
        frames
    } else {
        frames.drop_last()
    }
}

impl Environment {
    /// An environment of one frame without bindings.
    pub fn empty() -> (r: Environment)
        ensures
            r@ == seq![Map::<Seq<char>, ExprV>::empty()],
    {
        let mut frames: Vec<Vec<(String, Expression)>> = Vec::new();
        let first: Vec<(String, Expression)> = Vec::new();
        assert(frame_entries(first@) =~= Seq::empty());
        frames.push(first);
        let r = Environment { frames };
        assert(r@ =~= seq![Map::<Seq<char>, ExprV>::empty()]);
        r
    }

    /// A copy of the environment, scope by scope.
    pub fn copy(&self) -> (r: Environment)
        ensures
            r@ == self@,
    {
        let mut frames: Vec<Vec<(String, Expression)>> = Vec::new();
        let mut i: usize = 0;
        while i < self.frames.len()
            invariant
                i <= self.frames.len(),
                frames@.len() == i,
                forall|j: int|
                    0 <= j < i ==> frame_entries(frames@[j]@) == frame_entries(self.frames@[j]@),
            decreases self.frames.len() - i,
        {
            let frame = &self.frames[i];
            let mut entries: Vec<(String, Expression)> = Vec::new();
            let mut k: usize = 0;
            while k < frame.len()
                invariant
                    k <= frame.len(),
                    entries@.len() == k,
                    forall|j: int|
                        0 <= j < k ==> entries@[j].0@ == frame@[j].0@ && entries@[j].1@
                            == frame@[j].1@,
                decreases frame.len() - k,
            {
                entries.push((frame[k].0.clone(), frame[k].1.copy()));
                k = k + 1;
            }
            assert(frame_entries(entries@) =~= frame_entries(frame@));
            frames.push(entries);
            i = i + 1;
        }
        let r = Environment { frames };
        assert(r@ =~= self@);
        r
    }

    /// A copy of what `name` stands for, if it is bound.
    pub fn get(&self, name: &str) -> (r: Option<Expression>)
        ensures
            match lookup(self@, name@) {
                Some(e) => r is Some && r->Some_0@ == e,
                None => r is None,
            },
    {
        let mut i: usize = self.frames.len();
        assert(self@.take(i as int) =~= self@);
        while i > 0
            invariant
                i <= self.frames.len(),
                lookup(self@, name@) == lookup(self@.take(i as int), name@),
            decreases i,
        {
            i = i - 1;
            let frame = &self.frames[i];
            proof {
                assert(self@.take(i + 1).drop_last() =~= self@.take(i as int));
                assert(self@.take(i + 1).last() == frame_table(*frame));
            }
            let mut k: usize = frame.len();
            while k > 0
                invariant
                    k <= frame.len(),
                    i < self.frames.len(),
                    lookup(self@, name@) == lookup(self@.take(i + 1), name@),
                    self@.take(i + 1).last() == table_of(frame_entries(frame@)),
                    forall|j: int| k <= j < frame.len() ==> frame@[j].0@ != name@,
                decreases k,
            {
                k = k - 1;
                if same_text(frame[k].0.as_str(), name) {
                    proof {
                        lemma_table_found(frame_entries(frame@), name@, k as int);
                    }
                    return Some(frame[k].1.copy());
                }
            }
            proof {
                lemma_table_absent(frame_entries(frame@), name@);
            }
        }
        None
    }

    /// Binds `name` to `value` in the innermost frame.
    pub fn define(&mut self, name: &str, value: Expression)
        ensures
            final(self)@ == defined(old(self)@, name@, value@),
    {
        let n = self.frames.len();
        if n == 0 {
            let mut frame: Vec<(String, Expression)> = Vec::new();
            proof {
                assert(frame_entries(frame@) =~= Seq::empty());
                lemma_table_push(frame_entries(frame@), name@, value@);
            }
            let ghost before = frame@;
            frame.push((name.to_owned(), value));
            assert(frame_entries(frame@) =~= frame_entries(before).push((name@, value@)));
            self.frames.push(frame);
            assert(self@ =~= defined(old(self)@, name@, value@));
        } else {
            let ghost before = self.frames@[n - 1]@;
            proof {
                lemma_table_push(frame_entries(before), name@, value@);
            }
            self.frames[n - 1].push((name.to_owned(), value));
            assert(frame_entries(self.frames@[n - 1]@) =~= frame_entries(before).push(
                (name@, value@),
            ));
            assert(self@ =~= defined(old(self)@, name@, value@));
        }
    }

    /// Opens a scope with the given bindings; a later binding of a name
    /// replaces an earlier one.
    pub fn push_frame(&mut self, bindings: Vec<(String, Expression)>)
        ensures
            final(self)@ == old(self)@.push(table_of(frame_entries(bindings@))),
    {
        self.frames.push(bindings);
        assert(self@ =~= old(self)@.push(table_of(frame_entries(bindings@))));
    }

    /// Opens a scope in which each name is bound to the value in its
    /// place; a later binding of a name replaces an earlier one.
    pub(crate) fn push_bindings(&mut self, names: &Vec<String>, values: &Vec<Expression>)
        requires
            names.len() == values.len(),
        ensures
            final(self)@ == old(self)@.push(frame_of(crate::text::texts(names@), models(values@))),
    {
        let mut data: Vec<(String, Expression)> = Vec::new();
        let mut i: usize = 0;
        while i < names.len()
            invariant
                i <= names.len(),
                names.len() == values.len(),
                data@.len() == i,
                forall|j: int|
                    0 <= j < i ==> data@[j].0@ == names@[j]@ && data@[j].1@ == values@[j]@,
            decreases names.len() - i,
        {
            data.push((names[i].clone(), values[i].copy()));
            i = i + 1;
        }
        assert(frame_entries(data@) =~= bindings(crate::text::texts(names@), models(values@)));
        self.push_frame(data);
    }

    /// Closes the innermost scope.
    pub fn pop_frame(&mut self)
        ensures
            final(self)@ == popped(old(self)@),
    {
        if self.frames.len() > 0 {
            self.frames.pop();
        }
        assert(self@ =~= popped(old(self)@));
    }
}


/// What reading a text and evaluating its one expression gives. Where the
/// text is no expression, nothing changes.
pub open spec fn parse_eval_spec(text: Seq<char>, st: StateV, fuel: nat) -> Evaluated {
    match parse_text(text, st.dishes) {
        Err(e) => Evaluated { result: Err(e), state: st },
        Ok((e, dishes)) => eval_spec(e, StateV { env: st.env, dishes }, fuel),
    }
}

/// Reads the expression that a text writes and evaluates it.
pub fn parse_eval(reader: &Reader, env: &mut Environment, dishes: &mut DishStore, expr: &String) -> (r:
    LispResult)
    ensures
        crate::lisp::eval::evaluated_is(
            r,
            final(env)@,
            final(dishes)@,
            parse_eval_spec(
                expr@,
                state_of(old(env)@, old(dishes)@),
                crate::lisp::eval::CALL_DEPTH as nat,
            ),
        ),
{
    match reader.parse(expr, dishes) {
        Err(e) => Err(e),
        Ok(parsed) => eval(&parsed, env, dishes),
    }
}

/// The frame of the built-in functions.
pub open spec fn builtin_frame() -> Map<Seq<char>, ExprV> {
    Map::empty().insert("+"@, ExprV::Func(FunctionV::Add)).insert(
        "-"@,
        ExprV::Func(FunctionV::Subtract),
    ).insert("="@, ExprV::Func(FunctionV::Equal)).insert(
        "apply"@,
        ExprV::Func(FunctionV::Apply),
    ).insert("first"@, ExprV::Func(FunctionV::First)).insert(
        "rest"@,
        ExprV::Func(FunctionV::Rest),
    ).insert("butlast"@, ExprV::Func(FunctionV::ButLast)).insert(
        "last"@,
        ExprV::Func(FunctionV::Last),
    ).insert("empty?"@, ExprV::Func(FunctionV::Empty)).insert(
        "cons"@,
        ExprV::Func(FunctionV::Cons),
    ).insert("dish"@, ExprV::Func(FunctionV::Dish)).insert(
        "recipe"@,
        ExprV::Func(FunctionV::Recipe),
    ).insert("bake"@, ExprV::Func(FunctionV::Bake))
}

/// The frames with the first `n` of `table` installed, each under its
/// name.
pub open spec fn with_operations(
    frames: Seq<Map<Seq<char>, ExprV>>,
    table: Seq<OperationInfoV>,
    n: nat,
) -> Seq<Map<Seq<char>, ExprV>>
    decreases n,
{
    if n == 0 || n > table.len() {
        frames
    } else {
        defined(
            with_operations(frames, table, (n - 1) as nat),
            table[n - 1].name,
            ExprV::Func(FunctionV::Operation(table[n - 1])),
        )
    }
}

/// The state after the first `n` of `sources` have been read and
/// evaluated, one after the other.
pub open spec fn with_sources(st: StateV, sources: Seq<Seq<char>>, n: nat, fuel: nat) -> StateV
    decreases n,
{
    if n == 0 || n > sources.len() {
        st
    } else {
        parse_eval_spec(sources[n - 1], with_sources(st, sources, (n - 1) as nat, fuel), fuel).state
    }
}

/// The state in which a session starts: one scope with the built-in
/// functions, the operations of [`operation_table`], and the functions
/// that are written in the language.
pub open spec fn default_state(dishes: Seq<DishV>) -> StateV {
    with_sources(
        StateV {
            env: with_operations(
                seq![builtin_frame()],
                operation_table(),
                operation_table().len(),
            ),
            dishes,
        },
        crate::lisp::functions_nonnative::sources(),
        2,
        crate::lisp::eval::CALL_DEPTH as nat,
    )
}

/// Makes the environment in which a session starts, as [`default_state`]
/// says.
pub fn default_env(reader: &Reader, dishes: &mut DishStore) -> (env: Environment)
    ensures
        state_of(env@, final(dishes)@) == default_state(old(dishes)@),
{
    let mut env = Environment::empty();
    env.define("+", crate::lisp::functions::lisp_add());
    env.define("-", crate::lisp::functions::lisp_subtract());
    env.define("=", crate::lisp::functions::lisp_eq());
    env.define("apply", crate::lisp::functions::lisp_apply());
    env.define("first", crate::lisp::functions::lisp_head());
    env.define("rest", crate::lisp::functions::lisp_rest());
    env.define("butlast", crate::lisp::functions::lisp_init());
    env.define("last", crate::lisp::functions::lisp_last());
    env.define("empty?", crate::lisp::functions::lisp_empty());
    env.define("cons", crate::lisp::functions::lisp_cons());
    env.define("dish", crate::lisp::functions::lisp_dish());
    env.define("recipe", crate::lisp::functions::lisp_recipe());
    env.define("bake", crate::lisp::functions::lisp_bake());
    assert(env@ =~= seq![builtin_frame()]);
    let list = operations();
    let ghost table = operation_table();
    let ghost base = env@;
    let mut i: usize = 0;
    while i < list.len()
        invariant
            i <= list.len(),
            info_views(list@) == table,
            env@ == with_operations(base, table, i as nat),
        decreases list.len() - i,
    {
        assert(table[i as int] == list@[i as int]@);
        embed_operation(&list[i], &mut env);
        i = i + 1;
    }
    let sources = crate::lisp::functions_nonnative::functions_nonnative();
    let ghost texts = crate::lisp::functions_nonnative::sources();
    let ghost start = state_of(env@, dishes@);
    let mut k: usize = 0;
    while k < sources.len()
        invariant
            k <= sources.len(),
            sources@.len() == 2,
            texts == crate::lisp::functions_nonnative::sources(),
            sources@[0]@ == texts[0],
            sources@[1]@ == texts[1],
            state_of(env@, dishes@) == with_sources(
                start,
                texts,
                k as nat,
                crate::lisp::eval::CALL_DEPTH as nat,
            ),
        decreases sources.len() - k,
    {
        let text = sources[k].to_owned();
        let _ = parse_eval(reader, &mut env, dishes, &text);
        k = k + 1;
    }
    env
}

} // verus!
