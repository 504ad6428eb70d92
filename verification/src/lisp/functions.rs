//! The built-in functions of the language, and the operations on dishes
//! as the language calls them.
//!
//! A function is called with its arguments already evaluated. It reads
//! them, and the dishes that they hold, and returns an expression or an
//! error; only `dish`, `bake` and the operations change the store.

use vstd::prelude::*;
use vstd::string::StringExecFns;
use crate::applied;
use crate::lisp::display;
use crate::lisp::equal;
use crate::lisp::lemma_list_model;
use crate::lisp::models;
use crate::lisp::DishStore;
use crate::lisp::Environment;
use crate::lisp::Error;
use crate::lisp::ErrorKind;
use crate::lisp::ErrorV;
use crate::lisp::ExprV;
use crate::lisp::Expression;
use crate::lisp::Function;
use crate::lisp::FunctionV;
use crate::lisp::LispResult;
use crate::number::difference;
use crate::number::sum;
use crate::number::Number;
use crate::number::NumberV;
use crate::text::decimal_text;
use crate::text::format_decimal;
use crate::text::join3;
use crate::text::string_from_utf8_lossy;
use crate::text::utf8_lossy;
use vstd::utf8::encode_utf8;
use crate::Dish;
use crate::DishDataV;
use crate::DishV;
use crate::Operation;
use crate::OperationArg;
use crate::OperationArgType;
use crate::OperationArgV;
use crate::OperationArguments;
use crate::OperationInfo;
use crate::OperationInfoV;

verus! {

// ---------------------------------------------------------------------------
// Errors
// ---------------------------------------------------------------------------
/// An error for a wrong number of arguments.
pub open spec fn arity_error(message: Seq<char>) -> ErrorV {
    ErrorV { kind: ErrorKind::Arity, message }
}

/// An error for an expression of the wrong kind.
pub open spec fn type_error(message: Seq<char>) -> ErrorV {
    ErrorV { kind: ErrorKind::Type, message }
}

/// An error for a name that stands for nothing.
pub open spec fn name_error(message: Seq<char>) -> ErrorV {
    ErrorV { kind: ErrorKind::Name, message }
}

/// `<before><shown><after>`: a message that shows an expression.
pub open spec fn showing(before: Seq<char>, e: ExprV, after: Seq<char>, dishes: Seq<DishV>) -> Seq<
    char,
> {
    before + display(e, dishes) + after
}

/// `<before><n><middle><m><after>`: a message that holds two counts.
pub open spec fn counting(
    before: Seq<char>,
    n: nat,
    middle: Seq<char>,
    m: nat,
    after: Seq<char>,
) -> Seq<char> {
    before + decimal_text(n) + middle + decimal_text(m) + after
}

/// The message for a call that does not have exactly `n` arguments.
pub open spec fn exact_args_message(n: nat, got: nat) -> Seq<char> {
    counting("expected exactly "@, n, " args. got "@, got, "."@)
}

/// The message for a call that has fewer than `n` arguments.
pub open spec fn at_least_args_message(n: nat, got: nat) -> Seq<char> {
    counting("expected at least "@, n, " args. got "@, got, "."@)
}

/// Builds an error whose message shows an expression.
pub fn error_showing(
    kind: ErrorKind,
    before: &str,
    e: &Expression,
    after: &str,
    dishes: &DishStore,
) -> (r: Error)
    ensures
        r@ == (ErrorV { kind, message: showing(before@, e@, after@, dishes@) }),
{
    let shown = e.to_text(dishes);
    Error { kind, message: join3(before, shown.as_str(), after) }
}

/// Builds an error whose message holds two counts.
pub fn error_counting(
    kind: ErrorKind,
    before: &str,
    n: usize,
    middle: &str,
    m: usize,
    after: &str,
) -> (r: Error)
    ensures
        r@ == (ErrorV { kind, message: counting(before@, n as nat, middle@, m as nat, after@) }),
{
    let first = format_decimal(n);
    let second = format_decimal(m);
    let mut message = join3(before, first.as_str(), middle);
    message.append(second.as_str());
    message.append(after);
    Error { kind, message }
}

/// Checks that a call has exactly `n` arguments.
pub fn ensure_exact_args(args: &Vec<Expression>, n: usize) -> (r: Result<(), Error>)
    ensures
        args.len() == n ==> r is Ok,
        args.len() != n ==> r is Err && r->Err_0@ == arity_error(
            exact_args_message(n as nat, args.len() as nat),
        ),
{
    if args.len() != n {
        return Err(
            error_counting(ErrorKind::Arity, "expected exactly ", n, " args. got ", args.len(), "."),
        );
    }
    Ok(())
}

/// Checks that a call has at least `n` arguments.
pub fn ensure_at_least_args(args: &Vec<Expression>, n: usize) -> (r: Result<(), Error>)
    ensures
        args.len() >= n ==> r is Ok,
        args.len() < n ==> r is Err && r->Err_0@ == arity_error(
            at_least_args_message(n as nat, args.len() as nat),
        ),
{
    if args.len() < n {
        return Err(
            error_counting(
                ErrorKind::Arity,
                "expected at least ",
                n,
                " args. got ",
                args.len(),
                ".",
            ),
        );
    }
    Ok(())
}

/// The symbol `nil`.
pub open spec fn nil() -> ExprV {
    ExprV::Symbol("nil"@)
}

fn make_nil() -> (r: Expression)
    ensures
        r@ == nil(),
{
    Expression::Symbol(String::from_str("nil"))
}

// ---------------------------------------------------------------------------
// Arithmetic
// ---------------------------------------------------------------------------
/// The place of the first of `args`, at or behind `i`, that is no number;
/// the length of `args` where all are.
pub open spec fn first_non_number(args: Seq<ExprV>, i: int) -> int
    decreases args.len() - i,
{
    if i < 0 || i >= args.len() {
        args.len() as int
    } else if !(args[i] is Number) {
        i
    } else {
        first_non_number(args, i + 1)
    }
}

/// The sum of the numbers `args[from..to]`, added one after the other to
/// zero.
pub open spec fn total(args: Seq<ExprV>, from: int, to: int) -> NumberV
    decreases to - from,
{
    if to <= from || to > args.len() || from < 0 {
        NumberV::zero()
    } else {
        sum(total(args, from, to - 1), args[to - 1]->Number_0)
    }
}

/// The error for an argument that should be a number.
pub open spec fn not_a_number(e: ExprV, dishes: Seq<DishV>) -> ErrorV {
    type_error(showing("expected a number. got '"@, e, "'."@, dishes))
}

/// What `+` returns: the sum of its arguments, zero where there are none.
/// An argument that is no number is an error.
pub open spec fn add_result(args: Seq<ExprV>, dishes: Seq<DishV>) -> Result<ExprV, ErrorV> {
    let k = first_non_number(args, 0);
    if k < args.len() {
        Err(not_a_number(args[k], dishes))
    } else {
        Ok(ExprV::Number(total(args, 0, args.len() as int)))
    }
}

/// What `-` returns: its first argument less the sum of the others. An
/// argument that is no number is an error, and so is a call without
/// arguments.
pub open spec fn subtract_result(args: Seq<ExprV>, dishes: Seq<DishV>) -> Result<ExprV, ErrorV> {
    let k = first_non_number(args, 0);
    if k < args.len() {
        Err(not_a_number(args[k], dishes))
    } else if args.len() == 0 {
        Err(arity_error("expected at least one number."@))
    } else {
        Ok(ExprV::Number(difference(args[0]->Number_0, total(args, 1, args.len() as int))))
    }
}

/// Checks that every argument is a number.
fn check_numbers(args: &Vec<Expression>, dishes: &DishStore) -> (r: Result<(), Error>)
    ensures
        first_non_number(models(args@), 0) >= args.len() ==> r is Ok,
        first_non_number(models(args@), 0) < args.len() ==> r is Err && r->Err_0@ == not_a_number(
            models(args@)[first_non_number(models(args@), 0)],
            dishes@,
        ),
{
    let mut i: usize = 0;
    while i < args.len()
        invariant
            i <= args.len(),
            first_non_number(models(args@), 0) == first_non_number(models(args@), i as int),
        decreases args.len() - i,
    {
        assert(models(args@)[i as int] == args@[i as int]@);
        match &args[i] {
            Expression::Number(_) => {},
            other => {
                return Err(
                    error_showing(ErrorKind::Type, "expected a number. got '", other, "'.", dishes),
                );
            },
        }
        i = i + 1;
    }
    Ok(())
}

/// The sum of `args[from..]`, which are numbers.
fn add_up(args: &Vec<Expression>, from: usize) -> (r: Number)
    requires
        first_non_number(models(args@), 0) >= args.len(),
        from <= args.len(),
    ensures
        r@ == total(models(args@), from as int, args.len() as int),
{
    let mut acc = Number::zero();
    let mut i: usize = from;
    while i < args.len()
        invariant
            from <= i <= args.len(),
            first_non_number(models(args@), 0) >= args.len(),
            acc@ == total(models(args@), from as int, i as int),
        decreases args.len() - i,
    {
        proof {
            lemma_all_numbers(models(args@), 0, i as int);
            assert(models(args@)[i as int] == args@[i as int]@);
        }
        match &args[i] {
            Expression::Number(n) => {
                acc = acc.add(n);
            },
            _ => {},
        }
        i = i + 1;
    }
    acc
}

/// Where no argument from `i` on is anything but a number, each is one.
pub proof fn lemma_all_numbers(args: Seq<ExprV>, i: int, k: int)
    requires
        0 <= i <= k < args.len(),
        first_non_number(args, i) >= args.len(),
    ensures
        args[k] is Number,
    decreases k - i,
{
    if i < k {
        lemma_all_numbers(args, i + 1, k);
    }
}

/// `+`: adds its arguments.
pub fn call_add(args: &Vec<Expression>, dishes: &DishStore) -> (r: LispResult)
    ensures
        result_is(r, add_result(models(args@), dishes@)),
{
    match check_numbers(args, dishes) {
        Err(e) => Err(e),
        Ok(()) => Ok(Expression::Number(add_up(args, 0))),
    }
}

/// `-`: takes the sum of the other arguments from the first.
pub fn call_subtract(args: &Vec<Expression>, dishes: &DishStore) -> (r: LispResult)
    ensures
        result_is(r, subtract_result(models(args@), dishes@)),
{
    match check_numbers(args, dishes) {
        Err(e) => {
            return Err(e);
        },
        Ok(()) => {},
    }
    if args.len() == 0 {
        return Err(Error::new(ErrorKind::Arity, "expected at least one number."));
    }
    let rest = add_up(args, 1);
    proof {
        lemma_all_numbers(models(args@), 0, 0);
        assert(models(args@)[0] == args@[0]@);
    }
    match &args[0] {
        Expression::Number(first) => Ok(Expression::Number(first.subtract(&rest))),
        _ => Ok(Expression::Number(rest)),
    }
}

/// Whether a result is the one expected.
pub open spec fn result_is(r: LispResult, expected: Result<ExprV, ErrorV>) -> bool {
    match expected {
        Ok(e) => r is Ok && r->Ok_0@ == e,
        Err(e) => r is Err && r->Err_0@ == e,
    }
}

// ---------------------------------------------------------------------------
// Lists and equality
// ---------------------------------------------------------------------------
/// Whether each of the first `n` arguments equals the first one.
pub open spec fn all_equal(args: Seq<ExprV>, n: nat, dishes: Seq<DishV>) -> bool
    decreases n,
{
    if n <= 1 || n > args.len() {
        true
    } else {
        all_equal(args, (n - 1) as nat, dishes) && equal(args[n - 1], args[0], dishes)
    }
}

/// What `=` returns: whether every argument equals the first. A call
/// without arguments is an error.
pub open spec fn eq_result(args: Seq<ExprV>, dishes: Seq<DishV>) -> Result<ExprV, ErrorV> {
    if args.len() == 0 {
        Err(arity_error(at_least_args_message(1, 0)))
    } else {
        Ok(ExprV::Bool(all_equal(args, args.len(), dishes)))
    }
}

/// `=`: compares its arguments with the first.
pub fn call_eq(args: &Vec<Expression>, dishes: &DishStore) -> (r: LispResult)
    ensures
        result_is(r, eq_result(models(args@), dishes@)),
{
    match ensure_at_least_args(args, 1) {
        Err(e) => {
            return Err(e);
        },
        Ok(()) => {},
    }
    let mut same = true;
    let mut i: usize = 1;
    while i < args.len()
        invariant
            1 <= i <= args.len(),
            same == all_equal(models(args@), i as nat, dishes@),
        decreases args.len() - i,
    {
        assert(models(args@)[i as int] == args@[i as int]@);
        assert(models(args@)[0] == args@[0]@);
        if !args[i].equals(&args[0], dishes) {
            same = false;
        }
        i = i + 1;
    }
    Ok(Expression::Bool(same))
}

/// The error for an argument that should be a list.
pub open spec fn not_a_list(e: ExprV, dishes: Seq<DishV>) -> ErrorV {
    type_error(showing("expected a list. got '"@, e, "'."@, dishes))
}

/// What `first` returns: the first item of a list, `nil` for the empty
/// list.
pub open spec fn head_result(args: Seq<ExprV>, dishes: Seq<DishV>) -> Result<ExprV, ErrorV> {
    if args.len() != 1 {
        Err(arity_error(exact_args_message(1, args.len())))
    } else {
        match args[0] {
            ExprV::List(v) => if v.len() == 0 {
                Ok(nil())
            } else {
                Ok(v[0])
            },
            other => Err(not_a_list(other, dishes)),
        }
    }
}

/// What `last` returns: the last item of a list. The empty list has none.
pub open spec fn last_result(args: Seq<ExprV>, dishes: Seq<DishV>) -> Result<ExprV, ErrorV> {
    if args.len() != 1 {
        Err(arity_error(exact_args_message(1, args.len())))
    } else {
        match args[0] {
            ExprV::List(v) => if v.len() == 0 {
                Err(type_error("empty list"@))
            } else {
                Ok(v[v.len() - 1])
            },
            other => Err(not_a_list(other, dishes)),
        }
    }
}

/// What `rest` returns: a list without its first item.
pub open spec fn rest_result(args: Seq<ExprV>, dishes: Seq<DishV>) -> Result<ExprV, ErrorV> {
    if args.len() != 1 {
        Err(arity_error(exact_args_message(1, args.len())))
    } else {
        match args[0] {
            ExprV::List(v) => if v.len() == 0 {
                Ok(ExprV::List(Seq::empty()))
            } else {
                Ok(ExprV::List(v.skip(1)))
            },
            other => Err(not_a_list(other, dishes)),
        }
    }
}

/// What `butlast` returns: a list without its last item.
pub open spec fn init_result(args: Seq<ExprV>, dishes: Seq<DishV>) -> Result<ExprV, ErrorV> {
    if args.len() != 1 {
        Err(arity_error(exact_args_message(1, args.len())))
    } else {
        match args[0] {
            ExprV::List(v) => if v.len() == 0 {
                Ok(ExprV::List(Seq::empty()))
            } else {
                Ok(ExprV::List(v.drop_last()))
            },
            other => Err(not_a_list(other, dishes)),
        }
    }
}

/// What `cons` returns: its second argument, a list, with the first put
/// before it.
pub open spec fn cons_result(args: Seq<ExprV>) -> Result<ExprV, ErrorV> {
    if args.len() != 2 {
        Err(arity_error(exact_args_message(2, args.len())))
    } else {
        match args[1] {
            ExprV::List(v) => Ok(ExprV::List(seq![args[0]] + v)),
            _ => Err(type_error("expected 2nd argument to be a list."@)),
        }
    }
}

/// The items `v[from..to]`, copied into a list.
fn sublist(v: &Vec<Expression>, from: usize, to: usize) -> (r: Expression)
    requires
        from <= to <= v.len(),
    ensures
        r@ == ExprV::List(models(v@).subrange(from as int, to as int)),
{
    let mut out: Vec<Expression> = Vec::new();
    let mut i: usize = from;
    while i < to
        invariant
            from <= i <= to <= v.len(),
            out@.len() == i - from,
            forall|j: int| 0 <= j < i - from ==> out@[j].model() == v@[from + j].model(),
        decreases to - i,
    {
        out.push(v[i].copy());
        i = i + 1;
    }
    let r = Expression::List(out);
    assert(r.model()->List_0 =~= models(v@).subrange(from as int, to as int));
    r
}

/// `first`: the first item of a list.
pub fn call_head(args: &Vec<Expression>, dishes: &DishStore) -> (r: LispResult)
    ensures
        result_is(r, head_result(models(args@), dishes@)),
{
    match ensure_exact_args(args, 1) {
        Err(e) => {
            return Err(e);
        },
        Ok(()) => {},
    }
    assert(models(args@)[0] == args@[0]@);
    match &args[0] {
        Expression::List(v) => {
            proof {
                lemma_list_model(&args@[0]);
            }
            if v.len() == 0 {
                Ok(make_nil())
            } else {
                assert(models(v@)[0] == v@[0]@);
                Ok(v[0].copy())
            }
        },
        other => Err(error_showing(ErrorKind::Type, "expected a list. got '", other, "'.", dishes)),
    }
}

/// `last`: the last item of a list.
pub fn call_last(args: &Vec<Expression>, dishes: &DishStore) -> (r: LispResult)
    ensures
        result_is(r, last_result(models(args@), dishes@)),
{
    match ensure_exact_args(args, 1) {
        Err(e) => {
            return Err(e);
        },
        Ok(()) => {},
    }
    assert(models(args@)[0] == args@[0]@);
    match &args[0] {
        Expression::List(v) => {
            proof {
                lemma_list_model(&args@[0]);
            }
            if v.len() == 0 {
                Err(Error::new(ErrorKind::Type, "empty list"))
            } else {
                assert(models(v@)[v.len() - 1] == v@[v.len() - 1]@);
                Ok(v[v.len() - 1].copy())
            }
        },
        other => Err(error_showing(ErrorKind::Type, "expected a list. got '", other, "'.", dishes)),
    }
}

/// `rest`: a list without its first item.
pub fn call_rest(args: &Vec<Expression>, dishes: &DishStore) -> (r: LispResult)
    ensures
        result_is(r, rest_result(models(args@), dishes@)),
{
    match ensure_exact_args(args, 1) {
        Err(e) => {
            return Err(e);
        },
        Ok(()) => {},
    }
    assert(models(args@)[0] == args@[0]@);
    match &args[0] {
        Expression::List(v) => {
            proof {
                lemma_list_model(&args@[0]);
            }
            if v.len() == 0 {
                let r = sublist(v, 0, 0);
                assert(models(v@).subrange(0, 0) =~= Seq::<ExprV>::empty());
                Ok(r)
            } else {
                let r = sublist(v, 1, v.len());
                assert(models(v@).subrange(1, v.len() as int) =~= models(v@).skip(1));
                Ok(r)
            }
        },
        other => Err(error_showing(ErrorKind::Type, "expected a list. got '", other, "'.", dishes)),
    }
}

/// `butlast`: a list without its last item.
pub fn call_init(args: &Vec<Expression>, dishes: &DishStore) -> (r: LispResult)
    ensures
        result_is(r, init_result(models(args@), dishes@)),
{
    match ensure_exact_args(args, 1) {
        Err(e) => {
            return Err(e);
        },
        Ok(()) => {},
    }
    assert(models(args@)[0] == args@[0]@);
    match &args[0] {
        Expression::List(v) => {
            proof {
                lemma_list_model(&args@[0]);
            }
            if v.len() == 0 {
                let r = sublist(v, 0, 0);
                assert(models(v@).subrange(0, 0) =~= Seq::<ExprV>::empty());
                Ok(r)
            } else {
                let r = sublist(v, 0, v.len() - 1);
                assert(models(v@).subrange(0, v.len() - 1) =~= models(v@).drop_last());
                Ok(r)
            }
        },
        other => Err(error_showing(ErrorKind::Type, "expected a list. got '", other, "'.", dishes)),
    }
}

/// `cons`: puts an item before a list.
pub fn call_cons(args: &Vec<Expression>) -> (r: LispResult)
    ensures
        result_is(r, cons_result(models(args@))),
{
    match ensure_exact_args(args, 2) {
        Err(e) => {
            return Err(e);
        },
        Ok(()) => {},
    }
    assert(models(args@)[0] == args@[0]@);
    assert(models(args@)[1] == args@[1]@);
    match &args[1] {
        Expression::List(v) => {
            proof {
                lemma_list_model(&args@[1]);
            }
            let mut out: Vec<Expression> = Vec::new();
            out.push(args[0].copy());
            let mut i: usize = 0;
            while i < v.len()
                invariant
                    i <= v.len(),
                    out@.len() == i + 1,
                    out@[0].model() == args@[0].model(),
                    forall|j: int| 0 <= j < i ==> out@[j + 1].model() == v@[j].model(),
                decreases v.len() - i,
            {
                out.push(v[i].copy());
                i = i + 1;
            }
            let r = Expression::List(out);
            assert(r.model()->List_0 =~= seq![args@[0]@] + models(v@));
            Ok(r)
        },
        _ => Err(Error::new(ErrorKind::Type, "expected 2nd argument to be a list.")),
    }
}

/// The place of the first of `items`, at or behind `i`, that is no
/// function; the length of `items` where all are.
pub open spec fn first_non_function(items: Seq<ExprV>, i: int) -> int
    decreases items.len() - i,
{
    if i < 0 || i >= items.len() {
        items.len() as int
    } else if !(items[i] is Func) {
        i
    } else {
        first_non_function(items, i + 1)
    }
}

/// What `recipe` returns: the list of its arguments, which must be
/// functions, and at least one.
pub open spec fn recipe_result(args: Seq<ExprV>) -> Result<ExprV, ErrorV> {
    if args.len() == 0 {
        Err(arity_error(at_least_args_message(1, 0)))
    } else if first_non_function(args, 0) < args.len() {
        Err(type_error("expected function"@))
    } else {
        Ok(ExprV::List(args))
    }
}

/// Whether every item is a function.
fn all_functions(items: &Vec<Expression>) -> (r: bool)
    ensures
        r == (first_non_function(models(items@), 0) >= items.len()),
{
    let mut i: usize = 0;
    while i < items.len()
        invariant
            i <= items.len(),
            first_non_function(models(items@), 0) == first_non_function(models(items@), i as int),
        decreases items.len() - i,
    {
        assert(models(items@)[i as int] == items@[i as int]@);
        match &items[i] {
            Expression::Func(_) => {},
            _ => {
                return false;
            },
        }
        i = i + 1;
    }
    true
}

/// `recipe`: a list of functions.
pub fn call_recipe(args: &Vec<Expression>) -> (r: LispResult)
    ensures
        result_is(r, recipe_result(models(args@))),
{
    match ensure_at_least_args(args, 1) {
        Err(e) => {
            return Err(e);
        },
        Ok(()) => {},
    }
    if !all_functions(args) {
        return Err(Error::new(ErrorKind::Type, "expected function"));
    }
    let r = sublist(args, 0, args.len());
    assert(models(args@).subrange(0, args.len() as int) =~= models(args@));
    Ok(r)
}

/// What `empty?` returns: whether a list has no item, a string no
/// character, a dish no byte; `false` for a failed dish, `nil` for
/// anything else.
pub open spec fn empty_result(args: Seq<ExprV>, dishes: Seq<DishV>) -> Result<ExprV, ErrorV> {
    if args.len() != 1 {
        Err(arity_error(exact_args_message(1, args.len())))
    } else {
        Ok(
            match args[0] {
                ExprV::List(v) => ExprV::Bool(v.len() == 0),
                ExprV::Str(s) => ExprV::Bool(s.len() == 0),
                ExprV::Dish(h) => ExprV::Bool(
                    h < dishes.len() && dishes[h as int] is Success
                        && dishes[h as int]->Success_0.bytes().len() == 0,
                ),
                _ => nil(),
            },
        )
    }
}

/// `empty?`: whether a list, a string or a dish is empty.
pub fn call_empty(args: &Vec<Expression>, dishes: &DishStore) -> (r: LispResult)
    ensures
        result_is(r, empty_result(models(args@), dishes@)),
{
    match ensure_exact_args(args, 1) {
        Err(e) => {
            return Err(e);
        },
        Ok(()) => {},
    }
    assert(models(args@)[0] == args@[0]@);
    match &args[0] {
        Expression::List(v) => {
            proof {
                lemma_list_model(&args@[0]);
            }
            Ok(Expression::Bool(v.len() == 0))
        },
        Expression::String(s) => Ok(Expression::Bool(s.as_str().is_empty())),
        Expression::Dish(h) => match dishes.get(*h) {
            Some(Dish::Success(data)) => Ok(Expression::Bool(data.as_bytes().len() == 0)),
            _ => Ok(Expression::Bool(false)),
        },
        _ => Ok(make_nil()),
    }
}

// ---------------------------------------------------------------------------
// Dishes and operations
// ---------------------------------------------------------------------------
/// What a call returns, and the store of dishes behind it.
pub struct Called {
    pub result: Result<ExprV, ErrorV>,
    pub dishes: Seq<DishV>,
}

/// A call that leaves the store as it is.
pub open spec fn pure_call(result: Result<ExprV, ErrorV>, dishes: Seq<DishV>) -> Called {
    Called { result, dishes }
}

/// Whether a call did what is expected of it.
pub open spec fn call_is(r: LispResult, after: Seq<DishV>, expected: Called) -> bool {
    result_is(r, expected.result) && after == expected.dishes
}

/// What `dish` does: it puts a new dish of the text of its argument, a
/// string, into the store and returns its handle.
pub open spec fn dish_call(args: Seq<ExprV>, dishes: Seq<DishV>) -> Called {
    if args.len() != 1 {
        pure_call(Err(arity_error(exact_args_message(1, args.len()))), dishes)
    } else {
        match args[0] {
            ExprV::Str(s) => Called {
                result: Ok(ExprV::Dish(dishes.len())),
                dishes: dishes.push(DishV::Success(DishDataV::Str(s))),
            },
            _ => pure_call(
                Err(type_error("unsupported expression type for Dish. (must be string)"@)),
                dishes,
            ),
        }
    }
}

/// `dish`: makes a dish of a string.
pub fn call_dish(args: &Vec<Expression>, dishes: &mut DishStore) -> (r: LispResult)
    ensures
        call_is(r, final(dishes)@, dish_call(models(args@), old(dishes)@)),
{
    match ensure_exact_args(args, 1) {
        Err(e) => {
            return Err(e);
        },
        Ok(()) => {},
    }
    assert(models(args@)[0] == args@[0]@);
    match &args[0] {
        Expression::String(s) => {
            let handle = dishes.insert(Dish::from_string(s.clone()));
            Ok(Expression::Dish(handle))
        },
        _ => Err(
            Error::new(ErrorKind::Type, "unsupported expression type for Dish. (must be string)"),
        ),
    }
}

/// What applying an operation to an argument does: the argument must be a
/// dish; the operation is applied to it in the store, and the same handle
/// is returned.
pub open spec fn apply_to(
    op: Operation,
    table: Option<Map<Seq<char>, OperationArgV>>,
    arg: ExprV,
    dishes: Seq<DishV>,
) -> Called {
    match arg {
        ExprV::Dish(h) => if h < dishes.len() {
            Called {
                result: Ok(arg),
                dishes: dishes.update(h as int, applied(dishes[h as int], op, table)),
            }
        } else {
            pure_call(Err(name_error("dangling dish"@)), dishes)
        },
        _ => pure_call(Err(type_error("1st argument must be a Dish"@)), dishes),
    }
}

/// What calling an operation with exactly one argument, a dish, does.
pub open spec fn apply_call(
    op: Operation,
    table: Option<Map<Seq<char>, OperationArgV>>,
    args: Seq<ExprV>,
    dishes: Seq<DishV>,
) -> Called {
    if args.len() != 1 {
        pure_call(Err(arity_error(exact_args_message(1, args.len()))), dishes)
    } else {
        apply_to(op, table, args[0], dishes)
    }
}

impl DishStore {
    /// Applies an operation to the dish behind a handle. Returns whether
    /// the store holds a dish there.
    pub fn apply(&mut self, handle: usize, op: Operation, args: &OperationArguments) -> (r: bool)
        ensures
            r == (handle < old(self)@.len()),
            r ==> final(self)@ == old(self)@.update(
                handle as int,
                applied(old(self)@[handle as int], op, args@),
            ),
            !r ==> final(self)@ == old(self)@,
    {
        if handle < self.dishes.len() {
            self.dishes[handle].apply(op, args);
            assert(self@ =~= old(self)@.update(
                handle as int,
                applied(old(self)@[handle as int], op, args@),
            ));
            true
        } else {
            false
        }
    }
}

/// Applies an operation that has its arguments to the one argument of the
/// call, a dish.
pub fn call_operation(
    op: Operation,
    table: &OperationArguments,
    args: &Vec<Expression>,
    dishes: &mut DishStore,
) -> (r: LispResult)
    ensures
        call_is(r, final(dishes)@, apply_call(op, table@, models(args@), old(dishes)@)),
{
    match ensure_exact_args(args, 1) {
        Err(e) => {
            return Err(e);
        },
        Ok(()) => {},
    }
    assert(models(args@)[0] == args@[0]@);
    match &args[0] {
        Expression::Dish(h) => {
            if dishes.apply(*h, op, table) {
                Ok(Expression::Dish(*h))
            } else {
                Err(Error::new(ErrorKind::Name, "dangling dish"))
            }
        },
        _ => Err(Error::new(ErrorKind::Type, "1st argument must be a Dish")),
    }
}

/// What an expression is as the argument of an operation: where an integer
/// is declared, a number, rounded toward zero; where a string is declared,
/// any expression, as it is shown.
pub open spec fn argument_of(typ: OperationArgType, e: ExprV, dishes: Seq<DishV>) -> Result<
    OperationArgV,
    ErrorV,
> {
    match typ {
        OperationArgType::Integer => match e {
            ExprV::Number(n) => Ok(OperationArgV::Integer(n.to_i64())),
            _ => Err(type_error(showing("expected an integer. got "@, e, "."@, dishes))),
        },
        OperationArgType::String => Ok(OperationArgV::String(display(e, dishes))),
    }
}

/// Reads an expression as the argument of an operation.
pub fn parse_arg(typ: &OperationArgType, expr: &Expression, dishes: &DishStore) -> (r: Result<
    OperationArg,
    Error,
>)
    ensures
        match argument_of(*typ, expr@, dishes@) {
            Ok(v) => r is Ok && r->Ok_0@ == v,
            Err(e) => r is Err && r->Err_0@ == e,
        },
{
    match typ {
        OperationArgType::Integer => match expr {
            Expression::Number(n) => Ok(OperationArg::Integer(n.to_i64())),
            _ => Err(error_showing(ErrorKind::Type, "expected an integer. got ", expr, ".", dishes)),
        },
        OperationArgType::String => Ok(OperationArg::String(expr.to_text(dishes))),
    }
}

/// The table of the first `n` declared arguments, each with the value that
/// the expression in its place gives; or the error of the first expression
/// that gives none.
pub open spec fn bound_table(
    declared: Seq<(Seq<char>, OperationArgType)>,
    args: Seq<ExprV>,
    n: nat,
    dishes: Seq<DishV>,
) -> Result<Map<Seq<char>, OperationArgV>, ErrorV>
    decreases n,
{
    if n == 0 || n > declared.len() || n > args.len() {
        Ok(Map::empty())
    } else {
        match bound_table(declared, args, (n - 1) as nat, dishes) {
            Err(e) => Err(e),
            Ok(table) => match argument_of(declared[n - 1].1, args[n - 1], dishes) {
                Err(e) => Err(e),
                Ok(v) => Ok(table.insert(declared[n - 1].0, v)),
            },
        }
    }
}

/// The message for a call of an operation with the wrong number of
/// arguments.
pub open spec fn exact_arguments_message(n: nat, got: nat) -> Seq<char> {
    counting("expected exactly "@, n, " arguments. got "@, got, "."@)
}

/// The arguments of an operation, checked: there are as many as declared,
/// and each is of its declared kind.
pub open spec fn bound_arguments(info: OperationInfoV, args: Seq<ExprV>, dishes: Seq<DishV>) -> Result<
    Map<Seq<char>, OperationArgV>,
    ErrorV,
> {
    if info.arguments.len() != args.len() {
        Err(arity_error(exact_arguments_message(info.arguments.len(), args.len())))
    } else {
        bound_table(info.arguments, args, args.len(), dishes)
    }
}

/// An error among the first arguments is the error of all of them.
pub proof fn lemma_bound_table_error(
    declared: Seq<(Seq<char>, OperationArgType)>,
    args: Seq<ExprV>,
    n: nat,
    m: nat,
    dishes: Seq<DishV>,
)
    requires
        n <= m,
        m <= declared.len(),
        m <= args.len(),
        bound_table(declared, args, n, dishes) is Err,
    ensures
        bound_table(declared, args, m, dishes) == bound_table(declared, args, n, dishes),
    decreases m,
{
    if n < m {
        lemma_bound_table_error(declared, args, n, (m - 1) as nat, dishes);
    }
}

/// Checks the arguments of an operation against what it declares, and
/// puts them into a table.
pub fn parse_args(oi: &OperationInfo, exprs: &Vec<Expression>, dishes: &DishStore) -> (r: Result<
    OperationArguments,
    Error,
>)
    ensures
        match bound_arguments(oi@, models(exprs@), dishes@) {
            Ok(table) => r is Ok && r->Ok_0@ == Some(table),
            Err(e) => r is Err && r->Err_0@ == e,
        },
{
    if oi.arguments.len() != exprs.len() {
        return Err(
            error_counting(
                ErrorKind::Arity,
                "expected exactly ",
                oi.arguments.len(),
                " arguments. got ",
                exprs.len(),
                ".",
            ),
        );
    }
    let mut ret = OperationArguments::new();
    let mut i: usize = 0;
    while i < exprs.len()
        invariant
            i <= exprs.len(),
            oi.arguments.len() == exprs.len(),
            bound_table(oi@.arguments, models(exprs@), i as nat, dishes@) == Ok::<
                Map<Seq<char>, OperationArgV>,
                ErrorV,
            >(ret@->Some_0),
            ret@ is Some,
        decreases exprs.len() - i,
    {
        let name = oi.arguments[i].0;
        let typ = oi.arguments[i].1;
        assert(oi@.arguments[i as int] == (name@, typ));
        assert(models(exprs@)[i as int] == exprs@[i as int]@);
        match parse_arg(&typ, &exprs[i], dishes) {
            Err(e) => {
                proof {
                    lemma_bound_table_error(
                        oi@.arguments,
                        models(exprs@),
                        (i + 1) as nat,
                        exprs.len() as nat,
                        dishes@,
                    );
                }
                return Err(e);
            },
            Ok(value) => {
                ret.insert_arg(name, value);
            },
        }
        i = i + 1;
    }
    Ok(ret)
}

/// What calling an operation by its name does.
///   * An operation without arguments takes a dish, is applied to it and
///     returns it.
///   * An operation with arguments takes those, checks them, and returns
///     the function that waits for the dish.
pub open spec fn operation_call(info: OperationInfoV, args: Seq<ExprV>, dishes: Seq<DishV>) -> Called {
    if info.arguments.len() == 0 {
        apply_call(info.op, None, args, dishes)
    } else {
        match bound_arguments(info, args, dishes) {
            Err(e) => pure_call(Err(e), dishes),
            Ok(table) => pure_call(
                Ok(ExprV::Func(FunctionV::Bound(info.op, Some(table)))),
                dishes,
            ),
        }
    }
}

/// Calls an operation by its name.
pub fn call_named_operation(
    oi: &OperationInfo,
    args: &Vec<Expression>,
    dishes: &mut DishStore,
) -> (r: LispResult)
    ensures
        call_is(r, final(dishes)@, operation_call(oi@, models(args@), old(dishes)@)),
{
    if oi.arguments.len() == 0 {
        let none = OperationArguments::empty();
        return call_operation(oi.op, &none, args, dishes);
    }
    match parse_args(oi, args, dishes) {
        Err(e) => Err(e),
        Ok(table) => Ok(Expression::Func(Function::Bound(oi.op, table))),
    }
}

/// Installs an operation in the environment under its name.
pub fn embed_operation(oi: &OperationInfo, env: &mut Environment)
    ensures
        final(env)@ == crate::lisp::defined(
            old(env)@,
            oi@.name,
            ExprV::Func(FunctionV::Operation(oi@)),
        ),
{
    env.define(oi.name, Expression::Func(Function::Operation(oi.copy())));
}

// ---------------------------------------------------------------------------
// Calls
// ---------------------------------------------------------------------------
/// What calling a function does that calls no other: every function but
/// `apply` and `bake`, and these two where they do not get their two
/// arguments.
pub open spec fn simple_call(f: FunctionV, args: Seq<ExprV>, dishes: Seq<DishV>) -> Called {
    match f {
        FunctionV::Add => pure_call(add_result(args, dishes), dishes),
        FunctionV::Subtract => pure_call(subtract_result(args, dishes), dishes),
        FunctionV::Equal => pure_call(eq_result(args, dishes), dishes),
        FunctionV::First => pure_call(head_result(args, dishes), dishes),
        FunctionV::Rest => pure_call(rest_result(args, dishes), dishes),
        FunctionV::ButLast => pure_call(init_result(args, dishes), dishes),
        FunctionV::Last => pure_call(last_result(args, dishes), dishes),
        FunctionV::Empty => pure_call(empty_result(args, dishes), dishes),
        FunctionV::Cons => pure_call(cons_result(args), dishes),
        FunctionV::Dish => dish_call(args, dishes),
        FunctionV::Recipe => pure_call(recipe_result(args), dishes),
        FunctionV::Operation(info) => operation_call(info, args, dishes),
        FunctionV::Bound(op, table) => apply_call(op, table, args, dishes),
        FunctionV::Apply => pure_call(Err(arity_error(exact_args_message(2, args.len()))), dishes),
        FunctionV::Bake => pure_call(Err(arity_error(exact_args_message(2, args.len()))), dishes),
    }
}

/// What the steps of a recipe do to a dish: the first `n` functions are
/// called with the dish, one after the other, until one fails. Each step
/// is a call as [`call`] describes it, see [`lemma_step_is_call`].
pub open spec fn baked(recipe: Seq<ExprV>, n: nat, dish: ExprV, dishes: Seq<DishV>) -> Called
    decreases n,
{
    if n == 0 || n > recipe.len() {
        Called { result: Ok(dish), dishes }
    } else {
        let before = baked(recipe, (n - 1) as nat, dish, dishes);
        match before.result {
            Err(_) => before,
            Ok(_) => {
                let step = simple_call(recipe[n - 1]->Func_0, seq![dish], before.dishes);
                match step.result {
                    Err(e) => step,
                    Ok(_) => Called { result: Ok(dish), dishes: step.dishes },
                }
            },
        }
    }
}

/// What `bake` does: it takes a list of functions and a dish, calls each
/// function with the dish, in order, and returns the dish. It stops at the
/// first function that fails.
pub open spec fn bake_call(args: Seq<ExprV>, dishes: Seq<DishV>) -> Called {
    if args.len() != 2 {
        pure_call(Err(arity_error(exact_args_message(2, args.len()))), dishes)
    } else if !(args[0] is List) {
        pure_call(Err(type_error("expected list"@)), dishes)
    } else if !(args[1] is Dish) {
        pure_call(Err(type_error("expected Dish"@)), dishes)
    } else if first_non_function(args[0]->List_0, 0) < args[0]->List_0.len() {
        pure_call(Err(type_error("recipe must be list of functions."@)), dishes)
    } else {
        baked(args[0]->List_0, args[0]->List_0.len(), args[1], dishes)
    }
}

/// What calling a function with its arguments does.
pub open spec fn call(f: FunctionV, args: Seq<ExprV>, dishes: Seq<DishV>) -> Called
    decreases args,
{
    match f {
        FunctionV::Apply => if args.len() != 2 {
            pure_call(Err(arity_error(exact_args_message(2, args.len()))), dishes)
        } else {
            match args[0] {
                ExprV::Func(g) => match args[1] {
                    ExprV::List(items) => call(g, items, dishes),
                    _ => pure_call(
                        Err(type_error("2nd argument to 'apply' must be a list."@)),
                        dishes,
                    ),
                },
                _ => pure_call(
                    Err(type_error("1st argument to 'apply' must be a function."@)),
                    dishes,
                ),
            }
        },
        FunctionV::Bake => bake_call(args, dishes),
        _ => simple_call(f, args, dishes),
    }
}

/// A call with one argument is a call that calls no other.
pub proof fn lemma_step_is_call(f: FunctionV, arg: ExprV, dishes: Seq<DishV>)
    ensures
        simple_call(f, seq![arg], dishes) == call(f, seq![arg], dishes),
{
}

/// Calls a function that calls no other, as [`simple_call`] says.
fn call_simple(f: &Function, args: &Vec<Expression>, dishes: &mut DishStore) -> (r: LispResult)
    ensures
        call_is(r, final(dishes)@, simple_call(f@, models(args@), old(dishes)@)),
{
    match f {
        Function::Add => call_add(args, dishes),
        Function::Subtract => call_subtract(args, dishes),
        Function::Equal => call_eq(args, dishes),
        Function::First => call_head(args, dishes),
        Function::Rest => call_rest(args, dishes),
        Function::ButLast => call_init(args, dishes),
        Function::Last => call_last(args, dishes),
        Function::Empty => call_empty(args, dishes),
        Function::Cons => call_cons(args),
        Function::Dish => call_dish(args, dishes),
        Function::Recipe => call_recipe(args),
        Function::Operation(info) => call_named_operation(info, args, dishes),
        Function::Bound(op, table) => call_operation(*op, table, args, dishes),
        Function::Apply => Err(
            error_counting(ErrorKind::Arity, "expected exactly ", 2, " args. got ", args.len(), "."),
        ),
        Function::Bake => Err(
            error_counting(ErrorKind::Arity, "expected exactly ", 2, " args. got ", args.len(), "."),
        ),
    }
}

/// `bake`: calls each function of a recipe with a dish.
pub fn call_bake(args: &Vec<Expression>, dishes: &mut DishStore) -> (r: LispResult)
    ensures
        call_is(r, final(dishes)@, bake_call(models(args@), old(dishes)@)),
{
    match ensure_exact_args(args, 2) {
        Err(e) => {
            return Err(e);
        },
        Ok(()) => {},
    }
    assert(models(args@)[0] == args@[0]@);
    assert(models(args@)[1] == args@[1]@);
    let recipe = match &args[0] {
        Expression::List(v) => v,
        _ => {
            return Err(Error::new(ErrorKind::Type, "expected list"));
        },
    };
    proof {
        lemma_list_model(&args@[0]);
    }
    match &args[1] {
        Expression::Dish(_) => {},
        _ => {
            return Err(Error::new(ErrorKind::Type, "expected Dish"));
        },
    }
    if !all_functions(recipe) {
        return Err(Error::new(ErrorKind::Type, "recipe must be list of functions."));
    }
    let ghost steps = models(recipe@);
    let ghost dish = args@[1]@;
    let ghost start = old(dishes)@;
    let ghost whole = bake_call(models(args@), start);
    assert(whole == baked(steps, recipe.len() as nat, dish, start));
    let mut i: usize = 0;
    while i < recipe.len()
        invariant
            i <= recipe.len(),
            args@.len() == 2,
            steps == models(recipe@),
            dish == args@[1]@,
            first_non_function(steps, 0) >= steps.len(),
            start == old(dishes)@,
            whole == bake_call(models(args@), start),
            whole == baked(steps, recipe.len() as nat, dish, start),
            baked(steps, i as nat, dish, start) == (Called { result: Ok(dish), dishes: dishes@ }),
        decreases recipe.len() - i,
    {
        let mut one: Vec<Expression> = Vec::new();
        one.push(args[1].copy());
        let ghost before = dishes@;
        proof {
            assert(steps[i as int] == recipe@[i as int]@);
            assert(models(one@) =~= seq![dish]);
            lemma_all_functions(steps, 0, i as int);
        }
        match &recipe[i] {
            Expression::Func(f) => {
                let ghost step = simple_call(f@, seq![dish], before);
                assert(steps[i as int]->Func_0 == f@);
                assert(baked(steps, (i + 1) as nat, dish, start) == (match step.result {
                    Err(e) => step,
                    Ok(_) => Called { result: Ok(dish), dishes: step.dishes },
                }));
                match call_simple(f, &one, dishes) {
                    Err(e) => {
                        proof {
                            assert(step.result is Err);
                            assert(step.dishes == dishes@);
                            assert(baked(steps, (i + 1) as nat, dish, start) == step);
                            lemma_baked_error(
                                steps,
                                (i + 1) as nat,
                                recipe.len() as nat,
                                dish,
                                start,
                            );
                            assert(whole == step);
                        }
                        return Err(e);
                    },
                    Ok(_) => {},
                }
            },
            _ => {
                assert(false);
            },
        }
        i = i + 1;
    }
    Ok(args[1].copy())
}

/// Where no item from `i` on is anything but a function, each is one.
pub proof fn lemma_all_functions(items: Seq<ExprV>, i: int, k: int)
    requires
        0 <= i <= k < items.len(),
        first_non_function(items, i) >= items.len(),
    ensures
        items[k] is Func,
    decreases k - i,
{
    if i < k {
        lemma_all_functions(items, i + 1, k);
    }
}

/// A recipe that failed at one of its first steps has failed.
pub proof fn lemma_baked_error(recipe: Seq<ExprV>, n: nat, m: nat, dish: ExprV, dishes: Seq<DishV>)
    requires
        n <= m <= recipe.len(),
        baked(recipe, n, dish, dishes).result is Err,
    ensures
        baked(recipe, m, dish, dishes) == baked(recipe, n, dish, dishes),
    decreases m,
{
    if n < m {
        lemma_baked_error(recipe, n, (m - 1) as nat, dish, dishes);
    }
}

/// Calls a function with its arguments, as [`call`] says.
pub fn call_function(f: &Function, args: &Vec<Expression>, dishes: &mut DishStore) -> (r:
    LispResult)
    ensures
        call_is(r, final(dishes)@, call(f@, models(args@), old(dishes)@)),
    decreases args,
{
    match f {
        Function::Apply => {
            match ensure_exact_args(args, 2) {
                Err(e) => {
                    return Err(e);
                },
                Ok(()) => {},
            }
            assert(models(args@)[0] == args@[0]@);
            assert(models(args@)[1] == args@[1]@);
            match &args[0] {
                Expression::Func(g) => match &args[1] {
                    Expression::List(items) => {
                        proof {
                            lemma_list_model(&args@[1]);
                            assert(decreases_to!(args => args[1]));
                            assert(decreases_to!(args[1] => args[1]->List_0));
                        }
                        call_function(g, items, dishes)
                    },
                    _ => Err(Error::new(ErrorKind::Type, "2nd argument to 'apply' must be a list.")),
                },
                _ => Err(Error::new(ErrorKind::Type, "1st argument to 'apply' must be a function.")),
            }
        },
        Function::Bake => call_bake(args, dishes),
        _ => call_simple(f, args, dishes),
    }
}

/// `+` as an expression.
pub fn lisp_add() -> (r: Expression)
    ensures
        r@ == ExprV::Func(FunctionV::Add),
{
    Expression::Func(Function::Add)
}

/// `-` as an expression.
pub fn lisp_subtract() -> (r: Expression)
    ensures
        r@ == ExprV::Func(FunctionV::Subtract),
{
    Expression::Func(Function::Subtract)
}

/// `=` as an expression.
pub fn lisp_eq() -> (r: Expression)
    ensures
        r@ == ExprV::Func(FunctionV::Equal),
{
    Expression::Func(Function::Equal)
}

/// `apply` as an expression.
pub fn lisp_apply() -> (r: Expression)
    ensures
        r@ == ExprV::Func(FunctionV::Apply),
{
    Expression::Func(Function::Apply)
}

/// `first` as an expression.
pub fn lisp_head() -> (r: Expression)
    ensures
        r@ == ExprV::Func(FunctionV::First),
{
    Expression::Func(Function::First)
}

/// `last` as an expression.
pub fn lisp_last() -> (r: Expression)
    ensures
        r@ == ExprV::Func(FunctionV::Last),
{
    Expression::Func(Function::Last)
}

/// `rest` as an expression.
pub fn lisp_rest() -> (r: Expression)
    ensures
        r@ == ExprV::Func(FunctionV::Rest),
{
    Expression::Func(Function::Rest)
}

/// `butlast` as an expression.
pub fn lisp_init() -> (r: Expression)
    ensures
        r@ == ExprV::Func(FunctionV::ButLast),
{
    Expression::Func(Function::ButLast)
}

/// `dish` as an expression.
pub fn lisp_dish() -> (r: Expression)
    ensures
        r@ == ExprV::Func(FunctionV::Dish),
{
    Expression::Func(Function::Dish)
}

/// `recipe` as an expression.
pub fn lisp_recipe() -> (r: Expression)
    ensures
        r@ == ExprV::Func(FunctionV::Recipe),
{
    Expression::Func(Function::Recipe)
}

/// `bake` as an expression.
pub fn lisp_bake() -> (r: Expression)
    ensures
        r@ == ExprV::Func(FunctionV::Bake),
{
    Expression::Func(Function::Bake)
}

/// `empty?` as an expression.
pub fn lisp_empty() -> (r: Expression)
    ensures
        r@ == ExprV::Func(FunctionV::Empty),
{
    Expression::Func(Function::Empty)
}

/// `cons` as an expression.
pub fn lisp_cons() -> (r: Expression)
    ensures
        r@ == ExprV::Func(FunctionV::Cons),
{
    Expression::Func(Function::Cons)
}


// ---------------------------------------------------------------------------
// Files and the terminal
// ---------------------------------------------------------------------------
// Reading a file, writing one and printing are done by the program that
// embeds the language. What is read, written and printed is decided here.
/// The error for an argument that should be a string.
pub open spec fn not_a_string(e: ExprV, dishes: Seq<DishV>) -> ErrorV {
    type_error(showing("expected a string. got "@, e, ""@, dishes))
}

/// The file that `slurp` is to read: its first argument, a string.
pub open spec fn slurp_target(args: Seq<ExprV>, dishes: Seq<DishV>) -> Result<Seq<char>, ErrorV> {
    if args.len() < 1 {
        Err(arity_error(at_least_args_message(1, args.len())))
    } else {
        match args[0] {
            ExprV::Str(name) => Ok(name),
            other => Err(not_a_string(other, dishes)),
        }
    }
}

/// Decides which file `slurp` is to read.
pub fn slurp_path(args: &Vec<Expression>, dishes: &DishStore) -> (r: Result<String, Error>)
    ensures
        match slurp_target(models(args@), dishes@) {
            Ok(name) => r is Ok && r->Ok_0@ == name,
            Err(e) => r is Err && r->Err_0@ == e,
        },
{
    match ensure_at_least_args(args, 1) {
        Err(e) => {
            return Err(e);
        },
        Ok(()) => {},
    }
    assert(models(args@)[0] == args@[0]@);
    match &args[0] {
        Expression::String(s) => Ok(s.clone()),
        other => Err(error_showing(ErrorKind::Type, "expected a string. got ", other, "", dishes)),
    }
}

/// Makes the dish of what `slurp` has read.
pub fn slurp_dish(bytes: Vec<u8>, dishes: &mut DishStore) -> (r: Expression)
    ensures
        r@ == ExprV::Dish(old(dishes)@.len()),
        final(dishes)@ == old(dishes)@.push(DishV::Success(DishDataV::Bin(bytes@))),
{
    Expression::Dish(dishes.insert(Dish::from_bytes(bytes)))
}

/// The bytes of a dish as they are written and printed: the data of a
/// success, the message of a failure.
pub open spec fn dish_bytes(dish: DishV) -> Seq<u8> {
    match dish {
        DishV::Success(data) => data.bytes(),
        DishV::Failure(message) => encode_utf8(message),
    }
}

/// What `spit` is to write, and where: the bytes of its first argument, a
/// dish, to the file that its second argument, a string, names.
pub open spec fn spit_target(args: Seq<ExprV>, dishes: Seq<DishV>) -> Result<
    (Seq<u8>, Seq<char>),
    ErrorV,
> {
    if args.len() < 2 {
        Err(arity_error(at_least_args_message(2, args.len())))
    } else {
        match args[0] {
            ExprV::Dish(h) => match args[1] {
                ExprV::Str(name) => if h < dishes.len() {
                    Ok((dish_bytes(dishes[h as int]), name))
                } else {
                    Err(name_error("dangling dish"@))
                },
                other => Err(not_a_string(other, dishes)),
            },
            other => Err(type_error(showing("expected a dish. got "@, other, "."@, dishes))),
        }
    }
}

fn bytes_of_dish(dish: &Dish) -> (r: Vec<u8>)
    ensures
        r@ == dish_bytes(dish@),
{
    let bytes = match dish {
        Dish::Success(data) => data.as_bytes(),
        Dish::Failure(e) => e.0.as_str().as_bytes(),
    };
    let mut out: Vec<u8> = Vec::new();
    let mut i: usize = 0;
    while i < bytes.len()
        invariant
            i <= bytes@.len(),
            out@ == bytes@.take(i as int),
        decreases bytes.len() - i,
    {
        out.push(bytes[i]);
        assert(bytes@.take(i + 1) =~= bytes@.take(i as int).push(bytes@[i as int]));
        i = i + 1;
    }
    assert(bytes@.take(bytes@.len() as int) =~= bytes@);
    out
}

/// Decides what `spit` is to write, and where.
pub fn spit_request(args: &Vec<Expression>, dishes: &DishStore) -> (r: Result<
    (Vec<u8>, String),
    Error,
>)
    ensures
        match spit_target(models(args@), dishes@) {
            Ok((bytes, name)) => r is Ok && r->Ok_0.0@ == bytes && r->Ok_0.1@ == name,
            Err(e) => r is Err && r->Err_0@ == e,
        },
{
    match ensure_at_least_args(args, 2) {
        Err(e) => {
            return Err(e);
        },
        Ok(()) => {},
    }
    assert(models(args@)[0] == args@[0]@);
    assert(models(args@)[1] == args@[1]@);
    let handle = match &args[0] {
        Expression::Dish(h) => *h,
        other => {
            return Err(
                error_showing(ErrorKind::Type, "expected a dish. got ", other, ".", dishes),
            );
        },
    };
    let name = match &args[1] {
        Expression::String(s) => s.clone(),
        other => {
            return Err(
                error_showing(ErrorKind::Type, "expected a string. got ", other, "", dishes),
            );
        },
    };
    match dishes.get(handle) {
        Some(dish) => Ok((bytes_of_dish(dish), name)),
        None => Err(Error::new(ErrorKind::Name, "dangling dish")),
    }
}

/// The line that `print` is to print: its first argument as it is shown,
/// or, for a dish, the bytes of the dish decoded leniently.
pub open spec fn print_text(args: Seq<ExprV>, dishes: Seq<DishV>) -> Result<Seq<char>, ErrorV> {
    if args.len() < 1 {
        Err(arity_error(at_least_args_message(1, args.len())))
    } else {
        match args[0] {
            ExprV::Dish(h) => if h < dishes.len() {
                Ok(utf8_lossy(dish_bytes(dishes[h as int])))
            } else {
                Err(name_error("dangling dish"@))
            },
            other => Ok(display(other, dishes)),
        }
    }
}

/// Decides what `print` is to print.
pub fn print_line(args: &Vec<Expression>, dishes: &DishStore) -> (r: Result<String, Error>)
    ensures
        match print_text(models(args@), dishes@) {
            Ok(line) => r is Ok && r->Ok_0@ == line,
            Err(e) => r is Err && r->Err_0@ == e,
        },
{
    match ensure_at_least_args(args, 1) {
        Err(e) => {
            return Err(e);
        },
        Ok(()) => {},
    }
    assert(models(args@)[0] == args@[0]@);
    match &args[0] {
        Expression::Dish(h) => match dishes.get(*h) {
            Some(dish) => {
                let bytes = bytes_of_dish(dish);
                Ok(string_from_utf8_lossy(bytes.as_slice()))
            },
            None => Err(Error::new(ErrorKind::Name, "dangling dish")),
        },
        other => Ok(other.to_text(dishes)),
    }
}

} // verus!
