//! Evaluation: what an expression stands for in an environment.
//!
//! The spec functions of this file are the meaning of the language; the
//! executable functions compute it. Both take a limit on how deep calls of
//! user functions may nest, since a program of the language need not come
//! to an end. [`eval`] sets the limit out of reach; a program that never
//! comes to an end then uses up the stack of the machine.

use vstd::prelude::*;
use vstd::slice::slice_subrange;
use crate::lisp::frame_of;
use crate::lisp::defined;
use crate::lisp::functions::arity_error;
use crate::lisp::functions::call;
use crate::lisp::functions::call_function;
use crate::lisp::functions::counting;
use crate::lisp::functions::error_counting;
use crate::lisp::functions::error_showing;
use crate::lisp::functions::name_error;
use crate::lisp::functions::showing;
use crate::lisp::functions::type_error;
use crate::lisp::lemma_list_model;
use crate::lisp::lookup;
use crate::lisp::models;
use crate::lisp::popped;
use crate::lisp::DishStore;
use crate::lisp::Environment;
use crate::lisp::Error;
use crate::lisp::ErrorKind;
use crate::lisp::ErrorV;
use crate::lisp::ExprV;
use crate::lisp::Expression;
use crate::lisp::Lambda;
use crate::lisp::LispResult;
use crate::text::decimal_text;
use crate::text::join3;
use crate::text::same_text;
use crate::DishV;

verus! {

/// How deep calls of user functions may nest under [`eval`]: deeper than
/// any machine goes, so that only the stack of the machine bounds them.
/// [`eval_within`] takes a limit of the caller's choice.
pub const CALL_DEPTH: usize = usize::MAX;

/// What an evaluation works on: the scopes and the dishes.
pub struct StateV {
    pub env: Seq<Map<Seq<char>, ExprV>>,
    pub dishes: Seq<DishV>,
}

/// What an evaluation gives: a value or an error, and the state behind it.
/// What was defined and what was done to dishes before an error stays.
pub struct Evaluated {
    pub result: Result<ExprV, ErrorV>,
    pub state: StateV,
}

/// What the evaluation of several forms gives.
pub struct EvaluatedAll {
    pub result: Result<Seq<ExprV>, ErrorV>,
    pub state: StateV,
}

/// An evaluation that fails and leaves the state as it is.
pub open spec fn failed(e: ErrorV, state: StateV) -> Evaluated {
    Evaluated { result: Err(e), state }
}

/// An evaluation that gives a value and leaves the state as it is.
pub open spec fn gives(v: ExprV, state: StateV) -> Evaluated {
    Evaluated { result: Ok(v), state }
}

/// The error for calls that nest too deep.
pub open spec fn limit_error() -> ErrorV {
    ErrorV { kind: ErrorKind::Limit, message: "call depth limit reached."@ }
}

/// The error for a symbol without a binding.
pub open spec fn unbound(name: Seq<char>) -> ErrorV {
    name_error("unexpected symbol '"@ + name + "'."@)
}

/// The error for a call of a user function with the wrong number of
/// arguments.
pub open spec fn lambda_arity(expected: nat, got: nat) -> ErrorV {
    arity_error(counting("expected "@, expected, " arguments. got "@, got, "."@))
}

/// The place of the first of `items`, at or behind `i`, that is no symbol;
/// the length of `items` where all are.
pub open spec fn first_non_symbol(items: Seq<ExprV>, i: int) -> int
    decreases items.len() - i,
{
    if i < 0 || i >= items.len() {
        items.len() as int
    } else if !(items[i] is Symbol) {
        i
    } else {
        first_non_symbol(items, i + 1)
    }
}

/// The names of a list of parameters, which must be a list of symbols.
pub open spec fn symbol_names(params: ExprV, dishes: Seq<DishV>) -> Result<Seq<Seq<char>>, ErrorV> {
    match params {
        ExprV::List(items) => {
            let k = first_non_symbol(items, 0);
            if k < items.len() {
                Err(type_error(showing("expected symbol. got '"@, items[k], "'."@, dishes)))
            } else {
                Ok(Seq::new(items.len(), |i: int| items[i]->Symbol_0))
            }
        },
        _ => Err(
            type_error(showing("expected argument to be a list. got '"@, params, "'."@, dishes)),
        ),
    }
}

/// What an expression evaluates to.
///   * A symbol stands for its binding; without one it is an error.
///   * A number, a boolean, a string and a dish stand for themselves.
///   * A list is a special form where its first item is one of `if`,
///     `def`, `fn`, `defn` and `quote`, whatever these are bound to.
///     Otherwise its first item is evaluated and called: a built-in
///     function or an operation with the other items evaluated from left
///     to right, a user function as [`lambda_call`] says. Anything else
///     cannot be called. The empty list is an error.
///   * A function cannot be evaluated.
pub open spec fn eval_spec(e: ExprV, st: StateV, fuel: nat) -> Evaluated
    decreases fuel, e, 0nat,
{
    match e {
        ExprV::Symbol(name) => match lookup(st.env, name) {
            Some(v) => gives(v, st),
            None => failed(unbound(name), st),
        },
        ExprV::Number(_) => gives(e, st),
        ExprV::Bool(_) => gives(e, st),
        ExprV::Str(_) => gives(e, st),
        ExprV::Dish(_) => gives(e, st),
        ExprV::Func(_) => failed(type_error("cannot eval function."@), st),
        ExprV::Lambda(_, _) => failed(type_error("cannot eval lambda function."@), st),
        ExprV::List(items) => if items.len() == 0 {
            failed(type_error("expected a non-empty list."@), st)
        } else {
            let args = items.skip(1);
            match special_form(items[0], args, st, fuel) {
                Some(done) => done,
                None => {
                    let head = eval_spec(items[0], st, fuel);
                    match head.result {
                        Err(_) => head,
                        Ok(ExprV::Func(f)) => {
                            let values = eval_forms_spec(args, args.len(), head.state, fuel);
                            match values.result {
                                Err(e) => failed(e, values.state),
                                Ok(vs) => {
                                    let called = call(f, vs, values.state.dishes);
                                    Evaluated {
                                        result: called.result,
                                        state: StateV {
                                            env: values.state.env,
                                            dishes: called.dishes,
                                        },
                                    }
                                },
                            }
                        },
                        Ok(ExprV::Lambda(params, body)) => lambda_call(
                            *params,
                            *body,
                            args,
                            head.state,
                            fuel,
                        ),
                        Ok(other) => failed(
                            type_error(
                                showing(
                                    "expected first expression to be a function. got '"@,
                                    other,
                                    "'."@,
                                    head.state.dishes,
                                ),
                            ),
                            head.state,
                        ),
                    }
                },
            }
        },
    }
}

/// What the first `n` of `forms` evaluate to, from left to right, each in
/// the state that the one before it left. The first error ends it.
pub open spec fn eval_forms_spec(forms: Seq<ExprV>, n: nat, st: StateV, fuel: nat) -> EvaluatedAll
    decreases fuel, forms, n,
{
    if n == 0 || n > forms.len() {
        EvaluatedAll { result: Ok(Seq::empty()), state: st }
    } else {
        let before = eval_forms_spec(forms, (n - 1) as nat, st, fuel);
        match before.result {
            Err(_) => before,
            Ok(values) => {
                let next = eval_spec(forms[n - 1], before.state, fuel);
                match next.result {
                    Err(e) => EvaluatedAll { result: Err(e), state: next.state },
                    Ok(v) => EvaluatedAll { result: Ok(values.push(v)), state: next.state },
                }
            },
        }
    }
}

/// What a list whose first item is `head` and whose other items are `args`
/// evaluates to, where it is a special form; nothing where it is not.
pub open spec fn special_form(head: ExprV, args: Seq<ExprV>, st: StateV, fuel: nat) -> Option<
    Evaluated,
>
    decreases fuel, args, 1nat,
{
    match head {
        ExprV::Symbol(name) => if name == "if"@ {
            Some(eval_if_spec(args, st, fuel))
        } else if name == "def"@ {
            Some(eval_def_spec(args, st, fuel))
        } else if name == "fn"@ {
            Some(Evaluated { result: lambda_of(args), state: st })
        } else if name == "defn"@ {
            Some(eval_defn_spec(args, st))
        } else if name == "quote"@ {
            Some(Evaluated { result: quote_of(args), state: st })
        } else {
            None
        },
        _ => None,
    }
}

/// `(if test yes no)`: exactly three forms. The test is evaluated and must
/// give a boolean; then `yes` is evaluated where it is true, `no` where it
/// is false. With fewer forms or more, nothing is evaluated.
pub open spec fn eval_if_spec(args: Seq<ExprV>, st: StateV, fuel: nat) -> Evaluated
    decreases fuel, args, 0nat,
{
    if args.len() == 0 {
        failed(arity_error("expected test expression. got nothing."@), st)
    } else if args.len() < 3 {
        failed(arity_error("expected branch. got '"@ + decimal_text(args.len()) + "'."@), st)
    } else if args.len() > 3 {
        failed(arity_error("if expression must only have a test and two branches."@), st)
    } else {
        let test = eval_spec(args[0], st, fuel);
        match test.result {
            Err(_) => test,
            Ok(ExprV::Bool(b)) => if b {
                eval_spec(args[1], test.state, fuel)
            } else {
                eval_spec(args[2], test.state, fuel)
            },
            Ok(_) => failed(
                type_error(
                    showing("expected boolean expression. got '"@, args[0], "'."@, test.state.dishes),
                ),
                test.state,
            ),
        }
    }
}

/// `(def name form)`: exactly two forms, the first of them a symbol. The
/// form is evaluated and its value bound to the name in the innermost
/// scope. The value of the whole is the name. The count of the forms is
/// looked at first.
pub open spec fn eval_def_spec(args: Seq<ExprV>, st: StateV, fuel: nat) -> Evaluated
    decreases fuel, args, 0nat,
{
    if args.len() == 0 {
        failed(arity_error("expected symbol name. got nothing."@), st)
    } else if args.len() == 1 {
        failed(arity_error("expected expression. got nothing."@), st)
    } else if args.len() > 2 {
        failed(
            arity_error("define expression must only have a symbol and an expression."@),
            st,
        )
    } else if !(args[0] is Symbol) {
        failed(type_error(showing("expected symbol. got '"@, args[0], "'."@, st.dishes)), st)
    } else {
        let value = eval_spec(args[1], st, fuel);
        match value.result {
            Err(_) => value,
            Ok(v) => Evaluated {
                result: Ok(args[0]),
                state: StateV {
                    env: defined(value.state.env, args[0]->Symbol_0, v),
                    dishes: value.state.dishes,
                },
            },
        }
    }
}

/// `(fn params body)`: the user function of these parameters and this
/// body, neither of them evaluated.
pub open spec fn lambda_of(args: Seq<ExprV>) -> Result<ExprV, ErrorV> {
    if args.len() == 0 {
        Err(arity_error("expected parameters. got nothing."@))
    } else if args.len() == 1 {
        Err(arity_error("expected function body. got nothing."@))
    } else if args.len() > 2 {
        Err(arity_error("function definition must only have an argument list and a body."@))
    } else {
        Ok(ExprV::Lambda(Box::new(args[0]), Box::new(args[1])))
    }
}

/// `(defn name params body)`: exactly three forms, the first of them a
/// symbol. Binds the name to the user function of these parameters and
/// this body. The value of the whole is the name. The count of the forms
/// is looked at first.
pub open spec fn eval_defn_spec(args: Seq<ExprV>, st: StateV) -> Evaluated {
    if args.len() == 0 {
        failed(arity_error("expected symbol name. got nothing."@), st)
    } else if args.len() == 1 {
        failed(arity_error("expected argument list"@), st)
    } else if args.len() == 2 {
        failed(arity_error("expected function body"@), st)
    } else if args.len() > 3 {
        failed(
            arity_error(
                "function definition must only have a name, an argument list and a body."@,
            ),
            st,
        )
    } else if !(args[0] is Symbol) {
        failed(type_error(showing("expected symbol. got '"@, args[0], "'."@, st.dishes)), st)
    } else {
        Evaluated {
            result: Ok(args[0]),
            state: StateV {
                env: defined(
                    st.env,
                    args[0]->Symbol_0,
                    ExprV::Lambda(Box::new(args[1]), Box::new(args[2])),
                ),
                dishes: st.dishes,
            },
        }
    }
}

/// `(quote form)`: the form, not evaluated.
pub open spec fn quote_of(args: Seq<ExprV>) -> Result<ExprV, ErrorV> {
    if args.len() != 1 {
        Err(
            arity_error(
                "expected exactly 1 argument. got "@ + decimal_text(args.len()) + "."@,
            ),
        )
    } else {
        Ok(args[0])
    }
}

/// Entering a user function: its parameters must be a list of symbols, as
/// many as there are arguments; the arguments are evaluated from left to
/// right in the scope of the call, and a new scope is opened in which each
/// parameter is bound to its argument.
pub open spec fn enter_lambda(params: ExprV, args: Seq<ExprV>, st: StateV, fuel: nat) -> EvaluatedAll
    decreases fuel, args, args.len() + 2,
{
    match parameter_names(params, args.len(), st.dishes) {
        Err(e) => EvaluatedAll { result: Err(e), state: st },
        Ok(names) => bind_arguments(names, args, st, fuel),
    }
}

/// The arguments of a call, evaluated from left to right, and the state
/// with a new scope in which each name is bound to the value in its place.
pub open spec fn bind_arguments(names: Seq<Seq<char>>, args: Seq<ExprV>, st: StateV, fuel: nat) -> EvaluatedAll
    decreases fuel, args, args.len() + 1,
{
    let values = eval_forms_spec(args, args.len(), st, fuel);
    match values.result {
        Err(_) => values,
        Ok(vs) => EvaluatedAll {
            result: Ok(vs),
            state: StateV {
                env: values.state.env.push(frame_of(names, vs)),
                dishes: values.state.dishes,
            },
        },
    }
}

/// Calling a user function: the function is entered, its body is evaluated
/// in the new scope, and the scope is closed again, whatever the body gave.
/// What the body defines is gone with the scope; what it did to dishes
/// stays. Where calls nest deeper than the limit, the call is an error.
pub open spec fn lambda_call(
    params: ExprV,
    body: ExprV,
    args: Seq<ExprV>,
    st: StateV,
    fuel: nat,
) -> Evaluated
    decreases fuel, args, args.len() + 3,
{
    if fuel == 0 {
        failed(limit_error(), st)
    } else {
        let entered = enter_lambda(params, args, st, fuel);
        match entered.result {
            Err(e) => failed(e, entered.state),
            Ok(_) => {
                let done = eval_spec(body, entered.state, (fuel - 1) as nat);
                Evaluated {
                    result: done.result,
                    state: StateV { env: popped(done.state.env), dishes: done.state.dishes },
                }
            },
        }
    }
}

/// Whether an evaluation did what is expected of it.
pub open spec fn evaluated_is(
    r: LispResult,
    env: Seq<Map<Seq<char>, ExprV>>,
    dishes: Seq<DishV>,
    expected: Evaluated,
) -> bool {
    &&& match expected.result {
        Ok(v) => r is Ok && r->Ok_0@ == v,
        Err(e) => r is Err && r->Err_0@ == e,
    }
    &&& env == expected.state.env
    &&& dishes == expected.state.dishes
}

/// The state of an evaluation.
pub open spec fn state_of(env: Seq<Map<Seq<char>, ExprV>>, dishes: Seq<DishV>) -> StateV {
    StateV { env, dishes }
}

/// An error among the first forms is the error of all of them.
pub proof fn lemma_eval_forms_error(forms: Seq<ExprV>, n: nat, m: nat, st: StateV, fuel: nat)
    requires
        n <= m <= forms.len(),
        eval_forms_spec(forms, n, st, fuel).result is Err,
    ensures
        eval_forms_spec(forms, m, st, fuel) == eval_forms_spec(forms, n, st, fuel),
    decreases m,
{
    if n < m {
        lemma_eval_forms_error(forms, n, (m - 1) as nat, st, fuel);
    }
}

/// Evaluates an expression, as [`eval_spec`] says, with calls of user
/// functions nested at most [`CALL_DEPTH`] deep.
pub fn eval(expr: &Expression, env: &mut Environment, dishes: &mut DishStore) -> (r: LispResult)
    ensures
        evaluated_is(
            r,
            final(env)@,
            final(dishes)@,
            eval_spec(expr@, state_of(old(env)@, old(dishes)@), CALL_DEPTH as nat),
        ),
{
    eval_within(expr, env, dishes, CALL_DEPTH)
}

/// Evaluates an expression, as [`eval_spec`] says, with calls of user
/// functions nested at most `fuel` deep.
pub fn eval_within(
    expr: &Expression,
    env: &mut Environment,
    dishes: &mut DishStore,
    fuel: usize,
) -> (r: LispResult)
    ensures
        evaluated_is(
            r,
            final(env)@,
            final(dishes)@,
            eval_spec(expr@, state_of(old(env)@, old(dishes)@), fuel as nat),
        ),
    decreases fuel, expr, 0nat,
{
    match expr {
        Expression::Symbol(k) => match env_get(k.as_str(), env) {
            Some(v) => Ok(v),
            None => Err(
                Error {
                    kind: ErrorKind::Name,
                    message: join3("unexpected symbol '", k.as_str(), "'."),
                },
            ),
        },
        Expression::Number(_) => Ok(expr.copy()),
        Expression::Bool(_) => Ok(expr.copy()),
        Expression::String(_) => Ok(expr.copy()),
        Expression::Dish(_) => Ok(expr.copy()),
        Expression::Func(_) => Err(Error::new(ErrorKind::Type, "cannot eval function.")),
        Expression::Lambda(_) => Err(Error::new(ErrorKind::Type, "cannot eval lambda function.")),
        Expression::List(list) => {
            proof {
                lemma_list_model(expr);
            }
            if list.len() == 0 {
                return Err(Error::new(ErrorKind::Type, "expected a non-empty list."));
            }
            let first_form = &list[0];
            let arg_forms = slice_subrange(list.as_slice(), 1, list.len());
            proof {
                assert(models(list@)[0] == list@[0]@);
                assert(models(arg_forms@) =~= models(list@).skip(1));
                assert(decreases_to!(*expr => expr->List_0));
                assert(decreases_to!(expr->List_0 => expr->List_0@));
                assert(decreases_to!(expr->List_0@ => arg_forms@));
                assert(decreases_to!(expr->List_0 => expr->List_0[0]));
            }
            match eval_builtin_form(first_form, arg_forms, env, dishes, fuel) {
                Some(res) => res,
                None => {
                    let first_eval = match eval_within(first_form, env, dishes, fuel) {
                        Err(e) => {
                            return Err(e);
                        },
                        Ok(v) => v,
                    };
                    match first_eval {
                        Expression::Func(f) => {
                            let values = match eval_forms(arg_forms, env, dishes, fuel) {
                                Err(e) => {
                                    return Err(e);
                                },
                                Ok(values) => values,
                            };
                            call_function(&f, &values, dishes)
                        },
                        Expression::Lambda(f) => call_lambda(&f, arg_forms, env, dishes, fuel),
                        other => Err(
                            error_showing(
                                ErrorKind::Type,
                                "expected first expression to be a function. got '",
                                &other,
                                "'.",
                                dishes,
                            ),
                        ),
                    }
                },
            }
        },
    }
}

/// A copy of what a name stands for in the environment, if it is bound.
pub fn env_get(k: &str, env: &Environment) -> (r: Option<Expression>)
    ensures
        match lookup(env@, k@) {
            Some(e) => r is Some && r->Some_0@ == e,
            None => r is None,
        },
{
    env.get(k)
}

/// Whether the evaluation of several forms did what is expected of it.
pub open spec fn evaluated_all_is(
    r: Result<Vec<Expression>, Error>,
    env: Seq<Map<Seq<char>, ExprV>>,
    dishes: Seq<DishV>,
    expected: EvaluatedAll,
) -> bool {
    &&& match expected.result {
        Ok(vs) => r is Ok && models(r->Ok_0@) == vs,
        Err(e) => r is Err && r->Err_0@ == e,
    }
    &&& env == expected.state.env
    &&& dishes == expected.state.dishes
}

/// Evaluates forms from left to right, as [`eval_forms_spec`] says.
pub fn eval_forms(
    arg_forms: &[Expression],
    env: &mut Environment,
    dishes: &mut DishStore,
    fuel: usize,
) -> (r: Result<Vec<Expression>, Error>)
    ensures
        evaluated_all_is(
            r,
            final(env)@,
            final(dishes)@,
            eval_forms_spec(
                models(arg_forms@),
                arg_forms@.len(),
                state_of(old(env)@, old(dishes)@),
                fuel as nat,
            ),
        ),
        r is Ok ==> r->Ok_0.len() == arg_forms@.len(),
    decreases fuel, arg_forms@, arg_forms@.len(),
{
    let ghost forms = models(arg_forms@);
    let ghost start = state_of(old(env)@, old(dishes)@);
    let mut out: Vec<Expression> = Vec::new();
    let mut i: usize = 0;
    assert(models(out@) =~= Seq::<ExprV>::empty());
    while i < arg_forms.len()
        invariant
            i <= arg_forms@.len(),
            forms == models(arg_forms@),
            start == state_of(old(env)@, old(dishes)@),
            out@.len() == i,
            eval_forms_spec(forms, i as nat, start, fuel as nat) == (EvaluatedAll {
                result: Ok(models(out@)),
                state: state_of(env@, dishes@),
            }),
        decreases arg_forms@.len() - i,
    {
        assert(forms[i as int] == arg_forms@[i as int]@);
        match eval_within(&arg_forms[i], env, dishes, fuel) {
            Err(e) => {
                proof {
                    lemma_eval_forms_error(
                        forms,
                        (i + 1) as nat,
                        arg_forms@.len(),
                        start,
                        fuel as nat,
                    );
                }
                return Err(e);
            },
            Ok(v) => {
                assert(models(out@.push(v)) =~= models(out@).push(v@));
                out.push(v);
            },
        }
        i = i + 1;
    }
    Ok(out)
}

/// The names of a list of parameters, as [`symbol_names`] says.
pub fn parse_list_of_symbol_strings(form: &Expression, dishes: &DishStore) -> (r: Result<
    Vec<String>,
    Error,
>)
    ensures
        match symbol_names(form@, dishes@) {
            Ok(names) => r is Ok && crate::text::texts(r->Ok_0@) == names,
            Err(e) => r is Err && r->Err_0@ == e,
        },
{
    let list = match form {
        Expression::List(s) => s,
        _ => {
            return Err(
                error_showing(
                    ErrorKind::Type,
                    "expected argument to be a list. got '",
                    form,
                    "'.",
                    dishes,
                ),
            );
        },
    };
    proof {
        lemma_list_model(form);
    }
    let ghost items = models(list@);
    let mut out: Vec<String> = Vec::new();
    let mut i: usize = 0;
    while i < list.len()
        invariant
            i <= list.len(),
            items == models(list@),
            form@ == ExprV::List(items),
            first_non_symbol(items, 0) == first_non_symbol(items, i as int),
            out@.len() == i,
            forall|j: int| 0 <= j < i ==> items[j] is Symbol && out@[j]@ == items[j]->Symbol_0,
        decreases list.len() - i,
    {
        assert(items[i as int] == list@[i as int]@);
        match &list[i] {
            Expression::Symbol(s) => {
                out.push(s.clone());
            },
            other => {
                return Err(
                    error_showing(ErrorKind::Type, "expected symbol. got '", other, "'.", dishes),
                );
            },
        }
        i = i + 1;
    }
    assert(crate::text::texts(out@) =~= Seq::new(items.len(), |i: int| items[i]->Symbol_0));
    Ok(out)
}

/// The names of the parameters of a call, checked against the number of
/// its arguments.
pub open spec fn parameter_names(params: ExprV, count: nat, dishes: Seq<DishV>) -> Result<
    Seq<Seq<char>>,
    ErrorV,
> {
    match symbol_names(params, dishes) {
        Err(e) => Err(e),
        Ok(names) => if names.len() != count {
            Err(lambda_arity(names.len(), count))
        } else {
            Ok(names)
        },
    }
}

/// Reads the names of the parameters of a call and checks that there are
/// as many as arguments.
fn check_parameters(params: &Expression, count: usize, dishes: &DishStore) -> (r: Result<
    Vec<String>,
    Error,
>)
    ensures
        match parameter_names(params@, count as nat, dishes@) {
            Ok(names) => r is Ok && crate::text::texts(r->Ok_0@) == names && r->Ok_0.len()
                == count,
            Err(e) => r is Err && r->Err_0@ == e,
        },
{
    let ks = match parse_list_of_symbol_strings(params, dishes) {
        Err(e) => {
            return Err(e);
        },
        Ok(ks) => ks,
    };
    if ks.len() != count {
        return Err(
            error_counting(ErrorKind::Arity, "expected ", ks.len(), " arguments. got ", count, "."),
        );
    }
    Ok(ks)
}

/// Enters a user function, as [`enter_lambda`] says: evaluates the
/// arguments and opens the scope of the call.
pub fn env_for_lambda(
    params: &Expression,
    arg_forms: &[Expression],
    env: &mut Environment,
    dishes: &mut DishStore,
    fuel: usize,
) -> (r: Result<(), Error>)
    ensures
        entered_is(
            r,
            final(env)@,
            final(dishes)@,
            enter_lambda(
                params@,
                models(arg_forms@),
                state_of(old(env)@, old(dishes)@),
                fuel as nat,
            ),
        ),
    decreases fuel, arg_forms@, arg_forms@.len() + 2,
{
    match check_parameters(params, arg_forms.len(), dishes) {
        Err(e) => Err(e),
        Ok(ks) => bind_forms(&ks, arg_forms, env, dishes, fuel),
    }
}

/// Evaluates the arguments of a call and opens its scope, as
/// [`bind_arguments`] says.
fn bind_forms(
    ks: &Vec<String>,
    arg_forms: &[Expression],
    env: &mut Environment,
    dishes: &mut DishStore,
    fuel: usize,
) -> (r: Result<(), Error>)
    requires
        ks.len() == arg_forms@.len(),
    ensures
        entered_is(
            r,
            final(env)@,
            final(dishes)@,
            bind_arguments(
                crate::text::texts(ks@),
                models(arg_forms@),
                state_of(old(env)@, old(dishes)@),
                fuel as nat,
            ),
        ),
    decreases fuel, arg_forms@, arg_forms@.len() + 1,
{
    match eval_forms(arg_forms, env, dishes, fuel) {
        Err(e) => Err(e),
        Ok(vs) => {
            env.push_bindings(ks, &vs);
            Ok(())
        },
    }
}

/// Whether entering a user function did what is expected of it.
pub open spec fn entered_is(
    r: Result<(), Error>,
    env: Seq<Map<Seq<char>, ExprV>>,
    dishes: Seq<DishV>,
    expected: EvaluatedAll,
) -> bool {
    &&& match expected.result {
        Ok(_) => r is Ok,
        Err(e) => r is Err && r->Err_0@ == e,
    }
    &&& env == expected.state.env
    &&& dishes == expected.state.dishes
}

/// Calls a user function, as [`lambda_call`] says.
pub fn call_lambda(
    f: &Lambda,
    arg_forms: &[Expression],
    env: &mut Environment,
    dishes: &mut DishStore,
    fuel: usize,
) -> (r: LispResult)
    ensures
        evaluated_is(
            r,
            final(env)@,
            final(dishes)@,
            lambda_call(
                f.params@,
                f.body@,
                models(arg_forms@),
                state_of(old(env)@, old(dishes)@),
                fuel as nat,
            ),
        ),
    decreases fuel, arg_forms@, arg_forms@.len() + 3,
{
    if fuel == 0 {
        return Err(Error::new(ErrorKind::Limit, "call depth limit reached."));
    }
    match env_for_lambda(&f.params, arg_forms, env, dishes, fuel) {
        Err(e) => {
            return Err(e);
        },
        Ok(()) => {},
    }
    let r = eval_within(&f.body, env, dishes, fuel - 1);
    env.pop_frame();
    r
}

/// Evaluates a list as a special form where it is one, as
/// [`special_form`] says; returns nothing, and changes nothing, where it
/// is none.
pub fn eval_builtin_form(
    expr: &Expression,
    arg_forms: &[Expression],
    env: &mut Environment,
    dishes: &mut DishStore,
    fuel: usize,
) -> (r: Option<LispResult>)
    ensures
        match special_form(
            expr@,
            models(arg_forms@),
            state_of(old(env)@, old(dishes)@),
            fuel as nat,
        ) {
            Some(done) => r is Some && evaluated_is(
                r->Some_0,
                final(env)@,
                final(dishes)@,
                done,
            ),
            None => r is None && final(env)@ == old(env)@ && final(dishes)@ == old(dishes)@,
        },
    decreases fuel, arg_forms@, 1nat,
{
    match expr {
        Expression::Symbol(s) => {
            let name = s.as_str();
            if same_text(name, "if") {
                Some(eval_if_args(arg_forms, env, dishes, fuel))
            } else if same_text(name, "def") {
                Some(eval_def_args(arg_forms, env, dishes, fuel))
            } else if same_text(name, "fn") {
                Some(eval_lambda_args(arg_forms))
            } else if same_text(name, "defn") {
                Some(eval_defn_args(arg_forms, env, dishes))
            } else if same_text(name, "quote") {
                Some(eval_quote_args(arg_forms))
            } else {
                None
            }
        },
        _ => None,
    }
}

/// Evaluates the arguments of `if`, as [`eval_if_spec`] says.
pub fn eval_if_args(
    exprs: &[Expression],
    env: &mut Environment,
    dishes: &mut DishStore,
    fuel: usize,
) -> (r: LispResult)
    ensures
        evaluated_is(
            r,
            final(env)@,
            final(dishes)@,
            eval_if_spec(models(exprs@), state_of(old(env)@, old(dishes)@), fuel as nat),
        ),
    decreases fuel, exprs@, 0nat,
{
    if exprs.len() == 0 {
        return Err(Error::new(ErrorKind::Arity, "expected test expression. got nothing."));
    }
    if exprs.len() < 3 {
        let number = crate::text::format_decimal(exprs.len());
        return Err(
            Error {
                kind: ErrorKind::Arity,
                message: join3("expected branch. got '", number.as_str(), "'."),
            },
        );
    }
    if exprs.len() > 3 {
        return Err(
            Error::new(ErrorKind::Arity, "if expression must only have a test and two branches."),
        );
    }
    let test_form = &exprs[0];
    assert(models(exprs@)[0] == exprs@[0]@);
    assert(models(exprs@)[1] == exprs@[1]@);
    assert(models(exprs@)[2] == exprs@[2]@);
    let test_eval = match eval_within(test_form, env, dishes, fuel) {
        Err(e) => {
            return Err(e);
        },
        Ok(v) => v,
    };
    match test_eval {
        Expression::Bool(b) => {
            if b {
                eval_within(&exprs[1], env, dishes, fuel)
            } else {
                eval_within(&exprs[2], env, dishes, fuel)
            }
        },
        _ => Err(
            error_showing(
                ErrorKind::Type,
                "expected boolean expression. got '",
                test_form,
                "'.",
                dishes,
            ),
        ),
    }
}

/// Evaluates the arguments of `def`, as [`eval_def_spec`] says.
pub fn eval_def_args(
    exprs: &[Expression],
    env: &mut Environment,
    dishes: &mut DishStore,
    fuel: usize,
) -> (r: LispResult)
    ensures
        evaluated_is(
            r,
            final(env)@,
            final(dishes)@,
            eval_def_spec(models(exprs@), state_of(old(env)@, old(dishes)@), fuel as nat),
        ),
    decreases fuel, exprs@, 0nat,
{
    if exprs.len() == 0 {
        return Err(Error::new(ErrorKind::Arity, "expected symbol name. got nothing."));
    }
    if exprs.len() == 1 {
        return Err(Error::new(ErrorKind::Arity, "expected expression. got nothing."));
    }
    if exprs.len() > 2 {
        return Err(
            Error::new(
                ErrorKind::Arity,
                "define expression must only have a symbol and an expression.",
            ),
        );
    }
    let first_form = &exprs[0];
    assert(models(exprs@)[0] == exprs@[0]@);
    let first_str = match first_form {
        Expression::Symbol(s) => s,
        other => {
            return Err(
                error_showing(ErrorKind::Type, "expected symbol. got '", other, "'.", dishes),
            );
        },
    };
    assert(models(exprs@)[1] == exprs@[1]@);
    let second_eval = match eval_within(&exprs[1], env, dishes, fuel) {
        Err(e) => {
            return Err(e);
        },
        Ok(v) => v,
    };
    env.define(first_str.as_str(), second_eval);
    Ok(first_form.copy())
}

/// Makes the user function of `fn`, as [`lambda_of`] says.
pub fn eval_lambda_args(arg_forms: &[Expression]) -> (r: LispResult)
    ensures
        match lambda_of(models(arg_forms@)) {
            Ok(v) => r is Ok && r->Ok_0@ == v,
            Err(e) => r is Err && r->Err_0@ == e,
        },
{
    if arg_forms.len() == 0 {
        return Err(Error::new(ErrorKind::Arity, "expected parameters. got nothing."));
    }
    if arg_forms.len() == 1 {
        return Err(Error::new(ErrorKind::Arity, "expected function body. got nothing."));
    }
    if arg_forms.len() > 2 {
        return Err(
            Error::new(
                ErrorKind::Arity,
                "function definition must only have an argument list and a body.",
            ),
        );
    }
    assert(models(arg_forms@)[0] == arg_forms@[0]@);
    assert(models(arg_forms@)[1] == arg_forms@[1]@);
    Ok(
        Expression::Lambda(
            Lambda {
                params: Box::new(arg_forms[0].copy()),
                body: Box::new(arg_forms[1].copy()),
            },
        ),
    )
}

/// Defines the user function of `defn`, as [`eval_defn_spec`] says.
pub fn eval_defn_args(exprs: &[Expression], env: &mut Environment, dishes: &DishStore) -> (r:
    LispResult)
    ensures
        evaluated_is(
            r,
            final(env)@,
            dishes@,
            eval_defn_spec(models(exprs@), state_of(old(env)@, dishes@)),
        ),
{
    if exprs.len() == 0 {
        return Err(Error::new(ErrorKind::Arity, "expected symbol name. got nothing."));
    }
    if exprs.len() == 1 {
        return Err(Error::new(ErrorKind::Arity, "expected argument list"));
    }
    if exprs.len() == 2 {
        return Err(Error::new(ErrorKind::Arity, "expected function body"));
    }
    if exprs.len() > 3 {
        return Err(
            Error::new(
                ErrorKind::Arity,
                "function definition must only have a name, an argument list and a body.",
            ),
        );
    }
    let first_form = &exprs[0];
    assert(models(exprs@)[0] == exprs@[0]@);
    let name = match first_form {
        Expression::Symbol(s) => s,
        other => {
            return Err(
                error_showing(ErrorKind::Type, "expected symbol. got '", other, "'.", dishes),
            );
        },
    };
    assert(models(exprs@)[1] == exprs@[1]@);
    assert(models(exprs@)[2] == exprs@[2]@);
    env.define(
        name.as_str(),
        Expression::Lambda(
            Lambda { params: Box::new(exprs[1].copy()), body: Box::new(exprs[2].copy()) },
        ),
    );
    Ok(first_form.copy())
}

/// Returns the argument of `quote`, as [`quote_of`] says.
pub fn eval_quote_args(exprs: &[Expression]) -> (r: LispResult)
    ensures
        match quote_of(models(exprs@)) {
            Ok(v) => r is Ok && r->Ok_0@ == v,
            Err(e) => r is Err && r->Err_0@ == e,
        },
{
    if exprs.len() != 1 {
        let number = crate::text::format_decimal(exprs.len());
        return Err(
            Error {
                kind: ErrorKind::Arity,
                message: join3("expected exactly 1 argument. got ", number.as_str(), "."),
            },
        );
    }
    assert(models(exprs@)[0] == exprs@[0]@);
    Ok(exprs[0].copy())
}

} // verus!
