//! What holds of the language, whatever the program: laws about arity,
//! about the equality of dishes, and about reading what was shown.

use vstd::prelude::*;
use crate::lisp::equal;
use crate::lisp::eval::bind_arguments;
use crate::lisp::eval::enter_lambda;
use crate::lisp::eval::eval_def_spec;
use crate::lisp::eval::eval_forms_spec;
use crate::lisp::eval::eval_if_spec;
use crate::lisp::eval::eval_spec;
use crate::lisp::eval::first_non_symbol;
use crate::lisp::eval::lambda_call;
use crate::lisp::eval::parameter_names;
use crate::lisp::eval::special_form;
use crate::lisp::eval::symbol_names;
use crate::lisp::eval::Evaluated;
use crate::lisp::eval::StateV;
use crate::lisp::functions::bound_arguments;
use crate::lisp::functions::bound_table;
use crate::lisp::functions::call;
use crate::lisp::functions::Called;
use crate::lisp::ErrorKind;
use crate::lisp::ErrorV;
use crate::lisp::ExprV;
use crate::lisp::FunctionV;
use crate::DishDataV;
use crate::DishV;
use crate::Operation;
use crate::OperationArgType;
use crate::OperationArgV;
use crate::OperationInfoV;

verus! {

/// The list `(name args...)`.
pub open spec fn form(name: Seq<char>, args: Seq<ExprV>) -> ExprV {
    ExprV::List(seq![ExprV::Symbol(name)] + args)
}

/// Whether an evaluation failed for a wrong number of arguments, and left
/// the state as it was.
pub open spec fn is_arity_failure(done: Evaluated, st: StateV) -> bool {
    &&& done.result is Err
    &&& done.result->Err_0.kind == ErrorKind::Arity
    &&& done.state == st
}

/// The names of the special forms are five different names.
pub proof fn lemma_special_names()
    ensures
        "if"@ != "def"@,
        "if"@ != "fn"@,
        "if"@ != "defn"@,
        "if"@ != "quote"@,
        "def"@ != "fn"@,
        "def"@ != "defn"@,
        "def"@ != "quote"@,
        "fn"@ != "defn"@,
        "fn"@ != "quote"@,
        "defn"@ != "quote"@,
{
    reveal_strlit("if");
    reveal_strlit("def");
    reveal_strlit("fn");
    reveal_strlit("defn");
    reveal_strlit("quote");
    assert("if"@[0] != "fn"@[0]);
    assert("if"@.len() == 2 && "fn"@.len() == 2);
    assert("def"@.len() == 3);
    assert("defn"@.len() == 4);
    assert("quote"@.len() == 5);
}

/// A list that starts with the name of a special form is evaluated as
/// that form, with the rest of the list as its arguments.
pub proof fn lemma_form_is_special(name: Seq<char>, args: Seq<ExprV>, st: StateV, fuel: nat)
    requires
        name == "if"@ || name == "def"@ || name == "fn"@ || name == "defn"@ || name == "quote"@,
    ensures
        special_form(ExprV::Symbol(name), args, st, fuel) is Some,
        eval_spec(form(name, args), st, fuel) == special_form(
            ExprV::Symbol(name),
            args,
            st,
            fuel,
        )->Some_0,
{
    let items = seq![ExprV::Symbol(name)] + args;
    assert(items.skip(1) =~= args);
    assert(items[0] == ExprV::Symbol(name));
}

/// `quote` with no argument, or with more than one, is an arity error.
pub proof fn lemma_quote_arity(args: Seq<ExprV>, st: StateV, fuel: nat)
    requires
        args.len() != 1,
    ensures
        is_arity_failure(eval_spec(form("quote"@, args), st, fuel), st),
{
    lemma_special_names();
    lemma_form_is_special("quote"@, args, st, fuel);
}

/// `fn` with fewer or more than two arguments is an arity error.
pub proof fn lemma_fn_arity(args: Seq<ExprV>, st: StateV, fuel: nat)
    requires
        args.len() != 2,
    ensures
        is_arity_failure(eval_spec(form("fn"@, args), st, fuel), st),
{
    lemma_special_names();
    lemma_form_is_special("fn"@, args, st, fuel);
}

/// `def` with fewer or more than two arguments is an arity error,
/// whatever the arguments are.
pub proof fn lemma_def_arity(args: Seq<ExprV>, st: StateV, fuel: nat)
    requires
        args.len() != 2,
    ensures
        is_arity_failure(eval_spec(form("def"@, args), st, fuel), st),
{
    lemma_special_names();
    lemma_form_is_special("def"@, args, st, fuel);
}

/// `defn` with fewer or more than three arguments is an arity error,
/// whatever the arguments are, and binds nothing.
pub proof fn lemma_defn_arity(args: Seq<ExprV>, st: StateV, fuel: nat)
    requires
        args.len() != 3,
    ensures
        is_arity_failure(eval_spec(form("defn"@, args), st, fuel), st),
{
    lemma_special_names();
    lemma_form_is_special("defn"@, args, st, fuel);
}

/// `if` with fewer or more than three arguments is an arity error, and
/// evaluates none of them.
pub proof fn lemma_if_arity(args: Seq<ExprV>, st: StateV, fuel: nat)
    requires
        args.len() != 3,
    ensures
        is_arity_failure(eval_spec(form("if"@, args), st, fuel), st),
{
    lemma_special_names();
    lemma_form_is_special("if"@, args, st, fuel);
    assert(eval_spec(form("if"@, args), st, fuel) == eval_if_spec(args, st, fuel));
}

/// A call of a user function with fewer or more arguments than it has
/// parameters is an arity error, and none of the arguments is evaluated.
pub proof fn lemma_lambda_arity(
    params: Seq<ExprV>,
    body: ExprV,
    args: Seq<ExprV>,
    st: StateV,
    fuel: nat,
)
    requires
        fuel > 0,
        first_non_symbol(params, 0) >= params.len(),
        args.len() != params.len(),
    ensures
        is_arity_failure(lambda_call(ExprV::List(params), body, args, st, fuel), st),
{
    let names = symbol_names(ExprV::List(params), st.dishes);
    assert(names is Ok);
    assert(names->Ok_0.len() == params.len());
    assert(parameter_names(ExprV::List(params), args.len(), st.dishes) is Err);
    assert(enter_lambda(ExprV::List(params), args, st, fuel).result is Err);
}

/// How many arguments a call of an operation by its name takes: the dish
/// where it declares none, else as many as it declares.
pub open spec fn operation_arity(info: OperationInfoV) -> nat {
    if info.arguments.len() == 0 {
        1
    } else {
        info.arguments.len()
    }
}

/// Whether a call failed for a wrong number of arguments, and left the
/// dishes as they were.
pub open spec fn is_arity_refusal(called: Called, dishes: Seq<DishV>) -> bool {
    &&& called.result is Err
    &&& called.result->Err_0.kind == ErrorKind::Arity
    &&& called.dishes == dishes
}

/// A call of an operation with fewer or more arguments than it takes is
/// an arity error, and no dish is touched.
pub proof fn lemma_operation_arity(info: OperationInfoV, args: Seq<ExprV>, dishes: Seq<DishV>)
    requires
        args.len() != operation_arity(info),
    ensures
        is_arity_refusal(call(FunctionV::Operation(info), args, dishes), dishes),
{
}

/// An operation that has its arguments takes exactly one more, the dish:
/// a call with none, or with more, is an arity error, and no dish is
/// touched.
pub proof fn lemma_bound_operation_arity(
    op: Operation,
    table: Option<Map<Seq<char>, OperationArgV>>,
    args: Seq<ExprV>,
    dishes: Seq<DishV>,
)
    requires
        args.len() != 1,
    ensures
        is_arity_refusal(call(FunctionV::Bound(op, table), args, dishes), dishes),
{
}

/// Two pieces of data are equal exactly when they are of the same kind and
/// hold the same characters, or the same bytes, each in its place.
pub proof fn lemma_data_equality(x: DishDataV, y: DishDataV)
    ensures
        x == y <==> (match (x, y) {
            (DishDataV::Str(a), DishDataV::Str(b)) => a.len() == b.len() && forall|i: int|
                0 <= i < a.len() ==> a[i] == b[i],
            (DishDataV::Bin(a), DishDataV::Bin(b)) => a.len() == b.len() && forall|i: int|
                0 <= i < a.len() ==> a[i] == b[i],
            _ => false,
        }),
{
    match (x, y) {
        (DishDataV::Str(a), DishDataV::Str(b)) => {
            if a.len() == b.len() && (forall|i: int| 0 <= i < a.len() ==> a[i] == b[i]) {
                assert(a =~= b);
            }
        },
        (DishDataV::Bin(a), DishDataV::Bin(b)) => {
            if a.len() == b.len() && (forall|i: int| 0 <= i < a.len() ==> a[i] == b[i]) {
                assert(a =~= b);
            }
        },
        _ => {},
    }
}

/// Two dishes are equal exactly when both are successes with equal data. A
/// failure equals nothing: no success, no other failure, not itself.
pub proof fn lemma_dish_equality(a: nat, b: nat, dishes: Seq<DishV>)
    requires
        a < dishes.len(),
        b < dishes.len(),
    ensures
        equal(ExprV::Dish(a), ExprV::Dish(b), dishes) <==> (dishes[a as int] is Success
            && dishes[b as int] is Success && dishes[a as int]->Success_0
            == dishes[b as int]->Success_0),
        dishes[a as int] is Failure || dishes[b as int] is Failure ==> !equal(
            ExprV::Dish(a),
            ExprV::Dish(b),
            dishes,
        ),
{
}


/// Whether two chains of scopes are as long as each other and differ at
/// most in the innermost scope.
pub open spec fn same_outer(
    before: Seq<Map<Seq<char>, ExprV>>,
    after: Seq<Map<Seq<char>, ExprV>>,
) -> bool {
    &&& after.len() == before.len()
    &&& forall|i: int| 0 <= i < before.len() - 1 ==> after[i] == before[i]
}

/// An evaluation opens no scope that it does not close, and changes no
/// scope but the innermost: what a user function defines is gone when its
/// call returns, and no scope around a definition sees it.
pub proof fn lemma_eval_scopes(e: ExprV, st: StateV, fuel: nat)
    requires
        st.env.len() > 0,
    ensures
        same_outer(st.env, eval_spec(e, st, fuel).state.env),
    decreases fuel, e, 0nat,
{
    match e {
        ExprV::List(items) => {
            if items.len() > 0 {
                let args = items.skip(1);
                lemma_special_scopes(items[0], args, st, fuel);
                if special_form(items[0], args, st, fuel) is None {
                    lemma_eval_scopes(items[0], st, fuel);
                    let head = eval_spec(items[0], st, fuel);
                    match head.result {
                        Ok(ExprV::Func(f)) => {
                            lemma_forms_scopes(args, args.len(), head.state, fuel);
                        },
                        Ok(ExprV::Lambda(params, body)) => {
                            lemma_lambda_scopes(*params, *body, args, head.state, fuel);
                        },
                        _ => {},
                    }
                }
            }
        },
        _ => {},
    }
}

/// The evaluation of several forms changes no scope but the innermost.
pub proof fn lemma_forms_scopes(forms: Seq<ExprV>, n: nat, st: StateV, fuel: nat)
    requires
        st.env.len() > 0,
    ensures
        same_outer(st.env, eval_forms_spec(forms, n, st, fuel).state.env),
    decreases fuel, forms, n,
{
    if n == 0 || n > forms.len() {
    } else {
        lemma_forms_scopes(forms, (n - 1) as nat, st, fuel);
        let before = eval_forms_spec(forms, (n - 1) as nat, st, fuel);
        if before.result is Ok {
            lemma_eval_scopes(forms[n - 1], before.state, fuel);
        }
    }
}

/// A special form changes no scope but the innermost.
pub proof fn lemma_special_scopes(head: ExprV, args: Seq<ExprV>, st: StateV, fuel: nat)
    requires
        st.env.len() > 0,
    ensures
        special_form(head, args, st, fuel) is Some ==> same_outer(
            st.env,
            special_form(head, args, st, fuel)->Some_0.state.env,
        ),
    decreases fuel, args, 1nat,
{
    match head {
        ExprV::Symbol(name) => {
            if name == "if"@ {
                lemma_if_scopes(args, st, fuel);
            } else if name == "def"@ {
                lemma_def_scopes(args, st, fuel);
            } else if name == "fn"@ {
            } else if name == "defn"@ {
            } else if name == "quote"@ {
            }
        },
        _ => {},
    }
}

/// `if` changes no scope but the innermost.
pub proof fn lemma_if_scopes(args: Seq<ExprV>, st: StateV, fuel: nat)
    requires
        st.env.len() > 0,
    ensures
        same_outer(st.env, eval_if_spec(args, st, fuel).state.env),
    decreases fuel, args, 0nat,
{
    if args.len() == 3 {
        lemma_eval_scopes(args[0], st, fuel);
        let test = eval_spec(args[0], st, fuel);
        match test.result {
            Ok(ExprV::Bool(b)) => {
                if b {
                    lemma_eval_scopes(args[1], test.state, fuel);
                } else {
                    lemma_eval_scopes(args[2], test.state, fuel);
                }
            },
            _ => {},
        }
    }
}

/// `def` changes no scope but the innermost.
pub proof fn lemma_def_scopes(args: Seq<ExprV>, st: StateV, fuel: nat)
    requires
        st.env.len() > 0,
    ensures
        same_outer(st.env, eval_def_spec(args, st, fuel).state.env),
    decreases fuel, args, 0nat,
{
    if args.len() == 2 && args[0] is Symbol {
        lemma_eval_scopes(args[1], st, fuel);
    }
}

/// The call of a user function changes no scope but the innermost, and
/// leaves as many scopes as it found.
pub proof fn lemma_lambda_scopes(
    params: ExprV,
    body: ExprV,
    args: Seq<ExprV>,
    st: StateV,
    fuel: nat,
)
    requires
        st.env.len() > 0,
    ensures
        same_outer(st.env, lambda_call(params, body, args, st, fuel).state.env),
    decreases fuel, args, args.len() + 3,
{
    if fuel > 0 {
        let entered = enter_lambda(params, args, st, fuel);
        match parameter_names(params, args.len(), st.dishes) {
            Err(_) => {},
            Ok(names) => {
                lemma_forms_scopes(args, args.len(), st, fuel);
                assert(entered == bind_arguments(names, args, st, fuel));
                if entered.result is Ok {
                    let outer = eval_forms_spec(args, args.len(), st, fuel).state.env;
                    assert(entered.state.env.len() == outer.len() + 1);
                    lemma_eval_scopes(body, entered.state, (fuel - 1) as nat);
                    let done = eval_spec(body, entered.state, (fuel - 1) as nat);
                    let after = crate::lisp::popped(done.state.env);
                    assert(after.len() == outer.len());
                    assert forall|i: int| 0 <= i < st.env.len() - 1 implies after[i]
                        == st.env[i] by {
                        assert(after[i] == done.state.env[i]);
                        assert(done.state.env[i] == entered.state.env[i]);
                        assert(entered.state.env[i] == outer[i]);
                    }
                }
            },
        }
    }
}

/// What the call of a user function leaves of the scopes is what the
/// evaluation of its arguments left: the scope of the call is gone, and
/// with it all that the body defined.
pub proof fn lemma_lambda_closes_its_scope(
    params: ExprV,
    body: ExprV,
    args: Seq<ExprV>,
    st: StateV,
    fuel: nat,
)
    requires
        fuel > 0,
        enter_lambda(params, args, st, fuel).result is Ok,
    ensures
        lambda_call(params, body, args, st, fuel).state.env == eval_forms_spec(
            args,
            args.len(),
            st,
            fuel,
        ).state.env,
{
    let entered = enter_lambda(params, args, st, fuel);
    let outer = eval_forms_spec(args, args.len(), st, fuel).state.env;
    match parameter_names(params, args.len(), st.dishes) {
        Err(_) => {},
        Ok(names) => {
            assert(entered == bind_arguments(names, args, st, fuel));
            lemma_eval_scopes(body, entered.state, (fuel - 1) as nat);
            let done = eval_spec(body, entered.state, (fuel - 1) as nat);
            let after = crate::lisp::popped(done.state.env);
            assert(after =~= outer) by {
                assert forall|i: int| 0 <= i < outer.len() implies after[i] == outer[i] by {
                    assert(after[i] == done.state.env[i]);
                    assert(done.state.env[i] == entered.state.env[i]);
                }
            }
        },
    }
}


/// Whether the value of an argument is of the declared kind.
pub open spec fn has_kind(v: OperationArgV, typ: OperationArgType) -> bool {
    match typ {
        OperationArgType::Integer => v is Integer,
        OperationArgType::String => v is String,
    }
}

/// Whether `i` is the last declaration of its name among the first `n`.
pub open spec fn is_last_of_name(
    declared: Seq<(Seq<char>, OperationArgType)>,
    i: int,
    n: nat,
) -> bool {
    forall|j: int| i < j < n ==> declared[j].0 != declared[i].0
}

/// The table of the first `n` arguments holds each of them, with a value of
/// the kind that the last declaration of its name declares.
pub proof fn lemma_bound_table_complete(
    declared: Seq<(Seq<char>, OperationArgType)>,
    args: Seq<ExprV>,
    n: nat,
    dishes: Seq<DishV>,
)
    requires
        n <= declared.len(),
        n <= args.len(),
        bound_table(declared, args, n, dishes) is Ok,
    ensures
        forall|i: int|
            0 <= i < n ==> bound_table(declared, args, n, dishes)->Ok_0.contains_key(
                #[trigger] declared[i].0,
            ),
        forall|i: int|
            0 <= i < n && is_last_of_name(declared, i, n) ==> has_kind(
                bound_table(declared, args, n, dishes)->Ok_0[#[trigger] declared[i].0],
                declared[i].1,
            ),
    decreases n,
{
    if n > 0 {
        lemma_bound_table_complete(declared, args, (n - 1) as nat, dishes);
        let before = bound_table(declared, args, (n - 1) as nat, dishes)->Ok_0;
        let after = bound_table(declared, args, n, dishes)->Ok_0;
        assert forall|i: int| 0 <= i < n && is_last_of_name(declared, i, n) implies has_kind(
            after[#[trigger] declared[i].0],
            declared[i].1,
        ) by {
            if i < n - 1 {
                assert(declared[n - 1].0 != declared[i].0);
                assert(is_last_of_name(declared, i, (n - 1) as nat));
                assert(after[declared[i].0] == before[declared[i].0]);
            }
        }
    }
}

/// The arguments that an operation is handed are valid: where the check of
/// a call succeeds, every declared argument is in the table, and has a
/// value of its declared kind.
pub proof fn lemma_bound_arguments_valid(info: OperationInfoV, args: Seq<ExprV>, dishes: Seq<DishV>)
    requires
        bound_arguments(info, args, dishes) is Ok,
    ensures
        args.len() == info.arguments.len(),
        forall|i: int|
            0 <= i < info.arguments.len() ==> bound_arguments(
                info,
                args,
                dishes,
            )->Ok_0.contains_key(#[trigger] info.arguments[i].0),
        forall|i: int|
            0 <= i < info.arguments.len() && is_last_of_name(
                info.arguments,
                i,
                info.arguments.len(),
            ) ==> has_kind(
                bound_arguments(info, args, dishes)->Ok_0[#[trigger] info.arguments[i].0],
                info.arguments[i].1,
            ),
{
    lemma_bound_table_complete(info.arguments, args, args.len(), dishes);
}


/// Whether a result is the error of calls that nest too deep.
pub open spec fn is_limit<T>(r: Result<T, ErrorV>) -> bool {
    r is Err && r->Err_0.kind == ErrorKind::Limit
}

/// The limit on the depth of calls changes nothing but where it is
/// reached: an evaluation that ends without the error of the limit gives
/// the same value, and leaves the same state, under every higher limit.
pub proof fn lemma_eval_limit(e: ExprV, st: StateV, fuel: nat, more: nat)
    requires
        fuel <= more,
        !is_limit(eval_spec(e, st, fuel).result),
    ensures
        eval_spec(e, st, more) == eval_spec(e, st, fuel),
    decreases fuel, e, 0nat,
{
    match e {
        ExprV::List(items) => {
            if items.len() > 0 {
                let args = items.skip(1);
                lemma_special_limit(items[0], args, st, fuel, more);
                if special_form(items[0], args, st, fuel) is None {
                    let head = eval_spec(items[0], st, fuel);
                    lemma_eval_limit(items[0], st, fuel, more);
                    match head.result {
                        Ok(ExprV::Func(f)) => {
                            lemma_forms_limit(args, args.len(), head.state, fuel, more);
                        },
                        Ok(ExprV::Lambda(params, body)) => {
                            lemma_lambda_limit(*params, *body, args, head.state, fuel, more);
                        },
                        _ => {},
                    }
                }
            }
        },
        _ => {},
    }
}

/// The evaluation of several forms, under a higher limit.
pub proof fn lemma_forms_limit(forms: Seq<ExprV>, n: nat, st: StateV, fuel: nat, more: nat)
    requires
        fuel <= more,
        !is_limit(eval_forms_spec(forms, n, st, fuel).result),
    ensures
        eval_forms_spec(forms, n, st, more) == eval_forms_spec(forms, n, st, fuel),
    decreases fuel, forms, n,
{
    if n == 0 || n > forms.len() {
    } else {
        let before = eval_forms_spec(forms, (n - 1) as nat, st, fuel);
        lemma_forms_limit(forms, (n - 1) as nat, st, fuel, more);
        if before.result is Ok {
            lemma_eval_limit(forms[n - 1], before.state, fuel, more);
        }
    }
}

/// A special form, under a higher limit.
pub proof fn lemma_special_limit(head: ExprV, args: Seq<ExprV>, st: StateV, fuel: nat, more: nat)
    requires
        fuel <= more,
        special_form(head, args, st, fuel) is Some ==> !is_limit(
            special_form(head, args, st, fuel)->Some_0.result,
        ),
    ensures
        special_form(head, args, st, more) == special_form(head, args, st, fuel),
    decreases fuel, args, 1nat,
{
    match head {
        ExprV::Symbol(name) => {
            if name == "if"@ {
                lemma_if_limit(args, st, fuel, more);
            } else if name == "def"@ {
                lemma_def_limit(args, st, fuel, more);
            }
        },
        _ => {},
    }
}

/// `if`, under a higher limit.
pub proof fn lemma_if_limit(args: Seq<ExprV>, st: StateV, fuel: nat, more: nat)
    requires
        fuel <= more,
        !is_limit(eval_if_spec(args, st, fuel).result),
    ensures
        eval_if_spec(args, st, more) == eval_if_spec(args, st, fuel),
    decreases fuel, args, 0nat,
{
    if args.len() == 3 {
        let test = eval_spec(args[0], st, fuel);
        lemma_eval_limit(args[0], st, fuel, more);
        match test.result {
            Ok(ExprV::Bool(b)) => {
                if b {
                    lemma_eval_limit(args[1], test.state, fuel, more);
                } else {
                    lemma_eval_limit(args[2], test.state, fuel, more);
                }
            },
            _ => {},
        }
    }
}

/// `def`, under a higher limit.
pub proof fn lemma_def_limit(args: Seq<ExprV>, st: StateV, fuel: nat, more: nat)
    requires
        fuel <= more,
        !is_limit(eval_def_spec(args, st, fuel).result),
    ensures
        eval_def_spec(args, st, more) == eval_def_spec(args, st, fuel),
    decreases fuel, args, 0nat,
{
    if args.len() == 2 && args[0] is Symbol {
        lemma_eval_limit(args[1], st, fuel, more);
    }
}

/// The call of a user function, under a higher limit.
pub proof fn lemma_lambda_limit(
    params: ExprV,
    body: ExprV,
    args: Seq<ExprV>,
    st: StateV,
    fuel: nat,
    more: nat,
)
    requires
        fuel <= more,
        !is_limit(lambda_call(params, body, args, st, fuel).result),
    ensures
        lambda_call(params, body, args, st, more) == lambda_call(params, body, args, st, fuel),
    decreases fuel, args, args.len() + 3,
{
    if fuel > 0 {
        match parameter_names(params, args.len(), st.dishes) {
            Err(_) => {},
            Ok(names) => {
                let entered = enter_lambda(params, args, st, fuel);
                assert(entered == bind_arguments(names, args, st, fuel));
                assert(enter_lambda(params, args, st, more) == bind_arguments(
                    names,
                    args,
                    st,
                    more,
                ));
                lemma_forms_limit(args, args.len(), st, fuel, more);
                if entered.result is Ok {
                    lemma_eval_limit(body, entered.state, (fuel - 1) as nat, (more - 1) as nat);
                }
            },
        }
    }
}

} // verus!
