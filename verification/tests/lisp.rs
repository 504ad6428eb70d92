use codebake::lisp::eval::{eval, eval_within, CALL_DEPTH};
use codebake::lisp::functions::{
    call_function, embed_operation, print_line, slurp_dish, slurp_path, spit_request,
};
use codebake::lisp::parser::{
    is_symbol_fchar, is_symbol_rchar, parse, parse_atom, read_seq, tokenize,
};
use codebake::lisp::{
    check_parens, default_env, parse_eval, DishStore, Environment, Error, ErrorKind, Expression,
    Function, Reader,
};
use codebake::number::Number;
use codebake::{Dish, DishData, DishError, Operation, OperationArguments};

struct Session {
    reader: Reader,
    env: Environment,
    dishes: DishStore,
}

fn session() -> Session {
    let reader = Reader::new();
    let mut dishes = DishStore::new();
    let env = default_env(&reader, &mut dishes);
    Session { reader, env, dishes }
}

fn run(s: &mut Session, text: &str) -> Result<Expression, Error> {
    parse_eval(&s.reader, &mut s.env, &mut s.dishes, &text.to_string())
}

fn shown(s: &mut Session, text: &str) -> String {
    match run(s, text) {
        Ok(e) => e.to_text(&s.dishes),
        Err(e) => panic!("{:?} failed: {}", text, e.to_text()),
    }
}

fn failure(s: &mut Session, text: &str) -> (ErrorKind, String) {
    match run(s, text) {
        Ok(e) => panic!("{:?} gave {}", text, e.to_text(&s.dishes)),
        Err(e) => (e.kind, e.message),
    }
}

fn read(text: &str) -> Result<String, (ErrorKind, String)> {
    let mut dishes = DishStore::new();
    match Reader::new().parse(&text.to_string(), &mut dishes) {
        Ok(e) => Ok(e.to_text(&dishes)),
        Err(e) => Err((e.kind, e.message)),
    }
}

fn number(text: &str) -> Expression {
    Expression::Number(Number::read(text).unwrap())
}

#[test]
fn test_symbol_eq() {
    let dishes = DishStore::new();
    let lhs = Expression::Symbol("dungus".to_owned());
    let rhs = Expression::Symbol("dungus".to_owned());

    assert!(lhs.equals(&rhs, &dishes));

    let rhs = Expression::Symbol("dornkler".to_owned());
    assert!(!lhs.equals(&rhs, &dishes));
}

#[test]
fn test_string_eq() {
    let dishes = DishStore::new();
    let lhs = Expression::String("stork".to_owned());
    let rhs = Expression::String("stork".to_owned());
    assert!(lhs.equals(&rhs, &dishes));

    let rhs = Expression::String("porlep".to_owned());
    assert!(!lhs.equals(&rhs, &dishes));
}

#[test]
fn test_number_eq() {
    let dishes = DishStore::new();
    let lhs = Expression::Number(Number::from_i64(12));
    let rhs = Expression::Number(Number::from_i64(12));
    assert!(lhs.equals(&rhs, &dishes));

    let rhs = Expression::Number(Number::from_i64(47));
    assert!(!lhs.equals(&rhs, &dishes));
}

#[test]
fn test_bool_eq() {
    let dishes = DishStore::new();
    let lhs = Expression::Bool(true);
    let rhs = Expression::Bool(true);
    assert!(lhs.equals(&rhs, &dishes));

    let rhs = Expression::Bool(false);
    assert!(!lhs.equals(&rhs, &dishes));
}

#[test]
fn test_dish_eq() {
    let mut dishes = DishStore::new();
    let lhs = Expression::Dish(dishes.insert(Dish::from_string("lorgol".to_owned())));
    let rhs = Expression::Dish(dishes.insert(Dish::from_string("lorgol".to_owned())));
    assert!(lhs.equals(&rhs, &dishes));

    let rhs = Expression::Dish(dishes.insert(Dish::from_string("shumgobbler".to_owned())));
    assert!(!lhs.equals(&rhs, &dishes));
}

#[test]
fn test_reader_string() {
    let reader = Reader::new();
    let mut dishes = DishStore::new();
    let expr1 = "\"string\"".to_string();
    let _exp1 = Expression::String("string".to_string());
    let expr2 = "\"this is a\tlong string\nmany spaces\"".to_string();
    let _exp2 = Expression::String("this is a\tlong string\nmany spaces".to_string());

    assert!(matches!(reader.parse(&expr1, &mut dishes), Ok(_exp1)));
    assert!(matches!(reader.parse(&expr2, &mut dishes), Ok(_exp2)));
}

#[test]
fn test_reader_number() {
    let reader = Reader::new();
    let mut dishes = DishStore::new();
    let expr1 = "-12".to_string();
    let _exp1 = number("-12");
    let expr2 = "-3.14159".to_string();
    let _exp2 = number("-3.14159");
    let expr3 = "300.14159".to_string();
    let _exp3 = number("300.14159");

    assert!(matches!(reader.parse(&expr1, &mut dishes), Ok(_exp1)));
    assert!(matches!(reader.parse(&expr2, &mut dishes), Ok(_exp2)));
    assert!(matches!(reader.parse(&expr3, &mut dishes), Ok(_exp3)));
}

#[test]
fn test_reader_list() {
    let reader = Reader::new();
    let mut dishes = DishStore::new();
    let expr1 = "(+ 2 3)".to_string();
    let _exp1 = number("5");
    let expr2 = "(def a (- 112.4 12.2))".to_string();
    let _exp2 = Expression::Symbol("a".to_string());

    assert!(matches!(reader.parse(&expr1, &mut dishes), Ok(_exp1)));
    assert!(matches!(reader.parse(&expr2, &mut dishes), Ok(_exp2)));
}

#[test]
fn test_reader_quote() {
    let reader = Reader::new();
    let mut dishes = DishStore::new();
    let expr1 = "'(1 2 3)".to_string();
    let _exp1 = Expression::List(vec![
        Expression::Symbol("quote".to_string()),
        Expression::List(vec![number("1"), number("2"), number("3")]),
    ]);
    let expr2 = "(apply + '(3 4 5))".to_string();
    let _exp2 = number("12");

    assert!(matches!(reader.parse(&expr1, &mut dishes), Ok(_exp1)));
    assert!(matches!(reader.parse(&expr2, &mut dishes), Ok(_exp2)));
}

#[test]
fn test_reader_dish_literal() {
    let reader = Reader::new();
    let mut dishes = DishStore::new();
    let mut other = DishStore::new();
    let expr1 = "d\"hello world\"".to_string();
    let _exp1 = Expression::Dish(other.insert(Dish::from_string("hello world".to_string())));
    let expr2 = "d[24 25 26]".to_string();
    let _exp2 = Expression::Dish(other.insert(Dish::from_bytes(vec![24, 25, 26])));

    assert!(matches!(reader.parse(&expr1, &mut dishes), Ok(_exp1)));
    assert!(matches!(reader.parse(&expr2, &mut dishes), Ok(_exp2)));
}

#[test]
fn adding_two_and_three_gives_five() {
    let mut s = session();
    let r = run(&mut s, "(+ 2 3)").unwrap();
    assert!(r.equals(&number("5"), &s.dishes));
    assert!(r.equals(&number("5.0"), &s.dishes));
    assert_eq!(r.to_text(&s.dishes), "5");
}

#[test]
fn a_definition_gives_its_name_and_binds_it() {
    let mut s = session();
    let r = run(&mut s, "(def a (- 112.4 12.2))").unwrap();
    assert!(r.equals(&Expression::Symbol("a".to_string()), &s.dishes));
    let a = s.env.get("a").unwrap();
    assert!(a.equals(&number("100.2"), &s.dishes));
    assert_eq!(shown(&mut s, "a"), "100.2");
}

#[test]
fn a_quoted_list_is_data() {
    let mut s = session();
    let r = run(&mut s, "'(1 2 3)").unwrap();
    let expected = Expression::List(vec![number("1.0"), number("2.0"), number("3.0")]);
    assert!(r.equals(&expected, &s.dishes));
    assert_eq!(r.to_text(&s.dishes), "(1 2 3)");
    let (kind, _) = failure(&mut s, "(1 2 3)");
    assert_eq!(kind, ErrorKind::Type);
}

#[test]
fn an_operation_with_its_argument_waits_for_the_dish() {
    let mut s = session();
    let r = run(&mut s, "((rot13 1) (dish \"abc\"))").unwrap();
    match r {
        Expression::Dish(h) => match s.dishes.get(h) {
            Some(Dish::Success(DishData::Str(text))) => assert_eq!(text, "bcd"),
            other => panic!("unexpected dish {:?}", other),
        },
        other => panic!("unexpected result {:?}", other),
    }
    assert_eq!(shown(&mut s, "(rot13 1)"), "built-in function");
}

#[test]
fn a_failed_operation_leaves_a_failure_that_later_operations_keep() {
    let mut s = session();
    assert_eq!(shown(&mut s, "(def d (dish \"not base64!\"))"), "d");
    let first = shown(&mut s, "(from-base64 d)");
    assert!(first.starts_with("error: dish error: base64 decode error: "), "{}", first);
    assert_eq!(shown(&mut s, "(reverse d)"), first);
    assert_eq!(shown(&mut s, "((rot13 3) d)"), first);
    assert_eq!(shown(&mut s, "d"), first);
    assert_eq!(shown(&mut s, "(empty? d)"), "false");
    assert_eq!(shown(&mut s, "(= d d)"), "false");
}

#[test]
fn text_is_split_into_tokens() {
    let tokens = tokenize("(def  a\t\"x (y) z\" 'b d\"q r\" d[1, 2] [3 4] -1.5)\n").unwrap();
    assert_eq!(
        tokens,
        vec![
            "(", "def", "a", "\"x (y) z\"", "'", "b", "d\"q r\"", "d[1, 2]", "[3 4]", "-1.5", ")"
        ]
    );
    assert_eq!(tokenize("").unwrap(), Vec::<String>::new());
    assert_eq!(tokenize(" \n\t ").unwrap(), Vec::<String>::new());
    assert_eq!(tokenize("a(b)c").unwrap(), vec!["a", "(", "b", ")", "c"]);
    assert_eq!(tokenize("ab\"cd\"").unwrap(), vec!["ab", "\"cd\""]);
    assert_eq!(tokenize("d").unwrap(), vec!["d"]);
    assert_eq!(tokenize("dd\"x\"").unwrap(), vec!["dd", "\"x\""]);
    assert_eq!(tokenize("\u{3bb}x \u{a0} y").unwrap(), vec!["\u{3bb}x", "y"]);
}

#[test]
fn what_is_not_closed_is_no_token() {
    for (text, message) in [
        ("\"abc", "unterminated string"),
        ("(a \"b)", "unterminated string"),
        ("d\"abc", "unterminated string"),
        ("d[1 2", "unterminated byte list"),
        ("[1 2", "unterminated byte list"),
        ("a ] b", "unexpected `]`"),
    ] {
        let e = tokenize(text).unwrap_err();
        assert_eq!(e.kind, ErrorKind::Syntax);
        assert_eq!(e.message, message, "{:?}", text);
        assert_eq!(read(text), Err((ErrorKind::Syntax, message.to_string())));
    }
}

#[test]
fn expressions_are_read_as_they_are_written() {
    for (text, expected) in [
        ("true", "true"),
        ("false", "false"),
        ("abc", "abc"),
        ("  abc  ", "abc"),
        ("-", "-"),
        ("-a", "-a"),
        ("empty?", "empty?"),
        ("a:b", "a:b"),
        ("x1", "x1"),
        ("\u{3bb}x", "\u{3bb}x"),
        ("na\u{ef}ve-\u{4eac}2", "na\u{ef}ve-\u{4eac}2"),
        ("\"a b\"", "a b"),
        ("\"\"", ""),
        ("12", "12"),
        ("-3.50", "-3.5"),
        ("()", "()"),
        ("(a)", "(a)"),
        ("( a  ( b c )\n d )", "(a (b c) d)"),
        ("'a", "(quote a)"),
        ("''a", "(quote (quote a))"),
        ("'(1 2 3)", "(quote (1 2 3))"),
        ("(a '(b 'c) 'd)", "(a (quote (b (quote c))) (quote d))"),
        ("'()", "(quote ())"),
        ("[1 2 3]", "(1 2 3)"),
        ("[]", "()"),
        ("d\"hello world\"", "Dish(\"hello world\")"),
        ("d[104 105]", "Dish([hi])"),
        ("d[104,105]", "Dish([hi])"),
        ("d[ 104 , 105 ]", "Dish([hi])"),
        ("d[]", "Dish([])"),
        ("(list d\"a\" d\"b\")", "(list Dish(\"a\") Dish(\"b\"))"),
    ] {
        assert_eq!(read(text), Ok(expected.to_string()), "{:?}", text);
    }
}

#[test]
fn what_is_no_expression_is_a_syntax_error() {
    for (text, message) in [
        ("", "could not get token"),
        ("   ", "could not get token"),
        ("(", "unclosed parenthesis"),
        ("(a (b)", "unclosed parenthesis"),
        (")", "unexpected `)`"),
        ("(a))", "unexpected input"),
        ("a b", "unexpected input"),
        ("'", "could not get token"),
        ("(a ')", "unexpected `)`"),
        ("1a", "unexpected token '1a'."),
        ("@x", "unexpected token '@x'."),
        ("\u{1f49d}", "unexpected token '\u{1f49d}'."),
        ("a\u{1f49d}", "unexpected token 'a\u{1f49d}'."),
        ("a,b", "unexpected token 'a,b'."),
        ("1.", "unexpected token '1.'."),
        ("d[256]", "number too large to fit in target type"),
        ("d[1 x]", "invalid digit found in string"),
        ("d[-1]", "invalid digit found in string"),
        ("[1.5]", "invalid digit found in string"),
    ] {
        assert_eq!(read(text), Err((ErrorKind::Syntax, message.to_string())), "{:?}", text);
    }
}

#[test]
fn a_failed_read_leaves_the_store_alone() {
    let reader = Reader::new();
    let mut dishes = DishStore::new();
    assert!(reader.parse(&"(a d\"x\" d[1] ".to_string(), &mut dishes).is_err());
    assert_eq!(dishes.len(), 0);
    assert!(reader.parse(&"d\"x\" d\"y\"".to_string(), &mut dishes).is_err());
    assert_eq!(dishes.len(), 0);
    assert!(reader.parse(&"(a d\"x\" d[1])".to_string(), &mut dishes).is_ok());
    assert_eq!(dishes.len(), 2);
}

#[test]
fn the_parser_returns_the_place_behind_the_expression() {
    let tokens: Vec<String> = tokenize("(a (b)) c 'd )").unwrap();
    let mut dishes = DishStore::new();
    let (e, next) = parse(&tokens, 0, &mut dishes).unwrap();
    assert_eq!((e.to_text(&dishes), next), ("(a (b))".to_string(), 6));
    let (e, next) = parse(&tokens, 6, &mut dishes).unwrap();
    assert_eq!((e.to_text(&dishes), next), ("c".to_string(), 7));
    let (e, next) = parse(&tokens, 7, &mut dishes).unwrap();
    assert_eq!((e.to_text(&dishes), next), ("(quote d)".to_string(), 9));
    assert_eq!(parse(&tokens, 9, &mut dishes).unwrap_err().message, "unexpected `)`");
    assert_eq!(parse(&tokens, 10, &mut dishes).unwrap_err().message, "could not get token");
    let (e, next) = read_seq(&tokens, 1, &mut dishes).unwrap();
    assert_eq!((e.to_text(&dishes), next), ("(a (b))".to_string(), 6));
    assert_eq!(read_seq(&tokens, 10, &mut dishes).unwrap_err().message, "unclosed parenthesis");
    assert_eq!(read_seq(&tokens, 99, &mut dishes).unwrap_err().message, "unclosed parenthesis");
    let tokens: Vec<String> = tokenize("(d\"a\" (d[1] d[2] 1x) d\"b\")").unwrap();
    assert!(parse(&tokens, 0, &mut dishes).is_err());
    assert_eq!(dishes.len(), 0);
    assert!(read_seq(&tokens, 4, &mut dishes).is_err());
    assert_eq!(dishes.len(), 0);
    assert!(parse(&tokens, 1, &mut dishes).is_ok());
    assert_eq!(dishes.len(), 1);
}

#[test]
fn an_atom_is_what_its_token_writes() {
    let mut dishes = DishStore::new();
    assert!(matches!(parse_atom("true", &mut dishes), Ok(Expression::Bool(true))));
    assert!(matches!(parse_atom("false", &mut dishes), Ok(Expression::Bool(false))));
    assert!(matches!(parse_atom("\"true\"", &mut dishes), Ok(Expression::String(s)) if s == "true"));
    assert!(matches!(parse_atom("truth", &mut dishes), Ok(Expression::Symbol(s)) if s == "truth"));
    assert!(matches!(parse_atom("12", &mut dishes), Ok(Expression::Number(_))));
    assert!(matches!(parse_atom("-", &mut dishes), Ok(Expression::Symbol(s)) if s == "-"));
    assert_eq!(dishes.len(), 0);
    assert!(matches!(parse_atom("d\"x\"", &mut dishes), Ok(Expression::Dish(0))));
    assert!(matches!(parse_atom("d[1]", &mut dishes), Ok(Expression::Dish(1))));
    assert_eq!(dishes.len(), 2);
    assert!(parse_atom("(", &mut dishes).is_err());
    assert!(parse_atom("", &mut dishes).is_err());
    assert!(parse_atom("1x", &mut dishes).is_err());
}

#[test]
fn a_canonical_text_is_shown_as_it_was_read() {
    for text in ["abc", "12", "-3.5", "0.25", "(a b c)", "(a (b (c)) 1 -2.5)", "()", "(quote x)"] {
        assert_eq!(read(text), Ok(text.to_string()));
    }
}

#[test]
fn a_symbol_without_a_binding_is_an_error() {
    let mut s = session();
    assert_eq!(
        failure(&mut s, "nope"),
        (ErrorKind::Name, "unexpected symbol 'nope'.".to_string())
    );
    assert_eq!(
        failure(&mut s, "(+ 1 nope)"),
        (ErrorKind::Name, "unexpected symbol 'nope'.".to_string())
    );
}

#[test]
fn what_stands_for_itself() {
    let mut s = session();
    assert_eq!(shown(&mut s, "12.50"), "12.5");
    assert_eq!(shown(&mut s, "true"), "true");
    assert_eq!(shown(&mut s, "\"a b\""), "a b");
    assert_eq!(shown(&mut s, "d\"x\""), "Dish(\"x\")");
    assert_eq!(shown(&mut s, "+"), "built-in function");
    assert_eq!(shown(&mut s, "map"), "lambda function");
}

#[test]
fn what_cannot_be_evaluated_or_called() {
    let mut s = session();
    assert_eq!(
        failure(&mut s, "()"),
        (ErrorKind::Type, "expected a non-empty list.".to_string())
    );
    assert_eq!(
        failure(&mut s, "(1 2)"),
        (ErrorKind::Type, "expected first expression to be a function. got '1'.".to_string())
    );
    assert_eq!(
        failure(&mut s, "(\"f\" 2)"),
        (ErrorKind::Type, "expected first expression to be a function. got 'f'.".to_string())
    );
    let f = Expression::Func(Function::Add);
    let e = eval(&f, &mut s.env, &mut s.dishes).unwrap_err();
    assert_eq!((e.kind, e.message), (ErrorKind::Type, "cannot eval function.".to_string()));
    let l = run(&mut s, "(fn (x) x)").unwrap();
    let e = eval(&l, &mut s.env, &mut s.dishes).unwrap_err();
    assert_eq!((e.kind, e.message), (ErrorKind::Type, "cannot eval lambda function.".to_string()));
}

#[test]
fn if_chooses_a_branch() {
    let mut s = session();
    assert_eq!(shown(&mut s, "(if true 1 2)"), "1");
    assert_eq!(shown(&mut s, "(if false 1 2)"), "2");
    assert_eq!(shown(&mut s, "(if (= 1 1) (+ 1 1) nope)"), "2");
    assert_eq!(shown(&mut s, "(if false nope 2)"), "2");
    assert_eq!(
        failure(&mut s, "(if)"),
        (ErrorKind::Arity, "expected test expression. got nothing.".to_string())
    );
    assert_eq!(
        failure(&mut s, "(if true)"),
        (ErrorKind::Arity, "expected branch. got '1'.".to_string())
    );
    assert_eq!(
        failure(&mut s, "(if true 1)"),
        (ErrorKind::Arity, "expected branch. got '2'.".to_string())
    );
    assert_eq!(
        failure(&mut s, "(if false 1)"),
        (ErrorKind::Arity, "expected branch. got '2'.".to_string())
    );
    assert_eq!(
        failure(&mut s, "(if true 1 2 3)"),
        (ErrorKind::Arity, "if expression must only have a test and two branches.".to_string())
    );
    assert_eq!(failure(&mut s, "(if (def seen 1) 1 2 3)").0, ErrorKind::Arity);
    assert_eq!(failure(&mut s, "(if (def seen 1) 1)").0, ErrorKind::Arity);
    assert_eq!(failure(&mut s, "(if nope)").0, ErrorKind::Arity);
    assert_eq!(failure(&mut s, "seen").0, ErrorKind::Name);
    assert_eq!(
        failure(&mut s, "(if (+ 1 2) 1 2)"),
        (ErrorKind::Type, "expected boolean expression. got '(+ 1 2)'.".to_string())
    );
    assert_eq!(failure(&mut s, "(if nope 1 2)").0, ErrorKind::Name);
}

#[test]
fn def_binds_in_the_innermost_scope() {
    let mut s = session();
    assert_eq!(shown(&mut s, "(def x 1)"), "x");
    assert_eq!(shown(&mut s, "(def x (+ x 1))"), "x");
    assert_eq!(shown(&mut s, "x"), "2");
    assert_eq!(
        failure(&mut s, "(def)"),
        (ErrorKind::Arity, "expected symbol name. got nothing.".to_string())
    );
    assert_eq!(
        failure(&mut s, "(def y)"),
        (ErrorKind::Arity, "expected expression. got nothing.".to_string())
    );
    assert_eq!(
        failure(&mut s, "(def y 1 2)"),
        (
            ErrorKind::Arity,
            "define expression must only have a symbol and an expression.".to_string()
        )
    );
    assert_eq!(
        failure(&mut s, "(def 1 2)"),
        (ErrorKind::Type, "expected symbol. got '1'.".to_string())
    );
    assert_eq!(
        failure(&mut s, "(def 1)"),
        (ErrorKind::Arity, "expected expression. got nothing.".to_string())
    );
    assert_eq!(
        failure(&mut s, "(def 1 2 3)"),
        (
            ErrorKind::Arity,
            "define expression must only have a symbol and an expression.".to_string()
        )
    );
    assert_eq!(failure(&mut s, "y").0, ErrorKind::Name);
    assert_eq!(shown(&mut s, "(defn f (a) (def x a))"), "f");
    assert_eq!(shown(&mut s, "(f 10)"), "x");
    assert_eq!(shown(&mut s, "x"), "2");
}

#[test]
fn special_forms_are_reserved_words() {
    let mut s = session();
    assert_eq!(shown(&mut s, "(def if 5)"), "if");
    assert_eq!(shown(&mut s, "(if true 1 2)"), "1");
    assert_eq!(shown(&mut s, "if"), "5");
    assert_eq!(shown(&mut s, "(def quote +)"), "quote");
    assert_eq!(shown(&mut s, "(quote (1 2))"), "(1 2)");
}

#[test]
fn fn_makes_a_function() {
    let mut s = session();
    assert_eq!(shown(&mut s, "(fn (x) x)"), "lambda function");
    assert_eq!(shown(&mut s, "((fn (x y) (- x y)) 5 3)"), "2");
    assert_eq!(shown(&mut s, "((fn () 7))"), "7");
    assert_eq!(shown(&mut s, "((fn (x x) x) 1 2)"), "2");
    assert_eq!(
        failure(&mut s, "(fn)"),
        (ErrorKind::Arity, "expected parameters. got nothing.".to_string())
    );
    assert_eq!(
        failure(&mut s, "(fn (x))"),
        (ErrorKind::Arity, "expected function body. got nothing.".to_string())
    );
    assert_eq!(
        failure(&mut s, "(fn (x) x x)"),
        (
            ErrorKind::Arity,
            "function definition must only have an argument list and a body.".to_string()
        )
    );
    assert_eq!(
        failure(&mut s, "((fn (x) x))"),
        (ErrorKind::Arity, "expected 1 arguments. got 0.".to_string())
    );
    assert_eq!(
        failure(&mut s, "((fn (x) x) 1 2)"),
        (ErrorKind::Arity, "expected 1 arguments. got 2.".to_string())
    );
    assert_eq!(
        failure(&mut s, "((fn x x) 1)"),
        (ErrorKind::Type, "expected argument to be a list. got 'x'.".to_string())
    );
    assert_eq!(
        failure(&mut s, "((fn (x 1) x) 1 2)"),
        (ErrorKind::Type, "expected symbol. got '1'.".to_string())
    );
}

#[test]
fn defn_names_a_function() {
    let mut s = session();
    assert_eq!(shown(&mut s, "(defn inc (x) (+ x 1))"), "inc");
    assert_eq!(shown(&mut s, "(inc 41)"), "42");
    assert_eq!(
        failure(&mut s, "(defn two (x) 2 more)"),
        (
            ErrorKind::Arity,
            "function definition must only have a name, an argument list and a body."
                .to_string()
        )
    );
    assert_eq!(failure(&mut s, "two").0, ErrorKind::Name);
    assert_eq!(
        failure(&mut s, "(defn 1)"),
        (ErrorKind::Arity, "expected argument list".to_string())
    );
    assert_eq!(
        failure(&mut s, "(defn 1 (x))"),
        (ErrorKind::Arity, "expected function body".to_string())
    );
    assert_eq!(failure(&mut s, "(defn 1 (x) x y)").0, ErrorKind::Arity);
    assert_eq!(
        failure(&mut s, "(defn)"),
        (ErrorKind::Arity, "expected symbol name. got nothing.".to_string())
    );
    assert_eq!(
        failure(&mut s, "(defn g)"),
        (ErrorKind::Arity, "expected argument list".to_string())
    );
    assert_eq!(
        failure(&mut s, "(defn g (x))"),
        (ErrorKind::Arity, "expected function body".to_string())
    );
    assert_eq!(
        failure(&mut s, "(defn 1 (x) x)"),
        (ErrorKind::Type, "expected symbol. got '1'.".to_string())
    );
}

#[test]
fn quote_returns_its_argument() {
    let mut s = session();
    assert_eq!(shown(&mut s, "(quote (a b))"), "(a b)");
    assert_eq!(shown(&mut s, "'nope"), "nope");
    assert_eq!(
        failure(&mut s, "(quote)"),
        (ErrorKind::Arity, "expected exactly 1 argument. got 0.".to_string())
    );
    assert_eq!(
        failure(&mut s, "(quote a b)"),
        (ErrorKind::Arity, "expected exactly 1 argument. got 2.".to_string())
    );
}

#[test]
fn a_function_sees_the_scope_of_its_call() {
    let mut s = session();
    shown(&mut s, "(def y 1)");
    shown(&mut s, "(defn gety () y)");
    shown(&mut s, "(defn shadow (y) (gety))");
    assert_eq!(shown(&mut s, "(gety)"), "1");
    assert_eq!(shown(&mut s, "(shadow 5)"), "5");
    assert_eq!(shown(&mut s, "y"), "1");
}

#[test]
fn arguments_are_evaluated_from_left_to_right() {
    let mut s = session();
    assert_eq!(failure(&mut s, "(+ (def a 1) (def b 2) nope (def c 3))").0, ErrorKind::Name);
    assert_eq!(shown(&mut s, "a"), "1");
    assert_eq!(shown(&mut s, "b"), "2");
    assert_eq!(failure(&mut s, "c").0, ErrorKind::Name);
}

#[test]
fn functions_of_the_language_are_there_from_the_start() {
    let mut s = session();
    assert_eq!(shown(&mut s, "(defn inc (x) (+ x 1))"), "inc");
    assert_eq!(shown(&mut s, "(map inc '(1 2 3))"), "(2 3 4)");
    assert_eq!(shown(&mut s, "(map inc '())"), "()");
    assert_eq!(shown(&mut s, "(reduce + 0 '(1 2 3 4))"), "10");
    assert_eq!(shown(&mut s, "(reduce - 0 '(10 3))"), "7");
    assert_eq!(shown(&mut s, "(reduce cons '() '(1 2))"), "(1 2)");
}

#[test]
fn calls_nest_no_deeper_than_the_limit_that_is_asked_for() {
    let mut s = session();
    shown(&mut s, "(defn forever (x) (forever x))");
    let form = Reader::new().parse(&"(forever 1)".to_string(), &mut s.dishes).unwrap();
    let e = eval_within(&form, &mut s.env, &mut s.dishes, 100).unwrap_err();
    assert_eq!((e.kind, e.message), (ErrorKind::Limit, "call depth limit reached.".to_string()));
    let e = eval_within(&form, &mut s.env, &mut s.dishes, 0).unwrap_err();
    assert_eq!(e.kind, ErrorKind::Limit);
    shown(&mut s, "(defn count (n) (if (= n 0) 0 (+ 1 (count (- n 1)))))");
    let form = Reader::new().parse(&"(count 3)".to_string(), &mut s.dishes).unwrap();
    assert!(eval_within(&form, &mut s.env, &mut s.dishes, 4).is_ok());
    assert_eq!(
        eval_within(&form, &mut s.env, &mut s.dishes, 3).unwrap_err().kind,
        ErrorKind::Limit
    );
    assert_eq!(s.env.get("n").is_none(), true);
}

#[test]
fn without_a_limit_calls_nest_as_deep_as_the_program_asks() {
    assert_eq!(CALL_DEPTH, usize::MAX);
    let mut s = session();
    shown(&mut s, "(defn count (n) (if (= n 0) 0 (+ 1 (count (- n 1)))))");
    assert_eq!(shown(&mut s, "(count 20)"), "20");
    assert_eq!(shown(&mut s, "(count 300)"), "300");
    shown(&mut s, "(defn inc (x) (+ x 1))");
    let items: Vec<String> = (0..300).map(|i| i.to_string()).collect();
    let expected: Vec<String> = (1..301).map(|i| i.to_string()).collect();
    let text = format!("(map inc '({}))", items.join(" "));
    assert_eq!(shown(&mut s, &text), format!("({})", expected.join(" ")));
    let text = format!("(reduce + 0 '({}))", items.join(" "));
    assert_eq!(shown(&mut s, &text), (299 * 300 / 2).to_string());
}

#[test]
fn arithmetic_is_exact() {
    let mut s = session();
    assert_eq!(shown(&mut s, "(+)"), "0");
    assert_eq!(shown(&mut s, "(+ 1)"), "1");
    assert_eq!(shown(&mut s, "(+ 0.1 0.2)"), "0.3");
    assert_eq!(shown(&mut s, "(+ 1 2 3 -6.5)"), "-0.5");
    assert_eq!(shown(&mut s, "(- 5)"), "5");
    assert_eq!(shown(&mut s, "(- 5 1 2)"), "2");
    assert_eq!(shown(&mut s, "(- 1 2)"), "-1");
    assert_eq!(
        failure(&mut s, "(-)"),
        (ErrorKind::Arity, "expected at least one number.".to_string())
    );
    assert_eq!(
        failure(&mut s, "(+ 1 \"2\" true)"),
        (ErrorKind::Type, "expected a number. got '2'.".to_string())
    );
    assert_eq!(
        failure(&mut s, "(- true)"),
        (ErrorKind::Type, "expected a number. got 'true'.".to_string())
    );
}

#[test]
fn lists_are_taken_apart_and_put_together() {
    let mut s = session();
    assert_eq!(shown(&mut s, "(first '(1 2 3))"), "1");
    assert_eq!(shown(&mut s, "(first '())"), "nil");
    assert_eq!(shown(&mut s, "(last '(1 2 3))"), "3");
    assert_eq!(shown(&mut s, "(rest '(1 2 3))"), "(2 3)");
    assert_eq!(shown(&mut s, "(rest '())"), "()");
    assert_eq!(shown(&mut s, "(butlast '(1 2 3))"), "(1 2)");
    assert_eq!(shown(&mut s, "(butlast '())"), "()");
    assert_eq!(shown(&mut s, "(cons 1 '(2 3))"), "(1 2 3)");
    assert_eq!(shown(&mut s, "(cons '(1) '())"), "((1))");
    assert_eq!(failure(&mut s, "(last '())"), (ErrorKind::Type, "empty list".to_string()));
    assert_eq!(
        failure(&mut s, "(first 1)"),
        (ErrorKind::Type, "expected a list. got '1'.".to_string())
    );
    assert_eq!(
        failure(&mut s, "(cons 1 2)"),
        (ErrorKind::Type, "expected 2nd argument to be a list.".to_string())
    );
    for name in ["first", "last", "rest", "butlast", "empty?", "dish"] {
        assert_eq!(
            failure(&mut s, &format!("({})", name)),
            (ErrorKind::Arity, "expected exactly 1 args. got 0.".to_string())
        );
        assert_eq!(
            failure(&mut s, &format!("({} '() '())", name)),
            (ErrorKind::Arity, "expected exactly 1 args. got 2.".to_string())
        );
    }
    for name in ["cons", "apply", "bake"] {
        assert_eq!(
            failure(&mut s, &format!("({} '())", name)),
            (ErrorKind::Arity, "expected exactly 2 args. got 1.".to_string())
        );
        assert_eq!(
            failure(&mut s, &format!("({} '() '() '())", name)),
            (ErrorKind::Arity, "expected exactly 2 args. got 3.".to_string())
        );
    }
}

#[test]
fn equality_goes_by_what_is_held() {
    let mut s = session();
    assert_eq!(shown(&mut s, "(= 1 1.0)"), "true");
    assert_eq!(shown(&mut s, "(= 1 1 1)"), "true");
    assert_eq!(shown(&mut s, "(= 1 1 2)"), "false");
    assert_eq!(shown(&mut s, "(= 1)"), "true");
    assert_eq!(shown(&mut s, "(= \"a\" 'a)"), "false");
    assert_eq!(shown(&mut s, "(= 'a 'a)"), "true");
    assert_eq!(shown(&mut s, "(= true true)"), "true");
    assert_eq!(shown(&mut s, "(= '(1 (2 \"x\")) '(1 (2 \"x\")))"), "true");
    assert_eq!(shown(&mut s, "(= '(1 2) '(1 2 3))"), "false");
    assert_eq!(shown(&mut s, "(= '(1 2) '(1 3))"), "false");
    assert_eq!(shown(&mut s, "(= '() '())"), "true");
    assert_eq!(shown(&mut s, "(= + +)"), "false");
    assert_eq!(shown(&mut s, "(= map map)"), "true");
    assert_eq!(shown(&mut s, "(= map reduce)"), "false");
    assert_eq!(shown(&mut s, "(= (fn (x) (+ x 1)) (fn (x) (+ x 1)))"), "true");
    assert_eq!(shown(&mut s, "(= (fn (x) (+ x 1)) (fn (y) (+ y 1)))"), "false");
    assert_eq!(shown(&mut s, "(= (rot13 1) (rot13 1))"), "false");
    assert_eq!(shown(&mut s, "(= (dish \"a\") (dish \"a\"))"), "true");
    assert_eq!(shown(&mut s, "(= (dish \"a\") (dish \"b\"))"), "false");
    assert_eq!(shown(&mut s, "(= d\"hi\" d[104 105])"), "false");
    assert_eq!(shown(&mut s, "(= d[1 2] d[1 2])"), "true");
    assert_eq!(
        failure(&mut s, "(=)"),
        (ErrorKind::Arity, "expected at least 1 args. got 0.".to_string())
    );
}

#[test]
fn failed_dishes_equal_nothing() {
    let mut dishes = DishStore::new();
    let good = Expression::Dish(dishes.insert(Dish::from_string("a".to_string())));
    let bad = Expression::Dish(dishes.insert(Dish::Failure(DishError("x".to_string()))));
    let worse = Expression::Dish(dishes.insert(Dish::Failure(DishError("x".to_string()))));
    let dangling = Expression::Dish(99);
    assert!(good.equals(&good, &dishes));
    assert!(!good.equals(&bad, &dishes));
    assert!(!bad.equals(&good, &dishes));
    assert!(!bad.equals(&worse, &dishes));
    assert!(!bad.equals(&bad, &dishes));
    assert!(!dangling.equals(&dangling, &dishes));
    assert!(!good.equals(&Expression::String("a".to_string()), &dishes));
    assert_eq!(dangling.to_text(&dishes), "dangling dish");
}

#[test]
fn empty_tells_what_holds_nothing() {
    let mut s = session();
    assert_eq!(shown(&mut s, "(empty? '())"), "true");
    assert_eq!(shown(&mut s, "(empty? '(1))"), "false");
    assert_eq!(shown(&mut s, "(empty? \"\")"), "true");
    assert_eq!(shown(&mut s, "(empty? \"a\")"), "false");
    assert_eq!(shown(&mut s, "(empty? (dish \"\"))"), "true");
    assert_eq!(shown(&mut s, "(empty? d[])"), "true");
    assert_eq!(shown(&mut s, "(empty? d[0])"), "false");
    assert_eq!(shown(&mut s, "(empty? 1)"), "nil");
    assert_eq!(shown(&mut s, "(empty? true)"), "nil");
}

#[test]
fn dish_makes_a_dish_of_a_string() {
    let mut s = session();
    assert_eq!(shown(&mut s, "(dish \"abc\")"), "Dish(\"abc\")");
    assert_eq!(
        failure(&mut s, "(dish 1)"),
        (ErrorKind::Type, "unsupported expression type for Dish. (must be string)".to_string())
    );
}

#[test]
fn every_copy_of_a_dish_sees_what_was_done_to_it() {
    let mut s = session();
    shown(&mut s, "(def d (dish \"abc\"))");
    shown(&mut s, "(def e d)");
    shown(&mut s, "(def l (cons d '()))");
    assert_eq!(shown(&mut s, "(reverse e)"), "Dish(\"cba\")");
    assert_eq!(shown(&mut s, "d"), "Dish(\"cba\")");
    assert_eq!(shown(&mut s, "(first l)"), "Dish(\"cba\")");
    assert_eq!(shown(&mut s, "(= d e)"), "true");
}

#[test]
fn operations_check_their_arguments() {
    let mut s = session();
    assert_eq!(
        failure(&mut s, "(rot13)"),
        (ErrorKind::Arity, "expected exactly 1 arguments. got 0.".to_string())
    );
    assert_eq!(
        failure(&mut s, "(rot13 1 2)"),
        (ErrorKind::Arity, "expected exactly 1 arguments. got 2.".to_string())
    );
    assert_eq!(
        failure(&mut s, "(rot13 \"1\")"),
        (ErrorKind::Type, "expected an integer. got 1.".to_string())
    );
    assert_eq!(
        failure(&mut s, "((rot13 1))"),
        (ErrorKind::Arity, "expected exactly 1 args. got 0.".to_string())
    );
    assert_eq!(
        failure(&mut s, "((rot13 1) (dish \"a\") (dish \"b\"))"),
        (ErrorKind::Arity, "expected exactly 1 args. got 2.".to_string())
    );
    assert_eq!(
        failure(&mut s, "((rot13 1) \"abc\")"),
        (ErrorKind::Type, "1st argument must be a Dish".to_string())
    );
    assert_eq!(
        failure(&mut s, "(reverse)"),
        (ErrorKind::Arity, "expected exactly 1 args. got 0.".to_string())
    );
    assert_eq!(
        failure(&mut s, "(reverse (dish \"a\") (dish \"b\"))"),
        (ErrorKind::Arity, "expected exactly 1 args. got 2.".to_string())
    );
    assert_eq!(
        failure(&mut s, "(reverse \"abc\")"),
        (ErrorKind::Type, "1st argument must be a Dish".to_string())
    );
    assert_eq!(shown(&mut s, "((rot13 1.9) (dish \"abc\"))"), "Dish(\"bcd\")");
    assert_eq!(shown(&mut s, "((rot13 -0.5) (dish \"abc\"))"), "Dish(\"abc\")");
    assert_eq!(shown(&mut s, "((to-radix 16) (dish \"AZ\"))"), "Dish(\"41 5a\")");
    assert_eq!(
        shown(&mut s, "((to-radix 99) (dish \"AZ\"))"),
        "error: dish error: unsupported radix `99`"
    );
}

#[test]
fn a_string_argument_takes_any_expression_as_it_is_shown() {
    let mut env = Environment::empty();
    let mut dishes = DishStore::new();
    let reader = Reader::new();
    embed_operation(&codebake::ops::data_format::opinfo_regex_match(), &mut env);
    embed_operation(&codebake::ops::data_format::opinfo_regex_replace(), &mut env);
    embed_operation(&codebake::ops::utility::opinfo_take_bytes(), &mut env);
    env.define("dish", Expression::Func(Function::Dish));
    let mut go = |text: &str| -> String {
        let r = parse_eval(&reader, &mut env, &mut dishes, &text.to_string());
        match r {
            Ok(e) => e.to_text(&dishes),
            Err(e) => e.to_text(),
        }
    };
    assert_eq!(go("((regex-match \"[a-z]+\") (dish \"ab 12 cd\"))"), "Dish(\"ab\ncd\")");
    assert_eq!(go("((regex-match 12) (dish \"ab 12 cd\"))"), "Dish(\"12\")");
    assert_eq!(go("((regex-replace \"b+\" \"<$0>\") (dish \"abbc\"))"), "Dish(\"a<bb>c\")");
    assert_eq!(go("((regex-replace \"b+\") (dish \"abbc\"))"), "expected exactly 2 arguments. got 1.");
    assert_eq!(go("((take-bytes 2) (dish \"abc\"))"), "Dish([ab])");
}

#[test]
fn a_recipe_is_baked_step_by_step() {
    let mut s = session();
    shown(&mut s, "(def r (recipe (rot13 1) reverse to-hex))");
    assert_eq!(shown(&mut s, "r"), "(built-in function built-in function built-in function)");
    assert_eq!(shown(&mut s, "(bake r (dish \"abc\"))"), "Dish(\"64 63 62\")");
    assert_eq!(shown(&mut s, "(bake '() (dish \"abc\"))"), "Dish(\"abc\")");
    assert_eq!(
        shown(&mut s, "(bake (recipe from-base64 reverse) (dish \"!\"))").starts_with("error: "),
        true
    );
    assert_eq!(
        failure(&mut s, "(recipe)"),
        (ErrorKind::Arity, "expected at least 1 args. got 0.".to_string())
    );
    assert_eq!(
        failure(&mut s, "(recipe reverse 1)"),
        (ErrorKind::Type, "expected function".to_string())
    );
    assert_eq!(
        failure(&mut s, "(bake 1 (dish \"a\"))"),
        (ErrorKind::Type, "expected list".to_string())
    );
    assert_eq!(failure(&mut s, "(bake r 1)"), (ErrorKind::Type, "expected Dish".to_string()));
    assert_eq!(
        failure(&mut s, "(bake '(1) (dish \"a\"))"),
        (ErrorKind::Type, "recipe must be list of functions.".to_string())
    );
    shown(&mut s, "(def d (dish \"abc\"))");
    assert_eq!(
        failure(&mut s, "(bake (recipe reverse rot13 to-hex) d)"),
        (ErrorKind::Type, "expected an integer. got Dish(\"cba\").".to_string())
    );
    assert_eq!(shown(&mut s, "d"), "Dish(\"cba\")");
    assert_eq!(
        failure(&mut s, "(bake (recipe bake) d)"),
        (ErrorKind::Arity, "expected exactly 2 args. got 1.".to_string())
    );
}

#[test]
fn apply_calls_a_function_with_a_list() {
    let mut s = session();
    assert_eq!(shown(&mut s, "(apply + '(3 4 5))"), "12");
    assert_eq!(shown(&mut s, "(apply apply (cons + '((1 2))))"), "3");
    assert_eq!(shown(&mut s, "(apply reverse (cons (dish \"ab\") '()))"), "Dish(\"ba\")");
    assert_eq!(
        failure(&mut s, "(apply 1 '())"),
        (ErrorKind::Type, "1st argument to 'apply' must be a function.".to_string())
    );
    assert_eq!(
        failure(&mut s, "(apply + 1)"),
        (ErrorKind::Type, "2nd argument to 'apply' must be a list.".to_string())
    );
    assert_eq!(
        failure(&mut s, "(apply map '())"),
        (ErrorKind::Type, "1st argument to 'apply' must be a function.".to_string())
    );
}

#[test]
fn a_call_goes_by_the_function_and_its_arguments() {
    let mut dishes = DishStore::new();
    let args = vec![number("1"), number("2")];
    let r = call_function(&Function::Add, &args, &mut dishes).unwrap();
    assert_eq!(r.to_text(&dishes), "3");
    let d = Expression::Dish(dishes.insert(Dish::from_string("abc".to_string())));
    let bound = Function::Bound(Operation::Reverse, OperationArguments::empty());
    let r = call_function(&bound, &vec![d], &mut dishes).unwrap();
    assert_eq!(r.to_text(&dishes), "Dish(\"cba\")");
    let e = call_function(&bound, &vec![Expression::Dish(7)], &mut dishes).unwrap_err();
    assert_eq!((e.kind, e.message), (ErrorKind::Name, "dangling dish".to_string()));
}

#[test]
fn input_is_complete_when_its_parentheses_balance() {
    for (text, complete) in [
        ("", true),
        ("abc", true),
        ("(a (b) c)", true),
        ("(a (b) c", false),
        ("(a (b", false),
        (")", false),
        ("())(", false),
        ("(a \")\" b)", true),
        ("(a \"(\" b)", true),
        ("(a \"(", false),
        ("\"(\"", true),
        ("\"", true),
        ("(\"\n\")\n", true),
    ] {
        assert_eq!(check_parens(&text.to_string()), complete, "{:?}", text);
    }
}

#[test]
fn an_environment_looks_outward_and_defines_inward() {
    let mut env = Environment::empty();
    assert!(env.get("x").is_none());
    env.define("x", number("1"));
    env.push_frame(vec![("y".to_string(), number("2")), ("y".to_string(), number("3"))]);
    let dishes = DishStore::new();
    assert_eq!(env.get("x").unwrap().to_text(&dishes), "1");
    assert_eq!(env.get("y").unwrap().to_text(&dishes), "3");
    env.define("x", number("9"));
    assert_eq!(env.get("x").unwrap().to_text(&dishes), "9");
    env.pop_frame();
    assert_eq!(env.get("x").unwrap().to_text(&dishes), "1");
    assert!(env.get("y").is_none());
    env.pop_frame();
    env.pop_frame();
    assert!(env.get("x").is_none());
    env.define("z", number("4"));
    assert_eq!(env.get("z").unwrap().to_text(&dishes), "4");
}

#[test]
fn expressions_are_shown() {
    let mut dishes = DishStore::new();
    let d = Expression::Dish(dishes.insert(Dish::from_bytes(vec![104, 105])));
    let list = Expression::List(vec![
        Expression::Symbol("a".to_string()),
        Expression::String("b c".to_string()),
        Expression::Bool(false),
        number("-1.50"),
        Expression::List(vec![]),
        Expression::Func(Function::Cons),
        d,
    ]);
    assert_eq!(list.to_text(&dishes), "(a b c false -1.5 () built-in function Dish([hi]))");
    assert_eq!(list.copy().to_text(&dishes), list.to_text(&dishes));
    assert_eq!(list.clone().to_text(&dishes), list.to_text(&dishes));
    assert!(!list.equals(&list.copy(), &dishes));
}

#[test]
fn what_is_read_written_and_printed_is_decided_before_it_is_done() {
    let mut dishes = DishStore::new();
    let good = Expression::Dish(dishes.insert(Dish::from_string("h\u{e9}".to_string())));
    let bad = Expression::Dish(dishes.insert(Dish::Failure(DishError("boom".to_string()))));
    let raw = Expression::Dish(dishes.insert(Dish::from_bytes(vec![104, 255])));
    let name = Expression::String("out.txt".to_string());

    assert_eq!(slurp_path(&vec![name.copy()], &dishes).unwrap(), "out.txt");
    assert_eq!(slurp_path(&vec![name.copy(), number("1")], &dishes).unwrap(), "out.txt");
    let e = slurp_path(&vec![], &dishes).unwrap_err();
    assert_eq!((e.kind, e.message), (ErrorKind::Arity, "expected at least 1 args. got 0.".to_string()));
    let e = slurp_path(&vec![number("1")], &dishes).unwrap_err();
    assert_eq!((e.kind, e.message), (ErrorKind::Type, "expected a string. got 1".to_string()));

    let d = slurp_dish(vec![1, 2], &mut dishes);
    assert_eq!(d.to_text(&dishes), format!("Dish([{}])", String::from_utf8_lossy(&[1, 2])));
    assert!(matches!(d, Expression::Dish(3)));

    let (bytes, file) = spit_request(&vec![good.copy(), name.copy()], &dishes).unwrap();
    assert_eq!((bytes, file), (vec![104, 195, 169], "out.txt".to_string()));
    let (bytes, _) = spit_request(&vec![bad.copy(), name.copy()], &dishes).unwrap();
    assert_eq!(bytes, b"boom".to_vec());
    let e = spit_request(&vec![good.copy()], &dishes).unwrap_err();
    assert_eq!((e.kind, e.message), (ErrorKind::Arity, "expected at least 2 args. got 1.".to_string()));
    let e = spit_request(&vec![name.copy(), name.copy()], &dishes).unwrap_err();
    assert_eq!((e.kind, e.message), (ErrorKind::Type, "expected a dish. got out.txt.".to_string()));
    let e = spit_request(&vec![good.copy(), good.copy()], &dishes).unwrap_err();
    assert_eq!(
        (e.kind, e.message),
        (ErrorKind::Type, "expected a string. got Dish(\"h\u{e9}\")".to_string())
    );
    let e = spit_request(&vec![Expression::Dish(50), name.copy()], &dishes).unwrap_err();
    assert_eq!((e.kind, e.message), (ErrorKind::Name, "dangling dish".to_string()));

    assert_eq!(print_line(&vec![good.copy()], &dishes).unwrap(), "h\u{e9}");
    assert_eq!(print_line(&vec![bad.copy()], &dishes).unwrap(), "boom");
    assert_eq!(print_line(&vec![raw.copy()], &dishes).unwrap(), "h\u{fffd}");
    assert_eq!(print_line(&vec![number("1.50")], &dishes).unwrap(), "1.5");
    assert_eq!(print_line(&vec![], &dishes).unwrap_err().kind, ErrorKind::Arity);
}

#[test]
fn the_characters_of_symbols_are_letters_digits_and_marks() {
    for code in 0u32..=0x10ffff {
        if let Some(c) = char::from_u32(code) {
            assert_eq!(
                is_symbol_fchar(c),
                c.is_alphabetic() || "*=+!-_?<>:".contains(c),
                "U+{:04X}",
                code
            );
            assert_eq!(
                is_symbol_rchar(c),
                c.is_alphanumeric() || "=*+!-_?<>:".contains(c),
                "U+{:04X}",
                code
            );
        }
    }
}

#[test]
fn what_is_shown_reads_as_what_was_read() {
    for text in [
        "  ( a   007\t-1.50 'b\n(c  ( ) true) [1, 2] )  ",
        "''x",
        "(quote (quote x))",
        "-0.0",
        "(+ 0.10 (- 2 3.000))",
        "(def\u{a0}\u{3bb} 1)",
    ] {
        let mut dishes = DishStore::new();
        let reader = Reader::new();
        let first = reader.parse(&text.to_string(), &mut dishes).unwrap();
        let shown = first.to_text(&dishes);
        let second = reader.parse(&shown, &mut dishes).unwrap();
        assert!(first.equals(&second, &dishes), "{:?}", text);
        assert_eq!(second.to_text(&dishes), shown);
    }
    assert_eq!(read("(\"a b\")"), Ok("(a b)".to_string()));
    assert_eq!(read("(a b)"), Ok("(a b)".to_string()));
}
