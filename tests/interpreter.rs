use std::rc::Rc;

use lwhlisp::atom::{Atom, Builtin};
use lwhlisp::builtins::{host_request, HostRequest};
use lwhlisp::env::Env;
use lwhlisp::error::{LispError, TypeName};
use lwhlisp::host::Host;
use lwhlisp::eval::eval_in;
use lwhlisp::parsing::{parse_recovering, parser, ParseErrorKind};
use lwhlisp::print::{debug_string, pretty_string};

/// Doubles computed with the machine's own floating point; output is kept.
struct Machine {
    out: String,
}

impl Host for Machine {
    fn read_number(&self, text: &str) -> u64 {
        text.parse::<f64>().unwrap().to_bits()
    }

    fn count_to_number(&self, n: usize) -> u64 {
        (n as f64).to_bits()
    }

    fn arithmetic(&self, op: Builtin, a: u64, b: u64) -> u64 {
        let (x, y) = (f64::from_bits(a), f64::from_bits(b));
        let r = match op {
            Builtin::Add => x + y,
            Builtin::Sub => x - y,
            Builtin::Mul => x * y,
            Builtin::Div => x / y,
            _ => x % y,
        };
        r.to_bits()
    }

    fn compare(&self, op: Builtin, a: u64, b: u64) -> bool {
        let (x, y) = (f64::from_bits(a), f64::from_bits(b));
        match op {
            Builtin::Less => x < y,
            Builtin::LessEq => x <= y,
            Builtin::Greater => x > y,
            _ => x >= y,
        }
    }

    fn show_number(&self, n: u64) -> String {
        format!("{}", f64::from_bits(n))
    }

    fn emit(&mut self, text: &str) {
        self.out.push_str(text);
    }
}

fn machine() -> Machine {
    Machine { out: String::new() }
}

fn integer(n: i64) -> Atom {
    Atom::Number((n as f64).to_bits())
}

fn parse_has_error(src: &str) {
    let src = src.trim();
    println!("{}", src);
    assert!(parser(src, &machine()).is_err());
}

fn parse(src: &str) -> Vec<Atom> {
    let src = src.trim();
    println!("{}", src);
    parser(src, &machine()).expect("The given source code should have no errors")
}

fn parse_one(src: &str) -> Atom {
    let mut atoms = parse(src);
    assert_eq!(atoms.len(), 1, "Expected exactly one atom");
    atoms.pop().unwrap()
}

fn create_list(x: Vec<Atom>) -> Atom {
    let mut acc = Atom::nil();
    for a in x.into_iter().rev() {
        acc = Atom::cons(a, acc);
    }
    acc
}

fn run_code(src: &str) -> Rc<Atom> {
    let mut env = Env::default();
    let mut host = machine();
    let mut final_result = Rc::new(Atom::nil());
    for atom in parse(src) {
        match Atom::eval(Rc::new(atom), &mut env, &mut host) {
            Ok(result) => final_result = result,
            Err(e) => panic!("!! {:?}", e),
        }
    }
    final_result
}

fn run_error(src: &str) -> LispError {
    let mut env = Env::default();
    let mut host = machine();
    for atom in parse(src) {
        if let Err(e) = Atom::eval(Rc::new(atom), &mut env, &mut host) {
            return e;
        }
    }
    panic!("expected an error from {}", src);
}

fn run_has_error(src: &str) {
    run_error(src);
}

fn helper(src: &str, expected: &str) {
    let result = run_code(src);
    let expected = run_code(expected);
    assert_eq!(result, expected);
}

fn x(x: &str) {
    helper(x, x);
}

fn run(src: &str) -> Atom {
    let r = run_code(src);
    Rc::try_unwrap(r).unwrap_or_else(|r| clone_plain(&r))
}

fn clone_plain(a: &Atom) -> Atom {
    match a {
        Atom::Number(n) => Atom::Number(*n),
        Atom::String(s) => Atom::String(s.clone()),
        Atom::Symbol(s) => Atom::Symbol(s.clone()),
        Atom::Pair(h, d) => Atom::Pair(h.clone(), d.clone()),
        Atom::NativeFunc(f) => Atom::NativeFunc(*f),
        _ => panic!("not a plain atom"),
    }
}

#[test]
fn can_run_empty_string() {
    assert_eq!(run(""), Atom::nil());
}

#[test]
fn nil_is_nil() {
    assert_eq!(run("nil"), Atom::nil());
}

#[test]
fn empty_list_is_nil() {
    assert_eq!(parse_one("()"), Atom::nil());
    assert_eq!(parse_one("(  )"), Atom::nil());
}

#[test]
fn t_is_t() {
    assert_eq!(run("t"), Atom::t());
}

#[test]
fn x_is_x() {
    x("define");
    x("defmacro");
    x("lambda");
    x("if");
    x("quote");
    x("apply");
}

#[test]
fn builtins_exist() {
    for name in [
        "into-pretty-string", "into-string", "print", "println", "pair?", "symbol?", "string?",
        "string-length", "car", "cdr", "cons", "+", "-", "*", "/", "%", "=", "<", ">", ">=", "<=",
    ] {
        run_code(name);
    }
}

#[test]
fn smaller_equals() {
    helper("(<= 1 2)", "t");
    helper("(<= 2 2)", "t");
    helper("(<= 3 2)", "nil");
    helper("(<= -3 -2)", "t");
    helper("(<= -2 -2)", "t");
    helper("(<= -1 -2)", "nil");
}

#[test]
fn bigger_equals() {
    helper("(>= 1 2)", "nil");
    helper("(>= 2 2)", "t");
    helper("(>= 3 2)", "t");
    helper("(>= -3 -2)", "nil");
    helper("(>= -2 -2)", "t");
    helper("(>= -1 -2)", "t");
}

#[test]
fn bigger() {
    helper("(> 1 2)", "nil");
    helper("(> 3 2)", "t");
    helper("(> -3 -2)", "nil");
    helper("(> -1 -2)", "t");
}

#[test]
fn smaller() {
    helper("(<= 1 2)", "t");
    helper("(<= 3 2)", "nil");
    helper("(<= -3 -2)", "t");
    helper("(<= -1 -2)", "nil");
}

#[test]
fn equal() {
    helper("(= 1 1)", "t");
    helper("(= 1 0)", "nil");
    helper("(= \"hello\" \"hello\")", "t");
    helper("(= \"hello\" \"world\")", "nil");
}

#[test]
fn modulo() {
    helper("(% 6 3)", "0");
    helper("(% 6 4)", "2");
}

#[test]
fn division() {
    helper("(/ 4 2)", "2");
    helper("(/ 5 2)", "2.5");
    helper("(/ 5.1 2.5)", "2.04");
    helper("(/ -4 2)", "-2");
    helper("(/ 4 -2)", "-2");
    helper("(/ -4 -2)", "2");
}

#[test]
fn multiplication() {
    helper("(* 4 2)", "8");
    helper("(* 5 2)", "10");
    helper("(* 5.1 2.5)", "12.75");
    helper("(* -4 2)", "-8");
    helper("(* 4 -2)", "-8");
    helper("(* -4 -2)", "8");
}

#[test]
fn substraction() {
    helper("(- 4 2)", "2");
    helper("(- 5 2)", "3");
    helper("(- 5.3 2.4)", "2.9");
    helper("(- -4 2)", "-6");
    helper("(- 4 -2)", "6");
    helper("(- -4 -2)", "-2");
}

#[test]
fn addition() {
    helper("(+ 4 2)", "6");
    helper("(+ 5 2)", "7");
    helper("(+ 2.4 2.1)", "4.5");
    helper("(+ -4 2)", "-2");
    helper("(+ 4 -2)", "2");
    helper("(+ -4 -2)", "-6");
}

#[test]
fn cons() {
    helper("(cons 1 2)", "'(1 . 2)");
    helper("(cons 1 (cons 2 3))", "'(1 2 . 3)");
    helper("(cons 1 (cons 2 (cons 3 nil)))", "'(1 2 3)");
}

#[test]
fn cdr() {
    helper("(cdr nil)", "nil");
    helper("(cdr t)", "t");
    helper("(cdr 1)", "1");
    helper("(cdr 'test)", "'test");
    helper("(cdr '(1 2 3))", "'(2 3)");
    helper("(cdr '(1))", "'nil");
    helper("(cdr '(1 (2 3) 4 5))", "'((2 3) 4 5)");
    helper("(cdr '(1 (2 3) (4 5)))", "'((2 3) (4 5))");
    helper("(cdr '(1 (4 5)))", "'((4 5))");
}

#[test]
fn car() {
    helper("(car nil)", "nil");
    helper("(car t)", "t");
    helper("(car 1)", "1");
    helper("(car 'test)", "'test");
    helper("(car '(1 2 3))", "1");
    helper("(car '(1))", "'1");
    helper("(car '((1)))", "'(1)");
    helper("(car '(1 (2 3) 4 5))", "1");
    helper("(car '((1 2 3) 4 5))", "'(1 2 3)");
}

#[test]
fn string_length() {
    helper("(string-length \"\")", "0");
    helper("(string-length \"abc\")", "3");
    helper("(string-length \"\u{1F44D}\")", "1");
}

#[test]
fn is_string() {
    helper("(string? \"Hello World!\")", "t");
    helper("(string? 123.55)", "nil");
    helper("(string? nil)", "nil");
    helper("(string? t)", "nil");
    helper("(string? =)", "nil");
}

#[test]
fn is_symbol() {
    helper("(symbol? t)", "t");
    helper("(symbol? nil)", "t");
    helper("(symbol? 'arbitrary-symbol)", "t");
    helper("(symbol? \"Hello World!\")", "nil");
    helper("(symbol? 123.55)", "nil");
    helper("(symbol? =)", "nil");
}

#[test]
fn is_pair() {
    helper("(pair? (cons 1 2))", "t");
    helper("(pair? (cons 1 (cons 2 3)))", "t");
    helper("(pair? '(1 2 3))", "t");
    helper("(pair? '(1 2 . 3))", "t");
    helper("(pair? '(1 (2 . 3)))", "t");

    helper("(pair? '\"Hello world!\")", "nil");
    helper("(pair? 123)", "nil");
    helper("(pair? =)", "nil");
}

#[test]
fn into_string() {
    helper("(into-string \"string\")", r#""\"string\"""#);
    helper("(into-string 123.4)", r#""123.4""#);
    helper("(into-string t)", r#""t""#);
    helper("(into-string nil)", r#""nil""#);
    helper("(into-string 'arbitrary-symbol)", r#""arbitrary-symbol""#);
    helper("(into-string =)", r##""#<BUILTIN>""##);
    helper("(into-string '(1 2 3))", r##""(1 2 3)""##);
    helper("(into-string '(1 (2 3)))", r##""(1 (2 3))""##);
}

#[test]
fn read_numbers() {
    assert_eq!(run("1"), integer(1));
    assert_eq!(run("7"), integer(7));
    assert_eq!(run("   7"), integer(7));
    assert_eq!(run("-123"), integer(-123));
}

#[test]
fn read_symbol() {
    assert_eq!(parse_one("+"), Atom::symbol("+"));
    assert_eq!(parse_one("abc"), Atom::symbol("abc"));
    assert_eq!(parse_one("   abc"), Atom::symbol("abc"));
    assert_eq!(parse_one("abc5"), Atom::symbol("abc5"));
    assert_eq!(parse_one("abc-def"), Atom::symbol("abc-def"));
}

#[test]
fn read_symbol_starting_with_dash() {
    assert_eq!(parse_one("-"), Atom::symbol("-"));
    assert_eq!(parse_one("-abc"), Atom::symbol("-abc"));
    assert_eq!(parse_one("->>"), Atom::symbol("->>"));
}

#[test]
fn read_list() {
    assert_eq!(
        parse_one("(+ 1 2)"),
        Atom::Pair(
            Rc::new(Atom::symbol("+")),
            Rc::new(Atom::Pair(
                Rc::new(integer(1)),
                Rc::new(Atom::Pair(Rc::new(integer(2)), Rc::new(Atom::nil())))
            ))
        )
    );
    assert_eq!(
        parse_one("(+ 1 2)"),
        create_list(vec![Atom::symbol("+"), integer(1), integer(2)])
    );
    assert_eq!(parse_one("(nil)"), create_list(vec![Atom::nil()]));
    assert_eq!(
        parse_one("((3 4))"),
        create_list(vec![create_list(vec![integer(3), integer(4)])])
    );
    assert_eq!(
        parse_one("(+ 1 (+ 2 3))"),
        create_list(vec![
            Atom::symbol("+"),
            integer(1),
            create_list(vec![Atom::symbol("+"), integer(2), integer(3)])
        ])
    );
    assert_eq!(
        parse_one("  ( +   1   (+   2 3   )   )  "),
        create_list(vec![
            Atom::symbol("+"),
            integer(1),
            create_list(vec![Atom::symbol("+"), integer(2), integer(3)])
        ])
    );
    assert_eq!(
        parse_one("(* 1 2)"),
        create_list(vec![Atom::symbol("*"), integer(1), integer(2)])
    );
    assert_eq!(
        parse_one("(** 1 2)"),
        create_list(vec![Atom::symbol("**"), integer(1), integer(2)])
    );
    assert_eq!(
        parse_one("(* -3 6)"),
        create_list(vec![Atom::symbol("*"), integer(-3), integer(6)])
    );
    assert_eq!(parse_one("(() ())"), create_list(vec![Atom::nil(), Atom::nil()]));
}

#[test]
fn read_nil_true_false() {
    assert_eq!(parse_one("nil"), Atom::symbol("nil"));
    assert_eq!(parse_one("true"), Atom::symbol("true"));
    assert_eq!(parse_one("false"), Atom::symbol("false"));
}

#[test]
fn read_string() {
    assert_eq!(parse_one("\"abc\""), Atom::string("abc"));
    assert_eq!(parse_one("   \"abc\""), Atom::string("abc"));
    assert_eq!(parse_one("\"abc (with parens)\""), Atom::string("abc (with parens)"));
    assert_eq!(parse_one(r#""abc\"def""#), Atom::string("abc\"def"));
    assert_eq!(parse_one("\"\""), Atom::string(""));
    assert_eq!(parse_one(r#""\\""#), Atom::string(r#"\"#));
    assert_eq!(parse_one(r#""\\\\\\\\\\\\\\\\\\""#), Atom::string(r#"\\\\\\\\\"#));
}

#[test]
fn read_single_char_string() {
    for c in "&-()*+,-/:;<=>?@[]^_`{}~!".chars() {
        let s = c.to_string();
        assert_eq!(parse_one(&format!("\"{}\"", s)), Atom::string(&s));
    }
}

#[test]
fn read_erronous_input() {
    parse_has_error("(1 2");
    parse_has_error("[1 2");
    parse_has_error("\"abc");
    parse_has_error("\\");
    parse_has_error(r#"\\\\\\\\\\\\\\\\\\\"#);
    parse_has_error(r#"(1 \"abc"#);
    parse_has_error(r#"(1 \"abc\""#);
}

#[test]
fn read_quote() {
    assert_eq!(parse_one("'1"), create_list(vec![Atom::symbol("quote"), integer(1)]));
    assert_eq!(
        parse_one("'(1 2 3)"),
        create_list(vec![
            Atom::symbol("quote"),
            create_list(vec![integer(1), integer(2), integer(3)])
        ])
    );
}

#[test]
fn read_quasiquote() {
    assert_eq!(parse_one("`1"), create_list(vec![Atom::symbol("quasiquote"), integer(1)]));
    assert_eq!(
        parse_one("`(1 2 3)"),
        create_list(vec![
            Atom::symbol("quasiquote"),
            create_list(vec![integer(1), integer(2), integer(3)])
        ])
    );
}

#[test]
fn read_unquote() {
    assert_eq!(parse_one(",1"), create_list(vec![Atom::symbol("unquote"), integer(1)]));
    assert_eq!(
        parse_one(",(1 2 3)"),
        create_list(vec![
            Atom::symbol("unquote"),
            create_list(vec![integer(1), integer(2), integer(3)])
        ])
    );
}

#[test]
fn read_unquote_quasiquote() {
    assert_eq!(
        parse_one("`(1 ,a 3)"),
        create_list(vec![
            Atom::symbol("quasiquote"),
            create_list(vec![
                integer(1),
                create_list(vec![Atom::symbol("unquote"), Atom::symbol("a")]),
                integer(3)
            ])
        ])
    );
}

#[test]
fn read_unquote_splicing() {
    assert_eq!(
        parse_one(",@(1 2 3)"),
        create_list(vec![
            Atom::symbol("unquote-splicing"),
            create_list(vec![integer(1), integer(2), integer(3)])
        ])
    );
}

#[test]
fn arithmetic() {
    helper("(+ 1 2)", "3");
    helper("(+ 5 (* 2 3))", "11");
    helper("(- (+ 5 (* 2 3)) 3)", "8");
    helper("(/ (- (+ 5 (* 2 3)) 3) 4)", "2");
    helper("(/ (- (+ 515 (* 87 311)) 302) 27)", "1010");
    helper("(* -3 6)", "-18");
    helper("(/ (- (+ 515 (* -87 311)) 296) 27)", "-994");
}

#[test]
fn unbound_function() {
    run_has_error("(abc 1 2 3)");
}

#[test]
fn define() {
    helper("(define x 3)", "'x");
    helper("(define x 3) x", "3");

    helper("(define x 3)", "'x");
    helper("(define x 3) (define x 4)", "'x");
    helper("(define x 3) (define x 4) x", "4");

    helper("(define y (+ 1 7)) y", "8");

    run_has_error("(define w (abc))");
}

#[test]
fn adds_two_numbers() {
    assert_eq!(run("(+ 1 2)"), integer(3));
}

#[test]
fn recursive_factorial() {
    assert_eq!(
        run("(define (fact n) (if (= n 0) 1 (* n (fact (- n 1))))) (fact 5)"),
        integer(120)
    );
}

#[test]
fn lambda_application() {
    assert_eq!(run("((lambda (x y) (+ x y)) 3 4)"), integer(7));
}

#[test]
fn variadic_formals_collect_operands() {
    assert_eq!(
        run("(define (f . xs) xs) (f 1 2 3)"),
        create_list(vec![integer(1), integer(2), integer(3)])
    );
    assert_eq!(run("(define (f . xs) xs) (f)"), Atom::nil());
    assert_eq!(
        run("(define (g a . xs) xs) (g 1 2 3)"),
        create_list(vec![integer(2), integer(3)])
    );
}

#[test]
fn macro_expands_then_evaluates() {
    assert_eq!(
        run("(defmacro (unless c then else) (cons 'if (cons c (cons else (cons then '()))))) (unless nil 'yes 'no)"),
        Atom::symbol("yes")
    );
}

#[test]
fn apply_spreads_a_list() {
    assert_eq!(run("(apply + (cons 1 (cons 2 '())))"), integer(3));
    assert_eq!(run("(apply cons '((1) 2))"), Atom::cons(create_list(vec![integer(1)]), integer(2)));
}

#[test]
fn division_by_zero_is_infinite() {
    match run("(/ 5 0)") {
        Atom::Number(bits) => assert_eq!(f64::from_bits(bits), f64::INFINITY),
        other => panic!("expected a number, got {:?}", other),
    }
}

#[test]
fn adding_a_symbol_is_a_type_mismatch() {
    match run_error("(+ 'a 1)") {
        LispError::TypeMismatch { expected, got } => {
            assert_eq!(expected, TypeName::Number);
            assert_eq!(*got, Atom::symbol("a"));
        }
        other => panic!("unexpected {:?}", other),
    }
}

#[test]
fn car_cdr_pair_of_cons() {
    assert_eq!(run("(car (cons 'a 'b))"), Atom::symbol("a"));
    assert_eq!(run("(cdr (cons 'a 'b))"), Atom::symbol("b"));
    assert_eq!(run("(pair? (cons 'a 'b))"), Atom::t());
    assert_eq!(run("(car (cons '(1 2) \"s\"))"), create_list(vec![integer(1), integer(2)]));
}

#[test]
fn equality_is_reflexive_on_data() {
    helper("(= '(1 \"s\" (x . 2.5)) '(1 \"s\" (x . 2.5)))", "t");
    helper("(= 'x 'x)", "t");
    helper("(= car car)", "nil");
    helper("(= (lambda (x) x) (lambda (x) x))", "nil");
}

#[test]
fn define_then_use() {
    assert_eq!(run("(define z (cons 1 2)) z"), Atom::cons(integer(1), integer(2)));
    assert_eq!(run("(define z 1) (define w 2) z"), integer(1));
}

#[test]
fn recursive_define_terminates() {
    assert_eq!(
        run("(define (count n) (if (= n 0) 'done (count (- n 1)))) (count 50)"),
        Atom::symbol("done")
    );
}

#[test]
fn debug_rendering_reads_back() {
    let host = machine();
    for src in ["(a (b \"q\\\"x\\n\") . c)", "(quote (1 2.5 -3))", "\"tab\\there\"", "()", "(x . y)"] {
        let e = Rc::new(parse_one(src));
        let text = debug_string(&e, &host);
        assert_eq!(parse_one(&text), *e, "{}", text);
    }
}

#[test]
fn debug_rendering_of_values() {
    let host = machine();
    assert_eq!(debug_string(&Rc::new(parse_one("(1 (2 3) . 4)")), &host), "(1 (2 3) . 4)");
    assert_eq!(debug_string(&Rc::new(Atom::string("a\"b")), &host), "\"a\\\"b\"");
    assert_eq!(
        debug_string(&run_code("(lambda (x) (+ x 1) x)"), &host),
        "(lambda (x) (+ x 1) x)"
    );
    assert_eq!(debug_string(&run_code("(defmacro (m a) a) m"), &host), "(defmacro (a) a)");
}

#[test]
fn pretty_rendering_breaks_long_lists() {
    let host = machine();
    assert_eq!(pretty_string(&Rc::new(parse_one("(+ 1 2)")), &host), "(+ 1 2)");
    assert_eq!(
        pretty_string(&Rc::new(parse_one("(define (f x) (if (= x 0) 1 (* x (f (- x 1)))))")), &host),
        "(define (f x)\n   (if (= x 0)\n      1\n      (* x (f (- x 1)))))"
    );
    assert_eq!(run("(into-pretty-string \"s\")"), Atom::string("\"s\""));
}

#[test]
fn print_writes_text_and_returns_it() {
    let mut env = Env::default();
    let mut host = machine();
    let e = Rc::new(parse_one("(print \"hi\")"));
    let r = Atom::eval(e, &mut env, &mut host).unwrap();
    assert_eq!(*r, Atom::string("hi"));
    let e = Rc::new(parse_one("(println '(1 2))"));
    let r = Atom::eval(e, &mut env, &mut host).unwrap();
    assert_eq!(*r, Atom::string("(1 2)"));
    assert_eq!(host.out, "hi(1 2)\n");
}

#[test]
fn errors_of_each_kind() {
    assert!(matches!(run_error("undefined-name"), LispError::UnboundSymbol(n) if n == "undefined-name"));
    assert!(matches!(run_error("(quote 1 2)"), LispError::BadArity { arity: 1, .. }));
    assert!(matches!(run_error("(car 1 2)"), LispError::BadArity { arity: 1, .. }));
    assert!(matches!(run_error("(if 1 2)"), LispError::BadArity { arity: 3, .. }));
    assert!(matches!(run_error("(string-length 'a)"), LispError::TypeMismatch { expected: TypeName::String, .. }));
    assert!(matches!(run_error("(+ 1 . 2)"), LispError::ImproperApplication(_)));
    assert!(matches!(run_error("(1 2)"), LispError::NotApplicable(_)));
    assert!(matches!(run_error("(lambda (1) 1)"), LispError::InvalidClosureForm(_)));
    assert!(matches!(run_error("(define (f 1) 1)"), LispError::InvalidClosureForm(_)));
    assert!(matches!(run_error("(defmacro (m) 1) (apply m '())"), LispError::MacroEvaluated(_)));
    assert!(matches!(run_error("((lambda (x y) x) 1)"), LispError::TooFewArguments));
    assert!(matches!(run_error("((lambda (x) x) 1 2)"), LispError::TooManyArguments));
    assert!(matches!(run_error("(apply car 1)"), LispError::TypeMismatch { expected: TypeName::List, .. }));
}

#[test]
fn nesting_past_the_limit_is_an_error() {
    let mut env = Env::default();
    let mut host = machine();
    let def = Rc::new(parse_one("(define (spin n) (spin n))"));
    Atom::eval(def, &mut env, &mut host).unwrap();
    let call = Rc::new(parse_one("(spin 1)"));
    assert!(matches!(eval_in(&call, &mut env, &mut host, 40), Err(LispError::TooDeep)));
    let quoted = Rc::new(parse_one("'a"));
    assert!(matches!(eval_in(&quoted, &mut env, &mut host, 0), Err(LispError::TooDeep)));
}

#[test]
fn environment_frames_and_lookup() {
    let mut root = Env::new(None);
    root.set(String::from("a"), Rc::new(integer(1)));
    let mut child = Env::new(Some(Box::new(root)));
    child.set(String::from("b"), Rc::new(integer(2)));
    assert_eq!(*child.get("a").unwrap(), integer(1));
    assert_eq!(*child.get("b").unwrap(), integer(2));
    assert!(matches!(child.get("c"), Err(LispError::UnboundSymbol(_))));
    let mut extra = Env::new(None);
    extra.set(String::from("c"), Rc::new(integer(3)));
    child.add_furthest_parent(extra);
    assert_eq!(*child.get("c").unwrap(), integer(3));
    child.set(String::from("a"), Rc::new(integer(9)));
    assert_eq!(*child.get("a").unwrap(), integer(9));
}

#[test]
fn caller_environment_is_the_fallback() {
    assert_eq!(run("(define (f) y) (define (g y) (f)) (g 5)"), integer(5));
}

#[test]
fn list_helpers() {
    let l = Rc::new(parse_one("(1 (2 3) 4)"));
    assert_eq!(*Atom::get_list_item_by_index(&l, 1).unwrap(), create_list(vec![integer(2), integer(3)]));
    assert_eq!(*Atom::get_list_item_by_index(&l, 5).unwrap(), Atom::nil());
    let d = Rc::new(parse_one("(1 . 2)"));
    assert!(Atom::get_list_item_by_index(&d, 2).is_err());
    assert_eq!(Atom::into_vec(&d).len(), 2);
    assert_eq!(Atom::get_list_lenght_including_inner(&l), 6);
    assert_eq!(Atom::get_list_lenght_including_inner(&Rc::new(Atom::symbol("abcd"))), 4);
    assert_eq!(Atom::get_list_lenght_including_inner_without_symbol(&Rc::new(Atom::symbol("abcd"))), 1);
    assert!(Atom::is_proper_list(&l));
    assert!(!Atom::is_proper_list(&d));
    assert!(Atom::strict_cdr(&Rc::new(integer(1))).is_err());
    assert_eq!(*Atom::strict_cdr(&Rc::new(Atom::nil())).unwrap(), Atom::nil());
}

#[test]
fn reader_diagnostics() {
    let host = machine();
    let (atoms, errs) = parse_recovering("1 2 (3", &host);
    assert_eq!(atoms.len(), 2);
    assert_eq!(errs.len(), 1);
    assert_eq!(errs[0].kind, ParseErrorKind::UnexpectedEnd);
    let (atoms, errs) = parse_recovering("\"\\uD800x\"", &host);
    assert_eq!(atoms, vec![Atom::string("\u{FFFD}x")]);
    assert_eq!(errs[0].kind, ParseErrorKind::InvalidUnicode);
    assert_eq!(parse_one("\"\\u0041\\t\""), Atom::string("A\t"));
    let (_, errs) = parse_recovering("\"\\q\"", &host);
    assert_eq!(errs[0].kind, ParseErrorKind::InvalidEscape('q'));
    assert_eq!(parse_one("1.5e2"), Atom::Number(150.0f64.to_bits()));
    assert_eq!(parse(" 1abc ").len(), 2);
}

#[test]
fn deep_recursion_reaches_the_limit_cleanly() {
    let e = run_error("(define (count n) (if (= n 0) 'done (count (- n 1)))) (count 100000)");
    assert!(matches!(e, LispError::TooDeep));
}


#[test]
fn macro_expansion_runs_in_caller_environment() {
    assert_eq!(
        run("(defmacro (def n v) (cons 'define (cons n (cons v '())))) (def z 5) z"),
        integer(5)
    );
}

#[test]
fn layout_weight_counts_token_lengths() {
    let host = machine();
    assert_eq!(
        pretty_string(&Rc::new(parse_one("(define verylongname x)")), &host),
        "(define verylongname\n   x)"
    );
    assert_eq!(pretty_string(&Rc::new(parse_one("(f a b c)")), &host), "(f a b c)");
}

#[test]
fn root_environment_binds_only_its_names() {
    let env = Env::default();
    assert!(matches!(env.get("car").map(|a| matches!(*a, Atom::NativeFunc(Builtin::Car))), Ok(true)));
    assert!(matches!(env.get("list"), Err(LispError::UnboundSymbol(_))));
}

#[test]
fn recursive_define_calls_itself_not_an_older_binding() {
    assert_eq!(
        run("(define (f n) 1) (define (f n) (if (= n 0) 0 (f (- n 1)))) (f 2)"),
        integer(0)
    );
    assert_eq!(
        run("(define (car n) (if (= n 0) 'done (car (- n 1)))) (car 3)"),
        Atom::symbol("done")
    );
}

#[test]
fn host_requests_count_characters_and_keep_operand_order() {
    let s = Rc::new(create_list(vec![Atom::string("a\u{1F44D}")]));
    assert_eq!(host_request(Builtin::StringLength, &s), Some(HostRequest::Count(2)));
    let xy = Rc::new(create_list(vec![integer(5), integer(2)]));
    assert_eq!(
        host_request(Builtin::Sub, &xy),
        Some(HostRequest::Arithmetic(Builtin::Sub, (5.0f64).to_bits(), (2.0f64).to_bits()))
    );
    assert_eq!(host_request(Builtin::Car, &xy), None);
}
