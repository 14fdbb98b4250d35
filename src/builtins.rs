use std::rc::Rc;

use vstd::prelude::*;

use crate::atom::{
    atom_eq, car_spec, cdr_spec, is_nil_spec, is_sym, Atom, Builtin,
};
use crate::error::{LispError, TypeName};
use crate::host::Host;
use crate::print::{
    debug_text, debug_with, number_count, number_free, pretty_count, pretty_text, pretty_with, shown,
    write_debug, write_pretty,
};

verus! {

/// The name under which the root environment binds a procedure.
pub open spec fn builtin_name(op: Builtin) -> Seq<char> {
    match op {
        Builtin::IntoPrettyString => "into-pretty-string"@,
        Builtin::IntoString => "into-string"@,
        Builtin::Print => "print"@,
        Builtin::Println => "println"@,
        Builtin::IsPair => "pair?"@,
        Builtin::IsSymbol => "symbol?"@,
        Builtin::IsString => "string?"@,
        Builtin::StringLength => "string-length"@,
        Builtin::Car => "car"@,
        Builtin::Cdr => "cdr"@,
        Builtin::Cons => "cons"@,
        Builtin::Add => "+"@,
        Builtin::Sub => "-"@,
        Builtin::Mul => "*"@,
        Builtin::Div => "/"@,
        Builtin::Rem => "%"@,
        Builtin::NumEq => "="@,
        Builtin::Less => "<"@,
        Builtin::LessEq => "<="@,
        Builtin::Greater => ">"@,
        Builtin::GreaterEq => ">="@,
    }
}

pub open spec fn is_arithmetic(op: Builtin) -> bool {
    op == Builtin::Add || op == Builtin::Sub || op == Builtin::Mul || op == Builtin::Div
        || op == Builtin::Rem
}

pub open spec fn is_comparison(op: Builtin) -> bool {
    op == Builtin::Less || op == Builtin::LessEq || op == Builtin::Greater || op
        == Builtin::GreaterEq
}

/// How many operands a procedure takes.
pub open spec fn arity(op: Builtin) -> usize {
    if is_arithmetic(op) || is_comparison(op) || op == Builtin::Cons || op == Builtin::NumEq {
        2
    } else {
        1
    }
}

pub open spec fn one_operand(args: Atom) -> bool {
    !is_nil_spec(args) && is_nil_spec(cdr_spec(args))
}

pub open spec fn two_operands(args: Atom) -> bool {
    !is_nil_spec(args) && !is_nil_spec(cdr_spec(args)) && is_nil_spec(cdr_spec(cdr_spec(args)))
}

pub open spec fn arity_ok(op: Builtin, args: Atom) -> bool {
    if arity(op) == 1 {
        one_operand(args)
    } else {
        two_operands(args)
    }
}

/// `t` for true, nil for false.
pub open spec fn is_truth(a: Atom, b: bool) -> bool {
    if b {
        is_sym(a, "t"@)
    } else {
        is_nil_spec(a)
    }
}

pub open spec fn is_string_with(a: Atom, text: Seq<char>) -> bool {
    a is String && a->String_0@ == text
}

pub open spec fn type_error(r: Result<Rc<Atom>, LispError>, expected: TypeName, got: Atom) -> bool {
    match r {
        Err(LispError::TypeMismatch { expected: e, got: g }) => e == expected && *g == got,
        _ => false,
    }
}

/// What applying the procedure `op` to the evaluated operand list `args`
/// gives. Where the result is a double computed by the host (on the request
/// `request_of(op, args)`), this says that a number comes back.
pub open spec fn builtin_post(op: Builtin, args: Atom, r: Result<Rc<Atom>, LispError>) -> bool {
    let a = car_spec(args);
    let b = car_spec(cdr_spec(args));
    if !arity_ok(op, args) {
        match r {
            Err(LispError::BadArity { form, got, arity: n }) => form@ == builtin_name(op)
                && *got == args && n == arity(op),
            _ => false,
        }
    } else {
        match op {
            Builtin::Car => r is Ok && *r->Ok_0 == car_spec(a),
            Builtin::Cdr => r is Ok && *r->Ok_0 == cdr_spec(a),
            Builtin::Cons => r is Ok && *r->Ok_0 == Atom::Pair(Rc::new(a), Rc::new(b)),
            Builtin::IsPair => r is Ok && is_truth(*r->Ok_0, a is Pair),
            Builtin::IsSymbol => r is Ok && is_truth(*r->Ok_0, a is Symbol),
            Builtin::IsString => r is Ok && is_truth(*r->Ok_0, a is String),
            Builtin::NumEq => r is Ok && is_truth(*r->Ok_0, atom_eq(a, b)),
            Builtin::StringLength => if a is String {
                r is Ok && *r->Ok_0 is Number
            } else {
                type_error(r, TypeName::String, a)
            },
            Builtin::IntoString => r is Ok && *r->Ok_0 is String && (number_free(a)
                ==> is_string_with(*r->Ok_0, debug_text(a))) && exists|t: Seq<Seq<char>>| #[trigger] shown(t)
                && t.len() == number_count(a) && is_string_with(*r->Ok_0, debug_with(a, t)),
            Builtin::IntoPrettyString => r is Ok && *r->Ok_0 is String && (number_free(a)
                ==> is_string_with(*r->Ok_0, pretty_text(a, 0))) && exists|t: Seq<Seq<char>>| #[trigger] shown(t)
                && t.len() == pretty_count(a) && is_string_with(*r->Ok_0, pretty_with(a, 0, t)),
            Builtin::Print | Builtin::Println => r is Ok && *r->Ok_0 is String && (a is String
                ==> is_string_with(*r->Ok_0, a->String_0@)) && (!(a is String) && number_free(a)
                ==> is_string_with(*r->Ok_0, pretty_text(a, 0))) && (!(a is String) ==> exists|t: Seq<Seq<char>>| #[trigger] shown(t)
                && t.len() == pretty_count(a) && is_string_with(*r->Ok_0, pretty_with(a, 0, t))),
            _ => if !(a is Number) {
                type_error(r, TypeName::Number, a)
            } else if !(b is Number) {
                type_error(r, TypeName::Number, b)
            } else if is_arithmetic(op) {
                r is Ok && *r->Ok_0 is Number
            } else {
                r is Ok && (is_truth(*r->Ok_0, true) || is_truth(*r->Ok_0, false))
            },
        }
    }
}

/// What a procedure hands to the host: an operation on two doubles (as
/// bits, in operand order), or a count of characters to turn into a double.
#[derive(PartialEq, Eq, Structural, Clone, Copy, Debug)]
pub enum HostRequest {
    Arithmetic(Builtin, u64, u64),
    Compare(Builtin, u64, u64),
    Count(usize),
}

/// The request that applying `op` to the evaluated operands `args` makes of
/// the host, if it makes one: `string-length` counts the string's
/// characters; arithmetic and comparison pass both numbers in order.
pub open spec fn request_of(op: Builtin, args: Atom) -> Option<HostRequest> {
    let a = car_spec(args);
    let b = car_spec(cdr_spec(args));
    if !arity_ok(op, args) {
        None
    } else if op == Builtin::StringLength {
        if a is String {
            Some(HostRequest::Count(a->String_0@.len() as usize))
        } else {
            None
        }
    } else if (is_arithmetic(op) || is_comparison(op)) && a is Number && b is Number {
        if is_arithmetic(op) {
            Some(HostRequest::Arithmetic(op, a->Number_0, b->Number_0))
        } else {
            Some(HostRequest::Compare(op, a->Number_0, b->Number_0))
        }
    } else {
        None
    }
}

/// Builds the request that applying `op` to `args` makes of the host.
pub fn host_request(op: Builtin, args: &Rc<Atom>) -> (r: Option<HostRequest>)
    ensures
        r == request_of(op, **args),
{
    let rest = Atom::cdr(args);
    let ok = if matches!(
        op,
        Builtin::Cons | Builtin::Add | Builtin::Sub | Builtin::Mul | Builtin::Div | Builtin::Rem
            | Builtin::NumEq | Builtin::Less | Builtin::LessEq | Builtin::Greater
            | Builtin::GreaterEq
    ) {
        !args.is_nil() && !rest.is_nil() && Atom::cdr(&rest).is_nil()
    } else {
        !args.is_nil() && rest.is_nil()
    };
    if !ok {
        return None;
    }
    let a = Atom::car(args);
    let b = Atom::car(&rest);
    match op {
        Builtin::StringLength => match &*a {
            Atom::String(s) => Some(HostRequest::Count(s.as_str().unicode_len())),
            _ => None,
        },
        Builtin::Add | Builtin::Sub | Builtin::Mul | Builtin::Div | Builtin::Rem => match (&*a, &*b) {
            (Atom::Number(x), Atom::Number(y)) => Some(HostRequest::Arithmetic(op, *x, *y)),
            _ => None,
        },
        Builtin::Less | Builtin::LessEq | Builtin::Greater | Builtin::GreaterEq => match (&*a, &*b) {
            (Atom::Number(x), Atom::Number(y)) => Some(HostRequest::Compare(op, *x, *y)),
            _ => None,
        },
        _ => None,
    }
}

/// The names of the root environment are all different.
pub proof fn lemma_root_names_distinct()
    ensures
        forall|a: Builtin, b: Builtin| a != b ==> #[trigger] builtin_name(a) != #[trigger] builtin_name(b),
        forall|a: Builtin| !(#[trigger] builtin_name(a) == "nil"@ || builtin_name(a) == "t"@ || builtin_name(a) == "define"@
            || builtin_name(a) == "defmacro"@ || builtin_name(a) == "lambda"@ || builtin_name(a) == "if"@
            || builtin_name(a) == "quote"@ || builtin_name(a) == "apply"@),
{
    reveal_strlit("into-pretty-string");
    reveal_strlit("into-string");
    reveal_strlit("print");
    reveal_strlit("println");
    reveal_strlit("pair?");
    reveal_strlit("symbol?");
    reveal_strlit("string?");
    reveal_strlit("string-length");
    reveal_strlit("car");
    reveal_strlit("cdr");
    reveal_strlit("cons");
    reveal_strlit("+");
    reveal_strlit("-");
    reveal_strlit("*");
    reveal_strlit("/");
    reveal_strlit("%");
    reveal_strlit("=");
    reveal_strlit("<");
    reveal_strlit("<=");
    reveal_strlit(">");
    reveal_strlit(">=");
    reveal_strlit("nil");
    reveal_strlit("t");
    reveal_strlit("define");
    reveal_strlit("defmacro");
    reveal_strlit("lambda");
    reveal_strlit("if");
    reveal_strlit("quote");
    reveal_strlit("apply");
    assert("into-pretty-string"@[0] == 'i');
    assert("into-string"@[0] == 'i');
    assert("print"@[0] == 'p');
    assert("println"@[0] == 'p');
    assert("pair?"@[0] == 'p');
    assert("symbol?"@[0] == 's');
    assert("string?"@[0] == 's');
    assert("string-length"@[0] == 's');
    assert("car"@[0] == 'c');
    assert("cdr"@[0] == 'c');
    assert("cons"@[0] == 'c');
    assert("+"@[0] == '+');
    assert("-"@[0] == '-');
    assert("*"@[0] == '*');
    assert("/"@[0] == '/');
    assert("%"@[0] == '%');
    assert("="@[0] == '=');
    assert("<"@[0] == '<');
    assert("<="@[0] == '<');
    assert(">"@[0] == '>');
    assert(">="@[0] == '>');
    assert("nil"@[0] == 'n');
    assert("t"@[0] == 't');
    assert("define"@[0] == 'd');
    assert("defmacro"@[0] == 'd');
    assert("lambda"@[0] == 'l');
    assert("if"@[0] == 'i');
    assert("quote"@[0] == 'q');
    assert("apply"@[0] == 'a');
    assert("into-pretty-string"@[1] == 'n');
    assert("into-string"@[1] == 'n');
    assert("print"@[1] == 'r');
    assert("println"@[1] == 'r');
    assert("pair?"@[1] == 'a');
    assert("symbol?"@[1] == 'y');
    assert("string?"@[1] == 't');
    assert("string-length"@[1] == 't');
    assert("car"@[1] == 'a');
    assert("cdr"@[1] == 'd');
    assert("cons"@[1] == 'o');
    assert("<="@[1] == '=');
    assert(">="@[1] == '=');
    assert("nil"@[1] == 'i');
    assert("define"@[1] == 'e');
    assert("defmacro"@[1] == 'e');
    assert("lambda"@[1] == 'a');
    assert("if"@[1] == 'f');
    assert("quote"@[1] == 'u');
    assert("apply"@[1] == 'p');
    assert forall|a: Builtin, b: Builtin| a != b implies #[trigger] builtin_name(a) != #[trigger] builtin_name(b) by {
        assert(builtin_name(a).len() > 0 && builtin_name(b).len() > 0);
    }
}

/// The name of a procedure, as the root environment binds it.
pub fn builtin_name_of(op: Builtin) -> (r: &'static str)
    ensures
        r@ == builtin_name(op),
{
    match op {
        Builtin::IntoPrettyString => "into-pretty-string",
        Builtin::IntoString => "into-string",
        Builtin::Print => "print",
        Builtin::Println => "println",
        Builtin::IsPair => "pair?",
        Builtin::IsSymbol => "symbol?",
        Builtin::IsString => "string?",
        Builtin::StringLength => "string-length",
        Builtin::Car => "car",
        Builtin::Cdr => "cdr",
        Builtin::Cons => "cons",
        Builtin::Add => "+",
        Builtin::Sub => "-",
        Builtin::Mul => "*",
        Builtin::Div => "/",
        Builtin::Rem => "%",
        Builtin::NumEq => "=",
        Builtin::Less => "<",
        Builtin::LessEq => "<=",
        Builtin::Greater => ">",
        Builtin::GreaterEq => ">=",
    }
}

/// Relies on String's FromIterator<char>: the characters in order.
#[verifier::external_body]
pub(crate) fn string_of_chars(chars: &Vec<char>) -> (r: String)
    ensures
        r@ == chars@,
{
    chars.iter().collect()
}

/// `t` or nil.
pub fn truth(b: bool) -> (r: Atom)
    ensures
        is_truth(r, b),
{
    if b {
        Atom::t()
    } else {
        Atom::nil()
    }
}

/// The text that `print` writes: a string's own characters, the indented
/// rendering of anything else.
pub fn format_for_print<H: Host>(a: &Rc<Atom>, host: &H) -> (r: String)
    ensures
        **a is String ==> r@ == a->String_0@,
        !(**a is String) && number_free(**a) ==> r@ == pretty_text(**a, 0),
        !(**a is String) ==> exists|t: Seq<Seq<char>>| #[trigger] shown(t) && t.len() == pretty_count(**a) && r@ == pretty_with(**a, 0, t),
{
    match &**a {
        Atom::String(s) => crate::atom::copy_string(s),
        _ => {
            let mut out: Vec<char> = Vec::new();
            write_pretty(a, 0, host, &mut out);
            proof {
                assert(out@ =~= Seq::<char>::empty() + out@);
                let t = choose|t: Seq<Seq<char>>| #[trigger] shown(t) && t.len() == pretty_count(**a) && out@
                    == Seq::<char>::empty() + pretty_with(**a, 0, t);
                assert(out@ =~= pretty_with(**a, 0, t));
            }
            string_of_chars(&out)
        },
    }
}

/// Applies the procedure `op` to an evaluated operand list.
pub fn apply_builtin<H: Host>(op: Builtin, args: &Rc<Atom>, host: &mut H) -> (r: Result<
    Rc<Atom>,
    LispError,
>)
    ensures
        builtin_post(op, **args, r),
{
    let rest = Atom::cdr(args);
    let wanted: usize = if matches!(
        op,
        Builtin::Cons | Builtin::Add | Builtin::Sub | Builtin::Mul | Builtin::Div | Builtin::Rem
            | Builtin::NumEq | Builtin::Less | Builtin::LessEq | Builtin::Greater
            | Builtin::GreaterEq
    ) {
        2
    } else {
        1
    };
    let ok = if wanted == 1 {
        !args.is_nil() && rest.is_nil()
    } else {
        !args.is_nil() && !rest.is_nil() && Atom::cdr(&rest).is_nil()
    };
    if !ok {
        return Err(
            LispError::BadArity {
                form: String::from_str(builtin_name_of(op)),
                got: args.clone(),
                arity: wanted,
            },
        );
    }
    let a = Atom::car(args);
    let b = Atom::car(&rest);
    match op {
        Builtin::Car => Ok(Atom::car(&a)),
        Builtin::Cdr => Ok(Atom::cdr(&a)),
        Builtin::Cons => Ok(Rc::new(Atom::Pair(a, b))),
        Builtin::IsPair => Ok(Rc::new(truth(Atom::is_list(&a)))),
        Builtin::IsSymbol => Ok(Rc::new(truth(matches!(&*a, Atom::Symbol(_))))),
        Builtin::IsString => Ok(Rc::new(truth(matches!(&*a, Atom::String(_))))),
        Builtin::NumEq => Ok(Rc::new(truth(crate::atom::atoms_equal(&a, &b)))),
        Builtin::StringLength => match host_request(op, args) {
            Some(HostRequest::Count(n)) => Ok(Rc::new(Atom::Number(host.count_to_number(n)))),
            _ => Err(LispError::TypeMismatch { expected: TypeName::String, got: a.clone() }),
        },
        Builtin::IntoString => {
            let mut out: Vec<char> = Vec::new();
            write_debug(&a, host, &mut out);
            proof {
                assert(out@ =~= Seq::<char>::empty() + out@);
                let t = choose|t: Seq<Seq<char>>| #[trigger] shown(t) && t.len() == number_count(*a) && out@
                    == Seq::<char>::empty() + debug_with(*a, t);
                assert(out@ =~= debug_with(*a, t));
            }
            Ok(Rc::new(Atom::String(string_of_chars(&out))))
        },
        Builtin::IntoPrettyString => {
            let mut out: Vec<char> = Vec::new();
            write_pretty(&a, 0, host, &mut out);
            proof {
                assert(out@ =~= Seq::<char>::empty() + out@);
            }
            proof {
                let t = choose|t: Seq<Seq<char>>| #[trigger] shown(t) && t.len() == pretty_count(*a) && out@
                    == Seq::<char>::empty() + pretty_with(*a, 0, t);
                assert(out@ =~= pretty_with(*a, 0, t));
            }
            Ok(Rc::new(Atom::String(string_of_chars(&out))))
        },
        Builtin::Print | Builtin::Println => {
            let s = format_for_print(&a, host);
            host.emit(s.as_str());
            if matches!(op, Builtin::Println) {
                host.emit("\n");
            }
            Ok(Rc::new(Atom::String(s)))
        },
        _ => match host_request(op, args) {
            Some(HostRequest::Arithmetic(o, x, y)) => Ok(Rc::new(Atom::Number(host.arithmetic(o, x, y)))),
            Some(HostRequest::Compare(o, x, y)) => Ok(Rc::new(truth(host.compare(o, x, y)))),
            _ => {
                Atom::get_number(&a)?;
                Atom::get_number(&b)?;
                Err(LispError::TypeMismatch { expected: TypeName::Number, got: a.clone() })
            },
        },
    }
}

} // verus!
