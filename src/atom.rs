use std::rc::Rc;

use vstd::prelude::*;

use crate::env::{env_set, Env};
use crate::error::{LispError, TypeName};

verus! {

/// The procedures built into the root environment.
#[derive(PartialEq, Eq, Structural, Clone, Copy, Debug)]
pub enum Builtin {
    IntoPrettyString,
    IntoString,
    Print,
    Println,
    IsPair,
    IsSymbol,
    IsString,
    StringLength,
    Car,
    Cdr,
    Cons,
    Add,
    Sub,
    Mul,
    Div,
    Rem,
    NumEq,
    Less,
    LessEq,
    Greater,
    GreaterEq,
}

/// A single value in lwhlisp.
///
/// A number is held as the bit pattern of its IEEE-754 double.
#[derive(Debug)]
pub enum Atom {
    Number(u64),
    String(String),
    Symbol(String),
    /// Lists are right-nested pairs ending in nil.
    Pair(Rc<Atom>, Rc<Atom>),
    /// A procedure of the root environment.
    NativeFunc(Builtin),
    /// Captured environment, formal parameters, body, and the name that
    /// `(define (name ...) ...)` gave it: each call binds that name to the
    /// closure itself.
    Closure(Env, Rc<Atom>, Rc<Atom>, Option<String>),
    /// Same shape as a closure; its result is evaluated again.
    Macro(Env, Rc<Atom>, Rc<Atom>),
}

pub open spec fn is_sym(a: Atom, name: Seq<char>) -> bool {
    a is Symbol && a->Symbol_0@ == name
}

pub open spec fn is_nil_spec(a: Atom) -> bool {
    is_sym(a, "nil"@)
}

/// Nil-terminated chain of pairs.
pub open spec fn proper(a: Atom) -> bool
    decreases a,
{
    match a {
        Atom::Pair(_, d) => proper(*d),
        _ => is_nil_spec(a),
    }
}

/// The cars along the chain of pairs starting at `a`.
pub open spec fn elems(a: Atom) -> Seq<Atom>
    decreases a,
{
    match a {
        Atom::Pair(h, d) => seq![*h] + elems(*d),
        _ => Seq::empty(),
    }
}

/// Number of pairs reachable through cars and cdrs (and the formals and body
/// of closures and macros), plus one per leaf.
pub open spec fn size(a: Atom) -> nat
    decreases a,
{
    match a {
        Atom::Pair(h, d) => 1 + size(*h) + size(*d),
        Atom::Closure(_, f, b, _) => 1 + size(*f) + size(*b),
        Atom::Macro(_, f, b) => 1 + size(*f) + size(*b),
        _ => 1,
    }
}

pub open spec fn car_spec(a: Atom) -> Atom {
    match a {
        Atom::Pair(h, _) => *h,
        _ => a,
    }
}

pub open spec fn cdr_spec(a: Atom) -> Atom {
    match a {
        Atom::Pair(_, d) => *d,
        _ => a,
    }
}

pub open spec fn truthy(a: Atom) -> bool {
    !is_nil_spec(a)
}

/// Structural equality: numbers by bits, strings and symbols by content, pairs
/// recursively. Procedures, closures and macros are never equal.
pub open spec fn atom_eq(a: Atom, b: Atom) -> bool
    decreases a,
{
    match (a, b) {
        (Atom::Number(x), Atom::Number(y)) => x == y,
        (Atom::String(x), Atom::String(y)) => x@ == y@,
        (Atom::Symbol(x), Atom::Symbol(y)) => x@ == y@,
        (Atom::Pair(h1, d1), Atom::Pair(h2, d2)) => atom_eq(*h1, *h2) && atom_eq(*d1, *d2),
        _ => false,
    }
}

/// Holds no procedure, closure or macro anywhere in its tree.
pub open spec fn plain(a: Atom) -> bool
    decreases a,
{
    match a {
        Atom::Pair(h, d) => plain(*h) && plain(*d),
        Atom::NativeFunc(_) | Atom::Closure(..) | Atom::Macro(..) => false,
        _ => true,
    }
}

/// Formal parameters that `lambda` accepts: symbols along the chain, ending in
/// nil or in one symbol that collects the rest.
pub open spec fn formals_ok(a: Atom) -> bool
    decreases a,
{
    match a {
        Atom::Pair(h, d) => (*h is Symbol) && formals_ok(*d),
        Atom::Symbol(_) => true,
        _ => false,
    }
}

pub open spec fn first_bad_formal(a: Atom) -> Atom
    decreases a,
{
    match a {
        Atom::Pair(h, d) => if *h is Symbol { first_bad_formal(*d) } else { *h },
        _ => a,
    }
}

/// Item `i` of a list as `get_list_item_by_index` walks it.
pub open spec fn item_at(a: Atom, i: nat) -> Result<Atom, ()>
    decreases i,
{
    if i == 0 {
        Ok(car_spec(a))
    } else if is_nil_spec(a) {
        item_at(a, (i - 1) as nat)
    } else {
        match a {
            Atom::Pair(_, d) => item_at(*d, (i - 1) as nat),
            _ => Err(()),
        }
    }
}

/// Leaf count of the weight that decides whether a list fits on one line.
pub open spec fn weight_inner(a: Atom) -> nat
    decreases a,
{
    match a {
        Atom::Pair(h, d) => weight_inner(*h) + weight_inner(*d),
        _ => 1,
    }
}

pub open spec fn weight(a: Atom) -> nat {
    match a {
        Atom::Pair(h, d) => weight_inner(*h) + weight_inner(*d),
        Atom::Symbol(s) => s@.len(),
        _ => 1,
    }
}

/// The items that `into_vec` hands out: the cars, then the final tail.
pub open spec fn flat(a: Atom) -> Seq<Atom>
    decreases a,
{
    match a {
        Atom::Pair(h, d) => seq![*h] + flat(*d),
        _ => seq![a],
    }
}

/// `n`, or the largest `usize` where `n` is larger.
pub open spec fn capped(n: nat) -> usize {
    if n > usize::MAX {
        usize::MAX
    } else {
        n as usize
    }
}

/// Compares two strings character by character.
pub fn str_eq(a: &str, b: &str) -> (r: bool)
    ensures
        r == (a@ == b@),
{
    let n = a.unicode_len();
    if n != b.unicode_len() {
        return false;
    }
    let mut i: usize = 0;
    while i < n
        invariant
            n == a@.len(),
            n == b@.len(),
            i <= n,
            forall|j: int| 0 <= j < i ==> a@[j] == b@[j],
        decreases n - i,
    {
        if a.get_char(i) != b.get_char(i) {
            return false;
        }
        i = i + 1;
    }
    assert(a@ =~= b@);
    true
}

/// Copies the string `s` (kept out of the way of derived impls).
pub fn copy_string(s: &String) -> (r: String)
    ensures
        r@ == s@,
{
    s.clone()
}

/// Structural equality of two atoms; see `atom_eq`.
pub fn atoms_equal(a: &Atom, b: &Atom) -> (r: bool)
    ensures
        r == atom_eq(*a, *b),
    decreases *a,
{
    match (a, b) {
        (Atom::Number(x), Atom::Number(y)) => *x == *y,
        (Atom::String(x), Atom::String(y)) => str_eq(x.as_str(), y.as_str()),
        (Atom::Symbol(x), Atom::Symbol(y)) => str_eq(x.as_str(), y.as_str()),
        (Atom::Pair(h1, d1), Atom::Pair(h2, d2)) => atoms_equal(h1, h2) && atoms_equal(d1, d2),
        _ => false,
    }
}

impl PartialEq for Atom {
    fn eq(&self, other: &Atom) -> (r: bool)
        ensures
            r == atom_eq(*self, *other),
    {
        atoms_equal(self, other)
    }
}

impl vstd::std_specs::cmp::PartialEqSpecImpl for Atom {
    open spec fn obeys_eq_spec() -> bool {
        false
    }

    open spec fn eq_spec(&self, other: &Atom) -> bool {
        atom_eq(*self, *other)
    }
}

impl Atom {
    /// A string atom holding the characters of `s`.
    pub fn string(s: &str) -> (r: Atom)
        ensures
            r is String && r->String_0@ == s@,
    {
        Atom::String(String::from_str(s))
    }

    /// Get the car of the atom if it is a pair, else the atom itself.
    pub fn car(a: &Rc<Atom>) -> (r: Rc<Atom>)
        ensures
            *r == car_spec(**a),
    {
        match &**a {
            Atom::Pair(h, _) => h.clone(),
            _ => a.clone(),
        }
    }

    /// Get the cdr of the atom if it is a pair, else the atom itself.
    pub fn cdr(a: &Rc<Atom>) -> (r: Rc<Atom>)
        ensures
            *r == cdr_spec(**a),
    {
        match &**a {
            Atom::Pair(_, d) => d.clone(),
            _ => a.clone(),
        }
    }

    /// The cdr of a pair; nil for nil; an error for anything else.
    pub fn strict_cdr(a: &Rc<Atom>) -> (r: Result<Rc<Atom>, LispError>)
        ensures
            is_nil_spec(**a) ==> r == Ok::<Rc<Atom>, LispError>(*a),
            (**a is Pair) ==> r == Ok::<Rc<Atom>, LispError>(a->Pair_1),
            !is_nil_spec(**a) && !(**a is Pair) ==> r == Err::<Rc<Atom>, LispError>(
                LispError::TypeMismatch { expected: TypeName::List, got: *a },
            ),
    {
        if a.is_nil() {
            Ok(a.clone())
        } else {
            match &**a {
                Atom::Pair(_, d) => Ok(d.clone()),
                _ => Err(LispError::TypeMismatch { expected: TypeName::List, got: a.clone() }),
            }
        }
    }

    /// True if the atom is the symbol nil.
    pub fn is_nil(&self) -> (r: bool)
        ensures
            r == is_nil_spec(*self),
    {
        match self {
            Atom::Symbol(s) => str_eq(s.as_str(), "nil"),
            _ => false,
        }
    }

    /// True if the atom is a nil-terminated chain of pairs.
    pub fn is_proper_list(expr: &Rc<Atom>) -> (r: bool)
        ensures
            r == proper(**expr),
    {
        let mut p = expr.clone();
        while !p.is_nil()
            invariant
                proper(**expr) == proper(*p),
            decreases size(*p),
        {
            match &*p {
                Atom::Pair(_, d) => {
                    let next = d.clone();
                    p = next;
                },
                _ => return false,
            }
        }
        true
    }

    /// True if the atom is a pair.
    pub fn is_list(expr: &Rc<Atom>) -> (r: bool)
        ensures
            r == (**expr is Pair),
    {
        matches!(&**expr, Atom::Pair(_, _))
    }

    pub fn nil() -> (r: Atom)
        ensures
            is_nil_spec(r),
    {
        Atom::Symbol(String::from_str("nil"))
    }

    pub fn t() -> (r: Atom)
        ensures
            is_sym(r, "t"@),
    {
        Atom::Symbol(String::from_str("t"))
    }

    pub fn cons(car: Atom, cdr: Atom) -> (r: Atom)
        ensures
            r == Atom::Pair(Rc::new(car), Rc::new(cdr)),
    {
        Atom::Pair(Rc::new(car), Rc::new(cdr))
    }

    pub fn symbol(name: &str) -> (r: Atom)
        ensures
            is_sym(r, name@),
    {
        Atom::Symbol(String::from_str(name))
    }

    /// The bits of the number if the atom is a number.
    pub fn get_number(a: &Rc<Atom>) -> (r: Result<u64, LispError>)
        ensures
            (**a is Number) ==> r == Ok::<u64, LispError>(a->Number_0),
            !(**a is Number) ==> r == Err::<u64, LispError>(
                LispError::TypeMismatch { expected: TypeName::Number, got: *a },
            ),
    {
        match &**a {
            Atom::Number(x) => Ok(*x),
            _ => Err(LispError::TypeMismatch { expected: TypeName::Number, got: a.clone() }),
        }
    }

    /// The name if the atom is a symbol.
    pub fn get_symbol_name(a: &Rc<Atom>) -> (r: Result<String, LispError>)
        ensures
            (**a is Symbol) ==> (r is Ok && r->Ok_0@ == a->Symbol_0@),
            !(**a is Symbol) ==> r == Err::<String, LispError>(
                LispError::TypeMismatch { expected: TypeName::Symbol, got: *a },
            ),
    {
        match &**a {
            Atom::Symbol(name) => Ok(copy_string(name)),
            _ => Err(LispError::TypeMismatch { expected: TypeName::Symbol, got: a.clone() }),
        }
    }

    /// The number of leaves under a pair (nil terminators included), or the
    /// length of a symbol's name; 1 for any other atom. Saturates at the
    /// largest `usize`.
    pub fn get_list_lenght_including_inner(a: &Rc<Atom>) -> (r: usize)
        ensures
            r == capped(weight(**a)),
    {
        match &**a {
            Atom::Pair(h, d) => Atom::get_list_lenght_including_inner_without_symbol(h).saturating_add(
                Atom::get_list_lenght_including_inner_without_symbol(d),
            ),
            Atom::Symbol(s) => s.as_str().unicode_len(),
            _ => 1,
        }
    }

    /// The number of leaves under a pair (nil terminators included); 1 for
    /// any other atom. Saturates at the largest `usize`.
    pub fn get_list_lenght_including_inner_without_symbol(a: &Rc<Atom>) -> (r: usize)
        ensures
            r == capped(weight_inner(**a)),
        decreases size(**a),
    {
        match &**a {
            Atom::Pair(h, d) => Atom::get_list_lenght_including_inner_without_symbol(h).saturating_add(
                Atom::get_list_lenght_including_inner_without_symbol(d),
            ),
            _ => 1,
        }
    }

    /// A closure over `env`, once its formals and body have been checked.
    pub fn closure(env: Env, args: Rc<Atom>, body: Rc<Atom>) -> (r: Result<Rc<Atom>, LispError>)
        ensures
            r is Ok <==> proper(*body) && formals_ok(*args),
            r is Ok ==> *r->Ok_0 == Atom::Closure(env, args, body, None),
            !proper(*body) ==> r == Err::<Rc<Atom>, LispError>(LispError::InvalidClosureForm(body)),
            proper(*body) && !formals_ok(*args) ==> r == Err::<Rc<Atom>, LispError>(
                LispError::InvalidClosureForm(Rc::new(first_bad_formal(*args))),
            ),
    {
        Atom::validate_closure_form(&args, &body)?;
        Ok(Rc::new(Atom::Closure(env, args, body, None)))
    }

    /// The closure with `name` bound to `value` in a copy of its environment.
    pub fn closure_add_env_binding(atom: &Rc<Atom>, name: String, value: Rc<Atom>) -> (r: Result<
        Rc<Atom>,
        LispError,
    >)
        ensures
            (**atom is Closure) ==> r is Ok && match *r->Ok_0 {
                Atom::Closure(e, f, b, n) => e@ == env_set(atom->Closure_0@, name@, *value) && f
                    == atom->Closure_1 && b == atom->Closure_2 && (n is Some <==> atom->Closure_3 is Some)
                    && (n is Some ==> n->Some_0@ == atom->Closure_3->Some_0@),
                _ => false,
            },
            !(**atom is Closure) ==> r == Err::<Rc<Atom>, LispError>(
                LispError::TypeMismatch { expected: TypeName::Closure, got: *atom },
            ),
    {
        match &**atom {
            Atom::Closure(env, a, b, n) => {
                let mut env = env.duplicate();
                env.set(name, value);
                let n = match n {
                    Some(s) => Some(copy_string(s)),
                    None => None,
                };
                Ok(Rc::new(Atom::Closure(env, a.clone(), b.clone(), n)))
            },
            _ => Err(LispError::TypeMismatch { expected: TypeName::Closure, got: atom.clone() }),
        }
    }

    /// False for nil, true for anything else.
    pub fn as_bool(&self) -> (r: bool)
        ensures
            r == truthy(*self),
    {
        !self.is_nil()
    }

    /// `t` for true, nil for false.
    pub fn bool(b: bool) -> (r: Atom)
        ensures
            b ==> is_sym(r, "t"@),
            !b ==> is_nil_spec(r),
    {
        if b {
            Atom::t()
        } else {
            Atom::nil()
        }
    }

    /// Item `index` of a list: the car after `index` cdrs, where the cdr of
    /// nil is nil and any other atom that is not a pair is an error.
    pub fn get_list_item_by_index(list: &Rc<Atom>, index: usize) -> (r: Result<Rc<Atom>, LispError>)
        ensures
            item_at(**list, index as nat) is Ok ==> r is Ok && *r->Ok_0 == item_at(**list, index as nat)->Ok_0,
            item_at(**list, index as nat) is Err ==> r is Err && r->Err_0 is TypeMismatch,
    {
        let mut cur = list.clone();
        let mut i = index;
        while i > 0
            invariant
                item_at(*cur, i as nat) == item_at(**list, index as nat),
            decreases i,
        {
            i = i - 1;
            cur = Atom::strict_cdr(&cur)?;
        }
        Ok(Atom::car(&cur))
    }

    /// The cars of a chain of pairs, followed by whatever ends it.
    pub fn into_vec(atom: &Rc<Atom>) -> (r: Vec<Rc<Atom>>)
        ensures
            r@.len() == flat(**atom).len(),
            forall|i: int| 0 <= i < r@.len() ==> *#[trigger] r@[i] == flat(**atom)[i],
    {
        let mut v: Vec<Rc<Atom>> = Vec::new();
        let mut cur = atom.clone();
        loop
            invariant
                v@.len() + flat(*cur).len() == flat(**atom).len(),
                forall|i: int| 0 <= i < v@.len() ==> *#[trigger] v@[i] == flat(**atom)[i],
                forall|i: int| 0 <= i < flat(*cur).len() ==> #[trigger] flat(*cur)[i] == flat(**atom)[v@.len() + i],
            decreases size(*cur),
        {
            match &*cur {
                Atom::Pair(h, d) => {
                    proof {
                        assert(flat(*cur)[0] == **h);
                        assert forall|i: int| 0 <= i < flat(**d).len() implies #[trigger] flat(**d)[i] == flat(**atom)[v@.len() + 1 + i] by {
                            assert(flat(*cur)[i + 1] == flat(**d)[i]);
                        }
                    }
                    v.push(h.clone());
                    let next = d.clone();
                    cur = next;
                },
                _ => {
                    v.push(cur.clone());
                    return v;
                },
            }
        }
    }

    /// Checks the formals and the body of a closure or macro.
    pub fn validate_closure_form(args: &Rc<Atom>, body: &Rc<Atom>) -> (r: Result<(), LispError>)
        ensures
            r is Ok <==> proper(**body) && formals_ok(**args),
            !proper(**body) ==> r == Err::<(), LispError>(LispError::InvalidClosureForm(*body)),
            proper(**body) && !formals_ok(**args) ==> r == Err::<
                (),
                LispError,
            >(LispError::InvalidClosureForm(Rc::new(first_bad_formal(**args)))),
    {
        if !Atom::is_proper_list(body) {
            return Err(LispError::InvalidClosureForm(body.clone()));
        }
        let mut p = args.clone();
        while !p.is_nil()
            invariant
                proper(**body),
                formals_ok(**args) == formals_ok(*p),
                !formals_ok(**args) ==> first_bad_formal(**args) == first_bad_formal(*p),
            decreases size(*p),
        {
            match &*p {
                Atom::Symbol(_) => {
                    return Ok(());
                },
                Atom::Pair(h, d) => {
                    if !matches!(&**h, Atom::Symbol(_)) {
                        return Err(LispError::InvalidClosureForm(h.clone()));
                    }
                    let next = d.clone();
                    p = next;
                },
                _ => {
                    return Err(LispError::InvalidClosureForm(p.clone()));
                },
            }
        }
        Ok(())
    }
}

} // verus!
