use std::rc::Rc;

use vstd::prelude::*;

use crate::atom::{
    car_spec, cdr_spec, elems, formals_ok, is_nil_spec, is_sym, proper, size, str_eq, truthy, Atom,
};
use crate::builtins::{apply_builtin, builtin_post};
use crate::env::{env_set, find_in, Env, Frame};
use crate::error::{LispError, TypeName};
use crate::host::Host;

verus! {

/// How deeply evaluation may nest before it gives up with `TooDeep`.
pub const MAX_DEPTH: usize = 2000;

/// A list of the atoms of `v`, in order, ending in nil.
pub fn list_from_vec(v: &Vec<Rc<Atom>>) -> (r: Rc<Atom>)
    ensures
        proper(*r),
        elems(*r).len() == v@.len(),
        forall|i: int| 0 <= i < v@.len() ==> #[trigger] elems(*r)[i] == *v@[i],
{
    let mut acc = Rc::new(Atom::nil());
    let mut i = v.len();
    while i > 0
        invariant
            i <= v@.len(),
            proper(*acc),
            elems(*acc).len() == v@.len() - i,
            forall|j: int| 0 <= j < v@.len() - i ==> #[trigger] elems(*acc)[j] == *v@[i + j],
        decreases i,
    {
        i = i - 1;
        let next = Rc::new(Atom::Pair(v[i].clone(), acc));
        proof {
            assert forall|j: int| 0 <= j < v@.len() - i implies #[trigger] elems(*next)[j] == *v@[i + j] by {
                if j > 0 {
                    assert(elems(*next)[j] == elems(*acc)[j - 1]);
                }
            }
        }
        acc = next;
    }
    acc
}

/// `(quote x)` for each item `x` of a proper list, in order.
pub fn quote_elements_in_list(x: &Rc<Atom>) -> (r: Rc<Atom>)
    requires
        proper(**x),
    ensures
        proper(*r),
        elems(*r).len() == elems(**x).len(),
        forall|i: int| 0 <= i < elems(**x).len() ==> {
            let q = #[trigger] elems(*r)[i];
            proper(q) && elems(q).len() == 2 && is_sym(elems(q)[0], "quote"@) && elems(q)[1]
                == elems(**x)[i]
        },
{
    let mut v: Vec<Rc<Atom>> = Vec::new();
    let mut cur = x.clone();
    while !cur.is_nil()
        invariant
            proper(*cur),
            v@.len() + elems(*cur).len() == elems(**x).len(),
            forall|j: int| 0 <= j < elems(*cur).len() ==> #[trigger] elems(*cur)[j] == elems(**x)[v@.len() + j],
            forall|j: int| 0 <= j < v@.len() ==> {
                let q = #[trigger] *v@[j];
                proper(q) && elems(q).len() == 2 && is_sym(elems(q)[0], "quote"@) && elems(q)[1]
                    == elems(**x)[j]
            },
        decreases size(*cur),
    {
        match &*cur {
            Atom::Pair(h, d) => {
                let nil = Rc::new(Atom::nil());
                let inner = Atom::Pair(h.clone(), nil);
                proof {
                    assert(elems(*nil) =~= Seq::<Atom>::empty());
                    assert(proper(*nil));
                    assert(elems(inner) =~= seq![**h]);
                    assert(proper(inner));
                }
                let quote = Rc::new(Atom::symbol("quote"));
                let quoted = Atom::Pair(quote, Rc::new(inner));
                proof {
                    assert(elems(*cur)[0] == **h);
                    assert(elems(quoted) =~= seq![*quote, **h]);
                    assert(proper(quoted));
                    assert forall|j: int| 0 <= j < elems(**d).len() implies #[trigger] elems(**d)[j] == elems(**x)[v@.len() + 1 + j] by {
                        assert(elems(*cur)[j + 1] == elems(**d)[j]);
                    }
                }
                let ghost k = v@.len();
                v.push(Rc::new(quoted));
                proof {
                    assert(*v@[k as int] == quoted);
                    assert(elems(quoted)[1] == elems(**x)[k as int]);
                }
                let next = d.clone();
                cur = next;
            },
            _ => {
                return list_from_vec(&v);
            },
        }
    }
    list_from_vec(&v)
}

/// `r` is a `BadArity` error for the form `form` with the operands `args`.
pub open spec fn is_bad_arity(r: Result<Rc<Atom>, LispError>, form: Seq<char>, args: Atom, arity: usize) -> bool {
    match r {
        Err(LispError::BadArity { form: f, got: g, arity: n }) => f@ == form && *g == args && n == arity,
        _ => false,
    }
}

/// The operand count that a special form or procedure wanted, with the
/// operands it got.
fn bad_arity(form: &str, got: &Rc<Atom>, arity: usize) -> (r: LispError)
    ensures
        is_bad_arity(Err(r), form@, **got, arity),
{
    LispError::BadArity { form: String::from_str(form), got: got.clone(), arity }
}

/// What `(quote . args)` gives: the one operand, unevaluated.
pub open spec fn quote_post(args: Atom, r: Result<Rc<Atom>, LispError>) -> bool {
    if !is_nil_spec(args) && is_nil_spec(cdr_spec(args)) {
        r is Ok && *r->Ok_0 == car_spec(args)
    } else {
        is_bad_arity(r, "quote"@, args, 1)
    }
}

/// What `(lambda . args)` gives in an environment with frames `frames`: a
/// closure over those frames, once its formals and body are checked.
pub open spec fn lambda_post(args: Atom, frames: Seq<crate::env::Frame>, r: Result<Rc<Atom>, LispError>) -> bool {
    if is_nil_spec(args) || is_nil_spec(cdr_spec(args)) {
        is_bad_arity(r, "lambda"@, args, 2)
    } else {
        &&& r is Ok <==> proper(cdr_spec(args)) && formals_ok(car_spec(args))
        &&& r is Ok ==> match *r->Ok_0 {
            Atom::Closure(e, f, b, n) => e@ == frames && *f == car_spec(args) && *b == cdr_spec(args)
                && n is None,
            _ => false,
        }
        &&& r is Err ==> r->Err_0 is InvalidClosureForm
    }
}

/// What `(defmacro . args)` does to an environment with frames `before`,
/// leaving `after`: it binds a macro over `before` in the innermost frame
/// and gives its name, once the shape, the formals and the body are checked.
pub open spec fn defmacro_post(args: Atom, before: Seq<Frame>, after: Seq<Frame>, r: Result<Rc<Atom>, LispError>) -> bool {
    let name = car_spec(car_spec(args));
    if !(args is Pair) || is_nil_spec(cdr_spec(args)) {
        is_bad_arity(r, "defmacro"@, args, 2) && after == before
    } else {
        &&& r is Ok <==> name is Symbol && proper(cdr_spec(args)) && formals_ok(cdr_spec(car_spec(args)))
        &&& r is Err ==> after == before
        &&& !(name is Symbol) ==> r == Err::<Rc<Atom>, LispError>(
            LispError::TypeMismatch { expected: TypeName::Symbol, got: Rc::new(name) },
        )
        &&& name is Symbol && r is Err ==> r->Err_0 is InvalidClosureForm
        &&& r is Ok ==> {
            &&& *r->Ok_0 == name
            &&& exists|m: Atom| #![auto] after == env_set(before, name->Symbol_0@, m) && match m {
                Atom::Macro(e, f, b) => e@ == before && *f == cdr_spec(car_spec(args)) && *b == cdr_spec(args),
                _ => false,
            }
        }
    }
}

/// What `(define . args)` does, where it evaluates nothing, to an
/// environment with frames `before`, leaving `after`: a wrong operand count,
/// a target that is neither a symbol nor a list, or `(define (name .
/// formals) body...)`, which binds in the innermost frame a closure over
/// `before` that carries the name: each call binds the name to the closure
/// itself, so that it can call itself.
pub open spec fn define_post(args: Atom, before: Seq<Frame>, after: Seq<Frame>, r: Result<Rc<Atom>, LispError>) -> bool {
    let target = car_spec(args);
    if is_nil_spec(args) || is_nil_spec(cdr_spec(args)) {
        is_bad_arity(r, "define"@, args, 2) && after == before
    } else if target is Pair {
        let name = car_spec(target);
        &&& r is Ok <==> name is Symbol && proper(cdr_spec(args)) && formals_ok(cdr_spec(target))
        &&& r is Err ==> after == before
        &&& !(proper(cdr_spec(args)) && formals_ok(cdr_spec(target))) ==> r is Err && r->Err_0 is InvalidClosureForm
        &&& proper(cdr_spec(args)) && formals_ok(cdr_spec(target)) && !(name is Symbol) ==> r == Err::<
            Rc<Atom>,
            LispError,
        >(LispError::TypeMismatch { expected: TypeName::Symbol, got: Rc::new(name) })
        &&& r is Ok ==> {
            &&& *r->Ok_0 == name
            &&& exists|c: Atom| #![auto] after == env_set(before, name->Symbol_0@, c) && match c {
                Atom::Closure(e, f, b, n) => e@ == before && *f == cdr_spec(target) && *b == cdr_spec(args)
                    && n is Some && n->Some_0@ == name->Symbol_0@,
                _ => false,
            }
        }
    } else {
        r == Err::<Rc<Atom>, LispError>(LispError::TypeMismatch { expected: TypeName::Symbol, got: Rc::new(target) })
            && after == before
    }
}


/// What evaluation ends in: a value or an error.
pub type Outcome = Result<Rc<Atom>, LispError>;

/// Evaluating `e` in the frames `f`, with combinations nested at most `d`
/// deep, can end in `r` with the frames `g`. Where a procedure computes a
/// double, any number may come back: the host computes it.
pub open spec fn ev(e: Atom, f: Seq<Frame>, d: nat, r: Outcome, g: Seq<Frame>) -> bool
    decreases d, 0nat, 0nat,
{
    match e {
        Atom::Number(_) | Atom::String(_) | Atom::NativeFunc(_) | Atom::Closure(..) => r is Ok
            && *r->Ok_0 == e && g == f,
        Atom::Macro(..) => r == Err::<Rc<Atom>, LispError>(LispError::MacroEvaluated(Rc::new(e)))
            && g == f,
        Atom::Symbol(s) => g == f && match find_in(f, s@) {
            Some(v) => r is Ok && *r->Ok_0 == v,
            None => r is Err && r->Err_0 is UnboundSymbol && r->Err_0->UnboundSymbol_0@ == s@,
        },
        Atom::Pair(..) => if !proper(e) {
            r == Err::<Rc<Atom>, LispError>(LispError::ImproperApplication(Rc::new(e))) && g == f
        } else if d == 0 {
            r == Err::<Rc<Atom>, LispError>(LispError::TooDeep) && g == f
        } else {
            comb(e, f, (d - 1) as nat, r, g)
        },
    }
}

/// A combination: its operator is evaluated, then applied to the operands.
pub open spec fn comb(e: Atom, f: Seq<Frame>, d: nat, r: Outcome, g: Seq<Frame>) -> bool
    decreases d, 5nat, 0nat,
{
    exists|o: Outcome, f1: Seq<Frame>| #[trigger] step(o, f1) && ev(car_spec(e), f, d, o, f1) && match o {
        Ok(v) => app(*v, cdr_spec(e), f1, d, r, g),
        Err(_) => r == o && g == f1,
    }
}

/// Marks an intermediate outcome and the frames it leaves.
pub open spec fn step(o: Outcome, f: Seq<Frame>) -> bool {
    true
}

/// Marks how binding formals ended, and the caller's and callee's frames.
pub open spec fn bound(br: Result<(), LispError>, c: Seq<Frame>, ff: Seq<Frame>) -> bool {
    true
}

/// Applying the operator value `v` to the unevaluated operands `args`: a
/// symbol names a special form; a procedure gets the operands' values; a
/// closure or macro is called; anything else cannot be applied.
pub open spec fn app(v: Atom, args: Atom, f: Seq<Frame>, d: nat, r: Outcome, g: Seq<Frame>) -> bool
    decreases d, 4nat, 0nat,
{
    match v {
        Atom::Symbol(k) => form(k@, v, args, f, d, r, g),
        Atom::NativeFunc(op) => exists|vs: Outcome, f1: Seq<Frame>| #[trigger] step(vs, f1) && evs(args, f, d, vs, f1)
            && match vs {
            Ok(l) => builtin_post(op, *l, r) && g == f1,
            Err(_) => r == vs && g == f1,
        },
        Atom::Closure(ce, fo, b, _) => call(self_frame(v), ce@, *fo, args, *b, f, d, true, r, g),
        Atom::Macro(ce, fo, b) => call(self_frame(v), ce@, *fo, args, *b, f, d, false, r, g),
        _ => r == Err::<Rc<Atom>, LispError>(LispError::NotApplicable(Rc::new(v))) && g == f,
    }
}

/// A special form, by the keyword `k` that names it; any other symbol
/// cannot be applied.
pub open spec fn form(k: Seq<char>, v: Atom, args: Atom, f: Seq<Frame>, d: nat, r: Outcome, g: Seq<Frame>) -> bool
    decreases d, 3nat, 0nat,
{
    if k == "quote"@ {
        quote_post(args, r) && g == f
    } else if k == "lambda"@ {
        lambda_post(args, f, r) && g == f
    } else if k == "define"@ {
        define_ev(args, f, d, r, g)
    } else if k == "defmacro"@ {
        defmacro_post(args, f, g, r)
    } else if k == "if"@ {
        if_ev(args, f, d, r, g)
    } else if k == "apply"@ {
        apply_ev(args, f, d, r, g)
    } else {
        r == Err::<Rc<Atom>, LispError>(LispError::NotApplicable(Rc::new(v))) && g == f
    }
}

/// `(define . args)`: `(define name value)` binds, in the innermost frame of
/// the frames left after evaluating `value`, what it evaluates to, and gives
/// the name.
pub open spec fn define_ev(args: Atom, f: Seq<Frame>, d: nat, r: Outcome, g: Seq<Frame>) -> bool
    decreases d, 2nat, 1nat,
{
    let target = car_spec(args);
    if !is_nil_spec(args) && !is_nil_spec(cdr_spec(args)) && target is Symbol {
        exists|o: Outcome, f1: Seq<Frame>| #[trigger] step(o, f1) && ev(car_spec(cdr_spec(args)), f, d, o, f1)
            && match o {
            Ok(v) => r is Ok && *r->Ok_0 == target && f1.len() >= 1 && g == env_set(f1, target->Symbol_0@, *v),
            Err(_) => r == o && g == f1,
        }
    } else {
        define_post(args, f, g, r)
    }
}

/// `(if test then else)`.
pub open spec fn if_ev(args: Atom, f: Seq<Frame>, d: nat, r: Outcome, g: Seq<Frame>) -> bool
    decreases d, 2nat, 2nat,
{
    if !three_operand_form(args) {
        is_bad_arity(r, "if"@, args, 3) && g == f
    } else {
        exists|t: Outcome, f1: Seq<Frame>| #[trigger] step(t, f1) && ev(car_spec(args), f, d, t, f1) && if_rest(
            args,
            t,
            f1,
            d,
            r,
            g,
        )
    }
}

/// After the test of `if` ended in `t`: the branch it picks.
pub open spec fn if_rest(args: Atom, t: Outcome, f1: Seq<Frame>, d: nat, r: Outcome, g: Seq<Frame>) -> bool
    decreases d, 2nat, 1nat,
{
    match t {
        Ok(v) => ev(
            if truthy(*v) {
                car_spec(cdr_spec(args))
            } else {
                car_spec(cdr_spec(cdr_spec(args)))
            },
            f1,
            d,
            r,
            g,
        ),
        Err(_) => r == t && g == f1,
    }
}

/// `(apply f list)`.
pub open spec fn apply_ev(args: Atom, f: Seq<Frame>, d: nat, r: Outcome, g: Seq<Frame>) -> bool
    decreases d, 2nat, 3nat,
{
    if !two_operand_form(args) {
        is_bad_arity(r, "apply"@, args, 2) && g == f
    } else {
        exists|o: Outcome, f1: Seq<Frame>| #[trigger] step(o, f1) && ev(car_spec(args), f, d, o, f1) && apply_rest(
            args,
            o,
            f1,
            d,
            r,
            g,
        )
    }
}

/// After the procedure operand of `apply` ended in `o`: its list operand.
pub open spec fn apply_rest(args: Atom, o: Outcome, f1: Seq<Frame>, d: nat, r: Outcome, g: Seq<Frame>) -> bool
    decreases d, 2nat, 2nat,
{
    match o {
        Ok(func) => exists|o2: Outcome, f2: Seq<Frame>| #[trigger] step(o2, f2) && ev(
            car_spec(cdr_spec(args)),
            f1,
            d,
            o2,
            f2,
        ) && apply_call(*func, o2, f2, d, r, g),
        Err(_) => r == o && g == f1,
    }
}

/// `q` is the list of `(quote x)` for the items `x` of `l`.
pub open spec fn quotes(q: Atom, l: Atom) -> bool {
    &&& proper(q)
    &&& elems(q).len() == elems(l).len()
    &&& forall|i: int| 0 <= i < elems(l).len() ==> {
        let x = #[trigger] elems(q)[i];
        proper(x) && elems(x).len() == 2 && is_sym(elems(x)[0], "quote"@) && elems(x)[1]
            == elems(l)[i]
    }
}

/// The call that `apply` makes once its list operand ended in `o2`: the
/// procedure applied to the quoted items, or a `TypeMismatch` where the list
/// is not proper.
pub open spec fn apply_call(func: Atom, o2: Outcome, f2: Seq<Frame>, d: nat, r: Outcome, g: Seq<Frame>) -> bool
    decreases d, 2nat, 1nat,
{
    match o2 {
        Ok(l) => if !proper(*l) {
            r == Err::<Rc<Atom>, LispError>(
                LispError::TypeMismatch { expected: TypeName::List, got: l },
            ) && g == f2
        } else {
            exists|q: Atom| #[trigger] quotes(q, *l) && ev(
                Atom::Pair(Rc::new(func), Rc::new(q)),
                f2,
                d,
                r,
                g,
            )
        },
        Err(_) => r == o2 && g == f2,
    }
}

/// Evaluating the items of `args` left to right: the list of their values,
/// or the first error.
pub open spec fn evs(args: Atom, f: Seq<Frame>, d: nat, vs: Outcome, g: Seq<Frame>) -> bool
    decreases d, 1nat, 2 * size(args) + 1,
{
    if args is Pair {
        exists|o: Outcome, f1: Seq<Frame>| #[trigger] step(o, f1) && ev(car_spec(args), f, d, o, f1) && match o {
            Ok(v) => evs_more(args, v, f1, d, vs, g),
            Err(_) => vs == o && g == f1,
        }
    } else {
        vs is Ok && is_nil_spec(*vs->Ok_0) && g == f
    }
}

/// The items after the first, whose value is `v`.
pub open spec fn evs_more(args: Atom, v: Rc<Atom>, f1: Seq<Frame>, d: nat, vs: Outcome, g: Seq<Frame>) -> bool
    decreases d, 1nat, 2 * size(args),
{
    args is Pair && exists|rest: Outcome, g2: Seq<Frame>| #[trigger] step(rest, g2) && evs(cdr_spec(args), f1, d, rest, g2)
        && match rest {
        Ok(l) => vs is Ok && *vs->Ok_0 == Atom::Pair(v, l) && g == g2,
        Err(_) => vs == rest && g == g2,
    }
}

/// Evaluating a body, expression by expression: the value of the last one
/// (nil for an empty body), or the first error.
pub open spec fn body_ev(b: Atom, f: Seq<Frame>, d: nat, r: Outcome, g: Seq<Frame>) -> bool
    decreases d, 1nat, size(b),
{
    if b is Pair {
        exists|o: Outcome, f1: Seq<Frame>| #[trigger] step(o, f1) && ev(car_spec(b), f, d, o, f1) && match o {
            Ok(_) => if cdr_spec(b) is Pair {
                body_ev(cdr_spec(b), f1, d, r, g)
            } else {
                r == o && g == f1
            },
            Err(_) => r == o && g == f1,
        }
    } else {
        r is Ok && is_nil_spec(*r->Ok_0) && g == f
    }
}

/// Binding the formals `names` to the operands `rest`, into the callee's
/// frames `ff` (ending as `fg`); a closure's operands are evaluated in the
/// caller's frames `cf` (ending as `cg`), a macro's are bound as they are.
pub open spec fn bind(
    names: Atom,
    rest: Atom,
    cf: Seq<Frame>,
    ff: Seq<Frame>,
    d: nat,
    evaluate: bool,
    br: Result<(), LispError>,
    cg: Seq<Frame>,
    fg: Seq<Frame>,
) -> bool
    decreases d, 2nat, 2 * size(names) + 1,
{
    if is_nil_spec(names) {
        cg == cf && fg == ff && if is_nil_spec(rest) {
            br is Ok
        } else {
            br == Err::<(), LispError>(LispError::TooManyArguments)
        }
    } else {
        match names {
            Atom::Symbol(s) => if evaluate {
                exists|vs: Outcome, c1: Seq<Frame>| #[trigger] step(vs, c1) && evs(rest, cf, d, vs, c1) && cg == c1
                    && match vs {
                    Ok(l) => br is Ok && fg == env_set(ff, s@, *l),
                    Err(e) => br == Err::<(), LispError>(e) && fg == ff,
                }
            } else {
                br is Ok && cg == cf && fg == env_set(ff, s@, rest)
            },
            Atom::Pair(..) => if is_nil_spec(rest) {
                br == Err::<(), LispError>(LispError::TooFewArguments) && cg == cf && fg == ff
            } else if evaluate {
                exists|o: Outcome, c1: Seq<Frame>| #[trigger] step(o, c1) && ev(car_spec(rest), cf, d, o, c1)
                    && bind_more(names, rest, o, c1, ff, d, evaluate, br, cg, fg)
            } else {
                bind_more(
                    names,
                    rest,
                    Ok(Rc::new(car_spec(rest))),
                    cf,
                    ff,
                    d,
                    evaluate,
                    br,
                    cg,
                    fg,
                )
            },
            _ => br == Err::<(), LispError>(LispError::InvalidClosureForm(Rc::new(names)))
                && cg == cf && fg == ff,
        }
    }
}

/// The first formal once its operand ended in `o`, then the other formals.
pub open spec fn bind_more(
    names: Atom,
    rest: Atom,
    o: Outcome,
    c1: Seq<Frame>,
    ff: Seq<Frame>,
    d: nat,
    evaluate: bool,
    br: Result<(), LispError>,
    cg: Seq<Frame>,
    fg: Seq<Frame>,
) -> bool
    decreases d, 2nat, 2 * size(names),
{
    let n = car_spec(names);
    names is Pair && match o {
        Ok(v) => if n is Symbol {
            bind(cdr_spec(names), cdr_spec(rest), c1, env_set(ff, n->Symbol_0@, *v), d, evaluate, br, cg, fg)
        } else {
            br == Err::<(), LispError>(LispError::TypeMismatch { expected: TypeName::Symbol, got: Rc::new(n) })
                && cg == c1 && fg == ff
        },
        Err(e) => br == Err::<(), LispError>(e) && cg == c1 && fg == ff,
    }
}

/// The frame a call of `v` starts from: a closure made by `(define (name
/// ...) ...)` finds its name bound to itself there.
pub open spec fn self_frame(v: Atom) -> Frame {
    match v {
        Atom::Closure(_, _, _, Some(n)) => Frame::empty().insert(n@, v),
        _ => Frame::empty(),
    }
}

/// Calling a closure (`evaluate` true) or a macro over the frames `ce` with
/// the formals `fo`, the operands `args` and the body `b`, from the frames
/// `f`. The callee's frames are `first`, then `ce`, then the caller's
/// frames. A closure gives the value of its body; a macro gives the
/// value of its expansion (the body's value) evaluated in the caller's
/// frames.
pub open spec fn call(
    first: Frame,
    ce: Seq<Frame>,
    fo: Atom,
    args: Atom,
    b: Atom,
    f: Seq<Frame>,
    d: nat,
    evaluate: bool,
    r: Outcome,
    g: Seq<Frame>,
) -> bool
    decreases d, 3nat, 1nat,
{
    exists|br: Result<(), LispError>, c1: Seq<Frame>, ff: Seq<Frame>| #[trigger] bound(br, c1, ff) && bind(
        fo,
        args,
        f,
        seq![first] + ce + f,
        d,
        evaluate,
        br,
        c1,
        ff,
    ) && match br {
        Ok(_) => exists|o: Outcome, fb: Seq<Frame>| #[trigger] step(o, fb) && body_ev(b, ff, d, o, fb) && if evaluate {
            r == o && g == c1
        } else {
            match o {
                Ok(x) => ev(*x, c1, d, r, g),
                Err(_) => r == o && g == c1,
            }
        },
        Err(e) => r == Err::<Rc<Atom>, LispError>(e) && g == c1,
    }
}

/// `(quote x)`: exactly one operand, returned unevaluated.
pub fn eval_special_form_quote(args: &Rc<Atom>) -> (r: Result<Rc<Atom>, LispError>)
    ensures
        quote_post(**args, r),
{
    if args.is_nil() || !Atom::cdr(args).is_nil() {
        Err(bad_arity("quote", args, 1))
    } else {
        Ok(Atom::car(args))
    }
}

/// `(lambda formals body...)`: a closure over the current environment.
pub fn eval_special_form_lambda(args: &Rc<Atom>, env: &Env) -> (r: Result<Rc<Atom>, LispError>)
    ensures
        lambda_post(**args, env@, r),
{
    if args.is_nil() || Atom::cdr(args).is_nil() {
        Err(bad_arity("lambda", args, 2))
    } else {
        Atom::closure(env.duplicate(), Atom::car(args), Atom::cdr(args))
    }
}

/// `(defmacro (name . formals) body...)`: binds a macro in this frame and
/// returns the name.
pub fn eval_special_form_defmacro(args: &Rc<Atom>, env: &mut Env) -> (r: Result<Rc<Atom>, LispError>)
    ensures
        defmacro_post(**args, old(env)@, final(env)@, r),
        final(env)@.len() == old(env)@.len(),
{
    if args.is_nil() || Atom::cdr(args).is_nil() || !Atom::is_list(args) {
        return Err(bad_arity("defmacro", args, 2));
    }
    let head = Atom::car(args);
    let name = Atom::car(&head);
    match &*name {
        Atom::Symbol(sym) => {
            let formals = Atom::cdr(&head);
            let body = Atom::cdr(args);
            Atom::validate_closure_form(&formals, &body)?;
            let makro = Rc::new(Atom::Macro(env.duplicate(), formals, body));
            env.set(crate::atom::copy_string(sym), makro);
            Ok(name.clone())
        },
        _ => Err(LispError::TypeMismatch { expected: TypeName::Symbol, got: name.clone() }),
    }
}

pub open spec fn three_operand_form(args: Atom) -> bool {
    !is_nil_spec(args) && !is_nil_spec(cdr_spec(args)) && !is_nil_spec(cdr_spec(cdr_spec(args)))
        && is_nil_spec(cdr_spec(cdr_spec(cdr_spec(args))))
}

pub open spec fn two_operand_form(args: Atom) -> bool {
    !is_nil_spec(args) && !is_nil_spec(cdr_spec(args)) && is_nil_spec(cdr_spec(cdr_spec(args)))
}


/// Evaluates each item of a list in `env`, left to right, into a new list.
pub fn eval_elements_in_list<H: Host>(x: &Rc<Atom>, env: &mut Env, host: &mut H, depth: usize) -> (r: Outcome)
    ensures
        evs(**x, old(env)@, depth as nat, r, final(env)@),
    decreases depth, 1nat, 2 * size(**x) + 1,
{
    match &**x {
        Atom::Pair(h, t) => {
            let ghost f0 = env@;
            let o = eval_in(h, env, host, depth);
            let ghost f1 = env@;
            match o {
                Ok(v) => {
                    let rest = eval_elements_in_list(t, env, host, depth);
                    let ghost g2 = env@;
                    let r = match rest {
                        Ok(l) => Ok(Rc::new(Atom::Pair(v, l))),
                        Err(e) => Err(e),
                    };
                    assert(evs(cdr_spec(**x), f1, depth as nat, rest, g2));
                    assert(step(rest, g2));
                    assert(evs_more(**x, v, f1, depth as nat, r, g2));
                    assert(ev(car_spec(**x), f0, depth as nat, Ok::<Rc<Atom>, LispError>(v), f1));
                    assert(step(Ok::<Rc<Atom>, LispError>(v), f1));
                    r
                },
                Err(e) => {
                    assert(ev(car_spec(**x), f0, depth as nat, Err::<Rc<Atom>, LispError>(e), f1));
                    assert(step(Err::<Rc<Atom>, LispError>(e), f1));
                    Err(e)
                },
            }
        },
        _ => Ok(Rc::new(Atom::nil())),
    }
}

/// Evaluates each expression of a body in `env`; the value of the last one
/// is the result (nil for an empty body).
fn eval_body<H: Host>(body: &Rc<Atom>, env: &mut Env, host: &mut H, depth: usize) -> (r: Outcome)
    ensures
        body_ev(**body, old(env)@, depth as nat, r, final(env)@),
    decreases depth, 1nat, size(**body),
{
    match &**body {
        Atom::Pair(h, t) => {
            let ghost f0 = env@;
            let o = eval_in(h, env, host, depth);
            let ghost f1 = env@;
            assert(ev(car_spec(**body), f0, depth as nat, o, f1));
            assert(step(o, f1));
            match o {
                Ok(v) => if Atom::is_list(t) {
                    eval_body(t, env, host, depth)
                } else {
                    Ok(v)
                },
                Err(e) => Err(e),
            }
        },
        _ => Ok(Rc::new(Atom::nil())),
    }
}

/// Binds the formals `names` to the operands `rest` in `func_env`; a
/// closure's operands are evaluated in `env`.
fn bind_formals<H: Host>(
    names: &Rc<Atom>,
    rest: &Rc<Atom>,
    env: &mut Env,
    func_env: &mut Env,
    host: &mut H,
    depth: usize,
    evaluate: bool,
) -> (br: Result<(), LispError>)
    ensures
        bind(**names, **rest, old(env)@, old(func_env)@, depth as nat, evaluate, br, final(env)@, final(func_env)@),
    decreases depth, 2nat, 2 * size(**names) + 1,
{
    if names.is_nil() {
        if rest.is_nil() {
            return Ok(());
        } else {
            return Err(LispError::TooManyArguments);
        }
    }
    match &**names {
        Atom::Symbol(s) => {
            if evaluate {
                let ghost c0 = env@;
                let vs = eval_elements_in_list(rest, env, host, depth);
                let ghost c1 = env@;
                assert(evs(**rest, c0, depth as nat, vs, c1));
                assert(step(vs, c1));
                match vs {
                    Ok(l) => {
                        func_env.set(crate::atom::copy_string(s), l);
                        Ok(())
                    },
                    Err(e) => Err(e),
                }
            } else {
                func_env.set(crate::atom::copy_string(s), rest.clone());
                Ok(())
            }
        },
        Atom::Pair(n, more) => {
            if rest.is_nil() {
                return Err(LispError::TooFewArguments);
            }
            let operand = Atom::car(rest);
            let ghost c0 = env@;
            let o = if evaluate {
                eval_in(&operand, env, host, depth)
            } else {
                Ok(operand)
            };
            let ghost c1 = env@;
            let ghost ff = func_env@;
            let next_rest = Atom::cdr(rest);
            let br = match o {
                Ok(v) => match &**n {
                    Atom::Symbol(s) => {
                        func_env.set(crate::atom::copy_string(s), v);
                        bind_formals(more, &next_rest, env, func_env, host, depth, evaluate)
                    },
                    _ => Err(LispError::TypeMismatch { expected: TypeName::Symbol, got: n.clone() }),
                },
                Err(e) => Err(e),
            };
            assert(bind_more(**names, **rest, o, c1, ff, depth as nat, evaluate, br, env@, func_env@));
            assert(evaluate ==> ev(car_spec(**rest), c0, depth as nat, o, c1));
            assert(step(o, c1));
            br
        },
        _ => Err(LispError::InvalidClosureForm(names.clone())),
    }
}

/// Applies a closure (`evaluate` true) or a macro (`evaluate` false) over
/// `function_env` to the operands `args`; see `call`.
fn apply_procedure<H: Host>(
    callee: &Rc<Atom>,
    function_env: &Env,
    env: &mut Env,
    formals: &Rc<Atom>,
    args: &Rc<Atom>,
    body: &Rc<Atom>,
    host: &mut H,
    depth: usize,
    evaluate: bool,
) -> (r: Outcome)
    ensures
        call(self_frame(**callee), function_env@, **formals, **args, **body, old(env)@, depth as nat, evaluate, r, final(env)@),
    decreases depth, 3nat, 1nat,
{
    let mut func_env = Env::new(Some(Box::new(function_env.duplicate())));
    func_env.add_furthest_parent(env.duplicate());
    let ghost f0 = env@;
    match &**callee {
        Atom::Closure(_, _, _, Some(n)) => {
            func_env.set(crate::atom::copy_string(n), callee.clone());
        },
        _ => {},
    }
    let ghost ff0 = func_env@;
    assert(ff0 =~= seq![self_frame(**callee)] + function_env@ + f0);
    let br = bind_formals(formals, args, env, &mut func_env, host, depth, evaluate);
    let ghost c1 = env@;
    let ghost ff = func_env@;
    assert(bind(**formals, **args, f0, seq![self_frame(**callee)] + function_env@ + f0, depth as nat, evaluate, br, c1, ff));
    assert(bound(br, c1, ff));
    match br {
        Ok(()) => {
            let o = eval_body(body, &mut func_env, host, depth);
            let ghost fb = func_env@;
            assert(body_ev(**body, ff, depth as nat, o, fb));
            assert(step(o, fb));
            if evaluate {
                o
            } else {
                match o {
                    Ok(x) => eval_in(&x, env, host, depth),
                    Err(e) => Err(e),
                }
            }
        },
        Err(e) => Err(e),
    }
}


/// `(define name value)` binds the value in this frame; `(define (name .
/// formals) body...)` binds a closure that carries its name, so that each
/// call can bind the name to the closure itself. Either returns the name.
pub fn eval_special_form_define<H: Host>(args: &Rc<Atom>, env: &mut Env, host: &mut H, depth: usize) -> (r: Outcome)
    ensures
        define_ev(**args, old(env)@, depth as nat, r, final(env)@),
    decreases depth, 2nat, 5nat,
{
    proof {
        env.lemma_frames_nonempty();
    }
    if args.is_nil() || Atom::cdr(args).is_nil() {
        return Err(bad_arity("define", args, 2));
    }
    let target = Atom::car(args);
    match &*target {
        Atom::Pair(name, formals) => {
            let body = Atom::cdr(args);
            match Atom::validate_closure_form(formals, &body) {
                Ok(()) => {},
                Err(e) => return Err(e),
            }
            match &**name {
                Atom::Symbol(sym) => {
                    let closure = Atom::Closure(
                        env.duplicate(),
                        formals.clone(),
                        body,
                        Some(crate::atom::copy_string(sym)),
                    );
                    env.set(crate::atom::copy_string(sym), Rc::new(closure));
                    Ok(name.clone())
                },
                _ => Err(LispError::TypeMismatch { expected: TypeName::Symbol, got: name.clone() }),
            }
        },
        Atom::Symbol(sym) => {
            let ghost f0 = env@;
            let o = eval_in(&Atom::car(&Atom::cdr(args)), env, host, depth);
            let ghost f1 = env@;
            assert(ev(car_spec(cdr_spec(**args)), f0, depth as nat, o, f1));
            proof {
                env.lemma_frames_nonempty();
            }
            assert(step(o, f1));
            match o {
                Ok(value) => {
                    env.set(crate::atom::copy_string(sym), value);
                    Ok(target.clone())
                },
                Err(e) => Err(e),
            }
        },
        _ => Err(LispError::TypeMismatch { expected: TypeName::Symbol, got: target.clone() }),
    }
}

/// `(if test then else)`: evaluates `then` when `test` is not nil, `else`
/// otherwise.
pub fn eval_special_form_if<H: Host>(args: &Rc<Atom>, env: &mut Env, host: &mut H, depth: usize) -> (r: Outcome)
    ensures
        if_ev(**args, old(env)@, depth as nat, r, final(env)@),
    decreases depth, 2nat, 5nat,
{
    let rest = Atom::cdr(args);
    let rest2 = Atom::cdr(&rest);
    if args.is_nil() || rest.is_nil() || rest2.is_nil() || !Atom::cdr(&rest2).is_nil() {
        return Err(bad_arity("if", args, 3));
    }
    let ghost f0 = env@;
    let t = eval_in(&Atom::car(args), env, host, depth);
    let ghost f1 = env@;
    assert(ev(car_spec(**args), f0, depth as nat, t, f1));
    assert(step(t, f1));
    match t {
        Ok(v) => if v.as_bool() {
            eval_in(&Atom::car(&rest), env, host, depth)
        } else {
            eval_in(&Atom::car(&rest2), env, host, depth)
        },
        Err(e) => Err(e),
    }
}

/// `(apply f list)`: calls `f` on the items of `list`, each quoted so that
/// it is not evaluated again.
pub fn eval_special_form_apply<H: Host>(args: &Rc<Atom>, env: &mut Env, host: &mut H, depth: usize) -> (r: Outcome)
    ensures
        apply_ev(**args, old(env)@, depth as nat, r, final(env)@),
    decreases depth, 2nat, 5nat,
{
    let rest = Atom::cdr(args);
    if args.is_nil() || rest.is_nil() || !Atom::cdr(&rest).is_nil() {
        return Err(bad_arity("apply", args, 2));
    }
    let ghost f0 = env@;
    let o = eval_in(&Atom::car(args), env, host, depth);
    let ghost f1 = env@;
    assert(ev(car_spec(**args), f0, depth as nat, o, f1));
    assert(step(o, f1));
    match o {
        Ok(func) => {
            let o2 = eval_in(&Atom::car(&rest), env, host, depth);
            let ghost f2 = env@;
            assert(ev(car_spec(cdr_spec(**args)), f1, depth as nat, o2, f2));
            assert(step(o2, f2));
            let r = match o2 {
                Ok(list) => {
                    if !Atom::is_proper_list(&list) {
                        Err(LispError::TypeMismatch { expected: TypeName::List, got: list.clone() })
                    } else {
                        let q = quote_elements_in_list(&list);
                        assert(quotes(*q, *list));
                        let to_eval = Rc::new(Atom::Pair(func.clone(), q));
                        let r = eval_in(&to_eval, env, host, depth);
                        assert(ev(Atom::Pair(Rc::new(*func), Rc::new(*q)), f2, depth as nat, r, env@));
                        r
                    }
                },
                Err(e) => Err(e),
            };
            assert(apply_call(*func, o2, f2, depth as nat, r, env@));
            r
        },
        Err(e) => Err(e),
    }
}

/// Dispatches a combination whose operator evaluated to a symbol.
fn try_evaluate_special_form<H: Host>(op: &Rc<Atom>, args: &Rc<Atom>, env: &mut Env, host: &mut H, depth: usize) -> (r: Outcome)
    requires
        **op is Symbol,
    ensures
        form(op->Symbol_0@, **op, **args, old(env)@, depth as nat, r, final(env)@),
    decreases depth, 3nat, 0nat,
{
    let name = match &**op {
        Atom::Symbol(s) => s.as_str(),
        _ => "",
    };
    proof {
        reveal_strlit("quote");
        reveal_strlit("define");
        reveal_strlit("defmacro");
        reveal_strlit("lambda");
        reveal_strlit("if");
        reveal_strlit("apply");
        assert("lambda"@[0] != "define"@[0]);
        assert("quote"@[0] != "apply"@[0]);
    }
    if str_eq(name, "quote") {
        eval_special_form_quote(args)
    } else if str_eq(name, "define") {
        eval_special_form_define(args, env, host, depth)
    } else if str_eq(name, "defmacro") {
        eval_special_form_defmacro(args, env)
    } else if str_eq(name, "lambda") {
        eval_special_form_lambda(args, env)
    } else if str_eq(name, "if") {
        eval_special_form_if(args, env, host, depth)
    } else if str_eq(name, "apply") {
        eval_special_form_apply(args, env, host, depth)
    } else {
        Err(LispError::NotApplicable(op.clone()))
    }
}

/// Applies the operator value `op` to the unevaluated operands `args`.
fn apply_value<H: Host>(op: &Rc<Atom>, args: &Rc<Atom>, env: &mut Env, host: &mut H, depth: usize) -> (r: Outcome)
    ensures
        app(**op, **args, old(env)@, depth as nat, r, final(env)@),
    decreases depth, 4nat, 0nat,
{
    match &**op {
        Atom::Symbol(_) => try_evaluate_special_form(op, args, env, host, depth),
        Atom::NativeFunc(f) => {
            let ghost f0 = env@;
            let vs = eval_elements_in_list(args, env, host, depth);
            let ghost f1 = env@;
            assert(evs(**args, f0, depth as nat, vs, f1));
            assert(step(vs, f1));
            match vs {
                Ok(evaluated) => apply_builtin(*f, &evaluated, host),
                Err(e) => Err(e),
            }
        },
        Atom::Closure(function_env, formals, body, _) => {
            apply_procedure(op, function_env, env, formals, args, body, host, depth, true)
        },
        Atom::Macro(function_env, formals, body) => {
            apply_procedure(op, function_env, env, formals, args, body, host, depth, false)
        },
        _ => Err(LispError::NotApplicable(op.clone())),
    }
}

/// Evaluates a combination `(op . args)`.
fn list_evaluation<H: Host>(expr: &Rc<Atom>, env: &mut Env, host: &mut H, depth: usize) -> (r: Outcome)
    ensures
        comb(**expr, old(env)@, depth as nat, r, final(env)@),
    decreases depth, 5nat, 0nat,
{
    let args = Atom::cdr(expr);
    let ghost f0 = env@;
    let o = eval_in(&Atom::car(expr), env, host, depth);
    let ghost f1 = env@;
    assert(ev(car_spec(**expr), f0, depth as nat, o, f1));
    let r = match o {
        Ok(op) => apply_value(&op, &args, env, host, depth),
        Err(e) => Err(e),
    };
    assert(step(o, f1));
    r
}

/// Evaluates `expr` in `env`, nesting at most `depth` combinations deep;
/// see `ev`.
pub fn eval_in<H: Host>(expr: &Rc<Atom>, env: &mut Env, host: &mut H, depth: usize) -> (r: Outcome)
    ensures
        ev(**expr, old(env)@, depth as nat, r, final(env)@),
    decreases depth, 0nat, 0nat,
{
    match &**expr {
        Atom::Number(_) | Atom::String(_) | Atom::NativeFunc(_) | Atom::Closure(..) => Ok(expr.clone()),
        Atom::Macro(..) => Err(LispError::MacroEvaluated(expr.clone())),
        Atom::Symbol(s) => env.get(s.as_str()),
        Atom::Pair(..) => {
            if !Atom::is_proper_list(expr) {
                return Err(LispError::ImproperApplication(expr.clone()));
            }
            if depth == 0 {
                return Err(LispError::TooDeep);
            }
            list_evaluation(expr, env, host, depth - 1)
        },
    }
}

impl Atom {
    /// Evaluates `expr` in `env`; see `ev`.
    pub fn eval<H: Host>(expr: Rc<Atom>, env: &mut Env, host: &mut H) -> (r: Outcome)
        ensures
            ev(*expr, old(env)@, MAX_DEPTH as nat, r, final(env)@),
    {
        eval_in(&expr, env, host, MAX_DEPTH)
    }
}

} // verus!

