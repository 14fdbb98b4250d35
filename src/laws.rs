use std::rc::Rc;

use vstd::prelude::*;

use crate::atom::{atom_eq, car_spec, cdr_spec, is_sym, plain, Atom, Builtin};
use crate::builtins::{builtin_post, one_operand, two_operands};
use crate::env::{env_set, find_in, Frame};
use crate::eval::{app, define_ev, ev, evs, evs_more, self_frame, step, Outcome};
use crate::atom::is_nil_spec;
use crate::error::LispError;

verus! {

/// `(car (cons a b))` is `a`, `(cdr (cons a b))` is `b` and `(pair? (cons a
/// b))` is `t`. `ab` is the operand list `(a b)` handed to `cons`, and
/// `wrapped` the one-item list holding what `cons` returned.
pub proof fn law_car_cdr_of_cons(
    ab: Atom,
    pair: Result<Rc<Atom>, LispError>,
    wrapped: Atom,
    car_r: Result<Rc<Atom>, LispError>,
    cdr_r: Result<Rc<Atom>, LispError>,
    is_pair_r: Result<Rc<Atom>, LispError>,
)
    requires
        two_operands(ab),
        builtin_post(Builtin::Cons, ab, pair),
        one_operand(wrapped),
        pair is Ok ==> car_spec(wrapped) == *pair->Ok_0,
        builtin_post(Builtin::Car, wrapped, car_r),
        builtin_post(Builtin::Cdr, wrapped, cdr_r),
        builtin_post(Builtin::IsPair, wrapped, is_pair_r),
    ensures
        pair is Ok,
        car_r is Ok && *car_r->Ok_0 == car_spec(ab),
        cdr_r is Ok && *cdr_r->Ok_0 == car_spec(cdr_spec(ab)),
        is_pair_r is Ok && is_sym(*is_pair_r->Ok_0, "t"@),
{
}

/// Structural equality holds of every atom and itself, where no procedure,
/// closure or macro stands in it.
pub proof fn lemma_atom_eq_reflexive(x: Atom)
    requires
        plain(x),
    ensures
        atom_eq(x, x),
    decreases x,
{
    if x is Pair {
        lemma_atom_eq_reflexive(car_spec(x));
        lemma_atom_eq_reflexive(cdr_spec(x));
    }
}

/// `(= x x)` is `t` for every `x` that holds no procedure, closure or macro.
/// `args` is the operand list `(x x)`.
pub proof fn law_equal_reflexive(args: Atom, r: Result<Rc<Atom>, LispError>)
    requires
        two_operands(args),
        car_spec(args) == car_spec(cdr_spec(args)),
        plain(car_spec(args)),
        builtin_post(Builtin::NumEq, args, r),
    ensures
        r is Ok && is_sym(*r->Ok_0, "t"@),
{
    lemma_atom_eq_reflexive(car_spec(args));
}

/// A name that `define` has bound to `v` in an environment is found there,
/// bound to `v`: this is how the self-binding of a recursive `define` is
/// found by its closure, too.
pub proof fn law_define_then_lookup(frames: Seq<Frame>, name: Seq<char>, v: Atom)
    requires
        frames.len() >= 1,
    ensures
        find_in(env_set(frames, name, v), name) == Some(v),
{
}

/// A `define` leaves every other name as it was.
pub proof fn law_define_keeps_others(frames: Seq<Frame>, name: Seq<char>, v: Atom, other: Seq<char>)
    requires
        frames.len() >= 1,
        other != name,
    ensures
        find_in(env_set(frames, name, v), other) == find_in(frames, other),
{
    assert(env_set(frames, name, v).drop_first() =~= frames.drop_first());
}

/// The value of a successful outcome.
pub open spec fn value_of(o: Outcome) -> Atom {
    *o->Ok_0
}

/// A name defined by `(define name value)` then evaluates, in the frames
/// the definition left, to what `value` evaluated to.
pub proof fn law_define_then_use(
    args: Atom,
    f: Seq<Frame>,
    d: nat,
    r: Outcome,
    g: Seq<Frame>,
    d2: nat,
    r2: Outcome,
    g2: Seq<Frame>,
)
    requires
        !is_nil_spec(args),
        !is_nil_spec(cdr_spec(args)),
        car_spec(args) is Symbol,
        define_ev(args, f, d, r, g),
        r is Ok,
        ev(car_spec(args), g, d2, r2, g2),
    ensures
        r2 is Ok,
        g2 == g,
        exists|f1: Seq<Frame>| #[trigger] step(r2, f1) && ev(car_spec(cdr_spec(args)), f, d, r2, f1),
{
    let name = car_spec(args)->Symbol_0@;
    let (o, f1) = choose|o: Outcome, f1: Seq<Frame>| #[trigger] step(o, f1) && ev(
        car_spec(cdr_spec(args)),
        f,
        d,
        o,
        f1,
    ) && match o {
        Ok(v) => r is Ok && *r->Ok_0 == car_spec(args) && f1.len() >= 1 && g == env_set(f1, name, *v),
        Err(_) => r == o && g == f1,
    };
    law_define_then_lookup(f1, name, value_of(o));
    assert(find_in(g, name) == Some(value_of(o)));
    assert(*r2->Ok_0 == value_of(o));
    assert(r2 == o);
    assert(step(r2, f1));
}

/// After `(define (name . formals) body...)`, the name is bound to a
/// closure with those formals and body, and every call of that closure
/// starts from a frame that binds the name to the closure itself: it calls
/// itself by its name, whatever the name meant before.
pub proof fn law_recursive_define_binds_itself(args: Atom, f: Seq<Frame>, d: nat, r: Outcome, g: Seq<Frame>)
    requires
        !is_nil_spec(args),
        !is_nil_spec(cdr_spec(args)),
        car_spec(args) is Pair,
        f.len() >= 1,
        define_ev(args, f, d, r, g),
        r is Ok,
    ensures
        ({
            let name = car_spec(car_spec(args))->Symbol_0@;
            let c = find_in(g, name)->Some_0;
            &&& find_in(g, name) is Some
            &&& c matches Atom::Closure(e, fo, b, _)
            &&& *fo == cdr_spec(car_spec(args)) && *b == cdr_spec(args) && e@ == f
            &&& self_frame(c).contains_key(name)
            &&& self_frame(c)[name] == c
        }),
{
    let name = car_spec(car_spec(args))->Symbol_0@;
    let c = choose|c: Atom| #![auto] g == env_set(f, name, c) && match c {
        Atom::Closure(e, fo, b, n) => e@ == f && *fo == cdr_spec(car_spec(args)) && *b == cdr_spec(args)
            && n is Some && n->Some_0@ == name,
        _ => false,
    };
    law_define_then_lookup(f, name, c);
}

/// `(car (cons a b))`, where `car` and `cons` name their procedures,
/// evaluates to what `a` evaluated to on the way.
pub proof fn law_car_of_cons_eval(e: Atom, f: Seq<Frame>, d: nat, r: Outcome, g: Seq<Frame>)
    requires
        ev(e, f, d, r, g),
        r is Ok,
        e is Pair,
        car_spec(e) is Symbol,
        find_in(f, car_spec(e)->Symbol_0@) == Some(Atom::NativeFunc(Builtin::Car)),
        cdr_spec(e) is Pair,
        is_nil_spec(cdr_spec(cdr_spec(e))),
        car_spec(cdr_spec(e)) is Pair,
        car_spec(car_spec(cdr_spec(e))) is Symbol,
        find_in(f, car_spec(car_spec(cdr_spec(e)))->Symbol_0@) == Some(Atom::NativeFunc(Builtin::Cons)),
    ensures
        exists|f1: Seq<Frame>| #[trigger] step(r, f1) && ev(
            car_spec(cdr_spec(car_spec(cdr_spec(e)))),
            f,
            (d - 2) as nat,
            r,
            f1,
        ),
{
    let args = cdr_spec(e);
    let inner = car_spec(args);
    let d1 = (d - 1) as nat;
    // The operator `car`.
    let (o, f1) = choose|o: Outcome, f1: Seq<Frame>| #[trigger] step(o, f1) && ev(car_spec(e), f, d1, o, f1)
        && match o {
        Ok(v) => app(*v, args, f1, d1, r, g),
        Err(_) => r == o && g == f1,
    };
    assert(f1 == f && value_of(o) == Atom::NativeFunc(Builtin::Car));
    // Its one operand, `(cons a b)`.
    let (vs, f2) = choose|vs: Outcome, f2: Seq<Frame>| #[trigger] step(vs, f2) && evs(args, f, d1, vs, f2)
        && match vs {
        Ok(l) => builtin_post(Builtin::Car, *l, r) && g == f2,
        Err(_) => r == vs && g == f2,
    };
    let (oi, f3) = choose|oi: Outcome, f3: Seq<Frame>| #[trigger] step(oi, f3) && ev(inner, f, d1, oi, f3)
        && match oi {
        Ok(v) => evs_more(args, v, f3, d1, vs, f2),
        Err(_) => vs == oi && f2 == f3,
    };
    assert(oi is Ok);
    let (rest, g2) = choose|rest: Outcome, g2: Seq<Frame>| #[trigger] step(rest, g2) && evs(
        cdr_spec(args),
        f3,
        d1,
        rest,
        g2,
    ) && match rest {
        Ok(l) => vs is Ok && *vs->Ok_0 == Atom::Pair(oi->Ok_0, l) && f2 == g2,
        Err(_) => vs == rest && f2 == g2,
    };
    // `(cons a b)` itself.
    let d2 = (d1 - 1) as nat;
    assert(d1 > 0);
    let (oc, fc) = choose|oc: Outcome, fc: Seq<Frame>| #[trigger] step(oc, fc) && ev(car_spec(inner), f, d2, oc, fc)
        && match oc {
        Ok(v) => app(*v, cdr_spec(inner), fc, d2, oi, f3),
        Err(_) => oi == oc && f3 == fc,
    };
    assert(fc == f && value_of(oc) == Atom::NativeFunc(Builtin::Cons));
    let (vs2, f4) = choose|vs2: Outcome, f4: Seq<Frame>| #[trigger] step(vs2, f4) && evs(
        cdr_spec(inner),
        f,
        d2,
        vs2,
        f4,
    ) && match vs2 {
        Ok(l) => builtin_post(Builtin::Cons, *l, oi) && f3 == f4,
        Err(_) => oi == vs2 && f3 == f4,
    };
    let (oa, f5) = choose|oa: Outcome, f5: Seq<Frame>| #[trigger] step(oa, f5) && ev(
        car_spec(cdr_spec(inner)),
        f,
        d2,
        oa,
        f5,
    ) && match oa {
        Ok(v) => evs_more(cdr_spec(inner), v, f5, d2, vs2, f4),
        Err(_) => vs2 == oa && f4 == f5,
    };
    assert(oa is Ok);
    let (rest2, g3) = choose|rest2: Outcome, g3: Seq<Frame>| #[trigger] step(rest2, g3) && evs(
        cdr_spec(cdr_spec(inner)),
        f5,
        d2,
        rest2,
        g3,
    ) && match rest2 {
        Ok(l) => vs2 is Ok && *vs2->Ok_0 == Atom::Pair(oa->Ok_0, l) && f4 == g3,
        Err(_) => vs2 == rest2 && f4 == g3,
    };
    assert(value_of(r) == value_of(oa));
    assert(r == oa);
    assert(step(r, f5));
}

} // verus!
