use std::rc::Rc;

use vstd::prelude::*;

use crate::atom::{capped, is_nil_spec, size, str_eq, Atom};
use crate::host::Host;

verus! {

/// How one character of a string is written between the quotes.
pub open spec fn esc(c: char) -> Seq<char> {
    if c == '"' {
        seq!['\\', '"']
    } else if c == '\\' {
        seq!['\\', '\\']
    } else if c == '\n' {
        seq!['\\', 'n']
    } else if c == '\r' {
        seq!['\\', 'r']
    } else if c == '\t' {
        seq!['\\', 't']
    } else if c == '\x08' {
        seq!['\\', 'b']
    } else if c == '\x0C' {
        seq!['\\', 'f']
    } else {
        seq![c]
    }
}

pub open spec fn escaped(s: Seq<char>) -> Seq<char>
    decreases s.len(),
{
    if s.len() == 0 {
        Seq::empty()
    } else {
        esc(s[0]) + escaped(s.drop_first())
    }
}

pub proof fn lemma_escaped_push(s: Seq<char>, c: char)
    ensures
        escaped(s.push(c)) == escaped(s) + esc(c),
    decreases s.len(),
{
    if s.len() == 0 {
        assert(s.push(c).drop_first() =~= Seq::<char>::empty());
        assert(escaped(Seq::<char>::empty()) =~= Seq::<char>::empty());
        assert(escaped(s.push(c)) =~= escaped(s) + esc(c));
    } else {
        assert(s.push(c).drop_first() =~= s.drop_first().push(c));
        lemma_escaped_push(s.drop_first(), c);
        assert(escaped(s.push(c)) =~= escaped(s) + esc(c));
    }
}

/// Holds no number: the text of a number is the host's.
pub open spec fn number_free(a: Atom) -> bool
    decreases a,
{
    match a {
        Atom::Number(_) => false,
        Atom::Pair(h, d) => number_free(*h) && number_free(*d),
        Atom::Closure(_, f, b, _) => number_free(*f) && number_free(*b),
        Atom::Macro(_, f, b) => number_free(*f) && number_free(*b),
        _ => true,
    }
}

/// The canonical rendering of an atom.
pub open spec fn debug_text(a: Atom) -> Seq<char>
    decreases size(a), 0nat,
{
    match a {
        Atom::Number(_) => Seq::empty(),
        Atom::String(s) => seq!['"'] + escaped(s@) + seq!['"'],
        Atom::Symbol(s) => s@,
        Atom::Pair(h, d) => seq!['('] + debug_text(*h) + tail_text(*d) + seq![')'],
        Atom::NativeFunc(_) => "#<BUILTIN>"@,
        Atom::Closure(_, f, b, _) => "(lambda "@ + debug_text(*f) + seq![' '] + items_text(*b) + seq![')'],
        Atom::Macro(_, f, b) => "(defmacro "@ + debug_text(*f) + seq![' '] + items_text(*b) + seq![')'],
    }
}

/// The rest of a list after its first item, up to the closing parenthesis.
pub open spec fn tail_text(d: Atom) -> Seq<char>
    decreases size(d), 1nat,
{
    if is_nil_spec(d) {
        Seq::empty()
    } else {
        match d {
            Atom::Pair(h, t) => seq![' '] + debug_text(*h) + tail_text(*t),
            _ => " . "@ + debug_text(d),
        }
    }
}

/// The items of a list without the parentheses.
pub open spec fn items_text(b: Atom) -> Seq<char>
    decreases size(b), 2nat,
{
    match b {
        Atom::Pair(h, d) => debug_text(*h) + tail_text(*d),
        _ => Seq::empty(),
    }
}

/// `new` starts with `old`.
pub open spec fn extends(new: Seq<char>, old: Seq<char>) -> bool {
    new.len() >= old.len() && forall|i: int| 0 <= i < old.len() ==> #[trigger] new[i] == old[i]
}

/// Appends the characters of `s`.
pub fn push_str(out: &mut Vec<char>, s: &str)
    ensures
        final(out)@ == old(out)@ + s@,
{
    let n = s.unicode_len();
    let mut i: usize = 0;
    while i < n
        invariant
            n == s@.len(),
            i <= n,
            out@ == old(out)@ + s@.subrange(0, i as int),
        decreases n - i,
    {
        out.push(s.get_char(i));
        i = i + 1;
        assert(out@ =~= old(out)@ + s@.subrange(0, i as int));
    }
    assert(s@.subrange(0, n as int) =~= s@);
}

/// Appends the characters of `s`, escaped as inside a string literal.
pub fn push_escaped(out: &mut Vec<char>, s: &str)
    ensures
        final(out)@ == old(out)@ + escaped(s@),
{
    let n = s.unicode_len();
    let mut i: usize = 0;
    while i < n
        invariant
            n == s@.len(),
            i <= n,
            out@ == old(out)@ + escaped(s@.subrange(0, i as int)),
        decreases n - i,
    {
        let c = s.get_char(i);
        if c == '"' {
            out.push('\\');
            out.push('"');
        } else if c == '\\' {
            out.push('\\');
            out.push('\\');
        } else if c == '\n' {
            out.push('\\');
            out.push('n');
        } else if c == '\r' {
            out.push('\\');
            out.push('r');
        } else if c == '\t' {
            out.push('\\');
            out.push('t');
        } else if c == '\x08' {
            out.push('\\');
            out.push('b');
        } else if c == '\x0C' {
            out.push('\\');
            out.push('f');
        } else {
            out.push(c);
        }
        let ghost pre = s@.subrange(0, i as int);
        i = i + 1;
        proof {
            assert(s@.subrange(0, i as int) =~= pre.push(c));
            lemma_escaped_push(pre, c);
        }
        assert(out@ =~= old(out)@ + escaped(s@.subrange(0, i as int)));
    }
    assert(s@.subrange(0, n as int) =~= s@);
}

/// How many numbers the rendering of `a` shows.
pub open spec fn number_count(a: Atom) -> nat
    decreases a,
{
    match a {
        Atom::Number(_) => 1,
        Atom::Pair(h, d) => number_count(*h) + number_count(*d),
        Atom::Closure(_, f, b, _) => number_count(*f) + number_count(*b),
        Atom::Macro(_, f, b) => number_count(*f) + number_count(*b),
        _ => 0,
    }
}

/// The canonical rendering of `a` where its numbers, in order, read as
/// the texts `t`: the host writes a number's text, the rest is fixed.
pub open spec fn debug_with(a: Atom, t: Seq<Seq<char>>) -> Seq<char>
    decreases size(a), 0nat,
{
    match a {
        Atom::Number(_) => if t.len() > 0 {
            t[0]
        } else {
            Seq::empty()
        },
        Atom::Pair(h, d) => seq!['('] + debug_with(*h, t.take(number_count(*h) as int)) + tail_with(
            *d,
            t.skip(number_count(*h) as int),
        ) + seq![')'],
        Atom::Closure(_, f, b, _) => "(lambda "@ + debug_with(*f, t.take(number_count(*f) as int))
            + seq![' '] + items_with(*b, t.skip(number_count(*f) as int)) + seq![')'],
        Atom::Macro(_, f, b) => "(defmacro "@ + debug_with(*f, t.take(number_count(*f) as int))
            + seq![' '] + items_with(*b, t.skip(number_count(*f) as int)) + seq![')'],
        _ => debug_text(a),
    }
}

/// The rest of a list after its first item, with number texts `t`.
pub open spec fn tail_with(d: Atom, t: Seq<Seq<char>>) -> Seq<char>
    decreases size(d), 1nat,
{
    if is_nil_spec(d) {
        Seq::empty()
    } else {
        match d {
            Atom::Pair(h, r) => seq![' '] + debug_with(*h, t.take(number_count(*h) as int)) + tail_with(
                *r,
                t.skip(number_count(*h) as int),
            ),
            _ => " . "@ + debug_with(d, t),
        }
    }
}

/// The items of a list without the parentheses, with number texts `t`.
pub open spec fn items_with(b: Atom, t: Seq<Seq<char>>) -> Seq<char>
    decreases size(b), 2nat,
{
    match b {
        Atom::Pair(h, d) => debug_with(*h, t.take(number_count(*h) as int)) + tail_with(
            *d,
            t.skip(number_count(*h) as int),
        ),
        _ => Seq::empty(),
    }
}

/// As many empty texts as `b` shows numbers.
pub open spec fn blank_texts(b: &Rc<Atom>) -> Seq<Seq<char>> {
    Seq::new(number_count(**b), |i: int| Seq::<char>::empty())
}

/// Marks the number texts a rendering used.
pub open spec fn shown(t: Seq<Seq<char>>) -> bool {
    true
}

proof fn lemma_split(t1: Seq<Seq<char>>, t2: Seq<Seq<char>>)
    ensures
        (t1 + t2).take(t1.len() as int) == t1,
        (t1 + t2).skip(t1.len() as int) == t2,
{
    assert((t1 + t2).take(t1.len() as int) =~= t1);
    assert((t1 + t2).skip(t1.len() as int) =~= t2);
}

/// Appends the canonical rendering of `a`; the numbers' texts are the
/// host's.
#[verifier::rlimit(60)]
pub fn write_debug<H: Host>(a: &Rc<Atom>, host: &H, out: &mut Vec<char>)
    ensures
        extends(final(out)@, old(out)@),
        number_free(**a) ==> final(out)@ == old(out)@ + debug_text(**a),
        exists|t: Seq<Seq<char>>| #[trigger] shown(t) && t.len() == number_count(**a) && final(out)@
            == old(out)@ + debug_with(**a, t),
    decreases size(**a), 0nat,
{
    let ghost o0 = out@;
    match &**a {
        Atom::Number(n) => {
            let s = host.show_number(*n);
            push_str(out, s.as_str());
            let ghost t = seq![s@];
            assert(shown(t) && out@ == o0 + debug_with(**a, t));
        },
        Atom::String(s) => {
            out.push('"');
            push_escaped(out, s.as_str());
            out.push('"');
            assert(out@ =~= o0 + debug_text(**a));
            assert(shown(Seq::<Seq<char>>::empty()));
        },
        Atom::Symbol(s) => {
            push_str(out, s.as_str());
            assert(shown(Seq::<Seq<char>>::empty()));
        },
        Atom::Pair(h, d) => {
            out.push('(');
            let ghost o1 = out@;
            write_debug(h, host, out);
            let ghost th = choose|t: Seq<Seq<char>>| #[trigger] shown(t) && t.len() == number_count(**h)
                && out@ == o1 + debug_with(**h, t);
            let ghost o2 = out@;
            write_tail(d, host, out);
            let ghost td = choose|t: Seq<Seq<char>>| #[trigger] shown(t) && t.len() == number_count(**d)
                && out@ == o2 + tail_with(**d, t);
            out.push(')');
            proof {
                lemma_split(th, td);
                assert(shown(th + td));
                assert(out@ =~= o0 + debug_with(**a, th + td));
            }
        },
        Atom::NativeFunc(_) => {
            push_str(out, "#<BUILTIN>");
            assert(shown(Seq::<Seq<char>>::empty()));
        },
        Atom::Closure(_, f, b, _) => {
            push_str(out, "(lambda ");
            let ghost o1 = out@;
            write_debug(f, host, out);
            let ghost tf = choose|t: Seq<Seq<char>>| #[trigger] shown(t) && t.len() == number_count(**f)
                && out@ == o1 + debug_with(**f, t);
            out.push(' ');
            let ghost o2 = out@;
            write_items(b, host, out);
            let ghost tb = choose|t: Seq<Seq<char>>| #[trigger] shown(t) && t.len() == number_count(**b)
                && out@ == o2 + items_with(**b, t);
            out.push(')');
            proof {
                lemma_split(tf, tb);
                assert(shown(tf + tb));
                assert(out@ =~= o0 + debug_with(**a, tf + tb));
            }
        },
        Atom::Macro(_, f, b) => {
            push_str(out, "(defmacro ");
            let ghost o1 = out@;
            write_debug(f, host, out);
            let ghost tf = choose|t: Seq<Seq<char>>| #[trigger] shown(t) && t.len() == number_count(**f)
                && out@ == o1 + debug_with(**f, t);
            out.push(' ');
            let ghost o2 = out@;
            write_items(b, host, out);
            let ghost tb = choose|t: Seq<Seq<char>>| #[trigger] shown(t) && t.len() == number_count(**b)
                && out@ == o2 + items_with(**b, t);
            out.push(')');
            proof {
                lemma_split(tf, tb);
                assert(shown(tf + tb));
                assert(out@ =~= o0 + debug_with(**a, tf + tb));
            }
        },
    }
    assert(number_free(**a) ==> out@ =~= o0 + debug_text(**a));
}

/// Appends the rest of a list after its first item.
pub fn write_tail<H: Host>(d: &Rc<Atom>, host: &H, out: &mut Vec<char>)
    ensures
        extends(final(out)@, old(out)@),
        number_free(**d) ==> final(out)@ == old(out)@ + tail_text(**d),
        exists|t: Seq<Seq<char>>| #[trigger] shown(t) && t.len() == number_count(**d) && final(out)@
            == old(out)@ + tail_with(**d, t),
    decreases size(**d), 1nat,
{
    let mut cur = d.clone();
    let ghost mut tc: Seq<Seq<char>> = Seq::empty();
    proof {
        assert forall|tr: Seq<Seq<char>>| tr.len() == number_count(**d) implies old(out)@ + tail_with(**d, tc + tr)
            == out@ + tail_with(*cur, tr) by {
            assert(tc + tr =~= tr);
        }
    }
    while !cur.is_nil()
        invariant
            extends(out@, old(out)@),
            size(*cur) <= size(**d),
            number_free(**d) ==> number_free(*cur),
            number_free(**d) ==> old(out)@ + tail_text(**d) == out@ + tail_text(*cur),
            tc.len() + number_count(*cur) == number_count(**d),
            forall|tr: Seq<Seq<char>>| tr.len() == number_count(*cur) ==> old(out)@ + tail_with(**d, tc + tr)
                == out@ + tail_with(*cur, tr),
        decreases size(*cur),
    {
        match &*cur {
            Atom::Pair(h, t) => {
                let ghost before = out@;
                out.push(' ');
                let ghost o1 = out@;
                write_debug(h, host, out);
                let ghost th = choose|x: Seq<Seq<char>>| #[trigger] shown(x) && x.len() == number_count(**h)
                    && out@ == o1 + debug_with(**h, x);
                assert(number_free(*cur) ==> before + tail_text(*cur) == out@ + tail_text(**t));
                proof {
                    assert forall|tr: Seq<Seq<char>>| tr.len() == number_count(**t) implies old(out)@ + tail_with(**d, (tc + th) + tr)
                        == out@ + tail_with(**t, tr) by {
                        let full = th + tr;
                        lemma_split(th, tr);
                        assert(full.len() == number_count(*cur));
                        assert(tc + full =~= (tc + th) + tr);
                        assert(before + tail_with(*cur, full) =~= out@ + tail_with(**t, tr));
                    }
                    tc = tc + th;
                }
                let next = t.clone();
                cur = next;
            },
            _ => {
                let ghost before = out@;
                push_str(out, " . ");
                let ghost o1 = out@;
                write_debug(&cur, host, out);
                let ghost tx = choose|x: Seq<Seq<char>>| #[trigger] shown(x) && x.len() == number_count(*cur)
                    && out@ == o1 + debug_with(*cur, x);
                assert(number_free(*cur) ==> out@ =~= before + tail_text(*cur));
                proof {
                    assert(before + tail_with(*cur, tx) =~= out@);
                    assert(shown(tc + tx));
                }
                return;
            },
        }
    }
    proof {
        assert(tail_with(*cur, Seq::<Seq<char>>::empty()) =~= Seq::<char>::empty());
        assert(tc + Seq::<Seq<char>>::empty() =~= tc);
        assert(shown(tc));
    }
    assert(number_free(**d) ==> out@ =~= old(out)@ + tail_text(**d));
}

/// Appends the items of a list without the parentheses.
pub fn write_items<H: Host>(b: &Rc<Atom>, host: &H, out: &mut Vec<char>)
    ensures
        extends(final(out)@, old(out)@),
        number_free(**b) ==> final(out)@ == old(out)@ + items_text(**b),
        exists|t: Seq<Seq<char>>| #[trigger] shown(t) && t.len() == number_count(**b) && final(out)@
            == old(out)@ + items_with(**b, t),
    decreases size(**b), 2nat,
{
    let ghost o0 = out@;
    match &**b {
        Atom::Pair(h, d) => {
            write_debug(h, host, out);
            let ghost th = choose|t: Seq<Seq<char>>| #[trigger] shown(t) && t.len() == number_count(**h)
                && out@ == o0 + debug_with(**h, t);
            let ghost o1 = out@;
            write_tail(d, host, out);
            let ghost td = choose|t: Seq<Seq<char>>| #[trigger] shown(t) && t.len() == number_count(**d)
                && out@ == o1 + tail_with(**d, t);
            proof {
                lemma_split(th, td);
                assert(shown(th + td));
                assert(out@ =~= o0 + items_with(**b, th + td));
            }
        },
        _ => {
            let ghost t = blank_texts(b);
            assert(shown(t));
            assert(out@ =~= o0 + items_with(**b, t));
        },
    }
    assert(number_free(**b) ==> out@ =~= o0 + items_text(**b));
}

} // verus!

verus! {

/// Keywords whose first operand stays on the line of the keyword.
pub fn keeps_first_operand(a: &Rc<Atom>) -> (r: bool)
    ensures
        r == (**a is Symbol && (a->Symbol_0@ == "if"@ || a->Symbol_0@ == "define"@
            || a->Symbol_0@ == "defmacro"@ || a->Symbol_0@ == "lambda"@)),
{
    match &**a {
        Atom::Symbol(s) => {
            let s = s.as_str();
            str_eq(s, "if") || str_eq(s, "define") || str_eq(s, "defmacro") || str_eq(s, "lambda")
        },
        _ => false,
    }
}

/// `k` times three spaces.
pub open spec fn spaces(k: nat) -> Seq<char>
    decreases k,
{
    if k == 0 {
        Seq::empty()
    } else {
        spaces((k - 1) as nat) + seq![' ', ' ', ' ']
    }
}

/// One more level of indentation, stopping at the largest `usize`.
pub open spec fn deeper(indent: usize) -> usize {
    if indent == usize::MAX {
        indent
    } else {
        (indent + 1) as usize
    }
}

/// A head whose first operand stays on the head's line.
pub open spec fn is_keyword_head(a: Atom) -> bool {
    a is Symbol && (a->Symbol_0@ == "if"@ || a->Symbol_0@ == "define"@ || a->Symbol_0@
        == "defmacro"@ || a->Symbol_0@ == "lambda"@)
}

/// A list light enough to stay on one line.
pub open spec fn fits_line(a: Atom) -> bool {
    token_weight(a) <= 12
}

/// The weight of a leaf: a symbol's length; the length of anything else's
/// rendering, plus one.
pub open spec fn leaf_weight(a: Atom) -> nat {
    if a is Symbol {
        a->Symbol_0@.len()
    } else {
        debug_text(a).len() + 1
    }
}

/// The rendered weight of a list: the weights of the leaves it shows.
pub open spec fn token_weight(a: Atom) -> nat
    decreases size(a), 1nat,
{
    match a {
        Atom::Pair(h, d) => token_weight(*h) + tail_weight(*d),
        _ => leaf_weight(a),
    }
}

/// The weight of what follows the first item of a list.
pub open spec fn tail_weight(d: Atom) -> nat
    decreases size(d), 2nat,
{
    if is_nil_spec(d) {
        0
    } else {
        match d {
            Atom::Pair(h, t) => token_weight(*h) + tail_weight(*t),
            _ => token_weight(d),
        }
    }
}

/// The weight of a leaf when its numbers read as the texts `t`.
pub open spec fn leaf_weight_with(a: Atom, t: Seq<Seq<char>>) -> nat {
    if a is Symbol {
        a->Symbol_0@.len()
    } else {
        debug_with(a, t).len() + 1
    }
}

/// The rendered weight of `a` when its numbers read as the texts `t`.
pub open spec fn token_weight_with(a: Atom, t: Seq<Seq<char>>) -> nat
    decreases size(a), 1nat,
{
    match a {
        Atom::Pair(h, d) => token_weight_with(*h, t.take(number_count(*h) as int)) + tail_weight_with(
            *d,
            t.skip(number_count(*h) as int),
        ),
        _ => leaf_weight_with(a, t),
    }
}

/// The weight of what follows the first item of a list, with texts `t`.
pub open spec fn tail_weight_with(d: Atom, t: Seq<Seq<char>>) -> nat
    decreases size(d), 2nat,
{
    if is_nil_spec(d) {
        0
    } else {
        match d {
            Atom::Pair(h, r) => token_weight_with(*h, t.take(number_count(*h) as int)) + tail_weight_with(
                *r,
                t.skip(number_count(*h) as int),
            ),
            _ => token_weight_with(d, t),
        }
    }
}

/// The rendered weight of `a`, stopping at the largest `usize`; the
/// numbers' texts are the host's.
pub fn layout_weight<H: Host>(a: &Rc<Atom>, host: &H) -> (r: usize)
    ensures
        number_free(**a) ==> r == capped(token_weight(**a)),
        exists|t: Seq<Seq<char>>| #[trigger] shown(t) && t.len() == number_count(**a) && r == capped(
            token_weight_with(**a, t),
        ),
    decreases size(**a), 1nat,
{
    match &**a {
        Atom::Pair(h, d) => {
            let w1 = layout_weight(h, host);
            let ghost th = choose|t: Seq<Seq<char>>| #[trigger] shown(t) && t.len() == number_count(**h)
                && w1 == capped(token_weight_with(**h, t));
            let w2 = layout_tail_weight(d, host);
            let ghost td = choose|t: Seq<Seq<char>>| #[trigger] shown(t) && t.len() == number_count(**d)
                && w2 == capped(tail_weight_with(**d, t));
            let r = w1.saturating_add(w2);
            proof {
                lemma_split(th, td);
                assert(shown(th + td));
                assert(r == capped(token_weight_with(**a, th + td)));
            }
            r
        },
        Atom::Symbol(s) => {
            assert(shown(Seq::<Seq<char>>::empty()));
            s.as_str().unicode_len()
        },
        _ => {
            let mut text: Vec<char> = Vec::new();
            write_debug(a, host, &mut text);
            assert(number_free(**a) ==> text@ =~= debug_text(**a));
            let ghost tx = choose|t: Seq<Seq<char>>| #[trigger] shown(t) && t.len() == number_count(**a)
                && text@ == Seq::<char>::empty() + debug_with(**a, t);
            assert(text@ =~= debug_with(**a, tx));
            text.len().saturating_add(1)
        },
    }
}

/// The weight of what follows the first item of a list.
pub fn layout_tail_weight<H: Host>(d: &Rc<Atom>, host: &H) -> (r: usize)
    ensures
        number_free(**d) ==> r == capped(tail_weight(**d)),
        exists|t: Seq<Seq<char>>| #[trigger] shown(t) && t.len() == number_count(**d) && r == capped(
            tail_weight_with(**d, t),
        ),
    decreases size(**d), 2nat,
{
    if d.is_nil() {
        assert(shown(Seq::<Seq<char>>::empty()));
        return 0;
    }
    match &**d {
        Atom::Pair(h, t) => {
            let w1 = layout_weight(h, host);
            let ghost th = choose|x: Seq<Seq<char>>| #[trigger] shown(x) && x.len() == number_count(**h)
                && w1 == capped(token_weight_with(**h, x));
            let w2 = layout_tail_weight(t, host);
            let ghost tt = choose|x: Seq<Seq<char>>| #[trigger] shown(x) && x.len() == number_count(**t)
                && w2 == capped(tail_weight_with(**t, x));
            let r = w1.saturating_add(w2);
            proof {
                lemma_split(th, tt);
                assert(shown(th + tt));
                assert(r == capped(tail_weight_with(**d, th + tt)));
            }
            r
        },
        _ => layout_weight(d, host),
    }
}

/// The indented rendering of `a`, for a list nested `indent` levels deep: a
/// list that fits stays on one line; a longer one puts each operand on its
/// own line, three spaces further in per level, except that the first
/// operand of `if`, `define`, `defmacro` and `lambda` stays on the head's
/// line.
pub open spec fn pretty_text(a: Atom, indent: usize) -> Seq<char>
    decreases size(a), 0nat,
{
    match a {
        Atom::Pair(h, d) => {
            let one = fits_line(a);
            let inner = if one {
                0usize
            } else {
                deeper(indent)
            };
            let keep = !one && is_keyword_head(*h);
            seq!['('] + pretty_text(*h, inner) + pretty_tail(*d, indent, inner, one, keep, true)
                + seq![')']
        },
        _ => debug_text(a),
    }
}

/// The operands of a list after its head, as `pretty_text` lays them out.
pub open spec fn pretty_tail(d: Atom, indent: usize, inner: usize, one: bool, keep: bool, first: bool) -> Seq<char>
    decreases size(d), 1nat,
{
    if is_nil_spec(d) {
        Seq::empty()
    } else {
        match d {
            Atom::Pair(x, t) => {
                let sep = if one || (keep && first) {
                    seq![' ']
                } else {
                    seq!['\n'] + spaces(indent as nat + 1)
                };
                sep + pretty_text(*x, inner) + pretty_tail(*t, indent, inner, one, keep, false)
            },
            _ => " . "@ + pretty_text(d, 0),
        }
    }
}

/// How many number texts the indented printer asks the host for: for each
/// list, first those of its weight, then those of its items.
pub open spec fn pretty_count(a: Atom) -> nat
    decreases size(a), 0nat,
{
    match a {
        Atom::Pair(h, d) => number_count(a) + pretty_count(*h) + pretty_tail_count(*d),
        _ => number_count(a),
    }
}

pub open spec fn pretty_tail_count(d: Atom) -> nat
    decreases size(d), 1nat,
{
    if is_nil_spec(d) {
        0
    } else {
        match d {
            Atom::Pair(x, t) => pretty_count(*x) + pretty_tail_count(*t),
            _ => pretty_count(d),
        }
    }
}

/// `pretty_text` where the host's number texts, in the order the printer
/// asks for them, are `t`: a list's weight is measured with the first of
/// them, its items are written with the rest.
pub open spec fn pretty_with(a: Atom, indent: usize, t: Seq<Seq<char>>) -> Seq<char>
    decreases size(a), 0nat,
{
    match a {
        Atom::Pair(h, d) => {
            let n = number_count(a) as int;
            let one = token_weight_with(a, t.take(n)) <= 12;
            let rest = t.skip(n);
            let inner = if one {
                0usize
            } else {
                deeper(indent)
            };
            let keep = !one && is_keyword_head(*h);
            seq!['('] + pretty_with(*h, inner, rest.take(pretty_count(*h) as int)) + pretty_tail_with(
                *d,
                indent,
                inner,
                one,
                keep,
                true,
                rest.skip(pretty_count(*h) as int),
            ) + seq![')']
        },
        _ => debug_with(a, t),
    }
}

/// The operands of a list after its head, as `pretty_with` lays them out.
pub open spec fn pretty_tail_with(
    d: Atom,
    indent: usize,
    inner: usize,
    one: bool,
    keep: bool,
    first: bool,
    t: Seq<Seq<char>>,
) -> Seq<char>
    decreases size(d), 1nat,
{
    if is_nil_spec(d) {
        Seq::empty()
    } else {
        match d {
            Atom::Pair(x, r) => {
                let sep = if one || (keep && first) {
                    seq![' ']
                } else {
                    seq!['\n'] + spaces(indent as nat + 1)
                };
                sep + pretty_with(*x, inner, t.take(pretty_count(*x) as int)) + pretty_tail_with(
                    *r,
                    indent,
                    inner,
                    one,
                    keep,
                    false,
                    t.skip(pretty_count(*x) as int),
                )
            },
            _ => " . "@ + pretty_with(d, 0, t),
        }
    }
}

/// Starts a new line indented for an operand of a list `indent` levels deep.
fn push_indent(out: &mut Vec<char>, indent: usize)
    ensures
        final(out)@ == old(out)@ + seq!['\n'] + spaces(indent as nat + 1),
{
    out.push('\n');
    let mut k: usize = 0;
    loop
        invariant
            k <= indent,
            out@ == old(out)@ + seq!['\n'] + spaces(k as nat),
        decreases indent - k,
    {
        out.push(' ');
        out.push(' ');
        out.push(' ');
        assert(out@ =~= old(out)@ + seq!['\n'] + spaces(k as nat + 1));
        if k == indent {
            return;
        }
        k = k + 1;
    }
}

/// Appends the indented rendering of `a`; see `pretty_text`.
#[verifier::rlimit(100)]
pub fn write_pretty<H: Host>(a: &Rc<Atom>, indent: usize, host: &H, out: &mut Vec<char>)
    ensures
        extends(final(out)@, old(out)@),
        number_free(**a) ==> final(out)@ == old(out)@ + pretty_text(**a, indent),
        exists|t: Seq<Seq<char>>| #[trigger] shown(t) && t.len() == pretty_count(**a) && final(out)@
            == old(out)@ + pretty_with(**a, indent, t),
    decreases size(**a), 0nat,
{
    match &**a {
        Atom::Pair(h, d) => {
            let w = layout_weight(a, host);
            let ghost tw = choose|t: Seq<Seq<char>>| #[trigger] shown(t) && t.len() == number_count(**a)
                && w == capped(token_weight_with(**a, t));
            let one_line = w <= 12;
            let inner: usize = if one_line {
                0
            } else {
                indent.saturating_add(1)
            };
            out.push('(');
            let ghost o1 = out@;
            write_pretty(h, inner, host, out);
            let ghost th = choose|t: Seq<Seq<char>>| #[trigger] shown(t) && t.len() == pretty_count(**h)
                && out@ == o1 + pretty_with(**h, inner, t);
            let keep_first = !one_line && keeps_first_operand(h);
            let ghost mid = out@;
            let ghost mut tc: Seq<Seq<char>> = Seq::empty();
            proof {
                assert forall|tr: Seq<Seq<char>>| tr.len() == pretty_tail_count(**d) implies mid + pretty_tail_with(
                    **d,
                    indent,
                    inner,
                    one_line,
                    keep_first,
                    true,
                    tc + tr,
                ) == out@ + pretty_tail_with(**d, indent, inner, one_line, keep_first, true, tr) by {
                    assert(tc + tr =~= tr);
                }
            }
            assert(number_free(**a) ==> mid == old(out)@ + seq!['('] + pretty_text(**h, inner));
            let mut first = true;
            let mut cur = d.clone();
            while !cur.is_nil()
                invariant
                    size(*cur) <= size(**d),
                    size(**d) < size(**a),
                    **a == Atom::Pair(*h, *d),
                    number_free(**a) ==> one_line == fits_line(**a),
                    inner == (if one_line { 0usize } else { deeper(indent) }),
                    keep_first == (!one_line && is_keyword_head(**h)),
                    number_free(**a) ==> mid == old(out)@ + seq!['('] + pretty_text(**h, inner),
                    number_free(**a) ==> number_free(**d),
                    extends(out@, old(out)@),
                    extends(out@, mid),
                    number_free(**d) ==> number_free(*cur),
                    number_free(**d) ==> mid + pretty_tail(**d, indent, inner, one_line, keep_first, true) == out@ + pretty_tail(*cur, indent, inner, one_line, keep_first, first),
                    one_line == (token_weight_with(**a, tw) <= 12),
                    tw.len() == number_count(**a),
                    th.len() == pretty_count(**h),
                    mid == old(out)@ + seq!['('] + pretty_with(**h, inner, th),
                    tc.len() + pretty_tail_count(*cur) == pretty_tail_count(**d),
                    forall|tr: Seq<Seq<char>>| tr.len() == pretty_tail_count(*cur) ==> mid + pretty_tail_with(
                        **d,
                        indent,
                        inner,
                        one_line,
                        keep_first,
                        true,
                        tc + tr,
                    ) == out@ + pretty_tail_with(*cur, indent, inner, one_line, keep_first, first, tr),
                decreases size(*cur),
            {
                let ghost before = out@;
                match &*cur {
                    Atom::Pair(item, t) => {
                        if one_line || (keep_first && first) {
                            out.push(' ');
                        } else {
                            push_indent(out, indent);
                        }
                        let ghost os = out@;
                        write_pretty(item, inner, host, out);
                        let ghost tx = choose|x: Seq<Seq<char>>| #[trigger] shown(x) && x.len() == pretty_count(**item)
                            && out@ == os + pretty_with(**item, inner, x);
                        proof {
                            assert forall|tr: Seq<Seq<char>>| tr.len() == pretty_tail_count(**t) implies mid
                                + pretty_tail_with(**d, indent, inner, one_line, keep_first, true, (tc + tx) + tr)
                                == out@ + pretty_tail_with(**t, indent, inner, one_line, keep_first, false, tr) by {
                                let full = tx + tr;
                                lemma_split(tx, tr);
                                assert(full.len() == pretty_tail_count(*cur));
                                assert(tc + full =~= (tc + tx) + tr);
                                assert(before + pretty_tail_with(*cur, indent, inner, one_line, keep_first, first, full)
                                    =~= out@ + pretty_tail_with(**t, indent, inner, one_line, keep_first, false, tr));
                            }
                            tc = tc + tx;
                        }
                        assert(number_free(*cur) ==> before + pretty_tail(*cur, indent, inner, one_line, keep_first, first)
                            == out@ + pretty_tail(**t, indent, inner, one_line, keep_first, false));
                        let next = t.clone();
                        cur = next;
                    },
                    _ => {
                        push_str(out, " . ");
                        let ghost os = out@;
                        write_pretty(&cur, 0, host, out);
                        let ghost tx = choose|x: Seq<Seq<char>>| #[trigger] shown(x) && x.len() == pretty_count(*cur)
                            && out@ == os + pretty_with(*cur, 0, x);
                        assert(number_free(*cur) ==> out@ =~= before + pretty_tail(*cur, indent, inner, one_line, keep_first, first));
                        out.push(')');
                        assert(number_free(**a) ==> out@ =~= old(out)@ + pretty_text(**a, indent));
                        proof {
                            assert(tx.len() == pretty_tail_count(*cur));
                            assert(mid + pretty_tail_with(**d, indent, inner, one_line, keep_first, true, tc + tx)
                                == before + pretty_tail_with(*cur, indent, inner, one_line, keep_first, first, tx));
                            assert(before + pretty_tail_with(*cur, indent, inner, one_line, keep_first, first, tx)
                                =~= out@.drop_last());
                            let all = tw + (th + (tc + tx));
                            lemma_split(tw, th + (tc + tx));
                            lemma_split(th, tc + tx);
                            assert(shown(all));
                            assert(pretty_with(**a, indent, all) == seq!['('] + pretty_with(**h, inner, th)
                                + pretty_tail_with(**d, indent, inner, one_line, keep_first, true, tc + tx) + seq![')']);
                            assert(out@ =~= mid + pretty_tail_with(**d, indent, inner, one_line, keep_first, true, tc + tx)
                                + seq![')']);
                            assert(out@ =~= old(out)@ + pretty_with(**a, indent, all));
                        }
                        return;
                    },
                }
                first = false;
            }
            out.push(')');
            assert(number_free(**a) ==> out@ =~= old(out)@ + pretty_text(**a, indent));
            proof {
                assert(pretty_tail_with(*cur, indent, inner, one_line, keep_first, first, Seq::<Seq<char>>::empty())
                    =~= Seq::<char>::empty());
                assert(tc + Seq::<Seq<char>>::empty() =~= tc);
                let all = tw + (th + tc);
                lemma_split(tw, th + tc);
                lemma_split(th, tc);
                assert(shown(all));
                assert(out@ =~= old(out)@ + pretty_with(**a, indent, all));
            }
        },
        _ => {
            write_debug(a, host, out);
        },
    }
}

} // verus!

verus! {

/// The canonical rendering of `a` as a string.
pub fn debug_string<H: Host>(a: &Rc<Atom>, host: &H) -> (r: String)
    ensures
        number_free(**a) ==> r@ == debug_text(**a),
        exists|t: Seq<Seq<char>>| #[trigger] shown(t) && t.len() == number_count(**a) && r@ == debug_with(**a, t),
{
    let mut out: Vec<char> = Vec::new();
    write_debug(a, host, &mut out);
    assert(out@ =~= Seq::<char>::empty() + out@);
    let ghost t = choose|t: Seq<Seq<char>>| #[trigger] shown(t) && t.len() == number_count(**a) && out@
        == Seq::<char>::empty() + debug_with(**a, t);
    assert(out@ =~= debug_with(**a, t));
    crate::builtins::string_of_chars(&out)
}

/// The indented rendering of `a` as a string.
pub fn pretty_string<H: Host>(a: &Rc<Atom>, host: &H) -> (r: String)
    ensures
        number_free(**a) ==> r@ == pretty_text(**a, 0),
        exists|t: Seq<Seq<char>>| #[trigger] shown(t) && t.len() == pretty_count(**a) && r@ == pretty_with(**a, 0, t),
{
    let mut out: Vec<char> = Vec::new();
    write_pretty(a, 0, host, &mut out);
    assert(out@ =~= Seq::<char>::empty() + out@);
    proof {
                let t = choose|t: Seq<Seq<char>>| #[trigger] shown(t) && t.len() == pretty_count(**a) && out@
                    == Seq::<char>::empty() + pretty_with(**a, 0, t);
                assert(out@ =~= pretty_with(**a, 0, t));
            }
    crate::builtins::string_of_chars(&out)
}

} // verus!
