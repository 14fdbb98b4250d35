use vstd::prelude::*;

use crate::atom::{atom_eq, car_spec, cdr_spec, is_nil_spec, is_sym, size, Atom};
use crate::parsing::{
    atoms_end, escape_of, is_digit, is_symbol_char, is_symbol_start, is_ws, number_starts,
    one_end, quoted_end, read_end, rest_end, skip, stopped_at, string_from, symbol_to,
};
use crate::print::{debug_text, esc, escaped, tail_text};

verus! {

/// A name that the reader takes as a symbol.
pub open spec fn symbol_name_ok(n: Seq<char>) -> bool {
    &&& n.len() > 0
    &&& is_symbol_start(n[0])
    &&& forall|k: int| 1 <= k < n.len() ==> is_symbol_char(#[trigger] n[k])
    &&& !(n[0] == '-' && n.len() > 1 && is_digit(n[1]))
}

/// Built from strings, and from symbols whose names the reader takes as
/// symbols. Numbers are left out: the host writes and reads their text.
pub open spec fn readable(a: Atom) -> bool
    decreases a,
{
    match a {
        Atom::Symbol(n) => symbol_name_ok(n@),
        Atom::String(_) => true,
        Atom::Pair(h, d) => readable(*h) && readable(*d),
        _ => false,
    }
}

/// `s` holds `t` from `p` on.
pub open spec fn holds_at(s: Seq<char>, p: int, t: Seq<char>) -> bool {
    0 <= p && p + t.len() <= s.len() && s.subrange(p, p + t.len()) == t
}

proof fn lemma_holds_char(s: Seq<char>, p: int, t: Seq<char>, k: int)
    requires
        holds_at(s, p, t),
        0 <= k < t.len(),
    ensures
        s[p + k] == t[k],
{
    assert(s.subrange(p, p + t.len())[k] == s[p + k]);
}

proof fn lemma_holds_split(s: Seq<char>, p: int, x: Seq<char>, y: Seq<char>)
    requires
        holds_at(s, p, x + y),
    ensures
        holds_at(s, p, x),
        holds_at(s, p + x.len(), y),
{
    assert forall|k: int| 0 <= k < x.len() implies s[p + k] == x[k] by {
        lemma_holds_char(s, p, x + y, k);
    }
    assert forall|k: int| 0 <= k < y.len() implies s[p + x.len() + k] == y[k] by {
        lemma_holds_char(s, p, x + y, x.len() + k);
    }
    assert(s.subrange(p, p + x.len()) =~= x);
    assert(s.subrange(p + x.len(), p + x.len() + y.len()) =~= y);
}

/// What the rendering of a readable atom starts with.
proof fn lemma_debug_first(a: Atom)
    requires
        readable(a),
    ensures
        debug_text(a).len() > 0,
        a is Symbol ==> is_symbol_start(debug_text(a)[0]),
        a is String ==> debug_text(a)[0] == '"',
        a is Pair ==> debug_text(a)[0] == '(',
        a is Symbol || a is String || a is Pair,
{
}

/// What the rest of a list starts with: its closing parenthesis, or a space.
proof fn lemma_tail_first(d: Atom)
    requires
        readable(d),
    ensures
        (tail_text(d) + seq![')'])[0] == ')' || (tail_text(d) + seq![')'])[0] == ' ',
        tail_text(d).len() == 0 ==> crate::atom::is_nil_spec(d),
{
    reveal_strlit(" . ");
    if !crate::atom::is_nil_spec(d) {
        assert(tail_text(d).len() > 0 && tail_text(d)[0] == ' ');
    }
}

proof fn lemma_skip_here(s: Seq<char>, p: int)
    requires
        0 <= p < s.len(),
        !is_ws(s[p]),
    ensures
        skip(s, p) == p,
{
}

proof fn lemma_skip_one(s: Seq<char>, p: int)
    requires
        0 <= p,
        p + 1 < s.len(),
        s[p] == ' ',
        !is_ws(s[p + 1]),
    ensures
        skip(s, p) == p + 1,
{
    assert(skip(s, p + 1) == p + 1);
}

proof fn lemma_symbol_to(s: Seq<char>, i: int, e: int)
    requires
        0 <= i <= e <= s.len(),
        forall|k: int| i <= k < e ==> is_symbol_char(#[trigger] s[k]),
        e == s.len() || !is_symbol_char(s[e]),
    ensures
        symbol_to(s, i) == e,
    decreases e - i,
{
    if i < e {
        lemma_symbol_to(s, i + 1, e);
    }
}

/// The escaped characters of `t` and a closing quote read back as `t`.
proof fn lemma_read_string(s: Seq<char>, i: int, t: Seq<char>)
    requires
        holds_at(s, i, escaped(t) + seq!['"']),
    ensures
        string_from(s, i) == Some((t, i + escaped(t).len() + 1)),
    decreases t.len(),
{
    if t.len() == 0 {
        assert(escaped(t) =~= Seq::<char>::empty());
        lemma_holds_char(s, i, escaped(t) + seq!['"'], 0);
    } else {
        let c = t[0];
        let rest = t.drop_first();
        assert(escaped(t) == esc(c) + escaped(rest));
        assert(escaped(t) + seq!['"'] =~= esc(c) + (escaped(rest) + seq!['"']));
        lemma_holds_split(s, i, esc(c), escaped(rest) + seq!['"']);
        lemma_read_string(s, i + esc(c).len(), rest);
        lemma_holds_char(s, i, esc(c), 0);
        if esc(c).len() == 2 {
            lemma_holds_char(s, i, esc(c), 1);
            assert(escape_of(s[i + 1]) == Some(c));
        }
        assert(seq![c] + rest =~= t);
    }
}

/// The canonical rendering of a readable atom reads back as that atom,
/// wherever it stands in the source and whatever follows it, so long as no
/// symbol character does.
pub proof fn lemma_read_debug(s: Seq<char>, p: int, a: Atom)
    requires
        readable(a),
        holds_at(s, p, debug_text(a)),
        p + debug_text(a).len() == s.len() || !is_symbol_char(s[p + debug_text(a).len()]),
    ensures
        read_end(s, p, a) == Some(p + debug_text(a).len()),
    decreases size(a), 1nat,
{
    lemma_debug_first(a);
    let n = debug_text(a).len();
    lemma_holds_char(s, p, debug_text(a), 0);
    lemma_skip_here(s, p);
    if a is Symbol {
        {
            if a->Symbol_0@.len() > 1 {
                lemma_holds_char(s, p, debug_text(a), 1);
            }
            assert(!number_starts(s, p));
            assert forall|k: int| p + 1 <= k < p + n implies is_symbol_char(#[trigger] s[k]) by {
                lemma_holds_char(s, p, debug_text(a), k - p);
            }
            lemma_symbol_to(s, p + 1, p + n);
        }
    } else if a is String {
        {
            let t = a->String_0@;
            assert(debug_text(a) =~= seq!['"'] + (escaped(t) + seq!['"']));
            lemma_holds_split(s, p, seq!['"'], escaped(t) + seq!['"']);
            lemma_read_string(s, p + 1, t);
        }
    } else {
        {
            let h = car_spec(a);
            let d = cdr_spec(a);
            let dh = debug_text(h);
            let rest = tail_text(d) + seq![')'];
            assert(debug_text(a) =~= seq!['('] + (dh + rest));
            lemma_holds_split(s, p, seq!['('], dh + rest);
            lemma_holds_split(s, p + 1, dh, rest);
            lemma_debug_first(h);
            lemma_holds_char(s, p + 1, dh, 0);
            lemma_skip_here(s, p + 1);
            lemma_tail_first(d);
            lemma_holds_char(s, p + 1 + dh.len(), rest, 0);
            lemma_read_debug(s, p + 1, h);
            lemma_read_tail(s, p + 1 + dh.len(), d);
        }
    }
}

/// The rest of a list, as rendered, and its closing parenthesis read back as
/// that rest.
pub proof fn lemma_read_tail(s: Seq<char>, m: int, d: Atom)
    requires
        readable(d),
        holds_at(s, m, tail_text(d) + seq![')']),
    ensures
        rest_end(s, m, d) == Some(m + tail_text(d).len() + 1),
    decreases size(d), 2nat,
{
    reveal_strlit(" . ");
    let whole = tail_text(d) + seq![')'];
    lemma_holds_char(s, m, whole, 0);
    if crate::atom::is_nil_spec(d) {
        assert(tail_text(d) =~= Seq::<char>::empty());
        lemma_skip_here(s, m);
    } else {
        if d is Pair {
            {
                let h = car_spec(d);
                let t = cdr_spec(d);
                let dh = debug_text(h);
                let more = tail_text(t) + seq![')'];
                assert(whole =~= seq![' '] + (dh + more));
                lemma_holds_split(s, m, seq![' '], dh + more);
                lemma_holds_split(s, m + 1, dh, more);
                lemma_debug_first(h);
                lemma_holds_char(s, m + 1, dh, 0);
                lemma_skip_one(s, m);
                lemma_tail_first(t);
                lemma_holds_char(s, m + 1 + dh.len(), more, 0);
                lemma_read_debug(s, m + 1, h);
                lemma_read_tail(s, m + 1 + dh.len(), t);
            }
        } else {
            {
                let dd = debug_text(d);
                assert(whole =~= seq![' ', '.', ' '] + (dd + seq![')']));
                lemma_holds_split(s, m, seq![' ', '.', ' '], dd + seq![')']);
                lemma_holds_split(s, m + 3, dd, seq![')']);
                lemma_holds_char(s, m, seq![' ', '.', ' '], 1);
                lemma_holds_char(s, m, seq![' ', '.', ' '], 2);
                lemma_debug_first(d);
                lemma_holds_char(s, m + 3, dd, 0);
                lemma_skip_one(s, m);
                lemma_skip_one(s, m + 2);
                lemma_holds_char(s, m + 3 + dd.len(), seq![')'], 0);
                lemma_read_debug(s, m + 3, d);
                crate::parsing::lemma_read_from_skip(s, m + 2, m + 3, d);
                lemma_skip_here(s, m + 3 + dd.len());
            }
        }
    }
}

/// Reading the canonical rendering of an expression gives back that one
/// expression and uses up the text: for expressions built from strings and
/// from symbols that the reader takes as symbols.
pub proof fn law_read_debug_round_trip(e: Atom)
    requires
        readable(e),
    ensures
        atoms_end(debug_text(e), seq![e]) == Some(debug_text(e).len() as int),
        skip(debug_text(e), debug_text(e).len() as int) == debug_text(e).len(),
{
    let s = debug_text(e);
    assert(s.subrange(0, s.len() as int) =~= s);
    lemma_read_debug(s, 0, e);
    assert(seq![e].drop_last() =~= Seq::<Atom>::empty());
    assert(atoms_end(s, seq![e].drop_last()) == Some(0int));
}

/// Same shape and same text, where numbers are alike whatever their bits:
/// the reader fixes a number's extent, the host its value.
pub open spec fn alike(a: Atom, b: Atom) -> bool
    decreases a,
{
    match (a, b) {
        (Atom::Number(_), Atom::Number(_)) => true,
        (Atom::String(x), Atom::String(y)) => x@ == y@,
        (Atom::Symbol(x), Atom::Symbol(y)) => x@ == y@,
        (Atom::Pair(h1, d1), Atom::Pair(h2, d2)) => alike(*h1, *h2) && alike(*d1, *d2),
        _ => false,
    }
}

proof fn lemma_nil_alike(a: Atom, b: Atom)
    requires
        is_nil_spec(a),
        is_nil_spec(b),
    ensures
        alike(a, b),
{
}

/// What reads from one place is unique: two atoms read there are alike and
/// stop at the same place.
pub proof fn lemma_read_unique(s: Seq<char>, p: int, a: Atom, b: Atom)
    requires
        read_end(s, p, a) is Some,
        read_end(s, p, b) is Some,
    ensures
        read_end(s, p, a) == read_end(s, p, b),
        alike(a, b),
    decreases size(a), 1nat,
{
    let q = skip(s, p);
    if number_starts(s, q) || is_symbol_start(s[q]) || s[q] == '"' {
    } else if s[q] == '\'' || s[q] == '`' || s[q] == ',' {
        let (i, name) = if s[q] == '\'' {
            (q + 1, "quote"@)
        } else if s[q] == '`' {
            (q + 1, "quasiquote"@)
        } else if q + 1 < s.len() && s[q + 1] == '@' {
            (q + 2, "unquote-splicing"@)
        } else {
            (q + 1, "unquote"@)
        };
        assert(quoted_end(s, i, a, name) is Some && quoted_end(s, i, b, name) is Some);
        lemma_one_unique(s, i, cdr_spec(a), cdr_spec(b));
        assert(is_sym(car_spec(a), name) && is_sym(car_spec(b), name));
        assert(alike(car_spec(a), car_spec(b)));
    } else if s[q] == '(' {
        let j = skip(s, q + 1);
        if j < s.len() && s[j] == ')' {
            lemma_nil_alike(a, b);
        } else {
            lemma_read_unique(s, j, car_spec(a), car_spec(b));
            let m = read_end(s, j, car_spec(a))->Some_0;
            lemma_rest_unique(s, m, cdr_spec(a), cdr_spec(b));
        }
    }
}

proof fn lemma_one_unique(s: Seq<char>, i: int, d: Atom, e: Atom)
    requires
        one_end(s, i, d) is Some,
        one_end(s, i, e) is Some,
    ensures
        one_end(s, i, d) == one_end(s, i, e),
        alike(d, e),
    decreases size(d), 3nat,
{
    lemma_read_unique(s, i, car_spec(d), car_spec(e));
    lemma_nil_alike(cdr_spec(d), cdr_spec(e));
}

proof fn lemma_rest_unique(s: Seq<char>, i: int, a: Atom, b: Atom)
    requires
        rest_end(s, i, a) is Some,
        rest_end(s, i, b) is Some,
    ensures
        rest_end(s, i, a) == rest_end(s, i, b),
        alike(a, b),
    decreases size(a), 2nat,
{
    let j = skip(s, i);
    if s[j] == ')' {
        lemma_nil_alike(a, b);
    } else if s[j] == '.' {
        lemma_read_unique(s, j + 1, a, b);
    } else {
        lemma_read_unique(s, j, car_spec(a), car_spec(b));
        let m = read_end(s, j, car_spec(a))->Some_0;
        lemma_rest_unique(s, m, cdr_spec(a), cdr_spec(b));
    }
}

/// Where reading `atoms` one after another from `p` stops, first atom first.
pub open spec fn atoms_end_from(s: Seq<char>, p: int, atoms: Seq<Atom>) -> Option<int>
    decreases atoms.len(),
{
    if atoms.len() == 0 {
        Some(p)
    } else {
        match read_end(s, p, atoms[0]) {
            Some(m) => atoms_end_from(s, m, atoms.drop_first()),
            None => None,
        }
    }
}

proof fn lemma_atoms_end_from_push(s: Seq<char>, p: int, atoms: Seq<Atom>, a: Atom)
    ensures
        atoms_end_from(s, p, atoms.push(a)) == match atoms_end_from(s, p, atoms) {
            Some(m) => read_end(s, m, a),
            None => None,
        },
    decreases atoms.len(),
{
    if atoms.len() == 0 {
        assert(atoms.push(a).drop_first() =~= Seq::<Atom>::empty());
        assert(atoms.push(a)[0] == a);
        match read_end(s, p, a) {
            Some(m) => {
                assert(atoms_end_from(s, m, atoms.push(a).drop_first()) == Some(m));
            },
            None => {},
        }
    } else {
        assert(atoms.push(a).drop_first() =~= atoms.drop_first().push(a));
        assert(atoms.push(a)[0] == atoms[0]);
        match read_end(s, p, atoms[0]) {
            Some(m) => lemma_atoms_end_from_push(s, m, atoms.drop_first(), a),
            None => {},
        }
    }
}

pub proof fn lemma_atoms_end_front(s: Seq<char>, atoms: Seq<Atom>)
    ensures
        atoms_end(s, atoms) == atoms_end_from(s, 0, atoms),
    decreases atoms.len(),
{
    if atoms.len() > 0 {
        lemma_atoms_end_front(s, atoms.drop_last());
        lemma_atoms_end_from_push(s, 0, atoms.drop_last(), atoms.last());
        assert(atoms.drop_last().push(atoms.last()) =~= atoms);
    }
}

proof fn lemma_alike_plain(a: Atom, e: Atom)
    requires
        readable(e),
        alike(a, e),
    ensures
        atom_eq(a, e),
    decreases a,
{
    if a is Pair {
        lemma_alike_plain(car_spec(a), car_spec(e));
        lemma_alike_plain(cdr_spec(a), cdr_spec(e));
    }
}

/// Reading cannot both use up the text with some atoms and get stuck
/// after others: readings from one place agree.
pub proof fn lemma_full_read_not_stuck(s: Seq<char>, p: int, x: Seq<Atom>, y: Seq<Atom>)
    requires
        atoms_end_from(s, p, x) is Some,
        skip(s, atoms_end_from(s, p, x)->Some_0) == s.len(),
        atoms_end_from(s, p, y) is Some,
    ensures
        skip(s, atoms_end_from(s, p, y)->Some_0) < s.len() ==> !crate::parsing::unreadable(
            s,
            atoms_end_from(s, p, y)->Some_0,
        ),
    decreases y.len(),
{
    if y.len() == 0 {
        if x.len() > 0 {
            assert(read_end(s, p, x[0]) is Some);
        }
    } else if x.len() == 0 {
        assert(read_end(s, p, y[0]) is Some);
    } else {
        lemma_read_unique(s, p, x[0], y[0]);
        let m = read_end(s, p, x[0])->Some_0;
        lemma_full_read_not_stuck(s, m, x.drop_first(), y.drop_first());
    }
}

/// Whatever the reader makes of the whole canonical rendering of an
/// expression is that one expression: for expressions built from strings
/// and from symbols that the reader takes as symbols. (`atoms` and the
/// end position are what `parser` promises of a successful read.)
pub proof fn law_parse_of_debug(e: Atom, atoms: Seq<Atom>)
    requires
        readable(e),
        atoms_end(debug_text(e), atoms) is Some,
        skip(debug_text(e), atoms_end(debug_text(e), atoms)->Some_0) == debug_text(e).len(),
    ensures
        atoms.len() == 1,
        atom_eq(atoms[0], e),
{
    let s = debug_text(e);
    assert(s.subrange(0, s.len() as int) =~= s);
    lemma_read_debug(s, 0, e);
    lemma_atoms_end_front(s, atoms);
    lemma_debug_first(e);
    lemma_skip_here(s, 0);
    if atoms.len() == 0 {
        assert(atoms_end_from(s, 0, atoms) == Some(0int));
    } else {
        lemma_read_unique(s, 0, atoms[0], e);
        let rest = atoms.drop_first();
        assert(atoms_end_from(s, s.len() as int, rest) is Some);
        if rest.len() > 0 {
            assert(read_end(s, s.len() as int, rest[0]) is None);
        }
        lemma_alike_plain(atoms[0], e);
    }
}

/// Reading the canonical rendering of an expression never stops short:
/// whatever the reader reads from it, stopping only where nothing more
/// reads, is that one expression and uses up the text. So `parser` on a
/// rendering gives back the expression, and never reports a syntax error
/// (its only diagnostics could be about `\u` escapes, which renderings do
/// not hold).
pub proof fn law_read_of_debug_complete(e: Atom, atoms: Seq<Atom>)
    requires
        readable(e),
        atoms_end(debug_text(e), atoms) is Some,
        stopped_at(debug_text(e), atoms_end(debug_text(e), atoms)->Some_0),
    ensures
        atoms.len() == 1,
        atom_eq(atoms[0], e),
        skip(debug_text(e), atoms_end(debug_text(e), atoms)->Some_0) == debug_text(e).len(),
{
    let s = debug_text(e);
    assert(s.subrange(0, s.len() as int) =~= s);
    lemma_read_debug(s, 0, e);
    lemma_atoms_end_front(s, atoms);
    lemma_debug_first(e);
    lemma_skip_here(s, 0);
    if atoms.len() == 0 {
        assert(atoms_end_from(s, 0, atoms) == Some(0int));
        assert(read_end(s, 0, e) is None);
    } else {
        lemma_read_unique(s, 0, atoms[0], e);
        let rest = atoms.drop_first();
        assert(atoms_end_from(s, s.len() as int, rest) is Some);
        if rest.len() > 0 {
            assert(read_end(s, s.len() as int, rest[0]) is None);
        }
        lemma_alike_plain(atoms[0], e);
    }
}

} // verus!
