use std::rc::Rc;

use vstd::prelude::*;

use crate::atom::{car_spec, cdr_spec, is_nil_spec, is_sym, size, Atom};
use crate::builtins::string_of_chars;
use crate::host::Host;

verus! {

/// What went wrong at a place in the source.
#[derive(PartialEq, Eq, Structural, Clone, Copy, Debug)]
pub enum ParseErrorKind {
    /// A character that cannot stand where it was found.
    UnexpectedChar(char),
    /// The source ended inside a list or a string, or after a quote mark.
    UnexpectedEnd,
    /// A backslash followed by a character that names no escape.
    InvalidEscape(char),
    /// A `\u` escape whose four hex digits name no character; the reader
    /// puts U+FFFD in its place.
    InvalidUnicode,
}

/// A diagnostic: the span of characters `start..end` and what is wrong there.
#[derive(PartialEq, Eq, Structural, Clone, Copy, Debug)]
pub struct ParseError {
    pub start: usize,
    pub end: usize,
    pub kind: ParseErrorKind,
}

pub open spec fn is_ws(c: char) -> bool {
    c == ' ' || c == '\t' || c == '\n' || c == '\r' || c == '\x0B' || c == '\x0C'
}

pub open spec fn is_digit(c: char) -> bool {
    '0' <= c && c <= '9'
}

pub open spec fn is_hex(c: char) -> bool {
    is_digit(c) || ('a' <= c && c <= 'f') || ('A' <= c && c <= 'F')
}

pub open spec fn is_symbol_start(c: char) -> bool {
    ('a' <= c && c <= 'z') || ('A' <= c && c <= 'Z') || c == '+' || c == '-' || c == '*' || c
        == '/' || c == '%' || c == '_' || c == '=' || c == '<' || c == '>' || c == '?'
}

pub open spec fn is_symbol_char(c: char) -> bool {
    is_symbol_start(c) || is_digit(c) || c == ':'
}

/// A number starts at `pos`: a digit, or `-` and a digit.
pub open spec fn number_starts(s: Seq<char>, pos: int) -> bool {
    (pos < s.len() && is_digit(s[pos])) || (pos + 1 < s.len() && s[pos] == '-' && is_digit(
        s[pos + 1],
    ))
}

fn char_is_ws(c: char) -> (r: bool)
    ensures
        r == is_ws(c),
{
    c == ' ' || c == '\t' || c == '\n' || c == '\r' || c == '\x0B' || c == '\x0C'
}

fn char_is_digit(c: char) -> (r: bool)
    ensures
        r == is_digit(c),
{
    '0' <= c && c <= '9'
}

fn char_is_symbol_start(c: char) -> (r: bool)
    ensures
        r == is_symbol_start(c),
{
    ('a' <= c && c <= 'z') || ('A' <= c && c <= 'Z') || c == '+' || c == '-' || c == '*' || c
        == '/' || c == '%' || c == '_' || c == '=' || c == '<' || c == '>' || c == '?'
}

fn char_is_symbol_char(c: char) -> (r: bool)
    ensures
        r == is_symbol_char(c),
{
    char_is_symbol_start(c) || char_is_digit(c) || c == ':'
}

/// The value of a hex digit.
fn hex_value(c: char) -> (r: Option<u32>)
    ensures
        r is Some <==> is_hex(c),
        r is Some ==> r->Some_0 < 16 && r->Some_0 == hex_digit_value(c),
{
    if '0' <= c && c <= '9' {
        Some((c as u32) - ('0' as u32))
    } else if 'a' <= c && c <= 'f' {
        Some((c as u32) - ('a' as u32) + 10)
    } else if 'A' <= c && c <= 'F' {
        Some((c as u32) - ('A' as u32) + 10)
    } else {
        None
    }
}

/// The number spelled by the four hex digits at `at`, if they are hex
/// digits.
fn hex4_at(s: &Vec<char>, at: usize) -> (r: Option<u32>)
    requires
        at + 4 <= s@.len(),
        at <= usize::MAX - 4,
    ensures
        r is Some <==> is_hex(s@[at as int]) && is_hex(s@[at + 1]) && is_hex(s@[at + 2]) && is_hex(
            s@[at + 3],
        ),
        r is Some ==> r->Some_0 as int == hex4(s@, at as int),
{
    match (hex_value(s[at]), hex_value(s[at + 1]), hex_value(s[at + 2]), hex_value(s[at + 3])) {
        (Some(a), Some(b), Some(c), Some(d)) => Some(a * 4096 + b * 256 + c * 16 + d),
        _ => None,
    }
}

/// Relies on char::from_u32: a character for every Unicode scalar value,
/// none for a surrogate or a value past U+10FFFF.
#[verifier::external_body]
fn char_from_code(code: u32) -> (r: Option<char>)
    ensures
        r is Some <==> (code < 0xD800 || (0xE000 <= code && code <= 0x10FFFF)),
        r is Some ==> r->Some_0 as int == code as int,
{
    char::from_u32(code)
}

/// Relies on str::chars: the characters of the source, in order.
#[verifier::external_body]
fn chars_of(s: &str) -> (r: Vec<char>)
    ensures
        r@ == s@,
{
    s.chars().collect()
}

/// The first position at or after `p` that is not whitespace.
pub open spec fn skip(s: Seq<char>, p: int) -> int
    decreases s.len() - p,
{
    if 0 <= p < s.len() && is_ws(s[p]) {
        skip(s, p + 1)
    } else {
        p
    }
}

/// The end of the run of digits that starts at `p`.
pub open spec fn digits_to(s: Seq<char>, p: int) -> int
    decreases s.len() - p,
{
    if 0 <= p < s.len() && is_digit(s[p]) {
        digits_to(s, p + 1)
    } else {
        p
    }
}

/// The end of the number that starts at `q`: an optional `-`, digits, an
/// optional fraction (`.` and digits) and an optional exponent (`e` or `E`,
/// an optional sign, digits).
pub open spec fn number_to(s: Seq<char>, q: int) -> int {
    let a = if s[q] == '-' { q + 1 } else { q };
    let b = digits_to(s, a);
    let c = if b + 1 < s.len() && s[b] == '.' && is_digit(s[b + 1]) {
        digits_to(s, b + 1)
    } else {
        b
    };
    let j = if c + 1 < s.len() && (s[c] == 'e' || s[c] == 'E') {
        if s[c + 1] == '+' || s[c + 1] == '-' {
            c + 2
        } else {
            c + 1
        }
    } else {
        -1
    };
    if 0 <= j < s.len() && is_digit(s[j]) {
        digits_to(s, j)
    } else {
        c
    }
}

/// The end of the run of symbol characters that starts at `p`.
pub open spec fn symbol_to(s: Seq<char>, p: int) -> int
    decreases s.len() - p,
{
    if 0 <= p < s.len() && is_symbol_char(s[p]) {
        symbol_to(s, p + 1)
    } else {
        p
    }
}

/// The character that `\c` stands for in a string.
pub open spec fn escape_of(c: char) -> Option<char> {
    if c == '\\' || c == '/' || c == '"' {
        Some(c)
    } else if c == 'b' {
        Some('\x08')
    } else if c == 'f' {
        Some('\x0C')
    } else if c == 'n' {
        Some('\n')
    } else if c == 'r' {
        Some('\r')
    } else if c == 't' {
        Some('\t')
    } else {
        None
    }
}

pub open spec fn hex_digit_value(c: char) -> int {
    if is_digit(c) {
        c as int - '0' as int
    } else if 'a' <= c && c <= 'f' {
        c as int - 'a' as int + 10
    } else {
        c as int - 'A' as int + 10
    }
}

/// The number that the four hex digits at `i` spell.
pub open spec fn hex4(s: Seq<char>, i: int) -> int {
    hex_digit_value(s[i]) * 4096 + hex_digit_value(s[i + 1]) * 256 + hex_digit_value(s[i + 2])
        * 16 + hex_digit_value(s[i + 3])
}

pub open spec fn is_scalar(code: int) -> bool {
    (0 <= code < 0xD800) || (0xE000 <= code <= 0x10FFFF)
}

pub open spec fn code_of(c: char) -> int {
    c as int
}

/// The character with the code `code`, or U+FFFD where there is none.
pub open spec fn char_of_code(code: int) -> char {
    if is_scalar(code) {
        choose|c: char| #[trigger] code_of(c) == code
    } else {
        '\u{FFFD}'
    }
}

/// The characters of a string literal from `i` (just inside the opening
/// quote) and the position after its closing quote; none where the literal
/// is malformed or unclosed.
pub open spec fn string_from(s: Seq<char>, i: int) -> Option<(Seq<char>, int)>
    decreases s.len() - i,
{
    if i < 0 || i >= s.len() {
        None
    } else if s[i] == '"' {
        Some((Seq::empty(), i + 1))
    } else if s[i] != '\\' {
        match string_from(s, i + 1) {
            Some((t, e)) => Some((seq![s[i]] + t, e)),
            None => None,
        }
    } else if i + 1 < s.len() && escape_of(s[i + 1]) is Some {
        match string_from(s, i + 2) {
            Some((t, e)) => Some((seq![escape_of(s[i + 1])->Some_0] + t, e)),
            None => None,
        }
    } else if i + 1 < s.len() && s[i + 1] == 'u' && i + 6 <= s.len() && is_hex(s[i + 2]) && is_hex(
        s[i + 3],
    ) && is_hex(s[i + 4]) && is_hex(s[i + 5]) {
        match string_from(s, i + 6) {
            Some((t, e)) => Some((seq![char_of_code(hex4(s, i + 2))] + t, e)),
            None => None,
        }
    } else {
        None
    }
}

/// How many `\u` escapes naming no character a string literal read from
/// `i` holds, up to its closing quote.
pub open spec fn bad_codes(s: Seq<char>, i: int) -> nat
    decreases s.len() - i,
{
    if i < 0 || i >= s.len() || s[i] == '"' {
        0
    } else if s[i] != '\\' {
        bad_codes(s, i + 1)
    } else if i + 1 < s.len() && escape_of(s[i + 1]) is Some {
        bad_codes(s, i + 2)
    } else if i + 1 < s.len() && s[i + 1] == 'u' && i + 6 <= s.len() && is_hex(s[i + 2]) && is_hex(
        s[i + 3],
    ) && is_hex(s[i + 4]) && is_hex(s[i + 5]) {
        (if is_scalar(hex4(s, i + 2)) {
            0nat
        } else {
            1nat
        }) + bad_codes(s, i + 6)
    } else {
        0
    }
}

/// The source holds no `\u` with four hex digits that name no character,
/// so no string literal read from it draws a diagnostic.
pub open spec fn clean(s: Seq<char>) -> bool {
    forall|i: int| 0 <= i && i + 6 <= s.len() && #[trigger] s[i] == '\\' && s[i + 1] == 'u'
        && is_hex(s[i + 2]) && is_hex(s[i + 3]) && is_hex(s[i + 4]) && is_hex(s[i + 5])
        ==> is_scalar(hex4(s, i + 2))
}

pub proof fn lemma_clean_no_bad_codes(s: Seq<char>, i: int)
    requires
        clean(s),
    ensures
        bad_codes(s, i) == 0,
    decreases s.len() - i,
{
    if 0 <= i < s.len() && s[i] != '"' {
        if s[i] != '\\' {
            lemma_clean_no_bad_codes(s, i + 1);
        } else if i + 1 < s.len() && escape_of(s[i + 1]) is Some {
            lemma_clean_no_bad_codes(s, i + 2);
        } else if i + 6 <= s.len() {
            lemma_clean_no_bad_codes(s, i + 6);
        }
    }
}

/// Where reading `(name x)` from `i` (just after the quote mark) stops.
pub open spec fn quoted_end(s: Seq<char>, i: int, a: Atom, name: Seq<char>) -> Option<int>
    decreases size(a), 0nat,
{
    if a is Pair && is_sym(car_spec(a), name) {
        one_end(s, i, cdr_spec(a))
    } else {
        None
    }
}

/// Where reading the item of the one-item list `d` from `i` stops.
pub open spec fn one_end(s: Seq<char>, i: int, d: Atom) -> Option<int>
    decreases size(d), 3nat,
{
    if d is Pair && is_nil_spec(cdr_spec(d)) {
        read_end(s, i, car_spec(d))
    } else {
        None
    }
}

/// Where reading `a` from `p` (whitespace first) stops; none where the text
/// from `p` does not read as `a`. A number is read by the host, so only its
/// extent is fixed here.
pub open spec fn read_end(s: Seq<char>, p: int, a: Atom) -> Option<int>
    decreases size(a), 1nat,
{
    let q = skip(s, p);
    if !(0 <= p && q < s.len()) {
        None
    } else if number_starts(s, q) {
        if a is Number {
            Some(number_to(s, q))
        } else {
            None
        }
    } else if is_symbol_start(s[q]) {
        let e = symbol_to(s, q + 1);
        if a is Symbol && a->Symbol_0@ == s.subrange(q, e) {
            Some(e)
        } else {
            None
        }
    } else if s[q] == '"' {
        match string_from(s, q + 1) {
            Some((t, e)) => if a is String && a->String_0@ == t {
                Some(e)
            } else {
                None
            },
            None => None,
        }
    } else if s[q] == '\'' {
        quoted_end(s, q + 1, a, "quote"@)
    } else if s[q] == '`' {
        quoted_end(s, q + 1, a, "quasiquote"@)
    } else if s[q] == ',' && q + 1 < s.len() && s[q + 1] == '@' {
        quoted_end(s, q + 2, a, "unquote-splicing"@)
    } else if s[q] == ',' {
        quoted_end(s, q + 1, a, "unquote"@)
    } else if s[q] == '(' {
        let j = skip(s, q + 1);
        if j < s.len() && s[j] == ')' {
            if is_nil_spec(a) {
                Some(j + 1)
            } else {
                None
            }
        } else if a is Pair {
            match read_end(s, j, car_spec(a)) {
                Some(m) => rest_end(s, m, cdr_spec(a)),
                None => None,
            }
        } else {
            None
        }
    } else {
        None
    }
}

/// Where reading the rest of a list after at least one item stops: more
/// items, then `)`, or `.`, a last expression and `)`.
pub open spec fn rest_end(s: Seq<char>, i: int, a: Atom) -> Option<int>
    decreases size(a), 2nat,
{
    let j = skip(s, i);
    if !(0 <= i && j < s.len()) {
        None
    } else if s[j] == ')' {
        if is_nil_spec(a) {
            Some(j + 1)
        } else {
            None
        }
    } else if s[j] == '.' {
        match read_end(s, j + 1, a) {
            Some(m) => if skip(s, m) < s.len() && s[skip(s, m)] == ')' {
                Some(skip(s, m) + 1)
            } else {
                None
            },
            None => None,
        }
    } else if a is Pair {
        match read_end(s, j, car_spec(a)) {
            Some(m) => rest_end(s, m, cdr_spec(a)),
            None => None,
        }
    } else {
        None
    }
}

/// Where reading `atoms`, one after another from the start of `s`, stops.
pub open spec fn atoms_end(s: Seq<char>, atoms: Seq<Atom>) -> Option<int>
    decreases atoms.len(),
{
    if atoms.len() == 0 {
        Some(0)
    } else {
        match atoms_end(s, atoms.drop_last()) {
            Some(m) => read_end(s, m, atoms.last()),
            None => None,
        }
    }
}

/// The first position at or after `pos` that is not whitespace.
pub fn skip_ws(s: &Vec<char>, pos: usize) -> (r: usize)
    requires
        pos <= s@.len(),
    ensures
        pos <= r <= s@.len(),
        r == skip(s@, pos as int),
{
    let mut i = pos;
    while i < s.len() && char_is_ws(s[i])
        invariant
            pos <= i <= s@.len(),
            skip(s@, i as int) == skip(s@, pos as int),
        decreases s@.len() - i,
    {
        i = i + 1;
    }
    i
}

/// The end of the run of digits that starts at `pos`.
pub fn digits_end(s: &Vec<char>, pos: usize) -> (r: usize)
    requires
        pos <= s@.len(),
    ensures
        pos <= r <= s@.len(),
        r == digits_to(s@, pos as int),
{
    let mut i = pos;
    while i < s.len() && char_is_digit(s[i])
        invariant
            pos <= i <= s@.len(),
            digits_to(s@, i as int) == digits_to(s@, pos as int),
        decreases s@.len() - i,
    {
        i = i + 1;
    }
    i
}

/// The end of the symbol that starts at `pos`.
pub fn symbol(s: &Vec<char>, pos: usize) -> (r: usize)
    requires
        pos < s@.len(),
        is_symbol_start(s@[pos as int]),
    ensures
        pos < r <= s@.len(),
        r == symbol_to(s@, pos + 1),
{
    let n = s.len();
    let mut i = pos + 1;
    while i < n && char_is_symbol_char(s[i])
        invariant
            n == s@.len(),
            pos < i <= s@.len(),
            symbol_to(s@, i as int) == symbol_to(s@, pos + 1),
        decreases s@.len() - i,
    {
        i = i + 1;
    }
    i
}

/// The end of the number that starts at `pos`.
pub fn number_end(s: &Vec<char>, pos: usize) -> (r: usize)
    requires
        number_starts(s@, pos as int),
    ensures
        pos < r <= s@.len(),
        r == number_to(s@, pos as int),
{
    let n = s.len();
    let mut i = pos;
    if s[i] == '-' {
        i = i + 1;
    }
    assert(digits_to(s@, i as int) == digits_to(s@, i + 1));
    proof {
        lemma_digits_to_bound(s@, i + 1);
    }
    i = digits_end(s, i);
    if i < n && i + 1 < n && s[i] == '.' && char_is_digit(s[i + 1]) {
        i = digits_end(s, i + 1);
    }
    if i < n && i + 1 < n && (s[i] == 'e' || s[i] == 'E') {
        let mut j = i + 1;
        if s[j] == '+' || s[j] == '-' {
            j = j + 1;
        }
        if j < s.len() && char_is_digit(s[j]) {
            i = digits_end(s, j);
        }
    }
    i
}

/// Reads the string literal whose opening quote is at `pos`; returns its
/// characters and the position after the closing quote. An invalid `\u`
/// escape is reported in `errs` and read as U+FFFD.
pub fn string_literal(s: &Vec<char>, pos: usize, errs: &mut Vec<ParseError>) -> (r: Result<(Vec<char>, usize), ParseError>)
    requires
        pos < s@.len(),
        s@[pos as int] == '"',
    ensures
        r is Err ==> r->Err_0.kind != ParseErrorKind::InvalidUnicode,
        r is Ok <==> string_from(s@, pos + 1) is Some,
        r is Ok ==> string_from(s@, pos + 1) == Some((r->Ok_0.0@, r->Ok_0.1 as int)),
        r is Ok ==> pos < r->Ok_0.1 <= s@.len(),
        r is Err ==> r->Err_0.start <= r->Err_0.end,
        final(errs)@.len() >= old(errs)@.len(),
        only_unicode(old(errs)@) ==> only_unicode(final(errs)@),
        r is Ok ==> final(errs)@.len() == old(errs)@.len() + bad_codes(s@, pos + 1),
{
    let n = s.len();
    let mut out: Vec<char> = Vec::new();
    let mut i = pos + 1;
    proof {
        lemma_string_from_bounds(s@, i as int);
        assert(out@ =~= Seq::<char>::empty());
        assert forall|t: Seq<char>| #![auto] out@ + t =~= t by {}
    }
    loop
        invariant
            n == s@.len(),
            pos < i <= s@.len(),
            errs@.len() >= old(errs)@.len(),
            only_unicode(old(errs)@) ==> only_unicode(errs@),
            errs@.len() + bad_codes(s@, i as int) == old(errs)@.len() + bad_codes(s@, pos + 1),
            string_from(s@, pos + 1) == match string_from(s@, i as int) {
                Some((t, e)) => Some((out@ + t, e)),
                None => None::<(Seq<char>, int)>,
            },
            forall|t: Seq<char>, e: int| string_from(s@, i as int) == Some((t, e)) ==> i < e <= s@.len(),
        decreases s@.len() - i,
    {
        proof {
            lemma_string_from_bounds(s@, i as int);
        }
        if i >= s.len() {
            return Err(ParseError { start: pos, end: i, kind: ParseErrorKind::UnexpectedEnd });
        }
        let c = s[i];
        if c == '"' {
            assert(out@ + Seq::<char>::empty() =~= out@);
            return Ok((out, i + 1));
        }
        let ghost before = out@;
        if c != '\\' {
            out.push(c);
            i = i + 1;
            proof {
                assert forall|t: Seq<char>| #![auto] out@ + t =~= before + (seq![c] + t) by {}
            }
        } else {
            if i + 1 >= n {
                return Err(ParseError { start: i, end: n, kind: ParseErrorKind::UnexpectedEnd });
            }
            let e = s[i + 1];
            let decoded: Option<char> = if e == '\\' || e == '/' || e == '"' {
                Some(e)
            } else if e == 'b' {
                Some('\x08')
            } else if e == 'f' {
                Some('\x0C')
            } else if e == 'n' {
                Some('\n')
            } else if e == 'r' {
                Some('\r')
            } else if e == 't' {
                Some('\t')
            } else {
                None
            };
            match decoded {
                Some(d) => {
                    out.push(d);
                    i = i + 2;
                    proof {
                        assert forall|t: Seq<char>| #![auto] out@ + t =~= before + (seq![d] + t) by {}
                    }
                },
                None => {
                    if e != 'u' {
                        return Err(ParseError { start: i, end: i + 2, kind: ParseErrorKind::InvalidEscape(e) });
                    }
                    if n - i < 6 {
                        return Err(ParseError { start: i, end: n, kind: ParseErrorKind::UnexpectedEnd });
                    }
                    let code = match hex4_at(s, i + 2) {
                        Some(code) => code,
                        None => {
                            assert(string_from(s@, i as int) is None);
                            return Err(ParseError { start: i, end: i + 6, kind: ParseErrorKind::InvalidEscape('u') });
                        },
                    };
                    let decoded_code = char_from_code(code);
                    let ch = match decoded_code {
                        Some(ch) => ch,
                        None => {
                            errs.push(ParseError { start: i, end: i + 6, kind: ParseErrorKind::InvalidUnicode });
                            '\u{FFFD}'
                        },
                    };
                    proof {
                        if decoded_code is Some {
                            assert(code_of(ch) == code as int);
                        }
                    }
                    assert(ch == char_of_code(code as int));
                    out.push(ch);
                    i = i + 6;
                    proof {
                        assert forall|t: Seq<char>| #![auto] out@ + t =~= before + (seq![ch] + t) by {}
                    }
                },
            }
        }
        proof {
            lemma_string_from_bounds(s@, i as int);
        }
    }
}

proof fn lemma_string_from_bounds(s: Seq<char>, i: int)
    ensures
        forall|t: Seq<char>, e: int| string_from(s, i) == Some((t, e)) ==> i < e <= s.len(),
    decreases s.len() - i,
{
    if 0 <= i < s.len() && s[i] != '"' {
        lemma_string_from_bounds(s, i + 1);
        if i + 2 <= s.len() {
            lemma_string_from_bounds(s, i + 2);
        }
        if i + 6 <= s.len() {
            lemma_string_from_bounds(s, i + 6);
        }
    }
}

proof fn lemma_digits_to_bound(s: Seq<char>, p: int)
    requires
        0 <= p <= s.len(),
    ensures
        p <= digits_to(s, p) <= s.len(),
    decreases s.len() - p,
{
    if p < s.len() && is_digit(s[p]) {
        lemma_digits_to_bound(s, p + 1);
    }
}

/// `(name x)`: how a quote mark is read.
fn wrap(name: &str, a: Atom) -> (r: Atom)
    ensures
        r is Pair,
        is_sym(car_spec(r), name@),
        cdr_spec(r) is Pair,
        is_nil_spec(cdr_spec(cdr_spec(r))),
        car_spec(cdr_spec(r)) == a,
{
    let inner = Atom::Pair(Rc::new(a), Rc::new(Atom::nil()));
    Atom::Pair(Rc::new(Atom::symbol(name)), Rc::new(inner))
}

/// No expression reads from `p`.
pub open spec fn unreadable(s: Seq<char>, p: int) -> bool {
    forall|a: Atom| #[trigger] read_end(s, p, a) is None
}

/// No rest of a list reads from `p`.
pub open spec fn rest_unreadable(s: Seq<char>, p: int) -> bool {
    forall|a: Atom| #[trigger] rest_end(s, p, a) is None
}

/// Every diagnostic is about a `\u` escape that names no character.
pub open spec fn only_unicode(v: Seq<ParseError>) -> bool {
    forall|i: int| 0 <= i < v.len() ==> #[trigger] v[i].kind == ParseErrorKind::InvalidUnicode
}

/// Reads one expression, after any whitespace, starting at `pos`; returns
/// it and the position after it. It fails only where no expression reads
/// from `pos`.
pub fn expression<H: Host>(s: &Vec<char>, pos: usize, host: &H, errs: &mut Vec<ParseError>) -> (r: Result<(Atom, usize), ParseError>)
    requires
        pos <= s@.len(),
    ensures
        clean(s@) && r is Ok ==> final(errs)@.len() == old(errs)@.len(),
        r is Err ==> r->Err_0.kind != ParseErrorKind::InvalidUnicode,
        r is Ok ==> pos < r->Ok_0.1 <= s@.len() && read_end(s@, pos as int, r->Ok_0.0) == Some(r->Ok_0.1 as int),
        r is Err ==> r->Err_0.start <= r->Err_0.end && unreadable(s@, pos as int),
        final(errs)@.len() >= old(errs)@.len(),
        only_unicode(old(errs)@) ==> only_unicode(final(errs)@),
    decreases s@.len() - pos, 0nat,
{
    let start = skip_ws(s, pos);
    if start >= s.len() {
        return Err(ParseError { start, end: start, kind: ParseErrorKind::UnexpectedEnd });
    }
    let c = s[start];
    if char_is_digit(c) || (c == '-' && start + 1 < s.len() && char_is_digit(s[start + 1])) {
        let end = number_end(s, start);
        let mut text: Vec<char> = Vec::new();
        let mut k = start;
        while k < end
            invariant
                start <= k <= end,
                end <= s@.len(),
            decreases end - k,
        {
            text.push(s[k]);
            k = k + 1;
        }
        let text = string_of_chars(&text);
        let r = Atom::Number(host.read_number(text.as_str()));
        assert(read_end(s@, pos as int, r) == Some(end as int));
        Ok((r, end))
    } else if char_is_symbol_start(c) {
        let end = symbol(s, start);
        let mut name: Vec<char> = Vec::new();
        let mut k = start;
        while k < end
            invariant
                start <= k <= end,
                end <= s@.len(),
                name@ == s@.subrange(start as int, k as int),
            decreases end - k,
        {
            name.push(s[k]);
            k = k + 1;
            assert(name@ =~= s@.subrange(start as int, k as int));
        }
        let r = Atom::Symbol(string_of_chars(&name));
        assert(read_end(s@, pos as int, r) == Some(end as int));
        Ok((r, end))
    } else if c == '"' {
        match string_literal(s, start, errs) {
            Ok((text, end)) => {
                proof {
                    if clean(s@) {
                        lemma_clean_no_bad_codes(s@, start + 1);
                    }
                }
                let r = Atom::String(string_of_chars(&text));
                assert(read_end(s@, pos as int, r) == Some(end as int));
                Ok((r, end))
            },
            Err(e) => Err(e),
        }
    } else if c == '\'' || c == '`' || c == ',' {
        let (name, next) = if c == '\'' {
            ("quote", start + 1)
        } else if c == '`' {
            ("quasiquote", start + 1)
        } else if start + 1 < s.len() && s[start + 1] == '@' {
            ("unquote-splicing", start + 2)
        } else {
            ("unquote", start + 1)
        };
        match expression(s, next, host, errs) {
            Ok((inner, end)) => {
                let r = wrap(name, inner);
                assert(one_end(s@, next as int, cdr_spec(r)) == Some(end as int));
                assert(quoted_end(s@, next as int, r, name@) == Some(end as int));
                assert(read_end(s@, pos as int, r) == Some(end as int));
                Ok((r, end))
            },
            Err(e) => {
                assert forall|a: Atom| #[trigger] read_end(s@, pos as int, a) is None by {
                    assert(read_end(s@, next as int, car_spec(cdr_spec(a))) is None);
                    assert(one_end(s@, next as int, cdr_spec(a)) is None);
                    assert(quoted_end(s@, next as int, a, name@) is None);
                }
                Err(e)
            },
        }
    } else if c == '(' {
        let i = skip_ws(s, start + 1);
        if i >= s.len() {
            assert forall|a: Atom| #[trigger] read_end(s@, pos as int, a) is None by {
                assert(read_end(s@, i as int, car_spec(a)) is None);
            }
            return Err(ParseError { start, end: i, kind: ParseErrorKind::UnexpectedEnd });
        }
        if s[i] == ')' {
            let r = Atom::nil();
            return Ok((r, i + 1));
        }
        match expression(s, i, host, errs) {
            Ok((first, after)) => {
                match list_rest(s, after, start, host, errs) {
                    Ok((rest, end)) => {
                        let r = Atom::Pair(Rc::new(first), Rc::new(rest));
                        Ok((r, end))
                    },
                    Err(e) => {
                        assert forall|a: Atom| #[trigger] read_end(s@, pos as int, a) is None by {
                            if read_end(s@, i as int, car_spec(a)) is Some {
                                crate::roundtrip::lemma_read_unique(s@, i as int, car_spec(a), first);
                                assert(rest_end(s@, after as int, cdr_spec(a)) is None);
                            }
                        }
                        Err(e)
                    },
                }
            },
            Err(e) => {
                assert forall|a: Atom| #[trigger] read_end(s@, pos as int, a) is None by {
                    assert(read_end(s@, i as int, car_spec(a)) is None);
                }
                Err(e)
            },
        }
    } else {
        Err(ParseError { start, end: start + 1, kind: ParseErrorKind::UnexpectedChar(c) })
    }
}

/// Reads the rest of a list that opened at `open`, after at least one item:
/// more items, then `)`, or `.`, a last expression and `)`. It fails only
/// where no rest of a list reads from `pos`.
fn list_rest<H: Host>(s: &Vec<char>, pos: usize, open: usize, host: &H, errs: &mut Vec<ParseError>) -> (r: Result<(Atom, usize), ParseError>)
    requires
        open < pos <= s@.len(),
    ensures
        clean(s@) && r is Ok ==> final(errs)@.len() == old(errs)@.len(),
        r is Err ==> r->Err_0.kind != ParseErrorKind::InvalidUnicode,
        r is Ok ==> pos < r->Ok_0.1 <= s@.len() && rest_end(s@, pos as int, r->Ok_0.0) == Some(r->Ok_0.1 as int),
        r is Err ==> r->Err_0.start <= r->Err_0.end && rest_unreadable(s@, pos as int),
        final(errs)@.len() >= old(errs)@.len(),
        only_unicode(old(errs)@) ==> only_unicode(final(errs)@),
    decreases s@.len() - pos, 1nat,
{
    let i = skip_ws(s, pos);
    if i >= s.len() {
        return Err(ParseError { start: open, end: i, kind: ParseErrorKind::UnexpectedEnd });
    }
    if s[i] == ')' {
        return Ok((Atom::nil(), i + 1));
    }
    if s[i] == '.' {
        match expression(s, i + 1, host, errs) {
            Ok((last, after)) => {
                let close = skip_ws(s, after);
                if close >= s.len() || s[close] != ')' {
                    assert forall|a: Atom| #[trigger] rest_end(s@, pos as int, a) is None by {
                        if read_end(s@, i + 1, a) is Some {
                            crate::roundtrip::lemma_read_unique(s@, i + 1, a, last);
                        }
                    }
                    if close >= s.len() {
                        return Err(ParseError { start: open, end: close, kind: ParseErrorKind::UnexpectedEnd });
                    }
                    return Err(ParseError { start: close, end: close + 1, kind: ParseErrorKind::UnexpectedChar(s[close]) });
                }
                return Ok((last, close + 1));
            },
            Err(e) => {
                assert forall|a: Atom| #[trigger] rest_end(s@, pos as int, a) is None by {
                    assert(read_end(s@, i + 1, a) is None);
                }
                return Err(e);
            },
        }
    }
    match expression(s, i, host, errs) {
        Ok((item, after)) => {
            match list_rest(s, after, open, host, errs) {
                Ok((rest, end)) => {
                    let r = Atom::Pair(Rc::new(item), Rc::new(rest));
                    Ok((r, end))
                },
                Err(e) => {
                    assert forall|a: Atom| #[trigger] rest_end(s@, pos as int, a) is None by {
                        if read_end(s@, i as int, car_spec(a)) is Some {
                            crate::roundtrip::lemma_read_unique(s@, i as int, car_spec(a), item);
                            assert(rest_end(s@, after as int, cdr_spec(a)) is None);
                        }
                    }
                    Err(e)
                },
            }
        },
        Err(e) => {
            assert forall|a: Atom| #[trigger] rest_end(s@, pos as int, a) is None by {
                assert(read_end(s@, i as int, car_spec(a)) is None);
            }
            Err(e)
        },
    }
}

/// Reads every top-level expression of `src`. Reading stops at the first
/// malformed expression; the diagnostics come with the expressions read
/// before it.
pub fn parse_recovering<H: Host>(src: &str, host: &H) -> (r: (Vec<Atom>, Vec<ParseError>))
    ensures
        atoms_end(src@, r.0@) is Some,
        0 <= atoms_end(src@, r.0@)->Some_0 <= src@.len(),
        stopped_at(src@, atoms_end(src@, r.0@)->Some_0),
        skip(src@, atoms_end(src@, r.0@)->Some_0) == src@.len() <==> only_unicode(r.1@),
        clean(src@) ==> (r.1@.len() == 0 <==> skip(src@, atoms_end(src@, r.0@)->Some_0) == src@.len()),
{
    let s = chars_of(src);
    let mut atoms: Vec<Atom> = Vec::new();
    let mut errs: Vec<ParseError> = Vec::new();
    let ghost mut last: int = 0;
    let mut pos = skip_ws(&s, 0);
    while pos < s.len()
        invariant
            pos <= s@.len(),
            s@ == src@,
            atoms_end(s@, atoms@) == Some(last),
            0 <= last <= pos,
            pos == skip(s@, last),
            only_unicode(errs@),
            clean(s@) ==> errs@.len() == 0,
        decreases s@.len() - pos,
    {
        match expression(&s, pos, host, &mut errs) {
            Ok((a, next)) => {
                let ghost prev = atoms@;
                proof {
                    lemma_read_from_skip(s@, last, pos as int, a);
                }
                atoms.push(a);
                proof {
                    assert(atoms@.drop_last() =~= prev);
                    assert(atoms@.last() == a);
                    last = next as int;
                }
                pos = skip_ws(&s, next);
            },
            Err(e) => {
                proof {
                    assert forall|a: Atom| #[trigger] read_end(s@, last, a) is None by {
                        lemma_read_from_skip(s@, last, pos as int, a);
                    }
                    lemma_skip_idempotent(s@, last);
                }
                errs.push(e);
                assert(errs@[errs@.len() - 1].kind != ParseErrorKind::InvalidUnicode);
                return (atoms, errs);
            },
        }
    }
    (atoms, errs)
}

/// Reading stopped at `e`: the text is used up, or nothing reads from there.
pub open spec fn stopped_at(s: Seq<char>, e: int) -> bool {
    skip(s, e) < s.len() ==> unreadable(s, e)
}

/// Reading from a position or from the first non-blank after it is the same.
pub proof fn lemma_read_from_skip(s: Seq<char>, p: int, q: int, a: Atom)
    requires
        0 <= p <= q,
        q == skip(s, p),
    ensures
        read_end(s, p, a) == read_end(s, q, a),
{
    lemma_skip_idempotent(s, p);
}

proof fn lemma_skip_bound(s: Seq<char>, p: int)
    requires
        0 <= p <= s.len(),
    ensures
        skip(s, p) <= s.len(),
    decreases s.len() - p,
{
    if p < s.len() && is_ws(s[p]) {
        lemma_skip_bound(s, p + 1);
    }
}

proof fn lemma_skip_idempotent(s: Seq<char>, p: int)
    requires
        0 <= p,
    ensures
        skip(s, skip(s, p)) == skip(s, p),
        p <= skip(s, p),
    decreases s.len() - p,
{
    if 0 <= p < s.len() && is_ws(s[p]) {
        lemma_skip_idempotent(s, p + 1);
    }
}

/// Reads every top-level expression of `src`, or gives the diagnostics.
pub fn parser<H: Host>(src: &str, host: &H) -> (r: Result<Vec<Atom>, Vec<ParseError>>)
    ensures
        r is Ok ==> atoms_end(src@, r->Ok_0@) is Some && skip(src@, atoms_end(src@, r->Ok_0@)->Some_0)
            == src@.len(),
        clean(src@) && (exists|atoms: Seq<Atom>| #[trigger] atoms_end(src@, atoms) is Some && skip(
            src@,
            atoms_end(src@, atoms)->Some_0,
        ) == src@.len()) ==> r is Ok,
        r is Err && only_unicode(r->Err_0@) ==> !clean(src@),
        r is Err ==> r->Err_0@.len() > 0 && (only_unicode(r->Err_0@) || exists|atoms: Seq<Atom>| #[trigger] atoms_end(src@, atoms) is Some && stopped_at(src@, atoms_end(src@, atoms)->Some_0)
            && skip(src@, atoms_end(src@, atoms)->Some_0) != src@.len()),
{
    let (atoms, errs) = parse_recovering(src, host);
    proof {
        if clean(src@) && (exists|x: Seq<Atom>| #[trigger] atoms_end(src@, x) is Some && skip(
            src@,
            atoms_end(src@, x)->Some_0,
        ) == src@.len()) {
            let x = choose|x: Seq<Atom>| #[trigger] atoms_end(src@, x) is Some && skip(
                src@,
                atoms_end(src@, x)->Some_0,
            ) == src@.len();
            crate::roundtrip::lemma_atoms_end_front(src@, x);
            crate::roundtrip::lemma_atoms_end_front(src@, atoms@);
            if skip(src@, atoms_end(src@, atoms@)->Some_0) != src@.len() {
                lemma_skip_bound(src@, atoms_end(src@, atoms@)->Some_0);
                crate::roundtrip::lemma_full_read_not_stuck(src@, 0, x, atoms@);
            }
        }
    }
    if errs.len() == 0 {
        Ok(atoms)
    } else {
        assert(atoms_end(src@, atoms@) is Some);
        Err(errs)
    }
}

} // verus!
