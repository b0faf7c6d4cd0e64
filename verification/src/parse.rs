//! The reader: parenthesized symbolic expressions out of raw text.
//!
//! The grammar, over characters:
//!
//! ```text
//! sexp    := ws* (atom | list) ws*
//! atom    := number | symbol
//! number  := sign? digit+            (must fit the machine integers)
//! symbol  := alpha alnum*
//! list    := "(" sexp* ws* ")"
//! program := sexp* ws*               (the whole text, nothing left over)
//! ```
//!
//! The specification functions below read this grammar off directly; the
//! executable functions are proved to return exactly what they say.
//! Adjacent tokens must be separated: a number directly followed by a
//! letter is a parse failure, not two tokens.

use vstd::prelude::*;

use crate::ast::Atom;
use crate::ast::AtomView;
use crate::ast::Sexp;
use crate::ast::SexpView;
use crate::ast::sexp_views;
use crate::ast::view_sexp;
use vstd::string::StrSliceExecFns;

verus! {

/// Whitespace, insignificant between tokens.
pub open spec fn is_space_c(c: char) -> bool {
    c == ' ' || c == '\t' || c == '\n' || c == '\r'
}

/// A decimal digit.
pub open spec fn is_digit_c(c: char) -> bool {
    0x30 <= c as u32 <= 0x39
}

/// An ASCII letter; symbols must start with one.
pub open spec fn is_alpha_c(c: char) -> bool {
    (0x41 <= c as u32 <= 0x5A) || (0x61 <= c as u32 <= 0x7A)
}

/// A letter or digit; symbols continue with these.
pub open spec fn is_alnum_c(c: char) -> bool {
    is_digit_c(c) || is_alpha_c(c)
}

/// The value of one digit character.
pub open spec fn digit_val(c: char) -> int {
    c as u32 - 0x30
}

/// How many whitespace characters stand at position `i`.
pub open spec fn ws_count(s: Seq<char>, i: int) -> nat
    decreases s.len() - i,
{
    if 0 <= i < s.len() && is_space_c(s[i]) {
        1 + ws_count(s, i + 1)
    } else {
        0
    }
}

/// How many digit characters stand at position `i`.
pub open spec fn digit_count(s: Seq<char>, i: int) -> nat
    decreases s.len() - i,
{
    if 0 <= i < s.len() && is_digit_c(s[i]) {
        1 + digit_count(s, i + 1)
    } else {
        0
    }
}

/// How many letter-or-digit characters stand at position `i`.
pub open spec fn alnum_count(s: Seq<char>, i: int) -> nat
    decreases s.len() - i,
{
    if 0 <= i < s.len() && is_alnum_c(s[i]) {
        1 + alnum_count(s, i + 1)
    } else {
        0
    }
}

/// The value of the `n` digits that start at position `i`, most
/// significant first.
pub open spec fn digits_value(s: Seq<char>, i: int, n: nat) -> int
    decreases n,
{
    if n == 0 {
        0
    } else {
        digits_value(s, i, (n - 1) as nat) * 10 + digit_val(s[i + n - 1])
    }
}

/// Read a run of digits at `d0` as a number with the given sign.  Fails on
/// no digits at all, on a letter directly after the digits, and on a value
/// that does not fit the machine integers.
pub open spec fn parse_digits_s(s: Seq<char>, d0: int, sgn: int) -> Option<(int, int)> {
    let cnt = digit_count(s, d0);
    if cnt == 0 {
        None
    } else {
        let v = sgn * digits_value(s, d0, cnt);
        let k = d0 + cnt;
        if k < s.len() && is_alpha_c(s[k]) {
            None
        } else if v < i64::MIN || v > i64::MAX {
            None
        } else {
            Some((v, k))
        }
    }
}

/// Read a number at `i`: an optional sign, then digits.
pub open spec fn parse_number_s(s: Seq<char>, i: int) -> Option<(int, int)> {
    if i < s.len() && (s[i] == '-' || s[i] == '+') {
        parse_digits_s(
            s,
            i + 1,
            if s[i] == '-' {
                -1
            } else {
                1
            },
        )
    } else {
        parse_digits_s(s, i, 1)
    }
}

/// Read a symbol at `i`: a letter, then letters and digits.
pub open spec fn parse_symbol_s(s: Seq<char>, i: int) -> Option<(Seq<char>, int)> {
    if i < s.len() && is_alpha_c(s[i]) {
        let cnt = alnum_count(s, i);
        Some((s.subrange(i, i + cnt), i + cnt))
    } else {
        None
    }
}

/// Read an atom at `i`.  A digit or sign opens a number, a letter opens a
/// symbol; the two cannot be confused.
pub open spec fn parse_atom_s(s: Seq<char>, i: int) -> Option<(AtomView, int)> {
    if i < s.len() && (is_digit_c(s[i]) || s[i] == '-' || s[i] == '+') {
        match parse_number_s(s, i) {
            Some((v, k)) => Some((AtomView::Number(v), k)),
            None => None,
        }
    } else {
        match parse_symbol_s(s, i) {
            Some((nm, k)) => Some((AtomView::Symbol(nm), k)),
            None => None,
        }
    }
}

/// Read one expression at `i`: leading whitespace, an atom or a list, and
/// trailing whitespace.
pub open spec fn parse_sexp_s(s: Seq<char>, i: int) -> Option<(SexpView, int)>
    decreases s.len() - i, 0nat,
{
    let j = i + ws_count(s, i);
    if j >= s.len() {
        None
    } else if s[j] == '(' {
        match parse_items_s(s, j + 1) {
            Some((items, k)) => Some((SexpView::List(items), k + ws_count(s, k))),
            None => None,
        }
    } else {
        match parse_atom_s(s, j) {
            Some((a, k)) => Some((SexpView::Atom(a), k + ws_count(s, k))),
            None => None,
        }
    }
}

/// Read the elements of a list at `i`, up to and including the closing
/// parenthesis.
pub open spec fn parse_items_s(s: Seq<char>, i: int) -> Option<(Seq<SexpView>, int)>
    decreases s.len() - i, 1nat,
{
    let j = i + ws_count(s, i);
    if j >= s.len() {
        None
    } else if s[j] == ')' {
        Some((Seq::empty(), j + 1))
    } else {
        match parse_sexp_s(s, i) {
            Some((x, k)) => if i < k <= s.len() {
                match parse_items_s(s, k) {
                    Some((rest, m)) => Some((seq![x] + rest, m)),
                    None => None,
                }
            } else {
                None
            },
            None => None,
        }
    }
}

/// Read top-level expressions at `i` until only whitespace is left.
pub open spec fn parse_forms_s(s: Seq<char>, i: int) -> Option<Seq<SexpView>>
    decreases s.len() - i,
{
    let j = i + ws_count(s, i);
    if j >= s.len() {
        Some(Seq::empty())
    } else {
        match parse_sexp_s(s, i) {
            Some((x, k)) => if i < k <= s.len() {
                match parse_forms_s(s, k) {
                    Some(rest) => Some(seq![x] + rest),
                    None => None,
                }
            } else {
                None
            },
            None => None,
        }
    }
}

/// Read a whole program: expressions, and nothing else, to the end of the
/// text.
pub open spec fn parse_program_s(s: Seq<char>) -> Option<Seq<SexpView>> {
    parse_forms_s(s, 0)
}

/// Whitespace runs end within the text.
proof fn lemma_ws_count_le(s: Seq<char>, i: int)
    requires
        0 <= i <= s.len(),
    ensures
        i + ws_count(s, i) <= s.len(),
    decreases s.len() - i,
{
    if i < s.len() && is_space_c(s[i]) {
        lemma_ws_count_le(s, i + 1);
    }
}

/// Digit runs end within the text.
proof fn lemma_digit_count_le(s: Seq<char>, i: int)
    requires
        0 <= i <= s.len(),
    ensures
        i + digit_count(s, i) <= s.len(),
    decreases s.len() - i,
{
    if i < s.len() && is_digit_c(s[i]) {
        lemma_digit_count_le(s, i + 1);
    }
}

/// Letter-or-digit runs end within the text.
proof fn lemma_alnum_count_le(s: Seq<char>, i: int)
    requires
        0 <= i <= s.len(),
    ensures
        i + alnum_count(s, i) <= s.len(),
    decreases s.len() - i,
{
    if i < s.len() && is_alnum_c(s[i]) {
        lemma_alnum_count_le(s, i + 1);
    }
}

/// A successfully read atom ends past its start and within the text.
proof fn lemma_atom_progress(s: Seq<char>, i: int)
    requires
        0 <= i <= s.len(),
    ensures
        parse_atom_s(s, i) matches Some((a, k)) ==> i < k <= s.len(),
{
    if i < s.len() && (is_digit_c(s[i]) || s[i] == '-' || s[i] == '+') {
        if s[i] == '-' || s[i] == '+' {
            lemma_digit_count_le(s, i + 1);
        } else {
            lemma_digit_count_le(s, i);
            assert(digit_count(s, i) >= 1);
        }
    } else {
        if i < s.len() && is_alpha_c(s[i]) {
            lemma_alnum_count_le(s, i);
            assert(alnum_count(s, i) >= 1);
        }
    }
}

/// A successfully read expression ends past its start and within the text.
proof fn lemma_sexp_progress(s: Seq<char>, i: int)
    requires
        0 <= i <= s.len(),
    ensures
        parse_sexp_s(s, i) matches Some((x, k)) ==> i < k <= s.len(),
    decreases s.len() - i, 0nat,
{
    lemma_ws_count_le(s, i);
    let j = i + ws_count(s, i);
    if j < s.len() {
        if s[j] == '(' {
            lemma_items_progress(s, j + 1);
            match parse_items_s(s, j + 1) {
                Some(p) => {
                    lemma_ws_count_le(s, p.1);
                },
                None => {},
            }
        } else {
            lemma_atom_progress(s, j);
            match parse_atom_s(s, j) {
                Some(p) => {
                    lemma_ws_count_le(s, p.1);
                },
                None => {},
            }
        }
    }
}

/// A successfully read run of list elements ends past its start and within
/// the text.
proof fn lemma_items_progress(s: Seq<char>, i: int)
    requires
        0 <= i <= s.len(),
    ensures
        parse_items_s(s, i) matches Some((items, m)) ==> i < m <= s.len(),
    decreases s.len() - i, 1nat,
{
    lemma_ws_count_le(s, i);
    let j = i + ws_count(s, i);
    if j < s.len() && s[j] != ')' {
        lemma_sexp_progress(s, i);
        match parse_sexp_s(s, i) {
            Some(p) => {
                if i < p.1 <= s.len() {
                    lemma_items_progress(s, p.1);
                }
            },
            None => {},
        }
    }
}

/// Whether this character is whitespace.
fn is_space_ch(c: char) -> (r: bool)
    ensures
        r == is_space_c(c),
{
    c == ' ' || c == '\t' || c == '\n' || c == '\r'
}

/// Whether this character is a decimal digit.
fn is_digit_ch(c: char) -> (r: bool)
    ensures
        r == is_digit_c(c),
{
    let u = c as u32;
    0x30 <= u && u <= 0x39
}

/// Whether this character is an ASCII letter.
fn is_alpha_ch(c: char) -> (r: bool)
    ensures
        r == is_alpha_c(c),
{
    let u = c as u32;
    (0x41 <= u && u <= 0x5A) || (0x61 <= u && u <= 0x7A)
}

/// The first position at or after `i` that does not hold whitespace.
fn skip_ws(s: &str, i: usize) -> (j: usize)
    requires
        i <= s@.len(),
    ensures
        i <= j <= s@.len(),
        j as int == i + ws_count(s@, i as int),
{
    let n = s.unicode_len();
    let mut j = i;
    loop
        invariant
            n as int == s@.len(),
            i <= j <= s@.len(),
            ws_count(s@, i as int) == (j - i) + ws_count(s@, j as int),
        ensures
            i <= j <= s@.len(),
            ws_count(s@, i as int) == (j - i) + ws_count(s@, j as int),
            j == s@.len() || !is_space_c(s@[j as int]),
        decreases s@.len() - j,
    {
        if j == n {
            break ;
        }
        let c = s.get_char(j);
        if !is_space_ch(c) {
            break ;
        }
        j = j + 1;
    }
    j
}

/// Read a number at `i` as `parse_number_s` says.
fn parse_number(s: &str, i: usize) -> (r: Option<(i64, usize)>)
    requires
        i <= s@.len(),
    ensures
        match parse_number_s(s@, i as int) {
            Some((v, k)) => r matches Some((t, j)) && t as int == v && j as int == k,
            None => r is None,
        },
{
    let n = s.unicode_len();
    let mut neg = false;
    let mut d0 = i;
    if i < n {
        let c = s.get_char(i);
        if c == '-' {
            neg = true;
            d0 = i + 1;
        } else if c == '+' {
            d0 = i + 1;
        }
    }
    let ghost sgn: int = if neg {
        -1
    } else {
        1
    };
    proof {
        assert(parse_number_s(s@, i as int) == parse_digits_s(s@, d0 as int, sgn));
    }
    let mut mag: u64 = 0;
    let mut big = false;
    let mut j = d0;
    loop
        invariant
            n as int == s@.len(),
            d0 <= j <= s@.len(),
            digit_count(s@, d0 as int) == (j - d0) + digit_count(s@, j as int),
            big ==> digits_value(s@, d0 as int, (j - d0) as nat) > u64::MAX,
            !big ==> mag == digits_value(s@, d0 as int, (j - d0) as nat),
        ensures
            d0 <= j <= s@.len(),
            digit_count(s@, d0 as int) == (j - d0) as nat,
            big ==> digits_value(s@, d0 as int, (j - d0) as nat) > u64::MAX,
            !big ==> mag == digits_value(s@, d0 as int, (j - d0) as nat),
            j == s@.len() || !is_digit_c(s@[j as int]),
        decreases s@.len() - j,
    {
        if j == n {
            break ;
        }
        let c = s.get_char(j);
        if !is_digit_ch(c) {
            break ;
        }
        let d = (c as u32) - 0x30;
        proof {
            assert(digits_value(s@, d0 as int, ((j - d0) + 1) as nat) == digits_value(
                s@,
                d0 as int,
                (j - d0) as nat,
            ) * 10 + digit_val(s@[j as int]));
        }
        if big {
            proof {
                let old_v = digits_value(s@, d0 as int, (j - d0) as nat);
                assert(old_v * 10 >= old_v + old_v);
            }
        } else {
            let wide: u128 = (mag as u128) * 10 + (d as u128);
            if wide > u64::MAX as u128 {
                big = true;
            } else {
                mag = wide as u64;
            }
        }
        j = j + 1;
    }
    let cnt = j - d0;
    if cnt == 0 {
        return None;
    }
    if j < n {
        let c = s.get_char(j);
        if is_alpha_ch(c) {
            return None;
        }
    }
    if big {
        return None;
    }
    if neg {
        if mag > 0x8000_0000_0000_0000u64 {
            None
        } else {
            Some(((-(mag as i128)) as i64, j))
        }
    } else {
        if mag > 0x7FFF_FFFF_FFFF_FFFFu64 {
            None
        } else {
            Some((mag as i64, j))
        }
    }
}

/// Read an atom at `i` as `parse_atom_s` says.
fn parse_atom(s: &str, i: usize) -> (r: Option<(Atom, usize)>)
    requires
        i <= s@.len(),
    ensures
        match parse_atom_s(s@, i as int) {
            Some((a, k)) => r matches Some((x, j)) && x@ == a && j as int == k,
            None => r is None,
        },
{
    let n = s.unicode_len();
    if i >= n {
        return None;
    }
    let c = s.get_char(i);
    if is_digit_ch(c) || c == '-' || c == '+' {
        match parse_number(s, i) {
            Some((v, j)) => Some((Atom::Number(v), j)),
            None => None,
        }
    } else if is_alpha_ch(c) {
        let mut j = i;
        loop
            invariant
                n as int == s@.len(),
                i <= j <= s@.len(),
                alnum_count(s@, i as int) == (j - i) + alnum_count(s@, j as int),
            ensures
                i <= j <= s@.len(),
                alnum_count(s@, i as int) == (j - i) as nat,
            decreases s@.len() - j,
        {
            if j == n {
                break ;
            }
            let ch = s.get_char(j);
            if !(is_digit_ch(ch) || is_alpha_ch(ch)) {
                break ;
            }
            j = j + 1;
        }
        let name = s.substring_char(i, j).to_owned();
        Some((Atom::Symbol(name), j))
    } else {
        None
    }
}

/// Read one expression at `i` as `parse_sexp_s` says.
fn parse_sexp_at(s: &str, i: usize) -> (r: Option<(Sexp, usize)>)
    requires
        i <= s@.len(),
    ensures
        match parse_sexp_s(s@, i as int) {
            Some((x, k)) => r matches Some((e, j)) && view_sexp(e) == x && j as int == k && i < j
                <= s@.len(),
            None => r is None,
        },
    decreases s@.len() - i, 0int,
{
    proof {
        lemma_sexp_progress(s@, i as int);
    }
    let n = s.unicode_len();
    let j = skip_ws(s, i);
    if j >= n {
        return None;
    }
    let c = s.get_char(j);
    if c == '(' {
        match parse_items_at(s, j + 1) {
            Some((v, k)) => {
                let j2 = skip_ws(s, k);
                Some((Sexp::List(v), j2))
            },
            None => None,
        }
    } else {
        match parse_atom(s, j) {
            Some((a, k)) => {
                proof {
                    lemma_atom_progress(s@, j as int);
                }
                let j2 = skip_ws(s, k);
                Some((Sexp::Atom(a), j2))
            },
            None => None,
        }
    }
}

/// Read the elements of a list at `i` as `parse_items_s` says.
fn parse_items_at(s: &str, i: usize) -> (r: Option<(Vec<Sexp>, usize)>)
    requires
        i <= s@.len(),
    ensures
        match parse_items_s(s@, i as int) {
            Some((items, m)) => r matches Some((v, j)) && sexp_views(v@) == items && j as int == m
                && i < j <= s@.len(),
            None => r is None,
        },
    decreases s@.len() - i, 1int,
{
    let n = s.unicode_len();
    let mut out: Vec<Sexp> = Vec::new();
    let mut pos = i;
    proof {
        lemma_items_progress(s@, i as int);
        match parse_items_s(s@, i as int) {
            Some(p) => {
                assert(sexp_views(out@) + p.0 =~= p.0);
            },
            None => {},
        }
    }
    loop
        invariant
            n as int == s@.len(),
            i <= pos <= s@.len(),
            ({
                let full = parse_items_s(s@, i as int);
                let rem = parse_items_s(s@, pos as int);
                match rem {
                    Some((rest, m)) => full == Some::<(Seq<SexpView>, int)>(
                        (sexp_views(out@) + rest, m),
                    ) && pos < m,
                    None => full is None,
                }
            }),
        ensures
            parse_items_s(s@, i as int) is Some,
            pos as int + ws_count(s@, pos as int) < s@.len(),
            s@[pos as int + ws_count(s@, pos as int)] == ')',
            i <= pos <= s@.len(),
            ({
                let full = parse_items_s(s@, i as int);
                let rem = parse_items_s(s@, pos as int);
                match rem {
                    Some((rest, m)) => full == Some::<(Seq<SexpView>, int)>(
                        (sexp_views(out@) + rest, m),
                    ) && pos < m,
                    None => full is None,
                }
            }),
        decreases s@.len() - pos,
    {
        proof {
            lemma_items_progress(s@, pos as int);
            lemma_ws_count_le(s@, pos as int);
        }
        let j = skip_ws(s, pos);
        if j >= n {
            return None;
        }
        let c = s.get_char(j);
        if c == ')' {
            break ;
        }
        match parse_sexp_at(s, pos) {
            Some((x, k)) => {
                let ghost out_before = out@;
                out.push(x);
                proof {
                    match parse_items_s(s@, k as int) {
                        Some(p) => {
                            assert(sexp_views(out@) + p.0 =~= sexp_views(out_before) + (seq![
                                view_sexp(x),
                            ] + p.0));
                        },
                        None => {},
                    }
                    lemma_items_progress(s@, k as int);
                }
                pos = k;
            },
            None => {
                return None;
            },
        }
    }
    let j = skip_ws(s, pos);
    proof {
        assert(sexp_views(out@) + Seq::<SexpView>::empty() =~= sexp_views(out@));
    }
    Some((out, j + 1))
}

/// Read one expression from the front of the text: the position after it
/// and the tree.
pub fn sexp(input: &str) -> (r: Option<(usize, Sexp)>)
    ensures
        match parse_sexp_s(input@, 0) {
            Some((x, k)) => r matches Some((j, e)) && view_sexp(e) == x && j as int == k,
            None => r is None,
        },
{
    match parse_sexp_at(input, 0) {
        Some((e, j)) => Some((j, e)),
        None => None,
    }
}

/// Read a whole program: every top-level expression, with nothing but
/// whitespace left over, as `parse_program_s` says.
pub fn program(input: &str) -> (r: Option<(usize, Vec<Sexp>)>)
    ensures
        match parse_program_s(input@) {
            Some(forms) => r matches Some((j, v)) && sexp_views(v@) == forms && j as int
                == input@.len(),
            None => r is None,
        },
{
    let n = input.unicode_len();
    let mut out: Vec<Sexp> = Vec::new();
    let mut pos: usize = 0;
    proof {
        match parse_forms_s(input@, 0) {
            Some(rest) => {
                assert(sexp_views(out@) + rest =~= rest);
            },
            None => {},
        }
    }
    loop
        invariant
            n as int == input@.len(),
            pos <= input@.len(),
            ({
                let full = parse_forms_s(input@, 0);
                let rem = parse_forms_s(input@, pos as int);
                match rem {
                    Some(rest) => full == Some::<Seq<SexpView>>(sexp_views(out@) + rest),
                    None => full is None,
                }
            }),
        ensures
            pos <= input@.len(),
            pos as int + ws_count(input@, pos as int) >= input@.len(),
            ({
                let full = parse_forms_s(input@, 0);
                let rem = parse_forms_s(input@, pos as int);
                match rem {
                    Some(rest) => full == Some::<Seq<SexpView>>(sexp_views(out@) + rest),
                    None => full is None,
                }
            }),
        decreases input@.len() - pos,
    {
        proof {
            lemma_ws_count_le(input@, pos as int);
        }
        let j = skip_ws(input, pos);
        if j >= n {
            break ;
        }
        match parse_sexp_at(input, pos) {
            Some((x, k)) => {
                let ghost out_before = out@;
                out.push(x);
                proof {
                    match parse_forms_s(input@, k as int) {
                        Some(rest) => {
                            assert(sexp_views(out@) + rest =~= sexp_views(out_before) + (seq![
                                view_sexp(x),
                            ] + rest));
                        },
                        None => {},
                    }
                }
                pos = k;
            },
            None => {
                return None;
            },
        }
    }
    proof {
        assert(sexp_views(out@) + Seq::<SexpView>::empty() =~= sexp_views(out@));
    }
    Some((n, out))
}

} // verus!
