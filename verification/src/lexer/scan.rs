//! One step of the lexer: the longest lexeme at a position and the token it
//! produces.
use vstd::prelude::*;
use crate::lexer::Token;
use crate::lexer::grammar::{
    is_space, is_digit, is_hex_digit, is_ident_start, is_ident_char, space_run, line_comment,
    bracket_body, block_comment, long_string, identifier, attribute, label, digits, exponent,
    float_point, float_point_at, float_exponent, float_exponent_at, hex_integer, quoted_body, quoted, single_symbol, double_symbol,
    symbol, keyword, is_lexeme, is_longest, decimal_value, hex_value, digit_value, hex_digit_value,
    without_separators, is_skipped, is_integer_numeral, is_silent, yields,
    quote_scan, unmatched_len,
};
use crate::lexer::helpers::{unescape_chars};
use crate::text::push_char;

verus! {

/// No lexeme starts at `i`.
pub open spec fn no_lexeme_at(cs: Seq<char>, i: int) -> bool {
    forall|m: int| 1 <= m && i + m <= cs.len() ==> !is_lexeme(#[trigger] cs.subrange(i, i + m))
}

/// One step of the lexer at `i` reads `n` characters and produces `out`.
pub open spec fn scanned(cs: Seq<char>, i: int, n: int, out: Option<Token>) -> bool {
    ||| {
        &&& is_longest(cs, i, n)
        &&& (is_silent(cs.subrange(i, i + n)) ==> out is None)
        &&& (!is_silent(cs.subrange(i, i + n)) ==> (out matches Some(t) && yields(
            cs.subrange(i, i + n),
            t,
        )))
    }
    ||| {
        &&& no_lexeme_at(cs, i)
        &&& n == unmatched_len(cs, i)
        &&& out is None
    }
}

/// The first character of a lexeme determines which classes it can be in.
pub proof fn lemma_first_char(s: Seq<char>)
    requires
        s.len() >= 1,
    ensures
        space_run(s) ==> is_space(s[0]),
        line_comment(s) || block_comment(s) ==> s[0] == '-',
        identifier(s) ==> is_ident_start(s[0]),
        attribute(s) ==> s[0] == '<',
        label(s) ==> s[0] == ':',
        symbol(s) is Some ==> single_symbol(s[0]) is Some,
        float_point(s) || float_exponent(s) || hex_integer(s) || digits(s) ==> is_digit(s[0]),
        long_string(s) ==> s[0] == '[',
        quoted(s, '"') ==> s[0] == '"',
        quoted(s, '\'') ==> s[0] == '\'',
{
    if float_point(s) {
        let (a, b) = choose|a: int, b: int| float_point_at(s, a, b);
        assert(s.take(a)[0] == s[0]);
    }
    if float_exponent(s) {
        let a = choose|a: int| float_exponent_at(s, a);
        assert(s.take(a)[0] == s[0]);
    }
}

fn is_space_char(c: char) -> (b: bool)
    ensures
        b == is_space(c),
{
    c == ' ' || c == '\t' || c == '\n' || c == '\x0c'
}

fn is_digit_char(c: char) -> (b: bool)
    ensures
        b == is_digit(c),
{
    '0' <= c && c <= '9'
}

fn is_hex_char(c: char) -> (b: bool)
    ensures
        b == is_hex_digit(c),
{
    ('0' <= c && c <= '9') || ('a' <= c && c <= 'f') || ('A' <= c && c <= 'F')
}

fn is_ident_start_char(c: char) -> (b: bool)
    ensures
        b == is_ident_start(c),
{
    ('a' <= c && c <= 'z') || ('A' <= c && c <= 'Z') || c == '_'
}

fn is_ident_char_char(c: char) -> (b: bool)
    ensures
        b == is_ident_char(c),
{
    is_ident_start_char(c) || is_digit_char(c)
}

/// The end of the run of whitespace starting at `i`.
fn space_end(cs: &Vec<char>, i: usize) -> (j: usize)
    requires
        i <= cs.len(),
    ensures
        i <= j <= cs.len(),
        forall|k: int| i <= k < j ==> is_space(cs@[k]),
        j == cs.len() || !is_space(cs@[j as int]),
{
    let mut j = i;
    while j < cs.len() && is_space_char(cs[j])
        invariant
            i <= j <= cs.len(),
            forall|k: int| i <= k < j ==> is_space(cs@[k]),
        decreases cs.len() - j,
    {
        j += 1;
    }
    j
}

/// The end of the run of identifier characters starting at `i`.
fn ident_end(cs: &Vec<char>, i: usize) -> (j: usize)
    requires
        i <= cs.len(),
    ensures
        i <= j <= cs.len(),
        forall|k: int| i <= k < j ==> is_ident_char(cs@[k]),
        j == cs.len() || !is_ident_char(cs@[j as int]),
{
    let mut j = i;
    while j < cs.len() && is_ident_char_char(cs[j])
        invariant
            i <= j <= cs.len(),
            forall|k: int| i <= k < j ==> is_ident_char(cs@[k]),
        decreases cs.len() - j,
    {
        j += 1;
    }
    j
}

/// A `String` holding `cs[from..to]`.
fn text_of(cs: &Vec<char>, from: usize, to: usize) -> (r: String)
    requires
        from <= to <= cs.len(),
    ensures
        r@ == cs@.subrange(from as int, to as int),
{
    let mut r = String::new();
    let mut k = from;
    while k < to
        invariant
            from <= k <= to,
            to <= cs.len(),
            r@ == cs@.subrange(from as int, k as int),
        decreases to - k,
    {
        push_char(&mut r, cs[k]);
        assert(cs@.subrange(from as int, k as int).push(cs@[k as int]) =~= cs@.subrange(
            from as int,
            k + 1,
        ));
        k += 1;
    }
    r
}

/// `cs[from..to]` spells `w`.
fn spells(cs: &Vec<char>, from: usize, to: usize, w: &[char]) -> (b: bool)
    requires
        from <= to <= cs.len(),
    ensures
        b == (cs@.subrange(from as int, to as int) == w@),
{
    if to - from != w.len() {
        return false;
    }
    let mut k: usize = 0;
    while k < w.len()
        invariant
            k <= w.len(),
            to - from == w.len(),
            from <= to <= cs.len(),
            forall|q: int| 0 <= q < k ==> cs@[from + q] == w@[q],
        decreases w.len() - k,
    {
        if cs[from + k] != w[k] {
            assert(cs@.subrange(from as int, to as int)[k as int] != w@[k as int]);
            return false;
        }
        k += 1;
    }
    assert(cs@.subrange(from as int, to as int) =~= w@);
    true
}

/// The keyword token that `cs[from..to]` spells, if any.
fn keyword_token(cs: &Vec<char>, from: usize, to: usize) -> (r: Option<Token>)
    requires
        from <= to <= cs.len(),
    ensures
        r == keyword(cs@.subrange(from as int, to as int)),
{
    if spells(cs, from, to, &['a', 'n', 'd']) {
        Some(Token::And)
    } else if spells(cs, from, to, &['b', 'r', 'e', 'a', 'k']) {
        Some(Token::Break)
    } else if spells(cs, from, to, &['d', 'o']) {
        Some(Token::Do)
    } else if spells(cs, from, to, &['e', 'l', 's', 'e']) {
        Some(Token::Else)
    } else if spells(cs, from, to, &['e', 'l', 's', 'e', 'i', 'f']) {
        Some(Token::ElseIf)
    } else if spells(cs, from, to, &['e', 'n', 'd']) {
        Some(Token::End)
    } else if spells(cs, from, to, &['f', 'a', 'l', 's', 'e']) {
        Some(Token::False)
    } else if spells(cs, from, to, &['f', 'o', 'r']) {
        Some(Token::For)
    } else if spells(cs, from, to, &['f', 'u', 'n', 'c', 't', 'i', 'o', 'n']) {
        Some(Token::Function)
    } else if spells(cs, from, to, &['g', 'o', 't', 'o']) {
        Some(Token::Goto)
    } else if spells(cs, from, to, &['i', 'f']) {
        Some(Token::If)
    } else if spells(cs, from, to, &['i', 'n']) {
        Some(Token::In)
    } else if spells(cs, from, to, &['l', 'o', 'c', 'a', 'l']) {
        Some(Token::Local)
    } else if spells(cs, from, to, &['n', 'i', 'l']) {
        Some(Token::Nil)
    } else if spells(cs, from, to, &['n', 'o', 't']) {
        Some(Token::Not)
    } else if spells(cs, from, to, &['o', 'r']) {
        Some(Token::Or)
    } else if spells(cs, from, to, &['r', 'e', 'p', 'e', 'a', 't']) {
        Some(Token::Repeat)
    } else if spells(cs, from, to, &['r', 'e', 't', 'u', 'r', 'n']) {
        Some(Token::Return)
    } else if spells(cs, from, to, &['t', 'h', 'e', 'n']) {
        Some(Token::Then)
    } else if spells(cs, from, to, &['t', 'r', 'u', 'e']) {
        Some(Token::True)
    } else if spells(cs, from, to, &['u', 'n', 't', 'i', 'l']) {
        Some(Token::Until)
    } else if spells(cs, from, to, &['w', 'h', 'i', 'l', 'e']) {
        Some(Token::While)
    } else {
        None
    }
}

/// Whitespace at `i`.
fn scan_space(cs: &Vec<char>, i: usize) -> (r: (usize, Option<Token>))
    requires
        i < cs.len(),
        is_space(cs@[i as int]),
    ensures
        scanned(cs@, i as int, r.0 as int, r.1),
{
    let j = space_end(cs, i);
    let n = j - i;
    proof {
        let s = cs@.subrange(i as int, j as int);
        assert(space_run(s));
        assert forall|m2: int| n < m2 && i + m2 <= cs.len() implies !is_lexeme(
            #[trigger] cs@.subrange(i as int, i + m2),
        ) by {
            let t = cs@.subrange(i as int, i + m2);
            lemma_first_char(t);
            assert(t[n as int] == cs@[j as int]);
        }
        assert(is_silent(s));
    }
    (n, None)
}

/// An identifier or keyword at `i`.
fn scan_word(cs: &Vec<char>, i: usize) -> (r: (usize, Option<Token>))
    requires
        i < cs.len(),
        is_ident_start(cs@[i as int]),
    ensures
        scanned(cs@, i as int, r.0 as int, r.1),
{
    let j = ident_end(cs, i + 1);
    let n = j - i;
    let ghost s = cs@.subrange(i as int, j as int);
    proof {
        assert(identifier(s));
        assert forall|m2: int| n < m2 && i + m2 <= cs.len() implies !is_lexeme(
            #[trigger] cs@.subrange(i as int, i + m2),
        ) by {
            let t = cs@.subrange(i as int, i + m2);
            lemma_first_char(t);
            assert(t[n as int] == cs@[j as int]);
        }
        lemma_first_char(s);
        assert(!is_silent(s));
    }
    match keyword_token(cs, i, j) {
        Some(t) => (n, Some(t)),
        None => {
            let x = text_of(cs, i, j);
            (n, Some(Token::Identifier(x)))
        },
    }
}

/// `cs[i..j]` is the longest run of digits and separators starting at `i`.
pub open spec fn digit_run(cs: Seq<char>, i: int, j: int) -> bool {
    &&& 0 <= i < j <= cs.len()
    &&& digits(cs.subrange(i, j))
    &&& (j == cs.len() || !(is_digit(cs[j]) || (cs[j] == '_' && j + 1 < cs.len() && is_digit(
        cs[j + 1],
    ))))
}

/// Every digit sequence starting at `i` lies within the longest one, and
/// inside it is followed by a digit or a separator.
proof fn lemma_digits_within(cs: Seq<char>, i: int, j: int, a: int)
    requires
        digit_run(cs, i, j),
        1 <= a,
        i + a <= cs.len(),
        digits(cs.subrange(i, i + a)),
    ensures
        a <= j - i,
        a < j - i ==> is_digit(cs[i + a]) || cs[i + a] == '_',
{
    let t = cs.subrange(i, i + a);
    if a > j - i {
        let k = j - i;
        assert(t[k] == cs[j]);
        assert(is_digit(t[k]) || (t[k] == '_' && k + 1 < t.len() && is_digit(t[k + 1])));
        if !is_digit(t[k]) {
            assert(t[k + 1] == cs[j + 1]);
        }
    }
    if a < j - i {
        let u = cs.subrange(i, j);
        assert(u[a] == cs[i + a]);
    }
}

/// The longest digit sequence starting at `i`, which holds a digit.
fn digit_end(cs: &Vec<char>, i: usize) -> (j: usize)
    requires
        i < cs.len(),
        is_digit(cs@[i as int]),
    ensures
        digit_run(cs@, i as int, j as int),
{
    let mut j = i + 1;
    proof {
        assert(cs@.subrange(i as int, j as int)[0] == cs@[i as int]);
    }
    while j < cs.len() && (is_digit_char(cs[j]) || (cs[j] == '_' && cs.len() - j > 1 && is_digit_char(cs[j + 1])))
        invariant
            i < j <= cs.len(),
            digits(cs@.subrange(i as int, j as int)),
        decreases cs.len() - j,
    {
        let c = cs[j];
        if is_digit_char(c) {
            proof {
                let t = cs@.subrange(i as int, j + 1);
                assert forall|k: int| 0 <= k < t.len() implies (is_digit(#[trigger] t[k]) || (t[k] == '_'
                    && k + 1 < t.len() && is_digit(t[k + 1]))) by {
                    if k < t.len() - 1 {
                        assert(t[k] == cs@.subrange(i as int, j as int)[k]);
                        if k + 1 < t.len() - 1 {
                            assert(t[k + 1] == cs@.subrange(i as int, j as int)[k + 1]);
                        }
                    }
                }
            }
            j += 1;
        } else {
            proof {
                let t = cs@.subrange(i as int, j + 2);
                assert forall|k: int| 0 <= k < t.len() implies (is_digit(#[trigger] t[k]) || (t[k] == '_'
                    && k + 1 < t.len() && is_digit(t[k + 1]))) by {
                    if k < t.len() - 2 {
                        assert(t[k] == cs@.subrange(i as int, j as int)[k]);
                        if k + 1 < t.len() - 2 {
                            assert(t[k + 1] == cs@.subrange(i as int, j as int)[k + 1]);
                        }
                    }
                }
            }
            j += 2;
        }
    }
    j
}

/// The end of the exponent `[eE][+-]?D` starting at `k`, or `k` when there is
/// none.
fn exponent_end(cs: &Vec<char>, k: usize) -> (e: usize)
    requires
        k <= cs.len(),
    ensures
        k <= e <= cs.len(),
        e > k ==> exponent(cs@.subrange(k as int, e as int)),
        forall|m: int|
            0 <= m && k + m <= cs.len() && #[trigger] exponent(cs@.subrange(k as int, k + m)) ==> k + m <= e,
{
    if k < cs.len() && cs.len() - k > 1 && (cs[k] == 'e' || cs[k] == 'E') {
        if is_digit_char(cs[k + 1]) {
            let e = digit_end(cs, k + 1);
            proof {
                assert(cs@.subrange(k as int, e as int).skip(1) =~= cs@.subrange(k + 1, e as int));
                assert forall|m: int|
                    0 <= m && k + m <= cs.len() && #[trigger] exponent(cs@.subrange(k as int, k + m)) implies k + m <= e by {
                    let t = cs@.subrange(k as int, k + m);
                    assert(t[1] == cs@[k + 1]);
                    assert(t.skip(1) =~= cs@.subrange(k + 1, k + m));
                    lemma_digits_within(cs@, k + 1, e as int, m - 1);
                }
            }
            return e;
        } else if cs.len() - k > 2 && (cs[k + 1] == '+' || cs[k + 1] == '-') && is_digit_char(cs[k + 2]) {
            let e = digit_end(cs, k + 2);
            proof {
                let t0 = cs@.subrange(k as int, e as int);
                assert(t0.skip(2) =~= cs@.subrange(k + 2, e as int));
                assert(t0.skip(1)[0] == cs@[k + 1]);
                assert forall|m: int|
                    0 <= m && k + m <= cs.len() && #[trigger] exponent(cs@.subrange(k as int, k + m)) implies k + m <= e by {
                    let t = cs@.subrange(k as int, k + m);
                    assert(t[1] == cs@[k + 1]);
                    assert(t.skip(1)[0] == cs@[k + 1]);
                    assert(t.skip(2) =~= cs@.subrange(k + 2, k + m));
                    lemma_digits_within(cs@, k + 2, e as int, m - 2);
                }
            }
            return e;
        }
    }
    proof {
        assert forall|m: int|
            0 <= m && k + m <= cs.len() && #[trigger] exponent(cs@.subrange(k as int, k + m)) implies k + m <= k by {
            let t = cs@.subrange(k as int, k + m);
            assert(t[0] == cs@[k as int]);
            assert(t[1] == cs@[k + 1]);
            assert(t.skip(1)[0] == cs@[k + 1]);
            if m >= 3 {
                assert(t[2] == cs@[k + 2]);
                assert(t.skip(2)[0] == cs@[k + 2]);
            }
        }
    }
    k
}

/// The end of the run of hexadecimal digits starting at `i`.
fn hex_end(cs: &Vec<char>, i: usize) -> (j: usize)
    requires
        i <= cs.len(),
    ensures
        i <= j <= cs.len(),
        forall|k: int| i <= k < j ==> is_hex_digit(cs@[k]),
        j == cs.len() || !is_hex_digit(cs@[j as int]),
{
    let mut j = i;
    while j < cs.len() && is_hex_char(cs[j])
        invariant
            i <= j <= cs.len(),
            forall|k: int| i <= k < j ==> is_hex_digit(cs@[k]),
        decreases cs.len() - j,
    {
        j += 1;
    }
    j
}

proof fn lemma_decimal_value_nonneg(t: Seq<char>)
    requires
        forall|k: int| 0 <= k < t.len() ==> is_digit(#[trigger] t[k]) || t[k] == '_',
    ensures
        decimal_value(t) >= 0,
    decreases t.len(),
{
    if t.len() > 0 {
        lemma_decimal_value_nonneg(t.drop_last());
    }
}

proof fn lemma_hex_value_nonneg(t: Seq<char>)
    requires
        forall|k: int| 0 <= k < t.len() ==> is_hex_digit(#[trigger] t[k]),
    ensures
        hex_value(t) >= 0,
    decreases t.len(),
{
    if t.len() > 0 {
        lemma_hex_value_nonneg(t.drop_last());
    }
}

/// A prefix of a decimal numeral has no larger value.
proof fn lemma_decimal_prefix(t: Seq<char>, k: int)
    requires
        0 <= k <= t.len(),
        forall|q: int| 0 <= q < t.len() ==> is_digit(#[trigger] t[q]) || t[q] == '_',
    ensures
        decimal_value(t.take(k)) <= decimal_value(t),
    decreases t.len(),
{
    if k < t.len() {
        let u = t.drop_last();
        assert(u.take(k) =~= t.take(k));
        lemma_decimal_prefix(u, k);
        lemma_decimal_value_nonneg(u);
    } else {
        assert(t.take(k) =~= t);
    }
}

/// A prefix of a hexadecimal numeral has no larger value.
proof fn lemma_hex_prefix(t: Seq<char>, k: int)
    requires
        0 <= k <= t.len(),
        forall|q: int| 0 <= q < t.len() ==> is_hex_digit(#[trigger] t[q]),
    ensures
        hex_value(t.take(k)) <= hex_value(t),
    decreases t.len(),
{
    if k < t.len() {
        let u = t.drop_last();
        assert(u.take(k) =~= t.take(k));
        lemma_hex_prefix(u, k);
        lemma_hex_value_nonneg(u);
    } else {
        assert(t.take(k) =~= t);
    }
}

/// The value of the decimal numeral `cs[from..to]`, or `None` when it does
/// not fit in an `i64`.
fn decimal_of(cs: &Vec<char>, from: usize, to: usize) -> (r: Option<i64>)
    requires
        from <= to <= cs.len(),
        forall|k: int| from <= k < to ==> is_digit(#[trigger] cs@[k]) || cs@[k] == '_',
    ensures
        r matches Some(v) ==> v == decimal_value(cs@.subrange(from as int, to as int)),
        r is None ==> decimal_value(cs@.subrange(from as int, to as int)) > i64::MAX,
{
    let mut acc: i64 = 0;
    let mut k = from;
    assert(cs@.subrange(from as int, from as int) =~= Seq::<char>::empty());
    while k < to
        invariant
            from <= k <= to,
            to <= cs.len(),
            forall|q: int| from <= q < to ==> is_digit(#[trigger] cs@[q]) || cs@[q] == '_',
            acc == decimal_value(cs@.subrange(from as int, k as int)),
            acc >= 0,
        decreases to - k,
    {
        let ghost t = cs@.subrange(from as int, k + 1);
        assert(t.drop_last() =~= cs@.subrange(from as int, k as int));
        assert(t.last() == cs@[k as int]);
        let c = cs[k];
        if c != '_' {
            let d = (c as u32 - '0' as u32) as i64;
            assert(d == digit_value(c));
            if acc > (i64::MAX - d) / 10 {
                proof {
                    assert forall|q: int| 0 <= q < t.len() implies is_digit(#[trigger] t[q]) || t[q] == '_' by {
                        assert(t[q] == cs@[from + q]);
                    }
                    assert(decimal_value(t) > i64::MAX);
                    let whole = cs@.subrange(from as int, to as int);
                    assert forall|q: int| 0 <= q < whole.len() implies is_digit(#[trigger] whole[q]) || whole[q] == '_' by {
                        assert(whole[q] == cs@[from + q]);
                    }
                    assert(whole.take(k + 1 - from) =~= t);
                    lemma_decimal_prefix(whole, k + 1 - from);
                }
                return None;
            }
            acc = acc * 10 + d;
        }
        k += 1;
    }
    Some(acc)
}

/// The value of the hexadecimal digits `cs[from..to]`, or `None` when it does
/// not fit in an `i64`.
fn hex_of(cs: &Vec<char>, from: usize, to: usize) -> (r: Option<i64>)
    requires
        from <= to <= cs.len(),
        forall|k: int| from <= k < to ==> is_hex_digit(#[trigger] cs@[k]),
    ensures
        r matches Some(v) ==> v == hex_value(cs@.subrange(from as int, to as int)),
        r is None ==> hex_value(cs@.subrange(from as int, to as int)) > i64::MAX,
{
    let mut acc: i64 = 0;
    let mut k = from;
    assert(cs@.subrange(from as int, from as int) =~= Seq::<char>::empty());
    while k < to
        invariant
            from <= k <= to,
            to <= cs.len(),
            forall|q: int| from <= q < to ==> is_hex_digit(#[trigger] cs@[q]),
            acc == hex_value(cs@.subrange(from as int, k as int)),
            acc >= 0,
        decreases to - k,
    {
        let ghost t = cs@.subrange(from as int, k + 1);
        assert(t.drop_last() =~= cs@.subrange(from as int, k as int));
        assert(t.last() == cs@[k as int]);
        let c = cs[k];
        let d: i64 = if '0' <= c && c <= '9' {
            (c as u32 - '0' as u32) as i64
        } else if 'a' <= c && c <= 'f' {
            (c as u32 - 'a' as u32 + 10) as i64
        } else {
            (c as u32 - 'A' as u32 + 10) as i64
        };
        assert(d == hex_digit_value(c));
        if acc > (i64::MAX - d) / 16 {
            proof {
                assert(hex_value(t) > i64::MAX);
                let whole = cs@.subrange(from as int, to as int);
                assert forall|q: int| 0 <= q < whole.len() implies is_hex_digit(#[trigger] whole[q]) by {
                    assert(whole[q] == cs@[from + q]);
                }
                assert(whole.take(k + 1 - from) =~= t);
                lemma_hex_prefix(whole, k + 1 - from);
            }
            return None;
        }
        acc = acc * 16 + d;
        k += 1;
    }
    Some(acc)
}

/// A `String` holding `cs[from..to]` without its digit separators.
fn text_without_separators(cs: &Vec<char>, from: usize, to: usize) -> (r: String)
    requires
        from <= to <= cs.len(),
    ensures
        r@ == without_separators(cs@.subrange(from as int, to as int)),
{
    let mut r = String::new();
    let mut k = from;
    assert(cs@.subrange(from as int, from as int) =~= Seq::<char>::empty());
    while k < to
        invariant
            from <= k <= to,
            to <= cs.len(),
            r@ == without_separators(cs@.subrange(from as int, k as int)),
        decreases to - k,
    {
        let ghost t = cs@.subrange(from as int, k + 1);
        assert(t.drop_last() =~= cs@.subrange(from as int, k as int));
        assert(t.last() == cs@[k as int]);
        if cs[k] != '_' {
            push_char(&mut r, cs[k]);
        }
        k += 1;
    }
    r
}

/// Only numerals start with a digit, and a digit sequence is not a float.
proof fn lemma_digits_not_float(s: Seq<char>)
    requires
        forall|k: int| 0 <= k < s.len() ==> is_digit(#[trigger] s[k]) || s[k] == '_',
    ensures
        !float_point(s),
        !float_exponent(s),
{
    if float_point(s) {
        let (a, b) = choose|a: int, b: int| float_point_at(s, a, b);
        assert(is_digit(s[a]) || s[a] == '_');
    }
    if float_exponent(s) {
        let a = choose|a: int| float_exponent_at(s, a);
        assert(s.skip(a)[0] == s[a]);
        assert(is_digit(s[a]) || s[a] == '_');
    }
}

/// What `exponent_end` establishes about an exponent at `k`.
pub open spec fn exponent_span(cs: Seq<char>, k: int, e: int) -> bool {
    &&& 0 <= k <= e <= cs.len()
    &&& (e > k ==> exponent(cs.subrange(k, e)))
    &&& forall|m: int|
        0 <= m && k + m <= cs.len() && #[trigger] exponent(cs.subrange(k, k + m)) ==> k + m <= e
}

/// `0x` and a hexadecimal digit do not start at `i`.
pub open spec fn no_hex_prefix(cs: Seq<char>, i: int) -> bool {
    !(cs[i] == '0' && cs.len() - i > 2 && (cs[i + 1] == 'x' || cs[i + 1] == 'X') && is_hex_digit(
        cs[i + 2],
    ))
}

/// A lexeme that starts with a digit is a numeral.
proof fn lemma_numeral_classes(t: Seq<char>)
    requires
        t.len() >= 1,
        is_digit(t[0]),
    ensures
        is_lexeme(t) <==> (float_point(t) || float_exponent(t) || hex_integer(t) || digits(t)),
        !is_skipped(t),
        keyword(t) is None,
        !identifier(t),
        !attribute(t),
        !label(t),
        symbol(t) is None,
        !long_string(t),
{
    lemma_first_char(t);
}

/// A hexadecimal numeral ending at `j` is the longest lexeme at `i`.
proof fn lemma_number_hex(cs: Seq<char>, i: int, j: int)
    requires
        0 <= i,
        i + 3 <= j <= cs.len(),
        cs[i] == '0',
        cs[i + 1] == 'x' || cs[i + 1] == 'X',
        forall|k: int| i + 2 <= k < j ==> is_hex_digit(cs[k]),
        j == cs.len() || !is_hex_digit(cs[j]),
    ensures
        is_longest(cs, i, j - i),
        hex_integer(cs.subrange(i, j)),
        !float_point(cs.subrange(i, j)),
        !float_exponent(cs.subrange(i, j)),
{
    let n = j - i;
    let s = cs.subrange(i, j);
    assert(hex_integer(s));
    assert forall|m2: int| n < m2 && i + m2 <= cs.len() implies !is_lexeme(
        #[trigger] cs.subrange(i, i + m2),
    ) by {
        let t = cs.subrange(i, i + m2);
        lemma_numeral_classes(t);
        assert(t[1] == cs[i + 1]);
        assert(t[n] == cs[j]);
        if float_point(t) {
            let (a, b) = choose|a: int, b: int| float_point_at(t, a, b);
            if a >= 2 {
                assert(t.take(a)[1] == t[1]);
            }
        }
        if float_exponent(t) {
            let a = choose|a: int| float_exponent_at(t, a);
            assert(t.skip(a)[0] == t[a]);
            if a >= 2 {
                assert(t.take(a)[1] == t[1]);
            }
        }
    }
    assert(s[1] == cs[i + 1]);
    if float_point(s) {
        let (a, b) = choose|a: int, b: int| float_point_at(s, a, b);
        if a >= 2 {
            assert(s.take(a)[1] == s[1]);
        }
    }
    if float_exponent(s) {
        let a = choose|a: int| float_exponent_at(s, a);
        assert(s.skip(a)[0] == s[a]);
        if a >= 2 {
            assert(s.take(a)[1] == s[1]);
        }
    }
}

/// Under the digits of a decimal numeral at `i` (ending at `j`) no
/// hexadecimal numeral, and no longer digit sequence, starts at `i`.
proof fn lemma_decimal_start(cs: Seq<char>, i: int, j: int, m2: int)
    requires
        digit_run(cs, i, j),
        no_hex_prefix(cs, i),
        j - i < m2,
        i + m2 <= cs.len(),
    ensures
        !digits(cs.subrange(i, i + m2)),
        !hex_integer(cs.subrange(i, i + m2)),
{
    let t = cs.subrange(i, i + m2);
    if digits(t) {
        lemma_digits_within(cs, i, j, m2);
    }
    if hex_integer(t) {
        assert(t[1] == cs[i + 1]);
        assert(t[0] == cs[i]);
        assert(t[2] == cs[i + 2]);
    }
}

/// A numeral with a fractional part, ending at `e`, is the longest lexeme at
/// `i`.
proof fn lemma_number_frac(cs: Seq<char>, i: int, j: int, k: int, e: int)
    requires
        digit_run(cs, i, j),
        no_hex_prefix(cs, i),
        cs[j] == '.',
        digit_run(cs, j + 1, k),
        exponent_span(cs, k, e),
    ensures
        is_longest(cs, i, e - i),
        float_point(cs.subrange(i, e)),
        !is_integer_numeral(cs.subrange(i, e)),
{
    let n = e - i;
    let s = cs.subrange(i, e);
    let a = j - i;
    let b = k - i;
    assert(s.take(a) =~= cs.subrange(i, j));
    assert(s.subrange(a + 1, b) =~= cs.subrange(j + 1, k));
    assert(s.skip(b) =~= cs.subrange(k, e));
    assert(float_point_at(s, a, b));
    assert forall|m2: int| n < m2 && i + m2 <= cs.len() implies !is_lexeme(
        #[trigger] cs.subrange(i, i + m2),
    ) by {
        let t = cs.subrange(i, i + m2);
        lemma_numeral_classes(t);
        lemma_decimal_start(cs, i, j, m2);
        if float_point(t) {
            let (a2, b2) = choose|a2: int, b2: int| float_point_at(t, a2, b2);
            assert(t.take(a2) =~= cs.subrange(i, i + a2));
            lemma_digits_within(cs, i, j, a2);
            assert(t[a2] == cs[i + a2]);
            assert(t.subrange(a2 + 1, b2) =~= cs.subrange(j + 1, i + b2));
            lemma_digits_within(cs, j + 1, k, b2 - a2 - 1);
            if b2 < m2 {
                assert(t.skip(b2) =~= cs.subrange(i + b2, i + m2));
                assert(t.skip(b2)[0] == cs[i + b2]);
                assert(exponent(cs.subrange(k, k + (i + m2 - k))));
            }
        }
        if float_exponent(t) {
            let a2 = choose|a2: int| float_exponent_at(t, a2);
            assert(t.take(a2) =~= cs.subrange(i, i + a2));
            lemma_digits_within(cs, i, j, a2);
            assert(t.skip(a2)[0] == t[a2]);
            assert(t[a2] == cs[i + a2]);
        }
    }
    assert(s[a] == '.');
    if digits(s) {
        assert(is_digit(s[a]) || s[a] == '_');
    }
    if hex_integer(s) {
        if a >= 2 {
            assert(s.take(a)[1] == s[1]);
        }
    }
}

/// A numeral without a fractional part, whose digits end at `j` and whose
/// exponent, if any, ends at `e`, is the longest lexeme at `i`.
proof fn lemma_number_plain(cs: Seq<char>, i: int, j: int, e: int)
    requires
        digit_run(cs, i, j),
        no_hex_prefix(cs, i),
        !(j < cs.len() && cs.len() - j > 1 && cs[j] == '.' && is_digit(cs[j + 1])),
        exponent_span(cs, j, e),
    ensures
        is_longest(cs, i, e - i),
        e > j ==> float_exponent(cs.subrange(i, e)) && !is_integer_numeral(cs.subrange(i, e)),
        e == j ==> digits(cs.subrange(i, e)) && !float_point(cs.subrange(i, e)) && !float_exponent(
            cs.subrange(i, e),
        ) && !hex_integer(cs.subrange(i, e)),
{
    let n = e - i;
    let s = cs.subrange(i, e);
    assert forall|m2: int| n < m2 && i + m2 <= cs.len() implies !is_lexeme(
        #[trigger] cs.subrange(i, i + m2),
    ) by {
        let t = cs.subrange(i, i + m2);
        lemma_numeral_classes(t);
        lemma_decimal_start(cs, i, j, m2);
        if float_point(t) {
            let (a2, b2) = choose|a2: int, b2: int| float_point_at(t, a2, b2);
            assert(t.take(a2) =~= cs.subrange(i, i + a2));
            lemma_digits_within(cs, i, j, a2);
            assert(t[a2] == cs[i + a2]);
            assert(t.subrange(a2 + 1, b2)[0] == cs[i + a2 + 1]);
        }
        if float_exponent(t) {
            let a2 = choose|a2: int| float_exponent_at(t, a2);
            assert(t.take(a2) =~= cs.subrange(i, i + a2));
            lemma_digits_within(cs, i, j, a2);
            assert(t.skip(a2)[0] == t[a2]);
            assert(t[a2] == cs[i + a2]);
            assert(t.skip(a2) =~= cs.subrange(j, j + (i + m2 - j)));
        }
    }
    if e > j {
        let a = j - i;
        assert(s.take(a) =~= cs.subrange(i, j));
        assert(s.skip(a) =~= cs.subrange(j, e));
        assert(float_exponent_at(s, a));
        assert(s[a] == cs[j]);
        assert(cs.subrange(j, e)[0] == cs[j]);
        if digits(s) {
            assert(is_digit(s[a]) || s[a] == '_');
        }
        if hex_integer(s) {
            if a >= 2 {
                assert(s.take(a)[1] == s[1]);
            }
            assert(cs.subrange(i, j)[0] == cs[i]);
        }
    } else {
        assert(s =~= cs.subrange(i, j));
        assert forall|q: int| 0 <= q < s.len() implies is_digit(#[trigger] s[q]) || s[q] == '_' by {}
        lemma_digits_not_float(s);
        if hex_integer(s) {
            assert(s[1] == cs[i + 1]);
            assert(s[0] == cs[i]);
            assert(s[2] == cs[i + 2]);
        }
    }
}

/// A numeral at `i`.
fn scan_number(cs: &Vec<char>, i: usize) -> (r: (usize, Option<Token>))
    requires
        i < cs.len(),
        is_digit(cs@[i as int]),
    ensures
        scanned(cs@, i as int, r.0 as int, r.1),
{
    if cs[i] == '0' && cs.len() - i > 2 && (cs[i + 1] == 'x' || cs[i + 1] == 'X') && is_hex_char(
        cs[i + 2],
    ) {
        let j = hex_end(cs, i + 2);
        proof {
            lemma_number_hex(cs@, i as int, j as int);
            lemma_numeral_classes(cs@.subrange(i as int, j as int));
            assert(cs@.subrange(i as int, j as int).skip(2) =~= cs@.subrange(i + 2, j as int));
        }
        match hex_of(cs, i + 2, j) {
            Some(v) => (j - i, Some(Token::Integer(v))),
            None => (j - i, None),
        }
    } else {
        let j = digit_end(cs, i);
        if j < cs.len() && cs.len() - j > 1 && cs[j] == '.' && is_digit_char(cs[j + 1]) {
            let k = digit_end(cs, j + 1);
            let e = exponent_end(cs, k);
            proof {
                lemma_number_frac(cs@, i as int, j as int, k as int, e as int);
                lemma_numeral_classes(cs@.subrange(i as int, e as int));
            }
            let x = text_without_separators(cs, i, e);
            (e - i, Some(Token::Number(x)))
        } else {
            let e = exponent_end(cs, j);
            proof {
                lemma_number_plain(cs@, i as int, j as int, e as int);
                lemma_numeral_classes(cs@.subrange(i as int, e as int));
            }
            if e > j {
                let x = text_without_separators(cs, i, e);
                (e - i, Some(Token::Number(x)))
            } else {
                proof {
                    assert forall|q: int| i <= q < j implies is_digit(#[trigger] cs@[q]) || cs@[q] == '_' by {
                        assert(cs@.subrange(i as int, j as int)[q - i] == cs@[q]);
                    }
                }
                match decimal_of(cs, i, j) {
                    Some(v) => (j - i, Some(Token::Integer(v))),
                    None => (j - i, None),
                }
            }
        }
    }
}

/// `]]` starts at `p`.
pub open spec fn close_at(cs: Seq<char>, p: int) -> bool {
    0 <= p && p + 1 < cs.len() && cs[p] == ']' && cs[p + 1] == ']'
}

/// The first `]]` at or after `from`.
fn find_close(cs: &Vec<char>, from: usize) -> (r: Option<usize>)
    requires
        from <= cs.len(),
    ensures
        r matches Some(p) ==> from <= p && close_at(cs@, p as int) && forall|q: int|
            from <= q < p ==> !#[trigger] close_at(cs@, q),
        r is None ==> forall|q: int| from <= q ==> !#[trigger] close_at(cs@, q),
{
    let mut p = from;
    while p < cs.len()
        invariant
            from <= p <= cs.len(),
            forall|q: int| from <= q < p ==> !#[trigger] close_at(cs@, q),
        decreases cs.len() - p,
    {
        if cs.len() - p > 1 && cs[p] == ']' && cs[p + 1] == ']' {
            return Some(p);
        }
        p += 1;
    }
    None
}

/// The text between `from` and the first `]]` after it is a bracket body,
/// and no text reaching past that `]]` is.
proof fn lemma_bracket_body(cs: Seq<char>, from: int, p: int)
    requires
        0 <= from <= p,
        close_at(cs, p),
        forall|q: int| from <= q < p ==> !#[trigger] close_at(cs, q),
    ensures
        bracket_body(cs.subrange(from, p)),
        forall|e: int| p < e <= cs.len() ==> !bracket_body(#[trigger] cs.subrange(from, e)),
{
    let t = cs.subrange(from, p);
    assert forall|k: int| 0 <= k < t.len() && #[trigger] t[k] == ']' implies k + 1 < t.len() && t[k + 1]
        != ']' by {
        assert(t[k] == cs[from + k]);
        assert(!close_at(cs, from + k));
        if k + 1 < t.len() {
            assert(t[k + 1] == cs[from + k + 1]);
        } else {
            assert(close_at(cs, p));
        }
    }
    assert forall|e: int| p < e <= cs.len() implies !bracket_body(#[trigger] cs.subrange(from, e)) by {
        let u = cs.subrange(from, e);
        assert(u[p - from] == ']');
        if p - from + 1 < u.len() {
            assert(u[p - from + 1] == ']');
        }
    }
}

/// A `-` at `i`: a comment or the minus operator.
fn scan_dash(cs: &Vec<char>, i: usize) -> (r: (usize, Option<Token>))
    requires
        i < cs.len(),
        cs@[i as int] == '-',
    ensures
        scanned(cs@, i as int, r.0 as int, r.1),
{
    if cs.len() - i > 1 && cs[i + 1] == '-' {
        let mut l = i + 2;
        while l < cs.len() && cs[l] != '\n'
            invariant
                i + 2 <= l <= cs.len(),
                forall|k: int| i + 2 <= k < l ==> cs@[k] != '\n',
            decreases cs.len() - l,
        {
            l += 1;
        }
        let ghost line = cs@.subrange(i as int, l as int);
        assert(line_comment(line));
        let mut n = l - i;
        let mut block_end: Option<usize> = None;
        if cs.len() - i > 3 && cs[i + 2] == '[' && cs[i + 3] == '[' {
            match find_close(cs, i + 4) {
                Some(p) => {
                    block_end = Some(p + 2);
                    if p + 2 - i > n {
                        n = p + 2 - i;
                    }
                },
                None => {},
            }
        }
        proof {
            let s = cs@.subrange(i as int, i + n);
            match block_end {
                Some(b) => {
                    let p = b - 2;
                    lemma_bracket_body(cs@, i + 4, p);
                    let bs = cs@.subrange(i as int, b as int);
                    assert(bs.subrange(4, bs.len() - 2) =~= cs@.subrange(i + 4, p));
                    assert(block_comment(bs));
                },
                None => {},
            }
            assert(is_lexeme(s));
            assert forall|m2: int| n < m2 && i + m2 <= cs.len() implies !is_lexeme(
                #[trigger] cs@.subrange(i as int, i + m2),
            ) by {
                let t = cs@.subrange(i as int, i + m2);
                lemma_first_char(t);
                if line_comment(t) {
                    assert(t[l - i] == cs@[l as int]);
                }
                if block_comment(t) {
                    assert(t[2] == cs@[i + 2]);
                    assert(t[3] == cs@[i + 3]);
                    assert(close_at(cs@, i + m2 - 2));
                    match block_end {
                        Some(b) => {
                            assert(t.subrange(4, t.len() - 2) =~= cs@.subrange(i + 4, i + m2 - 2));
                        },
                        None => {},
                    }
                }
            }
            lemma_first_char(s);
            assert(is_skipped(s));
        }
        (n, None)
    } else {
        proof {
            let s = cs@.subrange(i as int, i + 1);
            assert(symbol(s) == Some(Token::Minus));
            assert forall|m2: int| 1 < m2 && i + m2 <= cs.len() implies !is_lexeme(
                #[trigger] cs@.subrange(i as int, i + m2),
            ) by {
                let t = cs@.subrange(i as int, i + m2);
                lemma_first_char(t);
                assert(t[1] == cs@[i + 1]);
            }
            lemma_first_char(s);
        }
        (1, Some(Token::Minus))
    }
}

/// A `[` at `i`: a long string or the left bracket.
fn scan_bracket(cs: &Vec<char>, i: usize) -> (r: (usize, Option<Token>))
    requires
        i < cs.len(),
        cs@[i as int] == '[',
    ensures
        scanned(cs@, i as int, r.0 as int, r.1),
{
    if cs.len() - i > 1 && cs[i + 1] == '[' {
        match find_close(cs, i + 2) {
            Some(p) => {
                let ghost s = cs@.subrange(i as int, p + 2);
                proof {
                    lemma_bracket_body(cs@, i + 2, p as int);
                    assert(s.subrange(2, s.len() - 2) =~= cs@.subrange(i + 2, p as int));
                    assert(long_string(s));
                    assert forall|m2: int| p + 2 - i < m2 && i + m2 <= cs.len() implies !is_lexeme(
                        #[trigger] cs@.subrange(i as int, i + m2),
                    ) by {
                        let t = cs@.subrange(i as int, i + m2);
                        lemma_first_char(t);
                        if long_string(t) {
                            assert(t.subrange(2, t.len() - 2) =~= cs@.subrange(i + 2, i + m2 - 2));
                        }
                    }
                    lemma_first_char(s);
                    assert(s[0] == '[');
                }
                let x = text_of(cs, i + 2, p);
                return (p + 2 - i, Some(Token::StringLiteral(x)));
            },
            None => {
                proof {
                    assert forall|m2: int| 1 < m2 && i + m2 <= cs.len() implies !is_lexeme(
                        #[trigger] cs@.subrange(i as int, i + m2),
                    ) by {
                        let t = cs@.subrange(i as int, i + m2);
                        lemma_first_char(t);
                        if long_string(t) {
                            assert(close_at(cs@, i + m2 - 2));
                        }
                    }
                }
            },
        }
    } else {
        proof {
            assert forall|m2: int| 1 < m2 && i + m2 <= cs.len() implies !is_lexeme(
                #[trigger] cs@.subrange(i as int, i + m2),
            ) by {
                let t = cs@.subrange(i as int, i + m2);
                lemma_first_char(t);
                assert(t[1] == cs@[i + 1]);
            }
        }
    }
    proof {
        let s = cs@.subrange(i as int, i + 1);
        assert(symbol(s) == Some(Token::LeftBracket));
        lemma_first_char(s);
    }
    (1, Some(Token::LeftBracket))
}

fn single_symbol_of(c: char) -> (r: Option<Token>)
    ensures
        r == single_symbol(c),
{
    if c == '=' {
        Some(Token::Assign)
    } else if c == '~' {
        Some(Token::BitXor)
    } else if c == '&' {
        Some(Token::BitAnd)
    } else if c == '|' {
        Some(Token::BitOr)
    } else if c == '>' {
        Some(Token::GreaterThan)
    } else if c == '<' {
        Some(Token::LessThan)
    } else if c == '+' {
        Some(Token::Plus)
    } else if c == '-' {
        Some(Token::Minus)
    } else if c == '*' {
        Some(Token::Multiply)
    } else if c == '/' {
        Some(Token::Divide)
    } else if c == '%' {
        Some(Token::Modulus)
    } else if c == '^' {
        Some(Token::Power)
    } else if c == '#' {
        Some(Token::Length)
    } else if c == ':' {
        Some(Token::Colon)
    } else if c == ';' {
        Some(Token::Semicolon)
    } else if c == ',' {
        Some(Token::Comma)
    } else if c == '.' {
        Some(Token::Dot)
    } else if c == '(' {
        Some(Token::LeftParen)
    } else if c == ')' {
        Some(Token::RightParen)
    } else if c == '{' {
        Some(Token::LeftBrace)
    } else if c == '}' {
        Some(Token::RightBrace)
    } else if c == '[' {
        Some(Token::LeftBracket)
    } else if c == ']' {
        Some(Token::RightBracket)
    } else {
        None
    }
}

fn double_symbol_of(a: char, b: char) -> (r: Option<Token>)
    ensures
        r == double_symbol(a, b),
{
    if a == '.' && b == '.' {
        Some(Token::Concat)
    } else if a == ':' && b == ':' {
        Some(Token::LabelDelim)
    } else if a == '=' && b == '=' {
        Some(Token::Equal)
    } else if a == '~' && b == '=' {
        Some(Token::NotEqual)
    } else if a == '<' && b == '=' {
        Some(Token::LessEqual)
    } else if a == '>' && b == '=' {
        Some(Token::GreaterEqual)
    } else if a == '<' && b == '<' {
        Some(Token::ShiftLeft)
    } else if a == '>' && b == '>' {
        Some(Token::ShiftRight)
    } else if a == '/' && b == '/' {
        Some(Token::FloorDivide)
    } else {
        None
    }
}

/// An operator or punctuation character at `i` other than `-`, `[`, `<`,
/// `:` and `.`, or a character at which no lexeme starts.
fn scan_symbol(cs: &Vec<char>, i: usize) -> (r: (usize, Option<Token>))
    requires
        i < cs.len(),
        ({
            let c = cs@[i as int];
            &&& !is_space(c)
            &&& !is_ident_start(c)
            &&& !is_digit(c)
            &&& c != '-' && c != '[' && c != '<' && c != ':' && c != '.'
            &&& c != '"' && c != '\''
        }),
    ensures
        scanned(cs@, i as int, r.0 as int, r.1),
{
    let c = cs[i];
    if cs.len() - i > 1 {
        match double_symbol_of(c, cs[i + 1]) {
            Some(t) => {
                proof {
                    let s = cs@.subrange(i as int, i + 2);
                    assert(symbol(s) == Some(t));
                    assert forall|m2: int| 2 < m2 && i + m2 <= cs.len() implies !is_lexeme(
                        #[trigger] cs@.subrange(i as int, i + m2),
                    ) by {
                        let u = cs@.subrange(i as int, i + m2);
                        lemma_first_char(u);
                    }
                    lemma_first_char(s);
                }
                return (2, Some(t));
            },
            None => {},
        }
    }
    match single_symbol_of(c) {
        Some(t) => {
            proof {
                let s = cs@.subrange(i as int, i + 1);
                assert(symbol(s) == Some(t));
                assert forall|m2: int| 1 < m2 && i + m2 <= cs.len() implies !is_lexeme(
                    #[trigger] cs@.subrange(i as int, i + m2),
                ) by {
                    let u = cs@.subrange(i as int, i + m2);
                    lemma_first_char(u);
                    assert(u[1] == cs@[i + 1]);
                }
                lemma_first_char(s);
            }
            (1, Some(t))
        },
        None => {
            proof {
                assert forall|m: int| 1 <= m && i + m <= cs.len() implies !is_lexeme(
                    #[trigger] cs@.subrange(i as int, i + m),
                ) by {
                    let u = cs@.subrange(i as int, i + m);
                    lemma_first_char(u);
                }
            }
            (1, None)
        },
    }
}

/// A `.` at `i`.
fn scan_dot(cs: &Vec<char>, i: usize) -> (r: (usize, Option<Token>))
    requires
        i < cs.len(),
        cs@[i as int] == '.',
    ensures
        scanned(cs@, i as int, r.0 as int, r.1),
{
    let n: usize = if cs.len() - i > 2 && cs[i + 1] == '.' && cs[i + 2] == '.' {
        3
    } else if cs.len() - i > 1 && cs[i + 1] == '.' {
        2
    } else {
        1
    };
    let t = if n == 3 {
        Token::VarArgs
    } else if n == 2 {
        Token::Concat
    } else {
        Token::Dot
    };
    proof {
        let s = cs@.subrange(i as int, i + n);
        assert(symbol(s) == Some(t));
        assert forall|m2: int| n < m2 && i + m2 <= cs.len() implies !is_lexeme(
            #[trigger] cs@.subrange(i as int, i + m2),
        ) by {
            let u = cs@.subrange(i as int, i + m2);
            lemma_first_char(u);
            assert(u[1] == cs@[i + 1]);
            if m2 >= 3 {
                assert(u[2] == cs@[i + 2]);
            }
        }
        lemma_first_char(s);
    }
    (n, Some(t))
}

/// A `<` at `i`: an attribute or an operator.
fn scan_angle(cs: &Vec<char>, i: usize) -> (r: (usize, Option<Token>))
    requires
        i < cs.len(),
        cs@[i as int] == '<',
    ensures
        scanned(cs@, i as int, r.0 as int, r.1),
{
    if cs.len() - i > 1 && is_ident_start_char(cs[i + 1]) {
        let j = ident_end(cs, i + 1);
        if j < cs.len() && cs[j] == '>' {
            let ghost s = cs@.subrange(i as int, j + 1);
            proof {
                assert(s.subrange(1, s.len() - 1) =~= cs@.subrange(i + 1, j as int));
                assert(attribute(s));
                assert forall|m2: int| j + 1 - i < m2 && i + m2 <= cs.len() implies !is_lexeme(
                    #[trigger] cs@.subrange(i as int, i + m2),
                ) by {
                    let u = cs@.subrange(i as int, i + m2);
                    lemma_first_char(u);
                    if attribute(u) {
                        let v = u.subrange(1, u.len() - 1);
                        assert(v[j - i - 1] == cs@[j as int]);
                    }
                }
                lemma_first_char(s);
                assert(s[0] == '<');
            }
            let x = text_of(cs, i + 1, j);
            return (j + 1 - i, Some(Token::Attribute(x)));
        }
        proof {
            assert forall|m2: int| 2 <= m2 && i + m2 <= cs.len() && #[trigger] attribute(cs@.subrange(i as int, i + m2))
                implies false by {
                let u = cs@.subrange(i as int, i + m2);
                let v = u.subrange(1, u.len() - 1);
                if j < i + m2 - 1 {
                    assert(v[j - i - 1] == cs@[j as int]);
                }
                if j > i + m2 - 1 {
                    assert(u[m2 - 1] == cs@[i + m2 - 1]);
                }
            }
        }
    }
    let n: usize = if cs.len() - i > 1 && (cs[i + 1] == '=' || cs[i + 1] == '<') {
        2
    } else {
        1
    };
    let t = if n == 2 && cs[i + 1] == '=' {
        Token::LessEqual
    } else if n == 2 {
        Token::ShiftLeft
    } else {
        Token::LessThan
    };
    proof {
        let s = cs@.subrange(i as int, i + n);
        assert(symbol(s) == Some(t));
        assert forall|m2: int| n < m2 && i + m2 <= cs.len() implies !is_lexeme(
            #[trigger] cs@.subrange(i as int, i + m2),
        ) by {
            let u = cs@.subrange(i as int, i + m2);
            lemma_first_char(u);
            assert(u[1] == cs@[i + 1]);
            if attribute(u) {
                let v = u.subrange(1, u.len() - 1);
                assert(v[0] == cs@[i + 1]);
            }
        }
        lemma_first_char(s);
    }
    (n, Some(t))
}

/// A `:` at `i`: a label or punctuation.
fn scan_colon(cs: &Vec<char>, i: usize) -> (r: (usize, Option<Token>))
    requires
        i < cs.len(),
        cs@[i as int] == ':',
    ensures
        scanned(cs@, i as int, r.0 as int, r.1),
{
    if cs.len() - i > 1 && cs[i + 1] == ':' {
        if cs.len() - i > 2 && is_ident_start_char(cs[i + 2]) {
            let j = ident_end(cs, i + 2);
            if cs.len() - j > 1 && cs[j] == ':' && cs[j + 1] == ':' {
                let ghost s = cs@.subrange(i as int, j + 2);
                proof {
                    assert(s.subrange(2, s.len() - 2) =~= cs@.subrange(i + 2, j as int));
                    assert(label(s));
                    assert forall|m2: int| j + 2 - i < m2 && i + m2 <= cs.len() implies !is_lexeme(
                        #[trigger] cs@.subrange(i as int, i + m2),
                    ) by {
                        let u = cs@.subrange(i as int, i + m2);
                        lemma_first_char(u);
                        if label(u) {
                            let v = u.subrange(2, u.len() - 2);
                            assert(v[j - i - 2] == cs@[j as int]);
                        }
                    }
                    lemma_first_char(s);
                    assert(s[0] == ':');
                }
                let x = text_of(cs, i + 2, j);
                return (j + 2 - i, Some(Token::Label(x)));
            }
            proof {
                assert forall|m2: int| 2 <= m2 && i + m2 <= cs.len() && #[trigger] label(cs@.subrange(i as int, i + m2))
                    implies false by {
                    let u = cs@.subrange(i as int, i + m2);
                    let v = u.subrange(2, u.len() - 2);
                    if j < i + m2 - 2 {
                        assert(v[j - i - 2] == cs@[j as int]);
                    }
                    if j > i + m2 - 2 {
                        assert(u[m2 - 2] == cs@[i + m2 - 2]);
                    }
                    if j == i + m2 - 2 {
                        assert(u[m2 - 2] == cs@[j as int]);
                        assert(u[m2 - 1] == cs@[j + 1]);
                    }
                }
            }
        } else {
            proof {
                assert forall|m2: int| 2 <= m2 && i + m2 <= cs.len() && #[trigger] label(cs@.subrange(i as int, i + m2))
                    implies false by {
                    let u = cs@.subrange(i as int, i + m2);
                    let v = u.subrange(2, u.len() - 2);
                    assert(v[0] == cs@[i + 2]);
                }
            }
        }
        proof {
            let s = cs@.subrange(i as int, i + 2);
            assert(symbol(s) == Some(Token::LabelDelim));
            assert forall|m2: int| 2 < m2 && i + m2 <= cs.len() implies !is_lexeme(
                #[trigger] cs@.subrange(i as int, i + m2),
            ) by {
                let u = cs@.subrange(i as int, i + m2);
                lemma_first_char(u);
            }
            lemma_first_char(s);
        }
        (2, Some(Token::LabelDelim))
    } else {
        proof {
            let s = cs@.subrange(i as int, i + 1);
            assert(symbol(s) == Some(Token::Colon));
            assert forall|m2: int| 1 < m2 && i + m2 <= cs.len() implies !is_lexeme(
                #[trigger] cs@.subrange(i as int, i + m2),
            ) by {
                let u = cs@.subrange(i as int, i + m2);
                lemma_first_char(u);
                assert(u[1] == cs@[i + 1]);
            }
            lemma_first_char(s);
        }
        (1, Some(Token::Colon))
    }
}

/// Where the scan of a quoted body ends, and what it has read.
proof fn lemma_quote_scan(cs: Seq<char>, k: int, q: char)
    requires
        0 <= k <= cs.len(),
    ensures
        quote_scan(cs, k, q) matches Ok(e) ==> k < e <= cs.len() && cs[e - 1] == q && quoted_body(
            cs.subrange(k, e - 1),
            q,
        ),
        quote_scan(cs, k, q) matches Err(e) ==> k <= e <= cs.len(),
    decreases cs.len() - k,
{
    if k < cs.len() {
        if cs[k] == q {
            assert(cs.subrange(k, k) =~= Seq::<char>::empty());
        } else if cs[k] == '\\' {
            if k + 1 < cs.len() && cs[k + 1] != '\n' {
                lemma_quote_scan(cs, k + 2, q);
                if let Ok(e) = quote_scan(cs, k + 2, q) {
                    let t = cs.subrange(k, e - 1);
                    assert(t.skip(2) =~= cs.subrange(k + 2, e - 1));
                    assert(t[0] == cs[k]);
                    assert(t[1] == cs[k + 1]);
                }
            }
        } else {
            lemma_quote_scan(cs, k + 1, q);
            if let Ok(e) = quote_scan(cs, k + 1, q) {
                let t = cs.subrange(k, e - 1);
                assert(t.skip(1) =~= cs.subrange(k + 1, e - 1));
                assert(t[0] == cs[k]);
            }
        }
    }
}

/// A quoted body followed by the quote is exactly what the scan reads.
proof fn lemma_quoted_scans(cs: Seq<char>, k: int, e: int, q: char)
    requires
        0 <= k < e <= cs.len(),
        q != '\\',
        cs[e - 1] == q,
        quoted_body(cs.subrange(k, e - 1), q),
    ensures
        quote_scan(cs, k, q) == Ok::<int, int>(e),
    decreases e - k,
{
    let t = cs.subrange(k, e - 1);
    if k == e - 1 {
        assert(cs[k] == q);
    } else {
        assert(t[0] == cs[k]);
        if cs[k] == '\\' {
            assert(t.len() >= 2 && t[1] != '\n');
            assert(t[1] == cs[k + 1]);
            assert(t.skip(2) =~= cs.subrange(k + 2, e - 1));
            lemma_quoted_scans(cs, k + 2, e, q);
        } else {
            assert(t[0] != q);
            assert(t.skip(1) =~= cs.subrange(k + 1, e - 1));
            lemma_quoted_scans(cs, k + 1, e, q);
        }
    }
}

/// Scans the body of a string literal quoted by `q` from `k`.
fn quote_end(cs: &Vec<char>, k: usize, q: char) -> (r: Result<usize, usize>)
    requires
        k <= cs.len(),
    ensures
        match r {
            Ok(e) => quote_scan(cs@, k as int, q) == Ok::<int, int>(e as int),
            Err(e) => quote_scan(cs@, k as int, q) == Err::<int, int>(e as int),
        },
{
    let mut p = k;
    while p < cs.len()
        invariant
            k <= p <= cs.len(),
            quote_scan(cs@, p as int, q) == quote_scan(cs@, k as int, q),
        decreases cs.len() - p,
    {
        let c = cs[p];
        if c == q {
            return Ok(p + 1);
        } else if c == '\\' {
            if cs.len() - p > 1 && cs[p + 1] != '\n' {
                p += 2;
            } else {
                return Err(p + 1);
            }
        } else {
            p += 1;
        }
    }
    Err(cs.len())
}

/// A quote at `i`: a string literal, or an unterminated one.
fn scan_quoted(cs: &Vec<char>, i: usize) -> (r: (usize, Option<Token>))
    requires
        i < cs.len(),
        cs@[i as int] == '"' || cs@[i as int] == '\'',
    ensures
        scanned(cs@, i as int, r.0 as int, r.1),
{
    let q = cs[i];
    let ghost other = if q == '"' { '\'' } else { '"' };
    proof {
        lemma_quote_scan(cs@, i + 1, q);
    }
    match quote_end(cs, i + 1, q) {
        Ok(e) => {
            let ghost s = cs@.subrange(i as int, e as int);
            proof {
                assert(s.subrange(1, s.len() - 1) =~= cs@.subrange(i + 1, e - 1));
                assert(quoted(s, q));
                assert forall|m2: int| e - i < m2 && i + m2 <= cs.len() implies !is_lexeme(
                    #[trigger] cs@.subrange(i as int, i + m2),
                ) by {
                    let u = cs@.subrange(i as int, i + m2);
                    lemma_first_char(u);
                    if quoted(u, q) {
                        assert(u.subrange(1, u.len() - 1) =~= cs@.subrange(i + 1, i + m2 - 1));
                        lemma_quoted_scans(cs@, i + 1, i + m2, q);
                    }
                }
                lemma_first_char(s);
            }
            let x = unescape_chars(cs, i + 1, e - 1);
            proof {
                assert(cs@.subrange(i + 1, e - 1) =~= s.subrange(1, s.len() - 1));
            }
            (e - i, Some(Token::StringLiteral(x)))
        },
        Err(e) => {
            proof {
                assert forall|m: int| 1 <= m && i + m <= cs.len() implies !is_lexeme(
                    #[trigger] cs@.subrange(i as int, i + m),
                ) by {
                    let u = cs@.subrange(i as int, i + m);
                    lemma_first_char(u);
                    if quoted(u, q) {
                        assert(u.subrange(1, u.len() - 1) =~= cs@.subrange(i + 1, i + m - 1));
                        lemma_quoted_scans(cs@, i + 1, i + m, q);
                    }
                }
            }
            (e - i, None)
        },
    }
}

/// One step of the lexer at `i`: the length of the input it reads and the
/// token, if any, that this input produces.
pub fn scan_at(cs: &Vec<char>, i: usize) -> (r: (usize, Option<Token>))
    requires
        i < cs.len(),
    ensures
        scanned(cs@, i as int, r.0 as int, r.1),
        1 <= r.0 <= cs.len() - i,
{
    let c = cs[i];
    let r = if is_space_char(c) {
        scan_space(cs, i)
    } else if is_ident_start_char(c) {
        scan_word(cs, i)
    } else if is_digit_char(c) {
        scan_number(cs, i)
    } else if c == '-' {
        scan_dash(cs, i)
    } else if c == '[' {
        scan_bracket(cs, i)
    } else if c == '<' {
        scan_angle(cs, i)
    } else if c == ':' {
        scan_colon(cs, i)
    } else if c == '"' || c == '\'' {
        scan_quoted(cs, i)
    } else if c == '.' {
        scan_dot(cs, i)
    } else {
        scan_symbol(cs, i)
    };
    proof {
        if !is_longest(cs@, i as int, r.0 as int) {
            lemma_quote_scan(cs@, i + 1, c);
        }
    }
    r
}

} // verus!