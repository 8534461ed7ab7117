//! Escape handling for quoted string literals and recognition of Lua long
//! brackets (`[[ ... ]]`, `[==[ ... ]==]`).
use vstd::prelude::*;
use crate::text::{chars_of, push_char};
use crate::lexer::grammar::{is_digit, is_hex_digit, hex_digit_value, decimal_value, hex_value};
use vstd::utf8::*;
use vstd::string::*;

verus! {

/// A character that `\z` skips.
pub open spec fn is_escape_space(c: char) -> bool {
    c == ' ' || c == '\t' || c == '\n' || c == '\r' || c == '\x0b' || c == '\x0c'
}

/// The number of characters that `\z` skips in `s` from `k` on.
pub open spec fn space_len(s: Seq<char>, k: int) -> int
    decreases s.len() - k,
{
    if 0 <= k < s.len() && is_escape_space(s[k]) {
        1 + space_len(s, k + 1)
    } else {
        0
    }
}

/// The number of hexadecimal digits in `s` from `k` on.
pub open spec fn hex_len(s: Seq<char>, k: int) -> int
    decreases s.len() - k,
{
    if 0 <= k < s.len() && is_hex_digit(s[k]) {
        1 + hex_len(s, k + 1)
    } else {
        0
    }
}

/// How many of the (at most three) characters after the backslash of a
/// decimal escape `\ddd` in `s` are digits; `s[1]` is one.
pub open spec fn decimal_escape_len(s: Seq<char>) -> int {
    if s.len() > 3 && is_digit(s[2]) && is_digit(s[3]) {
        3
    } else if s.len() > 2 && is_digit(s[2]) {
        2
    } else {
        1
    }
}

/// `v` is the code of a character.
pub open spec fn is_scalar(v: int) -> bool {
    0 <= v <= 0x10FFFF && !(0xD800 <= v <= 0xDFFF)
}

/// The character that a one-letter escape `\c` stands for, if `c` names one.
pub open spec fn letter_escape(c: char) -> Option<char> {
    if c == 'a' {
        Some('\x07')
    } else if c == 'b' {
        Some('\x08')
    } else if c == 'f' {
        Some('\x0c')
    } else if c == 'n' {
        Some('\n')
    } else if c == 'r' {
        Some('\r')
    } else if c == 't' {
        Some('\t')
    } else if c == 'v' {
        Some('\x0b')
    } else {
        None
    }
}

/// The escape sequence at the start of `s` (a backslash and at least one
/// more character): the character it stands for, if any, and its length.
///
/// `\a \b \f \n \r \t \v` are control characters; `\xXX` (two hexadecimal
/// digits) and `\ddd` (up to three decimal digits, at most 255) give the
/// character with that code; `\u{X...}` gives the character with that
/// hexadecimal code; `\z` stands for nothing and also skips the whitespace
/// after it. A backslash before any other character, or before a malformed
/// numeric escape, stands for that character.
pub open spec fn escape(s: Seq<char>) -> (Option<char>, int) {
    let c = s[1];
    if letter_escape(c) is Some {
        (letter_escape(c), 2)
    } else if c == 'x' {
        if s.len() >= 4 && is_hex_digit(s[2]) && is_hex_digit(s[3]) {
            (Some((16 * hex_digit_value(s[2]) + hex_digit_value(s[3])) as char), 4)
        } else {
            (Some('x'), 2)
        }
    } else if is_digit(c) {
        let k = decimal_escape_len(s);
        let v = decimal_value(s.subrange(1, 1 + k));
        if v <= 255 {
            (Some(v as char), 1 + k)
        } else {
            (Some(c), 2)
        }
    } else if c == 'z' {
        (None, 2 + space_len(s, 2))
    } else if c == 'u' {
        let h = hex_len(s, 3);
        if s.len() > 3 + h && s[2] == '{' && h >= 1 && s[3 + h] == '}' && is_scalar(
            hex_value(s.subrange(3, 3 + h)),
        ) {
            (Some(hex_value(s.subrange(3, 3 + h)) as char), 4 + h)
        } else {
            (Some('u'), 2)
        }
    } else {
        (Some(c), 2)
    }
}

/// The text that the body of a quoted literal denotes: each escape sequence
/// is replaced by what it stands for (see `escape`), a lone trailing `\`
/// disappears, and every other character stands for itself.
pub open spec fn unescaped(s: Seq<char>) -> Seq<char>
    decreases s.len(),
{
    if s.len() == 0 {
        Seq::empty()
    } else if s[0] == '\\' {
        if s.len() >= 2 {
            let (o, n) = escape(s);
            if 2 <= n <= s.len() {
                match o {
                    Some(c) => seq![c] + unescaped(s.skip(n)),
                    None => unescaped(s.skip(n)),
                }
            } else {
                Seq::empty()
            }
        } else {
            Seq::empty()
        }
    } else {
        seq![s[0]] + unescaped(s.skip(1))
    }
}

proof fn lemma_space_len(s: Seq<char>, k: int)
    requires
        0 <= k,
    ensures
        0 <= space_len(s, k),
        k <= s.len() ==> space_len(s, k) <= s.len() - k,
    decreases s.len() - k,
{
    if 0 <= k < s.len() && is_escape_space(s[k]) {
        lemma_space_len(s, k + 1);
    }
}

proof fn lemma_hex_len(s: Seq<char>, k: int)
    requires
        0 <= k,
    ensures
        0 <= hex_len(s, k),
    decreases s.len() - k,
{
    if 0 <= k < s.len() && is_hex_digit(s[k]) {
        lemma_hex_len(s, k + 1);
    }
}

/// An escape sequence takes at least two characters and no more than there
/// are.
pub proof fn lemma_escape_len(s: Seq<char>)
    requires
        s.len() >= 2,
        s[0] == '\\',
    ensures
        2 <= escape(s).1 <= s.len(),
{
    lemma_space_len(s, 2);
    lemma_hex_len(s, 3);
}

/// A run of `n` hexadecimal digits from `k` that ends the text or is
/// followed by another character has length `n`.
proof fn lemma_hex_run(s: Seq<char>, k: int, n: int)
    requires
        0 <= k,
        0 <= n,
        k + n <= s.len(),
        forall|q: int| k <= q < k + n ==> is_hex_digit(#[trigger] s[q]),
        k + n == s.len() || !is_hex_digit(s[k + n]),
    ensures
        hex_len(s, k) == n,
    decreases n,
{
    if n > 0 {
        lemma_hex_run(s, k + 1, n - 1);
    }
}

/// A run of `n` whitespace characters from `k` that ends the text or is
/// followed by another character has length `n`.
proof fn lemma_space_run(s: Seq<char>, k: int, n: int)
    requires
        0 <= k,
        0 <= n,
        k + n <= s.len(),
        forall|q: int| k <= q < k + n ==> is_escape_space(#[trigger] s[q]),
        k + n == s.len() || !is_escape_space(s[k + n]),
    ensures
        space_len(s, k) == n,
    decreases n,
{
    if n > 0 {
        lemma_space_run(s, k + 1, n - 1);
    }
}

/// The one-letter escapes stand for Lua's control characters, and a
/// backslash, a quote or an apostrophe after a backslash stands for itself,
/// whatever follows; each takes two characters.
pub proof fn lemma_letter_escapes(rest: Seq<char>)
    ensures
        escape(seq!['\\', 'a'] + rest) == (Some('\x07'), 2int),
        escape(seq!['\\', 'b'] + rest) == (Some('\x08'), 2int),
        escape(seq!['\\', 'f'] + rest) == (Some('\x0c'), 2int),
        escape(seq!['\\', 'n'] + rest) == (Some('\n'), 2int),
        escape(seq!['\\', 'r'] + rest) == (Some('\r'), 2int),
        escape(seq!['\\', 't'] + rest) == (Some('\t'), 2int),
        escape(seq!['\\', 'v'] + rest) == (Some('\x0b'), 2int),
        escape(seq!['\\', '\\'] + rest) == (Some('\\'), 2int),
        escape(seq!['\\', '"'] + rest) == (Some('"'), 2int),
        escape(seq!['\\', '\''] + rest) == (Some('\''), 2int),
{
    assert((seq!['\\', 'a'] + rest)[1] == 'a');
    assert((seq!['\\', 'b'] + rest)[1] == 'b');
    assert((seq!['\\', 'f'] + rest)[1] == 'f');
    assert((seq!['\\', 'n'] + rest)[1] == 'n');
    assert((seq!['\\', 'r'] + rest)[1] == 'r');
    assert((seq!['\\', 't'] + rest)[1] == 't');
    assert((seq!['\\', 'v'] + rest)[1] == 'v');
    assert((seq!['\\', '\\'] + rest)[1] == '\\');
    assert((seq!['\\', '"'] + rest)[1] == '"');
    assert((seq!['\\', '\''] + rest)[1] == '\'');
}

/// `\xHH` gives the character whose code the two hexadecimal digits spell,
/// whatever follows.
pub proof fn lemma_hex_escape(h1: char, h2: char, rest: Seq<char>)
    requires
        is_hex_digit(h1),
        is_hex_digit(h2),
    ensures
        escape(seq!['\\', 'x', h1, h2] + rest) == (
            Some((16 * hex_digit_value(h1) + hex_digit_value(h2)) as char),
            4int,
        ),
{
    let s = seq!['\\', 'x', h1, h2] + rest;
    assert(s[1] == 'x' && s[2] == h1 && s[3] == h2);
}

/// `\d`, `\dd` and `\ddd` give the character whose code the decimal digits
/// spell, when it is at most 255; at most three digits are read.
pub proof fn lemma_decimal_escape(a: char, b: char, c: char, rest: Seq<char>)
    requires
        is_digit(a),
    ensures
        (rest.len() == 0 || !is_digit(rest[0])) ==> escape(seq!['\\', a] + rest) == (
            Some((a as int - '0' as int) as char),
            2int,
        ),
        is_digit(b) && (rest.len() == 0 || !is_digit(rest[0])) ==> escape(
            seq!['\\', a, b] + rest,
        ) == (Some((10 * (a as int - '0' as int) + (b as int - '0' as int)) as char), 3int),
        is_digit(b) && is_digit(c) && 100 * (a as int - '0' as int) + 10 * (b as int - '0' as int)
            + (c as int - '0' as int) <= 255 ==> escape(seq!['\\', a, b, c] + rest) == (
            Some(
                (100 * (a as int - '0' as int) + 10 * (b as int - '0' as int) + (c as int
                    - '0' as int)) as char,
            ),
            4int,
        ),
{
    let s1 = seq!['\\', a] + rest;
    assert(s1[1] == a);
    if rest.len() > 0 {
        assert(s1[2] == rest[0]);
    }
    assert(s1.subrange(1, 2) =~= seq![a]);
    assert(seq![a].drop_last() =~= Seq::<char>::empty());
    assert(decimal_value(Seq::<char>::empty()) == 0);
    assert(decimal_value(seq![a]) == a as int - '0' as int);
    let s2 = seq!['\\', a, b] + rest;
    assert(s2[1] == a && s2[2] == b);
    if rest.len() > 0 {
        assert(s2[3] == rest[0]);
    }
    assert(s2.subrange(1, 3) =~= seq![a, b]);
    assert(seq![a, b].drop_last() =~= seq![a]);
    if is_digit(b) {
        assert(seq![a, b].last() == b);
        assert(decimal_value(seq![a, b]) == 10 * (a as int - '0' as int) + (b as int - '0' as int));
    }
    let s3 = seq!['\\', a, b, c] + rest;
    assert(s3[1] == a && s3[2] == b && s3[3] == c);
    assert(s3.subrange(1, 4) =~= seq![a, b, c]);
    assert(seq![a, b, c].drop_last() =~= seq![a, b]);
    if is_digit(b) && is_digit(c) {
        assert(seq![a, b, c].last() == c);
        assert(decimal_value(seq![a, b, c]) == 100 * (a as int - '0' as int) + 10 * (b as int
            - '0' as int) + (c as int - '0' as int));
    }
}

/// `\u{H...}` gives the character whose code the hexadecimal digits spell,
/// when that is the code of a character.
pub proof fn lemma_unicode_escape(hs: Seq<char>, rest: Seq<char>)
    requires
        hs.len() >= 1,
        forall|q: int| 0 <= q < hs.len() ==> is_hex_digit(#[trigger] hs[q]),
        is_scalar(hex_value(hs)),
    ensures
        escape(seq!['\\', 'u', '{'] + hs + seq!['}'] + rest) == (
            Some(hex_value(hs) as char),
            hs.len() + 4int,
        ),
{
    let s = seq!['\\', 'u', '{'] + hs + seq!['}'] + rest;
    assert(s[1] == 'u' && s[2] == '{');
    assert forall|q: int| 3 <= q < 3 + hs.len() implies is_hex_digit(#[trigger] s[q]) by {
        assert(s[q] == hs[q - 3]);
    }
    assert(s[3 + hs.len() as int] == '}');
    lemma_hex_run(s, 3, hs.len() as int);
    assert(s.subrange(3, 3 + hs.len() as int) =~= hs);
}

/// `\z` stands for nothing and skips all the whitespace after it.
pub proof fn lemma_z_escape(ws: Seq<char>, rest: Seq<char>)
    requires
        forall|q: int| 0 <= q < ws.len() ==> is_escape_space(#[trigger] ws[q]),
        rest.len() == 0 || !is_escape_space(rest[0]),
    ensures
        escape(seq!['\\', 'z'] + ws + rest) == (None::<char>, ws.len() + 2int),
{
    let s = seq!['\\', 'z'] + ws + rest;
    assert(s[1] == 'z');
    assert forall|q: int| 2 <= q < 2 + ws.len() implies is_escape_space(#[trigger] s[q]) by {
        assert(s[q] == ws[q - 2]);
    }
    if rest.len() > 0 {
        assert(s[2 + ws.len() as int] == rest[0]);
    }
    lemma_space_run(s, 2, ws.len() as int);
}

/// `u32`-valued hexadecimal digit value.
fn hex_digit_of(c: char) -> (d: u32)
    requires
        is_hex_digit(c),
    ensures
        d == hex_digit_value(c),
        d < 16,
{
    if '0' <= c && c <= '9' {
        c as u32 - '0' as u32
    } else if 'a' <= c && c <= 'f' {
        c as u32 - 'a' as u32 + 10
    } else {
        c as u32 - 'A' as u32 + 10
    }
}

/// The character with code `v`, if there is one; a thin wrapper over
/// `char::from_u32`.
///
/// Trusted: `char::from_u32` is documented to return the character with the
/// given code when the code is a Unicode scalar value (at most `0x10FFFF`,
/// and not a surrogate in `0xD800..=0xDFFF`), and `None` otherwise, which is
/// what the `ensures` clause states.
#[verifier::external_body]
fn char_from_code(v: u32) -> (r: Option<char>)
    ensures
        r == (if is_scalar(v as int) {
            Some(v as char)
        } else {
            None
        }),
{
    char::from_u32(v)
}

/// Decodes the escape sequence that starts at `cs[i]`, within `cs[..to]`:
/// what it stands for and its length.
fn decode_escape(cs: &Vec<char>, i: usize, to: usize) -> (r: (Option<char>, usize))
    requires
        i + 1 < to <= cs.len(),
        cs@[i as int] == '\\',
    ensures
        (r.0, r.1 as int) == escape(cs@.subrange(i as int, to as int)),
{
    let ghost s = cs@.subrange(i as int, to as int);
    assert(s[1] == cs@[i + 1]);
    let c = cs[i + 1];
    if c == 'a' {
        (Some('\x07'), 2)
    } else if c == 'b' {
        (Some('\x08'), 2)
    } else if c == 'f' {
        (Some('\x0c'), 2)
    } else if c == 'n' {
        (Some('\n'), 2)
    } else if c == 'r' {
        (Some('\r'), 2)
    } else if c == 't' {
        (Some('\t'), 2)
    } else if c == 'v' {
        (Some('\x0b'), 2)
    } else if c == 'x' {
        if to - i > 3 && is_hex(cs[i + 2]) && is_hex(cs[i + 3]) {
            assert(s[2] == cs@[i + 2] && s[3] == cs@[i + 3]);
            let v = 16 * hex_digit_of(cs[i + 2]) + hex_digit_of(cs[i + 3]);
            (char_from_code(v), 4)
        } else {
            proof {
                if s.len() >= 4 {
                    assert(s[2] == cs@[i + 2] && s[3] == cs@[i + 3]);
                }
            }
            (Some('x'), 2)
        }
    } else if '0' <= c && c <= '9' {
        let mut k: usize = 1;
        let mut v: u32 = c as u32 - '0' as u32;
        assert(s.subrange(1, 2) =~= seq![c]);
        assert(decimal_value(seq![c].drop_last()) == 0) by {
            assert(seq![c].drop_last() =~= Seq::<char>::empty());
        }
        while k < 3 && i + k + 1 < to && '0' <= cs[i + k + 1] && cs[i + k + 1] <= '9'
            invariant
                1 <= k <= 3,
                i + k < to,
                to <= cs.len(),
                s == cs@.subrange(i as int, to as int),
                forall|q: int| 1 <= q <= k ==> is_digit(#[trigger] s[q]),
                v == decimal_value(s.subrange(1, 1 + k)),
                v < 1000,
                k == 1 ==> v < 10,
                k == 2 ==> v < 100,
                k == 1 || (k == 2 && s.len() > 2 && is_digit(s[2])) || (k == 3 && s.len() > 3
                    && is_digit(s[2]) && is_digit(s[3])),
            decreases 3 - k,
        {
            let d = cs[i + k + 1];
            assert(s[k + 1] == d);
            let ghost t = s.subrange(1, 2 + k);
            assert(t.drop_last() =~= s.subrange(1, 1 + k));
            assert(t.last() == d);
            v = v * 10 + (d as u32 - '0' as u32);
            k += 1;
        }
        proof {
            if k == 1 && s.len() > 2 {
                assert(s[2] == cs@[i + 2]);
            }
            if k == 2 && s.len() > 3 {
                assert(s[3] == cs@[i + 3]);
            }
            assert(k == decimal_escape_len(s));
        }
        if v <= 255 {
            (char_from_code(v), 1 + k)
        } else {
            (Some(c), 2)
        }
    } else if c == 'z' {
        let mut j: usize = i + 2;
        while j < to && is_escape_space_char(cs[j])
            invariant
                i + 2 <= j <= to,
                to <= cs.len(),
                s == cs@.subrange(i as int, to as int),
                space_len(s, 2) == (j - i - 2) + space_len(s, j - i),
            decreases to - j,
        {
            assert(s[j - i] == cs@[j as int]);
            j += 1;
        }
        proof {
            if j < to {
                assert(s[j - i] == cs@[j as int]);
            }
        }
        (None, j - i)
    } else if c == 'u' {
        decode_unicode_escape(cs, i, to)
    } else {
        (Some(c), 2)
    }
}

fn is_hex(c: char) -> (b: bool)
    ensures
        b == is_hex_digit(c),
{
    ('0' <= c && c <= '9') || ('a' <= c && c <= 'f') || ('A' <= c && c <= 'F')
}

fn is_escape_space_char(c: char) -> (b: bool)
    ensures
        b == is_escape_space(c),
{
    c == ' ' || c == '\t' || c == '\n' || c == '\r' || c == '\x0b' || c == '\x0c'
}

/// Decodes a `\u{...}` escape that starts at `cs[i]`.
fn decode_unicode_escape(cs: &Vec<char>, i: usize, to: usize) -> (r: (Option<char>, usize))
    requires
        i + 1 < to <= cs.len(),
        cs@[i as int] == '\\',
        cs@[i + 1] == 'u',
    ensures
        (r.0, r.1 as int) == escape(cs@.subrange(i as int, to as int)),
{
    let ghost s = cs@.subrange(i as int, to as int);
    assert(s[1] == 'u');
    if !(i + 2 < to && cs[i + 2] == '{') {
        proof {
            if s.len() > 2 {
                assert(s[2] == cs@[i + 2]);
            }
        }
        return (Some('u'), 2);
    }
    assert(s[2] == '{');
    let mut j: usize = i + 3;
    let mut v: u64 = 0;
    let mut big = false;
    assert(s.subrange(3, 3) =~= Seq::<char>::empty());
    while j < to && is_hex(cs[j])
        invariant
            i + 3 <= j <= to,
            to <= cs.len(),
            s == cs@.subrange(i as int, to as int),
            hex_len(s, 3) == (j - i - 3) + hex_len(s, j - i),
            forall|q: int| 3 <= q < j - i ==> is_hex_digit(#[trigger] s[q]),
            big ==> hex_value(s.subrange(3, j - i)) > 0x10FFFF,
            !big ==> v == hex_value(s.subrange(3, j - i)) && v <= 0x10FFFF,
        decreases to - j,
    {
        let d = cs[j];
        assert(s[j - i] == d);
        let ghost t = s.subrange(3, j - i + 1);
        assert(t.drop_last() =~= s.subrange(3, j - i));
        assert(t.last() == d);
        let dv = hex_digit_of(d);
        if !big {
            v = v * 16 + dv as u64;
            if v > 0x10FFFF {
                big = true;
            }
        }
        j += 1;
    }
    proof {
        if j < to {
            assert(s[j - i] == cs@[j as int]);
        }
        assert(hex_len(s, j - i) == 0);
    }
    let h = j - (i + 3);
    if h >= 1 && j < to && cs[j] == '}' && !big {
        assert(s[3 + h] == cs@[j as int]);
        let r = char_from_code(v as u32);
        if r.is_some() {
            return (r, h + 4);
        }
    }
    proof {
        if j < to {
            assert(s[3 + h] == cs@[j as int]);
        }
    }
    (Some('u'), 2)
}

/// Decodes the escape sequences in `cs[from..to]`.
pub fn unescape_chars(cs: &Vec<char>, from: usize, to: usize) -> (out: String)
    requires
        from <= to <= cs.len(),
    ensures
        out@ == unescaped(cs@.subrange(from as int, to as int)),
{
    let ghost body = cs@.subrange(from as int, to as int);
    let mut out = String::new();
    let mut i: usize = from;
    assert(body.skip(0) =~= body);
    assert(out@ + unescaped(body) =~= unescaped(body));
    while i < to
        invariant
            from <= i <= to,
            to <= cs.len(),
            body == cs@.subrange(from as int, to as int),
            out@ + unescaped(body.skip(i - from)) == unescaped(body),
        decreases to - i,
    {
        let ghost rest = body.skip(i - from);
        assert(rest[0] == cs@[i as int]);
        let c = cs[i];
        if c == '\\' {
            if i + 1 < to {
                let (o, n) = decode_escape(cs, i, to);
                proof {
                    assert(rest =~= cs@.subrange(i as int, to as int));
                    lemma_escape_len(rest);
                    assert(rest.skip(n as int) =~= body.skip(i + n - from));
                }
                match o {
                    Some(e) => push_char(&mut out, e),
                    None => {},
                }
                i += n;
            } else {
                assert(unescaped(rest) == Seq::<char>::empty());
                assert(body.skip(i + 1 - from) =~= Seq::<char>::empty());
                i += 1;
            }
        } else {
            push_char(&mut out, c);
            assert(rest.skip(1) =~= body.skip(i + 1 - from));
            i += 1;
        }
        assert(out@ + unescaped(body.skip(i - from)) =~= unescaped(body));
    }
    assert(body.skip(i - from) =~= Seq::<char>::empty());
    assert(out@ + Seq::<char>::empty() =~= out@);
    out
}

/// Text without a backslash denotes itself.
pub proof fn lemma_unescaped_plain(s: Seq<char>)
    requires
        !s.contains('\\'),
    ensures
        unescaped(s) == s,
    decreases s.len(),
{
    if s.len() > 0 {
        assert(s[0] != '\\');
        assert forall|k: int| 0 <= k < s.skip(1).len() implies s.skip(1)[k] != '\\' by {
            assert(s.skip(1)[k] == s[k + 1]);
        }
        lemma_unescaped_plain(s.skip(1));
        assert(seq![s[0]] + s.skip(1) =~= s);
    }
}

/// The escaped form of a character: a backslash, a quote or a line break
/// becomes a backslash escape; any other character stands for itself.
pub open spec fn escape_text(c: char) -> Seq<char> {
    if c == '\\' {
        seq!['\\', '\\']
    } else if c == '\n' {
        seq!['\\', 'n']
    } else if c == '\r' {
        seq!['\\', 'r']
    } else if c == '\t' {
        seq!['\\', 't']
    } else if c == '"' {
        seq!['\\', '"']
    } else if c == '\'' {
        seq!['\\', '\'']
    } else {
        seq![c]
    }
}

/// The escaped form of a text, character by character.
pub open spec fn escaped(s: Seq<char>) -> Seq<char>
    decreases s.len(),
{
    if s.len() == 0 {
        Seq::empty()
    } else {
        escape_text(s[0]) + escaped(s.skip(1))
    }
}

/// Decoding stops at the end of an escaped text: an escaped text followed by
/// any text `b` decodes to the original text followed by the decoding of
/// `b`.
pub proof fn lemma_unescape_escaped_prefix(a: Seq<char>, b: Seq<char>)
    ensures
        unescaped(escaped(a) + b) == a + unescaped(b),
    decreases a.len(),
{
    if a.len() == 0 {
        assert(escaped(a) + b =~= b);
        assert(a + unescaped(b) =~= unescaped(b));
    } else {
        lemma_unescape_escaped_prefix(a.skip(1), b);
        let t = escaped(a.skip(1)) + b;
        let e = escaped(a) + b;
        let x = escape_text(a[0]);
        assert(e =~= x + t);
        if x.len() == 2 {
            assert(e[0] == '\\');
            assert(e.skip(2) =~= t);
        } else {
            assert(e.skip(1) =~= t);
        }
        assert(a =~= seq![a[0]] + a.skip(1));
        assert(seq![a[0]] + (a.skip(1) + unescaped(b)) =~= a + unescaped(b));
    }
}

/// Decoding undoes escaping.
pub proof fn lemma_unescape_escaped(a: Seq<char>)
    ensures
        unescaped(escaped(a)) == a,
{
    lemma_unescape_escaped_prefix(a, Seq::empty());
    assert(escaped(a) + Seq::<char>::empty() =~= escaped(a));
    assert(a + Seq::<char>::empty() =~= a);
}

/// Text without a backslash passes through decoding, and what follows it
/// decodes on its own.
pub proof fn lemma_unescaped_plain_prefix(a: Seq<char>, b: Seq<char>)
    requires
        !a.contains('\\'),
    ensures
        unescaped(a + b) == a + unescaped(b),
    decreases a.len(),
{
    if a.len() == 0 {
        assert(a + b =~= b);
        assert(a + unescaped(b) =~= unescaped(b));
    } else {
        assert(a[0] != '\\');
        assert forall|k: int| 0 <= k < a.skip(1).len() implies a.skip(1)[k] != '\\' by {
            assert(a.skip(1)[k] == a[k + 1]);
        }
        lemma_unescaped_plain_prefix(a.skip(1), b);
        assert((a + b)[0] == a[0]);
        assert((a + b).skip(1) =~= a.skip(1) + b);
        assert(seq![a[0]] + (a.skip(1) + unescaped(b)) =~= a + unescaped(b));
    }
}

/// Every escape sequence of `a`, read from the start, ends within `a` and
/// reads the same when `b` follows `a`: no escape runs past the join.
pub open spec fn escapes_end_within(a: Seq<char>, b: Seq<char>) -> bool
    decreases a.len(),
{
    if a.len() == 0 {
        true
    } else if a[0] == '\\' {
        let n = escape(a).1;
        &&& a.len() >= 2
        &&& escape(a + b) == escape(a)
        &&& 2 <= n <= a.len()
        &&& escapes_end_within(a.skip(n), b)
    } else {
        escapes_end_within(a.skip(1), b)
    }
}

/// Decoding distributes over a join that no escape runs past.
pub proof fn lemma_unescaped_concat(a: Seq<char>, b: Seq<char>)
    requires
        escapes_end_within(a, b),
    ensures
        unescaped(a + b) == unescaped(a) + unescaped(b),
    decreases a.len(),
{
    if a.len() == 0 {
        assert(a + b =~= b);
        assert(unescaped(a) + unescaped(b) =~= unescaped(b));
    } else if a[0] == '\\' {
        let n = escape(a).1;
        lemma_unescaped_concat(a.skip(n), b);
        assert((a + b)[0] == '\\');
        assert((a + b).skip(n) =~= a.skip(n) + b);
        match escape(a).0 {
            Some(c) => {
                assert(seq![c] + (unescaped(a.skip(n)) + unescaped(b)) =~= (seq![c] + unescaped(
                    a.skip(n),
                )) + unescaped(b));
            },
            None => {},
        }
    } else {
        lemma_unescaped_concat(a.skip(1), b);
        assert((a + b)[0] == a[0]);
        assert((a + b).skip(1) =~= a.skip(1) + b);
        assert(seq![a[0]] + (unescaped(a.skip(1)) + unescaped(b)) =~= (seq![a[0]] + unescaped(
            a.skip(1),
        )) + unescaped(b));
    }
}

/// `a` holds only escapes whose length does not depend on what follows: each
/// backslash, read from the start, is followed within `a` by a character
/// other than a digit, `x`, `z` or `u`.
pub open spec fn fixed_escapes(a: Seq<char>) -> bool
    decreases a.len(),
{
    if a.len() == 0 {
        true
    } else if a[0] == '\\' {
        a.len() >= 2 && !is_digit(a[1]) && a[1] != 'x' && a[1] != 'z' && a[1] != 'u'
            && fixed_escapes(a.skip(2))
    } else {
        fixed_escapes(a.skip(1))
    }
}

/// No escape of a text with only fixed-length escapes runs past its end,
/// whatever follows; so such a text and what follows decode apart.
pub proof fn lemma_fixed_escapes_end_within(a: Seq<char>, b: Seq<char>)
    requires
        fixed_escapes(a),
    ensures
        escapes_end_within(a, b),
        unescaped(a + b) == unescaped(a) + unescaped(b),
    decreases a.len(),
{
    if a.len() > 0 {
        if a[0] == '\\' {
            assert((a + b)[1] == a[1]);
            lemma_fixed_escapes_end_within(a.skip(2), b);
        } else {
            lemma_fixed_escapes_end_within(a.skip(1), b);
        }
    }
    lemma_unescaped_concat(a, b);
}

/// Decodes the escape sequences in the body of a quoted string literal.
/// Text without a backslash comes back unchanged.
pub fn unescape(inner: &str) -> (out: String)
    ensures
        out@ == unescaped(inner@),
        !inner@.contains('\\') ==> out@ == inner@,
{
    proof {
        if !inner@.contains('\\') {
            lemma_unescaped_plain(inner@);
        }
    }
    let cs = chars_of(inner);
    assert(cs@.subrange(0, cs@.len() as int) =~= cs@);
    unescape_chars(&cs, 0, cs.len())
}

/// The closing long bracket of level `n`: `]`, `n` equal signs, `]`.
pub open spec fn closing_bracket(n: nat) -> Seq<u8> {
    seq![93u8] + Seq::new(n, |i: int| 61u8) + seq![93u8]
}

/// `b` opens a long bracket of level `n`: `[`, `n` equal signs, `[`.
pub open spec fn opens_long_bracket(b: Seq<u8>, n: nat) -> bool {
    &&& b.len() >= n + 2
    &&& b[0] == 91u8
    &&& forall|k: int| 1 <= k <= n ==> b[k] == 61u8
    &&& b[n as int + 1] == 91u8
}

/// The closing bracket of level `n` occurs in `b` at byte offset `p`.
pub open spec fn closes_at(b: Seq<u8>, n: nat, p: int) -> bool {
    0 <= p && p + n + 2 <= b.len() && b.subrange(p, p + n + 2) == closing_bracket(n)
}

/// `b` starts with a long bracket of level `n` whose first closing bracket
/// is at `p`.
pub open spec fn long_bracket(b: Seq<u8>, n: nat, p: int) -> bool {
    &&& opens_long_bracket(b, n)
    &&& n + 2 <= p
    &&& closes_at(b, n, p)
    &&& forall|q: int| n + 2 <= q < p ==> !closes_at(b, n, q)
}

/// The opening long bracket of level `n`: `[`, `n` equal signs, `[`.
pub open spec fn opening_bracket(n: nat) -> Seq<u8> {
    seq![91u8] + Seq::new(n, |i: int| 61u8) + seq![91u8]
}

/// A text starts with at most one long bracket.
pub proof fn lemma_long_bracket_unique(b: Seq<u8>, n1: nat, p1: int, n2: nat, p2: int)
    requires
        long_bracket(b, n1, p1),
        long_bracket(b, n2, p2),
    ensures
        n1 == n2,
        p1 == p2,
{
    if n1 < n2 {
        assert(b[n1 as int + 1] == 61u8);
    } else if n2 < n1 {
        assert(b[n2 as int + 1] == 61u8);
    }
    if p1 < p2 {
        assert(!closes_at(b, n2, p1));
    } else if p2 < p1 {
        assert(!closes_at(b, n1, p2));
    }
}

/// Text after a long bracket changes nothing: what follows the closing
/// bracket may be replaced by any text `t`.
pub proof fn lemma_long_bracket_extend(b: Seq<u8>, n: nat, p: int, t: Seq<u8>)
    requires
        long_bracket(b, n, p),
    ensures
        long_bracket(b.subrange(0, p + n + 2) + t, n, p),
{
    let w = b.subrange(0, p + n + 2) + t;
    assert forall|k: int| 0 <= k < p + n + 2 implies w[k] == b[k] by {}
    assert(w.subrange(p, p + n + 2) =~= b.subrange(p, p + n + 2));
    assert forall|q: int| n + 2 <= q < p implies !closes_at(w, n, q) by {
        assert(!closes_at(b, n, q));
        assert(w.subrange(q, q + n + 2) =~= b.subrange(q, q + n + 2));
    }
}

/// Bracketing a content that holds no closing bracket of level `k` (not even
/// one that would run into the closing bracket itself) gives a long bracket
/// whose content is that content.
pub proof fn lemma_long_bracket_round_trip(k: nat, c: Seq<u8>)
    requires
        forall|q: int| 0 <= q < c.len() ==> !closes_at(c + closing_bracket(k), k, q),
    ensures
        ({
            let w = opening_bracket(k) + c + closing_bracket(k);
            &&& long_bracket(w, k, (k + 2 + c.len()) as int)
            &&& w.subrange(k + 2 as int, (k + 2 + c.len()) as int) == c
            &&& w.len() == 2 * k + 4 + c.len()
        }),
{
    let o = opening_bracket(k);
    let e = closing_bracket(k);
    let w = o + c + e;
    let p: int = (k + 2 + c.len()) as int;
    assert(o.len() == k + 2);
    assert(forall|i: int| 1 <= i <= k ==> o[i] == 61u8);
    assert forall|i: int| 1 <= i <= k implies w[i] == 61u8 by {
        assert(w[i] == o[i]);
    }
    assert(w[0] == o[0]);
    assert(w[k as int + 1] == o[k as int + 1]);
    assert(w.subrange(p, p + k + 2) =~= e);
    assert(w.subrange(k + 2 as int, p) =~= c);
    assert forall|q: int| k + 2 <= q < p implies !closes_at(w, k, q) by {
        assert(w.subrange(q, q + k + 2) =~= (c + e).subrange(q - k - 2, q - k - 2 + k + 2));
        assert(!closes_at(c + e, k, q - k - 2));
    }
}

/// A position right after an ASCII byte of valid UTF-8 is a character boundary.
proof fn lemma_boundary_after_ascii(b: Seq<u8>, k: int)
    requires
        valid_utf8(b),
        0 < k <= b.len(),
        b[k - 1] < 0x80,
    ensures
        is_char_boundary(b, k),
    decreases b.len(),
{
    reveal_with_fuel(is_char_boundary, 2);
    let w = length_of_first_scalar(b);
    if k < w {
        assert(valid_first_scalar(b));
        if k - 1 == 0 {
            assert(false);
        } else {
            assert(is_continuation_byte(b[k - 1]));
            assert(false);
        }
    } else if k == w {
        assert(valid_utf8(pop_first_scalar(b)));
    } else {
        let rest = pop_first_scalar(b);
        assert(rest[k - w - 1] == b[k - 1]);
        lemma_boundary_after_ascii(rest, k - w);
    }
}

/// Recognises a Lua long bracket at the start of `input`: `[`, `n` equal
/// signs, `[`, the content, and the first following `]`, `n` equal signs,
/// `]`. Returns the content and the number of bytes the whole bracket spans.
pub fn parse_long_string<'a>(input: &'a str) -> (r: Option<(&'a str, usize)>)
    ensures
        ({
            let b = input.spec_bytes();
            match r {
                Some((content, consumed)) => exists|n: nat, p: int|
                    {
                        &&& long_bracket(b, n, p)
                        &&& content.spec_bytes() == b.subrange(n as int + 2, p)
                        &&& consumed == p + n + 2
                    },
                None => forall|n: nat, p: int|
                    opens_long_bracket(b, n) && n + 2 <= p ==> !closes_at(b, n, p),
            }
        }),
{
    let bytes = input.as_bytes();
    let ghost b = input.spec_bytes();
    if bytes.len() < 2 || bytes[0] != 91u8 {
        return None;
    }
    let mut i: usize = 1;
    while i < bytes.len() && bytes[i] == 61u8
        invariant
            1 <= i <= bytes.len(),
            bytes@ == b,
            forall|k: int| 1 <= k < i ==> b[k] == 61u8,
        decreases bytes.len() - i,
    {
        i += 1;
    }
    if i >= bytes.len() || bytes[i] != 91u8 {
        proof {
            assert forall|n: nat, p: int| opens_long_bracket(b, n) && n + 2 <= p implies !closes_at(b, n, p) by {
                if n + 1 < i {
                    assert(b[n as int + 1] == 61u8);
                } else if n + 1 > i {
                    assert(b[i as int] == 61u8);
                }
            }
        }
        return None;
    }
    let open_len = i + 1;
    let ghost n: nat = (i - 1) as nat;
    assert(opens_long_bracket(b, n));
    let close_len = open_len;
    let mut p: usize = open_len;
    while close_len <= bytes.len() - p
        invariant
            p <= bytes.len(),
            b == input.spec_bytes(),
            open_len == n + 2,
            close_len == n + 2,
            open_len <= p,
            bytes@ == b,
            opens_long_bracket(b, n),
            forall|q: int| n + 2 <= q < p ==> !closes_at(b, n, q),
        decreases bytes.len() - p,
    {
        let mut j: usize = 0;
        let mut ok = true;
        while j < close_len
            invariant
                j <= close_len,
                close_len == n + 2,
                p + close_len <= bytes.len(),
                bytes@ == b,
                p + close_len <= b.len(),
                ok == (forall|k: int| 0 <= k < j ==> #[trigger] b[p + k] == closing_bracket(n)[k]),
            decreases close_len - j,
        {
            let want: u8 = if j == 0 || j + 1 == close_len { 93u8 } else { 61u8 };
            assert(want == closing_bracket(n)[j as int]);
            if bytes[p + j] != want {
                ok = false;
            }
            j += 1;
        }
        if ok {
            proof {
                assert(closing_bracket(n).len() == n + 2);
                assert forall|k: int| 0 <= k < n + 2 implies #[trigger] b.subrange(p as int, p + n + 2)[k]
                    == closing_bracket(n)[k] by {
                    assert(b[p + k] == closing_bracket(n)[k]);
                }
                assert(b.subrange(p as int, p + n + 2) =~= closing_bracket(n));
                let bs = b;
                encode_utf8_valid_utf8(input@);
                assert(bs == encode_utf8(input@));
                assert(valid_utf8(bs));
                lemma_boundary_after_ascii(bs, open_len as int);
            }
            let (_, rem) = input.split_at(open_len);
            proof {
                let rb = rem.spec_bytes();
                assert(rb =~= b.subrange(open_len as int, b.len() as int));
                assert(valid_utf8(rb)) by { encode_utf8_valid_utf8(rem@); }
                assert(b.subrange(p as int, p + n + 2)[0] == 93u8);
                assert(rb[p - open_len] == 93u8);
                is_char_boundary_iff_not_is_continuation_byte(rb, p - open_len);
            }
            let (content, _) = rem.split_at(p - open_len);
            proof {
                assert(content.spec_bytes() =~= b.subrange(n as int + 2, p as int));
                assert(closes_at(b, n, p as int));
                let pp = p as int;
                assert({
                    &&& opens_long_bracket(b, n)
                    &&& n + 2 <= pp
                    &&& closes_at(b, n, pp)
                    &&& forall|q: int| n + 2 <= q < pp ==> !closes_at(b, n, q)
                    &&& content.spec_bytes() == b.subrange(n as int + 2, pp)
                    &&& p + close_len == pp + n + 2
                });
                assert(long_bracket(b, n, pp));
            }
            return Some((content, p + close_len));
        }
        proof {
            assert(!closes_at(b, n, p as int)) by {
                if closes_at(b, n, p as int) {
                    let k = choose|k: int| 0 <= k < close_len && b[p + k] != closing_bracket(n)[k];
                    assert(b.subrange(p as int, p + n + 2)[k] == b[p + k]);
                }
            }
        }
        p += 1;
    }
    proof {
        assert forall|m: nat, q: int| opens_long_bracket(b, m) && m + 2 <= q implies !closes_at(b, m, q) by {
            if m + 1 < n + 1 {
                assert(b[m as int + 1] == 61u8);
            } else if m + 1 > n + 1 {
                assert(b[n as int + 1] == 61u8);
            }
        }
    }
    None
}

} // verus!
