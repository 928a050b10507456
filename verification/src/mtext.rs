//! Decoding of the inline formatting codes of CAD text (MTEXT) into the
//! plain text that the viewer draws.
use vstd::prelude::*;

use crate::text::{chars_of, push_char};

verus! {

/// The value of a hexadecimal digit, or -1.
pub open spec fn hex_value(c: char) -> int {
    if '0' <= c && c <= '9' {
        c as int - '0' as int
    } else if 'a' <= c && c <= 'f' {
        c as int - 'a' as int + 10
    } else if 'A' <= c && c <= 'F' {
        c as int - 'A' as int + 10
    } else {
        -1
    }
}

pub open spec fn is_hex(c: char) -> bool {
    hex_value(c) >= 0
}

/// The number that four characters spell in base 16, as
/// `u32::from_str_radix` reads them: four hex digits, or `+` and three.
pub open spec fn hex4(a: char, b: char, c: char, d: char) -> Option<u32> {
    if a == '+' {
        if is_hex(b) && is_hex(c) && is_hex(d) {
            Some((hex_value(b) * 256 + hex_value(c) * 16 + hex_value(d)) as u32)
        } else {
            None
        }
    } else if is_hex(a) && is_hex(b) && is_hex(c) && is_hex(d) {
        Some((hex_value(a) * 4096 + hex_value(b) * 256 + hex_value(c) * 16 + hex_value(d)) as u32)
    } else {
        None
    }
}

/// A Unicode scalar value: a code point that is not a surrogate.
pub open spec fn is_scalar(v: u32) -> bool {
    v <= 0x10FFFF && !(0xD800 <= v && v <= 0xDFFF)
}

/// The character of a `\U+XXXX` escape starting at `i`, if there is a valid one.
pub open spec fn unicode_escape(cs: Seq<char>, i: int) -> Option<char> {
    if 0 <= i && i + 6 < cs.len() && cs[i] == '\\' && cs[i + 1] == 'U' && cs[i + 2] == '+' {
        match hex4(cs[i + 3], cs[i + 4], cs[i + 5], cs[i + 6]) {
            Some(v) => if is_scalar(v) {
                Some(v as char)
            } else {
                None
            },
            None => None,
        }
    } else {
        None
    }
}

/// Codes that take an argument closed by `;` (font, height, stacking, ...).
pub open spec fn is_argument_code(c: char) -> bool {
    c == 'A' || c == 'C' || c == 'F' || c == 'f' || c == 'H' || c == 'Q' || c == 'S' || c == 'T'
        || c == 'W' || c == 'p'
}

/// Underline and overline toggles.
pub open spec fn is_toggle_code(c: char) -> bool {
    c == 'L' || c == 'l' || c == 'O' || c == 'o'
}

/// The index of the first `;` at or after `j`, or the length when there is none.
pub open spec fn semicolon_from(cs: Seq<char>, j: int) -> int
    decreases cs.len() - j,
{
    if j >= cs.len() {
        cs.len() as int
    } else if cs[j] == ';' {
        j
    } else {
        semicolon_from(cs, j + 1)
    }
}

/// Stacked text (`\S1^2;`) drawn inline, with `^` and `#` shown as `/`.
pub open spec fn stack_char(c: char) -> char {
    if c == '^' || c == '#' {
        '/'
    } else {
        c
    }
}

pub open spec fn stacked(cs: Seq<char>, from: int, to: int) -> Seq<char> {
    cs.subrange(from, to).map_values(|c: char| stack_char(c))
}

/// The plain text of `cs` from index `i` on: escapes become their character,
/// argument codes vanish (stacked text stays, with `/`), toggles vanish,
/// `\P` is a line break, `\~` a space, braces vanish; a backslash that starts
/// none of these stays as it is.
pub open spec fn decoded_from(cs: Seq<char>, i: int) -> Seq<char>
    decreases cs.len() - i,
{
    if i < 0 || i >= cs.len() {
        Seq::empty()
    } else if cs[i] == '\\' && i + 1 < cs.len() {
        let next = cs[i + 1];
        let j = semicolon_from(cs, i + 2);
        if unicode_escape(cs, i) is Some {
            seq![unicode_escape(cs, i)->0] + decoded_from(cs, i + 7)
        } else if is_argument_code(next) && j < cs.len() {
            proof {
                lemma_semicolon_from(cs, i + 2);
            }
            (if next == 'S' {
                stacked(cs, i + 2, j)
            } else {
                Seq::empty()
            }) + decoded_from(cs, j + 1)
        } else if is_toggle_code(next) {
            decoded_from(cs, i + 2)
        } else if next == 'P' {
            seq!['\n'] + decoded_from(cs, i + 2)
        } else if next == '~' {
            seq![' '] + decoded_from(cs, i + 2)
        } else {
            seq!['\\'] + decoded_from(cs, i + 1)
        }
    } else if cs[i] == '{' || cs[i] == '}' {
        decoded_from(cs, i + 1)
    } else {
        seq![cs[i]] + decoded_from(cs, i + 1)
    }
}

pub open spec fn decoded(s: Seq<char>) -> Seq<char> {
    decoded_from(s, 0)
}

pub proof fn lemma_semicolon_from(cs: Seq<char>, j: int)
    requires
        0 <= j,
    ensures
        j <= semicolon_from(cs, j) <= cs.len() || (j > cs.len() && semicolon_from(cs, j) == cs.len()),
        semicolon_from(cs, j) < cs.len() ==> cs[semicolon_from(cs, j)] == ';',
        forall|k: int| j <= k < semicolon_from(cs, j) ==> cs[k] != ';',
    decreases cs.len() - j,
{
    if j < cs.len() && cs[j] != ';' {
        lemma_semicolon_from(cs, j + 1);
    }
}

/// The value of a hexadecimal digit.
fn hex_digit(c: char) -> (r: Option<u32>)
    ensures
        r is Some <==> is_hex(c),
        r is Some ==> r->0 == hex_value(c),
{
    if '0' <= c && c <= '9' {
        Some((c as u32) - ('0' as u32))
    } else if 'a' <= c && c <= 'f' {
        Some((c as u32) - ('a' as u32) + 10)
    } else if 'A' <= c && c <= 'F' {
        Some((c as u32) - ('A' as u32) + 10)
    } else {
        None
    }
}

fn parse_hex4(a: char, b: char, c: char, d: char) -> (r: Option<u32>)
    ensures
        r == hex4(a, b, c, d),
{
    if a == '+' {
        match (hex_digit(b), hex_digit(c), hex_digit(d)) {
            (Some(y), Some(z), Some(w)) => Some(y * 256 + z * 16 + w),
            _ => None,
        }
    } else {
        match (hex_digit(a), hex_digit(b), hex_digit(c), hex_digit(d)) {
            (Some(x), Some(y), Some(z), Some(w)) => Some(x * 4096 + y * 256 + z * 16 + w),
            _ => None,
        }
    }
}

/// The character with the given code (`char::from_u32`).
#[verifier::external_body]
fn char_from_u32(v: u32) -> (r: Option<char>)
    ensures
        r == if is_scalar(v) {
            Some(v as char)
        } else {
            None
        },
{
    char::from_u32(v)
}

/// The first `;` at or after `j`, or the length.
fn find_semicolon(cs: &Vec<char>, j: usize) -> (k: usize)
    requires
        j <= cs.len(),
    ensures
        k == semicolon_from(cs@, j as int),
{
    let mut k = j;
    while k < cs.len() && cs[k] != ';'
        invariant
            j <= k <= cs.len(),
            semicolon_from(cs@, j as int) == semicolon_from(cs@, k as int),
        decreases cs.len() - k,
    {
        k = k + 1;
    }
    k
}

/// The plain text of a CAD text value, without its formatting codes.
pub fn decode_cad_text(raw: &str) -> (out: String)
    ensures
        out@ == decoded(raw@),
{
    let cs = chars_of(raw);
    let ghost s = cs@;
    let mut out = String::new();
    let mut i: usize = 0;
    while i < cs.len()
        invariant
            s == cs@,
            s == raw@,
            i <= cs.len(),
            out@ + decoded_from(s, i as int) == decoded(s),
        decreases cs.len() - i,
    {
        let ch = cs[i];
        if ch == '\\' && i + 1 < cs.len() {
            let next = cs[i + 1];
            if next == 'U' && cs.len() - i > 6 && cs[i + 2] == '+' {
                if let Some(v) = parse_hex4(cs[i + 3], cs[i + 4], cs[i + 5], cs[i + 6]) {
                    if let Some(c) = char_from_u32(v) {
                        proof {
                            assert(unicode_escape(s, i as int) == Some(c));
                            assert(out@.push(c) + decoded_from(s, i + 7) == out@ + (seq![c] + decoded_from(s, i + 7)));
                        }
                        push_char(&mut out, c);
                        i = i + 7;
                        continue;
                    }
                }
            }
            assert(unicode_escape(s, i as int) is None);
            if next == 'A' || next == 'C' || next == 'F' || next == 'f' || next == 'H' || next == 'Q'
                || next == 'S' || next == 'T' || next == 'W' || next == 'p' {
                let j = find_semicolon(&cs, i + 2);
                if j < cs.len() {
                    proof {
                        lemma_semicolon_from(s, i + 2);
                    }
                    if next == 'S' {
                        let ghost before = out@;
                        let mut k = i + 2;
                        while k < j
                            invariant
                                s == cs@,
                                i + 2 <= k <= j < cs.len(),
                                out@ == before + stacked(s, i + 2, k as int),
                            decreases j - k,
                        {
                            let c = cs[k];
                            let shown = if c == '^' || c == '#' {
                                '/'
                            } else {
                                c
                            };
                            push_char(&mut out, shown);
                            assert(stacked(s, i + 2, k + 1) =~= stacked(s, i + 2, k as int).push(shown));
                            k = k + 1;
                        }
                        assert(out@ + decoded_from(s, j + 1) =~= before + (stacked(s, i + 2, j as int) + decoded_from(s, j + 1)));
                    } else {
                        assert(decoded_from(s, i as int) == decoded_from(s, j + 1));
                    }
                    i = j + 1;
                    continue;
                }
            }
            if next == 'L' || next == 'l' || next == 'O' || next == 'o' {
                i = i + 2;
                continue;
            }
            if next == 'P' {
                assert(out@.push('\n') + decoded_from(s, i + 2) == out@ + (seq!['\n'] + decoded_from(s, i + 2)));
                push_char(&mut out, '\n');
                i = i + 2;
                continue;
            }
            if next == '~' {
                assert(out@.push(' ') + decoded_from(s, i + 2) == out@ + (seq![' '] + decoded_from(s, i + 2)));
                push_char(&mut out, ' ');
                i = i + 2;
                continue;
            }
        }
        if ch == '{' || ch == '}' {
            i = i + 1;
            continue;
        }
        assert(out@.push(ch) + decoded_from(s, i + 1) == out@ + (seq![ch] + decoded_from(s, i + 1)));
        push_char(&mut out, ch);
        i = i + 1;
    }
    assert(out@ + decoded_from(s, i as int) == out@);
    out
}

proof fn lemma_plain_from(s: Seq<char>, i: int)
    requires
        0 <= i <= s.len(),
        forall|k: int| 0 <= k < s.len() ==> s[k] != '\\' && s[k] != '{' && s[k] != '}',
    ensures
        decoded_from(s, i) == s.skip(i),
    decreases s.len() - i,
{
    if i < s.len() {
        lemma_plain_from(s, i + 1);
        assert(s.skip(i) =~= seq![s[i]] + s.skip(i + 1));
    } else {
        assert(s.skip(i) =~= Seq::<char>::empty());
    }
}

/// Text without backslashes and braces has no formatting codes: it is
/// drawn as it is.
pub proof fn law_plain_text_unchanged(s: Seq<char>)
    requires
        forall|k: int| 0 <= k < s.len() ==> s[k] != '\\' && s[k] != '{' && s[k] != '}',
    ensures
        decoded(s) == s,
{
    lemma_plain_from(s, 0);
    assert(s.skip(0) =~= s);
}

proof fn lemma_semicolon_shift(p: Seq<char>, r: Seq<char>, j: int)
    requires
        0 <= j,
    ensures
        semicolon_from(p + r, p.len() + j) == p.len() + semicolon_from(r, j),
    decreases r.len() - j,
{
    if j < r.len() {
        assert((p + r)[p.len() + j] == r[j]);
        lemma_semicolon_shift(p, r, j + 1);
    }
}

/// Decoding text from a point on depends only on the text from there on.
proof fn lemma_decoded_shift(p: Seq<char>, r: Seq<char>, k: int)
    requires
        0 <= k,
    ensures
        decoded_from(p + r, p.len() + k) == decoded_from(r, k),
    decreases r.len() - k,
{
    let cs = p + r;
    let i = p.len() + k;
    if k < r.len() {
        assert forall|m: int| 0 <= m < r.len() implies #[trigger] cs[p.len() + m] == r[m] by {}
        assert(unicode_escape(cs, i) == unicode_escape(r, k));
        lemma_semicolon_shift(p, r, k + 2);
        lemma_semicolon_from(r, k + 2);
        let j = semicolon_from(r, k + 2);
        if j < r.len() {
            assert(cs.subrange(i + 2, p.len() + j) =~= r.subrange(k + 2, j));
            lemma_decoded_shift(p, r, j + 1);
        }
        if k + 7 <= r.len() {
            lemma_decoded_shift(p, r, k + 7);
        }
        if k + 2 <= r.len() {
            lemma_decoded_shift(p, r, k + 2);
        }
        lemma_decoded_shift(p, r, k + 1);
    }
}

/// The first `;` after an argument that holds none is the one closing it.
proof fn lemma_closing_semicolon(x: char, arg: Seq<char>, rest: Seq<char>)
    requires
        forall|m: int| 0 <= m < arg.len() ==> arg[m] != ';',
    ensures
        ({
            let cs = seq!['\\', x] + arg + seq![';'] + rest;
            semicolon_from(cs, 2) == arg.len() + 2
        }),
{
    let head = seq!['\\', x] + arg + seq![';'];
    let cs = head + rest;
    lemma_semicolon_shift(head, rest, 0);
    lemma_semicolon_from(cs, 2);
    let n = semicolon_from(cs, 2);
    assert(cs[arg.len() as int + 2] == ';');
    if n < arg.len() + 2 {
        assert(cs[n] == arg[n - 2]);
    }
}

/// The codes that carry an argument closed by `;` are dropped with their
/// argument: alignment `\A`, colour `\C`, font `\F` and `\f`, height `\H`,
/// obliquing `\Q`, tracking `\T`, width `\W` and paragraph `\p`.
pub proof fn law_argument_codes_dropped(x: char, arg: Seq<char>, rest: Seq<char>)
    requires
        x == 'A' || x == 'C' || x == 'F' || x == 'f' || x == 'H' || x == 'Q' || x == 'T' || x == 'W'
            || x == 'p',
        forall|m: int| 0 <= m < arg.len() ==> arg[m] != ';',
    ensures
        decoded(seq!['\\', x] + arg + seq![';'] + rest) == decoded(rest),
{
    let head = seq!['\\', x] + arg + seq![';'];
    let cs = head + rest;
    assert(seq!['\\', x] + arg + seq![';'] + rest == cs);
    lemma_closing_semicolon(x, arg, rest);
    lemma_decoded_shift(head, rest, 0);
    assert(cs[0] == '\\' && cs[1] == x);
}

/// Stacked text `\S...;` keeps its argument, with `^` and `#` drawn as `/`.
pub proof fn law_stacked_text_inline(arg: Seq<char>, rest: Seq<char>)
    requires
        forall|m: int| 0 <= m < arg.len() ==> arg[m] != ';',
    ensures
        decoded(seq!['\\', 'S'] + arg + seq![';'] + rest) == arg.map_values(
            |c: char|
                if c == '^' || c == '#' {
                    '/'
                } else {
                    c
                },
        ) + decoded(rest),
{
    let head = seq!['\\', 'S'] + arg + seq![';'];
    let cs = head + rest;
    assert(seq!['\\', 'S'] + arg + seq![';'] + rest == cs);
    lemma_closing_semicolon('S', arg, rest);
    lemma_decoded_shift(head, rest, 0);
    assert(cs[0] == '\\' && cs[1] == 'S');
    assert(cs.subrange(2, arg.len() as int + 2) =~= arg);
    assert(stacked(cs, 2, arg.len() as int + 2) =~= arg.map_values(
        |c: char|
            if c == '^' || c == '#' {
                '/'
            } else {
                c
            },
    ));
}

/// The two-character codes: underline and overline toggles `\L`, `\l`,
/// `\O`, `\o` vanish, `\P` is a line break and `\~` a space.
pub proof fn law_short_codes(x: char, rest: Seq<char>)
    ensures
        (x == 'L' || x == 'l' || x == 'O' || x == 'o') ==> decoded(seq!['\\', x] + rest) == decoded(rest),
        x == 'P' ==> decoded(seq!['\\', x] + rest) == seq!['\n'] + decoded(rest),
        x == '~' ==> decoded(seq!['\\', x] + rest) == seq![' '] + decoded(rest),
{
    let head = seq!['\\', x];
    let cs = head + rest;
    lemma_decoded_shift(head, rest, 0);
    assert(cs[0] == '\\' && cs[1] == x);
}

/// Braces vanish; any other character but a backslash is drawn as it is.
pub proof fn law_braces_and_plain_characters(c: char, rest: Seq<char>)
    ensures
        (c == '{' || c == '}') ==> decoded(seq![c] + rest) == decoded(rest),
        (c != '{' && c != '}' && c != '\\') ==> decoded(seq![c] + rest) == seq![c] + decoded(rest),
{
    lemma_decoded_shift(seq![c], rest, 0);
    assert((seq![c] + rest)[0] == c);
}

/// A backslash before a character that starts no code is drawn as it is,
/// and so is one that ends the text.
pub proof fn law_unknown_backslash_kept(x: char, rest: Seq<char>)
    requires
        !(x == 'A' || x == 'C' || x == 'F' || x == 'f' || x == 'H' || x == 'Q' || x == 'S' || x == 'T'
            || x == 'W' || x == 'p'),
        !(x == 'L' || x == 'l' || x == 'O' || x == 'o' || x == 'P' || x == '~' || x == 'U'),
    ensures
        decoded(seq!['\\', x] + rest) == seq!['\\'] + decoded(seq![x] + rest),
        decoded(seq!['\\']) == seq!['\\'],
{
    let cs = seq!['\\', x] + rest;
    assert(cs[0] == '\\' && cs[1] == x);
    assert(cs =~= seq!['\\'] + (seq![x] + rest));
    lemma_decoded_shift(seq!['\\'], seq![x] + rest, 0);
    assert(decoded_from(seq!['\\'], 1) == Seq::<char>::empty());
}

/// `\U+XXXX` with four hexadecimal digits that name a character (not a
/// surrogate) is that character.
pub proof fn law_unicode_escape(a: char, b: char, c: char, d: char, rest: Seq<char>)
    requires
        is_hex(a) && is_hex(b) && is_hex(c) && is_hex(d),
        !(0xD800 <= hex_value(a) * 4096 + hex_value(b) * 256 + hex_value(c) * 16 + hex_value(d) <= 0xDFFF),
    ensures
        decoded(seq!['\\', 'U', '+', a, b, c, d] + rest)
            == seq![(hex_value(a) * 4096 + hex_value(b) * 256 + hex_value(c) * 16 + hex_value(d)) as char]
            + decoded(rest),
{
    let head = seq!['\\', 'U', '+', a, b, c, d];
    let cs = head + rest;
    lemma_decoded_shift(head, rest, 0);
    assert(cs[0] == '\\' && cs[1] == 'U' && cs[2] == '+' && cs[3] == a && cs[4] == b && cs[5] == c && cs[6] == d);
    assert(hex_value(a) < 16 && hex_value(b) < 16 && hex_value(c) < 16 && hex_value(d) < 16);
}

} // verus!
