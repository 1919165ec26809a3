//! Text-level primitives of the JSON grammar: whitespace, literals, numbers,
//! strings with their escapes, and a skipper for arbitrary values.
//!
//! Every parsing function exists twice: a specification function over a
//! `Seq<char>` that consumes a prefix and returns the remaining suffix, and
//! an executable twin over a character vector and a position, proved to
//! compute exactly what the specification function says.

use vstd::prelude::*;
use vstd::string::StrSliceExecFns;

verus! {

/// Nesting budget for skipping unknown values, as a recursion limit.
pub const SKIP_DEPTH: u32 = 128;

// ---------------------------------------------------------------------------
// character classes
// ---------------------------------------------------------------------------

pub open spec fn is_ws_char(c: char) -> bool {
    c == ' ' || c == '\t' || c == '\n' || c == '\r'
}

pub open spec fn is_digit(c: char) -> bool {
    48 <= (c as u32) <= 57
}

pub open spec fn digit_val(c: char) -> nat
    recommends
        is_digit(c),
{
    (((c as u32) - 48) as nat)
}

pub open spec fn is_hex(c: char) -> bool {
    is_digit(c) || (97 <= (c as u32) <= 102) || (65 <= (c as u32) <= 70)
}

pub open spec fn hex_val(c: char) -> nat
    recommends
        is_hex(c),
{
    if is_digit(c) {
        digit_val(c)
    } else if 97 <= (c as u32) <= 102 {
        (((c as u32) - 87) as nat)
    } else if 65 <= (c as u32) <= 70 {
        (((c as u32) - 55) as nat)
    } else {
        0
    }
}

fn ws_char(c: char) -> (r: bool)
    ensures
        r == is_ws_char(c),
{
    c == ' ' || c == '\t' || c == '\n' || c == '\r'
}

pub fn digit_char(c: char) -> (r: bool)
    ensures
        r == is_digit(c),
{
    let n = c as u32;
    48 <= n && n <= 57
}

fn hex_char(c: char) -> (r: bool)
    ensures
        r == is_hex(c),
{
    let n = c as u32;
    (48 <= n && n <= 57) || (97 <= n && n <= 102) || (65 <= n && n <= 70)
}

fn hex_char_val(c: char) -> (r: u32)
    requires
        is_hex(c),
    ensures
        r == hex_val(c),
        r < 16,
{
    let n = c as u32;
    if 48 <= n && n <= 57 {
        n - 48
    } else if 97 <= n && n <= 102 {
        n - 87
    } else {
        n - 55
    }
}

// ---------------------------------------------------------------------------
// whitespace
// ---------------------------------------------------------------------------

/// The suffix of `s` that remains after leading JSON whitespace.
pub open spec fn skip_ws(s: Seq<char>) -> Seq<char>
    decreases s.len(),
{
    if s.len() > 0 && is_ws_char(s[0]) {
        skip_ws(s.skip(1))
    } else {
        s
    }
}

pub proof fn lemma_skip_ws_len(s: Seq<char>)
    ensures
        skip_ws(s).len() <= s.len(),
    decreases s.len(),
{
    if s.len() > 0 && is_ws_char(s[0]) {
        lemma_skip_ws_len(s.skip(1));
    }
}

/// Executable twin of [`skip_ws`]: the first position at or after `i` that
/// does not hold whitespace.
pub fn ws_to(cs: &Vec<char>, i: usize) -> (j: usize)
    requires
        i <= cs@.len(),
    ensures
        i <= j <= cs@.len(),
        cs@.skip(j as int) == skip_ws(cs@.skip(i as int)),
    decreases cs@.len() - i,
{
    let mut j = i;
    while j < cs.len() && ws_char(cs[j])
        invariant
            i <= j <= cs@.len(),
            skip_ws(cs@.skip(i as int)) == skip_ws(cs@.skip(j as int)),
        decreases cs@.len() - j,
    {
        proof {
            assert(cs@.skip(j as int)[0] == cs@[j as int]);
            assert(cs@.skip(j as int).skip(1) =~= cs@.skip(j as int + 1));
        }
        j = j + 1;
    }
    proof {
        assert(skip_ws(cs@.skip(j as int)) == cs@.skip(j as int));
    }
    j
}

// ---------------------------------------------------------------------------
// fixed literals
// ---------------------------------------------------------------------------

/// Consume the exact literal `lit` from the front of `s`.
pub open spec fn parse_lit(s: Seq<char>, lit: Seq<char>) -> Option<Seq<char>> {
    if lit.len() <= s.len() && s.take(lit.len() as int) == lit {
        Some(s.skip(lit.len() as int))
    } else {
        None
    }
}

/// Executable twin of [`parse_lit`].
pub fn eat_lit(cs: &Vec<char>, i: usize, lit: &str) -> (r: Option<usize>)
    requires
        i <= cs@.len(),
    ensures
        match r {
            Some(j) => {
                &&& i <= j <= cs@.len()
                &&& parse_lit(cs@.skip(i as int), lit@) == Some(cs@.skip(j as int))
            },
            None => parse_lit(cs@.skip(i as int), lit@) is None,
        },
{
    let n = lit.unicode_len();
    if n > cs.len() - i {
        proof {
            assert(cs@.skip(i as int).len() == cs@.len() - i);
        }
        return None;
    }
    let ghost s = cs@.skip(i as int);
    let mut k: usize = 0;
    while k < n
        invariant
            0 <= k <= n,
            i + n <= cs@.len(),
            cs@.len() <= usize::MAX,
            n == lit@.len(),
            s == cs@.skip(i as int),
            forall|m: int| 0 <= m < k ==> s[m] == lit@[m],
        decreases n - k,
    {
        let a = cs[i + k];
        let b = lit.get_char(k);
        proof {
            assert(s[k as int] == cs@[i + k as int]);
        }
        if a != b {
            proof {
                assert(s.take(n as int)[k as int] != lit@[k as int]);
                assert(s.take(n as int) != lit@);
            }
            return None;
        }
        k = k + 1;
    }
    proof {
        assert(s.take(n as int) =~= lit@);
        assert(s.skip(n as int) =~= cs@.skip(i + n as int));
    }
    Some(i + n)
}

// ---------------------------------------------------------------------------
// numbers
// ---------------------------------------------------------------------------

/// Consume leading decimal digits, folding them onto `acc`; total, with an
/// unbounded accumulator.
pub open spec fn parse_digits(s: Seq<char>, acc: nat) -> (nat, Seq<char>)
    decreases s.len(),
{
    if s.len() > 0 && is_digit(s[0]) {
        parse_digits(s.skip(1), acc * 10 + digit_val(s[0]))
    } else {
        (acc, s)
    }
}

/// Consume an unsigned decimal integer without a leading zero; the value is
/// exact (unbounded).
pub open spec fn parse_number(s: Seq<char>) -> Option<(nat, Seq<char>)> {
    if s.len() > 0 && is_digit(s[0]) {
        if s[0] == '0' && s.len() > 1 && is_digit(s[1]) {
            None
        } else {
            Some(parse_digits(s, 0))
        }
    } else {
        None
    }
}

/// Executable twin of [`parse_number`]: the position after the digits, and
/// the value if it fits in a `u64`.
pub fn parse_number_x(cs: &Vec<char>, i: usize) -> (r: Option<(Option<u64>, usize)>)
    requires
        i <= cs@.len(),
    ensures
        match r {
            Some((v, j)) => {
                &&& i <= j <= cs@.len()
                &&& parse_number(cs@.skip(i as int)) is Some
                &&& {
                    let (n, rest) = parse_number(cs@.skip(i as int)).unwrap();
                    &&& rest == cs@.skip(j as int)
                    &&& match v {
                        Some(x) => x == n,
                        None => n > u64::MAX,
                    }
                }
            },
            None => parse_number(cs@.skip(i as int)) is None,
        },
{
    let ghost s = cs@.skip(i as int);
    if i == cs.len() || !digit_char(cs[i]) {
        return None;
    }
    proof {
        assert(s[0] == cs@[i as int]);
    }
    if cs[i] == '0' && i + 1 < cs.len() && digit_char(cs[i + 1]) {
        proof {
            assert(s[1] == cs@[i + 1]);
        }
        return None;
    }
    let mut j = i;
    let mut acc: u64 = 0;
    let mut ovf = false;
    let ghost mut accg: nat = 0nat;
    while j < cs.len() && digit_char(cs[j])
        invariant
            i <= j <= cs@.len(),
            s == cs@.skip(i as int),
            parse_digits(s, 0) == parse_digits(cs@.skip(j as int), accg),
            if ovf {
                accg > u64::MAX
            } else {
                accg == acc
            },
        decreases cs@.len() - j,
    {
        let c = cs[j];
        proof {
            assert(cs@.skip(j as int)[0] == cs@[j as int]);
            assert(cs@.skip(j as int).skip(1) =~= cs@.skip(j as int + 1));
        }
        let d = (c as u32) - 48;
        if !ovf {
            if acc > 1844674407370955161u64 || (acc == 1844674407370955161u64 && d > 5) {
                ovf = true;
            } else {
                acc = acc * 10 + (d as u64);
            }
        }
        proof {
            accg = accg * 10 + digit_val(c);
        }
        j = j + 1;
    }
    proof {
        assert(parse_digits(cs@.skip(j as int), accg) == (accg, cs@.skip(j as int)));
    }
    if ovf {
        Some((None, j))
    } else {
        Some((Some(acc), j))
    }
}

// ---------------------------------------------------------------------------
// decimal printing
// ---------------------------------------------------------------------------

/// The decimal digit character for `d`.
pub open spec fn spec_digit_char(d: nat) -> char
    recommends
        d < 10,
{
    if d == 0 {
        '0'
    } else if d == 1 {
        '1'
    } else if d == 2 {
        '2'
    } else if d == 3 {
        '3'
    } else if d == 4 {
        '4'
    } else if d == 5 {
        '5'
    } else if d == 6 {
        '6'
    } else if d == 7 {
        '7'
    } else if d == 8 {
        '8'
    } else {
        '9'
    }
}

/// The lower-case hexadecimal digit character for `d`.
pub open spec fn spec_hex_char(d: nat) -> char
    recommends
        d < 16,
{
    if d < 10 {
        spec_digit_char(d)
    } else if d == 10 {
        'a'
    } else if d == 11 {
        'b'
    } else if d == 12 {
        'c'
    } else if d == 13 {
        'd'
    } else if d == 14 {
        'e'
    } else {
        'f'
    }
}

/// The decimal form of `n`, most significant digit first.
pub open spec fn dec_digits(n: nat) -> Seq<char>
    decreases n,
{
    if n < 10 {
        seq![spec_digit_char(n)]
    } else {
        dec_digits(n / 10).push(spec_digit_char(n % 10))
    }
}

fn digit_char_of(d: u64) -> (c: char)
    requires
        d < 10,
    ensures
        c == spec_digit_char(d as nat),
{
    match d {
        0 => '0',
        1 => '1',
        2 => '2',
        3 => '3',
        4 => '4',
        5 => '5',
        6 => '6',
        7 => '7',
        8 => '8',
        _ => '9',
    }
}

pub fn hex_char_of(d: u32) -> (c: char)
    requires
        d < 16,
    ensures
        c == spec_hex_char(d as nat),
{
    match d {
        0 => '0',
        1 => '1',
        2 => '2',
        3 => '3',
        4 => '4',
        5 => '5',
        6 => '6',
        7 => '7',
        8 => '8',
        9 => '9',
        10 => 'a',
        11 => 'b',
        12 => 'c',
        13 => 'd',
        14 => 'e',
        _ => 'f',
    }
}

/// Executable twin of [`dec_digits`].
pub fn print_u64(n: u64) -> (v: Vec<char>)
    ensures
        v@ == dec_digits(n as nat),
    decreases n,
{
    if n < 10 {
        let mut v: Vec<char> = Vec::new();
        v.push(digit_char_of(n));
        proof {
            assert(v@ =~= seq![spec_digit_char(n as nat)]);
        }
        v
    } else {
        let mut v = print_u64(n / 10);
        v.push(digit_char_of(n % 10));
        proof {
            assert((n / 10) as nat == (n as nat) / 10);
            assert((n % 10) as nat == (n as nat) % 10);
            assert(v@ =~= dec_digits((n as nat) / 10).push(spec_digit_char((n as nat) % 10)));
        }
        v
    }
}

// ---------------------------------------------------------------------------
// strings
// ---------------------------------------------------------------------------

/// The escaped wire form of one character inside a JSON string.
pub open spec fn esc_char(c: char) -> Seq<char> {
    if c == '"' {
        seq!['\\', '"']
    } else if c == '\\' {
        seq!['\\', '\\']
    } else if c == '\u{8}' {
        seq!['\\', 'b']
    } else if c == '\t' {
        seq!['\\', 't']
    } else if c == '\n' {
        seq!['\\', 'n']
    } else if c == '\u{c}' {
        seq!['\\', 'f']
    } else if c == '\r' {
        seq!['\\', 'r']
    } else if (c as u32) < 32 {
        seq!['\\', 'u', '0', '0', spec_hex_char(((c as u32) / 16) as nat), spec_hex_char(
            ((c as u32) % 16) as nat,
        )]
    } else {
        seq![c]
    }
}

/// The escaped wire form of a whole string body.
pub open spec fn esc_string(s: Seq<char>) -> Seq<char>
    decreases s.len(),
{
    if s.len() == 0 {
        Seq::empty()
    } else {
        esc_char(s[0]) + esc_string(s.skip(1))
    }
}

/// A JSON string token: quote, escaped body, quote.
pub open spec fn enc_string(s: Seq<char>) -> Seq<char> {
    seq!['"'] + esc_string(s) + seq!['"']
}

/// Prepend a decoded character to the result of parsing the rest of a
/// string body.
pub open spec fn pc_cons(c: char, r: Option<(Seq<char>, Seq<char>)>) -> Option<
    (Seq<char>, Seq<char>),
> {
    match r {
        Some(p) => Some((seq![c] + p.0, p.1)),
        None => None,
    }
}

/// The value of a four-digit hexadecimal escape.
pub open spec fn hex4_val(a: char, b: char, c: char, d: char) -> nat {
    hex_val(a) * 4096 + hex_val(b) * 256 + hex_val(c) * 16 + hex_val(d)
}

/// Parse a JSON string body: `s` is the text just after the opening quote;
/// the result is the decoded content and the text after the closing quote.
/// Unescaped control characters are rejected; a `\u` escape in the surrogate
/// range must form a proper high-low pair.
pub open spec fn parse_strchars(s: Seq<char>) -> Option<(Seq<char>, Seq<char>)>
    decreases s.len(),
{
    if s.len() == 0 {
        None
    } else if s[0] == '"' {
        Some((Seq::empty(), s.skip(1)))
    } else if s[0] == '\\' {
        if s.len() < 2 {
            None
        } else {
            let e = s[1];
            if e == '"' || e == '\\' || e == '/' {
                pc_cons(e, parse_strchars(s.skip(2)))
            } else if e == 'b' {
                pc_cons('\u{8}', parse_strchars(s.skip(2)))
            } else if e == 't' {
                pc_cons('\t', parse_strchars(s.skip(2)))
            } else if e == 'n' {
                pc_cons('\n', parse_strchars(s.skip(2)))
            } else if e == 'f' {
                pc_cons('\u{c}', parse_strchars(s.skip(2)))
            } else if e == 'r' {
                pc_cons('\r', parse_strchars(s.skip(2)))
            } else if e == 'u' {
                if s.len() < 6 || !(is_hex(s[2]) && is_hex(s[3]) && is_hex(s[4]) && is_hex(s[5])) {
                    None
                } else {
                    let n1 = hex4_val(s[2], s[3], s[4], s[5]);
                    if n1 < 0xD800 || n1 > 0xDFFF {
                        pc_cons(n1 as char, parse_strchars(s.skip(6)))
                    } else if n1 < 0xDC00 {
                        if s.len() < 12 || !(s[6] == '\\' && s[7] == 'u' && is_hex(s[8]) && is_hex(
                            s[9],
                        ) && is_hex(s[10]) && is_hex(s[11])) {
                            None
                        } else {
                            let n2 = hex4_val(s[8], s[9], s[10], s[11]);
                            if 0xDC00 <= n2 <= 0xDFFF {
                                pc_cons(
                                    (0x10000 + (n1 - 0xD800) * 0x400 + (n2 - 0xDC00)) as char,
                                    parse_strchars(s.skip(12)),
                                )
                            } else {
                                None
                            }
                        }
                    } else {
                        None
                    }
                }
            } else {
                None
            }
        }
    } else if (s[0] as u32) < 32 {
        None
    } else {
        pc_cons(s[0], parse_strchars(s.skip(1)))
    }
}

/// Append a parsed prefix in front of a string-body parse result.
pub open spec fn pc_app(p: Seq<char>, r: Option<(Seq<char>, Seq<char>)>) -> Option<
    (Seq<char>, Seq<char>),
> {
    match r {
        Some(q) => Some((p + q.0, q.1)),
        None => None,
    }
}

proof fn lemma_pc_app_cons(p: Seq<char>, c: char, r: Option<(Seq<char>, Seq<char>)>)
    ensures
        pc_app(p, pc_cons(c, r)) == pc_app(p.push(c), r),
{
    match r {
        Some(q) => {
            assert(p + (seq![c] + q.0) =~= p.push(c) + q.0);
        },
        None => {},
    }
}

/// Relies on `char::from_u32`: turns a valid Unicode scalar value into the
/// character with exactly that code point.
#[verifier::external_body]
fn char_from_u32(n: u32) -> (c: char)
    requires
        n < 0xD800 || (0xE000 <= n < 0x110000),
    ensures
        c == (n as char),
{
    char::from_u32(n).unwrap()
}

/// One escape sequence, starting at the backslash at position `j`: the
/// decoded character and the position after the escape.
#[verifier::rlimit(60)]
#[verifier::spinoff_prover]
fn parse_escape_x(cs: &Vec<char>, j: usize) -> (r: Option<(char, usize)>)
    requires
        j < cs@.len(),
        cs@[j as int] == '\\',
    ensures
        match r {
            Some(p) => {
                &&& j + 2 <= p.1 <= cs@.len()
                &&& parse_strchars(cs@.skip(j as int)) == pc_cons(
                    p.0,
                    parse_strchars(cs@.skip(p.1 as int)),
                )
            },
            None => parse_strchars(cs@.skip(j as int)) is None,
        },
{
    let ghost s = cs@.skip(j as int);
    let n = cs.len();
    proof {
        assert(s[0] == cs@[j as int]);
        assert(s.len() == n - j);
    }
    if n - j < 2 {
        return None;
    }
    let e = cs[j + 1];
    proof {
        assert(s[1] == cs@[j + 1]);
    }
    if e == '"' || e == '\\' || e == '/' || e == 'b' || e == 't' || e == 'n' || e == 'f' || e
        == 'r' {
        let dc = if e == 'b' {
            '\u{8}'
        } else if e == 't' {
            '\t'
        } else if e == 'n' {
            '\n'
        } else if e == 'f' {
            '\u{c}'
        } else if e == 'r' {
            '\r'
        } else {
            e
        };
        proof {
            assert(parse_strchars(s) == pc_cons(dc, parse_strchars(s.skip(2))));
            assert(s.skip(2) =~= cs@.skip(j + 2));
        }
        Some((dc, j + 2))
    } else if e == 'u' {
        if n - j < 6 {
            return None;
        }
        let h1 = cs[j + 2];
        let h2 = cs[j + 3];
        let h3 = cs[j + 4];
        let h4 = cs[j + 5];
        proof {
            assert(s[2] == cs@[j + 2] && s[3] == cs@[j + 3] && s[4] == cs@[j + 4] && s[5] == cs@[j
                + 5]);
        }
        if !(hex_char(h1) && hex_char(h2) && hex_char(h3) && hex_char(h4)) {
            return None;
        }
        let n1 = hex_char_val(h1) * 4096 + hex_char_val(h2) * 256 + hex_char_val(h3) * 16
            + hex_char_val(h4);
        proof {
            assert(n1 == hex4_val(s[2], s[3], s[4], s[5]));
        }
        if n1 < 0xD800 || n1 > 0xDFFF {
            let dc = char_from_u32(n1);
            proof {
                assert(parse_strchars(s) == pc_cons(dc, parse_strchars(s.skip(6))));
                assert(s.skip(6) =~= cs@.skip(j + 6));
            }
            Some((dc, j + 6))
        } else if n1 < 0xDC00 {
            if n - j < 12 {
                return None;
            }
            let b1 = cs[j + 6];
            let b2 = cs[j + 7];
            let g1 = cs[j + 8];
            let g2 = cs[j + 9];
            let g3 = cs[j + 10];
            let g4 = cs[j + 11];
            proof {
                assert(s[6] == cs@[j + 6] && s[7] == cs@[j + 7] && s[8] == cs@[j + 8] && s[9]
                    == cs@[j + 9] && s[10] == cs@[j + 10] && s[11] == cs@[j + 11]);
            }
            if !(b1 == '\\' && b2 == 'u' && hex_char(g1) && hex_char(g2) && hex_char(g3)
                && hex_char(g4)) {
                return None;
            }
            let n2 = hex_char_val(g1) * 4096 + hex_char_val(g2) * 256 + hex_char_val(g3) * 16
                + hex_char_val(g4);
            proof {
                assert(n2 == hex4_val(s[8], s[9], s[10], s[11]));
            }
            if !(0xDC00 <= n2 && n2 <= 0xDFFF) {
                return None;
            }
            let code = 0x10000 + (n1 - 0xD800) * 0x400 + (n2 - 0xDC00);
            let dc = char_from_u32(code);
            proof {
                assert(parse_strchars(s) == pc_cons(dc, parse_strchars(s.skip(12))));
                assert(s.skip(12) =~= cs@.skip(j + 12));
            }
            Some((dc, j + 12))
        } else {
            None
        }
    } else {
        None
    }
}

/// Executable twin of [`parse_strchars`]: parse a string body starting at
/// `i` (just after the opening quote).
pub fn parse_strchars_x(cs: &Vec<char>, i: usize) -> (r: Option<(Vec<char>, usize)>)
    requires
        i <= cs@.len(),
    ensures
        match r {
            Some(p) => {
                &&& i <= p.1 <= cs@.len()
                &&& parse_strchars(cs@.skip(i as int)) == Some((p.0@, cs@.skip(p.1 as int)))
            },
            None => parse_strchars(cs@.skip(i as int)) is None,
        },
{
    let mut acc: Vec<char> = Vec::new();
    let mut j = i;
    let n = cs.len();
    loop
        invariant
            i <= j <= cs@.len(),
            n == cs@.len(),
            pc_app(acc@, parse_strchars(cs@.skip(j as int))) == parse_strchars(
                cs@.skip(i as int),
            ),
        decreases cs@.len() - j,
    {
        let ghost s = cs@.skip(j as int);
        if j == n {
            return None;
        }
        let c = cs[j];
        proof {
            assert(s[0] == cs@[j as int]);
        }
        if c == '"' {
            proof {
                assert(parse_strchars(s) == Some((Seq::<char>::empty(), s.skip(1))));
                assert(acc@ + Seq::<char>::empty() =~= acc@);
                assert(s.skip(1) =~= cs@.skip(j + 1));
            }
            return Some((acc, j + 1));
        } else if c == '\\' {
            match parse_escape_x(cs, j) {
                Some((dc, j2)) => {
                    proof {
                        lemma_pc_app_cons(acc@, dc, parse_strchars(cs@.skip(j2 as int)));
                    }
                    acc.push(dc);
                    j = j2;
                },
                None => {
                    return None;
                },
            }
        } else if (c as u32) < 32 {
            return None;
        } else {
            proof {
                assert(parse_strchars(s) == pc_cons(c, parse_strchars(s.skip(1))));
                assert(s.skip(1) =~= cs@.skip(j + 1));
                lemma_pc_app_cons(acc@, c, parse_strchars(cs@.skip(j + 1)));
            }
            acc.push(c);
            j = j + 1;
        }
    }
}

// ---------------------------------------------------------------------------
// building strings
// ---------------------------------------------------------------------------

/// Relies on `String::push`: appends exactly the one character.
#[verifier::external_body]
fn push_char(s: &mut String, c: char)
    ensures
        final(s)@ == old(s)@.push(c),
{
    s.push(c);
}

/// Build a `String` holding exactly the given characters.
pub fn chars_to_string(v: &Vec<char>) -> (r: String)
    ensures
        r@ == v@,
{
    let mut s = String::new();
    let mut k: usize = 0;
    while k < v.len()
        invariant
            k <= v@.len(),
            s@ == v@.take(k as int),
        decreases v@.len() - k,
    {
        push_char(&mut s, v[k]);
        proof {
            assert(v@.take(k as int).push(v@[k as int]) =~= v@.take(k as int + 1));
        }
        k = k + 1;
    }
    proof {
        assert(v@.take(v@.len() as int) =~= v@);
    }
    s
}

/// Turn a borrowed string into its character vector.
pub fn str_to_chars(s: &str) -> (v: Vec<char>)
    ensures
        v@ == s@,
{
    let n = s.unicode_len();
    let mut v: Vec<char> = Vec::new();
    let mut k: usize = 0;
    while k < n
        invariant
            k <= n,
            n == s@.len(),
            v@ == s@.take(k as int),
        decreases n - k,
    {
        v.push(s.get_char(k));
        proof {
            assert(s@.take(k as int).push(s@[k as int]) =~= s@.take(k as int + 1));
        }
        k = k + 1;
    }
    proof {
        assert(s@.take(n as int) =~= s@);
    }
    v
}

/// Whether two borrowed strings hold the same characters.
pub fn str_eq(a: &str, b: &str) -> (r: bool)
    ensures
        r == (a@ == b@),
{
    let n = a.unicode_len();
    if b.unicode_len() != n {
        return false;
    }
    let mut k: usize = 0;
    while k < n
        invariant
            k <= n,
            n == a@.len(),
            n == b@.len(),
            forall|m: int| 0 <= m < k ==> a@[m] == b@[m],
        decreases n - k,
    {
        if a.get_char(k) != b.get_char(k) {
            return false;
        }
        k = k + 1;
    }
    proof {
        assert(a@ =~= b@);
    }
    true
}

/// Whether the characters in `v` are exactly the string `lit`.
pub fn chars_eq_lit(v: &Vec<char>, lit: &str) -> (r: bool)
    ensures
        r == (v@ == lit@),
{
    let n = lit.unicode_len();
    if v.len() != n {
        return false;
    }
    let mut k: usize = 0;
    while k < n
        invariant
            k <= n,
            n == lit@.len(),
            n == v@.len(),
            forall|m: int| 0 <= m < k ==> v@[m] == lit@[m],
        decreases n - k,
    {
        if v[k] != lit.get_char(k) {
            return false;
        }
        k = k + 1;
    }
    proof {
        assert(v@ =~= lit@);
    }
    true
}

} // verus!
