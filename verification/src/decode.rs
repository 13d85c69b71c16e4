//! Wire decoding of `GameMessage`: a strict reader for the grammar that
//! `codec` defines.  The spec functions are recursive-descent parsers over
//! the character sequence; each executable parser is proved to return
//! exactly what its spec parser says, so `decode_message` is pinned down on
//! every input — the encodings of messages decode to those messages, and
//! everything else is discarded as `None`, never an error.

use vstd::prelude::*;
use crate::types::{Direction, FoodModel, GameMessage, GameState, MessageModel, PosModel, Position, Snake, SnakeModel, StateModel, Food};
use crate::codec::{
    lit_head, lit_tag_pi, lit_null_end, lit_tag_ready, lit_tag_gs, lit_snakes, lit_foods,
    lit_started, lit_overflag, lit_tag_ms, lit_required, lit_tag_go, lit_id, lit_body, lit_dir,
    lit_alive, lit_score, lit_x, lit_y, lit_position, lit_true, lit_false,
};

verus! {

// ---------------------------------------------------------------------------
// Spec parsers: primitives
// ---------------------------------------------------------------------------

/// Whether a character is a decimal digit.
pub open spec fn is_digit(c: char) -> bool {
    48 <= c as int <= 57
}

/// The value of a decimal digit character.
pub open spec fn dval(c: char) -> int {
    c as int - 48
}

/// Expects the fixed fragment `lit` at position `i`; yields the position
/// after it.
pub open spec fn p_lit(s: Seq<char>, i: int, lit: Seq<char>) -> Option<int> {
    if 0 <= i && i + lit.len() <= s.len() && s.subrange(i, i + lit.len() as int) == lit {
        Some(i + lit.len() as int)
    } else {
        None
    }
}

/// Consumes digits from position `i`, folding them onto `acc` left to
/// right; yields the value and the first position past the digits.
pub open spec fn p_digits(s: Seq<char>, i: int, acc: int) -> (int, int)
    decreases s.len() - i,
{
    if 0 <= i < s.len() && is_digit(s[i]) {
        p_digits(s, i + 1, acc * 10 + dval(s[i]))
    } else {
        (acc, i)
    }
}

/// A non-empty run of digits: the number it denotes and the position after.
pub open spec fn p_nat(s: Seq<char>, i: int) -> Option<(int, int)> {
    if 0 <= i < s.len() && is_digit(s[i]) {
        Some(p_digits(s, i, 0))
    } else {
        None
    }
}

/// An optionally negated run of digits.
pub open spec fn p_int(s: Seq<char>, i: int) -> Option<(int, int)> {
    if 0 <= i < s.len() && s[i] == '-' {
        match p_nat(s, i + 1) {
            Some((v, j)) => Some((-v, j)),
            None => None,
        }
    } else {
        p_nat(s, i)
    }
}

/// An integer that fits in `i32`.
pub open spec fn p_i32(s: Seq<char>, i: int) -> Option<(int, int)> {
    match p_int(s, i) {
        Some((v, j)) => if i32::MIN <= v <= i32::MAX {
            Some((v, j))
        } else {
            None
        },
        None => None,
    }
}

/// `true` or `false`.
pub open spec fn p_bool(s: Seq<char>, i: int) -> Option<(bool, int)> {
    match p_lit(s, i, lit_true()) {
        Some(j) => Some((true, j)),
        None => match p_lit(s, i, lit_false()) {
            Some(j) => Some((false, j)),
            None => None,
        },
    }
}

/// One of the four direction names.
pub open spec fn p_dirname(s: Seq<char>, i: int) -> Option<(Direction, int)> {
    match p_lit(s, i, crate::codec::dir_name(Direction::Up)) {
        Some(j) => Some((Direction::Up, j)),
        None => match p_lit(s, i, crate::codec::dir_name(Direction::Down)) {
            Some(j) => Some((Direction::Down, j)),
            None => match p_lit(s, i, crate::codec::dir_name(Direction::Left)) {
                Some(j) => Some((Direction::Left, j)),
                None => match p_lit(s, i, crate::codec::dir_name(Direction::Right)) {
                    Some(j) => Some((Direction::Right, j)),
                    None => None,
                },
            },
        },
    }
}

/// The value of a hexadecimal digit character, either case, or -1.
pub open spec fn hexval(c: char) -> int {
    if is_digit(c) {
        dval(c)
    } else if 'a' as int <= c as int <= 'f' as int {
        c as int - 'a' as int + 10
    } else if 'A' as int <= c as int <= 'F' as int {
        c as int - 'A' as int + 10
    } else {
        -1
    }
}

/// The control character with the given scalar value below 32.
pub open spec fn control_char(v: int) -> char {
    if v == 0 { '\u{0}' }
    else if v == 1 { '\u{1}' }
    else if v == 2 { '\u{2}' }
    else if v == 3 { '\u{3}' }
    else if v == 4 { '\u{4}' }
    else if v == 5 { '\u{5}' }
    else if v == 6 { '\u{6}' }
    else if v == 7 { '\u{7}' }
    else if v == 8 { '\u{8}' }
    else if v == 9 { '\u{9}' }
    else if v == 10 { '\u{a}' }
    else if v == 11 { '\u{b}' }
    else if v == 12 { '\u{c}' }
    else if v == 13 { '\u{d}' }
    else if v == 14 { '\u{e}' }
    else if v == 15 { '\u{f}' }
    else if v == 16 { '\u{10}' }
    else if v == 17 { '\u{11}' }
    else if v == 18 { '\u{12}' }
    else if v == 19 { '\u{13}' }
    else if v == 20 { '\u{14}' }
    else if v == 21 { '\u{15}' }
    else if v == 22 { '\u{16}' }
    else if v == 23 { '\u{17}' }
    else if v == 24 { '\u{18}' }
    else if v == 25 { '\u{19}' }
    else if v == 26 { '\u{1a}' }
    else if v == 27 { '\u{1b}' }
    else if v == 28 { '\u{1c}' }
    else if v == 29 { '\u{1d}' }
    else if v == 30 { '\u{1e}' }
    else { '\u{1f}' }
}

/// One string escape, starting just past the backslash: the character it
/// denotes and the position after.  Only the escapes the encoder can emit,
/// plus the solidus, are read; a `\u` escape must name a control character.
pub open spec fn p_esc(s: Seq<char>, i: int) -> Option<(char, int)> {
    if !(0 <= i < s.len()) {
        None
    } else {
        let c = s[i];
        if c == '"' { Some(('"', i + 1)) }
        else if c == '\\' { Some(('\\', i + 1)) }
        else if c == '/' { Some(('/', i + 1)) }
        else if c == 'b' { Some(('\u{8}', i + 1)) }
        else if c == 'f' { Some(('\u{c}', i + 1)) }
        else if c == 'n' { Some(('\u{a}', i + 1)) }
        else if c == 'r' { Some(('\u{d}', i + 1)) }
        else if c == 't' { Some(('\u{9}', i + 1)) }
        else if c == 'u' {
            if i + 5 <= s.len() && s[i + 1] == '0' && s[i + 2] == '0' && hexval(s[i + 3]) >= 0
                && hexval(s[i + 4]) >= 0 {
                let v = hexval(s[i + 3]) * 16 + hexval(s[i + 4]);
                if v < 32 {
                    Some((control_char(v), i + 5))
                } else {
                    None
                }
            } else {
                None
            }
        }
        else { None }
    }
}

/// The body of a JSON string from position `i` through its closing quote:
/// the characters it denotes and the position after the quote.  Raw control
/// characters are refused.
pub open spec fn p_strbody(s: Seq<char>, i: int) -> Option<(Seq<char>, int)>
    decreases s.len() - i,
{
    if !(0 <= i < s.len()) {
        None
    } else if s[i] == '"' {
        Some((Seq::empty(), i + 1))
    } else if s[i] == '\\' {
        match p_esc(s, i + 1) {
            Some((c, j)) => if i + 1 < j <= s.len() {
                match p_strbody(s, j) {
                    Some((rest, k)) => Some((Seq::empty().push(c) + rest, k)),
                    None => None,
                }
            } else {
                None
            },
            None => None,
        }
    } else if 0 <= s[i] as int && (s[i] as int) < 32 {
        None
    } else {
        match p_strbody(s, i + 1) {
            Some((rest, k)) => Some((Seq::empty().push(s[i]) + rest, k)),
            None => None,
        }
    }
}

/// A complete JSON string, quotes included.
pub open spec fn p_jstr(s: Seq<char>, i: int) -> Option<(Seq<char>, int)> {
    if 0 <= i < s.len() && s[i] == '"' {
        p_strbody(s, i + 1)
    } else {
        None
    }
}

// ---------------------------------------------------------------------------
// Executable parsers: primitives
// ---------------------------------------------------------------------------

/// Executable counterpart of `p_lit`.
fn eat_lit(s: &Vec<char>, i: usize, pat: &Vec<char>) -> (r: Option<usize>)
    requires
        i <= s@.len(),
    ensures
        match r {
            Some(j) => p_lit(s@, i as int, pat@) == Some(j as int) && i <= j <= s@.len(),
            None => p_lit(s@, i as int, pat@) is None,
        },
{
    if pat.len() > s.len() - i {
        return None;
    }
    let mut k: usize = 0;
    while k < pat.len()
        invariant
            k <= pat@.len(),
            i + pat@.len() <= s@.len(),
            s@.len() <= usize::MAX,
            forall|j: int| 0 <= j < k ==> s@[i + j] == pat@[j],
        decreases pat@.len() - k,
    {
        if s[i + k] != pat[k] {
            proof {
                assert(s@.subrange(i as int, i + pat@.len() as int)[k as int] != pat@[k as int]);
            }
            return None;
        }
        k += 1;
    }
    proof {
        assert(s@.subrange(i as int, i + pat@.len() as int) =~= pat@);
    }
    Some(i + pat.len())
}

/// Executable counterpart of `is_digit`.
fn is_digit_exec(c: char) -> (r: bool)
    ensures
        r == is_digit(c),
{
    let v = c as u32;
    48 <= v && v <= 57
}

/// A digit run never moves the position backwards.
proof fn lemma_digits_index(s: Seq<char>, i: int, acc: int)
    ensures
        p_digits(s, i, acc).1 >= i,
    decreases s.len() - i,
{
    if 0 <= i < s.len() && is_digit(s[i]) {
        lemma_digits_index(s, i + 1, acc * 10 + dval(s[i]));
    }
}

/// The accumulated value of a digit run never drops below the accumulator
/// it starts from.
proof fn lemma_digits_grow(s: Seq<char>, i: int, acc: int)
    requires
        acc >= 0,
    ensures
        p_digits(s, i, acc).0 >= acc,
    decreases s.len() - i,
{
    if 0 <= i < s.len() && is_digit(s[i]) {
        assert(acc * 10 + dval(s[i]) >= acc) by (nonlinear_arith)
            requires
                acc >= 0,
                dval(s[i]) >= 0,
        ;
        lemma_digits_grow(s, i + 1, acc * 10 + dval(s[i]));
    }
}

/// Executable counterpart of `p_digits` with accumulator zero: the value
/// (when it fits in `u64`), the position after the digits, and whether it
/// fits.
fn take_digits(s: &Vec<char>, i: usize) -> (r: (u64, usize, bool))
    requires
        i <= s@.len(),
    ensures
        ({
            let (v, j, fits) = r;
            let (sv, sj) = p_digits(s@, i as int, 0);
            &&& j as int == sj
            &&& i <= j <= s@.len()
            &&& fits == (sv <= u64::MAX)
            &&& fits ==> v as int == sv
        }),
{
    let mut acc: u64 = 0;
    let mut fits: bool = true;
    let mut k: usize = i;
    let ghost mut sacc: int = 0;
    while k < s.len() && is_digit_exec(s[k])
        invariant
            i <= k <= s@.len(),
            p_digits(s@, k as int, sacc) == p_digits(s@, i as int, 0),
            fits == (sacc <= u64::MAX),
            fits ==> acc as int == sacc,
            sacc >= 0,
        decreases s@.len() - k,
    {
        let d: u64 = (s[k] as u32 - 48) as u64;
        proof {
            assert(d as int == dval(s@[k as int]));
        }
        if fits {
            let wide: u128 = acc as u128 * 10 + d as u128;
            if wide <= u64::MAX as u128 {
                acc = wide as u64;
            } else {
                fits = false;
            }
        } else {
            proof {
                assert(sacc * 10 + d >= sacc) by (nonlinear_arith)
                    requires
                        sacc >= 0,
                        d >= 0,
                ;
            }
        }
        proof {
            sacc = sacc * 10 + dval(s@[k as int]);
        }
        k += 1;
    }
    proof {
        assert(p_digits(s@, k as int, sacc) == (sacc, k as int));
        if !fits {
            lemma_digits_grow(s@, k as int, sacc);
        }
    }
    (acc, k, fits)
}

/// Executable counterpart of `p_nat`: `None` mirrors the spec's `None`;
/// `Some` carries the fit flag exactly as `take_digits` does.
fn take_nat(s: &Vec<char>, i: usize) -> (r: Option<(u64, usize, bool)>)
    requires
        i <= s@.len(),
    ensures
        match r {
            Some((v, j, fits)) => {
                &&& p_nat(s@, i as int) is Some
                &&& {
                    let (sv, sj) = p_nat(s@, i as int)->Some_0;
                    &&& j as int == sj
                    &&& i < j <= s@.len()
                    &&& fits == (sv <= u64::MAX)
                    &&& fits ==> v as int == sv
                }
            },
            None => p_nat(s@, i as int) is None,
        },
{
    if i < s.len() && is_digit_exec(s[i]) {
        let (v, j, fits) = take_digits(s, i);
        proof {
            assert(p_digits(s@, i as int, 0) == p_digits(
                s@,
                i as int + 1,
                0 * 10 + dval(s@[i as int]),
            ));
            lemma_digits_grow(s@, i as int + 1, dval(s@[i as int]));
            lemma_digits_index(s@, i as int + 1, dval(s@[i as int]));
        }
        Some((v, j, fits))
    } else {
        None
    }
}

/// Executable counterpart of `p_i32`.
fn take_i32(s: &Vec<char>, i: usize) -> (r: Option<(i32, usize)>)
    requires
        i <= s@.len(),
    ensures
        match r {
            Some((v, j)) => p_i32(s@, i as int) == Some((v as int, j as int)) && i < j
                <= s@.len(),
            None => p_i32(s@, i as int) is None,
        },
{
    if i < s.len() && s[i] == '-' {
        match take_nat(s, i + 1) {
            Some((v, j, fits)) => {
                if fits && v <= 2147483648u64 {
                    let w: i32 = (-(v as i64)) as i32;
                    Some((w, j))
                } else {
                    None
                }
            },
            None => None,
        }
    } else {
        match take_nat(s, i) {
            Some((v, j, fits)) => {
                if fits && v <= 2147483647u64 {
                    Some((v as i32, j))
                } else {
                    None
                }
            },
            None => None,
        }
    }
}

/// Executable counterpart of `p_bool`.
fn take_bool(s: &Vec<char>, i: usize) -> (r: Option<(bool, usize)>)
    requires
        i <= s@.len(),
    ensures
        match r {
            Some((b, j)) => p_bool(s@, i as int) == Some((b, j as int)) && i < j <= s@.len(),
            None => p_bool(s@, i as int) is None,
        },
{
    let t = true_vec();
    match eat_lit(s, i, &t) {
        Some(j) => Some((true, j)),
        None => {
            let f = false_vec();
            match eat_lit(s, i, &f) {
                Some(j) => Some((false, j)),
                None => None,
            }
        },
    }
}

/// Builds the executable form of `true`.
fn true_vec() -> (v: Vec<char>)
    ensures
        v@ == lit_true(),
{
    let v: Vec<char> = vec!['t', 'r', 'u', 'e'];
    proof {
        assert(v@ =~= lit_true());
    }
    v
}

/// Builds the executable form of `false`.
fn false_vec() -> (v: Vec<char>)
    ensures
        v@ == lit_false(),
{
    let v: Vec<char> = vec!['f', 'a', 'l', 's', 'e'];
    proof {
        assert(v@ =~= lit_false());
    }
    v
}

/// Builds the executable form of a direction name.
fn dirname_vec(d: Direction) -> (v: Vec<char>)
    ensures
        v@ == crate::codec::dir_name(d),
{
    let v: Vec<char> = match d {
        Direction::Up => vec!['U', 'p'],
        Direction::Down => vec!['D', 'o', 'w', 'n'],
        Direction::Left => vec!['L', 'e', 'f', 't'],
        Direction::Right => vec!['R', 'i', 'g', 'h', 't'],
    };
    proof {
        assert(v@ =~= crate::codec::dir_name(d));
    }
    v
}

/// Executable counterpart of `p_dirname`.
fn take_dirname(s: &Vec<char>, i: usize) -> (r: Option<(Direction, usize)>)
    requires
        i <= s@.len(),
    ensures
        match r {
            Some((d, j)) => p_dirname(s@, i as int) == Some((d, j as int)) && i < j <= s@.len(),
            None => p_dirname(s@, i as int) is None,
        },
{
    let up = dirname_vec(Direction::Up);
    match eat_lit(s, i, &up) {
        Some(j) => Some((Direction::Up, j)),
        None => {
            let down = dirname_vec(Direction::Down);
            match eat_lit(s, i, &down) {
                Some(j) => Some((Direction::Down, j)),
                None => {
                    let left = dirname_vec(Direction::Left);
                    match eat_lit(s, i, &left) {
                        Some(j) => Some((Direction::Left, j)),
                        None => {
                            let right = dirname_vec(Direction::Right);
                            match eat_lit(s, i, &right) {
                                Some(j) => Some((Direction::Right, j)),
                                None => None,
                            }
                        },
                    }
                },
            }
        },
    }
}

/// Executable counterpart of `hexval`.
fn hexval_exec(c: char) -> (r: i8)
    ensures
        r as int == hexval(c),
{
    let v = c as u32;
    if 48 <= v && v <= 57 {
        (v - 48) as i8
    } else if 97 <= v && v <= 102 {
        (v - 97 + 10) as i8
    } else if 65 <= v && v <= 70 {
        (v - 65 + 10) as i8
    } else {
        -1
    }
}

/// Executable counterpart of `control_char`.
fn control_char_exec(v: u32) -> (c: char)
    requires
        v < 32,
    ensures
        c == control_char(v as int),
{
    match v {
        0 => '\u{0}',
        1 => '\u{1}',
        2 => '\u{2}',
        3 => '\u{3}',
        4 => '\u{4}',
        5 => '\u{5}',
        6 => '\u{6}',
        7 => '\u{7}',
        8 => '\u{8}',
        9 => '\u{9}',
        10 => '\u{a}',
        11 => '\u{b}',
        12 => '\u{c}',
        13 => '\u{d}',
        14 => '\u{e}',
        15 => '\u{f}',
        16 => '\u{10}',
        17 => '\u{11}',
        18 => '\u{12}',
        19 => '\u{13}',
        20 => '\u{14}',
        21 => '\u{15}',
        22 => '\u{16}',
        23 => '\u{17}',
        24 => '\u{18}',
        25 => '\u{19}',
        26 => '\u{1a}',
        27 => '\u{1b}',
        28 => '\u{1c}',
        29 => '\u{1d}',
        30 => '\u{1e}',
        _ => '\u{1f}',
    }
}

/// Executable counterpart of `p_esc`.
fn take_esc(s: &Vec<char>, i: usize) -> (r: Option<(char, usize)>)
    requires
        i <= s@.len(),
    ensures
        match r {
            Some((c, j)) => p_esc(s@, i as int) == Some((c, j as int)) && i < j <= s@.len(),
            None => p_esc(s@, i as int) is None,
        },
{
    if i >= s.len() {
        return None;
    }
    let c = s[i];
    if c == '"' {
        Some(('"', i + 1))
    } else if c == '\\' {
        Some(('\\', i + 1))
    } else if c == '/' {
        Some(('/', i + 1))
    } else if c == 'b' {
        Some(('\u{8}', i + 1))
    } else if c == 'f' {
        Some(('\u{c}', i + 1))
    } else if c == 'n' {
        Some(('\u{a}', i + 1))
    } else if c == 'r' {
        Some(('\u{d}', i + 1))
    } else if c == 't' {
        Some(('\u{9}', i + 1))
    } else if c == 'u' {
        if s.len() - i >= 5 && s[i + 1] == '0' && s[i + 2] == '0' {
            let h1 = hexval_exec(s[i + 3]);
            let h2 = hexval_exec(s[i + 4]);
            if h1 >= 0 && h2 >= 0 {
                let v: u32 = (h1 as u32) * 16 + (h2 as u32);
                if v < 32 {
                    Some((control_char_exec(v), i + 5))
                } else {
                    None
                }
            } else {
                None
            }
        } else {
            None
        }
    } else {
        None
    }
}

/// The scalar value of a character, as a `u32` that equals `c as int`.
fn char_scalar(c: char) -> (r: u32)
    ensures
        r as int == c as int,
{
    c as u32
}

/// Executable counterpart of `p_strbody`.
fn take_strbody(s: &Vec<char>, i: usize) -> (r: Option<(Vec<char>, usize)>)
    requires
        i <= s@.len(),
    ensures
        match r {
            Some((v, j)) => p_strbody(s@, i as int) == Some((v@, j as int)) && i < j
                <= s@.len(),
            None => p_strbody(s@, i as int) is None,
        },
    decreases s@.len() - i,
{
    if i >= s.len() {
        return None;
    }
    let c = s[i];
    let cv = char_scalar(c);
    if c == '"' {
        let v: Vec<char> = Vec::new();
        proof {
            assert(v@ =~= Seq::<char>::empty());
        }
        Some((v, i + 1))
    } else if c == '\\' {
        match take_esc(s, i + 1) {
            Some((e, j)) => {
                match take_strbody(s, j) {
                    Some((mut rest, k)) => {
                        rest.insert(0, e);
                        proof {
                            assert(rest@ =~= Seq::<char>::empty().push(e) + rest@.subrange(
                                1,
                                rest@.len() as int,
                            ));
                        }
                        Some((rest, k))
                    },
                    None => None,
                }
            },
            None => None,
        }
    } else if cv < 32 {
        None
    } else {
        match take_strbody(s, i + 1) {
            Some((mut rest, k)) => {
                rest.insert(0, c);
                proof {
                    assert(rest@ =~= Seq::<char>::empty().push(c) + rest@.subrange(
                        1,
                        rest@.len() as int,
                    ));
                }
                Some((rest, k))
            },
            None => None,
        }
    }
}

/// Executable counterpart of `p_jstr`.
fn take_jstr(s: &Vec<char>, i: usize) -> (r: Option<(Vec<char>, usize)>)
    requires
        i <= s@.len(),
    ensures
        match r {
            Some((v, j)) => p_jstr(s@, i as int) == Some((v@, j as int)) && i < j <= s@.len(),
            None => p_jstr(s@, i as int) is None,
        },
{
    if i < s.len() && s[i] == '"' {
        take_strbody(s, i + 1)
    } else {
        None
    }
}


// ---------------------------------------------------------------------------
// Spec parsers: composites
// ---------------------------------------------------------------------------

/// A position object.
pub open spec fn p_pos(s: Seq<char>, i: int) -> Option<(PosModel, int)> {
    match p_lit(s, i, lit_x()) {
        Some(j1) => match p_i32(s, j1) {
            Some((x, j2)) => match p_lit(s, j2, lit_y()) {
                Some(j3) => match p_i32(s, j3) {
                    Some((y, j4)) => if j4 < s.len() && s[j4] == '}' {
                        Some((PosModel { x, y }, j4 + 1))
                    } else {
                        None
                    },
                    None => None,
                },
                None => None,
            },
            None => None,
        },
        None => None,
    }
}

/// A food object.
pub open spec fn p_food(s: Seq<char>, i: int) -> Option<(FoodModel, int)> {
    match p_lit(s, i, lit_position()) {
        Some(j1) => match p_pos(s, j1) {
            Some((p, j2)) => if j2 < s.len() && s[j2] == '}' {
                Some((FoodModel { position: p }, j2 + 1))
            } else {
                None
            },
            None => None,
        },
        None => None,
    }
}

/// The elements of a non-empty position array, through the closing bracket.
pub open spec fn p_pos_items(s: Seq<char>, i: int) -> Option<(Seq<PosModel>, int)>
    decreases s.len() - i,
{
    match p_pos(s, i) {
        Some((v, j)) => if i < j <= s.len() {
            if j < s.len() && s[j] == ',' {
                match p_pos_items(s, j + 1) {
                    Some((rest, k)) => Some((seq![v] + rest, k)),
                    None => None,
                }
            } else if j < s.len() && s[j] == ']' {
                Some((seq![v], j + 1))
            } else {
                None
            }
        } else {
            None
        },
        None => None,
    }
}

/// A position array, brackets included.
pub open spec fn p_pos_arr(s: Seq<char>, i: int) -> Option<(Seq<PosModel>, int)> {
    if 0 <= i < s.len() && s[i] == '[' {
        if i + 1 < s.len() && s[i + 1] == ']' {
            Some((Seq::empty(), i + 2))
        } else {
            p_pos_items(s, i + 1)
        }
    } else {
        None
    }
}

/// The elements of a non-empty food array, through the closing bracket.
pub open spec fn p_food_items(s: Seq<char>, i: int) -> Option<(Seq<FoodModel>, int)>
    decreases s.len() - i,
{
    match p_food(s, i) {
        Some((v, j)) => if i < j <= s.len() {
            if j < s.len() && s[j] == ',' {
                match p_food_items(s, j + 1) {
                    Some((rest, k)) => Some((seq![v] + rest, k)),
                    None => None,
                }
            } else if j < s.len() && s[j] == ']' {
                Some((seq![v], j + 1))
            } else {
                None
            }
        } else {
            None
        },
        None => None,
    }
}

/// A food array, brackets included.
pub open spec fn p_food_arr(s: Seq<char>, i: int) -> Option<(Seq<FoodModel>, int)> {
    if 0 <= i < s.len() && s[i] == '[' {
        if i + 1 < s.len() && s[i + 1] == ']' {
            Some((Seq::empty(), i + 2))
        } else {
            p_food_items(s, i + 1)
        }
    } else {
        None
    }
}

/// A snake object, fields in declaration order, bounds checked.
pub open spec fn p_snake(s: Seq<char>, i: int) -> Option<(SnakeModel, int)> {
    match p_lit(s, i, lit_id()) {
        Some(j1) => match p_nat(s, j1) {
            Some((id, j2)) => if id <= usize::MAX {
                match p_lit(s, j2, lit_body()) {
                    Some(j3) => match p_pos_arr(s, j3) {
                        Some((body, j4)) => match p_lit(s, j4, lit_dir()) {
                            Some(j5) => match p_dirname(s, j5) {
                                Some((d, j6)) => match p_lit(s, j6, lit_alive()) {
                                    Some(j7) => match p_bool(s, j7) {
                                        Some((alive, j8)) => match p_lit(s, j8, lit_score()) {
                                            Some(j9) => match p_nat(s, j9) {
                                                Some((score, j10)) => if score <= u32::MAX && j10
                                                    < s.len() && s[j10] == '}' {
                                                    Some(
                                                        (
                                                            SnakeModel {
                                                                id,
                                                                body,
                                                                direction: d,
                                                                alive,
                                                                score,
                                                            },
                                                            j10 + 1,
                                                        ),
                                                    )
                                                } else {
                                                    None
                                                },
                                                None => None,
                                            },
                                            None => None,
                                        },
                                        None => None,
                                    },
                                    None => None,
                                },
                                None => None,
                            },
                            None => None,
                        },
                        None => None,
                    },
                    None => None,
                }
            } else {
                None
            },
            None => None,
        },
        None => None,
    }
}

/// The elements of a non-empty snake array, through the closing bracket.
pub open spec fn p_snake_items(s: Seq<char>, i: int) -> Option<(Seq<SnakeModel>, int)>
    decreases s.len() - i,
{
    match p_snake(s, i) {
        Some((v, j)) => if i < j <= s.len() {
            if j < s.len() && s[j] == ',' {
                match p_snake_items(s, j + 1) {
                    Some((rest, k)) => Some((seq![v] + rest, k)),
                    None => None,
                }
            } else if j < s.len() && s[j] == ']' {
                Some((seq![v], j + 1))
            } else {
                None
            }
        } else {
            None
        },
        None => None,
    }
}

/// A snake array, brackets included.
pub open spec fn p_snake_arr(s: Seq<char>, i: int) -> Option<(Seq<SnakeModel>, int)> {
    if 0 <= i < s.len() && s[i] == '[' {
        if i + 1 < s.len() && s[i + 1] == ']' {
            Some((Seq::empty(), i + 2))
        } else {
            p_snake_items(s, i + 1)
        }
    } else {
        None
    }
}

/// One standing `[id,score]`, bounds checked.
pub open spec fn p_rank(s: Seq<char>, i: int) -> Option<((int, int), int)> {
    if 0 <= i < s.len() && s[i] == '[' {
        match p_nat(s, i + 1) {
            Some((id, j)) => if id <= usize::MAX && j < s.len() && s[j] == ',' {
                match p_nat(s, j + 1) {
                    Some((score, k)) => if score <= u32::MAX && k < s.len() && s[k] == ']' {
                        Some(((id, score), k + 1))
                    } else {
                        None
                    },
                    None => None,
                }
            } else {
                None
            },
            None => None,
        }
    } else {
        None
    }
}

/// The elements of a non-empty standings array, through the closing bracket.
pub open spec fn p_rank_items(s: Seq<char>, i: int) -> Option<(Seq<(int, int)>, int)>
    decreases s.len() - i,
{
    match p_rank(s, i) {
        Some((v, j)) => if i < j <= s.len() {
            if j < s.len() && s[j] == ',' {
                match p_rank_items(s, j + 1) {
                    Some((rest, k)) => Some((seq![v] + rest, k)),
                    None => None,
                }
            } else if j < s.len() && s[j] == ']' {
                Some((seq![v], j + 1))
            } else {
                None
            }
        } else {
            None
        },
        None => None,
    }
}

/// A standings array, brackets included.
pub open spec fn p_rank_arr(s: Seq<char>, i: int) -> Option<(Seq<(int, int)>, int)> {
    if 0 <= i < s.len() && s[i] == '[' {
        if i + 1 < s.len() && s[i + 1] == ']' {
            Some((Seq::empty(), i + 2))
        } else {
            p_rank_items(s, i + 1)
        }
    } else {
        None
    }
}

/// The payload of a snapshot message, from just after the tag through the
/// final closing brace of the record.
pub open spec fn p_state(s: Seq<char>, i: int) -> Option<(StateModel, int)> {
    match p_jstr(s, i) {
        Some((room_id, j1)) => match p_lit(s, j1, lit_snakes()) {
            Some(j2) => match p_snake_arr(s, j2) {
                Some((snakes, j3)) => match p_lit(s, j3, lit_foods()) {
                    Some(j4) => match p_food_arr(s, j4) {
                        Some((foods, j5)) => match p_lit(s, j5, lit_started()) {
                            Some(j6) => match p_bool(s, j6) {
                                Some((game_started, j7)) => match p_lit(s, j7, lit_overflag()) {
                                    Some(j8) => match p_bool(s, j8) {
                                        Some((game_over, j9)) => if j9 < s.len() && s[j9]
                                            == '}' {
                                            Some(
                                                (
                                                    StateModel {
                                                        room_id,
                                                        snakes,
                                                        foods,
                                                        game_started,
                                                        game_over,
                                                    },
                                                    j9 + 1,
                                                ),
                                            )
                                        } else {
                                            None
                                        },
                                        None => None,
                                    },
                                    None => None,
                                },
                                None => None,
                            },
                            None => None,
                        },
                        None => None,
                    },
                    None => None,
                },
                None => None,
            },
            None => None,
        },
        None => None,
    }
}

/// The whole decoder: a record decodes to a message exactly when it is,
/// from the first character to the last, the encoding of that message.
/// Everything else — a truncated record, an unknown tag, trailing text, an
/// out-of-range number — decodes to `None`.
pub open spec fn spec_decode(s: Seq<char>) -> Option<MessageModel> {
    match p_lit(s, 0, lit_head()) {
        Some(i0) => match p_lit(s, i0, lit_tag_pi()) {
            Some(j) => match p_dirname(s, j) {
                Some((d, j2)) => match p_lit(s, j2, lit_null_end()) {
                    Some(j3) => if j3 == s.len() {
                        Some(MessageModel::PlayerInput(d))
                    } else {
                        None
                    },
                    None => None,
                },
                None => None,
            },
            None => match p_lit(s, i0, lit_tag_ready()) {
                Some(j) => if j == s.len() {
                    Some(MessageModel::Ready)
                } else {
                    None
                },
                None => match p_lit(s, i0, lit_tag_gs()) {
                    Some(j) => match p_state(s, j) {
                        Some((st, j2)) => if j2 == s.len() {
                            Some(MessageModel::Snapshot(st))
                        } else {
                            None
                        },
                        None => None,
                    },
                    None => match p_lit(s, i0, lit_tag_ms()) {
                        Some(j) => match p_nat(s, j) {
                            Some((current, j2)) => if current <= usize::MAX {
                                match p_lit(s, j2, lit_required()) {
                                    Some(j3) => match p_nat(s, j3) {
                                        Some((required, j4)) => if required <= usize::MAX && j4
                                            + 1 == s.len() && s[j4] == '}' {
                                            Some(MessageModel::Matching { current, required })
                                        } else {
                                            None
                                        },
                                        None => None,
                                    },
                                    None => None,
                                }
                            } else {
                                None
                            },
                            None => None,
                        },
                        None => match p_lit(s, i0, lit_tag_go()) {
                            Some(j) => match p_rank_arr(s, j) {
                                Some((rankings, j2)) => if j2 + 1 == s.len() && s[j2] == '}' {
                                    Some(MessageModel::Over { rankings })
                                } else {
                                    None
                                },
                                None => None,
                            },
                            None => None,
                        },
                    },
                },
            },
        },
        None => None,
    }
}


// ---------------------------------------------------------------------------
// Executable parsers: composites
// ---------------------------------------------------------------------------

/// Builds the executable form of a fixed fragment.
fn x_vec() -> (v: Vec<char>)
    ensures
        v@ == lit_x(),
{
    let v: Vec<char> = vec!['{', '"', 'x', '"', ':'];
    proof {
        assert(v@ =~= lit_x());
    }
    v
}

/// Builds the executable form of a fixed fragment.
fn y_vec() -> (v: Vec<char>)
    ensures
        v@ == lit_y(),
{
    let v: Vec<char> = vec![',', '"', 'y', '"', ':'];
    proof {
        assert(v@ =~= lit_y());
    }
    v
}

/// Builds the executable form of a fixed fragment.
fn position_vec() -> (v: Vec<char>)
    ensures
        v@ == lit_position(),
{
    let v: Vec<char> = vec!['{', '"', 'p', 'o', 's', 'i', 't', 'i', 'o', 'n', '"', ':'];
    proof {
        assert(v@ =~= lit_position());
    }
    v
}

/// Executable counterpart of `p_pos`.
fn parse_pos(s: &Vec<char>, i: usize) -> (r: Option<(Position, usize)>)
    requires
        i <= s@.len(),
    ensures
        match r {
            Some((p, j)) => p_pos(s@, i as int) == Some((p@, j as int)) && i < j <= s@.len(),
            None => p_pos(s@, i as int) is None,
        },
{
    let lx = x_vec();
    let j1 = match eat_lit(s, i, &lx) {
        Some(j) => j,
        None => {
            return None;
        },
    };
    let (x, j2) = match take_i32(s, j1) {
        Some(t) => t,
        None => {
            return None;
        },
    };
    let ly = y_vec();
    let j3 = match eat_lit(s, j2, &ly) {
        Some(j) => j,
        None => {
            return None;
        },
    };
    let (y, j4) = match take_i32(s, j3) {
        Some(t) => t,
        None => {
            return None;
        },
    };
    if j4 < s.len() && s[j4] == '}' {
        Some((Position { x, y }, j4 + 1))
    } else {
        None
    }
}

/// Executable counterpart of `p_food`.
fn parse_food(s: &Vec<char>, i: usize) -> (r: Option<(Food, usize)>)
    requires
        i <= s@.len(),
    ensures
        match r {
            Some((f, j)) => p_food(s@, i as int) == Some((f@, j as int)) && i < j <= s@.len(),
            None => p_food(s@, i as int) is None,
        },
{
    let lp = position_vec();
    let j1 = match eat_lit(s, i, &lp) {
        Some(j) => j,
        None => {
            return None;
        },
    };
    let (p, j2) = match parse_pos(s, j1) {
        Some(t) => t,
        None => {
            return None;
        },
    };
    if j2 < s.len() && s[j2] == '}' {
        Some((Food { position: p }, j2 + 1))
    } else {
        None
    }
}

/// Executable counterpart of `p_pos_items`.
fn parse_pos_items(s: &Vec<char>, i: usize) -> (r: Option<(Vec<Position>, usize)>)
    requires
        i <= s@.len(),
    ensures
        match r {
            Some((v, j)) => p_pos_items(s@, i as int) == Some(
                (v@.map_values(|p: Position| p@), j as int),
            ) && i < j <= s@.len(),
            None => p_pos_items(s@, i as int) is None,
        },
    decreases s@.len() - i,
{
    match parse_pos(s, i) {
        Some((p, j)) => {
            if j < s.len() && s[j] == ',' {
                match parse_pos_items(s, j + 1) {
                    Some((mut rest, k)) => {
                        rest.insert(0, p);
                        proof {
                            assert(rest@.map_values(|q: Position| q@) =~= seq![p@]
                                + rest@.subrange(1, rest@.len() as int).map_values(
                                |q: Position| q@,
                            ));
                        }
                        Some((rest, k))
                    },
                    None => None,
                }
            } else if j < s.len() && s[j] == ']' {
                let mut v: Vec<Position> = Vec::new();
                v.push(p);
                proof {
                    assert(v@.map_values(|q: Position| q@) =~= seq![p@]);
                }
                Some((v, j + 1))
            } else {
                None
            }
        },
        None => None,
    }
}

/// Executable counterpart of `p_pos_arr`.
fn parse_pos_arr(s: &Vec<char>, i: usize) -> (r: Option<(Vec<Position>, usize)>)
    requires
        i <= s@.len(),
    ensures
        match r {
            Some((v, j)) => p_pos_arr(s@, i as int) == Some(
                (v@.map_values(|p: Position| p@), j as int),
            ) && i < j <= s@.len(),
            None => p_pos_arr(s@, i as int) is None,
        },
{
    if i < s.len() && s[i] == '[' {
        if i + 1 < s.len() && s[i + 1] == ']' {
            let v: Vec<Position> = Vec::new();
            proof {
                assert(v@.map_values(|p: Position| p@) =~= Seq::<PosModel>::empty());
            }
            Some((v, i + 2))
        } else {
            parse_pos_items(s, i + 1)
        }
    } else {
        None
    }
}

/// Executable counterpart of `p_food_items`.
fn parse_food_items(s: &Vec<char>, i: usize) -> (r: Option<(Vec<Food>, usize)>)
    requires
        i <= s@.len(),
    ensures
        match r {
            Some((v, j)) => p_food_items(s@, i as int) == Some(
                (v@.map_values(|f: Food| f@), j as int),
            ) && i < j <= s@.len(),
            None => p_food_items(s@, i as int) is None,
        },
    decreases s@.len() - i,
{
    match parse_food(s, i) {
        Some((f, j)) => {
            if j < s.len() && s[j] == ',' {
                match parse_food_items(s, j + 1) {
                    Some((mut rest, k)) => {
                        rest.insert(0, f);
                        proof {
                            assert(rest@.map_values(|q: Food| q@) =~= seq![rest@[0]@]
                                + rest@.subrange(1, rest@.len() as int).map_values(
                                |q: Food| q@,
                            ));
                        }
                        Some((rest, k))
                    },
                    None => None,
                }
            } else if j < s.len() && s[j] == ']' {
                let ghost fm = f@;
                let mut v: Vec<Food> = Vec::new();
                v.push(f);
                proof {
                    assert(v@.map_values(|q: Food| q@) =~= seq![fm]);
                }
                Some((v, j + 1))
            } else {
                None
            }
        },
        None => None,
    }
}

/// Executable counterpart of `p_food_arr`.
fn parse_food_arr(s: &Vec<char>, i: usize) -> (r: Option<(Vec<Food>, usize)>)
    requires
        i <= s@.len(),
    ensures
        match r {
            Some((v, j)) => p_food_arr(s@, i as int) == Some(
                (v@.map_values(|f: Food| f@), j as int),
            ) && i < j <= s@.len(),
            None => p_food_arr(s@, i as int) is None,
        },
{
    if i < s.len() && s[i] == '[' {
        if i + 1 < s.len() && s[i + 1] == ']' {
            let v: Vec<Food> = Vec::new();
            proof {
                assert(v@.map_values(|f: Food| f@) =~= Seq::<FoodModel>::empty());
            }
            Some((v, i + 2))
        } else {
            parse_food_items(s, i + 1)
        }
    } else {
        None
    }
}

/// Executable counterpart of `p_snake`.
fn parse_snake(s: &Vec<char>, i: usize) -> (r: Option<(Snake, usize)>)
    requires
        i <= s@.len(),
    ensures
        match r {
            Some((sn, j)) => p_snake(s@, i as int) == Some((sn@, j as int)) && i < j
                <= s@.len(),
            None => p_snake(s@, i as int) is None,
        },
{
    let lid = crate::codec::lit_id_vec();
    let j1 = match eat_lit(s, i, &lid) {
        Some(j) => j,
        None => {
            return None;
        },
    };
    let (id, j2) = match take_nat(s, j1) {
        Some((v, j, fits)) => {
            if fits && v <= usize::MAX as u64 {
                (v as usize, j)
            } else {
                return None;
            }
        },
        None => {
            return None;
        },
    };
    let lbody = crate::codec::lit_body_vec();
    let j3 = match eat_lit(s, j2, &lbody) {
        Some(j) => j,
        None => {
            return None;
        },
    };
    let (body, j4) = match parse_pos_arr(s, j3) {
        Some(t) => t,
        None => {
            return None;
        },
    };
    let ldir = crate::codec::lit_dir_vec();
    let j5 = match eat_lit(s, j4, &ldir) {
        Some(j) => j,
        None => {
            return None;
        },
    };
    let (d, j6) = match take_dirname(s, j5) {
        Some(t) => t,
        None => {
            return None;
        },
    };
    let lalive = crate::codec::lit_alive_vec();
    let j7 = match eat_lit(s, j6, &lalive) {
        Some(j) => j,
        None => {
            return None;
        },
    };
    let (alive, j8) = match take_bool(s, j7) {
        Some(t) => t,
        None => {
            return None;
        },
    };
    let lscore = crate::codec::lit_score_vec();
    let j9 = match eat_lit(s, j8, &lscore) {
        Some(j) => j,
        None => {
            return None;
        },
    };
    let (score, j10) = match take_nat(s, j9) {
        Some((v, j, fits)) => {
            if fits && v <= u32::MAX as u64 {
                (v as u32, j)
            } else {
                return None;
            }
        },
        None => {
            return None;
        },
    };
    if j10 < s.len() && s[j10] == '}' {
        Some((Snake { id, body, direction: d, alive, score }, j10 + 1))
    } else {
        None
    }
}

/// Executable counterpart of `p_snake_items`.
fn parse_snake_items(s: &Vec<char>, i: usize) -> (r: Option<(Vec<Snake>, usize)>)
    requires
        i <= s@.len(),
    ensures
        match r {
            Some((v, j)) => p_snake_items(s@, i as int) == Some(
                (v@.map_values(|sn: Snake| sn@), j as int),
            ) && i < j <= s@.len(),
            None => p_snake_items(s@, i as int) is None,
        },
    decreases s@.len() - i,
{
    match parse_snake(s, i) {
        Some((sn, j)) => {
            if j < s.len() && s[j] == ',' {
                match parse_snake_items(s, j + 1) {
                    Some((mut rest, k)) => {
                        rest.insert(0, sn);
                        proof {
                            assert(rest@.map_values(|q: Snake| q@) =~= seq![rest@[0]@]
                                + rest@.subrange(1, rest@.len() as int).map_values(
                                |q: Snake| q@,
                            ));
                        }
                        Some((rest, k))
                    },
                    None => None,
                }
            } else if j < s.len() && s[j] == ']' {
                let ghost snm = sn@;
                let mut v: Vec<Snake> = Vec::new();
                v.push(sn);
                proof {
                    assert(v@.map_values(|q: Snake| q@) =~= seq![snm]);
                }
                Some((v, j + 1))
            } else {
                None
            }
        },
        None => None,
    }
}

/// Executable counterpart of `p_snake_arr`.
fn parse_snake_arr(s: &Vec<char>, i: usize) -> (r: Option<(Vec<Snake>, usize)>)
    requires
        i <= s@.len(),
    ensures
        match r {
            Some((v, j)) => p_snake_arr(s@, i as int) == Some(
                (v@.map_values(|sn: Snake| sn@), j as int),
            ) && i < j <= s@.len(),
            None => p_snake_arr(s@, i as int) is None,
        },
{
    if i < s.len() && s[i] == '[' {
        if i + 1 < s.len() && s[i + 1] == ']' {
            let v: Vec<Snake> = Vec::new();
            proof {
                assert(v@.map_values(|sn: Snake| sn@) =~= Seq::<SnakeModel>::empty());
            }
            Some((v, i + 2))
        } else {
            parse_snake_items(s, i + 1)
        }
    } else {
        None
    }
}

/// Executable counterpart of `p_rank`.
fn parse_rank(s: &Vec<char>, i: usize) -> (r: Option<((usize, u32), usize)>)
    requires
        i <= s@.len(),
    ensures
        match r {
            Some(((id, score), j)) => p_rank(s@, i as int) == Some(
                ((id as int, score as int), j as int),
            ) && i < j <= s@.len(),
            None => p_rank(s@, i as int) is None,
        },
{
    if i < s.len() && s[i] == '[' {
        let (id, j) = match take_nat(s, i + 1) {
            Some((v, j, fits)) => {
                if fits && v <= usize::MAX as u64 {
                    (v as usize, j)
                } else {
                    return None;
                }
            },
            None => {
                return None;
            },
        };
        if j < s.len() && s[j] == ',' {
            let (score, k) = match take_nat(s, j + 1) {
                Some((v, k, fits)) => {
                    if fits && v <= u32::MAX as u64 {
                        (v as u32, k)
                    } else {
                        return None;
                    }
                },
                None => {
                    return None;
                },
            };
            if k < s.len() && s[k] == ']' {
                Some(((id, score), k + 1))
            } else {
                None
            }
        } else {
            None
        }
    } else {
        None
    }
}

/// Executable counterpart of `p_rank_items`.
fn parse_rank_items(s: &Vec<char>, i: usize) -> (r: Option<(Vec<(usize, u32)>, usize)>)
    requires
        i <= s@.len(),
    ensures
        match r {
            Some((v, j)) => p_rank_items(s@, i as int) == Some(
                (v@.map_values(|t: (usize, u32)| (t.0 as int, t.1 as int)), j as int),
            ) && i < j <= s@.len(),
            None => p_rank_items(s@, i as int) is None,
        },
    decreases s@.len() - i,
{
    match parse_rank(s, i) {
        Some((t, j)) => {
            if j < s.len() && s[j] == ',' {
                match parse_rank_items(s, j + 1) {
                    Some((mut rest, k)) => {
                        rest.insert(0, t);
                        proof {
                            let f = |q: (usize, u32)| (q.0 as int, q.1 as int);
                            assert(rest@.map_values(f) =~= seq![f(rest@[0])] + rest@.subrange(
                                1,
                                rest@.len() as int,
                            ).map_values(f));
                        }
                        Some((rest, k))
                    },
                    None => None,
                }
            } else if j < s.len() && s[j] == ']' {
                let mut v: Vec<(usize, u32)> = Vec::new();
                v.push(t);
                proof {
                    let f = |q: (usize, u32)| (q.0 as int, q.1 as int);
                    assert(v@.map_values(f) =~= seq![f(t)]);
                }
                Some((v, j + 1))
            } else {
                None
            }
        },
        None => None,
    }
}

/// Executable counterpart of `p_rank_arr`.
fn parse_rank_arr(s: &Vec<char>, i: usize) -> (r: Option<(Vec<(usize, u32)>, usize)>)
    requires
        i <= s@.len(),
    ensures
        match r {
            Some((v, j)) => p_rank_arr(s@, i as int) == Some(
                (v@.map_values(|t: (usize, u32)| (t.0 as int, t.1 as int)), j as int),
            ) && i < j <= s@.len(),
            None => p_rank_arr(s@, i as int) is None,
        },
{
    if i < s.len() && s[i] == '[' {
        if i + 1 < s.len() && s[i + 1] == ']' {
            let v: Vec<(usize, u32)> = Vec::new();
            proof {
                assert(v@.map_values(|t: (usize, u32)| (t.0 as int, t.1 as int))
                    =~= Seq::<(int, int)>::empty());
            }
            Some((v, i + 2))
        } else {
            parse_rank_items(s, i + 1)
        }
    } else {
        None
    }
}

/// Executable counterpart of `p_state`.
fn parse_state(s: &Vec<char>, i: usize) -> (r: Option<(GameState, usize)>)
    requires
        i <= s@.len(),
    ensures
        match r {
            Some((st, j)) => p_state(s@, i as int) == Some((st@, j as int)) && i < j
                <= s@.len(),
            None => p_state(s@, i as int) is None,
        },
{
    let (room_chars, j1) = match take_jstr(s, i) {
        Some(t) => t,
        None => {
            return None;
        },
    };
    let room_id = crate::codec::chars_to_string(&room_chars);
    let lsnakes = crate::codec::lit_snakes_vec();
    let j2 = match eat_lit(s, j1, &lsnakes) {
        Some(j) => j,
        None => {
            return None;
        },
    };
    let (snakes, j3) = match parse_snake_arr(s, j2) {
        Some(t) => t,
        None => {
            return None;
        },
    };
    let lfoods = crate::codec::lit_foods_vec();
    let j4 = match eat_lit(s, j3, &lfoods) {
        Some(j) => j,
        None => {
            return None;
        },
    };
    let (foods, j5) = match parse_food_arr(s, j4) {
        Some(t) => t,
        None => {
            return None;
        },
    };
    let lstarted = crate::codec::lit_started_vec();
    let j6 = match eat_lit(s, j5, &lstarted) {
        Some(j) => j,
        None => {
            return None;
        },
    };
    let (game_started, j7) = match take_bool(s, j6) {
        Some(t) => t,
        None => {
            return None;
        },
    };
    let lover = crate::codec::lit_overflag_vec();
    let j8 = match eat_lit(s, j7, &lover) {
        Some(j) => j,
        None => {
            return None;
        },
    };
    let (game_over, j9) = match take_bool(s, j8) {
        Some(t) => t,
        None => {
            return None;
        },
    };
    if j9 < s.len() && s[j9] == '}' {
        Some((GameState { room_id, snakes, foods, game_started, game_over }, j9 + 1))
    } else {
        None
    }
}

/// Decodes one wire record.  The result is `Some(m)` exactly when the text
/// is the complete encoding of `m`; all other text yields `None`, never a
/// panic.
#[verifier::rlimit(100)]
pub fn decode_message(s: &Vec<char>) -> (r: Option<GameMessage>)
    ensures
        match r {
            Some(m) => spec_decode(s@) == Some(m@),
            None => spec_decode(s@) is None,
        },
{
    let lhead = crate::codec::lit_head_vec();
    let i0 = match eat_lit(s, 0, &lhead) {
        Some(j) => j,
        None => {
            return None;
        },
    };
    let lpi = crate::codec::lit_tag_pi_vec();
    match eat_lit(s, i0, &lpi) {
        Some(j) => {
            let (d, j2) = match take_dirname(s, j) {
                Some(t) => t,
                None => {
                    return None;
                },
            };
            let lnull = crate::codec::lit_null_end_vec();
            let j3 = match eat_lit(s, j2, &lnull) {
                Some(t) => t,
                None => {
                    return None;
                },
            };
            if j3 == s.len() {
                return Some(GameMessage::PlayerInput(d));
            } else {
                return None;
            }
        },
        None => {},
    }
    let lready = crate::codec::lit_tag_ready_vec();
    match eat_lit(s, i0, &lready) {
        Some(j) => {
            if j == s.len() {
                return Some(GameMessage::Ready);
            } else {
                return None;
            }
        },
        None => {},
    }
    let lgs = crate::codec::lit_tag_gs_vec();
    match eat_lit(s, i0, &lgs) {
        Some(j) => {
            let (st, j2) = match parse_state(s, j) {
                Some(t) => t,
                None => {
                    return None;
                },
            };
            if j2 == s.len() {
                return Some(GameMessage::GameState(st));
            } else {
                return None;
            }
        },
        None => {},
    }
    let lms = crate::codec::lit_tag_ms_vec();
    match eat_lit(s, i0, &lms) {
        Some(j) => {
            let (current, j2) = match take_nat(s, j) {
                Some((v, j2, fits)) => {
                    if fits && v <= usize::MAX as u64 {
                        (v as usize, j2)
                    } else {
                        return None;
                    }
                },
                None => {
                    return None;
                },
            };
            let lreq = crate::codec::lit_required_vec();
            let j3 = match eat_lit(s, j2, &lreq) {
                Some(t) => t,
                None => {
                    return None;
                },
            };
            let (required, j4) = match take_nat(s, j3) {
                Some((v, j4, fits)) => {
                    if fits && v <= usize::MAX as u64 {
                        (v as usize, j4)
                    } else {
                        return None;
                    }
                },
                None => {
                    return None;
                },
            };
            if j4 < s.len() && s[j4] == '}' && j4 + 1 == s.len() {
                return Some(GameMessage::MatchingStatus { current, required });
            } else {
                return None;
            }
        },
        None => {},
    }
    let lgo = crate::codec::lit_tag_go_vec();
    match eat_lit(s, i0, &lgo) {
        Some(j) => {
            let (rankings, j2) = match parse_rank_arr(s, j) {
                Some(t) => t,
                None => {
                    return None;
                },
            };
            if j2 < s.len() && s[j2] == '}' && j2 + 1 == s.len() {
                return Some(GameMessage::GameOver { rankings });
            } else {
                return None;
            }
        },
        None => {},
    }
    None
}

/// Decodes one wire record given as a `&str`.
pub fn decode_message_text(s: &str) -> (r: Option<GameMessage>)
    ensures
        match r {
            Some(m) => spec_decode(s@) == Some(m@),
            None => spec_decode(s@) is None,
        },
{
    let v = crate::codec::str_to_chars(s);
    decode_message(&v)
}

} // verus!
