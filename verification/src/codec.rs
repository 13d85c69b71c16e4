//! Wire encoding of `GameMessage`: each message serializes to a
//! self-describing text record — a JSON object carrying a `type` tag, with
//! the fields in declaration order and no extra whitespace.  The spec
//! functions here define the grammar character by character; the executable
//! encoders are proved to produce exactly that text, and `decode` (in its
//! own module) is proved to be its exact reader.

use vstd::prelude::*;
use vstd::string::StrSliceExecFns;
use crate::types::{Direction, Food, FoodModel, GameMessage, MessageModel, PosModel, Position, Snake, SnakeModel, StateModel};

verus! {

// ---------------------------------------------------------------------------
// Digits and numbers
// ---------------------------------------------------------------------------

/// The decimal digit character for a value below ten.
pub open spec fn digit_char(d: int) -> char {
    if d == 0 { '0' }
    else if d == 1 { '1' }
    else if d == 2 { '2' }
    else if d == 3 { '3' }
    else if d == 4 { '4' }
    else if d == 5 { '5' }
    else if d == 6 { '6' }
    else if d == 7 { '7' }
    else if d == 8 { '8' }
    else { '9' }
}

/// The decimal digits of a non-negative number, most significant first.
pub open spec fn dec_digits(n: nat) -> Seq<char>
    decreases n,
{
    if n < 10 {
        seq![digit_char(n as int)]
    } else {
        dec_digits(n / 10) + seq![digit_char((n % 10) as int)]
    }
}

/// A possibly negative integer in decimal: a minus sign and the digits of
/// the magnitude, or just the digits.
pub open spec fn enc_int(n: int) -> Seq<char> {
    if n < 0 {
        seq!['-'] + dec_digits((-n) as nat)
    } else {
        dec_digits(n as nat)
    }
}

/// The lower-case hexadecimal digit character for a value below sixteen.
pub open spec fn hex_digit(d: int) -> char {
    if d == 0 { '0' }
    else if d == 1 { '1' }
    else if d == 2 { '2' }
    else if d == 3 { '3' }
    else if d == 4 { '4' }
    else if d == 5 { '5' }
    else if d == 6 { '6' }
    else if d == 7 { '7' }
    else if d == 8 { '8' }
    else if d == 9 { '9' }
    else if d == 10 { 'a' }
    else if d == 11 { 'b' }
    else if d == 12 { 'c' }
    else if d == 13 { 'd' }
    else if d == 14 { 'e' }
    else { 'f' }
}

// ---------------------------------------------------------------------------
// Strings
// ---------------------------------------------------------------------------

/// How one character appears inside a JSON string: quote and backslash are
/// escaped, the named control characters take their short escapes, any
/// other control character takes a `\u00..` escape, and everything else
/// stands for itself.
pub open spec fn esc_char(c: char) -> Seq<char> {
    if c == '"' {
        seq!['\\', '"']
    } else if c == '\\' {
        seq!['\\', '\\']
    } else if c == '\u{8}' {
        seq!['\\', 'b']
    } else if c == '\u{9}' {
        seq!['\\', 't']
    } else if c == '\u{a}' {
        seq!['\\', 'n']
    } else if c == '\u{c}' {
        seq!['\\', 'f']
    } else if c == '\u{d}' {
        seq!['\\', 'r']
    } else if 0 <= c as int && (c as int) < 32 {
        seq!['\\', 'u', '0', '0', hex_digit((c as int) / 16), hex_digit((c as int) % 16)]
    } else {
        seq![c]
    }
}

/// The body of a JSON string: each character escaped as needed.
pub open spec fn esc_str(s: Seq<char>) -> Seq<char>
    decreases s.len(),
{
    if s.len() == 0 {
        Seq::empty()
    } else {
        esc_char(s[0]) + esc_str(s.subrange(1, s.len() as int))
    }
}

/// A complete JSON string: the escaped body between quotes.
pub open spec fn enc_jstr(s: Seq<char>) -> Seq<char> {
    seq!['"'] + esc_str(s) + seq!['"']
}

// ---------------------------------------------------------------------------
// Fixed fragments of the grammar
// ---------------------------------------------------------------------------

pub open spec fn lit_head() -> Seq<char> {
    seq!['{', '"', 't', 'y', 'p', 'e', '"', ':', '"']
}

pub open spec fn lit_tag_pi() -> Seq<char> {
    seq!['P', 'l', 'a', 'y', 'e', 'r', 'I', 'n', 'p', 'u', 't', '"', ',', '"']
}

pub open spec fn lit_null_end() -> Seq<char> {
    seq!['"', ':', 'n', 'u', 'l', 'l', '}']
}

pub open spec fn lit_tag_ready() -> Seq<char> {
    seq!['R', 'e', 'a', 'd', 'y', '"', '}']
}

pub open spec fn lit_tag_gs() -> Seq<char> {
    seq!['G', 'a', 'm', 'e', 'S', 't', 'a', 't', 'e', '"', ',', '"', 'r', 'o', 'o', 'm', '_',
        'i', 'd', '"', ':']
}

pub open spec fn lit_snakes() -> Seq<char> {
    seq![',', '"', 's', 'n', 'a', 'k', 'e', 's', '"', ':']
}

pub open spec fn lit_foods() -> Seq<char> {
    seq![',', '"', 'f', 'o', 'o', 'd', 's', '"', ':']
}

pub open spec fn lit_started() -> Seq<char> {
    seq![',', '"', 'g', 'a', 'm', 'e', '_', 's', 't', 'a', 'r', 't', 'e', 'd', '"', ':']
}

pub open spec fn lit_overflag() -> Seq<char> {
    seq![',', '"', 'g', 'a', 'm', 'e', '_', 'o', 'v', 'e', 'r', '"', ':']
}

pub open spec fn lit_tag_ms() -> Seq<char> {
    seq!['M', 'a', 't', 'c', 'h', 'i', 'n', 'g', 'S', 't', 'a', 't', 'u', 's', '"', ',', '"',
        'c', 'u', 'r', 'r', 'e', 'n', 't', '"', ':']
}

pub open spec fn lit_required() -> Seq<char> {
    seq![',', '"', 'r', 'e', 'q', 'u', 'i', 'r', 'e', 'd', '"', ':']
}

pub open spec fn lit_tag_go() -> Seq<char> {
    seq!['G', 'a', 'm', 'e', 'O', 'v', 'e', 'r', '"', ',', '"', 'r', 'a', 'n', 'k', 'i', 'n',
        'g', 's', '"', ':']
}

pub open spec fn lit_id() -> Seq<char> {
    seq!['{', '"', 'i', 'd', '"', ':']
}

pub open spec fn lit_body() -> Seq<char> {
    seq![',', '"', 'b', 'o', 'd', 'y', '"', ':']
}

pub open spec fn lit_dir() -> Seq<char> {
    seq![',', '"', 'd', 'i', 'r', 'e', 'c', 't', 'i', 'o', 'n', '"', ':', '"']
}

pub open spec fn lit_alive() -> Seq<char> {
    seq!['"', ',', '"', 'a', 'l', 'i', 'v', 'e', '"', ':']
}

pub open spec fn lit_score() -> Seq<char> {
    seq![',', '"', 's', 'c', 'o', 'r', 'e', '"', ':']
}

pub open spec fn lit_x() -> Seq<char> {
    seq!['{', '"', 'x', '"', ':']
}

pub open spec fn lit_y() -> Seq<char> {
    seq![',', '"', 'y', '"', ':']
}

pub open spec fn lit_position() -> Seq<char> {
    seq!['{', '"', 'p', 'o', 's', 'i', 't', 'i', 'o', 'n', '"', ':']
}

pub open spec fn lit_true() -> Seq<char> {
    seq!['t', 'r', 'u', 'e']
}

pub open spec fn lit_false() -> Seq<char> {
    seq!['f', 'a', 'l', 's', 'e']
}

/// A JSON boolean.
pub open spec fn enc_bool(b: bool) -> Seq<char> {
    if b {
        lit_true()
    } else {
        lit_false()
    }
}

/// The wire name of a direction.
pub open spec fn dir_name(d: Direction) -> Seq<char> {
    match d {
        Direction::Up => seq!['U', 'p'],
        Direction::Down => seq!['D', 'o', 'w', 'n'],
        Direction::Left => seq!['L', 'e', 'f', 't'],
        Direction::Right => seq!['R', 'i', 'g', 'h', 't'],
    }
}

// ---------------------------------------------------------------------------
// Composite values
// ---------------------------------------------------------------------------

/// A position object: `{"x":..,"y":..}`.
pub open spec fn enc_pos(p: PosModel) -> Seq<char> {
    lit_x() + enc_int(p.x) + lit_y() + enc_int(p.y) + seq!['}']
}

/// A food object: `{"position":{..}}`.
pub open spec fn enc_food(f: FoodModel) -> Seq<char> {
    lit_position() + enc_pos(f.position) + seq!['}']
}

/// A snake object, fields in declaration order.
pub open spec fn enc_snake(sn: SnakeModel) -> Seq<char> {
    lit_id() + dec_digits(sn.id as nat) + lit_body() + enc_pos_arr(sn.body) + lit_dir()
        + dir_name(sn.direction) + lit_alive() + enc_bool(sn.alive) + lit_score()
        + dec_digits(sn.score as nat) + seq!['}']
}

/// One standing: a two-element array `[id,score]`.
pub open spec fn enc_rank(r: (int, int)) -> Seq<char> {
    seq!['['] + dec_digits(r.0 as nat) + seq![','] + dec_digits(r.1 as nat) + seq![']']
}

/// Comma-separated position objects.
pub open spec fn enc_pos_items(l: Seq<PosModel>) -> Seq<char>
    decreases l.len(),
{
    if l.len() == 0 {
        Seq::empty()
    } else if l.len() == 1 {
        enc_pos(l[0])
    } else {
        enc_pos(l[0]) + seq![','] + enc_pos_items(l.subrange(1, l.len() as int))
    }
}

/// A JSON array of position objects.
pub open spec fn enc_pos_arr(l: Seq<PosModel>) -> Seq<char> {
    seq!['['] + enc_pos_items(l) + seq![']']
}

/// Comma-separated food objects.
pub open spec fn enc_food_items(l: Seq<FoodModel>) -> Seq<char>
    decreases l.len(),
{
    if l.len() == 0 {
        Seq::empty()
    } else if l.len() == 1 {
        enc_food(l[0])
    } else {
        enc_food(l[0]) + seq![','] + enc_food_items(l.subrange(1, l.len() as int))
    }
}

/// A JSON array of food objects.
pub open spec fn enc_food_arr(l: Seq<FoodModel>) -> Seq<char> {
    seq!['['] + enc_food_items(l) + seq![']']
}

/// Comma-separated snake objects.
pub open spec fn enc_snake_items(l: Seq<SnakeModel>) -> Seq<char>
    decreases l.len(),
{
    if l.len() == 0 {
        Seq::empty()
    } else if l.len() == 1 {
        enc_snake(l[0])
    } else {
        enc_snake(l[0]) + seq![','] + enc_snake_items(l.subrange(1, l.len() as int))
    }
}

/// A JSON array of snake objects.
pub open spec fn enc_snake_arr(l: Seq<SnakeModel>) -> Seq<char> {
    seq!['['] + enc_snake_items(l) + seq![']']
}

/// Comma-separated standings.
pub open spec fn enc_rank_items(l: Seq<(int, int)>) -> Seq<char>
    decreases l.len(),
{
    if l.len() == 0 {
        Seq::empty()
    } else if l.len() == 1 {
        enc_rank(l[0])
    } else {
        enc_rank(l[0]) + seq![','] + enc_rank_items(l.subrange(1, l.len() as int))
    }
}

/// A JSON array of standings.
pub open spec fn enc_rank_arr(l: Seq<(int, int)>) -> Seq<char> {
    seq!['['] + enc_rank_items(l) + seq![']']
}

/// The payload of a snapshot message after its tag, through the final
/// closing brace of the record.
pub open spec fn enc_state_tail(st: StateModel) -> Seq<char> {
    enc_jstr(st.room_id) + lit_snakes() + enc_snake_arr(st.snakes) + lit_foods()
        + enc_food_arr(st.foods) + lit_started() + enc_bool(st.game_started) + lit_overflag()
        + enc_bool(st.game_over) + seq!['}']
}

/// The full wire text of a message: the tag discriminates, and each
/// variant's payload follows with its field names, exactly as the server
/// writes and reads them.
pub open spec fn enc_msg(m: MessageModel) -> Seq<char> {
    match m {
        MessageModel::PlayerInput(d) => lit_head() + lit_tag_pi() + dir_name(d)
            + lit_null_end(),
        MessageModel::Ready => lit_head() + lit_tag_ready(),
        MessageModel::Snapshot(st) => lit_head() + lit_tag_gs() + enc_state_tail(st),
        MessageModel::Matching { current, required } => lit_head() + lit_tag_ms()
            + dec_digits(current as nat) + lit_required() + dec_digits(required as nat)
            + seq!['}'],
        MessageModel::Over { rankings } => lit_head() + lit_tag_go() + enc_rank_arr(rankings)
            + seq!['}'],
    }
}

// ---------------------------------------------------------------------------
// Executable encoders
// ---------------------------------------------------------------------------

/// Executable counterpart of `digit_char`.
fn digit_char_exec(d: u64) -> (c: char)
    requires
        d < 10,
    ensures
        c == digit_char(d as int),
{
    match d {
        0 => '0',
        1 => '1',
        2 => '2',
        3 => '3',
        4 => '4',
        5 => '5',
        6 => '6',
        7 => '7',
        8 => '8',
        _ => '9',
    }
}

/// Executable counterpart of `hex_digit`.
fn hex_digit_exec(d: u32) -> (c: char)
    requires
        d < 16,
    ensures
        c == hex_digit(d as int),
{
    match d {
        0 => '0',
        1 => '1',
        2 => '2',
        3 => '3',
        4 => '4',
        5 => '5',
        6 => '6',
        7 => '7',
        8 => '8',
        9 => '9',
        10 => 'a',
        11 => 'b',
        12 => 'c',
        13 => 'd',
        14 => 'e',
        _ => 'f',
    }
}

/// Appends every character of `pat` to `out`.
fn append_vec(out: &mut Vec<char>, pat: &Vec<char>)
    ensures
        final(out)@ == old(out)@ + pat@,
{
    let mut k: usize = 0;
    while k < pat.len()
        invariant
            k <= pat@.len(),
            out@ == old(out)@ + pat@.subrange(0, k as int),
        decreases pat@.len() - k,
    {
        out.push(pat[k]);
        proof {
            assert(pat@.subrange(0, (k + 1) as int) =~= pat@.subrange(0, k as int).push(
                pat@[k as int],
            ));
        }
        k += 1;
    }
    proof {
        assert(pat@.subrange(0, pat@.len() as int) =~= pat@);
    }
}

/// Appends the decimal digits of `n` to `out`.
pub fn push_nat(out: &mut Vec<char>, n: u64)
    ensures
        final(out)@ == old(out)@ + dec_digits(n as nat),
    decreases n,
{
    if n < 10 {
        out.push(digit_char_exec(n));
    } else {
        push_nat(out, n / 10);
        out.push(digit_char_exec(n % 10));
        assert(final(out)@ =~= old(out)@ + dec_digits(n as nat));
    }
}

/// Appends a possibly negative `i32` in decimal to `out`.
fn push_i32(out: &mut Vec<char>, v: i32)
    ensures
        final(out)@ == old(out)@ + enc_int(v as int),
{
    if v < 0 {
        out.push('-');
        let mag: u64 = (-(v as i64)) as u64;
        push_nat(out, mag);
        proof {
            assert(mag as nat == (-(v as int)) as nat);
            assert(final(out)@ =~= old(out)@ + enc_int(v as int));
        }
    } else {
        push_nat(out, v as u64);
        proof {
            assert((v as u64) as nat == (v as int) as nat);
        }
    }
}

/// Appends `true` or `false` to `out`.
fn push_bool(out: &mut Vec<char>, b: bool)
    ensures
        final(out)@ == old(out)@ + enc_bool(b),
{
    if b {
        out.push('t');
        out.push('r');
        out.push('u');
        out.push('e');
        proof {
            assert(final(out)@ =~= old(out)@ + lit_true());
        }
    } else {
        out.push('f');
        out.push('a');
        out.push('l');
        out.push('s');
        out.push('e');
        proof {
            assert(final(out)@ =~= old(out)@ + lit_false());
        }
    }
}

/// Appends the wire name of a direction to `out`.
fn push_dirname(out: &mut Vec<char>, d: Direction)
    ensures
        final(out)@ == old(out)@ + dir_name(d),
{
    match d {
        Direction::Up => {
            out.push('U');
            out.push('p');
        },
        Direction::Down => {
            out.push('D');
            out.push('o');
            out.push('w');
            out.push('n');
        },
        Direction::Left => {
            out.push('L');
            out.push('e');
            out.push('f');
            out.push('t');
        },
        Direction::Right => {
            out.push('R');
            out.push('i');
            out.push('g');
            out.push('h');
            out.push('t');
        },
    }
    proof {
        assert(final(out)@ =~= old(out)@ + dir_name(d));
    }
}

/// Appends the escape of one string character to `out`.
fn push_esc_char(out: &mut Vec<char>, c: char)
    ensures
        final(out)@ == old(out)@ + esc_char(c),
{
    if c == '"' {
        out.push('\\');
        out.push('"');
    } else if c == '\\' {
        out.push('\\');
        out.push('\\');
    } else if c == '\u{8}' {
        out.push('\\');
        out.push('b');
    } else if c == '\u{9}' {
        out.push('\\');
        out.push('t');
    } else if c == '\u{a}' {
        out.push('\\');
        out.push('n');
    } else if c == '\u{c}' {
        out.push('\\');
        out.push('f');
    } else if c == '\u{d}' {
        out.push('\\');
        out.push('r');
    } else if (c as u32) < 32 {
        let v = c as u32;
        out.push('\\');
        out.push('u');
        out.push('0');
        out.push('0');
        out.push(hex_digit_exec(v / 16));
        out.push(hex_digit_exec(v % 16));
        proof {
            assert((v / 16) as int == (c as int) / 16);
            assert((v % 16) as int == (c as int) % 16);
        }
    } else {
        out.push(c);
    }
    proof {
        assert(final(out)@ =~= old(out)@ + esc_char(c));
    }
}

/// Escaping distributes over appending one character at the end.
proof fn lemma_esc_str_snoc(s: Seq<char>, c: char)
    ensures
        esc_str(s.push(c)) == esc_str(s) + esc_char(c),
    decreases s.len(),
{
    let t = s.push(c);
    if s.len() == 0 {
        assert(t[0] == c);
        assert(t.subrange(1, t.len() as int) =~= Seq::<char>::empty());
        assert(esc_str(t.subrange(1, t.len() as int)) == Seq::<char>::empty());
        assert(esc_str(t) == esc_char(c) + Seq::<char>::empty());
        assert(esc_str(t) =~= esc_str(s) + esc_char(c));
    } else {
        let sub = s.subrange(1, s.len() as int);
        assert(t[0] == s[0]);
        assert(t.subrange(1, t.len() as int) =~= sub.push(c));
        lemma_esc_str_snoc(sub, c);
        assert(esc_str(t) == esc_char(s[0]) + esc_str(sub.push(c)));
        assert(esc_str(s) == esc_char(s[0]) + esc_str(sub));
        assert(esc_char(s[0]) + (esc_str(sub) + esc_char(c)) =~= (esc_char(s[0]) + esc_str(sub))
            + esc_char(c));
    }
}

/// Appends a complete JSON string (quotes and escapes) to `out`.
fn push_jstr(out: &mut Vec<char>, s: &String)
    ensures
        final(out)@ == old(out)@ + enc_jstr(s@),
{
    out.push('"');
    let n = s.as_str().unicode_len();
    let mut i: usize = 0;
    proof {
        assert(s@.subrange(0, 0) =~= Seq::<char>::empty());
        assert(out@ =~= old(out)@ + seq!['"'] + esc_str(s@.subrange(0, 0)));
    }
    while i < n
        invariant
            n == s@.len(),
            i <= n,
            out@ == old(out)@ + seq!['"'] + esc_str(s@.subrange(0, i as int)),
        decreases n - i,
    {
        let c = s.as_str().get_char(i);
        push_esc_char(out, c);
        proof {
            lemma_esc_str_snoc(s@.subrange(0, i as int), c);
            assert(s@.subrange(0, (i + 1) as int) =~= s@.subrange(0, i as int).push(c));
            assert(out@ =~= old(out)@ + seq!['"'] + esc_str(s@.subrange(0, (i + 1) as int)));
        }
        i += 1;
    }
    out.push('"');
    proof {
        assert(s@.subrange(0, n as int) =~= s@);
        assert(final(out)@ =~= old(out)@ + enc_jstr(s@));
    }
}


/// Appends a position object to `out`.
fn push_pos(out: &mut Vec<char>, p: &Position)
    ensures
        final(out)@ == old(out)@ + enc_pos(p@),
{
    out.push('{');
    out.push('"');
    out.push('x');
    out.push('"');
    out.push(':');
    push_i32(out, p.x);
    out.push(',');
    out.push('"');
    out.push('y');
    out.push('"');
    out.push(':');
    push_i32(out, p.y);
    out.push('}');
    proof {
        assert(final(out)@ =~= old(out)@ + enc_pos(p@));
    }
}

/// Appends a food object to `out`.
fn push_food(out: &mut Vec<char>, f: &Food)
    ensures
        final(out)@ == old(out)@ + enc_food(f@),
{
    out.push('{');
    out.push('"');
    out.push('p');
    out.push('o');
    out.push('s');
    out.push('i');
    out.push('t');
    out.push('i');
    out.push('o');
    out.push('n');
    out.push('"');
    out.push(':');
    push_pos(out, &f.position);
    out.push('}');
    proof {
        assert(final(out)@ =~= old(out)@ + enc_food(f@));
    }
}

/// One more element extends a comma-separated list at its end.
proof fn lemma_pos_items_snoc(l: Seq<PosModel>, e: PosModel)
    ensures
        l.len() == 0 ==> enc_pos_items(l.push(e)) == enc_pos(e),
        l.len() > 0 ==> enc_pos_items(l.push(e)) == enc_pos_items(l) + seq![','] + enc_pos(e),
    decreases l.len(),
{
    let t = l.push(e);
    if l.len() == 0 {
        assert(t.len() == 1 && t[0] == e);
    } else if l.len() == 1 {
        assert(t[0] == l[0]);
        assert(t.subrange(1, t.len() as int) =~= Seq::<PosModel>::empty().push(e));
        lemma_pos_items_snoc(Seq::<PosModel>::empty(), e);
        assert(enc_pos_items(t) =~= enc_pos_items(l) + seq![','] + enc_pos(e));
    } else {
        let sub = l.subrange(1, l.len() as int);
        assert(t[0] == l[0]);
        assert(t.subrange(1, t.len() as int) =~= sub.push(e));
        lemma_pos_items_snoc(sub, e);
        assert(enc_pos_items(t) == enc_pos(l[0]) + seq![','] + enc_pos_items(sub.push(e)));
        assert(enc_pos_items(l) == enc_pos(l[0]) + seq![','] + enc_pos_items(sub));
        assert(enc_pos_items(t) =~= enc_pos_items(l) + seq![','] + enc_pos(e));
    }
}

/// See `lemma_pos_items_snoc`.
proof fn lemma_food_items_snoc(l: Seq<FoodModel>, e: FoodModel)
    ensures
        l.len() == 0 ==> enc_food_items(l.push(e)) == enc_food(e),
        l.len() > 0 ==> enc_food_items(l.push(e)) == enc_food_items(l) + seq![','] + enc_food(e),
    decreases l.len(),
{
    let t = l.push(e);
    if l.len() == 0 {
        assert(t.len() == 1 && t[0] == e);
    } else if l.len() == 1 {
        assert(t[0] == l[0]);
        assert(t.subrange(1, t.len() as int) =~= Seq::<FoodModel>::empty().push(e));
        lemma_food_items_snoc(Seq::<FoodModel>::empty(), e);
        assert(enc_food_items(t) =~= enc_food_items(l) + seq![','] + enc_food(e));
    } else {
        let sub = l.subrange(1, l.len() as int);
        assert(t[0] == l[0]);
        assert(t.subrange(1, t.len() as int) =~= sub.push(e));
        lemma_food_items_snoc(sub, e);
        assert(enc_food_items(t) == enc_food(l[0]) + seq![','] + enc_food_items(sub.push(e)));
        assert(enc_food_items(l) == enc_food(l[0]) + seq![','] + enc_food_items(sub));
        assert(enc_food_items(t) =~= enc_food_items(l) + seq![','] + enc_food(e));
    }
}

/// See `lemma_pos_items_snoc`.
proof fn lemma_snake_items_snoc(l: Seq<SnakeModel>, e: SnakeModel)
    ensures
        l.len() == 0 ==> enc_snake_items(l.push(e)) == enc_snake(e),
        l.len() > 0 ==> enc_snake_items(l.push(e)) == enc_snake_items(l) + seq![','] + enc_snake(
            e,
        ),
    decreases l.len(),
{
    let t = l.push(e);
    if l.len() == 0 {
        assert(t.len() == 1 && t[0] == e);
    } else if l.len() == 1 {
        assert(t[0] == l[0]);
        assert(t.subrange(1, t.len() as int) =~= Seq::<SnakeModel>::empty().push(e));
        lemma_snake_items_snoc(Seq::<SnakeModel>::empty(), e);
        assert(enc_snake_items(t) =~= enc_snake_items(l) + seq![','] + enc_snake(e));
    } else {
        let sub = l.subrange(1, l.len() as int);
        assert(t[0] == l[0]);
        assert(t.subrange(1, t.len() as int) =~= sub.push(e));
        lemma_snake_items_snoc(sub, e);
        assert(enc_snake_items(t) == enc_snake(l[0]) + seq![','] + enc_snake_items(sub.push(e)));
        assert(enc_snake_items(l) == enc_snake(l[0]) + seq![','] + enc_snake_items(sub));
        assert(enc_snake_items(t) =~= enc_snake_items(l) + seq![','] + enc_snake(e));
    }
}

/// See `lemma_pos_items_snoc`.
proof fn lemma_rank_items_snoc(l: Seq<(int, int)>, e: (int, int))
    ensures
        l.len() == 0 ==> enc_rank_items(l.push(e)) == enc_rank(e),
        l.len() > 0 ==> enc_rank_items(l.push(e)) == enc_rank_items(l) + seq![','] + enc_rank(e),
    decreases l.len(),
{
    let t = l.push(e);
    if l.len() == 0 {
        assert(t.len() == 1 && t[0] == e);
    } else if l.len() == 1 {
        assert(t[0] == l[0]);
        assert(t.subrange(1, t.len() as int) =~= Seq::<(int, int)>::empty().push(e));
        lemma_rank_items_snoc(Seq::<(int, int)>::empty(), e);
        assert(enc_rank_items(t) =~= enc_rank_items(l) + seq![','] + enc_rank(e));
    } else {
        let sub = l.subrange(1, l.len() as int);
        assert(t[0] == l[0]);
        assert(t.subrange(1, t.len() as int) =~= sub.push(e));
        lemma_rank_items_snoc(sub, e);
        assert(enc_rank_items(t) == enc_rank(l[0]) + seq![','] + enc_rank_items(sub.push(e)));
        assert(enc_rank_items(l) == enc_rank(l[0]) + seq![','] + enc_rank_items(sub));
        assert(enc_rank_items(t) =~= enc_rank_items(l) + seq![','] + enc_rank(e));
    }
}

/// Appends a JSON array of position objects to `out`.
fn push_pos_arr(out: &mut Vec<char>, l: &Vec<Position>)
    ensures
        final(out)@ == old(out)@ + enc_pos_arr(l@.map_values(|p: Position| p@)),
{
    let ghost lm = l@.map_values(|p: Position| p@);
    out.push('[');
    let mut k: usize = 0;
    proof {
        assert(lm.subrange(0, 0) =~= Seq::<PosModel>::empty());
        assert(out@ =~= old(out)@ + seq!['['] + enc_pos_items(lm.subrange(0, 0)));
    }
    while k < l.len()
        invariant
            k <= l@.len(),
            lm == l@.map_values(|p: Position| p@),
            out@ == old(out)@ + seq!['['] + enc_pos_items(lm.subrange(0, k as int)),
        decreases l@.len() - k,
    {
        if k > 0 {
            out.push(',');
        }
        push_pos(out, &l[k]);
        proof {
            let pfx = lm.subrange(0, k as int);
            lemma_pos_items_snoc(pfx, lm[k as int]);
            assert(lm.subrange(0, (k + 1) as int) =~= pfx.push(lm[k as int]));
            assert(lm[k as int] == l@[k as int]@);
            assert(out@ =~= old(out)@ + seq!['['] + enc_pos_items(lm.subrange(0, (k + 1) as int)));
        }
        k += 1;
    }
    out.push(']');
    proof {
        assert(lm.subrange(0, l@.len() as int) =~= lm);
        assert(final(out)@ =~= old(out)@ + enc_pos_arr(lm));
    }
}

/// Appends a JSON array of food objects to `out`.
fn push_food_arr(out: &mut Vec<char>, l: &Vec<Food>)
    ensures
        final(out)@ == old(out)@ + enc_food_arr(l@.map_values(|f: Food| f@)),
{
    let ghost lm = l@.map_values(|f: Food| f@);
    out.push('[');
    let mut k: usize = 0;
    proof {
        assert(lm.subrange(0, 0) =~= Seq::<FoodModel>::empty());
        assert(out@ =~= old(out)@ + seq!['['] + enc_food_items(lm.subrange(0, 0)));
    }
    while k < l.len()
        invariant
            k <= l@.len(),
            lm == l@.map_values(|f: Food| f@),
            out@ == old(out)@ + seq!['['] + enc_food_items(lm.subrange(0, k as int)),
        decreases l@.len() - k,
    {
        if k > 0 {
            out.push(',');
        }
        push_food(out, &l[k]);
        proof {
            let pfx = lm.subrange(0, k as int);
            lemma_food_items_snoc(pfx, lm[k as int]);
            assert(lm.subrange(0, (k + 1) as int) =~= pfx.push(lm[k as int]));
            assert(lm[k as int] == l@[k as int]@);
            assert(out@ =~= old(out)@ + seq!['['] + enc_food_items(
                lm.subrange(0, (k + 1) as int),
            ));
        }
        k += 1;
    }
    out.push(']');
    proof {
        assert(lm.subrange(0, l@.len() as int) =~= lm);
        assert(final(out)@ =~= old(out)@ + enc_food_arr(lm));
    }
}

/// Builds the executable form of a fixed fragment.
pub(crate) fn lit_head_vec() -> (v: Vec<char>)
    ensures
        v@ == lit_head(),
{
    let v: Vec<char> = vec!['{', '"', 't', 'y', 'p', 'e', '"', ':', '"'];
    proof {
        assert(v@ =~= lit_head());
    }
    v
}

/// Builds the executable form of a fixed fragment.
pub(crate) fn lit_tag_pi_vec() -> (v: Vec<char>)
    ensures
        v@ == lit_tag_pi(),
{
    let v: Vec<char> = vec!['P', 'l', 'a', 'y', 'e', 'r', 'I', 'n', 'p', 'u', 't', '"', ',', '"'];
    proof {
        assert(v@ =~= lit_tag_pi());
    }
    v
}

/// Builds the executable form of a fixed fragment.
pub(crate) fn lit_null_end_vec() -> (v: Vec<char>)
    ensures
        v@ == lit_null_end(),
{
    let v: Vec<char> = vec!['"', ':', 'n', 'u', 'l', 'l', '}'];
    proof {
        assert(v@ =~= lit_null_end());
    }
    v
}

/// Builds the executable form of a fixed fragment.
pub(crate) fn lit_tag_ready_vec() -> (v: Vec<char>)
    ensures
        v@ == lit_tag_ready(),
{
    let v: Vec<char> = vec!['R', 'e', 'a', 'd', 'y', '"', '}'];
    proof {
        assert(v@ =~= lit_tag_ready());
    }
    v
}

/// Builds the executable form of a fixed fragment.
pub(crate) fn lit_tag_gs_vec() -> (v: Vec<char>)
    ensures
        v@ == lit_tag_gs(),
{
    let v: Vec<char> = vec!['G', 'a', 'm', 'e', 'S', 't', 'a', 't', 'e', '"', ',', '"', 'r', 'o',
        'o', 'm', '_', 'i', 'd', '"', ':'];
    proof {
        assert(v@ =~= lit_tag_gs());
    }
    v
}

/// Builds the executable form of a fixed fragment.
pub(crate) fn lit_snakes_vec() -> (v: Vec<char>)
    ensures
        v@ == lit_snakes(),
{
    let v: Vec<char> = vec![',', '"', 's', 'n', 'a', 'k', 'e', 's', '"', ':'];
    proof {
        assert(v@ =~= lit_snakes());
    }
    v
}

/// Builds the executable form of a fixed fragment.
pub(crate) fn lit_foods_vec() -> (v: Vec<char>)
    ensures
        v@ == lit_foods(),
{
    let v: Vec<char> = vec![',', '"', 'f', 'o', 'o', 'd', 's', '"', ':'];
    proof {
        assert(v@ =~= lit_foods());
    }
    v
}

/// Builds the executable form of a fixed fragment.
pub(crate) fn lit_started_vec() -> (v: Vec<char>)
    ensures
        v@ == lit_started(),
{
    let v: Vec<char> = vec![',', '"', 'g', 'a', 'm', 'e', '_', 's', 't', 'a', 'r', 't', 'e', 'd',
        '"', ':'];
    proof {
        assert(v@ =~= lit_started());
    }
    v
}

/// Builds the executable form of a fixed fragment.
pub(crate) fn lit_overflag_vec() -> (v: Vec<char>)
    ensures
        v@ == lit_overflag(),
{
    let v: Vec<char> = vec![',', '"', 'g', 'a', 'm', 'e', '_', 'o', 'v', 'e', 'r', '"', ':'];
    proof {
        assert(v@ =~= lit_overflag());
    }
    v
}

/// Builds the executable form of a fixed fragment.
pub(crate) fn lit_tag_ms_vec() -> (v: Vec<char>)
    ensures
        v@ == lit_tag_ms(),
{
    let v: Vec<char> = vec!['M', 'a', 't', 'c', 'h', 'i', 'n', 'g', 'S', 't', 'a', 't', 'u', 's',
        '"', ',', '"', 'c', 'u', 'r', 'r', 'e', 'n', 't', '"', ':'];
    proof {
        assert(v@ =~= lit_tag_ms());
    }
    v
}

/// Builds the executable form of a fixed fragment.
pub(crate) fn lit_required_vec() -> (v: Vec<char>)
    ensures
        v@ == lit_required(),
{
    let v: Vec<char> = vec![',', '"', 'r', 'e', 'q', 'u', 'i', 'r', 'e', 'd', '"', ':'];
    proof {
        assert(v@ =~= lit_required());
    }
    v
}

/// Builds the executable form of a fixed fragment.
pub(crate) fn lit_tag_go_vec() -> (v: Vec<char>)
    ensures
        v@ == lit_tag_go(),
{
    let v: Vec<char> = vec!['G', 'a', 'm', 'e', 'O', 'v', 'e', 'r', '"', ',', '"', 'r', 'a', 'n',
        'k', 'i', 'n', 'g', 's', '"', ':'];
    proof {
        assert(v@ =~= lit_tag_go());
    }
    v
}

/// Builds the executable form of a fixed fragment.
pub(crate) fn lit_id_vec() -> (v: Vec<char>)
    ensures
        v@ == lit_id(),
{
    let v: Vec<char> = vec!['{', '"', 'i', 'd', '"', ':'];
    proof {
        assert(v@ =~= lit_id());
    }
    v
}

/// Builds the executable form of a fixed fragment.
pub(crate) fn lit_body_vec() -> (v: Vec<char>)
    ensures
        v@ == lit_body(),
{
    let v: Vec<char> = vec![',', '"', 'b', 'o', 'd', 'y', '"', ':'];
    proof {
        assert(v@ =~= lit_body());
    }
    v
}

/// Builds the executable form of a fixed fragment.
pub(crate) fn lit_dir_vec() -> (v: Vec<char>)
    ensures
        v@ == lit_dir(),
{
    let v: Vec<char> = vec![',', '"', 'd', 'i', 'r', 'e', 'c', 't', 'i', 'o', 'n', '"', ':', '"'];
    proof {
        assert(v@ =~= lit_dir());
    }
    v
}

/// Builds the executable form of a fixed fragment.
pub(crate) fn lit_alive_vec() -> (v: Vec<char>)
    ensures
        v@ == lit_alive(),
{
    let v: Vec<char> = vec!['"', ',', '"', 'a', 'l', 'i', 'v', 'e', '"', ':'];
    proof {
        assert(v@ =~= lit_alive());
    }
    v
}

/// Builds the executable form of a fixed fragment.
pub(crate) fn lit_score_vec() -> (v: Vec<char>)
    ensures
        v@ == lit_score(),
{
    let v: Vec<char> = vec![',', '"', 's', 'c', 'o', 'r', 'e', '"', ':'];
    proof {
        assert(v@ =~= lit_score());
    }
    v
}

/// Appends a snake object to `out`.
fn push_snake(out: &mut Vec<char>, sn: &Snake)
    ensures
        final(out)@ == old(out)@ + enc_snake(sn@),
{
    let lid = lit_id_vec();
    append_vec(out, &lid);
    push_nat(out, sn.id as u64);
    let lbody = lit_body_vec();
    append_vec(out, &lbody);
    push_pos_arr(out, &sn.body);
    let ldir = lit_dir_vec();
    append_vec(out, &ldir);
    push_dirname(out, sn.direction);
    let lalive = lit_alive_vec();
    append_vec(out, &lalive);
    push_bool(out, sn.alive);
    let lscore = lit_score_vec();
    append_vec(out, &lscore);
    push_nat(out, sn.score as u64);
    out.push('}');
    proof {
        assert(final(out)@ =~= old(out)@ + enc_snake(sn@));
    }
}

/// Appends a JSON array of snake objects to `out`.
fn push_snake_arr(out: &mut Vec<char>, l: &Vec<Snake>)
    ensures
        final(out)@ == old(out)@ + enc_snake_arr(l@.map_values(|s: Snake| s@)),
{
    let ghost lm = l@.map_values(|s: Snake| s@);
    out.push('[');
    let mut k: usize = 0;
    proof {
        assert(lm.subrange(0, 0) =~= Seq::<SnakeModel>::empty());
        assert(out@ =~= old(out)@ + seq!['['] + enc_snake_items(lm.subrange(0, 0)));
    }
    while k < l.len()
        invariant
            k <= l@.len(),
            lm == l@.map_values(|s: Snake| s@),
            out@ == old(out)@ + seq!['['] + enc_snake_items(lm.subrange(0, k as int)),
        decreases l@.len() - k,
    {
        if k > 0 {
            out.push(',');
        }
        push_snake(out, &l[k]);
        proof {
            let pfx = lm.subrange(0, k as int);
            lemma_snake_items_snoc(pfx, lm[k as int]);
            assert(lm.subrange(0, (k + 1) as int) =~= pfx.push(lm[k as int]));
            assert(lm[k as int] == l@[k as int]@);
            assert(out@ =~= old(out)@ + seq!['['] + enc_snake_items(
                lm.subrange(0, (k + 1) as int),
            ));
        }
        k += 1;
    }
    out.push(']');
    proof {
        assert(lm.subrange(0, l@.len() as int) =~= lm);
        assert(final(out)@ =~= old(out)@ + enc_snake_arr(lm));
    }
}

/// Appends a JSON array of standings to `out`.
fn push_rank_arr(out: &mut Vec<char>, l: &Vec<(usize, u32)>)
    ensures
        final(out)@ == old(out)@ + enc_rank_arr(
            l@.map_values(|r: (usize, u32)| (r.0 as int, r.1 as int)),
        ),
{
    let ghost lm = l@.map_values(|r: (usize, u32)| (r.0 as int, r.1 as int));
    out.push('[');
    let mut k: usize = 0;
    proof {
        assert(lm.subrange(0, 0) =~= Seq::<(int, int)>::empty());
        assert(out@ =~= old(out)@ + seq!['['] + enc_rank_items(lm.subrange(0, 0)));
    }
    while k < l.len()
        invariant
            k <= l@.len(),
            lm == l@.map_values(|r: (usize, u32)| (r.0 as int, r.1 as int)),
            out@ == old(out)@ + seq!['['] + enc_rank_items(lm.subrange(0, k as int)),
        decreases l@.len() - k,
    {
        if k > 0 {
            out.push(',');
        }
        let (id, score) = l[k];
        out.push('[');
        push_nat(out, id as u64);
        out.push(',');
        push_nat(out, score as u64);
        out.push(']');
        proof {
            let pfx = lm.subrange(0, k as int);
            lemma_rank_items_snoc(pfx, lm[k as int]);
            assert(lm.subrange(0, (k + 1) as int) =~= pfx.push(lm[k as int]));
            assert(lm[k as int] == (l@[k as int].0 as int, l@[k as int].1 as int));
            assert(out@ =~= old(out)@ + seq!['['] + enc_rank_items(
                lm.subrange(0, (k + 1) as int),
            ));
        }
        k += 1;
    }
    out.push(']');
    proof {
        assert(lm.subrange(0, l@.len() as int) =~= lm);
        assert(final(out)@ =~= old(out)@ + enc_rank_arr(lm));
    }
}

/// Encodes a message as its wire text, one character per element.
#[verifier::rlimit(100)]
pub fn encode_message(m: &GameMessage) -> (r: Vec<char>)
    ensures
        r@ == enc_msg(m@),
{
    let mut out: Vec<char> = lit_head_vec();
    match m {
        GameMessage::PlayerInput(d) => {
            let ltag = lit_tag_pi_vec();
            append_vec(&mut out, &ltag);
            push_dirname(&mut out, *d);
            let lend = lit_null_end_vec();
            append_vec(&mut out, &lend);
            proof {
                assert(out@ =~= enc_msg(m@));
            }
        },
        GameMessage::Ready => {
            let ltag = lit_tag_ready_vec();
            append_vec(&mut out, &ltag);
            proof {
                assert(out@ =~= enc_msg(m@));
            }
        },
        GameMessage::GameState(st) => {
            let ltag = lit_tag_gs_vec();
            append_vec(&mut out, &ltag);
            push_jstr(&mut out, &st.room_id);
            let lsnakes = lit_snakes_vec();
            append_vec(&mut out, &lsnakes);
            push_snake_arr(&mut out, &st.snakes);
            let lfoods = lit_foods_vec();
            append_vec(&mut out, &lfoods);
            push_food_arr(&mut out, &st.foods);
            let lstarted = lit_started_vec();
            append_vec(&mut out, &lstarted);
            push_bool(&mut out, st.game_started);
            let lover = lit_overflag_vec();
            append_vec(&mut out, &lover);
            push_bool(&mut out, st.game_over);
            out.push('}');
            proof {
                assert(enc_state_tail(st@) == enc_jstr(st@.room_id) + lit_snakes()
                    + enc_snake_arr(st@.snakes) + lit_foods() + enc_food_arr(st@.foods)
                    + lit_started() + enc_bool(st@.game_started) + lit_overflag() + enc_bool(
                    st@.game_over,
                ) + seq!['}']);
                assert(out@ =~= lit_head() + lit_tag_gs() + enc_state_tail(st@));
                assert(out@ == enc_msg(m@));
            }
        },
        GameMessage::MatchingStatus { current, required } => {
            let ltag = lit_tag_ms_vec();
            append_vec(&mut out, &ltag);
            push_nat(&mut out, *current as u64);
            let lreq = lit_required_vec();
            append_vec(&mut out, &lreq);
            push_nat(&mut out, *required as u64);
            out.push('}');
            proof {
                assert(out@ =~= enc_msg(m@));
            }
        },
        GameMessage::GameOver { rankings } => {
            let ltag = lit_tag_go_vec();
            append_vec(&mut out, &ltag);
            push_rank_arr(&mut out, rankings);
            out.push('}');
            proof {
                assert(out@ =~= enc_msg(m@));
            }
        },
    }
    out
}

/// Relies on `str`'s iterator machinery through `Iterator::collect` into
/// `String`: collecting characters yields the string of exactly those
/// characters, in order.
#[verifier::external_body]
pub fn chars_to_string(v: &Vec<char>) -> (s: String)
    ensures
        s@ == v@,
{
    v.iter().collect()
}

/// Encodes a message as a `String` holding its wire text.
pub fn encode_message_text(m: &GameMessage) -> (s: String)
    ensures
        s@ == enc_msg(m@),
{
    let v = encode_message(m);
    chars_to_string(&v)
}

/// Copies the characters of a `&str` into a vector, in order.
pub fn str_to_chars(s: &str) -> (v: Vec<char>)
    ensures
        v@ == s@,
{
    let n = s.unicode_len();
    let mut v: Vec<char> = Vec::new();
    let mut i: usize = 0;
    while i < n
        invariant
            n == s@.len(),
            i <= n,
            v@ == s@.subrange(0, i as int),
        decreases n - i,
    {
        v.push(s.get_char(i));
        proof {
            assert(s@.subrange(0, (i + 1) as int) =~= s@.subrange(0, i as int).push(
                s@[i as int],
            ));
        }
        i += 1;
    }
    proof {
        assert(s@.subrange(0, n as int) =~= s@);
    }
    v
}

} // verus!
