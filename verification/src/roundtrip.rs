//! Round trip of the wire codec: decoding the encoding of any message gives
//! back exactly that message.  The proofs walk the grammar piece by piece:
//! for each fragment, if the text at a position is the encoding of a value,
//! the matching parser consumes exactly that fragment and yields that value.

use vstd::prelude::*;
use crate::types::{Direction, GameMessage, MessageModel, PosModel, SnakeModel, FoodModel,
    StateModel, wf_pos, wf_snake, wf_state, wf_msg};
use crate::codec::{dec_digits, digit_char, enc_int, enc_bool, enc_jstr, esc_str, esc_char,
    hex_digit, dir_name, enc_pos, enc_food, enc_snake, enc_rank, enc_pos_items, enc_pos_arr,
    enc_food_items, enc_food_arr, enc_snake_items, enc_snake_arr, enc_rank_items, enc_rank_arr,
    enc_state_tail, enc_msg, lit_head, lit_tag_pi, lit_null_end, lit_tag_ready, lit_tag_gs,
    lit_snakes, lit_foods, lit_started, lit_overflag, lit_tag_ms, lit_required, lit_tag_go,
    lit_id, lit_body, lit_dir, lit_alive, lit_score, lit_x, lit_y, lit_position, lit_true,
    lit_false};
use crate::decode::{is_digit, dval, p_lit, p_digits, p_nat, p_int, p_i32, p_bool, p_dirname,
    hexval, control_char, p_esc, p_strbody, p_jstr, p_pos, p_food, p_pos_items, p_pos_arr,
    p_food_items, p_food_arr, p_snake, p_snake_items, p_snake_arr, p_rank, p_rank_items,
    p_rank_arr, p_state, spec_decode};

verus! {

/// If a stretch of `s` reads as the concatenation `a + b`, its two halves
/// read as `a` and as `b`.
pub proof fn lemma_split(s: Seq<char>, i: int, a: Seq<char>, b: Seq<char>)
    requires
        0 <= i,
        i + a.len() + b.len() <= s.len(),
        s.subrange(i, i + a.len() + b.len()) == a + b,
    ensures
        s.subrange(i, i + a.len() as int) == a,
        s.subrange(i + a.len(), i + a.len() + b.len()) == b,
{
    let whole = s.subrange(i, i + a.len() + b.len());
    assert forall|k: int| 0 <= k < a.len() implies s.subrange(i, i + a.len() as int)[k]
        == a[k] by {
        assert(whole[k] == (a + b)[k]);
    }
    assert(s.subrange(i, i + a.len() as int) =~= a);
    assert forall|k: int| 0 <= k < b.len() implies s.subrange(
        i + a.len(),
        i + a.len() + b.len(),
    )[k] == b[k] by {
        assert(whole[a.len() + k] == (a + b)[a.len() + k]);
    }
    assert(s.subrange(i + a.len(), i + a.len() + b.len()) =~= b);
}

/// Powers of ten.
pub open spec fn pow10(k: nat) -> int
    decreases k,
{
    if k == 0 {
        1
    } else {
        10 * pow10((k - 1) as nat)
    }
}

/// Every character of a decimal rendering is a digit, and the digits read
/// back their values.
proof fn lemma_dd_digits(n: int)
    requires
        n >= 0,
    ensures
        forall|k: int| 0 <= k < dec_digits(n as nat).len() ==> is_digit(
            #[trigger] dec_digits(n as nat)[k],
        ),
    decreases n,
{
    if n < 10 {
        assert(is_digit(digit_char(n)));
    } else {
        lemma_dd_digits(n / 10);
        let dd = dec_digits(n as nat);
        let dq = dec_digits((n / 10) as nat);
        assert(is_digit(digit_char(n % 10)));
        assert forall|k: int| 0 <= k < dd.len() implies is_digit(#[trigger] dd[k]) by {
            if k < dq.len() {
                assert(dd[k] == dq[k]);
            } else {
                assert(dd[k] == digit_char(n % 10));
            }
        }
    }
}

/// Consuming the decimal rendering of `n` starting with accumulator `acc`
/// leaves the parser just past it, carrying `acc` shifted by the rendering's
/// length plus `n`.
proof fn lemma_digits_consume(s: Seq<char>, i: int, acc: int, n: int)
    requires
        n >= 0,
        0 <= i,
        i + dec_digits(n as nat).len() <= s.len(),
        s.subrange(i, i + dec_digits(n as nat).len()) == dec_digits(n as nat),
    ensures
        p_digits(s, i, acc) == p_digits(
            s,
            i + dec_digits(n as nat).len(),
            acc * pow10(dec_digits(n as nat).len()) + n,
        ),
    decreases n,
{
    let dd = dec_digits(n as nat);
    if n < 10 {
        assert(s.subrange(i, i + 1)[0] == s[i]);
        assert(s[i] == digit_char(n));
        assert(is_digit(s[i]) && dval(s[i]) == n);
        assert(pow10(1) == 10 * pow10(0));
        assert(p_digits(s, i, acc) == p_digits(s, i + 1, acc * 10 + n));
    } else {
        let q = n / 10;
        let r = n % 10;
        let dq = dec_digits(q as nat);
        let lq = dq.len() as int;
        assert(dd == dq + seq![digit_char(r)]);
        lemma_split(s, i, dq, seq![digit_char(r)]);
        lemma_digits_consume(s, i, acc, q);
        let mid = acc * pow10(dq.len()) + q;
        assert(s.subrange(i + lq, i + lq + 1)[0] == s[i + lq]);
        assert(s[i + lq] == digit_char(r));
        assert(is_digit(s[i + lq]) && dval(s[i + lq]) == r);
        assert(p_digits(s, i + lq, mid) == p_digits(s, i + lq + 1, mid * 10 + r));
        assert(dd.len() == dq.len() + 1);
        assert(pow10(dd.len()) == 10 * pow10(dq.len()));
        assert(mid * 10 + r == acc * pow10(dd.len()) + n) by (nonlinear_arith)
            requires
                mid == acc * pow10(dq.len()) + q,
                pow10(dd.len()) == 10 * pow10(dq.len()),
                n == q * 10 + r,
        ;
    }
}

/// Reading the decimal rendering of `n`, delimited by a non-digit or the
/// end of the text, yields exactly `n`.
proof fn lemma_nat_rt(s: Seq<char>, i: int, n: int)
    requires
        n >= 0,
        0 <= i,
        i + dec_digits(n as nat).len() <= s.len(),
        s.subrange(i, i + dec_digits(n as nat).len()) == dec_digits(n as nat),
        i + dec_digits(n as nat).len() == s.len() || !is_digit(
            s[i + dec_digits(n as nat).len()],
        ),
    ensures
        p_nat(s, i) == Some((n, i + dec_digits(n as nat).len())),
{
    let dd = dec_digits(n as nat);
    let j = i + dd.len();
    lemma_dd_digits(n);
    assert(s.subrange(i, i + dd.len())[0] == s[i]);
    assert(s[i] == dd[0]);
    assert(is_digit(s[i]));
    lemma_digits_consume(s, i, 0, n);
    assert(0 * pow10(dd.len()) + n == n) by (nonlinear_arith);
    assert(p_digits(s, j, n) == (n, j));
}

/// Reading the rendering of a possibly negative integer, delimited by a
/// non-digit or the end, yields exactly that integer.
proof fn lemma_int_rt(s: Seq<char>, i: int, n: int)
    requires
        0 <= i,
        i + enc_int(n).len() <= s.len(),
        s.subrange(i, i + enc_int(n).len()) == enc_int(n),
        i + enc_int(n).len() == s.len() || !is_digit(s[i + enc_int(n).len()]),
    ensures
        p_int(s, i) == Some((n, i + enc_int(n).len())),
{
    if n < 0 {
        let dd = dec_digits((-n) as nat);
        lemma_split(s, i, seq!['-'], dd);
        assert(s.subrange(i, i + 1)[0] == s[i]);
        assert(s[i] == '-');
        lemma_nat_rt(s, i + 1, -n);
    } else {
        let dd = dec_digits(n as nat);
        lemma_dd_digits(n);
        assert(s.subrange(i, i + dd.len())[0] == s[i]);
        assert(s[i] == dd[0]);
        assert(is_digit(s[i]));
        assert(s[i] != '-');
        lemma_nat_rt(s, i, n);
    }
}

/// Reading the rendering of a boolean yields exactly that boolean.
proof fn lemma_bool_rt(s: Seq<char>, i: int, b: bool)
    requires
        0 <= i,
        i + enc_bool(b).len() <= s.len(),
        s.subrange(i, i + enc_bool(b).len()) == enc_bool(b),
    ensures
        p_bool(s, i) == Some((b, i + enc_bool(b).len())),
{
    if b {
        assert(p_lit(s, i, lit_true()) == Some(i + 4));
    } else {
        if i + lit_true().len() <= s.len() {
            assert(s.subrange(i, i + 5)[0] == s[i]);
            assert(s[i] == 'f');
            assert(lit_true()[0] == 't');
            assert(s.subrange(i, i + 4)[0] == s[i]);
            assert(s.subrange(i, i + 4) != lit_true());
        }
        assert(p_lit(s, i, lit_true()) is None);
        assert(p_lit(s, i, lit_false()) == Some(i + 5));
    }
}

/// Reading the rendering of a direction name yields exactly that direction.
proof fn lemma_dirname_rt(s: Seq<char>, i: int, d: Direction)
    requires
        0 <= i,
        i + dir_name(d).len() <= s.len(),
        s.subrange(i, i + dir_name(d).len()) == dir_name(d),
    ensures
        p_dirname(s, i) == Some((d, i + dir_name(d).len())),
{
    let nm = dir_name(d);
    assert(s.subrange(i, i + nm.len())[0] == s[i]);
    assert(s[i] == nm[0]);
    match d {
        Direction::Up => {
            assert(p_lit(s, i, dir_name(Direction::Up)) == Some(i + 2));
        },
        Direction::Down => {
            if i + 2 <= s.len() {
                assert(s.subrange(i, i + 2)[0] == s[i]);
                assert(s.subrange(i, i + 2) != dir_name(Direction::Up));
            }
            assert(p_lit(s, i, dir_name(Direction::Up)) is None);
            assert(p_lit(s, i, dir_name(Direction::Down)) == Some(i + 4));
        },
        Direction::Left => {
            if i + 2 <= s.len() {
                assert(s.subrange(i, i + 2)[0] == s[i]);
                assert(s.subrange(i, i + 2) != dir_name(Direction::Up));
            }
            if i + 4 <= s.len() {
                assert(s.subrange(i, i + 4)[0] == s[i]);
                assert(s.subrange(i, i + 4) != dir_name(Direction::Down));
            }
            assert(p_lit(s, i, dir_name(Direction::Up)) is None);
            assert(p_lit(s, i, dir_name(Direction::Down)) is None);
            assert(p_lit(s, i, dir_name(Direction::Left)) == Some(i + 4));
        },
        Direction::Right => {
            if i + 2 <= s.len() {
                assert(s.subrange(i, i + 2)[0] == s[i]);
                assert(s.subrange(i, i + 2) != dir_name(Direction::Up));
            }
            if i + 4 <= s.len() {
                assert(s.subrange(i, i + 4)[0] == s[i]);
                assert(s.subrange(i, i + 4) != dir_name(Direction::Down));
                assert(s.subrange(i, i + 4) != dir_name(Direction::Left));
            }
            assert(p_lit(s, i, dir_name(Direction::Up)) is None);
            assert(p_lit(s, i, dir_name(Direction::Down)) is None);
            assert(p_lit(s, i, dir_name(Direction::Left)) is None);
            assert(p_lit(s, i, dir_name(Direction::Right)) == Some(i + 5));
        },
    }
}


/// A hexadecimal digit reads back its value.
proof fn lemma_hex_rt(d: int)
    requires
        0 <= d < 16,
    ensures
        hexval(hex_digit(d)) == d,
{
}

/// The named control characters read back from their scalar values.
proof fn lemma_control_rt(c: char)
    requires
        0 <= c as int,
        (c as int) < 32,
    ensures
        control_char(c as int) == c,
{
}

/// Reading the escaped body of a string, up to and including the closing
/// quote, yields exactly the original characters.
#[verifier::rlimit(100)]
proof fn lemma_strbody_rt(s: Seq<char>, i: int, v: Seq<char>)
    requires
        0 <= i,
        i + esc_str(v).len() + 1 <= s.len(),
        s.subrange(i, i + esc_str(v).len()) == esc_str(v),
        s[i + esc_str(v).len()] == '"',
    ensures
        p_strbody(s, i) == Some((v, i + esc_str(v).len() + 1)),
    decreases v.len(),
{
    let ev = esc_str(v);
    if v.len() == 0 {
        assert(s[i] == '"');
        assert(p_strbody(s, i) == Some((Seq::<char>::empty(), i + 1)));
        assert(v =~= Seq::<char>::empty());
    } else {
        let c = v[0];
        let rest = v.subrange(1, v.len() as int);
        let e0 = esc_char(c);
        let erest = esc_str(rest);
        assert(ev == e0 + erest);
        lemma_split(s, i, e0, erest);
        let j = i + e0.len();
        // the shifted tail satisfies the induction hypothesis
        assert(s.subrange(j, j + erest.len()) == erest);
        assert(s[j + erest.len()] == '"');
        lemma_strbody_rt(s, j, rest);
        if c == '"' {
            assert(s.subrange(i, i + 2)[0] == '\\' && s.subrange(i, i + 2)[1] == '"');
            assert(s[i] == '\\' && s[i + 1] == '"');
            assert(p_esc(s, i + 1) == Some(('"', i + 2)));
            assert(Seq::<char>::empty().push(c) + rest =~= v);
        } else if c == '\\' {
            assert(s.subrange(i, i + 2)[0] == '\\' && s.subrange(i, i + 2)[1] == '\\');
            assert(s[i] == '\\' && s[i + 1] == '\\');
            assert(p_esc(s, i + 1) == Some(('\\', i + 2)));
            assert(Seq::<char>::empty().push(c) + rest =~= v);
        } else if c == '\u{8}' {
            assert(s.subrange(i, i + 2)[0] == '\\' && s.subrange(i, i + 2)[1] == 'b');
            assert(s[i] == '\\' && s[i + 1] == 'b');
            assert(p_esc(s, i + 1) == Some(('\u{8}', i + 2)));
            assert(Seq::<char>::empty().push(c) + rest =~= v);
        } else if c == '\u{9}' {
            assert(s.subrange(i, i + 2)[0] == '\\' && s.subrange(i, i + 2)[1] == 't');
            assert(s[i] == '\\' && s[i + 1] == 't');
            assert(p_esc(s, i + 1) == Some(('\u{9}', i + 2)));
            assert(Seq::<char>::empty().push(c) + rest =~= v);
        } else if c == '\u{a}' {
            assert(s.subrange(i, i + 2)[0] == '\\' && s.subrange(i, i + 2)[1] == 'n');
            assert(s[i] == '\\' && s[i + 1] == 'n');
            assert(p_esc(s, i + 1) == Some(('\u{a}', i + 2)));
            assert(Seq::<char>::empty().push(c) + rest =~= v);
        } else if c == '\u{c}' {
            assert(s.subrange(i, i + 2)[0] == '\\' && s.subrange(i, i + 2)[1] == 'f');
            assert(s[i] == '\\' && s[i + 1] == 'f');
            assert(p_esc(s, i + 1) == Some(('\u{c}', i + 2)));
            assert(Seq::<char>::empty().push(c) + rest =~= v);
        } else if c == '\u{d}' {
            assert(s.subrange(i, i + 2)[0] == '\\' && s.subrange(i, i + 2)[1] == 'r');
            assert(s[i] == '\\' && s[i + 1] == 'r');
            assert(p_esc(s, i + 1) == Some(('\u{d}', i + 2)));
            assert(Seq::<char>::empty().push(c) + rest =~= v);
        } else if 0 <= c as int && (c as int) < 32 {
            let cv = c as int;
            assert(e0 == seq!['\\', 'u', '0', '0', hex_digit(cv / 16), hex_digit(cv % 16)]);
            assert(s.subrange(i, i + 6)[0] == '\\');
            assert(s.subrange(i, i + 6)[1] == 'u');
            assert(s.subrange(i, i + 6)[2] == '0');
            assert(s.subrange(i, i + 6)[3] == '0');
            assert(s.subrange(i, i + 6)[4] == hex_digit(cv / 16));
            assert(s.subrange(i, i + 6)[5] == hex_digit(cv % 16));
            assert(s[i] == '\\' && s[i + 1] == 'u' && s[i + 2] == '0' && s[i + 3] == '0');
            assert(s[i + 4] == hex_digit(cv / 16) && s[i + 5] == hex_digit(cv % 16));
            lemma_hex_rt(cv / 16);
            lemma_hex_rt(cv % 16);
            assert(hexval(s[i + 4]) * 16 + hexval(s[i + 5]) == cv);
            lemma_control_rt(c);
            assert(p_esc(s, i + 1) == Some((c, i + 6)));
            assert(Seq::<char>::empty().push(c) + rest =~= v);
        } else {
            assert(e0 == seq![c]);
            assert(s.subrange(i, i + 1)[0] == c);
            assert(s[i] == c);
            assert(s[i] != '"' && s[i] != '\\' && !(0 <= s[i] as int && (s[i] as int) < 32));
            assert(Seq::<char>::empty().push(c) + rest =~= v);
        }
    }
}

/// Reading the rendering of a JSON string yields exactly its characters.
#[verifier::rlimit(100)]
proof fn lemma_jstr_rt(s: Seq<char>, i: int, v: Seq<char>)
    requires
        0 <= i,
        i + enc_jstr(v).len() <= s.len(),
        s.subrange(i, i + enc_jstr(v).len()) == enc_jstr(v),
    ensures
        p_jstr(s, i) == Some((v, i + enc_jstr(v).len())),
{
    let ev = esc_str(v);
    assert(enc_jstr(v) == seq!['"'] + ev + seq!['"']);
    assert(seq!['"'] + ev + seq!['"'] =~= seq!['"'] + (ev + seq!['"']));
    lemma_split(s, i, seq!['"'], ev + seq!['"']);
    assert(s.subrange(i, i + 1)[0] == s[i]);
    assert(s[i] == '"');
    lemma_split(s, i + 1, ev, seq!['"']);
    assert(s.subrange(i + 1 + ev.len(), i + 1 + ev.len() + 1)[0] == s[i + 1 + ev.len()]);
    assert(s[i + 1 + ev.len()] == '"');
    lemma_strbody_rt(s, i + 1, v);
}


/// Reading the rendering of a position object yields exactly that position.
#[verifier::rlimit(100)]
proof fn lemma_pos_rt(s: Seq<char>, i: int, p: PosModel)
    requires
        wf_pos(p),
        0 <= i,
        i + enc_pos(p).len() <= s.len(),
        s.subrange(i, i + enc_pos(p).len()) == enc_pos(p),
    ensures
        p_pos(s, i) == Some((p, i + enc_pos(p).len())),
{
    let a = lit_x();
    let b = enc_int(p.x);
    let c = lit_y();
    let d = enc_int(p.y);
    let e = seq!['}'];
    assert(enc_pos(p) =~= a + (b + (c + (d + e))));
    lemma_split(s, i, a, b + (c + (d + e)));
    let i1 = i + a.len();
    lemma_split(s, i1, b, c + (d + e));
    let i2 = i1 + b.len();
    lemma_split(s, i2, c, d + e);
    let i3 = i2 + c.len();
    lemma_split(s, i3, d, e);
    let i4 = i3 + d.len();
    assert(s.subrange(i2, i2 + c.len() as int)[0] == s[i2]);
    assert(s[i2] == ',');
    assert(!is_digit(s[i2]));
    lemma_int_rt(s, i1, p.x);
    assert(p_lit(s, i, lit_x()) == Some(i1));
    assert(p_i32(s, i1) == Some((p.x, i2)));
    assert(p_lit(s, i2, lit_y()) == Some(i3));
    assert(s.subrange(i4, i4 + 1)[0] == s[i4]);
    assert(s[i4] == '}');
    assert(!is_digit(s[i4]));
    lemma_int_rt(s, i3, p.y);
    assert(p_i32(s, i3) == Some((p.y, i4)));
}

/// Reading the rendering of a food object yields exactly that food.
#[verifier::rlimit(100)]
proof fn lemma_food_rt(s: Seq<char>, i: int, f: FoodModel)
    requires
        wf_pos(f.position),
        0 <= i,
        i + enc_food(f).len() <= s.len(),
        s.subrange(i, i + enc_food(f).len()) == enc_food(f),
    ensures
        p_food(s, i) == Some((f, i + enc_food(f).len())),
{
    let a = lit_position();
    let b = enc_pos(f.position);
    let e = seq!['}'];
    assert(enc_food(f) =~= a + (b + e));
    lemma_split(s, i, a, b + e);
    let i1 = i + a.len();
    lemma_split(s, i1, b, e);
    let i2 = i1 + b.len();
    lemma_pos_rt(s, i1, f.position);
    assert(p_lit(s, i, lit_position()) == Some(i1));
    assert(s.subrange(i2, i2 + 1)[0] == s[i2]);
    assert(s[i2] == '}');
}

/// Reading the rendering of one standing yields exactly that standing.
#[verifier::rlimit(100)]
proof fn lemma_rank_rt(s: Seq<char>, i: int, r: (int, int))
    requires
        0 <= r.0 <= usize::MAX,
        0 <= r.1 <= u32::MAX,
        0 <= i,
        i + enc_rank(r).len() <= s.len(),
        s.subrange(i, i + enc_rank(r).len()) == enc_rank(r),
    ensures
        p_rank(s, i) == Some((r, i + enc_rank(r).len())),
{
    let a = seq!['['];
    let b = dec_digits(r.0 as nat);
    let c = seq![','];
    let d = dec_digits(r.1 as nat);
    let e = seq![']'];
    assert(enc_rank(r) =~= a + (b + (c + (d + e))));
    lemma_split(s, i, a, b + (c + (d + e)));
    let i1 = i + 1;
    lemma_split(s, i1, b, c + (d + e));
    let i2 = i1 + b.len();
    lemma_split(s, i2, c, d + e);
    let i3 = i2 + 1;
    lemma_split(s, i3, d, e);
    let i4 = i3 + d.len();
    assert(s.subrange(i, i + 1)[0] == s[i]);
    assert(s[i] == '[');
    assert(s.subrange(i2, i2 + 1)[0] == s[i2]);
    assert(s[i2] == ',');
    assert(!is_digit(s[i2]));
    lemma_nat_rt(s, i1, r.0);
    assert(s.subrange(i4, i4 + 1)[0] == s[i4]);
    assert(s[i4] == ']');
    assert(!is_digit(s[i4]));
    lemma_nat_rt(s, i3, r.1);
}

/// Reading a non-empty comma-separated run of position objects, through
/// the closing bracket, yields exactly those positions.
#[verifier::rlimit(100)]
proof fn lemma_pos_items_rt(s: Seq<char>, i: int, l: Seq<PosModel>)
    requires
        l.len() >= 1,
        forall|k: int| 0 <= k < l.len() ==> wf_pos(#[trigger] l[k]),
        0 <= i,
        i + enc_pos_items(l).len() + 1 <= s.len(),
        s.subrange(i, i + enc_pos_items(l).len()) == enc_pos_items(l),
        s[i + enc_pos_items(l).len()] == ']',
    ensures
        p_pos_items(s, i) == Some((l, i + enc_pos_items(l).len() + 1)),
    decreases l.len(),
{
    if l.len() == 1 {
        assert(enc_pos_items(l) == enc_pos(l[0]));
        lemma_pos_rt(s, i, l[0]);
        let j = i + enc_pos(l[0]).len();
        assert(enc_pos(l[0]).len() >= lit_x().len());
        assert(s[j] == ']');
        assert(p_pos_items(s, i) == Some((seq![l[0]], j + 1)));
        assert(seq![l[0]] =~= l);
    } else {
        let rest = l.subrange(1, l.len() as int);
        let e0 = enc_pos(l[0]);
        let erest = enc_pos_items(rest);
        assert(enc_pos_items(l) == e0 + seq![','] + erest);
        assert(enc_pos_items(l) =~= e0 + (seq![','] + erest));
        lemma_split(s, i, e0, seq![','] + erest);
        let j = i + e0.len();
        lemma_split(s, j, seq![','], erest);
        assert(s.subrange(j, j + 1)[0] == s[j]);
        assert(s[j] == ',');
        lemma_pos_rt(s, i, l[0]);
        assert(e0.len() >= lit_x().len());
        assert(s[j + 1 + erest.len()] == ']');
        lemma_pos_items_rt(s, j + 1, rest);
        assert(p_pos_items(s, i) == Some((seq![l[0]] + rest, j + 1 + erest.len() + 1)));
        assert(seq![l[0]] + rest =~= l);
    }
}

/// Reading the rendering of a position array yields exactly its elements.
#[verifier::rlimit(100)]
proof fn lemma_pos_arr_rt(s: Seq<char>, i: int, l: Seq<PosModel>)
    requires
        forall|k: int| 0 <= k < l.len() ==> wf_pos(#[trigger] l[k]),
        0 <= i,
        i + enc_pos_arr(l).len() <= s.len(),
        s.subrange(i, i + enc_pos_arr(l).len()) == enc_pos_arr(l),
    ensures
        p_pos_arr(s, i) == Some((l, i + enc_pos_arr(l).len())),
{
    let items = enc_pos_items(l);
    assert(enc_pos_arr(l) =~= seq!['['] + (items + seq![']']));
    lemma_split(s, i, seq!['['], items + seq![']']);
    lemma_split(s, i + 1, items, seq![']']);
    assert(s.subrange(i, i + 1)[0] == s[i]);
    assert(s[i] == '[');
    assert(s.subrange(i + 1 + items.len(), i + 1 + items.len() + 1)[0] == s[i + 1
        + items.len()]);
    assert(s[i + 1 + items.len()] == ']');
    if l.len() == 0 {
        assert(items.len() == 0);
        assert(s[i + 1] == ']');
        assert(p_pos_arr(s, i) == Some((Seq::<PosModel>::empty(), i + 2)));
        assert(Seq::<PosModel>::empty() =~= l);
    } else {
        assert(items == enc_pos(l[0]) || items == enc_pos(l[0]) + seq![','] + enc_pos_items(
            l.subrange(1, l.len() as int),
        ));
        assert(items[0] == enc_pos(l[0])[0]);
        assert(enc_pos(l[0])[0] == lit_x()[0]);
        assert(s.subrange(i + 1, i + 1 + items.len())[0] == s[i + 1]);
        assert(s[i + 1] == '{');
        lemma_pos_items_rt(s, i + 1, l);
    }
}

/// Reading a non-empty comma-separated run of food objects, through the
/// closing bracket, yields exactly those foods.
#[verifier::rlimit(100)]
proof fn lemma_food_items_rt(s: Seq<char>, i: int, l: Seq<FoodModel>)
    requires
        l.len() >= 1,
        forall|k: int| 0 <= k < l.len() ==> wf_pos((#[trigger] l[k]).position),
        0 <= i,
        i + enc_food_items(l).len() + 1 <= s.len(),
        s.subrange(i, i + enc_food_items(l).len()) == enc_food_items(l),
        s[i + enc_food_items(l).len()] == ']',
    ensures
        p_food_items(s, i) == Some((l, i + enc_food_items(l).len() + 1)),
    decreases l.len(),
{
    if l.len() == 1 {
        assert(enc_food_items(l) == enc_food(l[0]));
        lemma_food_rt(s, i, l[0]);
        let j = i + enc_food(l[0]).len();
        assert(enc_food(l[0]).len() >= lit_position().len());
        assert(s[j] == ']');
        assert(p_food_items(s, i) == Some((seq![l[0]], j + 1)));
        assert(seq![l[0]] =~= l);
    } else {
        let rest = l.subrange(1, l.len() as int);
        let e0 = enc_food(l[0]);
        let erest = enc_food_items(rest);
        assert(enc_food_items(l) == e0 + seq![','] + erest);
        assert(enc_food_items(l) =~= e0 + (seq![','] + erest));
        lemma_split(s, i, e0, seq![','] + erest);
        let j = i + e0.len();
        lemma_split(s, j, seq![','], erest);
        assert(s.subrange(j, j + 1)[0] == s[j]);
        assert(s[j] == ',');
        lemma_food_rt(s, i, l[0]);
        assert(e0.len() >= lit_position().len());
        assert(s[j + 1 + erest.len()] == ']');
        lemma_food_items_rt(s, j + 1, rest);
        assert(p_food_items(s, i) == Some((seq![l[0]] + rest, j + 1 + erest.len() + 1)));
        assert(seq![l[0]] + rest =~= l);
    }
}

/// Reading the rendering of a food array yields exactly its elements.
#[verifier::rlimit(100)]
proof fn lemma_food_arr_rt(s: Seq<char>, i: int, l: Seq<FoodModel>)
    requires
        forall|k: int| 0 <= k < l.len() ==> wf_pos((#[trigger] l[k]).position),
        0 <= i,
        i + enc_food_arr(l).len() <= s.len(),
        s.subrange(i, i + enc_food_arr(l).len()) == enc_food_arr(l),
    ensures
        p_food_arr(s, i) == Some((l, i + enc_food_arr(l).len())),
{
    let items = enc_food_items(l);
    assert(enc_food_arr(l) =~= seq!['['] + (items + seq![']']));
    lemma_split(s, i, seq!['['], items + seq![']']);
    lemma_split(s, i + 1, items, seq![']']);
    assert(s.subrange(i, i + 1)[0] == s[i]);
    assert(s[i] == '[');
    assert(s.subrange(i + 1 + items.len(), i + 1 + items.len() + 1)[0] == s[i + 1
        + items.len()]);
    assert(s[i + 1 + items.len()] == ']');
    if l.len() == 0 {
        assert(items.len() == 0);
        assert(s[i + 1] == ']');
        assert(p_food_arr(s, i) == Some((Seq::<FoodModel>::empty(), i + 2)));
        assert(Seq::<FoodModel>::empty() =~= l);
    } else {
        assert(items[0] == enc_food(l[0])[0]);
        assert(enc_food(l[0])[0] == lit_position()[0]);
        assert(s.subrange(i + 1, i + 1 + items.len())[0] == s[i + 1]);
        assert(s[i + 1] == '{');
        lemma_food_items_rt(s, i + 1, l);
    }
}

/// Reading a non-empty comma-separated run of standings, through the
/// closing bracket, yields exactly those standings.
#[verifier::rlimit(100)]
proof fn lemma_rank_items_rt(s: Seq<char>, i: int, l: Seq<(int, int)>)
    requires
        l.len() >= 1,
        forall|k: int| 0 <= k < l.len() ==> 0 <= (#[trigger] l[k]).0 <= usize::MAX && 0
            <= l[k].1 <= u32::MAX,
        0 <= i,
        i + enc_rank_items(l).len() + 1 <= s.len(),
        s.subrange(i, i + enc_rank_items(l).len()) == enc_rank_items(l),
        s[i + enc_rank_items(l).len()] == ']',
    ensures
        p_rank_items(s, i) == Some((l, i + enc_rank_items(l).len() + 1)),
    decreases l.len(),
{
    if l.len() == 1 {
        assert(enc_rank_items(l) == enc_rank(l[0]));
        lemma_rank_rt(s, i, l[0]);
        let j = i + enc_rank(l[0]).len();
        assert(enc_rank(l[0]).len() >= 1);
        assert(s[j] == ']');
        assert(p_rank_items(s, i) == Some((seq![l[0]], j + 1)));
        assert(seq![l[0]] =~= l);
    } else {
        let rest = l.subrange(1, l.len() as int);
        let e0 = enc_rank(l[0]);
        let erest = enc_rank_items(rest);
        assert(enc_rank_items(l) == e0 + seq![','] + erest);
        assert(enc_rank_items(l) =~= e0 + (seq![','] + erest));
        lemma_split(s, i, e0, seq![','] + erest);
        let j = i + e0.len();
        lemma_split(s, j, seq![','], erest);
        assert(s.subrange(j, j + 1)[0] == s[j]);
        assert(s[j] == ',');
        lemma_rank_rt(s, i, l[0]);
        assert(e0.len() >= 1);
        assert(s[j + 1 + erest.len()] == ']');
        lemma_rank_items_rt(s, j + 1, rest);
        assert(p_rank_items(s, i) == Some((seq![l[0]] + rest, j + 1 + erest.len() + 1)));
        assert(seq![l[0]] + rest =~= l);
    }
}

/// Reading the rendering of a standings array yields exactly its elements.
#[verifier::rlimit(100)]
proof fn lemma_rank_arr_rt(s: Seq<char>, i: int, l: Seq<(int, int)>)
    requires
        forall|k: int| 0 <= k < l.len() ==> 0 <= (#[trigger] l[k]).0 <= usize::MAX && 0
            <= l[k].1 <= u32::MAX,
        0 <= i,
        i + enc_rank_arr(l).len() <= s.len(),
        s.subrange(i, i + enc_rank_arr(l).len()) == enc_rank_arr(l),
    ensures
        p_rank_arr(s, i) == Some((l, i + enc_rank_arr(l).len())),
{
    let items = enc_rank_items(l);
    assert(enc_rank_arr(l) =~= seq!['['] + (items + seq![']']));
    lemma_split(s, i, seq!['['], items + seq![']']);
    lemma_split(s, i + 1, items, seq![']']);
    assert(s.subrange(i, i + 1)[0] == s[i]);
    assert(s[i] == '[');
    assert(s.subrange(i + 1 + items.len(), i + 1 + items.len() + 1)[0] == s[i + 1
        + items.len()]);
    assert(s[i + 1 + items.len()] == ']');
    if l.len() == 0 {
        assert(items.len() == 0);
        assert(s[i + 1] == ']');
        assert(p_rank_arr(s, i) == Some((Seq::<(int, int)>::empty(), i + 2)));
        assert(Seq::<(int, int)>::empty() =~= l);
    } else {
        assert(items[0] == enc_rank(l[0])[0]);
        assert(enc_rank(l[0])[0] == '[');
        assert(s.subrange(i + 1, i + 1 + items.len())[0] == s[i + 1]);
        assert(s[i + 1] == '[');
        lemma_rank_items_rt(s, i + 1, l);
    }
}


/// Reading the rendering of a snake object yields exactly that snake.
#[verifier::rlimit(100)]
proof fn lemma_snake_rt(s: Seq<char>, i: int, sn: SnakeModel)
    requires
        wf_snake(sn),
        0 <= i,
        i + enc_snake(sn).len() <= s.len(),
        s.subrange(i, i + enc_snake(sn).len()) == enc_snake(sn),
    ensures
        p_snake(s, i) == Some((sn, i + enc_snake(sn).len())),
{
    let a = lit_id();
    let b = dec_digits(sn.id as nat);
    let c = lit_body();
    let d = enc_pos_arr(sn.body);
    let e = lit_dir();
    let f = dir_name(sn.direction);
    let g = lit_alive();
    let h = enc_bool(sn.alive);
    let ii = lit_score();
    let j = dec_digits(sn.score as nat);
    let k = seq!['}'];
    assert(enc_snake(sn) =~= a + (b + (c + (d + (e + (f + (g + (h + (ii + (j + k))))))))));
    lemma_split(s, i, a, b + (c + (d + (e + (f + (g + (h + (ii + (j + k)))))))));
    let i1 = i + a.len();
    lemma_split(s, i1, b, c + (d + (e + (f + (g + (h + (ii + (j + k))))))));
    let i2 = i1 + b.len();
    lemma_split(s, i2, c, d + (e + (f + (g + (h + (ii + (j + k)))))));
    let i3 = i2 + c.len();
    lemma_split(s, i3, d, e + (f + (g + (h + (ii + (j + k))))));
    let i4 = i3 + d.len();
    lemma_split(s, i4, e, f + (g + (h + (ii + (j + k)))));
    let i5 = i4 + e.len();
    lemma_split(s, i5, f, g + (h + (ii + (j + k))));
    let i6 = i5 + f.len();
    lemma_split(s, i6, g, h + (ii + (j + k)));
    let i7 = i6 + g.len();
    lemma_split(s, i7, h, ii + (j + k));
    let i8 = i7 + h.len();
    lemma_split(s, i8, ii, j + k);
    let i9 = i8 + ii.len();
    lemma_split(s, i9, j, k);
    let i10 = i9 + j.len();
    assert(s.subrange(i2, i2 + c.len() as int)[0] == s[i2]);
    assert(s[i2] == ',');
    assert(!is_digit(s[i2]));
    lemma_nat_rt(s, i1, sn.id);
    lemma_pos_arr_rt(s, i3, sn.body);
    lemma_dirname_rt(s, i5, sn.direction);
    lemma_bool_rt(s, i7, sn.alive);
    assert(s.subrange(i10, i10 + 1)[0] == s[i10]);
    assert(s[i10] == '}');
    assert(!is_digit(s[i10]));
    lemma_nat_rt(s, i9, sn.score);
    assert(p_lit(s, i, lit_id()) == Some(i1));
    assert(p_lit(s, i2, lit_body()) == Some(i3));
    assert(p_lit(s, i4, lit_dir()) == Some(i5));
    assert(p_lit(s, i6, lit_alive()) == Some(i7));
    assert(p_lit(s, i8, lit_score()) == Some(i9));
}

/// Reading a non-empty comma-separated run of snake objects, through the
/// closing bracket, yields exactly those snakes.
#[verifier::rlimit(100)]
proof fn lemma_snake_items_rt(s: Seq<char>, i: int, l: Seq<SnakeModel>)
    requires
        l.len() >= 1,
        forall|k: int| 0 <= k < l.len() ==> wf_snake(#[trigger] l[k]),
        0 <= i,
        i + enc_snake_items(l).len() + 1 <= s.len(),
        s.subrange(i, i + enc_snake_items(l).len()) == enc_snake_items(l),
        s[i + enc_snake_items(l).len()] == ']',
    ensures
        p_snake_items(s, i) == Some((l, i + enc_snake_items(l).len() + 1)),
    decreases l.len(),
{
    if l.len() == 1 {
        assert(enc_snake_items(l) == enc_snake(l[0]));
        lemma_snake_rt(s, i, l[0]);
        let j = i + enc_snake(l[0]).len();
        assert(enc_snake(l[0]).len() >= lit_id().len());
        assert(s[j] == ']');
        assert(p_snake_items(s, i) == Some((seq![l[0]], j + 1)));
        assert(seq![l[0]] =~= l);
    } else {
        let rest = l.subrange(1, l.len() as int);
        let e0 = enc_snake(l[0]);
        let erest = enc_snake_items(rest);
        assert(enc_snake_items(l) == e0 + seq![','] + erest);
        assert(enc_snake_items(l) =~= e0 + (seq![','] + erest));
        lemma_split(s, i, e0, seq![','] + erest);
        let j = i + e0.len();
        lemma_split(s, j, seq![','], erest);
        assert(s.subrange(j, j + 1)[0] == s[j]);
        assert(s[j] == ',');
        lemma_snake_rt(s, i, l[0]);
        assert(e0.len() >= lit_id().len());
        assert(s[j + 1 + erest.len()] == ']');
        lemma_snake_items_rt(s, j + 1, rest);
        assert(p_snake_items(s, i) == Some((seq![l[0]] + rest, j + 1 + erest.len() + 1)));
        assert(seq![l[0]] + rest =~= l);
    }
}

/// Reading the rendering of a snake array yields exactly its elements.
#[verifier::rlimit(100)]
proof fn lemma_snake_arr_rt(s: Seq<char>, i: int, l: Seq<SnakeModel>)
    requires
        forall|k: int| 0 <= k < l.len() ==> wf_snake(#[trigger] l[k]),
        0 <= i,
        i + enc_snake_arr(l).len() <= s.len(),
        s.subrange(i, i + enc_snake_arr(l).len()) == enc_snake_arr(l),
    ensures
        p_snake_arr(s, i) == Some((l, i + enc_snake_arr(l).len())),
{
    let items = enc_snake_items(l);
    assert(enc_snake_arr(l) =~= seq!['['] + (items + seq![']']));
    lemma_split(s, i, seq!['['], items + seq![']']);
    lemma_split(s, i + 1, items, seq![']']);
    assert(s.subrange(i, i + 1)[0] == s[i]);
    assert(s[i] == '[');
    assert(s.subrange(i + 1 + items.len(), i + 1 + items.len() + 1)[0] == s[i + 1
        + items.len()]);
    assert(s[i + 1 + items.len()] == ']');
    if l.len() == 0 {
        assert(items.len() == 0);
        assert(s[i + 1] == ']');
        assert(p_snake_arr(s, i) == Some((Seq::<SnakeModel>::empty(), i + 2)));
        assert(Seq::<SnakeModel>::empty() =~= l);
    } else {
        assert(items[0] == enc_snake(l[0])[0]);
        assert(enc_snake(l[0])[0] == lit_id()[0]);
        assert(s.subrange(i + 1, i + 1 + items.len())[0] == s[i + 1]);
        assert(s[i + 1] == '{');
        lemma_snake_items_rt(s, i + 1, l);
    }
}

/// With every field of the payload parsed at its offset and the closing
/// brace in place, the payload parser assembles the snapshot.
proof fn lemma_state_assemble(
    s: Seq<char>,
    i: int,
    room: Seq<char>,
    snakes: Seq<SnakeModel>,
    foods: Seq<FoodModel>,
    gs: bool,
    go: bool,
    i1: int,
    i2: int,
    i3: int,
    i4: int,
    i5: int,
    i6: int,
    i7: int,
    i8: int,
    i9: int,
)
    requires
        p_jstr(s, i) == Some((room, i1)),
        p_lit(s, i1, lit_snakes()) == Some(i2),
        p_snake_arr(s, i2) == Some((snakes, i3)),
        p_lit(s, i3, lit_foods()) == Some(i4),
        p_food_arr(s, i4) == Some((foods, i5)),
        p_lit(s, i5, lit_started()) == Some(i6),
        p_bool(s, i6) == Some((gs, i7)),
        p_lit(s, i7, lit_overflag()) == Some(i8),
        p_bool(s, i8) == Some((go, i9)),
        0 <= i9 < s.len(),
        s[i9] == '}',
    ensures
        p_state(s, i) == Some(
            (
                StateModel { room_id: room, snakes, foods, game_started: gs, game_over: go },
                i9 + 1,
            ),
        ),
{
}

/// Reading the rendered payload of a snapshot yields exactly that snapshot.
#[verifier::rlimit(100)]
proof fn lemma_state_rt(s: Seq<char>, i: int, st: StateModel)
    requires
        wf_state(st),
        0 <= i,
        i + enc_state_tail(st).len() <= s.len(),
        s.subrange(i, i + enc_state_tail(st).len()) == enc_state_tail(st),
    ensures
        p_state(s, i) == Some((st, i + enc_state_tail(st).len())),
{
    let a = enc_jstr(st.room_id);
    let b = lit_snakes();
    let c = enc_snake_arr(st.snakes);
    let d = lit_foods();
    let e = enc_food_arr(st.foods);
    let f = lit_started();
    let g = enc_bool(st.game_started);
    let h = lit_overflag();
    let ii = enc_bool(st.game_over);
    let j = seq!['}'];
    assert(enc_state_tail(st) =~= a + (b + (c + (d + (e + (f + (g + (h + (ii + j)))))))));
    lemma_split(s, i, a, b + (c + (d + (e + (f + (g + (h + (ii + j))))))));
    let i1 = i + a.len();
    lemma_split(s, i1, b, c + (d + (e + (f + (g + (h + (ii + j)))))));
    let i2 = i1 + b.len();
    lemma_split(s, i2, c, d + (e + (f + (g + (h + (ii + j))))));
    let i3 = i2 + c.len();
    lemma_split(s, i3, d, e + (f + (g + (h + (ii + j)))));
    let i4 = i3 + d.len();
    lemma_split(s, i4, e, f + (g + (h + (ii + j))));
    let i5 = i4 + e.len();
    lemma_split(s, i5, f, g + (h + (ii + j)));
    let i6 = i5 + f.len();
    lemma_split(s, i6, g, h + (ii + j));
    let i7 = i6 + g.len();
    lemma_split(s, i7, h, ii + j);
    let i8 = i7 + h.len();
    lemma_split(s, i8, ii, j);
    let i9 = i8 + ii.len();
    lemma_jstr_rt(s, i, st.room_id);
    lemma_snake_arr_rt(s, i2, st.snakes);
    lemma_food_arr_rt(s, i4, st.foods);
    lemma_bool_rt(s, i6, st.game_started);
    lemma_bool_rt(s, i8, st.game_over);
    assert(s.subrange(i9, i9 + 1)[0] == s[i9]);
    assert(s[i9] == '}');
    assert(p_lit(s, i1, lit_snakes()) == Some(i2));
    assert(p_lit(s, i3, lit_foods()) == Some(i4));
    assert(p_lit(s, i5, lit_started()) == Some(i6));
    assert(p_lit(s, i7, lit_overflag()) == Some(i8));
    lemma_state_assemble(
        s,
        i,
        st.room_id,
        st.snakes,
        st.foods,
        st.game_started,
        st.game_over,
        i1,
        i2,
        i3,
        i4,
        i5,
        i6,
        i7,
        i8,
        i9,
    );
}

/// A sequence is its own full subrange.
proof fn lemma_subrange_all(s: Seq<char>)
    ensures
        s.subrange(0, s.len() as int) == s,
{
    assert(s.subrange(0, s.len() as int) =~= s);
}

/// Concatenation re-bracketed to the right, three parts.
proof fn lemma_assoc3(a: Seq<char>, b: Seq<char>, c: Seq<char>)
    ensures
        (a + b) + c == a + (b + c),
{
    assert((a + b) + c =~= a + (b + c));
}

/// Concatenation re-bracketed to the right, four parts.
proof fn lemma_assoc4(a: Seq<char>, b: Seq<char>, c: Seq<char>, d: Seq<char>)
    ensures
        ((a + b) + c) + d == a + (b + (c + d)),
{
    assert(((a + b) + c) + d =~= a + (b + (c + d)));
}

/// Concatenation re-bracketed to the right, six parts.
proof fn lemma_assoc6(
    a: Seq<char>,
    b: Seq<char>,
    c: Seq<char>,
    d: Seq<char>,
    e: Seq<char>,
    f: Seq<char>,
)
    ensures
        ((((a + b) + c) + d) + e) + f == a + (b + (c + (d + (e + f)))),
{
    assert(((((a + b) + c) + d) + e) + f =~= a + (b + (c + (d + (e + f)))));
}

/// A tag fragment is refused when some character under it differs.
proof fn lemma_tag_refuted(s: Seq<char>, lit: Seq<char>, d: int, c: char)
    requires
        0 <= d < lit.len(),
        9 + d < s.len(),
        s[9 + d] == c,
        lit[d] != c,
    ensures
        p_lit(s, 9, lit) is None,
{
    if 9 + lit.len() <= s.len() {
        assert(s.subrange(9, 9 + lit.len() as int)[d] == s[9 + d]);
        assert(s.subrange(9, 9 + lit.len() as int) != lit);
    }
}

/// Round trip for a movement intent.
#[verifier::rlimit(100)]
proof fn lemma_rt_player_input(d: Direction)
    ensures
        spec_decode(enc_msg(MessageModel::PlayerInput(d))) == Some(MessageModel::PlayerInput(d)),
{
    let s = enc_msg(MessageModel::PlayerInput(d));
    lemma_subrange_all(s);
    lemma_assoc4(lit_head(), lit_tag_pi(), dir_name(d), lit_null_end());
    assert(s == lit_head() + (lit_tag_pi() + (dir_name(d) + lit_null_end())));
    lemma_split(s, 0, lit_head(), lit_tag_pi() + (dir_name(d) + lit_null_end()));
    lemma_split(s, 9, lit_tag_pi(), dir_name(d) + lit_null_end());
    let i1 = 9 + lit_tag_pi().len() as int;
    lemma_split(s, i1, dir_name(d), lit_null_end());
    let i2 = i1 + dir_name(d).len();
    lemma_dirname_rt(s, i1, d);
    assert(p_lit(s, 0, lit_head()) == Some(9int));
    assert(p_lit(s, 9, lit_tag_pi()) == Some(i1));
    assert(p_lit(s, i2, lit_null_end()) == Some(s.len() as int));
}

/// Round trip for a readiness intent.
#[verifier::rlimit(100)]
proof fn lemma_rt_ready()
    ensures
        spec_decode(enc_msg(MessageModel::Ready)) == Some(MessageModel::Ready),
{
    let s = enc_msg(MessageModel::Ready);
    lemma_subrange_all(s);
    lemma_split(s, 0, lit_head(), lit_tag_ready());
    assert(p_lit(s, 0, lit_head()) == Some(9int));
    assert(s.len() == 16);
    assert(p_lit(s, 9, lit_tag_pi()) is None);
    assert(p_lit(s, 9, lit_tag_ready()) == Some(16int));
}

/// With the head read, the first two tags refused, the snapshot tag read,
/// and the payload parsed to the end, the decoder yields the snapshot.
proof fn lemma_decode_snapshot_shape(s: Seq<char>, st: StateModel)
    requires
        p_lit(s, 0, lit_head()) == Some(9int),
        p_lit(s, 9, lit_tag_pi()) is None,
        p_lit(s, 9, lit_tag_ready()) is None,
        p_lit(s, 9, lit_tag_gs()) == Some(9 + lit_tag_gs().len() as int),
        p_state(s, 9 + lit_tag_gs().len() as int) == Some((st, s.len() as int)),
    ensures
        spec_decode(s) == Some(MessageModel::Snapshot(st)),
{
}

/// Reading the head and the snapshot tag of a record laid out as
/// `lit_head + lit_tag_gs + tail`.
proof fn lemma_decode_head_gs(s: Seq<char>, tail: Seq<char>)
    requires
        s == lit_head() + (lit_tag_gs() + tail),
    ensures
        p_lit(s, 0, lit_head()) == Some(9int),
        p_lit(s, 9, lit_tag_pi()) is None,
        p_lit(s, 9, lit_tag_ready()) is None,
        p_lit(s, 9, lit_tag_gs()) == Some(9 + lit_tag_gs().len() as int),
        s.subrange(9 + lit_tag_gs().len() as int, s.len() as int) == tail,
{
    lemma_subrange_all(s);
    lemma_split(s, 0, lit_head(), lit_tag_gs() + tail);
    lemma_split(s, 9, lit_tag_gs(), tail);
    assert(s.subrange(9, 9 + lit_tag_gs().len() as int)[0] == s[9]);
    assert(s[9] == 'G');
    lemma_tag_refuted(s, lit_tag_pi(), 0, s[9]);
    lemma_tag_refuted(s, lit_tag_ready(), 0, s[9]);
}

/// Round trip for a snapshot.
#[verifier::rlimit(100)]
proof fn lemma_rt_snapshot(st: StateModel)
    requires
        wf_state(st),
    ensures
        spec_decode(enc_msg(MessageModel::Snapshot(st))) == Some(MessageModel::Snapshot(st)),
{
    let s = enc_msg(MessageModel::Snapshot(st));
    let tail = enc_state_tail(st);
    lemma_assoc3(lit_head(), lit_tag_gs(), tail);
    assert(s == lit_head() + (lit_tag_gs() + tail));
    lemma_decode_head_gs(s, tail);
    let i1 = 9 + lit_tag_gs().len() as int;
    lemma_state_rt(s, i1, st);
    lemma_decode_snapshot_shape(s, st);
}

/// Reading the head and the occupancy tag of a record laid out as
/// `lit_head + lit_tag_ms + tail`.
proof fn lemma_decode_head_ms(s: Seq<char>, tail: Seq<char>)
    requires
        s == lit_head() + (lit_tag_ms() + tail),
    ensures
        p_lit(s, 0, lit_head()) == Some(9int),
        p_lit(s, 9, lit_tag_pi()) is None,
        p_lit(s, 9, lit_tag_ready()) is None,
        p_lit(s, 9, lit_tag_gs()) is None,
        p_lit(s, 9, lit_tag_ms()) == Some(9 + lit_tag_ms().len() as int),
        s.subrange(9 + lit_tag_ms().len() as int, s.len() as int) == tail,
{
    lemma_subrange_all(s);
    lemma_split(s, 0, lit_head(), lit_tag_ms() + tail);
    lemma_split(s, 9, lit_tag_ms(), tail);
    assert(s.subrange(9, 9 + lit_tag_ms().len() as int)[0] == s[9]);
    assert(s[9] == 'M');
    lemma_tag_refuted(s, lit_tag_pi(), 0, s[9]);
    lemma_tag_refuted(s, lit_tag_ready(), 0, s[9]);
    lemma_tag_refuted(s, lit_tag_gs(), 0, s[9]);
}

/// With the head read, the earlier tags refused, and both numbers parsed
/// to the closing brace, the decoder yields the occupancy report.
proof fn lemma_decode_matching_shape(
    s: Seq<char>,
    current: int,
    required: int,
    i2: int,
    i3: int,
    i4: int,
)
    requires
        p_lit(s, 0, lit_head()) == Some(9int),
        p_lit(s, 9, lit_tag_pi()) is None,
        p_lit(s, 9, lit_tag_ready()) is None,
        p_lit(s, 9, lit_tag_gs()) is None,
        p_lit(s, 9, lit_tag_ms()) == Some(9 + lit_tag_ms().len() as int),
        p_nat(s, 9 + lit_tag_ms().len() as int) == Some((current, i2)),
        0 <= current <= usize::MAX,
        p_lit(s, i2, lit_required()) == Some(i3),
        p_nat(s, i3) == Some((required, i4)),
        0 <= required <= usize::MAX,
        0 <= i4 < s.len(),
        s[i4] == '}',
        i4 + 1 == s.len(),
    ensures
        spec_decode(s) == Some(MessageModel::Matching { current, required }),
{
}

/// Reading the head and the round-end tag of a record laid out as
/// `lit_head + lit_tag_go + tail`.
proof fn lemma_decode_head_go(s: Seq<char>, tail: Seq<char>)
    requires
        s == lit_head() + (lit_tag_go() + tail),
    ensures
        p_lit(s, 0, lit_head()) == Some(9int),
        p_lit(s, 9, lit_tag_pi()) is None,
        p_lit(s, 9, lit_tag_ready()) is None,
        p_lit(s, 9, lit_tag_gs()) is None,
        p_lit(s, 9, lit_tag_ms()) is None,
        p_lit(s, 9, lit_tag_go()) == Some(9 + lit_tag_go().len() as int),
        s.subrange(9 + lit_tag_go().len() as int, s.len() as int) == tail,
{
    lemma_subrange_all(s);
    lemma_split(s, 0, lit_head(), lit_tag_go() + tail);
    lemma_split(s, 9, lit_tag_go(), tail);
    assert(s.subrange(9, 9 + lit_tag_go().len() as int)[0] == s[9]);
    assert(s[9] == 'G');
    assert(s.subrange(9, 9 + lit_tag_go().len() as int)[4] == s[13]);
    assert(s[13] == 'O');
    lemma_tag_refuted(s, lit_tag_pi(), 0, s[9]);
    lemma_tag_refuted(s, lit_tag_ready(), 0, s[9]);
    assert(lit_tag_gs()[4] == 'S');
    lemma_tag_refuted(s, lit_tag_gs(), 4, s[13]);
    lemma_tag_refuted(s, lit_tag_ms(), 0, s[9]);
}

/// With the head read, the earlier tags refused, and the standings parsed
/// to the closing brace, the decoder yields the round-end report.
proof fn lemma_decode_over_shape(s: Seq<char>, rankings: Seq<(int, int)>, i2: int)
    requires
        p_lit(s, 0, lit_head()) == Some(9int),
        p_lit(s, 9, lit_tag_pi()) is None,
        p_lit(s, 9, lit_tag_ready()) is None,
        p_lit(s, 9, lit_tag_gs()) is None,
        p_lit(s, 9, lit_tag_ms()) is None,
        p_lit(s, 9, lit_tag_go()) == Some(9 + lit_tag_go().len() as int),
        p_rank_arr(s, 9 + lit_tag_go().len() as int) == Some((rankings, i2)),
        0 <= i2 < s.len(),
        s[i2] == '}',
        i2 + 1 == s.len(),
    ensures
        spec_decode(s) == Some(MessageModel::Over { rankings }),
{
}

/// Round trip for a lobby-occupancy report.
#[verifier::rlimit(100)]
proof fn lemma_rt_matching(current: int, required: int)
    requires
        0 <= current <= usize::MAX,
        0 <= required <= usize::MAX,
    ensures
        spec_decode(enc_msg(MessageModel::Matching { current, required })) == Some(
            MessageModel::Matching { current, required },
        ),
{
    let s = enc_msg(MessageModel::Matching { current, required });
    let b = dec_digits(current as nat);
    let d = dec_digits(required as nat);
    let tail = b + (lit_required() + (d + seq!['}']));
    lemma_assoc6(lit_head(), lit_tag_ms(), b, lit_required(), d, seq!['}']);
    assert(s == lit_head() + (lit_tag_ms() + tail));
    lemma_decode_head_ms(s, tail);
    let i1 = 9 + lit_tag_ms().len() as int;
    lemma_split(s, i1, b, lit_required() + (d + seq!['}']));
    let i2 = i1 + b.len();
    lemma_split(s, i2, lit_required(), d + seq!['}']);
    let i3 = i2 + lit_required().len();
    lemma_split(s, i3, d, seq!['}']);
    let i4 = i3 + d.len();
    assert(s.subrange(i2, i2 + lit_required().len() as int)[0] == s[i2]);
    assert(s[i2] == ',');
    assert(!is_digit(s[i2]));
    lemma_nat_rt(s, i1, current);
    assert(s.subrange(i4, i4 + 1)[0] == s[i4]);
    assert(s[i4] == '}');
    assert(!is_digit(s[i4]));
    lemma_nat_rt(s, i3, required);
    assert(p_lit(s, i2, lit_required()) == Some(i3));
    assert(i4 + 1 == s.len());
    lemma_decode_matching_shape(s, current, required, i2, i3, i4);
}

/// Round trip for a round-end report.
#[verifier::rlimit(100)]
proof fn lemma_rt_over(rankings: Seq<(int, int)>)
    requires
        forall|k: int| 0 <= k < rankings.len() ==> 0 <= (#[trigger] rankings[k]).0
            <= usize::MAX && 0 <= rankings[k].1 <= u32::MAX,
    ensures
        spec_decode(enc_msg(MessageModel::Over { rankings })) == Some(
            MessageModel::Over { rankings },
        ),
{
    let s = enc_msg(MessageModel::Over { rankings });
    let b = enc_rank_arr(rankings);
    let tail = b + seq!['}'];
    lemma_assoc4(lit_head(), lit_tag_go(), b, seq!['}']);
    assert(s == lit_head() + (lit_tag_go() + tail));
    lemma_decode_head_go(s, tail);
    let i1 = 9 + lit_tag_go().len() as int;
    lemma_split(s, i1, b, seq!['}']);
    let i2 = i1 + b.len();
    lemma_rank_arr_rt(s, i1, rankings);
    assert(s.subrange(i2, i2 + 1)[0] == s[i2]);
    assert(s[i2] == '}');
    assert(i2 + 1 == s.len());
    lemma_decode_over_shape(s, rankings, i2);
}

/// Round trip of the wire codec: decoding the encoding of any well-formed
/// message — any message an executable `GameMessage` can model — yields
/// exactly that message, tag and payload preserved.
pub proof fn lemma_round_trip(m: MessageModel)
    requires
        wf_msg(m),
    ensures
        spec_decode(enc_msg(m)) == Some(m),
{
    match m {
        MessageModel::PlayerInput(d) => lemma_rt_player_input(d),
        MessageModel::Ready => lemma_rt_ready(),
        MessageModel::Snapshot(st) => lemma_rt_snapshot(st),
        MessageModel::Matching { current, required } => lemma_rt_matching(current, required),
        MessageModel::Over { rankings } => lemma_rt_over(rankings),
    }
}


/// Round trip stated for the executable messages themselves: the model of
/// every constructible `GameMessage` is well formed, so its wire text
/// decodes back to it.
pub proof fn lemma_message_round_trip(m: &GameMessage)
    ensures
        spec_decode(enc_msg(m@)) == Some(m@),
{
    crate::types::lemma_view_wf(m);
    lemma_round_trip(m@);
}


/// The encoding is injective: two well-formed messages with the same wire
/// text are the same message.
pub proof fn lemma_encode_injective(m1: MessageModel, m2: MessageModel)
    requires
        wf_msg(m1),
        wf_msg(m2),
        enc_msg(m1) == enc_msg(m2),
    ensures
        m1 == m2,
{
    lemma_round_trip(m1);
    lemma_round_trip(m2);
}

} // verus!
