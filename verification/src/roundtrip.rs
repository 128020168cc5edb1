use vstd::prelude::*;
use crate::value::JVal;
use crate::codec::{
    dec_digits, esc, esc_byte, esc_to, is_digit, parse_num, parse_str_body, parse_val, parse_items,
    parse_members, parsed_val, ser_str, ser_val, ser_items, ser_fields, next_pos, QUOTE, BSLASH,
    LBRACKET, RBRACKET, LBRACE, RBRACE, COMMA, COLON, ZERO,
};

verus! {

pub open spec fn pow10(k: nat) -> int
    decreases k,
{
    if k == 0 {
        1
    } else {
        10 * pow10((k - 1) as nat)
    }
}

/// Decimal digit runs are never empty and consist of digits.
pub proof fn lemma_dec_digits_shape(n: u64)
    ensures
        dec_digits(n).len() >= 1,
        forall|k: int| 0 <= k < dec_digits(n).len() ==> is_digit(#[trigger] dec_digits(n)[k]),
    decreases n,
{
    if n >= 10 {
        lemma_dec_digits_shape(n / 10);
    }
}

/// Consuming the digits of `n` advances the accumulator by exactly `n` shifted
/// past the digits already read.
pub proof fn lemma_parse_num_ser(s: Seq<u8>, i: int, acc: int, n: u64)
    requires
        0 <= i,
        acc >= 0,
        i + dec_digits(n).len() <= s.len(),
        s.subrange(i, i + dec_digits(n).len() as int) == dec_digits(n),
    ensures
        parse_num(s, i, acc) == parse_num(
            s,
            i + dec_digits(n).len() as int,
            acc * pow10(dec_digits(n).len() as nat) + n,
        ),
    decreases n,
{
    let d = dec_digits(n);
    if n < 10 {
        assert(s[i] == s.subrange(i, i + 1)[0]);
        assert(s[i] == ZERO + n);
        assert(is_digit(s[i]));
        assert(parse_num(s, i, acc) == parse_num(s, i + 1, acc * 10 + n));
        assert(pow10(0) == 1);
        assert(pow10(1) == 10);
    } else {
        let m = n / 10;
        let dm = dec_digits(m);
        let lm = dm.len() as int;
        assert(d == dm + seq![(ZERO + n % 10) as u8]);
        assert(s.subrange(i, i + lm) =~= dm) by {
            assert forall|k: int| 0 <= k < lm implies s.subrange(i, i + lm)[k] == dm[k] by {
                assert(s.subrange(i, i + lm)[k] == s[i + k]);
                assert(s[i + k] == s.subrange(i, i + d.len() as int)[k]);
                assert(d[k] == dm[k]);
            }
        }
        lemma_parse_num_ser(s, i, acc, m);
        let x = acc * pow10(dm.len()) + m;
        assert(x >= 0) by {
            lemma_pow10_pos(dm.len());
            assert(acc * pow10(dm.len()) >= 0) by (nonlinear_arith)
                requires
                    acc >= 0,
                    pow10(dm.len()) > 0,
            ;
        }
        let b = s[i + lm];
        assert(b == s.subrange(i, i + d.len() as int)[lm]);
        assert(b == (ZERO + n % 10) as u8);
        assert(is_digit(b));
        assert(parse_num(s, i + lm, x) == parse_num(s, i + lm + 1, x * 10 + (b - ZERO)));
        assert(x * 10 + n % 10 == acc * pow10(d.len()) + n) by {
            assert(pow10(d.len()) == 10 * pow10(dm.len()));
            assert((acc * pow10(dm.len()) + m) * 10 == acc * (10 * pow10(dm.len())) + m * 10)
                by (nonlinear_arith);
        }
    }
}

pub proof fn lemma_pow10_pos(k: nat)
    ensures
        pow10(k) > 0,
    decreases k,
{
    if k > 0 {
        lemma_pow10_pos((k - 1) as nat);
    }
}

/// Parsing the serialized digits of `n`, followed by the end of the input or
/// by a non-digit, yields exactly `n`.
pub proof fn lemma_parse_uint_ser(s: Seq<u8>, i: int, n: u64)
    requires
        0 <= i,
        i + dec_digits(n).len() <= s.len(),
        s.subrange(i, i + dec_digits(n).len() as int) == dec_digits(n),
        i + dec_digits(n).len() == s.len() || !is_digit(s[i + dec_digits(n).len()]),
    ensures
        parse_val(s, i) == Some((JVal::UInt(n), i + dec_digits(n).len() as int)),
{
    let d = dec_digits(n);
    let l = d.len() as int;
    lemma_dec_digits_shape(n);
    assert(s[i] == s.subrange(i, i + l)[0]);
    assert(is_digit(s[i]));
    lemma_parse_num_ser(s, i, 0, n);
    assert(0 * pow10(d.len()) + n == n);
    assert(parse_num(s, i + l, n as int) == (n as int, i + l));
    assert(parse_num(s, i, 0) == (n as int, i + l));
    assert(s[i] != 110 && s[i] != 116 && s[i] != 102 && s[i] != QUOTE && s[i] != LBRACKET && s[i]
        != LBRACE);
}

/// Reading an escaped sequence head first.
pub proof fn lemma_esc_to_head(c: Seq<u8>, k: int)
    requires
        1 <= k <= c.len(),
    ensures
        esc_to(c, k) == esc_byte(c[0]) + esc_to(c.subrange(1, c.len() as int), k - 1),
    decreases k,
{
    let t = c.subrange(1, c.len() as int);
    if k == 1 {
        assert(esc_to(c, 1) == esc_to(c, 0) + esc_byte(c[0]));
        assert(esc_to(c, 1) =~= esc_byte(c[0]) + esc_to(t, 0));
    } else {
        lemma_esc_to_head(c, k - 1);
        assert(t[k - 2] == c[k - 1]);
        assert(esc_to(t, k - 1) == esc_to(t, k - 2) + esc_byte(t[k - 2]));
        assert(esc_to(c, k) == esc_to(c, k - 1) + esc_byte(c[k - 1]));
        assert(esc_to(c, k) =~= esc_byte(c[0]) + esc_to(t, k - 1));
    }
}

/// Parsing the escaped form of `c`, followed by a closing quote, undoes the
/// escaping exactly and extends the accumulator by `c`.
pub proof fn lemma_parse_str_ser(s: Seq<u8>, p: int, acc: Seq<u8>, c: Seq<u8>)
    requires
        0 <= p,
        p + esc(c).len() + 1 <= s.len(),
        s.subrange(p, p + esc(c).len() as int) == esc(c),
        s[p + esc(c).len()] == QUOTE,
    ensures
        parse_str_body(s, p, acc) == Some((acc + c, p + esc(c).len() + 1)),
    decreases c.len(),
{
    if c.len() == 0 {
        assert(esc(c).len() == 0);
        assert(parse_str_body(s, p, acc) == Some((acc, p + 1)));
        assert(acc + c =~= acc);
    } else {
        let h = c[0];
        let t = c.subrange(1, c.len() as int);
        lemma_esc_to_head(c, c.len() as int);
        assert(esc(c) == esc_byte(h) + esc(t));
        let eb = esc_byte(h);
        let el = eb.len() as int;
        assert forall|j: int| 0 <= j < esc(c).len() implies s[p + j] == #[trigger] esc(c)[j] by {
            assert(esc(c)[j] == s.subrange(p, p + esc(c).len() as int)[j]);
        }
        assert(s.subrange(p + el, p + el + esc(t).len() as int) =~= esc(t)) by {
            assert forall|j: int| 0 <= j < esc(t).len() implies s.subrange(
                p + el,
                p + el + esc(t).len() as int,
            )[j] == esc(t)[j] by {
                assert(s.subrange(p + el, p + el + esc(t).len() as int)[j] == s[p + el + j]);
                assert(esc(c)[el + j] == esc(t)[j]);
                assert(s[p + (el + j)] == esc(c)[el + j]);
                assert(p + el + j == p + (el + j));
            }
        }
        if h == QUOTE || h == BSLASH || h == 10 || h == 13 || h == 9 {
            assert(eb.len() == 2 && eb[0] == BSLASH);
            assert(s[p] == esc(c)[0] && s[p + 1] == esc(c)[1]);
            assert(s[p] == BSLASH);
            lemma_parse_str_ser(s, p + 2, acc + seq![h], t);
            assert(parse_str_body(s, p, acc) == parse_str_body(s, p + 2, acc + seq![h]));
            assert((acc + seq![h]) + t =~= acc + c) by {
                assert(seq![h] + t =~= c);
            }
        } else {
            assert(eb =~= seq![h]);
            assert(s[p] == esc(c)[0]);
            assert(s[p] == h);
            assert(h != QUOTE && h != BSLASH);
            lemma_parse_str_ser(s, p + 1, acc + seq![h], t);
            assert(parse_str_body(s, p, acc) == parse_str_body(s, p + 1, acc + seq![h]));
            assert((acc + seq![h]) + t =~= acc + c) by {
                assert(seq![h] + t =~= c);
            }
        }
    }
}

/// A serialized value starts with the marker of its variant; never with a
/// closing delimiter or a separator.
pub proof fn lemma_ser_first(v: JVal)
    ensures
        ser_val(v).len() >= 1,
        ser_val(v)[0] == 110 || ser_val(v)[0] == 116 || ser_val(v)[0] == 102 || is_digit(
            ser_val(v)[0],
        ) || ser_val(v)[0] == QUOTE || ser_val(v)[0] == LBRACKET || ser_val(v)[0] == LBRACE,
{
    if let JVal::UInt(n) = v {
        lemma_dec_digits_shape(n);
    }
}

/// The elements of an array body from `k` on, head first: each element's
/// serialization, a comma before each one that follows.
pub open spec fn ser_items_from(es: Seq<JVal>, k: int) -> Seq<u8>
    decreases es.len() - k,
{
    if k < 0 || k >= es.len() {
        Seq::empty()
    } else if k == es.len() - 1 {
        ser_val(es[k])
    } else {
        ser_val(es[k]) + seq![COMMA] + ser_items_from(es, k + 1)
    }
}

/// The members of an object body from `k` on, head first.
pub open spec fn ser_fields_from(fs: Seq<(Seq<u8>, JVal)>, k: int) -> Seq<u8>
    decreases fs.len() - k,
{
    if k < 0 || k >= fs.len() {
        Seq::empty()
    } else if k == fs.len() - 1 {
        ser_str(fs[k].0) + seq![COLON] + ser_val(fs[k].1)
    } else {
        ser_str(fs[k].0) + seq![COLON] + ser_val(fs[k].1) + seq![COMMA] + ser_fields_from(
            fs,
            k + 1,
        )
    }
}

pub open spec fn rest_items(es: Seq<JVal>, m: int) -> Seq<u8> {
    if m >= es.len() {
        Seq::empty()
    } else {
        seq![COMMA] + ser_items_from(es, m)
    }
}

pub open spec fn rest_fields(fs: Seq<(Seq<u8>, JVal)>, m: int) -> Seq<u8> {
    if m >= fs.len() {
        Seq::empty()
    } else {
        seq![COMMA] + ser_fields_from(fs, m)
    }
}

proof fn lemma_ser_items_bridge_step(es: Seq<JVal>, m: int)
    requires
        1 <= m <= es.len(),
    ensures
        ser_items(es, es.len() as int) == ser_items(es, m) + rest_items(es, m),
    decreases es.len() - m,
{
    if m == es.len() {
        assert(ser_items(es, es.len() as int) =~= ser_items(es, m) + rest_items(es, m));
    } else {
        lemma_ser_items_bridge_step(es, m + 1);
        assert(ser_items(es, m + 1) == ser_items(es, m) + seq![COMMA] + ser_val(es[m]));
        if m == es.len() - 1 {
            assert(ser_items_from(es, m) == ser_val(es[m]));
            assert(ser_items(es, es.len() as int) =~= ser_items(es, m) + rest_items(es, m));
        } else {
            assert(ser_items_from(es, m) == ser_val(es[m]) + seq![COMMA] + ser_items_from(
                es,
                m + 1,
            ));
            assert(ser_items(es, es.len() as int) =~= ser_items(es, m) + rest_items(es, m));
        }
    }
}

/// The loop-shaped and the head-shaped readings of an array body agree.
pub proof fn lemma_ser_items_bridge(es: Seq<JVal>)
    requires
        es.len() >= 1,
    ensures
        ser_items(es, es.len() as int) == ser_items_from(es, 0),
{
    lemma_ser_items_bridge_step(es, 1);
    assert(ser_items(es, 1) == ser_val(es[0]));
    assert(ser_items(es, es.len() as int) =~= ser_items_from(es, 0));
}

proof fn lemma_ser_fields_bridge_step(fs: Seq<(Seq<u8>, JVal)>, m: int)
    requires
        1 <= m <= fs.len(),
    ensures
        ser_fields(fs, fs.len() as int) == ser_fields(fs, m) + rest_fields(fs, m),
    decreases fs.len() - m,
{
    if m == fs.len() {
        assert(ser_fields(fs, fs.len() as int) =~= ser_fields(fs, m) + rest_fields(fs, m));
    } else {
        lemma_ser_fields_bridge_step(fs, m + 1);
        assert(ser_fields(fs, m + 1) == ser_fields(fs, m) + seq![COMMA] + ser_str(fs[m].0) + seq![
            COLON,
        ] + ser_val(fs[m].1));
        assert(ser_fields(fs, fs.len() as int) =~= ser_fields(fs, m) + rest_fields(fs, m));
    }
}

/// The loop-shaped and the head-shaped readings of an object body agree.
pub proof fn lemma_ser_fields_bridge(fs: Seq<(Seq<u8>, JVal)>)
    requires
        fs.len() >= 1,
    ensures
        ser_fields(fs, fs.len() as int) == ser_fields_from(fs, 0),
{
    lemma_ser_fields_bridge_step(fs, 1);
    assert(ser_fields(fs, 1) == ser_str(fs[0].0) + seq![COLON] + ser_val(fs[0].1));
    assert(ser_fields(fs, fs.len() as int) =~= ser_fields_from(fs, 0));
}

/// One byte of a subrange equality, read out of the larger sequence.
proof fn lemma_byte_at(s: Seq<u8>, i: int, whole: Seq<u8>, off: int)
    requires
        0 <= i,
        0 <= off < whole.len(),
        i + whole.len() <= s.len(),
        s.subrange(i, i + whole.len() as int) == whole,
    ensures
        s[i + off] == whole[off],
{
    assert(whole[off] == s.subrange(i, i + whole.len() as int)[off]);
}

/// A piece of a subrange equality is itself a subrange equality.
proof fn lemma_sub_at(s: Seq<u8>, i: int, whole: Seq<u8>, off: int, piece: Seq<u8>)
    requires
        0 <= i,
        0 <= off,
        off + piece.len() <= whole.len(),
        i + whole.len() <= s.len(),
        s.subrange(i, i + whole.len() as int) == whole,
        forall|j: int| 0 <= j < piece.len() ==> whole[off + j] == #[trigger] piece[j],
    ensures
        s.subrange(i + off, i + off + piece.len() as int) == piece,
{
    assert forall|j: int|
        0 <= j < piece.len() implies s.subrange(i + off, i + off + piece.len() as int)[j]
        == piece[j] by {
        assert(s.subrange(i + off, i + off + piece.len() as int)[j] == s[i + off + j]);
        assert(whole[off + j] == s.subrange(i, i + whole.len() as int)[off + j]);
        assert(s.subrange(i, i + whole.len() as int)[off + j] == s[i + (off + j)]);
        assert(i + off + j == i + (off + j));
    }
    assert(s.subrange(i + off, i + off + piece.len() as int) =~= piece);
}

/// Parsing inverts serialization: the serialized form of `v`, lying at `i`
/// and followed by the end of the input or by a non-digit, parses back to
/// exactly `v`.
pub proof fn lemma_parse_ser(s: Seq<u8>, i: int, v: JVal)
    requires
        0 <= i,
        i + ser_val(v).len() <= s.len(),
        s.subrange(i, i + ser_val(v).len() as int) == ser_val(v),
        i + ser_val(v).len() == s.len() || !is_digit(s[i + ser_val(v).len()]),
    ensures
        parse_val(s, i) == Some((v, i + ser_val(v).len() as int)),
    decreases v, 0int, 0int,
{
    let w = ser_val(v);
    let l = w.len() as int;
    lemma_ser_first(v);
    lemma_byte_at(s, i, w, 0);
    match v {
        JVal::Null => {
            lemma_byte_at(s, i, w, 1);
            lemma_byte_at(s, i, w, 2);
            lemma_byte_at(s, i, w, 3);
        },
        JVal::Bool(b) => {
            lemma_byte_at(s, i, w, 1);
            lemma_byte_at(s, i, w, 2);
            lemma_byte_at(s, i, w, 3);
            if !b {
                lemma_byte_at(s, i, w, 4);
            }
        },
        JVal::UInt(n) => {
            lemma_parse_uint_ser(s, i, n);
        },
        JVal::Str(c) => {
            assert(w == seq![QUOTE] + esc(c) + seq![QUOTE]);
            lemma_sub_at(s, i, w, 1, esc(c));
            lemma_byte_at(s, i, w, 1 + esc(c).len() as int);
            assert(s[i + 1 + esc(c).len()] == QUOTE) by {
                assert(i + (1 + esc(c).len()) == i + 1 + esc(c).len());
            }
            lemma_parse_str_ser(s, i + 1, Seq::empty(), c);
            assert(Seq::<u8>::empty() + c =~= c);
        },
        JVal::Arr(es) => {
            if es.len() == 0 {
                assert(w == seq![LBRACKET] + ser_items(es, 0) + seq![RBRACKET]);
                assert(ser_items(es, 0) == Seq::<u8>::empty());
                assert(w =~= seq![LBRACKET, RBRACKET]);
                lemma_byte_at(s, i, w, 1);
                assert(es =~= Seq::<JVal>::empty());
                assert(parse_val(s, i) == Some((JVal::Arr(Seq::<JVal>::empty()), i + 2)));
            } else {
                lemma_ser_items_bridge(es);
                let body = ser_items_from(es, 0);
                assert(w == seq![LBRACKET] + body + seq![RBRACKET]);
                lemma_sub_at(s, i, w, 1, body);
                lemma_byte_at(s, i, w, 1 + body.len() as int);
                assert(s[(i + 1) + body.len()] == RBRACKET) by {
                    assert(i + (1 + body.len()) == (i + 1) + body.len());
                }
                lemma_byte_at(s, i, w, 1);
                lemma_ser_first(es[0]);
                assert(body[0] == ser_val(es[0])[0]);
                assert(s[i + 1] != RBRACKET);
                lemma_parse_items_ser(s, i + 1, es, 0, Seq::empty());
                assert(Seq::<JVal>::empty() + es.subrange(0, es.len() as int) =~= es);
            }
        },
        JVal::Obj(fs) => {
            if fs.len() == 0 {
                assert(w == seq![LBRACE] + ser_fields(fs, 0) + seq![RBRACE]);
                assert(ser_fields(fs, 0) == Seq::<u8>::empty());
                assert(w =~= seq![LBRACE, RBRACE]);
                lemma_byte_at(s, i, w, 1);
                assert(fs =~= Seq::<(Seq<u8>, JVal)>::empty());
                assert(parse_val(s, i) == Some(
                    (JVal::Obj(Seq::<(Seq<u8>, JVal)>::empty()), i + 2),
                ));
            } else {
                lemma_ser_fields_bridge(fs);
                let body = ser_fields_from(fs, 0);
                assert(w == seq![LBRACE] + body + seq![RBRACE]);
                lemma_sub_at(s, i, w, 1, body);
                lemma_byte_at(s, i, w, 1 + body.len() as int);
                assert(s[(i + 1) + body.len()] == RBRACE) by {
                    assert(i + (1 + body.len()) == (i + 1) + body.len());
                }
                lemma_byte_at(s, i, w, 1);
                assert(body[0] == ser_str(fs[0].0)[0]);
                assert(body[0] == QUOTE);
                assert(s[i + 1] != RBRACE);
                lemma_parse_members_ser(s, i + 1, fs, 0, Seq::empty());
                assert(Seq::<(Seq<u8>, JVal)>::empty() + fs.subrange(0, fs.len() as int) =~= fs);
            }
        },
    }
}

/// Parsing the elements of an array body from `k` on, followed by the closing
/// bracket, collects exactly those elements.
pub proof fn lemma_parse_items_ser(s: Seq<u8>, p: int, es: Seq<JVal>, k: int, acc: Seq<JVal>)
    requires
        0 <= k < es.len(),
        0 <= p,
        p + ser_items_from(es, k).len() + 1 <= s.len(),
        s.subrange(p, p + ser_items_from(es, k).len() as int) == ser_items_from(es, k),
        s[p + ser_items_from(es, k).len()] == RBRACKET,
    ensures
        parse_items(s, p, acc) == Some(
            (
                JVal::Arr(acc + es.subrange(k, es.len() as int)),
                p + ser_items_from(es, k).len() + 1,
            ),
        ),
    decreases es, 1int, es.len() - k,
{
    let body = ser_items_from(es, k);
    let ev = ser_val(es[k]);
    let el = ev.len() as int;
    lemma_ser_first(es[k]);
    if k == es.len() - 1 {
        assert(body == ev);
        lemma_parse_ser(s, p, es[k]);
        assert(parse_val(s, p) == Some((es[k], p + el)));
        assert(next_pos(p, p + el) == p + el);
        assert(s[p + el] == RBRACKET);
        assert(parse_items(s, p, acc) == Some((JVal::Arr(acc.push(es[k])), p + el + 1)));
        assert(acc.push(es[k]) =~= acc + es.subrange(k, es.len() as int));
    } else {
        assert(body == ev + seq![COMMA] + ser_items_from(es, k + 1));
        lemma_sub_at(s, p, body, 0, ev);
        lemma_byte_at(s, p, body, el);
        assert(s[p + el] == COMMA);
        lemma_parse_ser(s, p, es[k]);
        assert(parse_val(s, p) == Some((es[k], p + el)));
        assert(next_pos(p, p + el) == p + el);
        lemma_sub_at(s, p, body, el + 1, ser_items_from(es, k + 1));
        assert(s[(p + el + 1) + ser_items_from(es, k + 1).len()] == RBRACKET) by {
            assert(body.len() == el + 1 + ser_items_from(es, k + 1).len());
            assert((p + el + 1) + ser_items_from(es, k + 1).len() == p + body.len());
        }
        lemma_parse_items_ser(s, p + el + 1, es, k + 1, acc.push(es[k]));
        assert(acc.push(es[k]) + es.subrange(k + 1, es.len() as int) =~= acc + es.subrange(
            k,
            es.len() as int,
        ));
        assert(p + el + 1 + ser_items_from(es, k + 1).len() + 1 == p + body.len() + 1);
    }
}

/// Parsing the members of an object body from `k` on, followed by the closing
/// brace, collects exactly those members.
pub proof fn lemma_parse_members_ser(
    s: Seq<u8>,
    p: int,
    fs: Seq<(Seq<u8>, JVal)>,
    k: int,
    acc: Seq<(Seq<u8>, JVal)>,
)
    requires
        0 <= k < fs.len(),
        0 <= p,
        p + ser_fields_from(fs, k).len() + 1 <= s.len(),
        s.subrange(p, p + ser_fields_from(fs, k).len() as int) == ser_fields_from(fs, k),
        s[p + ser_fields_from(fs, k).len()] == RBRACE,
    ensures
        parse_members(s, p, acc) == Some(
            (
                JVal::Obj(acc + fs.subrange(k, fs.len() as int)),
                p + ser_fields_from(fs, k).len() + 1,
            ),
        ),
    decreases fs, 1int, fs.len() - k,
{
    let body = ser_fields_from(fs, k);
    let key = fs[k].0;
    let ks = ser_str(key);
    let kl = ks.len() as int;
    let ev = ser_val(fs[k].1);
    let el = ev.len() as int;
    lemma_ser_first(fs[k].1);
    assert(ks == seq![QUOTE] + esc(key) + seq![QUOTE]);
    // The key string.
    lemma_byte_at(s, p, body, 0);
    assert(body[0] == QUOTE);
    lemma_sub_at(s, p, body, 1, esc(key));
    lemma_byte_at(s, p, body, 1 + esc(key).len() as int);
    assert(body[1 + esc(key).len() as int] == QUOTE);
    assert(s[(p + 1) + esc(key).len()] == QUOTE) by {
        assert(p + (1 + esc(key).len()) == (p + 1) + esc(key).len());
    }
    lemma_parse_str_ser(s, p + 1, Seq::empty(), key);
    assert(Seq::<u8>::empty() + key =~= key);
    let j = p + kl;
    assert(parse_str_body(s, p + 1, Seq::empty()) == Some((key, j)));
    assert(next_pos(p, j) == j);
    // The colon.
    lemma_byte_at(s, p, body, kl);
    assert(s[j] == COLON);
    // The value.
    lemma_sub_at(s, p, body, kl + 1, ev);
    assert(s.subrange(j + 1, j + 1 + el) == ev) by {
        assert(p + (kl + 1) == j + 1);
    }
    let m = j + 1 + el;
    if k == fs.len() - 1 {
        assert(body == ks + seq![COLON] + ev);
        assert(s[m] == RBRACE) by {
            assert(body.len() == kl + 1 + el);
            assert(m == p + body.len());
        }
        lemma_parse_ser(s, j + 1, fs[k].1);
        assert(parse_val(s, j + 1) == Some((fs[k].1, m)));
        assert(next_pos(j + 1, m) == m);
        assert(parse_members(s, p, acc) == Some((JVal::Obj(acc.push(fs[k])), m + 1)));
        assert(acc.push(fs[k]) =~= acc + fs.subrange(k, fs.len() as int));
        assert(m + 1 == p + body.len() + 1);
    } else {
        assert(body == ks + seq![COLON] + ev + seq![COMMA] + ser_fields_from(fs, k + 1));
        lemma_byte_at(s, p, body, kl + 1 + el);
        assert(s[m] == COMMA) by {
            assert(p + (kl + 1 + el) == m);
        }
        lemma_parse_ser(s, j + 1, fs[k].1);
        assert(parse_val(s, j + 1) == Some((fs[k].1, m)));
        assert(next_pos(j + 1, m) == m);
        lemma_sub_at(s, p, body, kl + 1 + el + 1, ser_fields_from(fs, k + 1));
        assert(s.subrange(m + 1, m + 1 + ser_fields_from(fs, k + 1).len() as int)
            == ser_fields_from(fs, k + 1)) by {
            assert(p + (kl + 1 + el + 1) == m + 1);
        }
        assert(s[(m + 1) + ser_fields_from(fs, k + 1).len()] == RBRACE) by {
            assert(body.len() == kl + 1 + el + 1 + ser_fields_from(fs, k + 1).len());
            assert((m + 1) + ser_fields_from(fs, k + 1).len() == p + body.len());
        }
        lemma_parse_members_ser(s, m + 1, fs, k + 1, acc.push(fs[k]));
        assert(acc.push(fs[k]) + fs.subrange(k + 1, fs.len() as int) =~= acc + fs.subrange(
            k,
            fs.len() as int,
        ));
        assert(m + 1 + ser_fields_from(fs, k + 1).len() + 1 == p + body.len() + 1);
    }
}

/// Round trip: decoding the serialized form of any value reconstructs the
/// value exactly.
pub proof fn lemma_round_trip(v: JVal)
    ensures
        parsed_val(ser_val(v)) == Some(v),
{
    let s = ser_val(v);
    assert(s.subrange(0, s.len() as int) =~= s);
    lemma_parse_ser(s, 0, v);
}

} // verus!
