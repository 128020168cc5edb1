use vstd::prelude::*;
use crate::value::{JVal, JsonValue};

verus! {

pub const QUOTE: u8 = 34;
pub const BSLASH: u8 = 92;
pub const LBRACKET: u8 = 91;
pub const RBRACKET: u8 = 93;
pub const LBRACE: u8 = 123;
pub const RBRACE: u8 = 125;
pub const COMMA: u8 = 44;
pub const COLON: u8 = 58;
pub const ZERO: u8 = 48;

// ---------------------------------------------------------------------------
// Specification of the wire format: a compact JSON text over byte strings.
// ---------------------------------------------------------------------------

/// Decimal digits of `n`, most significant first.
pub open spec fn dec_digits(n: u64) -> Seq<u8>
    decreases n,
{
    if n < 10 {
        seq![(ZERO + n) as u8]
    } else {
        dec_digits(n / 10) + seq![(ZERO + n % 10) as u8]
    }
}

/// How one byte of string content appears on the wire: quote, backslash,
/// newline, carriage return and tab are escaped, all other bytes pass through.
pub open spec fn esc_byte(b: u8) -> Seq<u8> {
    if b == QUOTE {
        seq![BSLASH, QUOTE]
    } else if b == BSLASH {
        seq![BSLASH, BSLASH]
    } else if b == 10 {
        seq![BSLASH, 110u8]
    } else if b == 13 {
        seq![BSLASH, 114u8]
    } else if b == 9 {
        seq![BSLASH, 116u8]
    } else {
        seq![b]
    }
}

/// The first `i` bytes of `s`, escaped.
pub open spec fn esc_to(s: Seq<u8>, i: int) -> Seq<u8>
    decreases i,
{
    if i <= 0 {
        Seq::empty()
    } else {
        esc_to(s, i - 1) + esc_byte(s[i - 1])
    }
}

pub open spec fn esc(s: Seq<u8>) -> Seq<u8> {
    esc_to(s, s.len() as int)
}

/// A string on the wire: quoted and escaped.
pub open spec fn ser_str(s: Seq<u8>) -> Seq<u8> {
    seq![QUOTE] + esc(s) + seq![QUOTE]
}

/// Serialization of a structured value.
pub open spec fn ser_val(v: JVal) -> Seq<u8>
    decreases v, 1int, 0int,
{
    match v {
        JVal::Null => seq![110u8, 117u8, 108u8, 108u8],
        JVal::Bool(b) => if b {
            seq![116u8, 114u8, 117u8, 101u8]
        } else {
            seq![102u8, 97u8, 108u8, 115u8, 101u8]
        },
        JVal::UInt(n) => dec_digits(n),
        JVal::Str(s) => ser_str(s),
        JVal::Arr(es) => seq![LBRACKET] + ser_items(es, es.len() as int) + seq![RBRACKET],
        JVal::Obj(fs) => seq![LBRACE] + ser_fields(fs, fs.len() as int) + seq![RBRACE],
    }
}

/// The first `i` elements of an array body, comma separated.
pub open spec fn ser_items(es: Seq<JVal>, i: int) -> Seq<u8>
    decreases es, 0int, i,
{
    if i <= 0 || i > es.len() {
        Seq::empty()
    } else if i == 1 {
        ser_val(es[0])
    } else {
        ser_items(es, i - 1) + seq![COMMA] + ser_val(es[i - 1])
    }
}

/// The first `i` members of an object body, comma separated.
pub open spec fn ser_fields(fs: Seq<(Seq<u8>, JVal)>, i: int) -> Seq<u8>
    decreases fs, 0int, i,
{
    if i <= 0 || i > fs.len() {
        Seq::empty()
    } else if i == 1 {
        ser_str(fs[0].0) + seq![COLON] + ser_val(fs[0].1)
    } else {
        ser_fields(fs, i - 1) + seq![COMMA] + ser_str(fs[i - 1].0) + seq![COLON] + ser_val(
            fs[i - 1].1,
        )
    }
}

// ---------------------------------------------------------------------------
// Specification of decoding: a recursive-descent parser over the same format.
// ---------------------------------------------------------------------------

pub open spec fn is_digit(b: u8) -> bool {
    ZERO <= b <= 57
}

/// Position clamping that makes the parser's recursion well founded without
/// assuming anything about intermediate results; on every run that matters
/// the clamp is the identity, since a parsed piece always ends past where it
/// began.
pub open spec fn next_pos(i: int, j: int) -> int {
    if j > i {
        j
    } else {
        i + 1
    }
}

/// Consume decimal digits from `i`, extending the accumulator `acc`; stops at
/// the first non-digit. Yields the accumulated integer and the stop position.
pub open spec fn parse_num(s: Seq<u8>, i: int, acc: int) -> (int, int)
    decreases s.len() - i,
{
    if i < 0 || i >= s.len() || !is_digit(s[i]) {
        (acc, i)
    } else {
        parse_num(s, i + 1, acc * 10 + (s[i] - ZERO))
    }
}

/// Consume a string body (after the opening quote), undoing escapes, up to
/// and including the closing quote. Yields the content and the position after
/// the closing quote.
pub open spec fn parse_str_body(s: Seq<u8>, i: int, acc: Seq<u8>) -> Option<(Seq<u8>, int)>
    decreases s.len() - i,
{
    if i < 0 || i >= s.len() {
        None
    } else if s[i] == QUOTE {
        Some((acc, i + 1))
    } else if s[i] == BSLASH {
        if i + 1 >= s.len() {
            None
        } else {
            let e = s[i + 1];
            if e == QUOTE {
                parse_str_body(s, i + 2, acc + seq![QUOTE])
            } else if e == BSLASH {
                parse_str_body(s, i + 2, acc + seq![BSLASH])
            } else if e == 110 {
                parse_str_body(s, i + 2, acc + seq![10u8])
            } else if e == 114 {
                parse_str_body(s, i + 2, acc + seq![13u8])
            } else if e == 116 {
                parse_str_body(s, i + 2, acc + seq![9u8])
            } else {
                None
            }
        }
    } else {
        parse_str_body(s, i + 1, acc + seq![s[i]])
    }
}

/// Parse one value starting at `i`. Yields the value and the position after it.
pub open spec fn parse_val(s: Seq<u8>, i: int) -> Option<(JVal, int)>
    decreases s.len() - i, 0int,
{
    if i < 0 || i >= s.len() {
        None
    } else {
        let b = s[i];
        if b == 110 {
            if i + 4 <= s.len() && s[i + 1] == 117 && s[i + 2] == 108 && s[i + 3] == 108 {
                Some((JVal::Null, i + 4))
            } else {
                None
            }
        } else if b == 116 {
            if i + 4 <= s.len() && s[i + 1] == 114 && s[i + 2] == 117 && s[i + 3] == 101 {
                Some((JVal::Bool(true), i + 4))
            } else {
                None
            }
        } else if b == 102 {
            if i + 5 <= s.len() && s[i + 1] == 97 && s[i + 2] == 108 && s[i + 3] == 115 && s[i + 4]
                == 101 {
                Some((JVal::Bool(false), i + 5))
            } else {
                None
            }
        } else if b == QUOTE {
            match parse_str_body(s, i + 1, Seq::empty()) {
                Some((content, j)) => Some((JVal::Str(content), j)),
                None => None,
            }
        } else if is_digit(b) {
            let (v, j) = parse_num(s, i, 0);
            if v <= u64::MAX {
                Some((JVal::UInt(v as u64), j))
            } else {
                None
            }
        } else if b == LBRACKET {
            if i + 1 < s.len() && s[i + 1] == RBRACKET {
                Some((JVal::Arr(Seq::empty()), i + 2))
            } else {
                parse_items(s, i + 1, Seq::empty())
            }
        } else if b == LBRACE {
            if i + 1 < s.len() && s[i + 1] == RBRACE {
                Some((JVal::Obj(Seq::empty()), i + 2))
            } else {
                parse_members(s, i + 1, Seq::empty())
            }
        } else {
            None
        }
    }
}

/// Parse the remaining elements of a non-empty array body: a value, then
/// either a comma and more elements or the closing bracket.
pub open spec fn parse_items(s: Seq<u8>, i: int, acc: Seq<JVal>) -> Option<(JVal, int)>
    decreases s.len() - i, 1int,
{
    if i < 0 || i >= s.len() {
        None
    } else {
        match parse_val(s, i) {
            None => None,
            Some((v, j0)) => {
                let j = next_pos(i, j0);
                if j < s.len() && s[j] == COMMA {
                    parse_items(s, j + 1, acc.push(v))
                } else if j < s.len() && s[j] == RBRACKET {
                    Some((JVal::Arr(acc.push(v)), j + 1))
                } else {
                    None
                }
            },
        }
    }
}

/// Parse the remaining members of a non-empty object body: a quoted key, a
/// colon, a value, then either a comma and more members or the closing brace.
pub open spec fn parse_members(s: Seq<u8>, i: int, acc: Seq<(Seq<u8>, JVal)>) -> Option<(JVal, int)>
    decreases s.len() - i, 1int,
{
    if i < 0 || i >= s.len() || s[i] != QUOTE {
        None
    } else {
        match parse_str_body(s, i + 1, Seq::empty()) {
            None => None,
            Some((k, j0)) => {
                let j = next_pos(i, j0);
                if j < s.len() && s[j] == COLON {
                    match parse_val(s, j + 1) {
                        None => None,
                        Some((v, m0)) => {
                            let m = next_pos(j + 1, m0);
                            if m < s.len() && s[m] == COMMA {
                                parse_members(s, m + 1, acc.push((k, v)))
                            } else if m < s.len() && s[m] == RBRACE {
                                Some((JVal::Obj(acc.push((k, v))), m + 1))
                            } else {
                                None
                            }
                        },
                    }
                } else {
                    None
                }
            },
        }
    }
}

/// Decoding a whole buffer: one value, consuming all of the input.
pub open spec fn parsed_val(s: Seq<u8>) -> Option<JVal> {
    match parse_val(s, 0) {
        Some((v, j)) => if j == s.len() {
            Some(v)
        } else {
            None
        },
        None => None,
    }
}

// ---------------------------------------------------------------------------
// Executable encoder.
// ---------------------------------------------------------------------------

/// Append the decimal digits of `n`.
fn encode_uint(n: u64, out: &mut Vec<u8>)
    ensures
        final(out)@ == old(out)@ + dec_digits(n),
    decreases n,
{
    if n < 10 {
        out.push(ZERO + (n as u8));
        assert(out@ =~= old(out)@ + dec_digits(n));
    } else {
        encode_uint(n / 10, out);
        out.push(ZERO + ((n % 10) as u8));
        assert(out@ =~= old(out)@ + dec_digits(n));
    }
}

/// Append one quoted, escaped string.
fn encode_str(s: &Vec<u8>, out: &mut Vec<u8>)
    ensures
        final(out)@ == old(out)@ + ser_str(s@),
{
    out.push(QUOTE);
    let n = s.len();
    let mut i: usize = 0;
    while i < n
        invariant
            i <= n,
            n == s@.len(),
            out@ == old(out)@ + seq![QUOTE] + esc_to(s@, i as int),
        decreases n - i,
    {
        let b = s[i];
        if b == QUOTE {
            out.push(BSLASH);
            out.push(QUOTE);
        } else if b == BSLASH {
            out.push(BSLASH);
            out.push(BSLASH);
        } else if b == 10 {
            out.push(BSLASH);
            out.push(110);
        } else if b == 13 {
            out.push(BSLASH);
            out.push(114);
        } else if b == 9 {
            out.push(BSLASH);
            out.push(116);
        } else {
            out.push(b);
        }
        assert(out@ =~= old(out)@ + seq![QUOTE] + esc_to(s@, i + 1));
        i = i + 1;
    }
    out.push(QUOTE);
    assert(out@ =~= old(out)@ + ser_str(s@));
}

/// Append the serialization of `v`.
#[verifier::loop_isolation(false)]
pub fn encode_val(v: &JsonValue, out: &mut Vec<u8>)
    ensures
        final(out)@ == old(out)@ + ser_val(v@),
    decreases v,
{
    match v {
        JsonValue::Null => {
            out.push(110);
            out.push(117);
            out.push(108);
            out.push(108);
            assert(out@ =~= old(out)@ + ser_val(v@));
        },
        JsonValue::Bool(b) => {
            if *b {
                out.push(116);
                out.push(114);
                out.push(117);
                out.push(101);
            } else {
                out.push(102);
                out.push(97);
                out.push(108);
                out.push(115);
                out.push(101);
            }
            assert(out@ =~= old(out)@ + ser_val(v@));
        },
        JsonValue::UInt(n) => {
            encode_uint(*n, out);
        },
        JsonValue::Str(s) => {
            encode_str(s, out);
        },
        JsonValue::Arr(vs) => {
            proof {
                crate::value::lemma_deep_seq_index(vs@);
            }
            let ghost es = JsonValue::deep_seq(vs@);
            out.push(LBRACKET);
            let n = vs.len();
            let mut i: usize = 0;
            while i < n
                invariant
                    i <= n,
                    n == vs@.len(),
                    es == JsonValue::deep_seq(vs@),
                    es.len() == n,
                    forall|k: int| 0 <= k < n ==> #[trigger] es[k] == vs@[k].deep(),
                    out@ == old(out)@ + seq![LBRACKET] + ser_items(es, i as int),
                decreases n - i,
            {
                if i > 0 {
                    out.push(COMMA);
                }
                proof {
                    assert(*vs == v->Arr_0);
                    assert(decreases_to!(*v => v->Arr_0));
                    assert(decreases_to!(*vs => vs[i as int]));
                }
                encode_val(&vs[i], out);
                assert(out@ =~= old(out)@ + seq![LBRACKET] + ser_items(es, i + 1));
                i = i + 1;
            }
            out.push(RBRACKET);
            assert(out@ =~= old(out)@ + ser_val(v@));
        },
        JsonValue::Obj(fs) => {
            proof {
                crate::value::lemma_deep_fields_index(fs@);
            }
            let ghost gs = JsonValue::deep_fields(fs@);
            out.push(LBRACE);
            let n = fs.len();
            let mut i: usize = 0;
            while i < n
                invariant
                    i <= n,
                    n == fs@.len(),
                    gs == JsonValue::deep_fields(fs@),
                    gs.len() == n,
                    forall|k: int| 0 <= k < n ==> #[trigger] gs[k] == (fs@[k].0@, fs@[k].1.deep()),
                    out@ == old(out)@ + seq![LBRACE] + ser_fields(gs, i as int),
                decreases n - i,
            {
                if i > 0 {
                    out.push(COMMA);
                }
                let pair = &fs[i];
                proof {
                    assert(*fs == v->Obj_0);
                    assert(decreases_to!(*v => v->Obj_0));
                    assert(decreases_to!(*fs => fs[i as int]));
                    assert(decreases_to!(fs[i as int] => fs[i as int].1));
                }
                encode_str(&pair.0, out);
                out.push(COLON);
                encode_val(&pair.1, out);
                assert(out@ =~= old(out)@ + seq![LBRACE] + ser_fields(gs, i + 1));
                i = i + 1;
            }
            out.push(RBRACE);
            assert(out@ =~= old(out)@ + ser_val(v@));
        },
    }
}

/// Serialize one value to a fresh buffer.
pub fn encode(v: &JsonValue) -> (out: Vec<u8>)
    ensures
        out@ == ser_val(v@),
{
    let mut out: Vec<u8> = Vec::new();
    encode_val(v, &mut out);
    out
}

// ---------------------------------------------------------------------------
// Executable decoder.
// ---------------------------------------------------------------------------

/// The number a digit run denotes never falls below its accumulator, and the
/// stop position never moves backwards.
pub proof fn lemma_parse_num_lower(s: Seq<u8>, i: int, acc: int)
    requires
        acc >= 0,
    ensures
        parse_num(s, i, acc).0 >= acc,
        parse_num(s, i, acc).1 >= i,
    decreases s.len() - i,
{
    if !(i < 0 || i >= s.len() || !is_digit(s[i])) {
        lemma_parse_num_lower(s, i + 1, acc * 10 + (s[i] - ZERO));
    }
}

/// `deep_seq` commutes with `push`.
pub proof fn lemma_deep_seq_push(vs: Seq<JsonValue>, v: JsonValue)
    ensures
        JsonValue::deep_seq(vs.push(v)) == JsonValue::deep_seq(vs).push(v.deep()),
{
    crate::value::lemma_deep_seq_index(vs);
    crate::value::lemma_deep_seq_index(vs.push(v));
    assert(JsonValue::deep_seq(vs.push(v)) =~= JsonValue::deep_seq(vs).push(v.deep()));
}

/// `deep_fields` commutes with `push`.
pub proof fn lemma_deep_fields_push(fs: Seq<(Vec<u8>, JsonValue)>, k: Vec<u8>, v: JsonValue)
    ensures
        JsonValue::deep_fields(fs.push((k, v))) == JsonValue::deep_fields(fs).push((k@, v.deep())),
{
    crate::value::lemma_deep_fields_index(fs);
    crate::value::lemma_deep_fields_index(fs.push((k, v)));
    assert(JsonValue::deep_fields(fs.push((k, v))) =~= JsonValue::deep_fields(fs).push(
        (k@, v.deep()),
    ));
}

/// Consume a run of digits into a number; reports failure when the number
/// does not fit the protocol's unsigned 64-bit range.
fn parse_num_at(s: &[u8], i: usize) -> (r: Option<(u64, usize)>)
    requires
        i < s@.len(),
        is_digit(s@[i as int]),
    ensures
        match r {
            Some((v, j)) => parse_num(s@, i as int, 0) == (v as int, j as int) && i < j <= s@.len(),
            None => parse_num(s@, i as int, 0).0 > u64::MAX,
        },
{
    let n = s.len();
    let mut acc: u128 = 0;
    let mut j: usize = i;
    while j < n && ZERO <= s[j] && s[j] <= 57
        invariant
            i <= j <= n,
            n == s@.len(),
            acc <= u64::MAX as u128 * 10 + 9,
            parse_num(s@, i as int, 0) == parse_num(s@, j as int, acc as int),
            j > i || acc == 0,
        decreases n - j,
    {
        if acc > u64::MAX as u128 {
            proof {
                lemma_parse_num_lower(s@, j as int, acc as int);
            }
            return None;
        }
        let d = s[j] - ZERO;
        acc = acc * 10 + d as u128;
        j = j + 1;
    }
    if acc > u64::MAX as u128 {
        proof {
            lemma_parse_num_lower(s@, j as int, acc as int);
        }
        None
    } else {
        Some((acc as u64, j))
    }
}

/// Parse one value starting at `i`; on success, yields the value and the
/// position just after it.
#[verifier::loop_isolation(false)]
pub fn parse_val_at(s: &[u8], i: usize) -> (r: Option<(JsonValue, usize)>)
    ensures
        match r {
            Some((v, j)) => parse_val(s@, i as int) == Some((v@, j as int)) && i < j <= s@.len(),
            None => parse_val(s@, i as int) is None,
        },
    decreases s@.len() - i,
{
    let n = s.len();
    if i >= n {
        return None;
    }
    let b = s[i];
    if b == 110 {
        if n - i >= 4 && s[i + 1] == 117 && s[i + 2] == 108 && s[i + 3] == 108 {
            Some((JsonValue::Null, i + 4))
        } else {
            None
        }
    } else if b == 116 {
        if n - i >= 4 && s[i + 1] == 114 && s[i + 2] == 117 && s[i + 3] == 101 {
            Some((JsonValue::Bool(true), i + 4))
        } else {
            None
        }
    } else if b == 102 {
        if n - i >= 5 && s[i + 1] == 97 && s[i + 2] == 108 && s[i + 3] == 115 && s[i + 4] == 101 {
            Some((JsonValue::Bool(false), i + 5))
        } else {
            None
        }
    } else if b == QUOTE {
        match parse_string_at(s, i) {
            Some((content, j)) => Some((JsonValue::Str(content), j)),
            None => None,
        }
    } else if ZERO <= b && b <= 57 {
        match parse_num_at(s, i) {
            Some((v, j)) => Some((JsonValue::UInt(v), j)),
            None => None,
        }
    } else if b == LBRACKET {
        if i + 1 < n && s[i + 1] == RBRACKET {
            let out = JsonValue::Arr(Vec::new());
            assert(out@ == JVal::Arr(Seq::<JVal>::empty()));
            return Some((out, i + 2));
        }
        let mut acc: Vec<JsonValue> = Vec::new();
        let mut cur: usize = i + 1;
        loop
            invariant
                i + 1 <= cur <= n,
                parse_items(s@, i + 1, Seq::empty()) == parse_items(
                    s@,
                    cur as int,
                    JsonValue::deep_seq(acc@),
                ),
            decreases n - cur,
        {
            if cur >= n {
                return None;
            }
            match parse_val_at(s, cur) {
                None => {
                    return None;
                },
                Some((v, j)) => {
                    proof {
                        lemma_deep_seq_push(acc@, v);
                    }
                    if j < n && s[j] == COMMA {
                        acc.push(v);
                        cur = j + 1;
                    } else if j < n && s[j] == RBRACKET {
                        acc.push(v);
                        return Some((JsonValue::Arr(acc), j + 1));
                    } else {
                        return None;
                    }
                },
            }
        }
    } else if b == LBRACE {
        if i + 1 < n && s[i + 1] == RBRACE {
            let out = JsonValue::Obj(Vec::new());
            assert(out@ == JVal::Obj(Seq::<(Seq<u8>, JVal)>::empty()));
            return Some((out, i + 2));
        }
        let mut acc: Vec<(Vec<u8>, JsonValue)> = Vec::new();
        let mut cur: usize = i + 1;
        loop
            invariant
                i + 1 <= cur <= n,
                parse_members(s@, i + 1, Seq::empty()) == parse_members(
                    s@,
                    cur as int,
                    JsonValue::deep_fields(acc@),
                ),
            decreases n - cur,
        {
            if cur >= n || s[cur] != QUOTE {
                return None;
            }
            match parse_string_at(s, cur) {
                None => {
                    return None;
                },
                Some((k, j)) => {
                    if !(j < n && s[j] == COLON) {
                        return None;
                    }
                    match parse_val_at(s, j + 1) {
                        None => {
                            return None;
                        },
                        Some((v, m)) => {
                            proof {
                                lemma_deep_fields_push(acc@, k, v);
                            }
                            if m < n && s[m] == COMMA {
                                acc.push((k, v));
                                cur = m + 1;
                            } else if m < n && s[m] == RBRACE {
                                acc.push((k, v));
                                return Some((JsonValue::Obj(acc), m + 1));
                            } else {
                                return None;
                            }
                        },
                    }
                },
            }
        }
    } else {
        None
    }
}

/// Decode a whole buffer into one structured value; `None` when the bytes are
/// not a complete well-formed value of the wire format.
pub fn decode(s: &[u8]) -> (r: Option<JsonValue>)
    ensures
        match r {
            Some(v) => parsed_val(s@) == Some(v@),
            None => parsed_val(s@) is None,
        },
{
    match parse_val_at(s, 0) {
        Some((v, j)) => {
            if j == s.len() {
                Some(v)
            } else {
                None
            }
        },
        None => None,
    }
}

/// Consume a quoted string starting at its opening quote, undoing escapes.
fn parse_string_at(s: &[u8], i: usize) -> (r: Option<(Vec<u8>, usize)>)
    requires
        i < s@.len(),
        s@[i as int] == QUOTE,
    ensures
        match r {
            Some((content, j)) => parse_str_body(s@, i + 1, Seq::empty()) == Some(
                (content@, j as int),
            ) && i < j <= s@.len(),
            None => parse_str_body(s@, i + 1, Seq::empty()) is None,
        },
{
    let n = s.len();
    let mut acc: Vec<u8> = Vec::new();
    let mut cur: usize = i + 1;
    loop
        invariant
            i + 1 <= cur <= n,
            n == s@.len(),
            parse_str_body(s@, i + 1, Seq::empty()) == parse_str_body(s@, cur as int, acc@),
        decreases n - cur,
    {
        if cur >= n {
            return None;
        }
        let b = s[cur];
        if b == QUOTE {
            return Some((acc, cur + 1));
        } else if b == BSLASH {
            if cur + 1 >= n {
                return None;
            }
            let e = s[cur + 1];
            let u: u8;
            if e == QUOTE {
                u = QUOTE;
            } else if e == BSLASH {
                u = BSLASH;
            } else if e == 110 {
                u = 10;
            } else if e == 114 {
                u = 13;
            } else if e == 116 {
                u = 9;
            } else {
                return None;
            }
            let ghost acc0 = acc@;
            acc.push(u);
            assert(acc@ =~= acc0 + seq![u]);
            cur = cur + 2;
        } else {
            let ghost acc0 = acc@;
            acc.push(b);
            assert(acc@ =~= acc0 + seq![b]);
            cur = cur + 1;
        }
    }
}

} // verus!
