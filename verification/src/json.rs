//! A small JSON model with a verified parser and writer.
//!
//! The agent runtime speaks JSON on every wire: chat-completion responses,
//! streaming event frames, tool-call arguments, and the persisted session
//! files. All of them go through this one module. The parser is specified
//! by a ghost recursive-descent parser over `Seq<char>`; the executable
//! parser returns exactly what the ghost parser denotes. The writer emits
//! compact JSON, and a round-trip theorem shows that parsing the writer's
//! output gives the original value back.

use vstd::prelude::*;

verus! {

broadcast use vstd::std_specs::vec::axiom_vec_index_decreases, vstd::std_specs::vec::axiom_vec_decreases_to_view, vstd::seq::axiom_seq_index_decreases, vstd::seq::axiom_seq_subrange_decreases;

/// An executable JSON value. Numbers keep their source text, so no
/// floating-point arithmetic is ever performed on them.
#[derive(Debug, PartialEq, Eq)]
pub enum Json {
    Null,
    Bool(bool),
    /// The raw number token, exactly as it appeared.
    Num(String),
    Str(String),
    Arr(Vec<Json>),
    Obj(Vec<(String, Json)>),
}

/// The ghost model of a JSON value.
pub enum JsonV {
    Null,
    Bool(bool),
    Num(Seq<char>),
    Str(Seq<char>),
    Arr(Seq<JsonV>),
    Obj(Seq<(Seq<char>, JsonV)>),
}

impl Json {
    /// The ghost value this executable value stands for.
    pub open spec fn dv(self) -> JsonV
        decreases self,
    {
        match self {
            Json::Null => JsonV::Null,
            Json::Bool(b) => JsonV::Bool(b),
            Json::Num(s) => JsonV::Num(s@),
            Json::Str(s) => JsonV::Str(s@),
            Json::Arr(v) => JsonV::Arr(
                Seq::new(
                    v@.len(),
                    |i: int|
                        if 0 <= i < v@.len() {
                            v@[i].dv()
                        } else {
                            JsonV::Null
                        },
                ),
            ),
            Json::Obj(v) => JsonV::Obj(
                Seq::new(
                    v@.len(),
                    |i: int|
                        if 0 <= i < v@.len() {
                            (v@[i].0@, v@[i].1.dv())
                        } else {
                            (Seq::<char>::empty(), JsonV::Null)
                        },
                ),
            ),
        }
    }
}

// ---------------------------------------------------------------------------
// Ghost parser
// ---------------------------------------------------------------------------

pub open spec fn is_ws(c: char) -> bool {
    c == ' ' || c == '\n' || c == '\t' || c == '\r'
}

pub open spec fn is_digit(c: char) -> bool {
    48 <= c as u32 <= 57
}

pub open spec fn is_hex(c: char) -> bool {
    is_digit(c) || (97 <= c as u32 <= 102) || (65 <= c as u32 <= 70)
}

pub open spec fn hex_val(c: char) -> u32 {
    if is_digit(c) {
        (c as u32 - 48) as u32
    } else if 97 <= c as u32 <= 102 {
        (c as u32 - 87) as u32
    } else {
        (c as u32 - 55) as u32
    }
}

/// The code point of a character.
pub open spec fn code(c: char) -> u32 {
    c as u32
}

/// The unique character with the given code point (meaningful only for
/// Unicode scalar values).
pub open spec fn char_of(n: u32) -> char {
    choose|c: char| code(c) == n
}

/// A code point that is a Unicode scalar value.
pub open spec fn is_scalar(n: u32) -> bool {
    n < 0xD800 || (0xE000 <= n < 0x110000)
}

/// First position at or after `i` that does not hold whitespace.
pub open spec fn sp_ws(s: Seq<char>, i: int) -> int
    decreases s.len() - i when i <= s.len()
{
    if 0 <= i < s.len() && is_ws(s[i]) {
        sp_ws(s, i + 1)
    } else {
        i
    }
}

/// End of the run of digits starting at `i`.
pub open spec fn sp_digits(s: Seq<char>, i: int) -> int
    decreases s.len() - i when i <= s.len()
{
    if 0 <= i < s.len() && is_digit(s[i]) {
        sp_digits(s, i + 1)
    } else {
        i
    }
}

/// The four hex digits at `i` as a number, assuming they are hex digits.
pub open spec fn hex4(s: Seq<char>, i: int) -> u32 {
    (hex_val(s[i]) * 0x1000 + hex_val(s[i + 1]) * 0x100 + hex_val(s[i + 2]) * 16 + hex_val(
        s[i + 3],
    )) as u32
}

pub open spec fn hex4_ok(s: Seq<char>, i: int) -> bool {
    i + 4 <= s.len() && is_hex(s[i]) && is_hex(s[i + 1]) && is_hex(s[i + 2]) && is_hex(s[i + 3])
}

/// Parse the body of a string literal starting at `i` (just after the
/// opening quote); yields the decoded characters and the position right
/// after the closing quote.
pub open spec fn sp_strbody(s: Seq<char>, i: int) -> Option<(Seq<char>, int)>
    decreases s.len() - i when 0 <= i <= s.len()
{
    if i >= s.len() {
        None
    } else if s[i] == '"' {
        Some((Seq::<char>::empty(), i + 1))
    } else if s[i] == '\\' {
        if i + 1 >= s.len() {
            None
        } else {
            let e = s[i + 1];
            if e == 'u' {
                if hex4_ok(s, i + 2) {
                    let n = hex4(s, i + 2);
                    if 0xD800 <= n < 0xDC00 {
                        // high surrogate: a low surrogate escape must follow
                        if i + 12 <= s.len() && s[i + 6] == '\\' && s[i + 7] == 'u' && hex4_ok(
                            s,
                            i + 8,
                        ) {
                            let lo = hex4(s, i + 8);
                            if 0xDC00 <= lo < 0xE000 {
                                let cp = (0x10000 + (n - 0xD800) * 0x400 + (lo - 0xDC00)) as u32;
                                match sp_strbody(s, i + 12) {
                                    Some((t, p)) => Some((seq![char_of(cp)] + t, p)),
                                    None => None,
                                }
                            } else {
                                None
                            }
                        } else {
                            None
                        }
                    } else if 0xDC00 <= n < 0xE000 {
                        None
                    } else {
                        match sp_strbody(s, i + 6) {
                            Some((t, p)) => Some((seq![char_of(n)] + t, p)),
                            None => None,
                        }
                    }
                } else {
                    None
                }
            } else {
                let c: char = if e == '"' {
                    '"'
                } else if e == '\\' {
                    '\\'
                } else if e == '/' {
                    '/'
                } else if e == 'n' {
                    '\n'
                } else if e == 't' {
                    '\t'
                } else if e == 'r' {
                    '\r'
                } else if e == 'b' {
                    '\u{8}'
                } else {
                    '\u{c}'
                };
                if e == '"' || e == '\\' || e == '/' || e == 'n' || e == 't' || e == 'r' || e == 'b'
                    || e == 'f' {
                    match sp_strbody(s, i + 2) {
                        Some((t, p)) => Some((seq![c] + t, p)),
                        None => None,
                    }
                } else {
                    None
                }
            }
        }
    } else {
        match sp_strbody(s, i + 1) {
            Some((t, p)) => Some((seq![s[i]] + t, p)),
            None => None,
        }
    }
}

/// Parse a number token starting at `i`; yields its raw text and the
/// position right after it.
pub open spec fn sp_number(s: Seq<char>, i: int) -> Option<(Seq<char>, int)> {
    let j = if 0 <= i < s.len() && s[i] == '-' {
        i + 1
    } else {
        i
    };
    let d = sp_digits(s, j);
    if d == j {
        None
    } else {
        let f = if d < s.len() && s[d] == '.' {
            sp_digits(s, d + 1)
        } else {
            d
        };
        if d < s.len() && s[d] == '.' && f == d + 1 {
            None
        } else {
            let g = if f < s.len() && (s[f] == 'e' || s[f] == 'E') {
                let h = if f + 1 < s.len() && (s[f + 1] == '+' || s[f + 1] == '-') {
                    f + 2
                } else {
                    f + 1
                };
                if sp_digits(s, h) == h {
                    f
                } else {
                    sp_digits(s, h)
                }
            } else {
                f
            };
            Some((s.subrange(i, g), g))
        }
    }
}

/// Parse one JSON value whose first token starts at or after `i`
/// (leading whitespace is skipped); yields the value and the position
/// right after it. `fuel` bounds the recursion depth.
pub open spec fn sp_value(s: Seq<char>, i: int, fuel: nat) -> Option<(JsonV, int)>
    decreases fuel,
{
    if fuel == 0 || !(0 <= i <= s.len()) {
        None
    } else {
        let j = sp_ws(s, i);
        if j >= s.len() {
            None
        } else if s[j] == 'n' {
            if j + 4 <= s.len() && s[j + 1] == 'u' && s[j + 2] == 'l' && s[j + 3] == 'l' {
                Some((JsonV::Null, j + 4))
            } else {
                None
            }
        } else if s[j] == 't' {
            if j + 4 <= s.len() && s[j + 1] == 'r' && s[j + 2] == 'u' && s[j + 3] == 'e' {
                Some((JsonV::Bool(true), j + 4))
            } else {
                None
            }
        } else if s[j] == 'f' {
            if j + 5 <= s.len() && s[j + 1] == 'a' && s[j + 2] == 'l' && s[j + 3] == 's' && s[j + 4]
                == 'e' {
                Some((JsonV::Bool(false), j + 5))
            } else {
                None
            }
        } else if s[j] == '"' {
            match sp_strbody(s, j + 1) {
                Some((t, p)) => Some((JsonV::Str(t), p)),
                None => None,
            }
        } else if s[j] == '[' {
            let k = sp_ws(s, j + 1);
            if k < s.len() && s[k] == ']' {
                Some((JsonV::Arr(Seq::empty()), k + 1))
            } else {
                match sp_elements(s, j + 1, (fuel - 1) as nat) {
                    Some((es, p)) => Some((JsonV::Arr(es), p)),
                    None => None,
                }
            }
        } else if s[j] == '{' {
            let k = sp_ws(s, j + 1);
            if k < s.len() && s[k] == '}' {
                Some((JsonV::Obj(Seq::empty()), k + 1))
            } else {
                match sp_members(s, j + 1, (fuel - 1) as nat) {
                    Some((ms, p)) => Some((JsonV::Obj(ms), p)),
                    None => None,
                }
            }
        } else if s[j] == '-' || is_digit(s[j]) {
            match sp_number(s, j) {
                Some((t, p)) => Some((JsonV::Num(t), p)),
                None => None,
            }
        } else {
            None
        }
    }
}

/// Parse a non-empty, comma-separated list of values followed by `]`,
/// starting at `i` (just after `[` or a comma).
pub open spec fn sp_elements(s: Seq<char>, i: int, fuel: nat) -> Option<(Seq<JsonV>, int)>
    decreases fuel,
{
    if fuel == 0 {
        None
    } else {
        match sp_value(s, i, (fuel - 1) as nat) {
            None => None,
            Some((v, p)) => {
                if !(0 <= p <= s.len()) {
                    None
                } else {
                    let q = sp_ws(s, p);
                    if q < s.len() && s[q] == ',' {
                        match sp_elements(s, q + 1, (fuel - 1) as nat) {
                            Some((es, r)) => Some((seq![v] + es, r)),
                            None => None,
                        }
                    } else if q < s.len() && s[q] == ']' {
                        Some((seq![v], q + 1))
                    } else {
                        None
                    }
                }
            },
        }
    }
}

/// Parse a non-empty, comma-separated list of `"key": value` members
/// followed by `}`, starting at `i` (just after `{` or a comma).
pub open spec fn sp_members(s: Seq<char>, i: int, fuel: nat) -> Option<
    (Seq<(Seq<char>, JsonV)>, int),
>
    decreases fuel,
{
    if fuel == 0 || !(0 <= i <= s.len()) {
        None
    } else {
        let j = sp_ws(s, i);
        if j < s.len() && s[j] == '"' {
            match sp_strbody(s, j + 1) {
                None => None,
                Some((key, p)) => {
                    if !(0 <= p <= s.len()) {
                        None
                    } else {
                        let q = sp_ws(s, p);
                        if q < s.len() && s[q] == ':' {
                            match sp_value(s, q + 1, (fuel - 1) as nat) {
                                None => None,
                                Some((v, p2)) => {
                                    if !(0 <= p2 <= s.len()) {
                                        None
                                    } else {
                                        let q2 = sp_ws(s, p2);
                                        if q2 < s.len() && s[q2] == ',' {
                                            match sp_members(s, q2 + 1, (fuel - 1) as nat) {
                                                Some((ms, r)) => Some((seq![(key, v)] + ms, r)),
                                                None => None,
                                            }
                                        } else if q2 < s.len() && s[q2] == '}' {
                                            Some((seq![(key, v)], q2 + 1))
                                        } else {
                                            None
                                        }
                                    }
                                },
                            }
                        } else {
                            None
                        }
                    }
                },
            }
        } else {
            None
        }
    }
}

/// Parse a whole JSON document: one value with nothing but whitespace
/// after it.
pub open spec fn sp_json(s: Seq<char>) -> Option<JsonV> {
    match sp_value(s, 0, (s.len() + 1) as nat) {
        None => None,
        Some((v, p)) => {
            if 0 <= p <= s.len() && sp_ws(s, p) == s.len() {
                Some(v)
            } else {
                None
            }
        },
    }
}


// ---------------------------------------------------------------------------
// Executable parser
// ---------------------------------------------------------------------------

/// The ghost values of a sequence of executable values.
pub open spec fn dv_seq(v: Seq<Json>) -> Seq<JsonV> {
    Seq::new(
        v.len(),
        |i: int|
            if 0 <= i < v.len() {
                v[i].dv()
            } else {
                JsonV::Null
            },
    )
}

/// The ghost members of a sequence of executable members.
pub open spec fn dv_members(v: Seq<(String, Json)>) -> Seq<(Seq<char>, JsonV)> {
    Seq::new(
        v.len(),
        |i: int|
            if 0 <= i < v.len() {
                (v[i].0@, v[i].1.dv())
            } else {
                (Seq::<char>::empty(), JsonV::Null)
            },
    )
}

pub broadcast proof fn lemma_dv_arr(v: Vec<Json>)
    ensures
        (#[trigger] Json::Arr(v).dv()) == JsonV::Arr(dv_seq(v@)),
{
    let es = Json::Arr(v).dv()->Arr_0;
    assert(es =~= dv_seq(v@));
}

pub broadcast proof fn lemma_dv_obj(v: Vec<(String, Json)>)
    ensures
        (#[trigger] Json::Obj(v).dv()) == JsonV::Obj(dv_members(v@)),
{
    let ms = Json::Obj(v).dv()->Obj_0;
    assert(ms =~= dv_members(v@));
}

/// Relies on char::from_u32: `Some` exactly for Unicode scalar values,
/// holding the character with that code point.
#[verifier::external_body]
fn char_from_u32(n: u32) -> (r: Option<char>)
    ensures
        r is Some <==> is_scalar(n),
        r is Some ==> r.unwrap() as u32 == n,
{
    char::from_u32(n)
}

proof fn lemma_char_of(c: char, n: u32)
    requires
        c as u32 == n,
    ensures
        char_of(n) == c,
{
    assert(code(c) == n);
    let c2 = char_of(n);
    assert(code(c2) == n);
}

fn ws_char(c: char) -> (r: bool)
    ensures
        r == is_ws(c),
{
    c == ' ' || c == '\n' || c == '\t' || c == '\r'
}

fn digit_char(c: char) -> (r: bool)
    ensures
        r == is_digit(c),
{
    let n = c as u32;
    48 <= n && n <= 57
}

fn hex_char(c: char) -> (r: bool)
    ensures
        r == is_hex(c),
{
    let n = c as u32;
    (48 <= n && n <= 57) || (97 <= n && n <= 102) || (65 <= n && n <= 70)
}

fn hexv(c: char) -> (r: u32)
    requires
        is_hex(c),
    ensures
        r == hex_val(c),
{
    let n = c as u32;
    if n >= 97 {
        n - 87
    } else if n >= 65 {
        n - 55
    } else {
        n - 48
    }
}

/// Skip whitespace from `i`.
fn pv_ws(s: &Vec<char>, i: usize) -> (r: usize)
    requires
        i <= s@.len(),
    ensures
        r as int == sp_ws(s@, i as int),
        i <= r <= s@.len(),
{
    let mut j = i;
    while j < s.len() && ws_char(s[j])
        invariant
            i <= j <= s@.len(),
            sp_ws(s@, i as int) == sp_ws(s@, j as int),
        decreases s@.len() - j,
    {
        j += 1;
    }
    j
}

/// End of the digit run from `i`.
fn pv_digits(s: &Vec<char>, i: usize) -> (r: usize)
    requires
        i <= s@.len(),
    ensures
        r as int == sp_digits(s@, i as int),
        i <= r <= s@.len(),
{
    let mut j = i;
    while j < s.len() && digit_char(s[j])
        invariant
            i <= j <= s@.len(),
            sp_digits(s@, i as int) == sp_digits(s@, j as int),
        decreases s@.len() - j,
    {
        j += 1;
    }
    j
}

/// Whether four hex digits stand at `i`.
fn pv_hex4_ok(s: &Vec<char>, i: usize) -> (r: bool)
    requires
        i <= s@.len(),
    ensures
        r == hex4_ok(s@, i as int),
{
    i < s.len() && s.len() - i >= 4 && hex_char(s[i]) && hex_char(s[i + 1]) && hex_char(s[i + 2])
        && hex_char(s[i + 3])
}

/// The four hex digits at `i` as a number.
fn pv_hex4(s: &Vec<char>, i: usize) -> (r: u32)
    requires
        hex4_ok(s@, i as int),
    ensures
        r == hex4(s@, i as int),
{
    let n = s.len();
    hexv(s[i]) * 0x1000 + hexv(s[i + 1]) * 0x100 + hexv(s[i + 2]) * 16 + hexv(s[i + 3])
}


/// Relation used by the accumulator loop of the string parser: the overall
/// string-body parse from `i0` equals `prev` plus whatever the parse from
/// `at` still yields (and fails exactly when the parse from `at` fails).
pub open spec fn strbody_rel(s: Seq<char>, i0: int, prev: Seq<char>, at: int) -> bool {
    match sp_strbody(s, at) {
        Some((t, p)) => sp_strbody(s, i0) == Some((prev + t, p)),
        None => sp_strbody(s, i0) is None,
    }
}

/// One consumed piece: the string-body parse at `cur` yields `head`
/// followed by whatever the parse at `next` yields.
pub open spec fn strbody_step(s: Seq<char>, cur: int, head: Seq<char>, next: int) -> bool {
    match sp_strbody(s, next) {
        Some((t2, p2)) => sp_strbody(s, cur) == Some((head + t2, p2)),
        None => sp_strbody(s, cur) is None,
    }
}

/// What an executable string-body parse result must satisfy.
pub open spec fn strbody_post(s: Seq<char>, i: int, r: Option<(Vec<char>, usize)>) -> bool {
    match r {
        Some(tp) => sp_strbody(s, i) == Some((tp.0@, tp.1 as int)) && i < tp.1 <= s.len(),
        None => sp_strbody(s, i) is None,
    }
}

/// Parse a string body from `i` (just after the opening quote).
fn pv_strbody(s: &Vec<char>, i: usize) -> (r: Option<(Vec<char>, usize)>)
    requires
        i <= s@.len(),
    ensures
        strbody_post(s@, i as int, r),
{
    let ghost i0 = i as int;
    let mut cur = i;
    let mut acc: Vec<char> = Vec::new();
    loop
        invariant
            i <= cur <= s@.len(),
            i0 == i as int,
            strbody_rel(s@, i0, acc@, cur as int),
        decreases s@.len() - cur,
    {
        if cur >= s.len() {
            return None;
        }
        let c = s[cur];
        if c == '"' {
            proof {
                assert(sp_strbody(s@, cur as int) == Some((Seq::<char>::empty(), cur + 1int)));
                assert(acc@ + Seq::<char>::empty() =~= acc@);
            }
            return Some((acc, cur + 1));
        } else if c == '\\' {
            if cur + 1 >= s.len() {
                return None;
            }
            let e = s[cur + 1];
            if e == 'u' {
                if !pv_hex4_ok(s, cur + 2) {
                    return None;
                }
                let n = pv_hex4(s, cur + 2);
                if 0xD800 <= n && n < 0xDC00 {
                    if s.len() - cur >= 12 && s[cur + 6] == '\\' && s[cur + 7] == 'u'
                        && pv_hex4_ok(s, cur + 8) {
                        let lo = pv_hex4(s, cur + 8);
                        if 0xDC00 <= lo && lo < 0xE000 {
                            let cp = 0x10000 + (n - 0xD800) * 0x400 + (lo - 0xDC00);
                            let c2 = char_from_u32(cp).unwrap();
                            proof {
                                lemma_char_of(c2, cp);
                            }
                            let ghost prev = acc@;
                            acc.push(c2);
                            proof {
                                assert(acc@ =~= prev + seq![char_of(cp)]);
                                lemma_strbody_step(
                                    s@,
                                    i0,
                                    cur as int,
                                    prev,
                                    cur + 12,
                                    seq![char_of(cp)],
                                );
                            }
                            cur = cur + 12;
                        } else {
                            return None;
                        }
                    } else {
                        return None;
                    }
                } else if 0xDC00 <= n && n < 0xE000 {
                    return None;
                } else {
                    let c2 = char_from_u32(n).unwrap();
                    proof {
                        lemma_char_of(c2, n);
                    }
                    let ghost prev = acc@;
                    acc.push(c2);
                    proof {
                        assert(acc@ =~= prev + seq![char_of(n)]);
                        lemma_strbody_step(s@, i0, cur as int, prev, cur + 6, seq![char_of(n)]);
                    }
                    cur = cur + 6;
                }
            } else if e == '"' || e == '\\' || e == '/' || e == 'n' || e == 't' || e == 'r' || e
                == 'b' || e == 'f' {
                let c2: char = if e == '"' {
                    '"'
                } else if e == '\\' {
                    '\\'
                } else if e == '/' {
                    '/'
                } else if e == 'n' {
                    '\n'
                } else if e == 't' {
                    '\t'
                } else if e == 'r' {
                    '\r'
                } else if e == 'b' {
                    '\u{8}'
                } else {
                    '\u{c}'
                };
                let ghost prev = acc@;
                acc.push(c2);
                proof {
                    assert(acc@ =~= prev + seq![c2]);
                    lemma_strbody_step(s@, i0, cur as int, prev, cur + 2, seq![c2]);
                }
                cur = cur + 2;
            } else {
                return None;
            }
        } else {
            let ghost prev = acc@;
            acc.push(c);
            proof {
                assert(acc@ =~= prev + seq![c]);
                lemma_strbody_step(s@, i0, cur as int, prev, cur + 1, seq![c]);
            }
            cur = cur + 1;
        }
    }
}

/// One unfolding step of the string-body parser, phrased for the
/// accumulator loop: if the body at `cur` yields `head` and then continues
/// at `next`, the overall result grows by `head`.
proof fn lemma_strbody_step(
    s: Seq<char>,
    i0: int,
    cur: int,
    prev: Seq<char>,
    next: int,
    head: Seq<char>,
)
    requires
        0 <= i0 <= cur < s.len(),
        cur < next,
        strbody_rel(s, i0, prev, cur),
        strbody_step(s, cur, head, next),
    ensures
        strbody_rel(s, i0, prev + head, next),
{
    match sp_strbody(s, next) {
        Some((t2, p2)) => {
            assert(prev + (head + t2) =~= (prev + head) + t2);
        },
        None => {},
    }
}

/// What an executable number parse result must satisfy.
pub open spec fn number_post(s: Seq<char>, i: int, r: Option<(Vec<char>, usize)>) -> bool {
    match r {
        Some(tp) => sp_number(s, i) == Some((tp.0@, tp.1 as int)) && i <= tp.1 <= s.len(),
        None => sp_number(s, i) is None,
    }
}

/// Copy the characters of `s` between `a` and `b` into a fresh vector.
pub fn copy_range(s: &Vec<char>, a: usize, b: usize) -> (r: Vec<char>)
    requires
        a <= b <= s@.len(),
    ensures
        r@ == s@.subrange(a as int, b as int),
{
    let mut r: Vec<char> = Vec::new();
    proof {
        assert(r@ =~= s@.subrange(a as int, a as int));
    }
    let mut k = a;
    while k < b
        invariant
            a <= k <= b <= s@.len(),
            r@ == s@.subrange(a as int, k as int),
        decreases b - k,
    {
        let ghost prev = r@;
        r.push(s[k]);
        proof {
            assert(r@ =~= s@.subrange(a as int, (k + 1) as int));
        }
        k += 1;
    }
    r
}

/// Parse a number token at `i`.
fn pv_number(s: &Vec<char>, i: usize) -> (r: Option<(Vec<char>, usize)>)
    requires
        i <= s@.len(),
    ensures
        number_post(s@, i as int, r),
{
    let j = if i < s.len() && s[i] == '-' {
        i + 1
    } else {
        i
    };
    let d = pv_digits(s, j);
    if d == j {
        return None;
    }
    let f = if d < s.len() && s[d] == '.' {
        pv_digits(s, d + 1)
    } else {
        d
    };
    if d < s.len() && s[d] == '.' && f == d + 1 {
        return None;
    }
    let mut g = f;
    if f < s.len() && (s[f] == 'e' || s[f] == 'E') {
        let h = if f + 1 < s.len() && (s[f + 1] == '+' || s[f + 1] == '-') {
            f + 2
        } else {
            f + 1
        };
        let e_end = pv_digits(s, h);
        if e_end != h {
            g = e_end;
        }
    }
    Some((copy_range(s, i, g), g))
}

/// What an executable value parse result must satisfy.
pub open spec fn value_post(s: Seq<char>, i: int, fuel: nat, r: Option<(Json, usize)>) -> bool {
    match r {
        Some(tp) => sp_value(s, i, fuel) == Some((tp.0.dv(), tp.1 as int)) && i <= tp.1 <= s.len(),
        None => sp_value(s, i, fuel) is None,
    }
}

/// Relation used by the accumulator loop of the array parser.
pub open spec fn elements_rel(
    s: Seq<char>,
    i0: int,
    fuel0: nat,
    prev: Seq<JsonV>,
    at: int,
    f: nat,
) -> bool {
    match sp_elements(s, at, f) {
        Some((es, p)) => sp_elements(s, i0, fuel0) == Some((prev + es, p)),
        None => sp_elements(s, i0, fuel0) is None,
    }
}

/// One consumed element of an array.
pub open spec fn elements_step(
    s: Seq<char>,
    cur: int,
    fc: nat,
    vd: JsonV,
    next: int,
    nf: nat,
) -> bool {
    match sp_elements(s, next, nf) {
        Some((es, p)) => sp_elements(s, cur, fc) == Some((seq![vd] + es, p)),
        None => sp_elements(s, cur, fc) is None,
    }
}

proof fn lemma_elements_push(
    s: Seq<char>,
    i0: int,
    fuel0: nat,
    prev: Seq<JsonV>,
    cur: int,
    fc: nat,
    vd: JsonV,
    next: int,
    nf: nat,
)
    requires
        elements_rel(s, i0, fuel0, prev, cur, fc),
        elements_step(s, cur, fc, vd, next, nf),
    ensures
        elements_rel(s, i0, fuel0, prev + seq![vd], next, nf),
{
    match sp_elements(s, next, nf) {
        Some((es, p)) => {
            assert(prev + (seq![vd] + es) =~= (prev + seq![vd]) + es);
        },
        None => {},
    }
}

/// Relation used by the accumulator loop of the object parser.
pub open spec fn members_rel(
    s: Seq<char>,
    i0: int,
    fuel0: nat,
    prev: Seq<(Seq<char>, JsonV)>,
    at: int,
    f: nat,
) -> bool {
    match sp_members(s, at, f) {
        Some((ms, p)) => sp_members(s, i0, fuel0) == Some((prev + ms, p)),
        None => sp_members(s, i0, fuel0) is None,
    }
}

/// One consumed member of an object.
pub open spec fn members_step(
    s: Seq<char>,
    cur: int,
    fc: nat,
    m: (Seq<char>, JsonV),
    next: int,
    nf: nat,
) -> bool {
    match sp_members(s, next, nf) {
        Some((ms, p)) => sp_members(s, cur, fc) == Some((seq![m] + ms, p)),
        None => sp_members(s, cur, fc) is None,
    }
}

proof fn lemma_members_push(
    s: Seq<char>,
    i0: int,
    fuel0: nat,
    prev: Seq<(Seq<char>, JsonV)>,
    cur: int,
    fc: nat,
    m: (Seq<char>, JsonV),
    next: int,
    nf: nat,
)
    requires
        members_rel(s, i0, fuel0, prev, cur, fc),
        members_step(s, cur, fc, m, next, nf),
    ensures
        members_rel(s, i0, fuel0, prev + seq![m], next, nf),
{
    match sp_members(s, next, nf) {
        Some((ms, p)) => {
            assert(prev + (seq![m] + ms) =~= (prev + seq![m]) + ms);
        },
        None => {},
    }
}

/// Parse one JSON value at `i` with the given recursion budget.
fn pv_value(s: &Vec<char>, i: usize, fuel: u128) -> (r: Option<(Json, usize)>)
    requires
        i <= s@.len(),
    ensures
        value_post(s@, i as int, fuel as nat, r),
    decreases fuel, 1int,
{
    if fuel == 0 {
        return None;
    }
    let j = pv_ws(s, i);
    if j >= s.len() {
        return None;
    }
    let c = s[j];
    if c == 'n' {
        if s.len() - j >= 4 && s[j + 1] == 'u' && s[j + 2] == 'l' && s[j + 3] == 'l' {
            Some((Json::Null, j + 4))
        } else {
            None
        }
    } else if c == 't' {
        if s.len() - j >= 4 && s[j + 1] == 'r' && s[j + 2] == 'u' && s[j + 3] == 'e' {
            Some((Json::Bool(true), j + 4))
        } else {
            None
        }
    } else if c == 'f' {
        if s.len() - j >= 5 && s[j + 1] == 'a' && s[j + 2] == 'l' && s[j + 3] == 's' && s[j + 4]
            == 'e' {
            Some((Json::Bool(false), j + 5))
        } else {
            None
        }
    } else if c == '"' {
        match pv_strbody(s, j + 1) {
            Some((t, p)) => {
                let st = crate::text::string_from_chars(&t);
                Some((Json::Str(st), p))
            },
            None => None,
        }
    } else if c == '[' {
        let k = pv_ws(s, j + 1);
        if k < s.len() && s[k] == ']' {
            let v: Vec<Json> = Vec::new();
            proof {
                lemma_dv_arr(v);
                assert(dv_seq(v@) =~= Seq::<JsonV>::empty());
            }
            Some((Json::Arr(v), k + 1))
        } else {
            match pv_elements(s, j + 1, fuel - 1) {
                Some((es, p)) => {
                    proof {
                        lemma_dv_arr(es);
                    }
                    Some((Json::Arr(es), p))
                },
                None => None,
            }
        }
    } else if c == '{' {
        let k = pv_ws(s, j + 1);
        if k < s.len() && s[k] == '}' {
            let v: Vec<(String, Json)> = Vec::new();
            proof {
                lemma_dv_obj(v);
                assert(dv_members(v@) =~= Seq::<(Seq<char>, JsonV)>::empty());
            }
            Some((Json::Obj(v), k + 1))
        } else {
            match pv_members(s, j + 1, fuel - 1) {
                Some((ms, p)) => {
                    proof {
                        lemma_dv_obj(ms);
                    }
                    Some((Json::Obj(ms), p))
                },
                None => None,
            }
        }
    } else if c == '-' || digit_char(c) {
        match pv_number(s, j) {
            Some((t, p)) => {
                let st = crate::text::string_from_chars(&t);
                Some((Json::Num(st), p))
            },
            None => None,
        }
    } else {
        None
    }
}

/// What an executable element-list parse result must satisfy.
pub open spec fn elements_post(
    s: Seq<char>,
    i: int,
    fuel: nat,
    r: Option<(Vec<Json>, usize)>,
) -> bool {
    match r {
        Some(tp) => sp_elements(s, i, fuel) == Some((dv_seq(tp.0@), tp.1 as int)) && i < tp.1
            <= s.len(),
        None => sp_elements(s, i, fuel) is None,
    }
}

/// Parse the elements of a non-empty array, starting just after `[`.
fn pv_elements(s: &Vec<char>, i: usize, fuel: u128) -> (r: Option<(Vec<Json>, usize)>)
    requires
        i <= s@.len(),
    ensures
        elements_post(s@, i as int, fuel as nat, r),
    decreases fuel, 0int,
{
    let ghost i0 = i as int;
    let ghost fuel0 = fuel as nat;
    let mut cur = i;
    let mut fc = fuel;
    let mut acc: Vec<Json> = Vec::new();
    loop
        invariant
            i <= cur <= s@.len(),
            fc <= fuel,
            i0 == i as int,
            fuel0 == fuel as nat,
            elements_rel(s@, i0, fuel0, dv_seq(acc@), cur as int, fc as nat),
        decreases fc,
    {
        if fc == 0 {
            return None;
        }
        match pv_value(s, cur, fc - 1) {
            None => {
                return None;
            },
            Some((v, p)) => {
                let q = pv_ws(s, p);
                let ghost vd = v.dv();
                let ghost prev = dv_seq(acc@);
                if q < s.len() && s[q] == ',' {
                    acc.push(v);
                    proof {
                        assert(dv_seq(acc@) =~= prev + seq![vd]);
                        lemma_elements_push(
                            s@,
                            i0,
                            fuel0,
                            prev,
                            cur as int,
                            fc as nat,
                            vd,
                            (q + 1) as int,
                            (fc - 1) as nat,
                        );
                    }
                    cur = q + 1;
                    fc = fc - 1;
                } else if q < s.len() && s[q] == ']' {
                    acc.push(v);
                    proof {
                        assert(dv_seq(acc@) =~= prev + seq![vd]);
                        assert(sp_elements(s@, cur as int, fc as nat) == Some(
                            (seq![vd], (q + 1) as int),
                        ));
                        assert(prev + seq![vd] =~= dv_seq(acc@));
                    }
                    return Some((acc, q + 1));
                } else {
                    return None;
                }
            },
        }
    }
}

/// What an executable member-list parse result must satisfy.
pub open spec fn members_post(
    s: Seq<char>,
    i: int,
    fuel: nat,
    r: Option<(Vec<(String, Json)>, usize)>,
) -> bool {
    match r {
        Some(tp) => sp_members(s, i, fuel) == Some((dv_members(tp.0@), tp.1 as int)) && i < tp.1
            <= s.len(),
        None => sp_members(s, i, fuel) is None,
    }
}

/// Parse the members of a non-empty object, starting just after `{`.
fn pv_members(s: &Vec<char>, i: usize, fuel: u128) -> (r: Option<(Vec<(String, Json)>, usize)>)
    requires
        i <= s@.len(),
    ensures
        members_post(s@, i as int, fuel as nat, r),
    decreases fuel, 0int,
{
    let ghost i0 = i as int;
    let ghost fuel0 = fuel as nat;
    let mut cur = i;
    let mut fc = fuel;
    let mut acc: Vec<(String, Json)> = Vec::new();
    loop
        invariant
            i <= cur <= s@.len(),
            fc <= fuel,
            i0 == i as int,
            fuel0 == fuel as nat,
            members_rel(s@, i0, fuel0, dv_members(acc@), cur as int, fc as nat),
        decreases fc,
    {
        if fc == 0 {
            return None;
        }
        let j = pv_ws(s, cur);
        if !(j < s.len() && s[j] == '"') {
            return None;
        }
        match pv_strbody(s, j + 1) {
            None => {
                return None;
            },
            Some((kt, p)) => {
                let q = pv_ws(s, p);
                if !(q < s.len() && s[q] == ':') {
                    return None;
                }
                match pv_value(s, q + 1, fc - 1) {
                    None => {
                        return None;
                    },
                    Some((v, p2)) => {
                        let q2 = pv_ws(s, p2);
                        let key = crate::text::string_from_chars(&kt);
                        let ghost m = (key@, v.dv());
                        let ghost prev = dv_members(acc@);
                        if q2 < s.len() && s[q2] == ',' {
                            acc.push((key, v));
                            proof {
                                assert(dv_members(acc@) =~= prev + seq![m]);
                                lemma_members_push(
                                    s@,
                                    i0,
                                    fuel0,
                                    prev,
                                    cur as int,
                                    fc as nat,
                                    m,
                                    (q2 + 1) as int,
                                    (fc - 1) as nat,
                                );
                            }
                            cur = q2 + 1;
                            fc = fc - 1;
                        } else if q2 < s.len() && s[q2] == '}' {
                            acc.push((key, v));
                            proof {
                                assert(dv_members(acc@) =~= prev + seq![m]);
                                assert(sp_members(s@, cur as int, fc as nat) == Some(
                                    (seq![m], (q2 + 1) as int),
                                ));
                            }
                            return Some((acc, q2 + 1));
                        } else {
                            return None;
                        }
                    },
                }
            },
        }
    }
}

/// What a whole-document parse result must satisfy.
pub open spec fn parse_post(s: Seq<char>, r: Option<Json>) -> bool {
    match r {
        Some(j) => sp_json(s) == Some(j.dv()),
        None => sp_json(s) is None,
    }
}

/// Parse a complete JSON document.
pub fn parse_json(s: &str) -> (r: Option<Json>)
    ensures
        parse_post(s@, r),
{
    let v = crate::text::chars_of(s);
    let fuel: u128 = (v.len() as u128) + 1;
    match pv_value(&v, 0, fuel) {
        None => None,
        Some((j, p)) => {
            let q = pv_ws(&v, p);
            if q == v.len() {
                Some(j)
            } else {
                None
            }
        },
    }
}


// ---------------------------------------------------------------------------
// Writer
// ---------------------------------------------------------------------------

/// The hex digit character for a value below 16.
pub open spec fn hex_digit(n: int) -> char {
    if n == 0 { '0' } else if n == 1 { '1' } else if n == 2 { '2' } else if n == 3 { '3' }
    else if n == 4 { '4' } else if n == 5 { '5' } else if n == 6 { '6' } else if n == 7 { '7' }
    else if n == 8 { '8' } else if n == 9 { '9' } else if n == 10 { 'a' } else if n == 11 { 'b' }
    else if n == 12 { 'c' } else if n == 13 { 'd' } else if n == 14 { 'e' } else { 'f' }
}

/// How one character is written inside a string literal.
pub open spec fn esc_char(c: char) -> Seq<char> {
    if c == '"' {
        seq!['\\', '"']
    } else if c == '\\' {
        seq!['\\', '\\']
    } else if c == '\n' {
        seq!['\\', 'n']
    } else if c == '\t' {
        seq!['\\', 't']
    } else if c == '\r' {
        seq!['\\', 'r']
    } else if (c as u32) < 0x20 {
        seq!['\\', 'u', '0', '0', hex_digit(c as u32 as int / 16), hex_digit(c as u32 as int % 16)]
    } else {
        seq![c]
    }
}

/// The escaped form of a whole string body.
pub open spec fn esc(s: Seq<char>) -> Seq<char>
    decreases s.len(),
{
    if s.len() == 0 {
        Seq::<char>::empty()
    } else {
        esc_char(s[0]) + esc(s.drop_first())
    }
}

/// The compact text of a value.
pub open spec fn wr_value(j: JsonV) -> Seq<char>
    decreases j, 2int,
{
    match j {
        JsonV::Null => seq!['n', 'u', 'l', 'l'],
        JsonV::Bool(b) => if b {
            seq!['t', 'r', 'u', 'e']
        } else {
            seq!['f', 'a', 'l', 's', 'e']
        },
        JsonV::Num(t) => t,
        JsonV::Str(t) => seq!['"'] + esc(t) + seq!['"'],
        JsonV::Arr(es) => seq!['['] + wr_elements(es) + seq![']'],
        JsonV::Obj(ms) => seq!['{'] + wr_members(ms) + seq!['}'],
    }
}

/// The comma-separated texts of array elements.
pub open spec fn wr_elements(es: Seq<JsonV>) -> Seq<char>
    decreases es, 1int,
{
    if es.len() == 0 {
        Seq::<char>::empty()
    } else if es.len() == 1 {
        wr_value(es[0])
    } else {
        wr_value(es[0]) + seq![','] + wr_elements(es.drop_first())
    }
}

/// The text of one object member.
pub open spec fn wr_member(m: (Seq<char>, JsonV)) -> Seq<char>
    decreases m, 2int,
{
    seq!['"'] + esc(m.0) + seq!['"', ':'] + wr_value(m.1)
}

/// The comma-separated texts of object members.
pub open spec fn wr_members(ms: Seq<(Seq<char>, JsonV)>) -> Seq<char>
    decreases ms, 1int,
{
    if ms.len() == 0 {
        Seq::<char>::empty()
    } else if ms.len() == 1 {
        wr_member(ms[0])
    } else {
        wr_member(ms[0]) + seq![','] + wr_members(ms.drop_first())
    }
}


proof fn lemma_esc_push(a: Seq<char>, c: char)
    ensures
        esc(a.push(c)) == esc(a) + esc_char(c),
    decreases a.len(),
{
    if a.len() == 0 {
        assert(esc(Seq::<char>::empty()) == Seq::<char>::empty());
        assert(a =~= Seq::<char>::empty());
        assert(a.push(c)[0] == c);
        assert(a.push(c).drop_first() =~= Seq::<char>::empty());
        assert(esc(a.push(c)) == esc_char(c) + esc(Seq::<char>::empty()));
        assert(esc_char(c) + Seq::<char>::empty() =~= esc_char(c));
        assert(esc(a) + esc_char(c) =~= esc_char(c));
    } else {
        lemma_esc_push(a.drop_first(), c);
        assert(a.push(c).drop_first() =~= a.drop_first().push(c));
        assert(esc(a.push(c)) == esc_char(a[0]) + esc(a.drop_first().push(c)));
        assert(esc_char(a[0]) + (esc(a.drop_first()) + esc_char(c)) =~= (esc_char(a[0]) + esc(
            a.drop_first(),
        )) + esc_char(c));
    }
}

proof fn lemma_wr_elements_push(es: Seq<JsonV>, x: JsonV)
    requires
        es.len() >= 1,
    ensures
        wr_elements(es.push(x)) == wr_elements(es) + seq![','] + wr_value(x),
    decreases es.len(),
{
    if es.len() == 1 {
        assert(es.push(x).drop_first() =~= seq![x]);
        assert(wr_elements(seq![x]) == wr_value(x));
        assert(wr_elements(es.push(x)) == wr_value(es[0]) + seq![','] + wr_elements(seq![x]));
    } else {
        lemma_wr_elements_push(es.drop_first(), x);
        assert(es.push(x).drop_first() =~= es.drop_first().push(x));
        assert(wr_elements(es.push(x)) == wr_value(es[0]) + seq![','] + wr_elements(
            es.drop_first().push(x),
        ));
        assert(wr_value(es[0]) + seq![','] + (wr_elements(es.drop_first()) + seq![','] + wr_value(
            x,
        )) =~= (wr_value(es[0]) + seq![','] + wr_elements(es.drop_first())) + seq![','] + wr_value(
            x,
        ));
    }
}

proof fn lemma_wr_members_push(ms: Seq<(Seq<char>, JsonV)>, x: (Seq<char>, JsonV))
    requires
        ms.len() >= 1,
    ensures
        wr_members(ms.push(x)) == wr_members(ms) + seq![','] + wr_member(x),
    decreases ms.len(),
{
    if ms.len() == 1 {
        assert(ms.push(x).drop_first() =~= seq![x]);
        assert(wr_members(seq![x]) == wr_member(x));
        assert(wr_members(ms.push(x)) == wr_member(ms[0]) + seq![','] + wr_members(seq![x]));
    } else {
        lemma_wr_members_push(ms.drop_first(), x);
        assert(ms.push(x).drop_first() =~= ms.drop_first().push(x));
        assert(wr_members(ms.push(x)) == wr_member(ms[0]) + seq![','] + wr_members(
            ms.drop_first().push(x),
        ));
        assert(wr_member(ms[0]) + seq![','] + (wr_members(ms.drop_first()) + seq![','] + wr_member(
            x,
        )) =~= (wr_member(ms[0]) + seq![','] + wr_members(ms.drop_first())) + seq![','] + wr_member(
            x,
        ));
    }
}

/// The hex digit character for a value below 16.
pub fn hex_digit_char(n: u32) -> (r: char)
    requires
        n < 16,
    ensures
        r == hex_digit(n as int),
{
    if n == 0 { '0' } else if n == 1 { '1' } else if n == 2 { '2' } else if n == 3 { '3' }
    else if n == 4 { '4' } else if n == 5 { '5' } else if n == 6 { '6' } else if n == 7 { '7' }
    else if n == 8 { '8' } else if n == 9 { '9' } else if n == 10 { 'a' } else if n == 11 { 'b' }
    else if n == 12 { 'c' } else if n == 13 { 'd' } else if n == 14 { 'e' } else { 'f' }
}

/// Append the escaped form of one character.
fn write_escaped_char(c: char, out: &mut Vec<char>)
    ensures
        final(out)@ == old(out)@ + esc_char(c),
{
    let ghost base = old(out)@;
    if c == '"' {
        out.push('\\');
        out.push('"');
        proof {
            assert(out@ =~= base + esc_char(c));
        }
    } else if c == '\\' {
        out.push('\\');
        out.push('\\');
        proof {
            assert(out@ =~= base + esc_char(c));
        }
    } else if c == '\n' {
        out.push('\\');
        out.push('n');
        proof {
            assert(out@ =~= base + esc_char(c));
        }
    } else if c == '\t' {
        out.push('\\');
        out.push('t');
        proof {
            assert(out@ =~= base + esc_char(c));
        }
    } else if c == '\r' {
        out.push('\\');
        out.push('r');
        proof {
            assert(out@ =~= base + esc_char(c));
        }
    } else if (c as u32) < 0x20 {
        let n = c as u32;
        out.push('\\');
        out.push('u');
        out.push('0');
        out.push('0');
        out.push(hex_digit_char(n / 16));
        out.push(hex_digit_char(n % 16));
        proof {
            assert(out@ =~= base + esc_char(c));
        }
    } else {
        out.push(c);
        proof {
            assert(out@ =~= base + esc_char(c));
        }
    }
}

/// Append the escaped form of a string body.
fn write_string_body(t: &Vec<char>, out: &mut Vec<char>)
    ensures
        final(out)@ == old(out)@ + esc(t@),
{
    let ghost base = old(out)@;
    proof {
        assert(t@.subrange(0, 0) =~= Seq::<char>::empty());
        assert(base + esc(t@.subrange(0, 0)) =~= base);
    }
    let mut k: usize = 0;
    while k < t.len()
        invariant
            k <= t@.len(),
            out@ == base + esc(t@.subrange(0, k as int)),
        decreases t@.len() - k,
    {
        let ghost pre = t@.subrange(0, k as int);
        write_escaped_char(t[k], out);
        proof {
            lemma_esc_push(pre, t@[k as int]);
            assert(t@.subrange(0, (k + 1) as int) =~= pre.push(t@[k as int]));
            assert(base + (esc(pre) + esc_char(t@[k as int])) =~= (base + esc(pre)) + esc_char(
                t@[k as int],
            ));
        }
        k += 1;
    }
    proof {
        assert(t@.subrange(0, t@.len() as int) =~= t@);
    }
}

/// Append the characters of a vector.
fn write_raw(t: &Vec<char>, out: &mut Vec<char>)
    ensures
        final(out)@ == old(out)@ + t@,
{
    let ghost base = old(out)@;
    let mut k: usize = 0;
    proof {
        assert(base + t@.subrange(0, 0) =~= base);
    }
    while k < t.len()
        invariant
            k <= t@.len(),
            out@ == base + t@.subrange(0, k as int),
        decreases t@.len() - k,
    {
        out.push(t[k]);
        proof {
            assert(base + t@.subrange(0, (k + 1) as int) =~= (base + t@.subrange(0, k as int)).push(
                t@[k as int],
            ));
        }
        k += 1;
    }
    proof {
        assert(t@.subrange(0, t@.len() as int) =~= t@);
    }
}

/// Append the compact text of a value.
#[verifier::loop_isolation(false)]
#[verifier::rlimit(60)]
fn write_value(j: &Json, out: &mut Vec<char>)
    ensures
        final(out)@ == old(out)@ + wr_value(j.dv()),
    decreases j,
{
    broadcast use lemma_dv_arr, lemma_dv_obj;

    let ghost base = old(out)@;
    match j {
        Json::Null => {
            out.push('n');
            out.push('u');
            out.push('l');
            out.push('l');
            proof {
                assert(out@ =~= base + wr_value(JsonV::Null));
            }
        },
        Json::Bool(b) => {
            if *b {
                out.push('t');
                out.push('r');
                out.push('u');
                out.push('e');
            } else {
                out.push('f');
                out.push('a');
                out.push('l');
                out.push('s');
                out.push('e');
            }
            proof {
                assert(out@ =~= base + wr_value(JsonV::Bool(*b)));
            }
        },
        Json::Num(t) => {
            let tv = crate::text::chars_of(t.as_str());
            write_raw(&tv, out);
        },
        Json::Str(t) => {
            out.push('"');
            let tv = crate::text::chars_of(t.as_str());
            write_string_body(&tv, out);
            out.push('"');
            proof {
                assert(out@ =~= base + (seq!['"'] + esc(t@) + seq!['"']));
            }
        },
        Json::Arr(v) => {
            out.push('[');
            let ghost es = dv_seq(v@);
            let mut k: usize = 0;
            while k < v.len()
                invariant
                    k <= v@.len(),
                    es == dv_seq(v@),
                    out@ == base + seq!['['] + wr_elements(es.subrange(0, k as int)),
                decreases v@.len() - k,
            {
                let ghost pre = es.subrange(0, k as int);
                if k > 0 {
                    out.push(',');
                }
                proof {
                    assert((*j)->Arr_0 == *v);
                    assert(decreases_to!(*j => (*j)->Arr_0));
                    assert(decreases_to!(*v => v@));
                    assert(decreases_to!(v@ => v@[k as int]));
                }
                write_value(&v[k], out);
                proof {
                    assert(es.subrange(0, (k + 1) as int) =~= pre.push(es[k as int]));
                    assert(v@[k as int].dv() == es[k as int]);
                    if k == 0 {
                        assert(pre.len() == 0);
                        assert(wr_elements(seq![es[0]]) == wr_value(es[0]));
                        assert(es.subrange(0, 1) =~= seq![es[0]]);
                        assert(out@ =~= base + seq!['['] + wr_elements(es.subrange(0, 1)));
                    } else {
                        lemma_wr_elements_push(pre, es[k as int]);
                        assert(out@ =~= base + seq!['['] + (wr_elements(pre) + seq![','] + wr_value(
                            es[k as int],
                        )));
                        assert(out@ =~= base + seq!['['] + wr_elements(pre.push(es[k as int])));
                    }
                }
                k += 1;
            }
            out.push(']');
            proof {
                assert(es.subrange(0, es.len() as int) =~= es);
                assert(out@ =~= base + (seq!['['] + wr_elements(es) + seq![']']));
            }
        },
        Json::Obj(v) => {
            out.push('{');
            let ghost ms = dv_members(v@);
            let mut k: usize = 0;
            while k < v.len()
                invariant
                    k <= v@.len(),
                    ms == dv_members(v@),
                    out@ == base + seq!['{'] + wr_members(ms.subrange(0, k as int)),
                decreases v@.len() - k,
            {
                let ghost pre = ms.subrange(0, k as int);
                if k > 0 {
                    out.push(',');
                }
                out.push('"');
                let kv = crate::text::chars_of(v[k].0.as_str());
                write_string_body(&kv, out);
                out.push('"');
                out.push(':');
                proof {
                    assert((*j)->Obj_0 == *v);
                    assert(decreases_to!(*j => (*j)->Obj_0));
                    assert(decreases_to!(*v => v@));
                    assert(decreases_to!(v@ => v@[k as int]));
                    assert(decreases_to!(v@[k as int] => v@[k as int].1));
                }
                write_value(&v[k].1, out);
                proof {
                    assert(ms.subrange(0, (k + 1) as int) =~= pre.push(ms[k as int]));
                    assert((v@[k as int].0@, v@[k as int].1.dv()) == ms[k as int]);
                    assert(wr_member(ms[k as int]) == seq!['"'] + esc(v@[k as int].0@) + seq![
                        '"',
                        ':',
                    ] + wr_value(v@[k as int].1.dv()));
                    if k == 0 {
                        assert(pre.len() == 0);
                        assert(wr_members(seq![ms[0]]) == wr_member(ms[0]));
                        assert(ms.subrange(0, 1) =~= seq![ms[0]]);
                        assert(out@ =~= base + seq!['{'] + wr_members(ms.subrange(0, 1)));
                    } else {
                        lemma_wr_members_push(pre, ms[k as int]);
                        assert(out@ =~= base + seq!['{'] + (wr_members(pre) + seq![','] + wr_member(
                            ms[k as int],
                        )));
                        assert(out@ =~= base + seq!['{'] + wr_members(pre.push(ms[k as int])));
                    }
                }
                k += 1;
            }
            out.push('}');
            proof {
                assert(ms.subrange(0, ms.len() as int) =~= ms);
                assert(out@ =~= base + (seq!['{'] + wr_members(ms) + seq!['}']));
            }
        },
    }
}

/// The compact text of a value.
pub fn to_text(j: &Json) -> (r: String)
    ensures
        r@ == wr_value(j.dv()),
{
    let mut out: Vec<char> = Vec::new();
    write_value(j, &mut out);
    crate::text::string_from_chars(&out)
}


// ---------------------------------------------------------------------------
// Accessors
// ---------------------------------------------------------------------------

/// First-match lookup among object members.
pub open spec fn jv_lookup(ms: Seq<(Seq<char>, JsonV)>, k: Seq<char>) -> Option<JsonV>
    decreases ms.len(),
{
    if ms.len() == 0 {
        None
    } else if ms[0].0 == k {
        Some(ms[0].1)
    } else {
        jv_lookup(ms.drop_first(), k)
    }
}

/// Lookup of a key in a value: meaningful only on objects.
pub open spec fn jv_get(j: JsonV, k: Seq<char>) -> Option<JsonV> {
    match j {
        JsonV::Obj(ms) => jv_lookup(ms, k),
        _ => None,
    }
}

/// The string content of a value, if it is a string.
pub open spec fn jv_str(j: JsonV) -> Option<Seq<char>> {
    match j {
        JsonV::Str(t) => Some(t),
        _ => None,
    }
}

/// The decimal value of a digit sequence.
pub open spec fn dec_val(s: Seq<char>) -> nat
    decreases s.len(),
{
    if s.len() == 0 {
        0
    } else {
        (dec_val(s.drop_last()) * 10 + (s.last() as u32 - 48)) as nat
    }
}

pub open spec fn all_digits(s: Seq<char>) -> bool {
    forall|i: int| 0 <= i < s.len() ==> is_digit(s[i])
}

/// The unsigned value of a value: a number token of plain digits whose
/// value fits in u64.
pub open spec fn jv_u64(j: JsonV) -> Option<u64> {
    match j {
        JsonV::Num(t) => if t.len() > 0 && all_digits(t) && dec_val(t) <= u64::MAX {
            Some(dec_val(t) as u64)
        } else {
            None
        },
        _ => None,
    }
}

/// What a lookup result must satisfy.
pub open spec fn get_post(j: JsonV, k: Seq<char>, r: Option<&Json>) -> bool {
    match r {
        Some(x) => jv_get(j, k) == Some(x.dv()),
        None => jv_get(j, k) is None,
    }
}

pub proof fn lemma_jv_lookup_step(ms: Seq<(Seq<char>, JsonV)>, k: Seq<char>, n: int)
    requires
        0 <= n < ms.len(),
        forall|i: int| 0 <= i < n ==> ms[i].0 != k,
    ensures
        jv_lookup(ms, k) == jv_lookup(ms.subrange(n, ms.len() as int), k),
    decreases n,
{
    if n > 0 {
        assert(ms[0].0 != k);
        assert(jv_lookup(ms, k) == jv_lookup(ms.drop_first(), k));
        lemma_jv_lookup_step(ms.drop_first(), k, n - 1);
        assert(ms.drop_first().subrange(n - 1, ms.drop_first().len() as int) =~= ms.subrange(
            n,
            ms.len() as int,
        ));
    } else {
        assert(ms.subrange(0, ms.len() as int) =~= ms);
    }
}

impl Json {
    /// Whether this value is an object member map.
    pub fn is_obj(&self) -> (r: bool)
        ensures
            r == (self.dv() is Obj),
    {
        match self {
            Json::Obj(_) => true,
            _ => false,
        }
    }

    /// Look a key up in an object value; `None` on any other value and on
    /// a missing key.
    pub fn get<'a>(&'a self, key: &str) -> (r: Option<&'a Json>)
        ensures
            get_post(self.dv(), key@, r),
    {
        match self {
            Json::Obj(v) => {
                proof {
                    lemma_dv_obj(*v);
                }
                let ghost ms = dv_members(v@);
                let mut n: usize = 0;
                while n < v.len()
                    invariant
                        n <= v@.len(),
                        ms == dv_members(v@),
                        self.dv() == JsonV::Obj(ms),
                        forall|i: int| 0 <= i < n ==> ms[i].0 != key@,
                    decreases v@.len() - n,
                {
                    if crate::text::str_eq(v[n].0.as_str(), key) {
                        proof {
                            lemma_jv_lookup_step(ms, key@, n as int);
                            assert(ms.subrange(n as int, ms.len() as int)[0] == ms[n as int]);
                            assert(jv_lookup(ms.subrange(n as int, ms.len() as int), key@) == Some(
                                ms[n as int].1,
                            ));
                        }
                        return Some(&v[n].1);
                    }
                    n += 1;
                }
                proof {
                    if ms.len() > 0 {
                        lemma_jv_lookup_step(ms, key@, ms.len() as int - 1);
                        let tail = ms.subrange(ms.len() as int - 1, ms.len() as int);
                        assert(tail[0] == ms[ms.len() - 1]);
                        assert(tail.drop_first() =~= Seq::<(Seq<char>, JsonV)>::empty());
                        assert(jv_lookup(tail, key@) == jv_lookup(tail.drop_first(), key@));
                    }
                }
                None
            },
            _ => None,
        }
    }

    /// The string content, if this is a string value.
    pub fn as_str<'a>(&'a self) -> (r: Option<&'a String>)
        ensures
            (r matches Some(t) ==> jv_str(self.dv()) == Some(t@)),
            (r is None ==> jv_str(self.dv()) is None),
    {
        match self {
            Json::Str(t) => Some(t),
            _ => None,
        }
    }

    /// The unsigned integer value, if this is a plain-digit number token
    /// whose value fits.
    pub fn as_u64(&self) -> (r: Option<u64>)
        ensures
            r == jv_u64(self.dv()),
    {
        match self {
            Json::Num(t) => {
                let tv = crate::text::chars_of(t.as_str());
                parse_u64_digits(&tv)
            },
            _ => None,
        }
    }
}

proof fn lemma_dec_val_grows(s: Seq<char>, k: int)
    requires
        0 <= k <= s.len(),
        all_digits(s),
    ensures
        dec_val(s.subrange(0, k)) <= dec_val(s),
    decreases s.len() - k,
{
    if k < s.len() {
        lemma_dec_val_grows(s, k + 1);
        let a = s.subrange(0, k);
        let b = s.subrange(0, k + 1);
        assert(b.drop_last() =~= a);
        assert(dec_val(b) == dec_val(a) * 10 + (b.last() as u32 - 48));
        assert(dec_val(a) <= dec_val(a) * 10) by (nonlinear_arith);
    } else {
        assert(s.subrange(0, k) =~= s);
    }
}

/// Parse a plain run of decimal digits as a u64.
fn parse_u64_digits(t: &Vec<char>) -> (r: Option<u64>)
    ensures
        (r matches Some(n) ==> t@.len() > 0 && all_digits(t@) && dec_val(t@) == n),
        (r is None ==> !(t@.len() > 0 && all_digits(t@) && dec_val(t@) <= u64::MAX)),
{
    if t.len() == 0 {
        return None;
    }
    let mut acc: u64 = 0;
    let mut k: usize = 0;
    while k < t.len()
        invariant
            k <= t@.len(),
            t@.len() > 0,
            forall|i: int| 0 <= i < k ==> is_digit(t@[i]),
            acc == dec_val(t@.subrange(0, k as int)),
        decreases t@.len() - k,
    {
        let c = t[k];
        if !digit_char(c) {
            return None;
        }
        let d: u64 = (c as u32 - 48) as u64;
        if acc > (u64::MAX - d) / 10 {
            proof {
                let b = t@.subrange(0, (k + 1) as int);
                assert(b.drop_last() =~= t@.subrange(0, k as int));
                assert(dec_val(b) == acc * 10 + d);
                assert(acc * 10 + d > u64::MAX) by (nonlinear_arith)
                    requires
                        acc > (u64::MAX - d) / 10,
                        d <= 9,
                ;
                if all_digits(t@) {
                    lemma_dec_val_grows(t@, (k + 1) as int);
                }
            }
            return None;
        }
        proof {
            assert(acc * 10 + d <= u64::MAX) by (nonlinear_arith)
                requires
                    acc <= (u64::MAX - d) / 10,
                    d <= 9,
            ;
            let b = t@.subrange(0, (k + 1) as int);
            assert(b.drop_last() =~= t@.subrange(0, k as int));
            assert(dec_val(b) == acc * 10 + d);
        }
        acc = acc * 10 + d;
        k += 1;
    }
    proof {
        assert(t@.subrange(0, t@.len() as int) =~= t@);
    }
    Some(acc)
}


impl Json {
    /// A deep copy with the same ghost value.
    #[verifier::loop_isolation(false)]
    pub fn clone_json(j: &Json) -> (r: Json)
        ensures
            r.dv() == j.dv(),
        decreases j,
    {
        match j {
            Json::Null => Json::Null,
            Json::Bool(b) => Json::Bool(*b),
            Json::Num(t) => Json::Num(t.clone()),
            Json::Str(t) => Json::Str(t.clone()),
            Json::Arr(v) => {
                let mut out: Vec<Json> = Vec::new();
                let mut k: usize = 0;
                while k < v.len()
                    invariant
                        k <= v@.len(),
                        out@.len() == k,
                        forall|i: int| 0 <= i < k ==> out@[i].dv() == v@[i].dv(),
                    decreases v@.len() - k,
                {
                    proof {
                        assert((*j)->Arr_0 == *v);
                        assert(decreases_to!(*j => (*j)->Arr_0));
                        assert(decreases_to!(*v => v@));
                        assert(decreases_to!(v@ => v@[k as int]));
                    }
                    out.push(Json::clone_json(&v[k]));
                    k += 1;
                }
                proof {
                    lemma_dv_arr(out);
                    lemma_dv_arr(*v);
                    assert(dv_seq(out@) =~= dv_seq(v@));
                }
                Json::Arr(out)
            },
            Json::Obj(v) => {
                let mut out: Vec<(String, Json)> = Vec::new();
                let mut k: usize = 0;
                while k < v.len()
                    invariant
                        k <= v@.len(),
                        out@.len() == k,
                        forall|i: int|
                            0 <= i < k ==> out@[i].0@ == v@[i].0@ && out@[i].1.dv()
                                == v@[i].1.dv(),
                    decreases v@.len() - k,
                {
                    proof {
                        assert((*j)->Obj_0 == *v);
                        assert(decreases_to!(*j => (*j)->Obj_0));
                        assert(decreases_to!(*v => v@));
                        assert(decreases_to!(v@ => v@[k as int]));
                        assert(decreases_to!(v@[k as int] => v@[k as int].1));
                    }
                    let key = v[k].0.clone();
                    out.push((key, Json::clone_json(&v[k].1)));
                    k += 1;
                }
                proof {
                    lemma_dv_obj(out);
                    lemma_dv_obj(*v);
                    assert(dv_members(out@) =~= dv_members(v@));
                }
                Json::Obj(out)
            },
        }
    }
}


// ---------------------------------------------------------------------------
// Round trip: parsing the writer's output
// ---------------------------------------------------------------------------

/// Values the round-trip theorem covers: everything but raw number
/// tokens, whose source text the writer copies verbatim.
pub open spec fn rt_ok(j: JsonV) -> bool
    decreases j,
{
    match j {
        JsonV::Null => true,
        JsonV::Bool(_) => true,
        JsonV::Num(_) => false,
        JsonV::Str(_) => true,
        JsonV::Arr(es) => forall|i: int| 0 <= i < es.len() ==> rt_ok(#[trigger] es[i]),
        JsonV::Obj(ms) => forall|i: int| 0 <= i < ms.len() ==> rt_ok(#[trigger] ms[i].1),
    }
}

/// The fuel a value needs to parse.
pub open spec fn fuel_val(j: JsonV) -> nat
    decreases j, 2int,
{
    match j {
        JsonV::Arr(es) => if es.len() == 0 {
            1
        } else {
            (1 + fuel_elements(es)) as nat
        },
        JsonV::Obj(ms) => if ms.len() == 0 {
            1
        } else {
            (1 + fuel_members(ms)) as nat
        },
        _ => 1,
    }
}

/// The fuel a non-empty element list needs.
pub open spec fn fuel_elements(es: Seq<JsonV>) -> nat
    decreases es, 1int,
{
    if es.len() == 0 {
        1
    } else if es.len() == 1 {
        (1 + fuel_val(es[0])) as nat
    } else {
        let a = fuel_val(es[0]);
        let b = fuel_elements(es.drop_first());
        if a >= b {
            (1 + a) as nat
        } else {
            (1 + b) as nat
        }
    }
}

/// The fuel a non-empty member list needs.
pub open spec fn fuel_members(ms: Seq<(Seq<char>, JsonV)>) -> nat
    decreases ms, 1int,
{
    if ms.len() == 0 {
        1
    } else if ms.len() == 1 {
        (1 + fuel_val(ms[0].1)) as nat
    } else {
        let a = fuel_val(ms[0].1);
        let b = fuel_members(ms.drop_first());
        if a >= b {
            (1 + a) as nat
        } else {
            (1 + b) as nat
        }
    }
}

/// The writer's output is never empty and never begins with whitespace,
/// a separator, or a closing bracket.
proof fn lemma_wr_head(j: JsonV)
    requires
        rt_ok(j),
    ensures
        wr_value(j).len() > 0,
        !is_ws(wr_value(j)[0]),
        wr_value(j)[0] != ']',
        wr_value(j)[0] != '}',
        wr_value(j)[0] != ',',
        wr_value(j)[0] != ':',
{
    match j {
        JsonV::Null => {
            assert(wr_value(j)[0] == 'n');
        },
        JsonV::Bool(b) => {
            if b {
                assert(wr_value(j)[0] == 't');
            } else {
                assert(wr_value(j)[0] == 'f');
            }
        },
        JsonV::Str(t) => {
            assert(wr_value(j)[0] == '"');
        },
        JsonV::Arr(es) => {
            assert(wr_value(j)[0] == '[');
        },
        JsonV::Obj(ms) => {
            assert(wr_value(j)[0] == '{');
        },
        JsonV::Num(_) => {},
    }
}

/// A value needs no more fuel than its text is long.
proof fn lemma_fuel_bound(j: JsonV)
    requires
        rt_ok(j),
    ensures
        fuel_val(j) <= wr_value(j).len(),
    decreases j, 2int,
{
    match j {
        JsonV::Arr(es) => {
            if es.len() > 0 {
                lemma_fuel_elements_bound(es);
            }
        },
        JsonV::Obj(ms) => {
            if ms.len() > 0 {
                lemma_fuel_members_bound(ms);
            }
        },
        JsonV::Str(t) => {
            assert(wr_value(j).len() >= 2);
        },
        _ => {},
    }
}

proof fn lemma_fuel_elements_bound(es: Seq<JsonV>)
    requires
        es.len() >= 1,
        forall|i: int| 0 <= i < es.len() ==> rt_ok(#[trigger] es[i]),
    ensures
        fuel_elements(es) <= 1 + wr_elements(es).len(),
    decreases es, 1int,
{
    lemma_fuel_bound(es[0]);
    if es.len() > 1 {
        assert(forall|i: int|
            0 <= i < es.drop_first().len() ==> rt_ok(#[trigger] es.drop_first()[i]));
        lemma_fuel_elements_bound(es.drop_first());
        lemma_wr_head(es[0]);
    }
}

proof fn lemma_fuel_members_bound(ms: Seq<(Seq<char>, JsonV)>)
    requires
        ms.len() >= 1,
        forall|i: int| 0 <= i < ms.len() ==> rt_ok(#[trigger] ms[i].1),
    ensures
        fuel_members(ms) <= 1 + wr_members(ms).len(),
    decreases ms, 1int,
{
    lemma_fuel_bound(ms[0].1);
    assert(wr_member(ms[0]).len() >= 3 + wr_value(ms[0].1).len());
    if ms.len() > 1 {
        assert(forall|i: int|
            0 <= i < ms.drop_first().len() ==> rt_ok(#[trigger] ms.drop_first()[i].1));
        lemma_fuel_members_bound(ms.drop_first());
    }
}


/// The code point of every hex digit character reads back as itself.
proof fn lemma_hex_digit_val(d: int)
    requires
        0 <= d < 16,
    ensures
        is_hex(hex_digit(d)),
        hex_val(hex_digit(d)) == d,
{
}

/// Parsing a string body over the escaped text of `t` (followed by the
/// closing quote) decodes exactly `t`.
proof fn lemma_strbody_esc(s: Seq<char>, i: int, t: Seq<char>)
    requires
        0 <= i,
        i + esc(t).len() + 1 <= s.len(),
        s.subrange(i, i + esc(t).len() as int) == esc(t),
        s[i + esc(t).len() as int] == '"',
    ensures
        sp_strbody(s, i) == Some((t, i + esc(t).len() + 1)),
    decreases t.len(),
{
    if t.len() == 0 {
        assert(esc(t).len() == 0);
        assert(s[i] == '"');
    } else {
        let c = t[0];
        let rest = t.drop_first();
        let ec = esc_char(c);
        assert(esc(t) == ec + esc(rest));
        let d = ec.len() as int;
        // the characters of s at i .. i + d are the escape of c
        assert forall|k: int| 0 <= k < esc(t).len() implies s[i + k] == esc(t)[k] by {
            assert(s.subrange(i, i + esc(t).len() as int)[k] == s[i + k]);
        }
        assert forall|k: int| 0 <= k < d implies s[i + k] == ec[k] by {
            assert(esc(t)[k] == ec[k]);
        }
        // set up the inductive call at i + d
        assert forall|k: int| 0 <= k < esc(rest).len() implies s[i + d + k] == esc(rest)[k] by {
            assert(esc(t)[d + k] == esc(rest)[k]);
        }
        assert(s.subrange(i + d, i + d + esc(rest).len() as int) =~= esc(rest));
        assert(i + esc(t).len() == (i + d) + esc(rest).len());
        lemma_strbody_esc(s, i + d, rest);
        // now walk the parser through the escape of c
        if c == '"' {
            assert(ec =~= seq!['\\', '"']);
            assert(s[i] == '\\' && s[i + 1] == '"');
            assert(sp_strbody(s, i) == Some((seq![c] + rest, i + esc(t).len() + 1)));
            assert(seq![c] + rest =~= t);
        } else if c == '\\' {
            assert(ec =~= seq!['\\', '\\']);
            assert(s[i] == '\\' && s[i + 1] == '\\');
            assert(seq![c] + rest =~= t);
        } else if c == '\n' {
            assert(ec =~= seq!['\\', 'n']);
            assert(s[i] == '\\' && s[i + 1] == 'n');
            assert(seq![c] + rest =~= t);
        } else if c == '\t' {
            assert(ec =~= seq!['\\', 't']);
            assert(s[i] == '\\' && s[i + 1] == 't');
            assert(seq![c] + rest =~= t);
        } else if c == '\r' {
            assert(ec =~= seq!['\\', 'r']);
            assert(s[i] == '\\' && s[i + 1] == 'r');
            assert(seq![c] + rest =~= t);
        } else if (c as u32) < 0x20 {
            let hi = (c as u32) as int / 16;
            let lo = (c as u32) as int % 16;
            assert(ec =~= seq!['\\', 'u', '0', '0', hex_digit(hi), hex_digit(lo)]);
            assert(s[i] == '\\' && s[i + 1] == 'u');
            assert(s[i + 2] == '0' && s[i + 3] == '0');
            assert(s[i + 4] == hex_digit(hi) && s[i + 5] == hex_digit(lo));
            lemma_hex_digit_val(hi);
            lemma_hex_digit_val(lo);
            assert(is_hex('0') && hex_val('0') == 0);
            assert(hex4_ok(s, i + 2));
            assert(hex4(s, i + 2) == hi * 16 + lo);
            assert(hi * 16 + lo == c as u32) by {
                assert((c as u32) as int == 16 * ((c as u32) as int / 16) + (c as u32) as int
                    % 16);
            }
            let n = hex4(s, i + 2);
            assert(n < 0x20);
            lemma_char_of(c, n);
            assert(seq![char_of(n)] + rest =~= t);
        } else {
            // a plain character: not escaped, not a quote, not a backslash
            assert(ec =~= seq![c]);
            assert(esc(t)[0] == c);
            assert(s.subrange(i, i + esc(t).len() as int)[0] == s[i]);
            assert(s[i] == c);
            assert(s[i] != '"' && s[i] != '\\');
            assert(seq![s[i]] + rest =~= t);
        }
    }
}


/// Every character of the writer's output, read through the enclosing
/// text.
proof fn lemma_sub_chars(s: Seq<char>, i: int, w: Seq<char>)
    requires
        0 <= i,
        i + w.len() <= s.len(),
        s.subrange(i, i + w.len() as int) == w,
    ensures
        forall|k: int| 0 <= k < w.len() ==> s[i + k] == w[k],
{
    assert forall|k: int| 0 <= k < w.len() implies s[i + k] == w[k] by {
        assert(s.subrange(i, i + w.len() as int)[k] == s[i + k]);
    }
}

/// Parsing at the start of a written value consumes exactly its text.
proof fn lemma_value_wr(s: Seq<char>, i: int, fuel: nat, j: JsonV)
    requires
        rt_ok(j),
        0 <= i,
        i + wr_value(j).len() <= s.len(),
        s.subrange(i, i + wr_value(j).len() as int) == wr_value(j),
        fuel >= fuel_val(j),
    ensures
        sp_value(s, i, fuel) == Some((j, i + wr_value(j).len())),
    decreases j, 2int,
{
    let w = wr_value(j);
    lemma_sub_chars(s, i, w);
    lemma_wr_head(j);
    assert(s[i + 0] == w[0]);
    assert(s[i] == w[0]);
    assert(sp_ws(s, i) == i);
    match j {
        JsonV::Null => {
            assert(w =~= seq!['n', 'u', 'l', 'l']);
            assert(s[i + 1] == 'u' && s[i + 2] == 'l' && s[i + 3] == 'l');
        },
        JsonV::Bool(b) => {
            if b {
                assert(w =~= seq!['t', 'r', 'u', 'e']);
                assert(s[i + 1] == 'r' && s[i + 2] == 'u' && s[i + 3] == 'e');
            } else {
                assert(w =~= seq!['f', 'a', 'l', 's', 'e']);
                assert(s[i + 1] == 'a' && s[i + 2] == 'l' && s[i + 3] == 's' && s[i + 4] == 'e');
            }
        },
        JsonV::Str(t) => {
            assert(s[i] == '"');
            assert forall|k: int| 0 <= k < esc(t).len() implies s[i + 1 + k] == esc(t)[k] by {
                assert(w[1 + k] == esc(t)[k]);
                assert(s[i + (1 + k)] == w[1 + k]);
            }
            assert(s.subrange(i + 1, i + 1 + esc(t).len() as int) =~= esc(t));
            assert(w[1 + esc(t).len() as int] == '"');
            assert(s[i + (1 + esc(t).len() as int)] == '"');
            lemma_strbody_esc(s, i + 1, t);
            assert(sp_strbody(s, i + 1) == Some((t, i + 1 + esc(t).len() + 1)));
            assert(i + 1 + esc(t).len() + 1 == i + w.len());
        },
        JsonV::Arr(es) => {
            assert(s[i] == '[');
            if es.len() == 0 {
                assert(wr_elements(es).len() == 0);
                assert(w =~= seq!['[', ']']);
                assert(s[i + 1] == ']');
                assert(sp_ws(s, i + 1) == i + 1);
                assert(JsonV::Arr(Seq::<JsonV>::empty()) == j) by {
                    assert(es =~= Seq::<JsonV>::empty());
                }
            } else {
                let wl = wr_elements(es);
                assert(w == seq!['['] + wl + seq![']']);
                assert forall|k: int| 0 <= k < wl.len() implies s[i + 1 + k] == wl[k] by {
                    assert(w[1 + k] == wl[k]);
                    assert(s[i + (1 + k)] == w[1 + k]);
                }
                assert(s.subrange(i + 1, i + 1 + wl.len() as int) =~= wl);
                assert(w[1 + wl.len() as int] == ']');
                assert(s[i + (1 + wl.len() as int)] == ']');
                // the first element's head keeps the parser off the `]` arm
                lemma_wr_head(es[0]);
                if es.len() == 1 {
                    assert(wl == wr_value(es[0]));
                } else {
                    assert(wl == wr_value(es[0]) + seq![','] + wr_elements(es.drop_first()));
                }
                assert(wl[0] == wr_value(es[0])[0]);
                assert(s[i + 1] == wl[0]);
                assert(sp_ws(s, i + 1) == i + 1);
                lemma_elements_wr(s, i + 1, (fuel - 1) as nat, es);
                assert(sp_elements(s, i + 1, (fuel - 1) as nat) == Some(
                    (es, i + 1 + wl.len() + 1),
                ));
                assert(i + 1 + wl.len() + 1 == i + w.len());
            }
        },
        JsonV::Obj(ms) => {
            assert(s[i] == '{');
            if ms.len() == 0 {
                assert(wr_members(ms).len() == 0);
                assert(w =~= seq!['{', '}']);
                assert(s[i + 1] == '}');
                assert(sp_ws(s, i + 1) == i + 1);
                assert(JsonV::Obj(Seq::<(Seq<char>, JsonV)>::empty()) == j) by {
                    assert(ms =~= Seq::<(Seq<char>, JsonV)>::empty());
                }
            } else {
                let wl = wr_members(ms);
                assert(w == seq!['{'] + wl + seq!['}']);
                assert forall|k: int| 0 <= k < wl.len() implies s[i + 1 + k] == wl[k] by {
                    assert(w[1 + k] == wl[k]);
                    assert(s[i + (1 + k)] == w[1 + k]);
                }
                assert(s.subrange(i + 1, i + 1 + wl.len() as int) =~= wl);
                assert(w[1 + wl.len() as int] == '}');
                assert(s[i + (1 + wl.len() as int)] == '}');
                lemma_wr_head(ms[0].1);
                assert(wr_member(ms[0]).len() >= 4);
                if ms.len() == 1 {
                    assert(wl == wr_member(ms[0]));
                } else {
                    assert(wl == wr_member(ms[0]) + seq![','] + wr_members(ms.drop_first()));
                }
                assert(wl[0] == wr_member(ms[0])[0]);
                assert(wr_member(ms[0])[0] == '"');
                assert(s[i + 1] == '"');
                assert(sp_ws(s, i + 1) == i + 1);
                lemma_members_wr(s, i + 1, (fuel - 1) as nat, ms);
                assert(sp_members(s, i + 1, (fuel - 1) as nat) == Some(
                    (ms, i + 1 + wl.len() + 1),
                ));
                assert(i + 1 + wl.len() + 1 == i + w.len());
            }
        },
        JsonV::Num(_) => {},
    }
}

/// Parsing at the start of a written element list (whose text is followed
/// by `]`) consumes the list and the bracket.
proof fn lemma_elements_wr(s: Seq<char>, i: int, fuel: nat, es: Seq<JsonV>)
    requires
        es.len() >= 1,
        forall|k: int| 0 <= k < es.len() ==> rt_ok(#[trigger] es[k]),
        0 <= i,
        i + wr_elements(es).len() + 1 <= s.len(),
        s.subrange(i, i + wr_elements(es).len() as int) == wr_elements(es),
        s[i + wr_elements(es).len() as int] == ']',
        fuel >= fuel_elements(es),
    ensures
        sp_elements(s, i, fuel) == Some((es, i + wr_elements(es).len() + 1)),
    decreases es, 1int,
{
    let wl = wr_elements(es);
    lemma_sub_chars(s, i, wl);
    let e0 = es[0];
    let w0 = wr_value(e0);
    assert forall|k: int| 0 <= k < w0.len() implies s[i + k] == w0[k] by {
        assert(wl[k] == w0[k]);
    }
    assert(s.subrange(i, i + w0.len() as int) =~= w0);
    lemma_value_wr(s, i, (fuel - 1) as nat, e0);
    let p = i + w0.len();
    assert(sp_value(s, i, (fuel - 1) as nat) == Some((e0, p)));
    if es.len() == 1 {
        assert(wl == w0);
        assert(s[p] == ']');
        assert(sp_ws(s, p) == p);
        assert(sp_elements(s, i, fuel) == Some((seq![e0], p + 1)));
        assert(seq![e0] =~= es);
    } else {
        let rest = es.drop_first();
        let wr = wr_elements(rest);
        assert(wl == w0 + seq![','] + wr);
        assert(wl[w0.len() as int] == ',');
        assert(s[p] == ',');
        assert(sp_ws(s, p) == p);
        assert forall|k: int| 0 <= k < wr.len() implies s[p + 1 + k] == wr[k] by {
            assert(wl[w0.len() + 1 + k] == wr[k]);
            assert(s[i + (w0.len() + 1 + k)] == wl[w0.len() + 1 + k]);
        }
        assert(s.subrange(p + 1, p + 1 + wr.len() as int) =~= wr);
        assert(p + 1 + wr.len() == i + wl.len());
        assert(s[p + 1 + wr.len() as int] == ']');
        assert(forall|k: int| 0 <= k < rest.len() ==> rt_ok(#[trigger] rest[k]));
        lemma_elements_wr(s, p + 1, (fuel - 1) as nat, rest);
        assert(sp_elements(s, p + 1, (fuel - 1) as nat) == Some((rest, p + 1 + wr.len() + 1)));
        assert(sp_elements(s, i, fuel) == Some((seq![e0] + rest, i + wl.len() + 1)));
        assert(seq![e0] + rest =~= es);
    }
}

/// Parsing at the start of a written member list (whose text is followed
/// by `}`) consumes the list and the brace.
proof fn lemma_members_wr(s: Seq<char>, i: int, fuel: nat, ms: Seq<(Seq<char>, JsonV)>)
    requires
        ms.len() >= 1,
        forall|k: int| 0 <= k < ms.len() ==> rt_ok(#[trigger] ms[k].1),
        0 <= i,
        i + wr_members(ms).len() + 1 <= s.len(),
        s.subrange(i, i + wr_members(ms).len() as int) == wr_members(ms),
        s[i + wr_members(ms).len() as int] == '}',
        fuel >= fuel_members(ms),
    ensures
        sp_members(s, i, fuel) == Some((ms, i + wr_members(ms).len() + 1)),
    decreases ms, 1int,
{
    let wl = wr_members(ms);
    lemma_sub_chars(s, i, wl);
    let m0 = ms[0];
    let w0 = wr_member(m0);
    assert forall|k: int| 0 <= k < w0.len() implies s[i + k] == w0[k] by {
        assert(wl[k] == w0[k]);
    }
    // the member's text: quote, escaped key, quote, colon, value
    let key = m0.0;
    let v = m0.1;
    assert(w0 == seq!['"'] + esc(key) + seq!['"', ':'] + wr_value(v));
    assert(s[i + 0] == w0[0]);
    assert(w0[0] == '"');
    assert(s[i] == '"');
    assert(sp_ws(s, i) == i);
    assert forall|k: int| 0 <= k < esc(key).len() implies s[i + 1 + k] == esc(key)[k] by {
        assert(w0[1 + k] == esc(key)[k]);
        assert(s[i + (1 + k)] == w0[1 + k]);
    }
    assert(s.subrange(i + 1, i + 1 + esc(key).len() as int) =~= esc(key));
    assert(w0[1 + esc(key).len() as int] == '"');
    assert(s[i + (1 + esc(key).len() as int)] == '"');
    lemma_strbody_esc(s, i + 1, key);
    let p = i + 2 + esc(key).len();
    assert(sp_strbody(s, i + 1) == Some((key, p)));
    assert(w0[(2 + esc(key).len()) as int] == ':');
    assert(s[i + (2 + esc(key).len()) as int] == ':');
    assert(s[p] == ':');
    assert(sp_ws(s, p) == p);
    let wv = wr_value(v);
    assert forall|k: int| 0 <= k < wv.len() implies s[p + 1 + k] == wv[k] by {
        assert(w0[3 + esc(key).len() + k] == wv[k]);
        assert(s[i + (3 + esc(key).len() + k)] == w0[3 + esc(key).len() + k]);
    }
    assert(s.subrange(p + 1, p + 1 + wv.len() as int) =~= wv);
    lemma_value_wr(s, p + 1, (fuel - 1) as nat, v);
    let p2 = p + 1 + wv.len();
    assert(sp_value(s, p + 1, (fuel - 1) as nat) == Some((v, p2)));
    assert(p2 == i + w0.len());
    if ms.len() == 1 {
        assert(wl == w0);
        assert(s[p2] == '}');
        assert(sp_ws(s, p2) == p2);
        assert(sp_members(s, i, fuel) == Some((seq![(key, v)], p2 + 1)));
        assert((key, v) == m0);
        assert(seq![m0] =~= ms);
    } else {
        let rest = ms.drop_first();
        let wr = wr_members(rest);
        assert(wl == w0 + seq![','] + wr);
        assert(wl[w0.len() as int] == ',');
        assert(s[i + w0.len() as int] == ',');
        assert(s[p2] == ',');
        assert(sp_ws(s, p2) == p2);
        assert forall|k: int| 0 <= k < wr.len() implies s[p2 + 1 + k] == wr[k] by {
            assert(wl[w0.len() + 1 + k] == wr[k]);
            assert(s[i + (w0.len() + 1 + k)] == wl[w0.len() + 1 + k]);
        }
        assert(s.subrange(p2 + 1, p2 + 1 + wr.len() as int) =~= wr);
        assert(p2 + 1 + wr.len() == i + wl.len());
        assert(s[p2 + 1 + wr.len() as int] == '}');
        assert(forall|k: int| 0 <= k < rest.len() ==> rt_ok(#[trigger] rest[k].1));
        lemma_members_wr(s, p2 + 1, (fuel - 1) as nat, rest);
        assert(sp_members(s, p2 + 1, (fuel - 1) as nat) == Some((rest, p2 + 1 + wr.len() + 1)));
        assert(sp_members(s, i, fuel) == Some((seq![(key, v)] + rest, i + wl.len() + 1)));
        assert(seq![m0] + rest =~= ms);
    }
}

/// The round-trip theorem: parsing the writer's output gives the value
/// back (for every value the writer builds from scratch, that is, every
/// value without raw number tokens).
pub proof fn lemma_parse_write(j: JsonV)
    requires
        rt_ok(j),
    ensures
        sp_json(wr_value(j)) == Some(j),
{
    let s = wr_value(j);
    lemma_fuel_bound(j);
    lemma_wr_head(j);
    assert(s.subrange(0, s.len() as int) =~= s);
    lemma_value_wr(s, 0, (s.len() + 1) as nat, j);
    assert(sp_value(s, 0, (s.len() + 1) as nat) == Some((j, s.len() as int)));
    assert(sp_ws(s, s.len() as int) == s.len());
}

} // verus!
