//! The JSON wire format used between clients, this proxy, and the queue.
//!
//! Values are modeled by [`Json`] (executable) and [`JsonVal`] (its
//! mathematical view).  [`enc`] specifies the exact text this library emits
//! for a value, and the decoder accepts standard JSON text (with whitespace,
//! escapes, and strict number syntax) for the same values.

use vstd::prelude::*;
use vstd::string::*;

verus! {

broadcast use
    vstd::seq::axiom_seq_index_decreases,
    vstd::seq::axiom_seq_subrange_decreases,
    vstd::std_specs::vec::axiom_vec_index_decreases,
    vstd::std_specs::vec::axiom_vec_decreases_to_view,
    vstd::utf8::char_u32_cast,
    vstd::utf8::char_is_scalar;

/// A JSON document: the payload of a request body or of a queued message.
/// A number is kept as its literal text, so that any standard JSON number
/// can be carried and re-emitted exactly.
#[derive(Debug, PartialEq, Eq)]
pub enum Json {
    Null,
    Bool(bool),
    Num(String),
    Str(String),
    Arr(Vec<Json>),
    Obj(Vec<(String, Json)>),
}

/// The mathematical view of a [`Json`] value: strings become sequences of
/// characters, vectors become sequences.
pub enum JsonVal {
    Null,
    Bool(bool),
    Num(Seq<char>),
    Str(Seq<char>),
    Arr(Seq<JsonVal>),
    Obj(Seq<(Seq<char>, JsonVal)>),
}

pub open spec fn jview(j: Json) -> JsonVal
    decreases j,
{
    match j {
        Json::Null => JsonVal::Null,
        Json::Bool(b) => JsonVal::Bool(b),
        Json::Num(s) => JsonVal::Num(s@),
        Json::Str(s) => JsonVal::Str(s@),
        Json::Arr(es) => JsonVal::Arr(jview_seq(es@)),
        Json::Obj(ms) => JsonVal::Obj(jview_membs(ms@)),
    }
}

pub open spec fn jview_seq(es: Seq<Json>) -> Seq<JsonVal>
    decreases es,
{
    if es.len() == 0 {
        Seq::empty()
    } else {
        seq![jview(es[0])] + jview_seq(es.drop_first())
    }
}

pub open spec fn jview_membs(ms: Seq<(String, Json)>) -> Seq<(Seq<char>, JsonVal)>
    decreases ms,
{
    if ms.len() == 0 {
        Seq::empty()
    } else {
        seq![(ms[0].0@, jview(ms[0].1))] + jview_membs(ms.drop_first())
    }
}

impl View for Json {
    type V = JsonVal;

    open spec fn view(&self) -> JsonVal {
        jview(*self)
    }
}

// ---------------------------------------------------------------------------
// Characters
// ---------------------------------------------------------------------------

/// JSON whitespace.
pub open spec fn ws_char(c: char) -> bool {
    c == ' ' || c == '\n' || c == '\t' || c == '\r'
}

pub open spec fn is_digit(c: char) -> bool {
    '0' as u32 <= c as u32 && c as u32 <= '9' as u32
}

/// The characters that may continue a number literal; a number must be
/// followed by something outside this set (or the end of input).
pub open spec fn num_char(c: char) -> bool {
    is_digit(c) || c == '-' || c == '+' || c == '.' || c == 'e' || c == 'E'
}

/// The hexadecimal digit (lower case) with value `n`.
pub open spec fn hex_digit_char(n: int) -> char {
    if n == 0 { '0' } else if n == 1 { '1' } else if n == 2 { '2' }
    else if n == 3 { '3' } else if n == 4 { '4' } else if n == 5 { '5' }
    else if n == 6 { '6' } else if n == 7 { '7' } else if n == 8 { '8' }
    else if n == 9 { '9' } else if n == 10 { 'a' } else if n == 11 { 'b' }
    else if n == 12 { 'c' } else if n == 13 { 'd' } else if n == 14 { 'e' }
    else { 'f' }
}

/// The value of a hexadecimal digit, or 16 if `c` is none.
pub open spec fn hex_val(c: char) -> int {
    if is_digit(c) {
        c as u32 - '0' as u32
    } else if 'a' as u32 <= c as u32 && c as u32 <= 'f' as u32 {
        c as u32 - 'a' as u32 + 10
    } else if 'A' as u32 <= c as u32 && c as u32 <= 'F' as u32 {
        c as u32 - 'A' as u32 + 10
    } else {
        16
    }
}

// ---------------------------------------------------------------------------
// The encoder, as a specification
// ---------------------------------------------------------------------------

/// How one character is written inside a JSON string: quotes and backslashes
/// get a backslash escape, control characters a `\u00XX` escape, and every
/// other character stands for itself.
pub open spec fn esc_char(c: char) -> Seq<char> {
    if c == '"' {
        seq!['\\', '"']
    } else if c == '\\' {
        seq!['\\', '\\']
    } else if (c as u32) < 0x20 {
        seq!['\\', 'u', '0', '0',
            hex_digit_char(c as u32 as int / 16),
            hex_digit_char(c as u32 as int % 16)]
    } else {
        seq![c]
    }
}

pub open spec fn enc_str_body(s: Seq<char>) -> Seq<char>
    decreases s,
{
    if s.len() == 0 {
        Seq::empty()
    } else {
        esc_char(s[0]) + enc_str_body(s.drop_first())
    }
}

/// A string value: quoted and escaped.
pub open spec fn enc_string(s: Seq<char>) -> Seq<char> {
    seq!['"'] + enc_str_body(s) + seq!['"']
}

/// The exact text this library emits for a JSON value: no whitespace,
/// members and elements in order, strings escaped as in [`esc_char`].
pub open spec fn enc(v: JsonVal) -> Seq<char>
    decreases v, 1int,
{
    match v {
        JsonVal::Null => "null"@,
        JsonVal::Bool(b) => if b { "true"@ } else { "false"@ },
        JsonVal::Num(s) => s,
        JsonVal::Str(s) => enc_string(s),
        JsonVal::Arr(es) => seq!['['] + enc_elems(es) + seq![']'],
        JsonVal::Obj(ms) => seq!['{'] + enc_membs(ms) + seq!['}'],
    }
}

pub open spec fn enc_elems(es: Seq<JsonVal>) -> Seq<char>
    decreases es, 1int,
{
    if es.len() == 0 {
        Seq::empty()
    } else if es.len() == 1 {
        enc(es[0])
    } else {
        enc(es[0]) + seq![','] + enc_elems(es.drop_first())
    }
}

pub open spec fn enc_memb(m: (Seq<char>, JsonVal)) -> Seq<char>
    decreases m, 0int,
{
    enc_string(m.0) + seq![':'] + enc(m.1)
}

pub open spec fn enc_membs(ms: Seq<(Seq<char>, JsonVal)>) -> Seq<char>
    decreases ms, 1int,
{
    if ms.len() == 0 {
        Seq::empty()
    } else if ms.len() == 1 {
        enc_memb(ms[0])
    } else {
        enc_memb(ms[0]) + seq![','] + enc_membs(ms.drop_first())
    }
}

// ---------------------------------------------------------------------------
// Number syntax
// ---------------------------------------------------------------------------

/// The first position at or after `i` that does not hold a decimal digit.
pub open spec fn scan_digits(s: Seq<char>, i: int) -> int
    decreases s.len() - i,
{
    if 0 <= i && i < s.len() && is_digit(s[i]) {
        scan_digits(s, i + 1)
    } else {
        i
    }
}

/// The end of a standard JSON number starting at `i`: an optional minus
/// sign, an integer part without leading zeros, an optional fraction, and
/// an optional exponent.  `None` if no number starts at `i`.
pub open spec fn num_end(s: Seq<char>, i: int) -> Option<int> {
    let j = if i < s.len() && s[i] == '-' { i + 1 } else { i };
    if !(j < s.len() && is_digit(s[j])) {
        None
    } else {
        let k = if s[j] == '0' { j + 1 } else { scan_digits(s, j) };
        let l = if k < s.len() && s[k] == '.' {
            if k + 1 < s.len() && is_digit(s[k + 1]) { scan_digits(s, k + 1) } else { -1 }
        } else {
            k
        };
        if l < 0 {
            None
        } else {
            let m = if l < s.len() && (s[l] == 'e' || s[l] == 'E') {
                let e = if l + 1 < s.len() && (s[l + 1] == '+' || s[l + 1] == '-') { l + 2 } else { l + 1 };
                if e < s.len() && is_digit(s[e]) { scan_digits(s, e) } else { -1 }
            } else {
                l
            };
            if m < 0 { None } else { Some(m) }
        }
    }
}

/// `t` is exactly one standard JSON number literal.
pub open spec fn is_valid_number(t: Seq<char>) -> bool {
    t.len() > 0 && num_end(t, 0) == Some(t.len() as int)
}

/// The first position at or after `i` that holds no number character.
pub open spec fn scan_num(s: Seq<char>, i: int) -> int
    decreases s.len() - i,
{
    if 0 <= i && i < s.len() && num_char(s[i]) {
        scan_num(s, i + 1)
    } else {
        i
    }
}

// ---------------------------------------------------------------------------
// Well-formed values
// ---------------------------------------------------------------------------

/// A value whose number literals are all standard JSON numbers.  Every value
/// the decoder produces is well formed, and every well-formed value encodes
/// to text the decoder takes back.
pub open spec fn wf_json(v: JsonVal) -> bool
    decreases v, 1int,
{
    match v {
        JsonVal::Num(s) => is_valid_number(s),
        JsonVal::Arr(es) => wf_vals(es),
        JsonVal::Obj(ms) => wf_membs(ms),
        _ => true,
    }
}

pub open spec fn wf_vals(es: Seq<JsonVal>) -> bool
    decreases es, 1int,
{
    es.len() == 0 || (wf_json(es[0]) && wf_vals(es.drop_first()))
}

pub open spec fn wf_membs(ms: Seq<(Seq<char>, JsonVal)>) -> bool
    decreases ms, 1int,
{
    ms.len() == 0 || (wf_json(ms[0].1) && wf_membs(ms.drop_first()))
}

// ---------------------------------------------------------------------------
// The encoder
// ---------------------------------------------------------------------------

/// Relies on `String::push` from std: appends exactly the given character.
#[verifier::external_body]
pub(crate) fn push_char(out: &mut String, c: char)
    ensures
        final(out)@ == old(out)@.push(c),
{
    out.push(c);
}

/// The hexadecimal digit (lower case) with value `n`.
fn hex_char(n: u32) -> (c: char)
    requires
        n < 16,
    ensures
        c == hex_digit_char(n as int),
{
    if n == 0 { '0' } else if n == 1 { '1' } else if n == 2 { '2' }
    else if n == 3 { '3' } else if n == 4 { '4' } else if n == 5 { '5' }
    else if n == 6 { '6' } else if n == 7 { '7' } else if n == 8 { '8' }
    else if n == 9 { '9' } else if n == 10 { 'a' } else if n == 11 { 'b' }
    else if n == 12 { 'c' } else if n == 13 { 'd' } else if n == 14 { 'e' }
    else { 'f' }
}

/// Appends the escaped form of `c`.
fn write_esc(c: char, out: &mut String)
    ensures
        final(out)@ == old(out)@ + esc_char(c),
{
    if c == '"' {
        push_char(out, '\\');
        push_char(out, '"');
        assert(out@ =~= old(out)@ + esc_char(c));
    } else if c == '\\' {
        push_char(out, '\\');
        push_char(out, '\\');
        assert(out@ =~= old(out)@ + esc_char(c));
    } else if (c as u32) < 0x20 {
        push_char(out, '\\');
        push_char(out, 'u');
        push_char(out, '0');
        push_char(out, '0');
        push_char(out, hex_char(c as u32 / 16));
        push_char(out, hex_char(c as u32 % 16));
        assert(out@ =~= old(out)@ + esc_char(c));
    } else {
        push_char(out, c);
        assert(out@ =~= old(out)@ + esc_char(c));
    }
}

/// Appends the escaped body of `s` from character `i` on.
fn write_str_body(s: &str, i: usize, n: usize, out: &mut String)
    requires
        n == s@.len(),
        i <= n,
    ensures
        final(out)@ == old(out)@ + enc_str_body(s@.subrange(i as int, n as int)),
    decreases n - i,
{
    if i == n {
        assert(out@ =~= old(out)@ + enc_str_body(s@.subrange(i as int, n as int)));
    } else {
        let c = s.get_char(i);
        write_esc(c, out);
        write_str_body(s, i + 1, n, out);
        proof {
            let t = s@.subrange(i as int, n as int);
            assert(t[0] == c);
            assert(t.drop_first() =~= s@.subrange(i + 1, n as int));
            assert(out@ =~= old(out)@ + enc_str_body(t));
        }
    }
}

/// Appends the quoted, escaped form of `s`.
pub(crate) fn write_jstring(s: &str, out: &mut String)
    ensures
        final(out)@ == old(out)@ + enc_string(s@),
{
    push_char(out, '"');
    let n = s.unicode_len();
    write_str_body(s, 0, n, out);
    push_char(out, '"');
    proof {
        assert(s@.subrange(0, s@.len() as int) =~= s@);
        assert(out@ =~= old(out)@ + enc_string(s@));
    }
}

/// Appends the canonical text of `v`.
pub fn write_json(v: &Json, out: &mut String)
    ensures
        final(out)@ == old(out)@ + enc(v@),
    decreases v, 0int,
{
    match v {
        Json::Null => {
            out.append("null");
        },
        Json::Bool(b) => {
            if *b {
                out.append("true");
            } else {
                out.append("false");
            }
        },
        Json::Num(s) => {
            out.append(s.as_str());
        },
        Json::Str(s) => {
            write_jstring(s.as_str(), out);
        },
        Json::Arr(es) => {
            push_char(out, '[');
            if es.len() > 0 {
                proof {
                    assert(es@.subrange(0, es@.len() as int) =~= es@);
                }
                write_elems(es, 0, out);
            }
            push_char(out, ']');
            proof {
                assert(jview_seq(Seq::<Json>::empty()) =~= Seq::<JsonVal>::empty());
                assert(out@ =~= old(out)@ + enc(v@));
            }
        },
        Json::Obj(ms) => {
            push_char(out, '{');
            if ms.len() > 0 {
                proof {
                    assert(ms@.subrange(0, ms@.len() as int) =~= ms@);
                }
                write_membs(ms, 0, out);
            }
            push_char(out, '}');
            proof {
                assert(jview_membs(Seq::<(String, Json)>::empty()) =~= Seq::<(Seq<char>, JsonVal)>::empty());
                assert(out@ =~= old(out)@ + enc(v@));
            }
        },
    }
}

/// Appends the elements of `es` from `i` on, separated by commas.
fn write_elems(es: &Vec<Json>, i: usize, out: &mut String)
    requires
        i < es.len(),
    ensures
        final(out)@ == old(out)@ + enc_elems(jview_seq(es@.subrange(i as int, es@.len() as int))),
    decreases es@.subrange(i as int, es@.len() as int), 1int,
{
    proof {
        assert(es@.subrange(i as int, es@.len() as int)[0] == es@[i as int]);
    }
    write_json(&es[i], out);
    proof {
        let t = es@.subrange(i as int, es@.len() as int);
        assert(t.drop_first() =~= es@.subrange(i + 1, es@.len() as int));
    }
    if i + 1 < es.len() {
        push_char(out, ',');
        write_elems(es, i + 1, out);
        proof {
            let t = es@.subrange(i as int, es@.len() as int);
            assert(jview_seq(t).drop_first() =~= jview_seq(t.drop_first()));
            assert(jview_seq(t).len() == t.len()) by { lemma_jview_seq_len(t) };
            assert(out@ =~= old(out)@ + enc_elems(jview_seq(t)));
        }
    } else {
        proof {
            let t = es@.subrange(i as int, es@.len() as int);
            assert(t.len() == 1);
            assert(jview_seq(t).len() == 1) by { lemma_jview_seq_len(t) };
            assert(out@ =~= old(out)@ + enc_elems(jview_seq(t)));
        }
    }
}

/// Appends the members of `ms` from `i` on, separated by commas.
fn write_membs(ms: &Vec<(String, Json)>, i: usize, out: &mut String)
    requires
        i < ms.len(),
    ensures
        final(out)@ == old(out)@ + enc_membs(jview_membs(ms@.subrange(i as int, ms@.len() as int))),
    decreases ms@.subrange(i as int, ms@.len() as int), 1int,
{
    proof {
        assert(ms@.subrange(i as int, ms@.len() as int)[0] == ms@[i as int]);
    }
    write_jstring(ms[i].0.as_str(), out);
    push_char(out, ':');
    write_json(&ms[i].1, out);
    proof {
        let t = ms@.subrange(i as int, ms@.len() as int);
        assert(t.drop_first() =~= ms@.subrange(i + 1, ms@.len() as int));
        assert(jview_membs(t)[0] == (t[0].0@, jview(t[0].1)));
        assert(enc_memb(jview_membs(t)[0]) == enc_string(t[0].0@) + seq![':'] + enc(jview(t[0].1)));
    }
    if i + 1 < ms.len() {
        push_char(out, ',');
        write_membs(ms, i + 1, out);
        proof {
            let t = ms@.subrange(i as int, ms@.len() as int);
            assert(jview_membs(t).drop_first() =~= jview_membs(t.drop_first()));
            assert(jview_membs(t).len() == t.len()) by { lemma_jview_membs_len(t) };
            assert(out@ =~= old(out)@ + enc_membs(jview_membs(t)));
        }
    } else {
        proof {
            let t = ms@.subrange(i as int, ms@.len() as int);
            assert(t.len() == 1);
            assert(jview_membs(t).len() == 1) by { lemma_jview_membs_len(t) };
            assert(out@ =~= old(out)@ + enc_membs(jview_membs(t)));
        }
    }
}

pub proof fn lemma_jview_seq_len(es: Seq<Json>)
    ensures
        jview_seq(es).len() == es.len(),
    decreases es,
{
    if es.len() > 0 {
        lemma_jview_seq_len(es.drop_first());
    }
}

pub proof fn lemma_jview_membs_len(ms: Seq<(String, Json)>)
    ensures
        jview_membs(ms).len() == ms.len(),
    decreases ms,
{
    if ms.len() > 0 {
        lemma_jview_membs_len(ms.drop_first());
    }
}

pub proof fn lemma_jview_seq_index(es: Seq<Json>, i: int)
    requires
        0 <= i < es.len(),
    ensures
        jview_seq(es).len() == es.len(),
        jview_seq(es)[i] == jview(es[i]),
    decreases es,
{
    lemma_jview_seq_len(es);
    if i > 0 {
        lemma_jview_seq_index(es.drop_first(), i - 1);
    }
}

pub proof fn lemma_jview_membs_index(ms: Seq<(String, Json)>, i: int)
    requires
        0 <= i < ms.len(),
    ensures
        jview_membs(ms).len() == ms.len(),
        jview_membs(ms)[i] == (ms[i].0@, jview(ms[i].1)),
    decreases ms,
{
    lemma_jview_membs_len(ms);
    if i > 0 {
        lemma_jview_membs_index(ms.drop_first(), i - 1);
    }
}

/// The canonical text of `v`, as [`enc`] specifies it.
pub fn json_to_string(v: &Json) -> (r: String)
    ensures
        r@ == enc(v@),
{
    let mut out = String::new();
    write_json(v, &mut out);
    out
}

// ---------------------------------------------------------------------------
// The decoder, as a specification
// ---------------------------------------------------------------------------

/// The first position at or after `i` that holds no whitespace.
pub open spec fn skip_ws(s: Seq<char>, i: int) -> int
    decreases s.len() - i,
{
    if 0 <= i && i < s.len() && ws_char(s[i]) {
        skip_ws(s, i + 1)
    } else {
        i
    }
}

/// The character named by a single-letter escape.
pub open spec fn esc_of(e: char) -> Option<char> {
    if e == '"' { Some('"') } else if e == '\\' { Some('\\') }
    else if e == '/' { Some('/') } else if e == 'n' { Some('\n') }
    else if e == 't' { Some('\t') } else if e == 'r' { Some('\r') }
    else if e == 'b' { Some('\u{0008}') } else if e == 'f' { Some('\u{000C}') }
    else { None }
}

/// The value of the four hexadecimal digits at `i`.
pub open spec fn hex4(s: Seq<char>, i: int) -> Option<int> {
    if 0 <= i && i + 4 <= s.len() && hex_val(s[i]) < 16 && hex_val(s[i + 1]) < 16
        && hex_val(s[i + 2]) < 16 && hex_val(s[i + 3]) < 16 {
        Some(4096 * hex_val(s[i]) + 256 * hex_val(s[i + 1]) + 16 * hex_val(s[i + 2]) + hex_val(
            s[i + 3],
        ))
    } else {
        None
    }
}

/// Reads the body of a string, from just after the opening quote through the
/// closing quote: the decoded characters and the position after the quote.
/// Unescaped control characters, unknown escapes, and `\u` escapes naming
/// surrogates are refused.
pub open spec fn dec_str_body(s: Seq<char>, i: int) -> Option<(Seq<char>, int)>
    decreases s.len() - i,
{
    if !(0 <= i && i < s.len()) {
        None
    } else if s[i] == '"' {
        Some((Seq::empty(), i + 1))
    } else if s[i] == '\\' {
        if i + 2 > s.len() {
            None
        } else {
            let e = s[i + 1];
            if e == 'u' {
                match hex4(s, i + 2) {
                    None => None,
                    Some(code) => if 0xD800 <= code && code <= 0xDFFF {
                        None
                    } else {
                        match dec_str_body(s, i + 6) {
                            None => None,
                            Some((rest, k)) => Some((seq![(code as u32) as char] + rest, k)),
                        }
                    },
                }
            } else {
                match esc_of(e) {
                    None => None,
                    Some(c) => match dec_str_body(s, i + 2) {
                        None => None,
                        Some((rest, k)) => Some((seq![c] + rest, k)),
                    },
                }
            }
        }
    } else if (s[i] as u32) < 0x20 {
        None
    } else {
        match dec_str_body(s, i + 1) {
            None => None,
            Some((rest, k)) => Some((seq![s[i]] + rest, k)),
        }
    }
}

/// Reads one value starting at `i`, after skipping whitespace: the value and
/// the position just after it.
pub open spec fn dec_value(s: Seq<char>, i: int) -> Option<(JsonVal, int)>
    decreases s.len() - i, 0int,
{
    if !(0 <= i && i <= s.len()) {
        None
    } else {
        let j = skip_ws(s, i);
        if !(i <= j && j < s.len()) {
            None
        } else {
            let c = s[j];
            if c == 'n' {
                if j + 4 <= s.len() && s[j + 1] == 'u' && s[j + 2] == 'l' && s[j + 3] == 'l' {
                    Some((JsonVal::Null, j + 4))
                } else {
                    None
                }
            } else if c == 't' {
                if j + 4 <= s.len() && s[j + 1] == 'r' && s[j + 2] == 'u' && s[j + 3] == 'e' {
                    Some((JsonVal::Bool(true), j + 4))
                } else {
                    None
                }
            } else if c == 'f' {
                if j + 5 <= s.len() && s[j + 1] == 'a' && s[j + 2] == 'l' && s[j + 3] == 's'
                    && s[j + 4] == 'e' {
                    Some((JsonVal::Bool(false), j + 5))
                } else {
                    None
                }
            } else if c == '"' {
                match dec_str_body(s, j + 1) {
                    None => None,
                    Some((cs, k)) => Some((JsonVal::Str(cs), k)),
                }
            } else if c == '[' {
                let k = skip_ws(s, j + 1);
                if !(j + 1 <= k && k < s.len()) {
                    None
                } else if s[k] == ']' {
                    Some((JsonVal::Arr(Seq::empty()), k + 1))
                } else {
                    match dec_elems(s, j + 1) {
                        None => None,
                        Some((es, m)) => Some((JsonVal::Arr(es), m)),
                    }
                }
            } else if c == '{' {
                let k = skip_ws(s, j + 1);
                if !(j + 1 <= k && k < s.len()) {
                    None
                } else if s[k] == '}' {
                    Some((JsonVal::Obj(Seq::empty()), k + 1))
                } else {
                    match dec_membs(s, j + 1) {
                        None => None,
                        Some((ms, m)) => Some((JsonVal::Obj(ms), m)),
                    }
                }
            } else if c == '-' || is_digit(c) {
                let m = scan_num(s, j);
                if j < m && m <= s.len() && is_valid_number(s.subrange(j, m)) {
                    Some((JsonVal::Num(s.subrange(j, m)), m))
                } else {
                    None
                }
            } else {
                None
            }
        }
    }
}

/// Reads the elements of a non-empty array, from just after the `[` (or a
/// `,`) through the closing `]`.
pub open spec fn dec_elems(s: Seq<char>, i: int) -> Option<(Seq<JsonVal>, int)>
    decreases s.len() - i, 1int,
{
    if !(0 <= i && i <= s.len()) {
        None
    } else {
        match dec_value(s, i) {
            None => None,
            Some((v, j)) => if !(i < j && j <= s.len()) {
                None
            } else {
                let k = skip_ws(s, j);
                if !(j <= k && k < s.len()) {
                    None
                } else if s[k] == ',' {
                    match dec_elems(s, k + 1) {
                        None => None,
                        Some((rest, m)) => Some((seq![v] + rest, m)),
                    }
                } else if s[k] == ']' {
                    Some((seq![v], k + 1))
                } else {
                    None
                }
            },
        }
    }
}

/// Reads the members of a non-empty object, from just after the `{` (or a
/// `,`) through the closing `}`.
pub open spec fn dec_membs(s: Seq<char>, i: int) -> Option<(Seq<(Seq<char>, JsonVal)>, int)>
    decreases s.len() - i, 1int,
{
    if !(0 <= i && i <= s.len()) {
        None
    } else {
        let j = skip_ws(s, i);
        if !(i <= j && j < s.len()) {
            None
        } else if s[j] != '"' {
            None
        } else {
            match dec_str_body(s, j + 1) {
                None => None,
                Some((key, k)) => if !(j + 1 < k && k <= s.len()) {
                    None
                } else {
                    let l = skip_ws(s, k);
                    if !(k <= l && l < s.len()) {
                        None
                    } else if s[l] != ':' {
                        None
                    } else {
                        match dec_value(s, l + 1) {
                            None => None,
                            Some((v, m)) => if !(i < m && m <= s.len()) {
                                None
                            } else {
                                let p = skip_ws(s, m);
                                if !(m <= p && p < s.len()) {
                                    None
                                } else if s[p] == ',' {
                                    match dec_membs(s, p + 1) {
                                        None => None,
                                        Some((rest, q)) => Some((seq![(key, v)] + rest, q)),
                                    }
                                } else if s[p] == '}' {
                                    Some((seq![(key, v)], p + 1))
                                } else {
                                    None
                                }
                            },
                        }
                    }
                },
            }
        }
    }
}

/// Reads a whole document: one value, with whitespace allowed around it and
/// nothing else after it.
pub open spec fn dec_document(s: Seq<char>) -> Option<JsonVal> {
    match dec_value(s, 0) {
        None => None,
        Some((v, j)) => if 0 <= j && j <= s.len() && skip_ws(s, j) == s.len() {
            Some(v)
        } else {
            None
        },
    }
}

// ---------------------------------------------------------------------------
// The parser
// ---------------------------------------------------------------------------

/// Relies on `char::from_u32` from std: returns the character with the given
/// scalar value, and `None` exactly when the value is no Unicode scalar value
/// (a surrogate, or above `0x10FFFF`).
#[verifier::external_body]
fn char_from_u32(x: u32) -> (r: Option<char>)
    ensures
        r is Some <==> (x < 0xD800 || (0xE000 <= x && x <= 0x10FFFF)),
        r matches Some(c) ==> c as u32 == x,
{
    char::from_u32(x)
}

fn ws_test(c: char) -> (r: bool)
    ensures
        r == ws_char(c),
{
    c == ' ' || c == '\n' || c == '\t' || c == '\r'
}

fn digit_test(c: char) -> (r: bool)
    ensures
        r == is_digit(c),
{
    let x = c as u32;
    ('0' as u32) <= x && x <= ('9' as u32)
}

fn hex_val_of(c: char) -> (r: u32)
    ensures
        r as int == hex_val(c),
{
    let x = c as u32;
    if ('0' as u32) <= x && x <= ('9' as u32) {
        x - ('0' as u32)
    } else if ('a' as u32) <= x && x <= ('f' as u32) {
        x - ('a' as u32) + 10
    } else if ('A' as u32) <= x && x <= ('F' as u32) {
        x - ('A' as u32) + 10
    } else {
        16
    }
}

fn eat_ws(s: &Vec<char>, i: usize) -> (r: usize)
    requires
        i <= s.len(),
    ensures
        r as int == skip_ws(s@, i as int),
        i <= r <= s.len(),
    decreases s.len() - i,
{
    if i < s.len() && ws_test(s[i]) {
        eat_ws(s, i + 1)
    } else {
        i
    }
}

fn eat_digits(s: &Vec<char>, i: usize) -> (r: usize)
    requires
        i <= s.len(),
    ensures
        r as int == scan_digits(s@, i as int),
        i <= r <= s.len(),
        i < s.len() && is_digit(s@[i as int]) ==> r > i,
    decreases s.len() - i,
{
    if i < s.len() && digit_test(s[i]) {
        eat_digits(s, i + 1)
    } else {
        i
    }
}

/// The end of the number starting at `i`, as [`num_end`] gives it.
fn find_num_end(s: &Vec<char>, i: usize) -> (r: Option<usize>)
    requires
        i <= s.len(),
    ensures
        r is None <==> num_end(s@, i as int) is None,
        r matches Some(m) ==> num_end(s@, i as int) == Some(m as int) && i < m <= s.len(),
{
    let j = if i < s.len() && s[i] == '-' { i + 1 } else { i };
    if !(j < s.len() && digit_test(s[j])) {
        return None;
    }
    let k = if s[j] == '0' { j + 1 } else { eat_digits(s, j) };
    let l_found: Option<usize> = if k < s.len() && s[k] == '.' {
        if k + 1 < s.len() && digit_test(s[k + 1]) {
            Some(eat_digits(s, k + 1))
        } else {
            None
        }
    } else {
        Some(k)
    };
    match l_found {
        None => None,
        Some(l) => {
            let m_found: Option<usize> = if l < s.len() && (s[l] == 'e' || s[l] == 'E') {
                let e = if l + 1 < s.len() && (s[l + 1] == '+' || s[l + 1] == '-') {
                    l + 2
                } else {
                    l + 1
                };
                if e < s.len() && digit_test(s[e]) {
                    Some(eat_digits(s, e))
                } else {
                    None
                }
            } else {
                Some(l)
            };
            m_found
        },
    }
}

fn num_test(c: char) -> (r: bool)
    ensures
        r == num_char(c),
{
    digit_test(c) || c == '-' || c == '+' || c == '.' || c == 'e' || c == 'E'
}

fn eat_numchars(s: &Vec<char>, i: usize) -> (r: usize)
    requires
        i <= s.len(),
    ensures
        r as int == scan_num(s@, i as int),
        i <= r <= s.len(),
        i < s.len() && num_char(s@[i as int]) ==> r > i,
    decreases s.len() - i,
{
    if i < s.len() && num_test(s[i]) {
        eat_numchars(s, i + 1)
    } else {
        i
    }
}

/// Copies the characters of `s` between `i` and `j` into a vector.
fn subvec(s: &Vec<char>, i: usize, j: usize) -> (r: Vec<char>)
    requires
        i <= j && j <= s.len(),
    ensures
        r@ == s@.subrange(i as int, j as int),
    decreases j - i,
{
    let mut out: Vec<char> = Vec::new();
    let mut k = i;
    while k < j
        invariant
            i <= k <= j <= s.len(),
            out@ == s@.subrange(i as int, k as int),
        decreases j - k,
    {
        out.push(s[k]);
        k = k + 1;
        proof {
            assert(out@ =~= s@.subrange(i as int, k as int));
        }
    }
    out
}

/// Copies the characters of `s` between `i` and `j` into a string.
fn chars_to_string(s: &Vec<char>, i: usize, j: usize) -> (r: String)
    requires
        i <= j && j <= s.len(),
    ensures
        r@ == s@.subrange(i as int, j as int),
{
    let mut out = String::new();
    let mut k = i;
    while k < j
        invariant
            i <= k <= j <= s.len(),
            out@ == s@.subrange(i as int, k as int),
        decreases j - k,
    {
        push_char(&mut out, s[k]);
        k = k + 1;
        proof {
            assert(out@ =~= s@.subrange(i as int, k as int));
        }
    }
    out
}

/// Reads a string body, as [`dec_str_body`] gives it.
fn parse_str_body(s: &Vec<char>, i: usize) -> (r: Option<(String, usize)>)
    requires
        i <= s.len(),
    ensures
        r is None <==> dec_str_body(s@, i as int) is None,
        r matches Some((cs, k)) ==> dec_str_body(s@, i as int) == Some((cs@, k as int)) && i < k
            <= s.len(),
    decreases s.len() - i,
{
    if i >= s.len() {
        return None;
    }
    let c = s[i];
    if c == '"' {
        let out = String::new();
        proof {
            assert(out@ =~= Seq::<char>::empty());
        }
        Some((out, i + 1))
    } else if c == '\\' {
        if s.len() - i < 2 {
            return None;
        }
        let e = s[i + 1];
        if e == 'u' {
            if s.len() - i < 6 {
                proof {
                    assert(hex4(s@, i + 2) is None);
                }
                return None;
            }
            let h0 = hex_val_of(s[i + 2]);
            let h1 = hex_val_of(s[i + 3]);
            let h2 = hex_val_of(s[i + 4]);
            let h3 = hex_val_of(s[i + 5]);
            if h0 >= 16 || h1 >= 16 || h2 >= 16 || h3 >= 16 {
                proof {
                    assert(hex4(s@, i + 2) is None);
                }
                return None;
            }
            let code: u32 = 4096 * h0 + 256 * h1 + 16 * h2 + h3;
            if 0xD800 <= code && code <= 0xDFFF {
                return None;
            }
            match char_from_u32(code) {
                None => {
                    // unreachable: the code is below the surrogate range
                    proof {
                        assert(code < 0xD800);
                    }
                    None
                },
                Some(ch) => {
                    match parse_str_body(s, i + 6) {
                        None => None,
                        Some((rest, k)) => {
                            let mut out = String::new();
                            push_char(&mut out, ch);
                            out.append(rest.as_str());
                            proof {
                                vstd::utf8::char_u32_cast(ch, code);
                                assert(out@ =~= seq![(code as u32) as char] + rest@);
                            }
                            Some((out, k))
                        },
                    }
                },
            }
        } else {
            let decoded: Option<char> = if e == '"' { Some('"') } else if e == '\\' {
                Some('\\')
            } else if e == '/' { Some('/') } else if e == 'n' { Some('\n') } else if e == 't' {
                Some('\t')
            } else if e == 'r' { Some('\r') } else if e == 'b' { Some('\u{0008}') } else if e
                == 'f' {
                Some('\u{000C}')
            } else {
                None
            };
            proof {
                assert(decoded == esc_of(e));
            }
            match decoded {
                None => None,
                Some(ch) => {
                    match parse_str_body(s, i + 2) {
                        None => None,
                        Some((rest, k)) => {
                            let mut out = String::new();
                            push_char(&mut out, ch);
                            out.append(rest.as_str());
                            proof {
                                assert(out@ =~= seq![ch] + rest@);
                            }
                            Some((out, k))
                        },
                    }
                },
            }
        }
    } else if (c as u32) < 0x20 {
        None
    } else {
        match parse_str_body(s, i + 1) {
            None => None,
            Some((rest, k)) => {
                let mut out = String::new();
                push_char(&mut out, c);
                out.append(rest.as_str());
                proof {
                    assert(out@ =~= seq![c] + rest@);
                }
                Some((out, k))
            },
        }
    }
}

/// Reads one value, as [`dec_value`] gives it.
fn parse_value(s: &Vec<char>, i: usize) -> (r: Option<(Json, usize)>)
    requires
        i <= s.len(),
    ensures
        r is None <==> dec_value(s@, i as int) is None,
        r matches Some((v, j)) ==> dec_value(s@, i as int) == Some((v@, j as int)) && i < j
            <= s.len(),
    decreases s.len() - i, 0int,
{
    let j = eat_ws(s, i);
    if j >= s.len() {
        return None;
    }
    let c = s[j];
    if c == 'n' {
        if s.len() - j >= 4 && s[j + 1] == 'u' && s[j + 2] == 'l' && s[j + 3] == 'l' {
            Some((Json::Null, j + 4))
        } else {
            None
        }
    } else if c == 't' {
        if s.len() - j >= 4 && s[j + 1] == 'r' && s[j + 2] == 'u' && s[j + 3] == 'e' {
            Some((Json::Bool(true), j + 4))
        } else {
            None
        }
    } else if c == 'f' {
        if s.len() - j >= 5 && s[j + 1] == 'a' && s[j + 2] == 'l' && s[j + 3] == 's' && s[j + 4]
            == 'e' {
            Some((Json::Bool(false), j + 5))
        } else {
            None
        }
    } else if c == '"' {
        match parse_str_body(s, j + 1) {
            None => None,
            Some((cs, k)) => Some((Json::Str(cs), k)),
        }
    } else if c == '[' {
        let k = eat_ws(s, j + 1);
        if k >= s.len() {
            return None;
        }
        if s[k] == ']' {
            proof {
                assert(jview_seq(Seq::<Json>::empty()) =~= Seq::<JsonVal>::empty());
            }
            Some((Json::Arr(Vec::new()), k + 1))
        } else {
            match parse_elems(s, j + 1) {
                None => None,
                Some((es, m)) => Some((Json::Arr(es), m)),
            }
        }
    } else if c == '{' {
        let k = eat_ws(s, j + 1);
        if k >= s.len() {
            return None;
        }
        if s[k] == '}' {
            proof {
                assert(jview_membs(Seq::<(String, Json)>::empty()) =~= Seq::<(
                    Seq<char>,
                    JsonVal,
                )>::empty());
            }
            Some((Json::Obj(Vec::new()), k + 1))
        } else {
            match parse_membs(s, j + 1) {
                None => None,
                Some((ms, m)) => Some((Json::Obj(ms), m)),
            }
        }
    } else if c == '-' || digit_test(c) {
        let m = eat_numchars(s, j);
        let lex = subvec(s, j, m);
        match find_num_end(&lex, 0) {
            None => None,
            Some(e) => {
                if e == lex.len() {
                    let text = chars_to_string(s, j, m);
                    Some((Json::Num(text), m))
                } else {
                    None
                }
            },
        }
    } else {
        None
    }
}

/// Reads array elements through the closing `]`, as [`dec_elems`] gives them.
fn parse_elems(s: &Vec<char>, i: usize) -> (r: Option<(Vec<Json>, usize)>)
    requires
        i <= s.len(),
    ensures
        r is None <==> dec_elems(s@, i as int) is None,
        r matches Some((es, j)) ==> dec_elems(s@, i as int) == Some((jview_seq(es@), j as int))
            && i < j <= s.len(),
    decreases s.len() - i, 1int,
{
    match parse_value(s, i) {
        None => None,
        Some((v, j)) => {
            let k = eat_ws(s, j);
            if k >= s.len() {
                return None;
            }
            if s[k] == ',' {
                match parse_elems(s, k + 1) {
                    None => None,
                    Some((rest, m)) => {
                        let ghost pre = rest@;
                        let mut out = rest;
                        out.insert(0, v);
                        proof {
                            assert(out@ =~= seq![v] + pre);
                            assert(out@.drop_first() =~= pre);
                            assert(out@[0] == v);
                            assert(jview_seq(out@) =~= seq![v@] + jview_seq(pre));
                        }
                        Some((out, m))
                    },
                }
            } else if s[k] == ']' {
                let mut out: Vec<Json> = Vec::new();
                out.push(v);
                proof {
                    assert(out@[0] == v);
                    assert(out@.drop_first() =~= Seq::<Json>::empty());
                    assert(jview_seq(Seq::<Json>::empty()) =~= Seq::<JsonVal>::empty());
                    assert(jview_seq(out@) =~= seq![v@]);
                }
                Some((out, k + 1))
            } else {
                None
            }
        },
    }
}

/// Reads object members through the closing `}`, as [`dec_membs`] gives them.
fn parse_membs(s: &Vec<char>, i: usize) -> (r: Option<(Vec<(String, Json)>, usize)>)
    requires
        i <= s.len(),
    ensures
        r is None <==> dec_membs(s@, i as int) is None,
        r matches Some((ms, j)) ==> dec_membs(s@, i as int) == Some((jview_membs(ms@), j as int))
            && i < j <= s.len(),
    decreases s.len() - i, 1int,
{
    let j = eat_ws(s, i);
    if j >= s.len() {
        return None;
    }
    if s[j] != '"' {
        return None;
    }
    match parse_str_body(s, j + 1) {
        None => None,
        Some((key, k)) => {
            let l = eat_ws(s, k);
            if l >= s.len() {
                return None;
            }
            if s[l] != ':' {
                return None;
            }
            match parse_value(s, l + 1) {
                None => None,
                Some((v, m)) => {
                    let p = eat_ws(s, m);
                    if p >= s.len() {
                        return None;
                    }
                    if s[p] == ',' {
                        match parse_membs(s, p + 1) {
                            None => None,
                            Some((rest, q)) => {
                                let ghost pre = rest@;
                                let mut out = rest;
                                out.insert(0, (key, v));
                                proof {
                                    assert(out@ =~= seq![(key, v)] + pre);
                                    assert(out@.drop_first() =~= pre);
                                    assert(out@[0] == (key, v));
                                    assert(jview_membs(out@) =~= seq![(key@, v@)]
                                        + jview_membs(pre));
                                }
                                Some((out, q))
                            },
                        }
                    } else if s[p] == '}' {
                        let mut out: Vec<(String, Json)> = Vec::new();
                        out.push((key, v));
                        proof {
                            assert(out@[0] == (key, v));
                            assert(out@.drop_first() =~= Seq::<(String, Json)>::empty());
                            assert(jview_membs(Seq::<(String, Json)>::empty()) =~= Seq::<(
                                Seq<char>,
                                JsonVal,
                            )>::empty());
                            assert(jview_membs(out@) =~= seq![(key@, v@)]);
                        }
                        Some((out, p + 1))
                    } else {
                        None
                    }
                },
            }
        },
    }
}

/// Copies the characters of `s` into a vector.
fn chars_of(s: &str) -> (r: Vec<char>)
    ensures
        r@ == s@,
{
    let n = s.unicode_len();
    let mut v: Vec<char> = Vec::new();
    let mut i: usize = 0;
    while i < n
        invariant
            i <= n,
            n == s@.len(),
            v@ == s@.subrange(0, i as int),
        decreases n - i,
    {
        let c = s.get_char(i);
        v.push(c);
        i = i + 1;
        proof {
            assert(v@ =~= s@.subrange(0, i as int));
        }
    }
    proof {
        assert(v@ =~= s@);
    }
    v
}

// ---------------------------------------------------------------------------
// Round trip: the decoder takes back what the encoder emits
// ---------------------------------------------------------------------------

proof fn lemma_slice_index(s: Seq<char>, i: int, big: Seq<char>)
    requires
        0 <= i,
        i + big.len() <= s.len(),
        s.subrange(i, i + big.len() as int) == big,
    ensures
        forall|a: int| i <= a < i + big.len() ==> s[a] == big[a - i],
{
    assert forall|a: int| i <= a < i + big.len() implies s[a] == big[a - i] by {
        assert(big[a - i] == s.subrange(i, i + big.len() as int)[a - i]);
    }
}

proof fn lemma_slice_slice(s: Seq<char>, i: int, big: Seq<char>, a: int, b: int)
    requires
        0 <= i,
        i + big.len() <= s.len(),
        s.subrange(i, i + big.len() as int) == big,
        0 <= a <= b <= big.len(),
    ensures
        s.subrange(i + a, i + b) == big.subrange(a, b),
{
    lemma_slice_index(s, i, big);
    assert(s.subrange(i + a, i + b) =~= big.subrange(a, b));
}

proof fn lemma_scan_digits_bounds(s: Seq<char>, i: int)
    requires
        0 <= i <= s.len(),
    ensures
        i <= scan_digits(s, i) <= s.len(),
        forall|k: int| i <= k < scan_digits(s, i) ==> is_digit(s[k]),
        scan_digits(s, i) < s.len() ==> !is_digit(s[scan_digits(s, i)]),
    decreases s.len() - i,
{
    if i < s.len() && is_digit(s[i]) {
        lemma_scan_digits_bounds(s, i + 1);
    }
}

proof fn lemma_scan_num_exact(s: Seq<char>, i: int, j: int)
    requires
        0 <= i <= j <= s.len(),
        forall|k: int| i <= k < j ==> num_char(s[k]),
        j == s.len() || !num_char(s[j]),
    ensures
        scan_num(s, i) == j,
    decreases j - i,
{
    if i < j {
        lemma_scan_num_exact(s, i + 1, j);
    }
}

/// Every character of a number literal is a number character, and it starts
/// with a minus sign or a digit.
proof fn lemma_valid_number_chars(t: Seq<char>)
    requires
        is_valid_number(t),
    ensures
        forall|p: int| 0 <= p < t.len() ==> num_char(t[p]),
        t[0] == '-' || is_digit(t[0]),
{
    let n = t.len() as int;
    let j = if 0 < t.len() && t[0] == '-' { 1int } else { 0int };
    assert(j < n && is_digit(t[j]));
    let k = if t[j] == '0' { j + 1 } else { scan_digits(t, j) };
    lemma_scan_digits_bounds(t, j);
    assert(j <= k <= n);
    assert(forall|p: int| j <= p < k ==> is_digit(t[p]));
    let frac = k < n && t[k] == '.';
    let l = if frac { scan_digits(t, k + 1) } else { k };
    if frac {
        assert(k + 1 < n && is_digit(t[k + 1]));
        lemma_scan_digits_bounds(t, k + 1);
        assert(k + 1 <= l <= n);
        assert(forall|p: int| k + 1 <= p < l ==> is_digit(t[p]));
    }
    let ex = l < n && (t[l] == 'e' || t[l] == 'E');
    let e = if ex {
        if l + 1 < n && (t[l + 1] == '+' || t[l + 1] == '-') { l + 2 } else { l + 1 }
    } else {
        l
    };
    let m = if ex { scan_digits(t, e) } else { l };
    if ex {
        assert(e < n && is_digit(t[e]));
        lemma_scan_digits_bounds(t, e);
        assert(e <= m <= n);
        assert(forall|p: int| e <= p < m ==> is_digit(t[p]));
    }
    assert(m == n);
    assert forall|p: int| 0 <= p < t.len() implies num_char(t[p]) by {
        if p < j {
            assert(t[p] == '-');
        } else if p < k {
            assert(is_digit(t[p]));
        } else if frac && p == k {
            assert(t[p] == '.');
        } else if frac && p < l {
            assert(is_digit(t[p]));
        } else if ex && p == l {
            assert(t[p] == 'e' || t[p] == 'E');
        } else if ex && p < e {
            assert(t[p] == '+' || t[p] == '-');
        } else {
            assert(is_digit(t[p]));
        }
    }
}

proof fn lemma_hex_digit_char_val(n: int)
    requires
        0 <= n < 16,
    ensures
        hex_val(hex_digit_char(n)) == n,
{
}

/// The characters that can open the text of a value.
pub open spec fn enc_head_char(c: char) -> bool {
    c == 'n' || c == 't' || c == 'f' || c == '"' || c == '[' || c == '{' || c == '-' || is_digit(c)
}

/// The text of a well-formed value is not empty and opens with a character
/// that names its kind.
proof fn lemma_enc_first(v: JsonVal)
    requires
        wf_json(v),
    ensures
        enc(v).len() > 0,
        enc_head_char(enc(v)[0]),
{
    match v {
        JsonVal::Null => {
            reveal_strlit("null");
        },
        JsonVal::Bool(b) => {
            reveal_strlit("true");
            reveal_strlit("false");
        },
        JsonVal::Num(s) => {
            lemma_valid_number_chars(s);
        },
        JsonVal::Str(s) => {
            assert(enc(v)[0] == '"');
        },
        JsonVal::Arr(es) => {
            assert(enc(v)[0] == '[');
        },
        JsonVal::Obj(ms) => {
            assert(enc(v)[0] == '{');
        },
    }
}

/// Decoding takes back what escaping emitted: if the text at `i` is the
/// escaped body of `cs` followed by a closing quote, the decoder returns
/// exactly `cs` and stops after the quote.
proof fn lemma_dec_enc_strbody(cs: Seq<char>, s: Seq<char>, i: int)
    requires
        0 <= i,
        i + enc_str_body(cs).len() < s.len(),
        s.subrange(i, i + enc_str_body(cs).len() as int) == enc_str_body(cs),
        s[i + enc_str_body(cs).len()] == '"',
    ensures
        dec_str_body(s, i) == Some((cs, i + enc_str_body(cs).len() + 1)),
    decreases cs.len(),
{
    let body = enc_str_body(cs);
    lemma_slice_index(s, i, body);
    if cs.len() == 0 {
        assert(s[i] == '"');
    } else {
        let c = cs[0];
        let e = esc_char(c);
        let rest = enc_str_body(cs.drop_first());
        assert(body == e + rest);
        assert(body.len() == e.len() + rest.len());
        assert(body.subrange(e.len() as int, body.len() as int) =~= rest);
        lemma_slice_slice(s, i, body, e.len() as int, body.len() as int);
        let i2 = i + e.len() as int;
        lemma_dec_enc_strbody(cs.drop_first(), s, i2);
        assert(seq![c] + cs.drop_first() =~= cs);
        if c == '"' {
            assert(s[i] == '\\' && s[i + 1] == '"');
            assert(esc_of('"') == Some('"'));
            assert(dec_str_body(s, i) == Some((cs, i + body.len() + 1)));
        } else if c == '\\' {
            assert(s[i] == '\\' && s[i + 1] == '\\');
            assert(esc_of('\\') == Some('\\'));
            assert(dec_str_body(s, i) == Some((cs, i + body.len() + 1)));
        } else if (c as u32) < 0x20 {
            let cu = c as u32 as int;
            assert(s[i] == '\\' && s[i + 1] == 'u' && s[i + 2] == '0' && s[i + 3] == '0');
            assert(s[i + 4] == hex_digit_char(cu / 16) && s[i + 5] == hex_digit_char(cu % 16));
            lemma_hex_digit_char_val(cu / 16);
            lemma_hex_digit_char_val(cu % 16);
            assert(hex_val('0') == 0);
            assert(hex4(s, i + 2) == Some(16 * (cu / 16) + cu % 16));
            assert(16 * (cu / 16) + cu % 16 == cu);
            assert(hex4(s, i + 2) == Some(cu));
            assert(!(0xD800 <= cu && cu <= 0xDFFF));
            vstd::utf8::char_u32_cast(c, cu as u32);
            assert((cu as u32) as char == c);
            assert(seq![(cu as u32) as char] + cs.drop_first() =~= cs);
            assert(dec_str_body(s, i) == Some((cs, i + body.len() + 1)));
        } else {
            assert(s[i] == c);
            assert(!((s[i] as u32) < 0x20));
            assert(dec_str_body(s, i) == Some((cs, i + body.len() + 1)));
        }
    }
}

/// Decoding takes back what the encoder emitted: if the text at `i` is the
/// encoding of a well-formed value, followed by the end of input or by a
/// character that cannot continue a number, the decoder returns exactly
/// that value and stops right after its text.
#[verifier::rlimit(100)]
#[verifier::spinoff_prover]
pub proof fn lemma_dec_enc(v: JsonVal, s: Seq<char>, i: int)
    requires
        wf_json(v),
        0 <= i,
        i + enc(v).len() <= s.len(),
        s.subrange(i, i + enc(v).len() as int) == enc(v),
        i + enc(v).len() == s.len() || !num_char(s[i + enc(v).len()]),
    ensures
        dec_value(s, i) == Some((v, i + enc(v).len() as int)),
    decreases v, 0int,
{
    let e = enc(v);
    lemma_slice_index(s, i, e);
    lemma_enc_first(v);
    assert(s[i] == e[0]);
    assert(!ws_char(s[i]));
    assert(skip_ws(s, i) == i);
    match v {
        JsonVal::Null => {
            reveal_strlit("null");
            assert(s[i] == 'n' && s[i + 1] == 'u' && s[i + 2] == 'l' && s[i + 3] == 'l');
            assert(dec_value(s, i) == Some((v, i + 4)));
        },
        JsonVal::Bool(b) => {
            reveal_strlit("true");
            reveal_strlit("false");
            if b {
                assert(s[i] == 't' && s[i + 1] == 'r' && s[i + 2] == 'u' && s[i + 3] == 'e');
                assert(dec_value(s, i) == Some((v, i + 4)));
            } else {
                assert(s[i] == 'f' && s[i + 1] == 'a' && s[i + 2] == 'l' && s[i + 3] == 's'
                    && s[i + 4] == 'e');
                assert(dec_value(s, i) == Some((v, i + 5)));
            }
        },
        JsonVal::Num(tnum) => {
            lemma_valid_number_chars(tnum);
            assert forall|k: int| i <= k < i + e.len() implies num_char(s[k]) by {
                assert(s[k] == e[k - i]);
            }
            lemma_scan_num_exact(s, i, i + e.len() as int);
            assert(s.subrange(i, i + e.len() as int) == tnum);
            assert(s[i] == '-' || is_digit(s[i]));
            assert(dec_value(s, i) == Some((v, i + e.len() as int)));
        },
        JsonVal::Str(cs) => {
            let body = enc_str_body(cs);
            assert(e == seq!['"'] + body + seq!['"']);
            assert(e.len() == body.len() + 2);
            assert(e.subrange(1, 1 + body.len() as int) =~= body);
            lemma_slice_slice(s, i, e, 1, 1 + body.len() as int);
            assert(e[1 + body.len() as int] == '"');
            assert(s[i + 1 + body.len()] == '"');
            lemma_dec_enc_strbody(cs, s, i + 1);
            assert(dec_value(s, i) == Some((v, i + e.len() as int)));
        },
        JsonVal::Arr(es) => {
            let inner = enc_elems(es);
            assert(e == seq!['['] + inner + seq![']']);
            assert(e.len() == inner.len() + 2);
            assert(s[i] == '[');
            assert(e[1 + inner.len() as int] == ']');
            assert(s[i + 1 + inner.len()] == ']');
            if es.len() == 0 {
                assert(skip_ws(s, i + 1) == i + 1);
                assert(es =~= Seq::<JsonVal>::empty());
                assert(dec_value(s, i) == Some((v, i + 2)));
            } else {
                assert(wf_json(es[0]));
                lemma_enc_first(es[0]);
                assert(inner[0] == enc(es[0])[0]);
                assert(s[i + 1] == inner[0]);
                assert(!ws_char(s[i + 1]));
                assert(skip_ws(s, i + 1) == i + 1);
                assert(s[i + 1] != ']');
                assert(e.subrange(1, 1 + inner.len() as int) =~= inner);
                lemma_slice_slice(s, i, e, 1, 1 + inner.len() as int);
                lemma_dec_enc_elems(es, s, i + 1);
                assert(dec_elems(s, i + 1) == Some((es, i + e.len() as int)));
                assert(dec_value(s, i) == Some((v, i + e.len() as int)));
            }
        },
        JsonVal::Obj(ms) => {
            let inner = enc_membs(ms);
            assert(e == seq!['{'] + inner + seq!['}']);
            assert(e.len() == inner.len() + 2);
            assert(s[i] == '{');
            assert(e[1 + inner.len() as int] == '}');
            assert(s[i + 1 + inner.len()] == '}');
            if ms.len() == 0 {
                assert(skip_ws(s, i + 1) == i + 1);
                assert(ms =~= Seq::<(Seq<char>, JsonVal)>::empty());
                assert(dec_value(s, i) == Some((v, i + 2)));
            } else {
                assert(inner[0] == enc_memb(ms[0])[0]);
                assert(enc_memb(ms[0])[0] == '"');
                assert(s[i + 1] == '"');
                assert(skip_ws(s, i + 1) == i + 1);
                assert(s[i + 1] != '}');
                assert(e.subrange(1, 1 + inner.len() as int) =~= inner);
                lemma_slice_slice(s, i, e, 1, 1 + inner.len() as int);
                lemma_dec_enc_membs(ms, s, i + 1);
                assert(dec_membs(s, i + 1) == Some((ms, i + e.len() as int)));
                assert(dec_value(s, i) == Some((v, i + e.len() as int)));
            }
        },
    }
}

/// As [`lemma_dec_enc`], for the elements of a non-empty array followed by
/// their closing bracket.
#[verifier::rlimit(100)]
#[verifier::spinoff_prover]
proof fn lemma_dec_enc_elems(es: Seq<JsonVal>, s: Seq<char>, i: int)
    requires
        es.len() > 0,
        wf_vals(es),
        0 <= i,
        i + enc_elems(es).len() < s.len(),
        s.subrange(i, i + enc_elems(es).len() as int) == enc_elems(es),
        s[i + enc_elems(es).len()] == ']',
    ensures
        dec_elems(s, i) == Some((es, i + enc_elems(es).len() + 1)),
    decreases es, 1int,
{
    let inner = enc_elems(es);
    let h = es[0];
    let eh = enc(h);
    assert(wf_json(h));
    lemma_enc_first(h);
    if es.len() == 1 {
        assert(inner == eh);
        lemma_dec_enc(h, s, i);
        let j = i + eh.len() as int;
        assert(s[j] == ']');
        assert(skip_ws(s, j) == j);
        assert(seq![h] =~= es);
        assert(dec_elems(s, i) == Some((es, i + inner.len() + 1)));
    } else {
        let rest = enc_elems(es.drop_first());
        assert(inner == eh + seq![','] + rest);
        assert(inner.len() == eh.len() + 1 + rest.len());
        assert(inner.subrange(0, eh.len() as int) =~= eh);
        lemma_slice_slice(s, i, inner, 0, eh.len() as int);
        assert(inner[eh.len() as int] == ',');
        assert(s[i + eh.len()] == ',') by {
            assert(inner[eh.len() as int] == s.subrange(i, i + inner.len() as int)[eh.len() as int]);
        }
        lemma_dec_enc(h, s, i);
        let j = i + eh.len() as int;
        assert(skip_ws(s, j) == j);
        assert(inner.subrange(eh.len() as int + 1, inner.len() as int) =~= rest);
        lemma_slice_slice(s, i, inner, eh.len() as int + 1, inner.len() as int);
        assert(wf_vals(es.drop_first()));
        lemma_dec_enc_elems(es.drop_first(), s, j + 1);
        assert(seq![h] + es.drop_first() =~= es);
        assert(dec_elems(s, i) == Some((es, i + inner.len() + 1)));
    }
}

/// As [`lemma_dec_enc`], for one object member: the quoted key, the colon,
/// and the value.
proof fn lemma_dec_enc_memb(m0: (Seq<char>, JsonVal), s: Seq<char>, i: int)
    requires
        wf_json(m0.1),
        0 <= i,
        i + enc_memb(m0).len() < s.len(),
        s.subrange(i, i + enc_memb(m0).len() as int) == enc_memb(m0),
        !num_char(s[i + enc_memb(m0).len()]),
    ensures
        s[i] == '"',
        enc_memb(m0).len() == enc_str_body(m0.0).len() + 3 + enc(m0.1).len(),
        dec_str_body(s, i + 1) == Some((m0.0, i + enc_str_body(m0.0).len() + 2)),
        s[i + enc_str_body(m0.0).len() + 2] == ':',
        dec_value(s, i + enc_str_body(m0.0).len() + 3) == Some(
            (m0.1, i + enc_memb(m0).len() as int),
        ),
    decreases m0, 1int,
{
    let em = enc_memb(m0);
    let kb = enc_str_body(m0.0).len() as int;
    assert(em == enc_string(m0.0) + seq![':'] + enc(m0.1));
    assert(em.len() == kb + 3 + enc(m0.1).len());
    lemma_slice_index(s, i, em);
    assert(em[0] == '"');
    assert(s[i] == '"');
    assert(em.subrange(1, 1 + kb) =~= enc_str_body(m0.0));
    lemma_slice_slice(s, i, em, 1, 1 + kb);
    assert(em[1 + kb] == '"');
    assert(s[i + 1 + kb] == '"');
    lemma_dec_enc_strbody(m0.0, s, i + 1);
    assert(em[kb + 2] == ':');
    assert(s[i + kb + 2] == ':');
    assert(em.subrange(kb + 3, em.len() as int) =~= enc(m0.1));
    lemma_slice_slice(s, i, em, kb + 3, em.len() as int);
    lemma_dec_enc(m0.1, s, i + kb + 3);
}

/// As [`lemma_dec_enc`], for the members of a non-empty object followed by
/// their closing brace.
#[verifier::rlimit(100)]
#[verifier::spinoff_prover]
proof fn lemma_dec_enc_membs(ms: Seq<(Seq<char>, JsonVal)>, s: Seq<char>, i: int)
    requires
        ms.len() > 0,
        wf_membs(ms),
        0 <= i,
        i + enc_membs(ms).len() < s.len(),
        s.subrange(i, i + enc_membs(ms).len() as int) == enc_membs(ms),
        s[i + enc_membs(ms).len()] == '}',
    ensures
        dec_membs(s, i) == Some((ms, i + enc_membs(ms).len() + 1)),
    decreases ms, 2int,
{
    let inner = enc_membs(ms);
    let m0 = ms[0];
    let em = enc_memb(m0);
    assert(wf_json(m0.1));
    if ms.len() == 1 {
        assert(inner == em);
    } else {
        assert(inner == em + seq![','] + enc_membs(ms.drop_first()));
        assert(inner.subrange(0, em.len() as int) =~= em);
    }
    lemma_slice_slice(s, i, inner, 0, em.len() as int);
    let vend = i + em.len() as int;
    if ms.len() == 1 {
        assert(s[vend] == '}');
    } else {
        assert(inner[em.len() as int] == ',');
        assert(s[vend] == ',') by {
            assert(inner[em.len() as int] == s.subrange(i, i + inner.len() as int)[em.len() as int]);
        }
    }
    lemma_dec_enc_memb(m0, s, i);
    let kb = enc_str_body(m0.0).len() as int;
    assert(skip_ws(s, i) == i);
    let k = i + kb + 2;
    assert(skip_ws(s, k) == k);
    assert(skip_ws(s, vend) == vend);
    if ms.len() == 1 {
        assert((m0.0, m0.1) == m0);
        assert(seq![(m0.0, m0.1)] =~= ms);
        assert(dec_membs(s, i) == Some((ms, i + inner.len() + 1)));
    } else {
        let rest = enc_membs(ms.drop_first());
        assert(inner.subrange(em.len() as int + 1, inner.len() as int) =~= rest);
        lemma_slice_slice(s, i, inner, em.len() as int + 1, inner.len() as int);
        assert(wf_membs(ms.drop_first()));
        lemma_dec_enc_membs(ms.drop_first(), s, vend + 1);
        assert((m0.0, m0.1) == m0);
        assert(seq![(m0.0, m0.1)] + ms.drop_first() =~= ms);
        assert(dec_membs(s, i) == Some((ms, i + inner.len() + 1)));
    }
}

/// Round trip: the canonical text of any well-formed value decodes back to
/// exactly that value.
pub proof fn lemma_round_trip(v: JsonVal)
    requires
        wf_json(v),
    ensures
        dec_document(enc(v)) == Some(v),
{
    let s = enc(v);
    assert(s.subrange(0, s.len() as int) =~= s);
    lemma_dec_enc(v, s, 0);
    assert(skip_ws(s, s.len() as int) == s.len());
}

/// Every value the decoder returns is well formed.
proof fn lemma_dec_value_wf(s: Seq<char>, i: int)
    ensures
        dec_value(s, i) matches Some((v, j)) ==> wf_json(v),
    decreases s.len() - i, 0int,
{
    if 0 <= i && i <= s.len() {
        let j = skip_ws(s, i);
        if i <= j && j < s.len() {
            let c = s[j];
            if c == '[' {
                let k = skip_ws(s, j + 1);
                if j + 1 <= k && k < s.len() {
                    if s[k] == ']' {
                        assert(wf_vals(Seq::<JsonVal>::empty()));
                    } else {
                        lemma_dec_elems_wf(s, j + 1);
                    }
                }
            } else if c == '{' {
                let k = skip_ws(s, j + 1);
                if j + 1 <= k && k < s.len() {
                    if s[k] == '}' {
                        assert(wf_membs(Seq::<(Seq<char>, JsonVal)>::empty()));
                    } else {
                        lemma_dec_membs_wf(s, j + 1);
                    }
                }
            }
        }
    }
}

proof fn lemma_dec_elems_wf(s: Seq<char>, i: int)
    ensures
        dec_elems(s, i) matches Some((es, j)) ==> wf_vals(es),
    decreases s.len() - i, 1int,
{
    if 0 <= i && i <= s.len() {
        lemma_dec_value_wf(s, i);
        match dec_value(s, i) {
            None => {},
            Some((v, j)) => {
                if i < j && j <= s.len() {
                    let k = skip_ws(s, j);
                    if j <= k && k < s.len() {
                        if s[k] == ',' {
                            lemma_dec_elems_wf(s, k + 1);
                            match dec_elems(s, k + 1) {
                                None => {},
                                Some((rest, m)) => {
                                    assert((seq![v] + rest).drop_first() =~= rest);
                                    assert((seq![v] + rest)[0] == v);
                                },
                            }
                        } else if s[k] == ']' {
                            assert(seq![v].drop_first() =~= Seq::<JsonVal>::empty());
                            assert(wf_vals(Seq::<JsonVal>::empty()));
                        }
                    }
                }
            },
        }
    }
}

proof fn lemma_dec_membs_wf(s: Seq<char>, i: int)
    ensures
        dec_membs(s, i) matches Some((ms, j)) ==> wf_membs(ms),
    decreases s.len() - i, 1int,
{
    if 0 <= i && i <= s.len() {
        let j = skip_ws(s, i);
        if i <= j && j < s.len() && s[j] == '"' {
            match dec_str_body(s, j + 1) {
                None => {},
                Some((key, k)) => {
                    if j + 1 < k && k <= s.len() {
                        let l = skip_ws(s, k);
                        if k <= l && l < s.len() && s[l] == ':' {
                            lemma_dec_value_wf(s, l + 1);
                            match dec_value(s, l + 1) {
                                None => {},
                                Some((v, m)) => {
                                    if i < m && m <= s.len() {
                                        let p = skip_ws(s, m);
                                        if m <= p && p < s.len() {
                                            if s[p] == ',' {
                                                lemma_dec_membs_wf(s, p + 1);
                                                match dec_membs(s, p + 1) {
                                                    None => {},
                                                    Some((rest, q)) => {
                                                        assert((seq![(key, v)]
                                                            + rest).drop_first() =~= rest);
                                                        assert((seq![(key, v)] + rest)[0]
                                                            == (key, v));
                                                    },
                                                }
                                            } else if s[p] == '}' {
                                                assert(seq![(key, v)].drop_first() =~= Seq::<(
                                                    Seq<char>,
                                                    JsonVal,
                                                )>::empty());
                                                assert(wf_membs(
                                                    Seq::<(Seq<char>, JsonVal)>::empty(),
                                                ));
                                            }
                                        }
                                    }
                                },
                            }
                        }
                    }
                },
            }
        }
    }
}

/// A sequence of values, each well formed, is well formed.
pub proof fn lemma_wf_vals_pointwise(es: Seq<JsonVal>)
    requires
        forall|p: int| 0 <= p < es.len() ==> wf_json(#[trigger] es[p]),
    ensures
        wf_vals(es),
    decreases es,
{
    if es.len() > 0 {
        assert forall|p: int| 0 <= p < es.drop_first().len() implies wf_json(
            #[trigger] es.drop_first()[p],
        ) by {
            assert(es.drop_first()[p] == es[p + 1]);
        }
        lemma_wf_vals_pointwise(es.drop_first());
    }
}

/// A sequence of members, each with a well-formed value, is well formed.
pub proof fn lemma_wf_membs_pointwise(ms: Seq<(Seq<char>, JsonVal)>)
    requires
        forall|p: int| 0 <= p < ms.len() ==> wf_json(#[trigger] ms[p].1),
    ensures
        wf_membs(ms),
    decreases ms,
{
    if ms.len() > 0 {
        assert forall|p: int| 0 <= p < ms.drop_first().len() implies wf_json(
            #[trigger] ms.drop_first()[p].1,
        ) by {
            assert(ms.drop_first()[p] == ms[p + 1]);
        }
        lemma_wf_membs_pointwise(ms.drop_first());
    }
}

/// Every document the decoder returns is well formed.
pub proof fn lemma_dec_document_wf(s: Seq<char>)
    ensures
        dec_document(s) matches Some(v) ==> wf_json(v),
{
    lemma_dec_value_wf(s, 0);
}

/// Parses a whole JSON document, as [`dec_document`] gives it.
pub fn parse_json(s: &str) -> (r: Option<Json>)
    ensures
        r is None <==> dec_document(s@) is None,
        r matches Some(v) ==> dec_document(s@) == Some(v@),
{
    let cs = chars_of(s);
    match parse_value(&cs, 0) {
        None => None,
        Some((v, j)) => {
            let k = eat_ws(&cs, j);
            if k == cs.len() {
                Some(v)
            } else {
                None
            }
        },
    }
}

} // verus!
