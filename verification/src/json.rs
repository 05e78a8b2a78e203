//! A JSON value model with a verified encoder and parser.
//!
//! Day partitions on disk and the messages exchanged with a
//! text-generation backend are JSON.  [`Json`] is the executable value
//! tree, [`JsonV`] its mathematical shape.  [`enc`] is the canonical
//! (whitespace-free) rendering; the parser accepts that rendering plus
//! insignificant whitespace, short escapes and `\u` escapes, and is
//! specified exactly by the spec-level parsing functions.
//!
//! Numbers are carried as their raw lexemes, never as machine numbers:
//! the crate's own records hold none, and foreign numbers only pass
//! through untouched.

use crate::text::{hchar, hex_val, is_digit, is_hex, push_char};
use vstd::prelude::*;

verus! {

broadcast use vstd::std_specs::vec::group_vec_axioms, vstd::seq::group_seq_axioms;

/// An executable JSON value.
pub enum Json {
    Null,
    Bool(bool),
    /// A number, as its raw lexeme.
    Num(String),
    Str(String),
    Arr(Vec<Json>),
    Obj(Vec<(String, Json)>),
}

/// The mathematical shape of a JSON value.
pub enum JsonV {
    Null,
    Bool(bool),
    Num(Seq<char>),
    Str(Seq<char>),
    Arr(Seq<JsonV>),
    Obj(Seq<(Seq<char>, JsonV)>),
}

/// The shape of an executable JSON value.
pub open spec fn jview(j: Json) -> JsonV
    decreases j,
{
    match j {
        Json::Null => JsonV::Null,
        Json::Bool(b) => JsonV::Bool(b),
        Json::Num(s) => JsonV::Num(s@),
        Json::Str(s) => JsonV::Str(s@),
        Json::Arr(es) => JsonV::Arr(
            Seq::new(
                es@.len(),
                |k: int|
                    if 0 <= k < es@.len() {
                        jview(es@[k])
                    } else {
                        JsonV::Null
                    },
            ),
        ),
        Json::Obj(ms) => JsonV::Obj(
            Seq::new(
                ms@.len(),
                |k: int|
                    if 0 <= k < ms@.len() {
                        (ms@[k].0@, jview(ms@[k].1))
                    } else {
                        (Seq::empty(), JsonV::Null)
                    },
            ),
        ),
    }
}

/// The shapes of a sequence of executable values.
pub open spec fn jseq(es: Seq<Json>) -> Seq<JsonV> {
    Seq::new(
        es.len(),
        |k: int|
            if 0 <= k < es.len() {
                jview(es[k])
            } else {
                JsonV::Null
            },
    )
}

/// The shapes of a sequence of executable members.
pub open spec fn mseq(ms: Seq<(String, Json)>) -> Seq<(Seq<char>, JsonV)> {
    Seq::new(
        ms.len(),
        |k: int|
            if 0 <= k < ms.len() {
                (ms[k].0@, jview(ms[k].1))
            } else {
                (Seq::empty(), JsonV::Null)
            },
    )
}

/// The shape of an array is the shape sequence of its elements, and
/// likewise for objects.
pub proof fn lemma_jview_composite(j: Json)
    ensures
        j matches Json::Arr(es) ==> jview(j) == JsonV::Arr(jseq(es@)),
        j matches Json::Obj(ms) ==> jview(j) == JsonV::Obj(mseq(ms@)),
{
    match j {
        Json::Arr(es) => {
            assert(jview(j)->Arr_0 =~= jseq(es@));
        }
        Json::Obj(ms) => {
            assert(jview(j)->Obj_0 =~= mseq(ms@));
        }
        _ => {}
    }
}

impl View for Json {
    type V = JsonV;

    open spec fn view(&self) -> JsonV {
        jview(*self)
    }
}

/// The escape sequence the encoder uses for one string character.
pub open spec fn esc_char(c: char) -> Seq<char> {
    if c == '"' {
        seq!['\\', '"']
    } else if c == '\\' {
        seq!['\\', '\\']
    } else if c == '\n' {
        seq!['\\', 'n']
    } else if c == '\r' {
        seq!['\\', 'r']
    } else if c == '\t' {
        seq!['\\', 't']
    } else if (c as u32) < 32 {
        seq!['\\', 'u', '0', '0', hchar(c as u32 as int / 16), hchar(c as u32 as int % 16)]
    } else {
        seq![c]
    }
}

/// The escaped form of a string body.
pub open spec fn esc_str(t: Seq<char>) -> Seq<char>
    decreases t.len(),
{
    if t.len() == 0 {
        Seq::empty()
    } else {
        esc_char(t[0]) + esc_str(t.drop_first())
    }
}

/// Escaping a string one character longer appends that character's escape.
pub proof fn lemma_esc_str_snoc(t: Seq<char>, c: char)
    ensures
        esc_str(t.push(c)) == esc_str(t) + esc_char(c),
    decreases t.len(),
{
    if t.len() == 0 {
        let p = t.push(c);
        assert(p[0] == c);
        assert(p.drop_first() =~= Seq::<char>::empty());
        assert(esc_str(p.drop_first()) == Seq::<char>::empty());
        assert(esc_str(p) == esc_char(c) + Seq::<char>::empty());
        assert(esc_char(c) + Seq::<char>::empty() =~= esc_char(c));
        assert(esc_str(t) + esc_char(c) =~= esc_char(c));
    } else {
        assert(t.push(c).drop_first() =~= t.drop_first().push(c));
        lemma_esc_str_snoc(t.drop_first(), c);
        assert(esc_str(t.push(c)) == esc_char(t[0]) + (esc_str(t.drop_first()) + esc_char(c)));
        assert(esc_char(t[0]) + (esc_str(t.drop_first()) + esc_char(c)) =~= (esc_char(t[0])
            + esc_str(t.drop_first())) + esc_char(c));
    }
}

/// The canonical rendering of a JSON value.
pub open spec fn enc(j: JsonV) -> Seq<char>
    decreases j,
{
    match j {
        JsonV::Null => seq!['n', 'u', 'l', 'l'],
        JsonV::Bool(b) => if b {
            seq!['t', 'r', 'u', 'e']
        } else {
            seq!['f', 'a', 'l', 's', 'e']
        },
        JsonV::Num(s) => s,
        JsonV::Str(t) => seq!['"'] + esc_str(t) + seq!['"'],
        JsonV::Arr(es) => if es.len() == 0 {
            seq!['[', ']']
        } else {
            seq!['['] + enc_elems(es) + seq![']']
        },
        JsonV::Obj(ms) => if ms.len() == 0 {
            seq!['{', '}']
        } else {
            seq!['{'] + enc_members(ms) + seq!['}']
        },
    }
}

/// The canonical rendering of a non-empty array's elements.
pub open spec fn enc_elems(es: Seq<JsonV>) -> Seq<char>
    decreases es,
{
    if es.len() == 0 {
        Seq::empty()
    } else if es.len() == 1 {
        enc(es[0])
    } else {
        enc(es[0]) + seq![','] + enc_elems(es.drop_first())
    }
}

/// The canonical rendering of a non-empty object's members.
pub open spec fn enc_members(ms: Seq<(Seq<char>, JsonV)>) -> Seq<char>
    decreases ms,
{
    if ms.len() == 0 {
        Seq::empty()
    } else {
        let head = seq!['"'] + esc_str(ms[0].0) + seq!['"', ':'] + enc(ms[0].1);
        if ms.len() == 1 {
            head
        } else {
            head + seq![','] + enc_members(ms.drop_first())
        }
    }
}

/// Unfolds the rendering of an element suffix by one element.
pub proof fn lemma_enc_elems_from(es: Seq<JsonV>, k: int)
    requires
        0 <= k < es.len(),
    ensures
        enc_elems(es.subrange(k, es.len() as int)) == enc(es[k]) + (if k + 1 < es.len() {
            seq![','] + enc_elems(es.subrange(k + 1, es.len() as int))
        } else {
            Seq::empty()
        }),
{
    let s = es.subrange(k, es.len() as int);
    assert(s[0] == es[k]);
    if k + 1 < es.len() {
        assert(s.drop_first() =~= es.subrange(k + 1, es.len() as int));
        assert(enc_elems(s) == enc(s[0]) + seq![','] + enc_elems(s.drop_first()));
        assert(enc(s[0]) + seq![','] + enc_elems(s.drop_first()) =~= enc(es[k]) + (seq![',']
            + enc_elems(es.subrange(k + 1, es.len() as int))));
    } else {
        assert(s.len() == 1);
        assert(enc_elems(s) == enc(s[0]));
        assert(enc(es[k]) + Seq::<char>::empty() =~= enc(es[k]));
    }
}

/// Unfolds the rendering of a member suffix by one member.
pub proof fn lemma_enc_members_from(ms: Seq<(Seq<char>, JsonV)>, k: int)
    requires
        0 <= k < ms.len(),
    ensures
        enc_members(ms.subrange(k, ms.len() as int)) == (seq!['"'] + esc_str(ms[k].0) + seq![
            '"',
            ':',
        ] + enc(ms[k].1)) + (if k + 1 < ms.len() {
            seq![','] + enc_members(ms.subrange(k + 1, ms.len() as int))
        } else {
            Seq::empty()
        }),
{
    let s = ms.subrange(k, ms.len() as int);
    assert(s[0] == ms[k]);
    let head = seq!['"'] + esc_str(s[0].0) + seq!['"', ':'] + enc(s[0].1);
    if k + 1 < ms.len() {
        assert(s.drop_first() =~= ms.subrange(k + 1, ms.len() as int));
        assert(enc_members(s) == head + seq![','] + enc_members(s.drop_first()));
        assert(head + seq![','] + enc_members(s.drop_first()) =~= head + (seq![',']
            + enc_members(ms.subrange(k + 1, ms.len() as int))));
    } else {
        assert(s.len() == 1);
        assert(enc_members(s) == head);
        assert(head + Seq::<char>::empty() =~= head);
    }
}

/// Appends the escape of one string character.
pub fn esc_char_into(c: char, out: &mut Vec<char>)
    ensures
        final(out)@ == old(out)@ + esc_char(c),
{
    let ghost out0 = out@;
    if c == '"' {
        out.push('\\');
        out.push('"');
    } else if c == '\\' {
        out.push('\\');
        out.push('\\');
    } else if c == '\n' {
        out.push('\\');
        out.push('n');
    } else if c == '\r' {
        out.push('\\');
        out.push('r');
    } else if c == '\t' {
        out.push('\\');
        out.push('t');
    } else if (c as u32) < 32 {
        out.push('\\');
        out.push('u');
        out.push('0');
        out.push('0');
        out.push(crate::text::hchar_x((c as u32) / 16));
        out.push(crate::text::hchar_x((c as u32) % 16));
    } else {
        out.push(c);
    }
    proof {
        assert(out@ =~= out0 + esc_char(c));
    }
}

/// Appends the escaped body of a string.
pub fn esc_str_into(t: &str, out: &mut Vec<char>)
    ensures
        final(out)@ == old(out)@ + esc_str(t@),
{
    let ghost out0 = out@;
    let n = t.unicode_len();
    let mut i: usize = 0;
    while i < n
        invariant
            n == t@.len(),
            i <= n,
            out@ == out0 + esc_str(t@.subrange(0, i as int)),
        decreases n - i,
    {
        let c = t.get_char(i);
        esc_char_into(c, out);
        proof {
            lemma_esc_str_snoc(t@.subrange(0, i as int), c);
            assert(t@.subrange(0, i as int).push(c) =~= t@.subrange(0, i as int + 1));
            assert(out@ =~= out0 + esc_str(t@.subrange(0, i as int + 1)));
        }
        i = i + 1;
    }
    proof {
        assert(t@.subrange(0, n as int) =~= t@);
    }
}

/// Appends the characters of a string unchanged.
pub fn raw_str_into(t: &str, out: &mut Vec<char>)
    ensures
        final(out)@ == old(out)@ + t@,
{
    let ghost out0 = out@;
    let n = t.unicode_len();
    let mut i: usize = 0;
    while i < n
        invariant
            n == t@.len(),
            i <= n,
            out@ == out0 + t@.subrange(0, i as int),
        decreases n - i,
    {
        out.push(t.get_char(i));
        proof {
            assert(out@ =~= out0 + t@.subrange(0, i as int + 1));
        }
        i = i + 1;
    }
    proof {
        assert(t@.subrange(0, n as int) =~= t@);
    }
}

/// Appends the canonical rendering of `j`.
#[verifier::loop_isolation(false)]
#[verifier::rlimit(100)]
pub fn enc_into(j: &Json, out: &mut Vec<char>)
    ensures
        final(out)@ == old(out)@ + enc(j@),
    decreases *j,
{
    let ghost out0 = out@;
    match j {
        Json::Null => {
            out.push('n');
            out.push('u');
            out.push('l');
            out.push('l');
            proof {
                assert(out@ =~= out0 + enc(j@));
            }
        }
        Json::Bool(b) => {
            if *b {
                out.push('t');
                out.push('r');
                out.push('u');
                out.push('e');
            } else {
                out.push('f');
                out.push('a');
                out.push('l');
                out.push('s');
                out.push('e');
            }
            proof {
                assert(out@ =~= out0 + enc(j@));
            }
        }
        Json::Num(s) => {
            raw_str_into(s.as_str(), out);
        }
        Json::Str(t) => {
            out.push('"');
            esc_str_into(t.as_str(), out);
            out.push('"');
            proof {
                assert(out@ =~= out0 + enc(j@));
            }
        }
        Json::Arr(es) => {
            let ghost evs = j@->Arr_0;
            out.push('[');
            let n = es.len();
            if n == 0 {
                out.push(']');
                proof {
                    assert(out@ =~= out0 + enc(j@));
                }
                return;
            }
            proof {
                assert(evs.subrange(0, n as int) =~= evs);
            }
            let mut k: usize = 0;
            while k < n
                invariant
                    n == es@.len(),
                    n == evs.len(),
                    n > 0,
                    k <= n,
                    j@ == JsonV::Arr(evs),
                    forall|x: int| 0 <= x < n ==> evs[x] == jview(es@[x]),
                    enc(j@) == seq!['['] + enc_elems(evs) + seq![']'],
                    out@ + enc_elems(evs.subrange(k as int, n as int)) =~= out0 + seq!['[']
                        + enc_elems(evs),
                decreases n - k,
            {
                enc_into(&es[k], out);
                if k + 1 < n {
                    out.push(',');
                }
                proof {
                    lemma_enc_elems_from(evs, k as int);
                    if k + 1 < n {
                        assert(out@ + enc_elems(evs.subrange(k as int + 1, n as int)) =~= out0
                            + seq!['['] + enc_elems(evs));
                    } else {
                        assert(evs.subrange(k as int + 1, n as int) =~= Seq::<JsonV>::empty());
                        assert(out@ + enc_elems(evs.subrange(k as int + 1, n as int)) =~= out0
                            + seq!['['] + enc_elems(evs));
                    }
                }
                k = k + 1;
            }
            out.push(']');
            proof {
                assert(evs.subrange(n as int, n as int) =~= Seq::<JsonV>::empty());
                assert(out@ =~= out0 + enc(j@));
            }
        }
        Json::Obj(ms) => {
            let ghost mvs = j@->Obj_0;
            out.push('{');
            let n = ms.len();
            if n == 0 {
                out.push('}');
                proof {
                    assert(out@ =~= out0 + enc(j@));
                }
                return;
            }
            proof {
                assert(mvs.subrange(0, n as int) =~= mvs);
            }
            let mut k: usize = 0;
            while k < n
                invariant
                    n == ms@.len(),
                    n == mvs.len(),
                    n > 0,
                    k <= n,
                    j@ == JsonV::Obj(mvs),
                    forall|x: int|
                        0 <= x < n ==> mvs[x] == (ms@[x].0@, jview(ms@[x].1)),
                    enc(j@) == seq!['{'] + enc_members(mvs) + seq!['}'],
                    out@ + enc_members(mvs.subrange(k as int, n as int)) =~= out0 + seq!['{']
                        + enc_members(mvs),
                decreases n - k,
            {
                out.push('"');
                esc_str_into(ms[k].0.as_str(), out);
                out.push('"');
                out.push(':');
                enc_into(&ms[k].1, out);
                if k + 1 < n {
                    out.push(',');
                }
                proof {
                    lemma_enc_members_from(mvs, k as int);
                    if k + 1 < n {
                        assert(out@ + enc_members(mvs.subrange(k as int + 1, n as int)) =~= out0
                            + seq!['{'] + enc_members(mvs));
                    } else {
                        assert(mvs.subrange(k as int + 1, n as int) =~= Seq::<(
                            Seq<char>,
                            JsonV,
                        )>::empty());
                        assert(out@ + enc_members(mvs.subrange(k as int + 1, n as int)) =~= out0
                            + seq!['{'] + enc_members(mvs));
                    }
                }
                k = k + 1;
            }
            out.push('}');
            proof {
                assert(mvs.subrange(n as int, n as int) =~= Seq::<(Seq<char>, JsonV)>::empty());
                assert(out@ =~= out0 + enc(j@));
            }
        }
    }
}

/// The canonical rendering of `j`, as a string.
pub fn encode_json(j: &Json) -> (s: String)
    ensures
        s@ == enc(j@),
{
    let mut out: Vec<char> = Vec::new();
    enc_into(j, &mut out);
    proof {
        assert(out@ =~= enc(j@));
    }
    crate::text::chars_to_string(&out)
}

/// A character that may continue a number lexeme.
pub open spec fn num_cont(c: char) -> bool {
    is_digit(c) || c == '.' || c == 'e' || c == 'E' || c == '+' || c == '-'
}

/// A number lexeme the parser would read back as one token: it starts
/// with a sign or digit and continues with number characters only.
pub open spec fn wf_num(s: Seq<char>) -> bool {
    &&& s.len() > 0
    &&& (s[0] == '-' || is_digit(s[0]))
    &&& forall|k: int| 0 < k < s.len() ==> num_cont(#[trigger] s[k])
}

/// A value whose number lexemes are all well formed.
pub open spec fn wf_json(j: JsonV) -> bool
    decreases j,
{
    match j {
        JsonV::Null => true,
        JsonV::Bool(_) => true,
        JsonV::Num(s) => wf_num(s),
        JsonV::Str(_) => true,
        JsonV::Arr(es) => forall|k: int| 0 <= k < es.len() ==> wf_json(#[trigger] es[k]),
        JsonV::Obj(ms) => forall|k: int| 0 <= k < ms.len() ==> wf_json(#[trigger] ms[k].1),
    }
}

/// A value holding no number at all.
pub open spec fn num_free(j: JsonV) -> bool
    decreases j,
{
    match j {
        JsonV::Null => true,
        JsonV::Bool(_) => true,
        JsonV::Num(_) => false,
        JsonV::Str(_) => true,
        JsonV::Arr(es) => forall|k: int| 0 <= k < es.len() ==> num_free(#[trigger] es[k]),
        JsonV::Obj(ms) => forall|k: int| 0 <= k < ms.len() ==> num_free(#[trigger] ms[k].1),
    }
}

/// JSON insignificant whitespace.
pub open spec fn is_ws(c: char) -> bool {
    c == ' ' || c == '\n' || c == '\r' || c == '\t'
}

/// The first position at or after `i` holding no whitespace.
pub open spec fn skip_ws(s: Seq<char>, i: int) -> int
    decreases s.len() - i
        when 0 <= i <= s.len()
{
    if i < s.len() && is_ws(s[i]) {
        skip_ws(s, i + 1)
    } else {
        i
    }
}

/// `skip_ws` stays within the string and moves only forward.
pub proof fn lemma_skip_ws(s: Seq<char>, i: int)
    requires
        0 <= i <= s.len(),
    ensures
        i <= skip_ws(s, i) <= s.len(),
        skip_ws(s, i) < s.len() ==> !is_ws(s[skip_ws(s, i)]),
        i < s.len() && !is_ws(s[i]) ==> skip_ws(s, i) == i,
    decreases s.len() - i,
{
    if i < s.len() && is_ws(s[i]) {
        lemma_skip_ws(s, i + 1);
    }
}

/// The end of the number lexeme that starts before `i`.
pub open spec fn num_end(s: Seq<char>, i: int) -> int
    decreases s.len() - i
        when 0 <= i <= s.len()
{
    if i < s.len() && num_cont(s[i]) {
        num_end(s, i + 1)
    } else {
        i
    }
}

/// `num_end` stays within the string and moves only forward.
pub proof fn lemma_num_end(s: Seq<char>, i: int)
    requires
        0 <= i <= s.len(),
    ensures
        i <= num_end(s, i) <= s.len(),
    decreases s.len() - i,
{
    if i < s.len() && num_cont(s[i]) {
        lemma_num_end(s, i + 1);
    }
}

/// Whether `code` is a Unicode scalar value.
pub open spec fn is_scalar(code: int) -> bool {
    (0 <= code < 0xD800) || (0xE000 <= code <= 0x10FFFF)
}

/// The code of a character.
pub open spec fn char_code(c: char) -> int {
    (c as u32) as int
}

/// The character with code `code`, for scalar codes.
pub open spec fn char_of(code: int) -> char {
    choose|c: char| char_code(c) == code
}

/// `char_of` inverts taking a character's code.
pub proof fn lemma_char_of_code(c: char)
    ensures
        char_of(char_code(c)) == c,
{
    let c2 = char_of(char_code(c));
    assert(char_code(c2) == char_code(c)) by {
        assert(exists|x: char| char_code(x) == char_code(c));
    }
    assert(c2 as u32 == c as u32);
    vstd::utf8::char_u32_cast(c2, c2 as u32);
    vstd::utf8::char_u32_cast(c, c as u32);
    assert(c2 == c);
}

/// The character a short escape stands for, if the letter is one.
pub open spec fn esc_short(e: char) -> Option<char> {
    if e == '"' {
        Some('"')
    } else if e == '\\' {
        Some('\\')
    } else if e == '/' {
        Some('/')
    } else if e == 'n' {
        Some('\n')
    } else if e == 'r' {
        Some('\r')
    } else if e == 't' {
        Some('\t')
    } else if e == 'b' {
        Some('\u{0008}')
    } else if e == 'f' {
        Some('\u{000C}')
    } else {
        None
    }
}

/// Parses a string body starting at `i` (just after the opening quote),
/// up to and including the closing quote.
pub open spec fn parse_str_body(s: Seq<char>, i: int) -> Option<(Seq<char>, int)>
    decreases s.len() - i
        when 0 <= i <= s.len()
{
    if i >= s.len() {
        None
    } else if s[i] == '"' {
        Some((Seq::empty(), i + 1))
    } else if s[i] == '\\' {
        if i + 1 >= s.len() {
            None
        } else if s[i + 1] == 'u' {
            if i + 6 > s.len() {
                None
            } else if is_hex(s[i + 2]) && is_hex(s[i + 3]) && is_hex(s[i + 4]) && is_hex(
                s[i + 5],
            ) {
                let code = hex_val(s[i + 2]) * 4096 + hex_val(s[i + 3]) * 256 + hex_val(s[i + 4])
                    * 16 + hex_val(s[i + 5]);
                if is_scalar(code) {
                    match parse_str_body(s, i + 6) {
                        Some((t, j)) => Some((seq![char_of(code)] + t, j)),
                        None => None,
                    }
                } else {
                    None
                }
            } else {
                None
            }
        } else {
            match esc_short(s[i + 1]) {
                Some(c) => match parse_str_body(s, i + 2) {
                    Some((t, j)) => Some((seq![c] + t, j)),
                    None => None,
                },
                None => None,
            }
        }
    } else {
        match parse_str_body(s, i + 1) {
            Some((t, j)) => Some((seq![s[i]] + t, j)),
            None => None,
        }
    }
}

/// A parsed string body ends after where it began, within the string.
pub proof fn lemma_parse_str_body_bounds(s: Seq<char>, i: int)
    requires
        0 <= i <= s.len(),
        parse_str_body(s, i) is Some,
    ensures
        i < parse_str_body(s, i)->Some_0.1 <= s.len(),
    decreases s.len() - i,
{
    if i >= s.len() {
    } else if s[i] == '"' {
    } else if s[i] == '\\' {
        if i + 1 >= s.len() {
        } else if s[i + 1] == 'u' {
            if i + 6 <= s.len() && parse_str_body(s, i + 6) is Some {
                lemma_parse_str_body_bounds(s, i + 6);
            }
        } else {
            if parse_str_body(s, i + 2) is Some {
                lemma_parse_str_body_bounds(s, i + 2);
            }
        }
    } else {
        if parse_str_body(s, i + 1) is Some {
            lemma_parse_str_body_bounds(s, i + 1);
        }
    }
}

/// Parses one JSON value starting at `i`, leading whitespace allowed.
pub open spec fn parse_value(s: Seq<char>, i: int) -> Option<(JsonV, int)>
    decreases s.len() - i, 0int
        when 0 <= i <= s.len()
{
    if i >= s.len() {
        None
    } else if is_ws(s[i]) {
        parse_value(s, i + 1)
    } else if s[i] == 'n' {
        if i + 4 <= s.len() && s[i + 1] == 'u' && s[i + 2] == 'l' && s[i + 3] == 'l' {
            Some((JsonV::Null, i + 4))
        } else {
            None
        }
    } else if s[i] == 't' {
        if i + 4 <= s.len() && s[i + 1] == 'r' && s[i + 2] == 'u' && s[i + 3] == 'e' {
            Some((JsonV::Bool(true), i + 4))
        } else {
            None
        }
    } else if s[i] == 'f' {
        if i + 5 <= s.len() && s[i + 1] == 'a' && s[i + 2] == 'l' && s[i + 3] == 's' && s[i + 4]
            == 'e' {
            Some((JsonV::Bool(false), i + 5))
        } else {
            None
        }
    } else if s[i] == '"' {
        match parse_str_body(s, i + 1) {
            Some((t, j)) => Some((JsonV::Str(t), j)),
            None => None,
        }
    } else if s[i] == '[' {
        let k = skip_ws(s, i + 1);
        if i < k && k < s.len() && s[k] == ']' {
            Some((JsonV::Arr(Seq::empty()), k + 1))
        } else if i < k && k < s.len() {
            match parse_elems(s, k) {
                Some((es, m)) => Some((JsonV::Arr(es), m)),
                None => None,
            }
        } else {
            None
        }
    } else if s[i] == '{' {
        let k = skip_ws(s, i + 1);
        if i < k && k < s.len() && s[k] == '}' {
            Some((JsonV::Obj(Seq::empty()), k + 1))
        } else if i < k && k < s.len() {
            match parse_members(s, k) {
                Some((ms, m)) => Some((JsonV::Obj(ms), m)),
                None => None,
            }
        } else {
            None
        }
    } else if s[i] == '-' || is_digit(s[i]) {
        let e = num_end(s, i + 1);
        if i + 1 <= e && e <= s.len() {
            Some((JsonV::Num(s.subrange(i, e)), e))
        } else {
            None
        }
    } else {
        None
    }
}

/// Parses the elements of an array from the first element on, up to and
/// including the closing bracket.
pub open spec fn parse_elems(s: Seq<char>, i: int) -> Option<(Seq<JsonV>, int)>
    decreases s.len() - i, 1int
        when 0 <= i <= s.len()
{
    match parse_value(s, i) {
        Some((v, j)) => if i < j && j <= s.len() {
            let k = skip_ws(s, j);
            if j <= k && k < s.len() {
                if s[k] == ']' {
                    Some((seq![v], k + 1))
                } else if s[k] == ',' {
                    match parse_elems(s, k + 1) {
                        Some((es, m)) => Some((seq![v] + es, m)),
                        None => None,
                    }
                } else {
                    None
                }
            } else {
                None
            }
        } else {
            None
        },
        None => None,
    }
}

/// Parses the members of an object from the first key on (leading
/// whitespace allowed), up to and including the closing brace.
pub open spec fn parse_members(s: Seq<char>, i: int) -> Option<(Seq<(Seq<char>, JsonV)>, int)>
    decreases s.len() - i, 1int
        when 0 <= i <= s.len()
{
    let k0 = skip_ws(s, i);
    if i <= k0 && k0 < s.len() && s[k0] == '"' {
        match parse_str_body(s, k0 + 1) {
            Some((key, j)) => if k0 < j && j <= s.len() {
                let k = skip_ws(s, j);
                if j <= k && k < s.len() && s[k] == ':' {
                    match parse_value(s, k + 1) {
                        Some((v, j2)) => if k < j2 && j2 <= s.len() {
                            let k2 = skip_ws(s, j2);
                            if j2 <= k2 && k2 < s.len() {
                                if s[k2] == '}' {
                                    Some((seq![(key, v)], k2 + 1))
                                } else if s[k2] == ',' {
                                    match parse_members(s, k2 + 1) {
                                        Some((ms, m)) => Some((seq![(key, v)] + ms, m)),
                                        None => None,
                                    }
                                } else {
                                    None
                                }
                            } else {
                                None
                            }
                        } else {
                            None
                        },
                        None => None,
                    }
                } else {
                    None
                }
            } else {
                None
            },
            None => None,
        }
    } else {
        None
    }
}

/// Parses a whole document: one value, with only whitespace around it.
pub open spec fn parse_json(s: Seq<char>) -> Option<JsonV> {
    match parse_value(s, 0) {
        Some((v, j)) => if 0 <= j <= s.len() && skip_ws(s, j) == s.len() {
            Some(v)
        } else {
            None
        },
        None => None,
    }
}

/// Skipping leading whitespace does not change what a value parse sees.
pub proof fn lemma_parse_value_skip_ws(s: Seq<char>, i: int)
    requires
        0 <= i <= s.len(),
    ensures
        parse_value(s, i) == parse_value(s, skip_ws(s, i)),
    decreases s.len() - i,
{
    if i < s.len() && is_ws(s[i]) {
        lemma_parse_value_skip_ws(s, i + 1);
    }
}

/// Whether `c` is JSON whitespace.
pub fn is_ws_x(c: char) -> (r: bool)
    ensures
        r == is_ws(c),
{
    c == ' ' || c == '\n' || c == '\r' || c == '\t'
}

/// Whether `c` may continue a number lexeme.
pub fn num_cont_x(c: char) -> (r: bool)
    ensures
        r == num_cont(c),
{
    crate::text::digit_val_x(c) >= 0 || c == '.' || c == 'e' || c == 'E' || c == '+' || c == '-'
}

/// The character a short escape letter stands for.
pub fn esc_short_x(e: char) -> (r: Option<char>)
    ensures
        r == esc_short(e),
{
    if e == '"' {
        Some('"')
    } else if e == '\\' {
        Some('\\')
    } else if e == '/' {
        Some('/')
    } else if e == 'n' {
        Some('\n')
    } else if e == 'r' {
        Some('\r')
    } else if e == 't' {
        Some('\t')
    } else if e == 'b' {
        Some('\u{0008}')
    } else if e == 'f' {
        Some('\u{000C}')
    } else {
        None
    }
}

/// Advances past JSON whitespace.
pub fn skip_ws_x(s: &Vec<char>, i: usize) -> (r: usize)
    requires
        i <= s@.len(),
    ensures
        r as int == skip_ws(s@, i as int),
        i <= r <= s@.len(),
{
    let mut cur = i;
    while cur < s.len() && is_ws_x(s[cur])
        invariant
            i <= cur <= s@.len(),
            skip_ws(s@, i as int) == skip_ws(s@, cur as int),
        decreases s@.len() - cur,
    {
        cur = cur + 1;
    }
    cur
}

/// Advances past number characters.
pub fn num_end_x(s: &Vec<char>, i: usize) -> (r: usize)
    requires
        i <= s@.len(),
    ensures
        r as int == num_end(s@, i as int),
        i <= r <= s@.len(),
{
    let mut cur = i;
    while cur < s.len() && num_cont_x(s[cur])
        invariant
            i <= cur <= s@.len(),
            num_end(s@, i as int) == num_end(s@, cur as int),
        decreases s@.len() - cur,
    {
        cur = cur + 1;
    }
    cur
}

/// Copies the characters of `s` between `i` and `j`.
pub fn vec_char_range(s: &Vec<char>, i: usize, j: usize) -> (r: Vec<char>)
    requires
        i <= j <= s@.len(),
    ensures
        r@ == s@.subrange(i as int, j as int),
{
    let mut r: Vec<char> = Vec::new();
    let mut k = i;
    while k < j
        invariant
            i <= k <= j <= s@.len(),
            r@ == s@.subrange(i as int, k as int),
        decreases j - k,
    {
        r.push(s[k]);
        proof {
            assert(r@ =~= s@.subrange(i as int, k as int + 1));
        }
        k = k + 1;
    }
    r
}

/// Parses a string body, from just after the opening quote through the
/// closing quote.
#[verifier::loop_isolation(false)]
#[verifier::rlimit(60)]
pub fn p_str_body(s: &Vec<char>, i: usize) -> (r: Option<(String, usize)>)
    requires
        i <= s@.len(),
    ensures
        (match r {
            Some(p) => parse_str_body(s@, i as int) == Some((p.0@, p.1 as int)) && i < p.1
                && p.1 <= s@.len(),
            None => parse_str_body(s@, i as int) is None,
        }),
{
    let mut acc = String::new();
    let mut cur = i;
    loop
        invariant
            i <= cur <= s@.len(),
            (match parse_str_body(s@, cur as int) {
                Some(p) => parse_str_body(s@, i as int) == Some((acc@ + p.0, p.1)),
                None => parse_str_body(s@, i as int) is None,
            }),
        decreases s@.len() - cur,
    {
        if cur >= s.len() {
            return None;
        }
        let c = s[cur];
        if c == '"' {
            proof {
                assert(parse_str_body(s@, cur as int) == Some((Seq::<char>::empty(), cur as int
                    + 1)));
                assert(acc@ + Seq::<char>::empty() =~= acc@);
                lemma_parse_str_body_bounds(s@, i as int);
            }
            return Some((acc, cur + 1));
        } else if c == '\\' {
            if s.len() - cur < 2 {
                return None;
            }
            let e1 = s[cur + 1];
            if e1 == 'u' {
                if s.len() - cur < 6 {
                    return None;
                }
                let h2 = crate::text::hex_val_x(s[cur + 2]);
                let h3 = crate::text::hex_val_x(s[cur + 3]);
                let h4 = crate::text::hex_val_x(s[cur + 4]);
                let h5 = crate::text::hex_val_x(s[cur + 5]);
                if h2 < 0 || h3 < 0 || h4 < 0 || h5 < 0 {
                    return None;
                }
                let code: u32 = (h2 as u32) * 4096 + (h3 as u32) * 256 + (h4 as u32) * 16 + (
                h5 as u32);
                match crate::text::char_from_u32(code) {
                    Some(ch) => {
                        proof {
                            assert(char_code(ch) == code as int);
                            assert(char_code(char_of(code as int)) == code as int) by {
                                assert(exists|x: char| char_code(x) == code as int);
                            }
                            assert(char_of(code as int) as u32 == ch as u32);
                            vstd::utf8::char_u32_cast(ch, ch as u32);
                            vstd::utf8::char_u32_cast(char_of(code as int), ch as u32);
                            assert(char_of(code as int) == ch);
                            let tail = parse_str_body(s@, cur as int + 6);
                            if tail is Some {
                                assert(parse_str_body(s@, cur as int) == Some((
                                    seq![ch] + tail->Some_0.0,
                                    tail->Some_0.1,
                                )));
                                assert((acc@.push(ch)) + tail->Some_0.0 =~= acc@ + (seq![ch]
                                    + tail->Some_0.0));
                            } else {
                                assert(parse_str_body(s@, cur as int) is None);
                            }
                        }
                        push_char(&mut acc, ch);
                        cur = cur + 6;
                    }
                    None => {
                        return None;
                    }
                }
            } else {
                match esc_short_x(e1) {
                    Some(ch) => {
                        proof {
                            let tail = parse_str_body(s@, cur as int + 2);
                            if tail is Some {
                                assert(parse_str_body(s@, cur as int) == Some((
                                    seq![ch] + tail->Some_0.0,
                                    tail->Some_0.1,
                                )));
                                assert((acc@.push(ch)) + tail->Some_0.0 =~= acc@ + (seq![ch]
                                    + tail->Some_0.0));
                            } else {
                                assert(parse_str_body(s@, cur as int) is None);
                            }
                        }
                        push_char(&mut acc, ch);
                        cur = cur + 2;
                    }
                    None => {
                        return None;
                    }
                }
            }
        } else {
            proof {
                let tail = parse_str_body(s@, cur as int + 1);
                if tail is Some {
                    assert(parse_str_body(s@, cur as int) == Some((
                        seq![c] + tail->Some_0.0,
                        tail->Some_0.1,
                    )));
                    assert((acc@.push(c)) + tail->Some_0.0 =~= acc@ + (seq![c] + tail->Some_0.0));
                } else {
                    assert(parse_str_body(s@, cur as int) is None);
                }
            }
            push_char(&mut acc, c);
            cur = cur + 1;
        }
    }
}

/// Parses one JSON value starting at `i`, leading whitespace allowed.
#[verifier::loop_isolation(false)]
#[verifier::rlimit(100)]
pub fn p_value(s: &Vec<char>, i: usize) -> (r: Option<(Json, usize)>)
    requires
        i <= s@.len(),
    ensures
        (match r {
            Some(p) => parse_value(s@, i as int) == Some((p.0@, p.1 as int)) && i < p.1
                && p.1 <= s@.len(),
            None => parse_value(s@, i as int) is None,
        }),
    decreases s@.len() - i,
{
    proof {
        lemma_skip_ws(s@, i as int);
        lemma_parse_value_skip_ws(s@, i as int);
    }
    let i0 = skip_ws_x(s, i);
    if i0 >= s.len() {
        return None;
    }
    let c = s[i0];
    if c == 'n' {
        if s.len() - i0 >= 4 && s[i0 + 1] == 'u' && s[i0 + 2] == 'l' && s[i0 + 3] == 'l' {
            Some((Json::Null, i0 + 4))
        } else {
            None
        }
    } else if c == 't' {
        if s.len() - i0 >= 4 && s[i0 + 1] == 'r' && s[i0 + 2] == 'u' && s[i0 + 3] == 'e' {
            Some((Json::Bool(true), i0 + 4))
        } else {
            None
        }
    } else if c == 'f' {
        if s.len() - i0 >= 5 && s[i0 + 1] == 'a' && s[i0 + 2] == 'l' && s[i0 + 3] == 's' && s[i0
            + 4] == 'e' {
            Some((Json::Bool(false), i0 + 5))
        } else {
            None
        }
    } else if c == '"' {
        match p_str_body(s, i0 + 1) {
            Some(p) => Some((Json::Str(p.0), p.1)),
            None => None,
        }
    } else if c == '[' {
        proof {
            lemma_skip_ws(s@, i0 as int + 1);
        }
        let k = skip_ws_x(s, i0 + 1);
        if k >= s.len() {
            return None;
        }
        if s[k] == ']' {
            let out = Json::Arr(Vec::new());
            proof {
                lemma_jview_composite(out);
                assert(jseq(Seq::<Json>::empty()) =~= Seq::<JsonV>::empty());
            }
            return Some((out, k + 1));
        }
        let mut acc: Vec<Json> = Vec::new();
        let mut cur = k;
        proof {
            if parse_elems(s@, k as int) is Some {
                let q = parse_elems(s@, k as int)->Some_0;
                assert(jseq(acc@) + q.0 =~= q.0);
            }
        }
        loop
            invariant
                k <= cur <= s@.len(),
                (match parse_elems(s@, cur as int) {
                    Some(q) => parse_elems(s@, k as int) == Some((jseq(acc@) + q.0, q.1)),
                    None => parse_elems(s@, k as int) is None,
                }),
            decreases s@.len() - cur,
        {
            match p_value(s, cur) {
                Some(p) => {
                    let v = p.0;
                    let j = p.1;
                    let k2 = skip_ws_x(s, j);
                    if k2 >= s.len() {
                        return None;
                    }
                    if s[k2] == ']' {
                        let ghost acc0 = acc@;
                        acc.push(v);
                        proof {
                            assert(jseq(acc@) =~= jseq(acc0) + seq![v@]);
                            assert(parse_elems(s@, cur as int) == Some((seq![v@], k2 as int + 1)));
                        }
                        let out = Json::Arr(acc);
                        proof {
                            lemma_jview_composite(out);
                        }
                        return Some((out, k2 + 1));
                    } else if s[k2] == ',' {
                        let ghost acc0 = acc@;
                        acc.push(v);
                        proof {
                            assert(jseq(acc@) =~= jseq(acc0) + seq![v@]);
                            if parse_elems(s@, k2 as int + 1) is Some {
                                let q = parse_elems(s@, k2 as int + 1)->Some_0;
                                assert(parse_elems(s@, cur as int) == Some((
                                    seq![v@] + q.0,
                                    q.1,
                                )));
                                assert(jseq(acc0) + (seq![v@] + q.0) =~= jseq(acc@) + q.0);
                            } else {
                                assert(parse_elems(s@, cur as int) is None);
                            }
                        }
                        cur = k2 + 1;
                    } else {
                        return None;
                    }
                }
                None => {
                    return None;
                }
            }
        }
    } else if c == '{' {
        proof {
            lemma_skip_ws(s@, i0 as int + 1);
        }
        let k = skip_ws_x(s, i0 + 1);
        if k >= s.len() {
            return None;
        }
        if s[k] == '}' {
            let out = Json::Obj(Vec::new());
            proof {
                lemma_jview_composite(out);
                assert(mseq(Seq::<(String, Json)>::empty()) =~= Seq::<(Seq<char>, JsonV)>::empty());
            }
            return Some((out, k + 1));
        }
        let mut acc: Vec<(String, Json)> = Vec::new();
        let mut cur = k;
        proof {
            if parse_members(s@, k as int) is Some {
                let q = parse_members(s@, k as int)->Some_0;
                assert(mseq(acc@) + q.0 =~= q.0);
            }
        }
        loop
            invariant
                k <= cur <= s@.len(),
                (match parse_members(s@, cur as int) {
                    Some(q) => parse_members(s@, k as int) == Some((mseq(acc@) + q.0, q.1)),
                    None => parse_members(s@, k as int) is None,
                }),
            decreases s@.len() - cur,
        {
            let curk = skip_ws_x(s, cur);
            if curk >= s.len() {
                return None;
            }
            if s[curk] != '"' {
                return None;
            }
            match p_str_body(s, curk + 1) {
                Some(kp) => {
                    let key = kp.0;
                    let j = kp.1;
                    let k1 = skip_ws_x(s, j);
                    if k1 >= s.len() {
                        return None;
                    }
                    if s[k1] != ':' {
                        return None;
                    }
                    match p_value(s, k1 + 1) {
                        Some(vp) => {
                            let v = vp.0;
                            let j2 = vp.1;
                            let k2 = skip_ws_x(s, j2);
                            if k2 >= s.len() {
                                return None;
                            }
                            if s[k2] == '}' {
                                let ghost acc0 = acc@;
                                let ghost keyv = key@;
                                acc.push((key, v));
                                proof {
                                    assert(mseq(acc@) =~= mseq(acc0) + seq![(keyv, v@)]);
                                    assert(parse_members(s@, cur as int) == Some((
                                        seq![(keyv, v@)],
                                        k2 as int + 1,
                                    )));
                                }
                                let out = Json::Obj(acc);
                                proof {
                                    lemma_jview_composite(out);
                                }
                                return Some((out, k2 + 1));
                            } else if s[k2] == ',' {
                                let ghost acc0 = acc@;
                                let ghost keyv = key@;
                                acc.push((key, v));
                                proof {
                                    assert(mseq(acc@) =~= mseq(acc0) + seq![(keyv, v@)]);
                                    if parse_members(s@, k2 as int + 1) is Some {
                                        let q = parse_members(s@, k2 as int + 1)->Some_0;
                                        assert(parse_members(s@, cur as int) == Some((
                                            seq![(keyv, v@)] + q.0,
                                            q.1,
                                        )));
                                        assert(mseq(acc0) + (seq![(keyv, v@)] + q.0) =~= mseq(acc@)
                                            + q.0);
                                    } else {
                                        assert(parse_members(s@, cur as int) is None);
                                    }
                                }
                                cur = k2 + 1;
                            } else {
                                return None;
                            }
                        }
                        None => {
                            return None;
                        }
                    }
                }
                None => {
                    return None;
                }
            }
        }
    } else if c == '-' || crate::text::digit_val_x(c) >= 0 {
        proof {
            lemma_num_end(s@, i0 as int + 1);
        }
        let e = num_end_x(s, i0 + 1);
        let lex = vec_char_range(s, i0, e);
        let ns = crate::text::chars_to_string(&lex);
        Some((Json::Num(ns), e))
    } else {
        None
    }
}

/// Hex digits render their own value.
pub proof fn lemma_hex_val_hchar(n: int)
    requires
        0 <= n <= 15,
    ensures
        hex_val(hchar(n)) == n,
{
}

/// The first character of a rendering identifies the value's kind and is
/// never a delimiter or whitespace.
pub proof fn lemma_enc_first(j: JsonV)
    requires
        wf_json(j),
    ensures
        enc(j).len() >= 1,
        !is_ws(enc(j)[0]),
        enc(j)[0] != ']',
        enc(j)[0] != '}',
        enc(j)[0] != ',',
        enc(j)[0] != ':',
        j is Null ==> enc(j)[0] == 'n',
        j matches JsonV::Bool(b) ==> enc(j)[0] == (if b {
            't'
        } else {
            'f'
        }),
        j is Str ==> enc(j)[0] == '"',
        j is Arr ==> enc(j)[0] == '[',
        j is Obj ==> enc(j)[0] == '{',
        j is Num ==> (enc(j)[0] == '-' || is_digit(enc(j)[0])) && enc(j)[0] != 'n' && enc(j)[0]
            != 't' && enc(j)[0] != 'f' && enc(j)[0] != '"' && enc(j)[0] != '[' && enc(j)[0] != '{',
{
    match j {
        JsonV::Num(s) => {
            assert(enc(j) == s);
            assert(s[0] == '-' || is_digit(s[0]));
        }
        _ => {}
    }
}

/// A run of number characters bounded by a non-continuing character is
/// exactly what `num_end` reads.
pub proof fn lemma_num_end_exact(s: Seq<char>, i: int, e: int)
    requires
        0 <= i <= e <= s.len(),
        forall|x: int| i <= x < e ==> num_cont(#[trigger] s[x]),
        e == s.len() || !num_cont(s[e]),
    ensures
        num_end(s, i) == e,
    decreases e - i,
{
    if i < e {
        lemma_num_end_exact(s, i + 1, e);
    }
}

/// Splits knowledge of a subrange holding a concatenation into its parts.
pub proof fn lemma_subrange_split(s: Seq<char>, i: int, a: Seq<char>, b: Seq<char>)
    requires
        0 <= i,
        i + a.len() + b.len() <= s.len(),
        s.subrange(i, i + a.len() + b.len()) == a + b,
    ensures
        s.subrange(i, i + a.len() as int) == a,
        s.subrange(i + a.len(), i + a.len() + b.len()) == b,
{
    let ab = a + b;
    assert forall|x: int| 0 <= x < a.len() implies s.subrange(i, i + a.len() as int)[x]
        == a[x] by {
        assert(s.subrange(i, i + a.len() as int)[x] == s[i + x]);
        assert(s.subrange(i, i + ab.len() as int)[x] == s[i + x]);
        assert(ab[x] == a[x]);
    }
    assert(s.subrange(i, i + a.len() as int) =~= a);
    assert forall|x: int| 0 <= x < b.len() implies s.subrange(
        i + a.len(),
        i + a.len() + b.len(),
    )[x] == b[x] by {
        assert(s.subrange(i + a.len(), i + a.len() + b.len())[x] == s[i + a.len() + x]);
        assert(s.subrange(i, i + ab.len() as int)[a.len() + x] == s[i + (a.len() + x)]);
        assert(ab[a.len() + x] == b[x]);
    }
    assert(s.subrange(i + a.len(), i + a.len() + b.len()) =~= b);
}

/// Reads one character out of a known subrange.
pub proof fn lemma_subrange_at(s: Seq<char>, i: int, a: Seq<char>, x: int)
    requires
        0 <= i,
        i + a.len() <= s.len(),
        s.subrange(i, i + a.len() as int) == a,
        0 <= x < a.len(),
    ensures
        s[i + x] == a[x],
{
    assert(s.subrange(i, i + a.len() as int)[x] == s[i + x]);
}

/// Parsing the escaped rendering of a string body, followed by the
/// closing quote, recovers the string.
#[verifier::rlimit(100)]
pub proof fn lemma_parse_esc(t: Seq<char>, s: Seq<char>, i: int)
    requires
        0 <= i,
        i + esc_str(t).len() + 1 <= s.len(),
        s.subrange(i, i + esc_str(t).len() as int) == esc_str(t),
        s[i + esc_str(t).len()] == '"',
    ensures
        parse_str_body(s, i) == Some((t, i + esc_str(t).len() + 1)),
    decreases t.len(),
{
    let et = esc_str(t);
    if t.len() == 0 {
        assert(s[i] == '"');
    } else {
        let c = t[0];
        let ec = esc_char(c);
        let rest = t.drop_first();
        let er = esc_str(rest);
        assert(et == ec + er);
        lemma_subrange_split(s, i, ec, er);
        assert(forall|x: int| 0 <= x < ec.len() ==> #[trigger] s[i + x] == ec[x]) by {
            assert forall|x: int| 0 <= x < ec.len() implies #[trigger] s[i + x] == ec[x] by {
                lemma_subrange_at(s, i, ec, x);
            }
        }
        assert(s[i + 0] == ec[0]);
        let i2 = i + ec.len();
        assert(s[i2 + er.len()] == '"');
        lemma_parse_esc(rest, s, i2);
        if c == '"' || c == '\\' || c == '\n' || c == '\r' || c == '\t' {
            assert(s[i] == '\\');
            assert(s[i + 1] == ec[1]);
            assert(esc_short(ec[1]) == Some(c));
            assert(parse_str_body(s, i) == Some((seq![c] + rest, i2 + er.len() + 1)));
            assert(seq![c] + rest =~= t);
        } else if (c as u32) < 32 {
            assert(s[i] == '\\');
            assert(s[i + 1] == 'u');
            assert(s[i + 2] == '0');
            assert(s[i + 3] == '0');
            assert(s[i + 4] == hchar(c as u32 as int / 16));
            assert(s[i + 5] == hchar(c as u32 as int % 16));
            lemma_hex_val_hchar(c as u32 as int / 16);
            lemma_hex_val_hchar(c as u32 as int % 16);
            let code = hex_val(s[i + 2]) * 4096 + hex_val(s[i + 3]) * 256 + hex_val(s[i + 4]) * 16
                + hex_val(s[i + 5]);
            assert(code == (c as u32 as int / 16) * 16 + (c as u32 as int % 16));
            assert(code == c as u32 as int);
            assert(is_scalar(code));
            lemma_char_of_code(c);
            assert(char_of(code) == c);
            assert(parse_str_body(s, i) == Some((seq![c] + rest, i2 + er.len() + 1)));
            assert(seq![c] + rest =~= t);
        } else {
            assert(ec == seq![c]);
            assert(s[i] == c);
            assert(s[i] != '"' && s[i] != '\\');
            assert(parse_str_body(s, i) == Some((seq![c] + rest, i2 + er.len() + 1)));
            assert(seq![c] + rest =~= t);
        }
    }
}

/// Parsing the canonical rendering of a well-formed value, when nothing
/// that could extend a number follows it, recovers the value.
#[verifier::rlimit(100)]
pub proof fn lemma_parse_enc(j: JsonV, s: Seq<char>, i: int)
    requires
        wf_json(j),
        0 <= i,
        i + enc(j).len() <= s.len(),
        s.subrange(i, i + enc(j).len() as int) == enc(j),
        i + enc(j).len() == s.len() || !num_cont(s[i + enc(j).len()]),
    ensures
        parse_value(s, i) == Some((j, i + enc(j).len())),
    decreases j,
{
    let e = enc(j);
    let n = e.len() as int;
    lemma_enc_first(j);
    assert(forall|x: int| 0 <= x < n ==> #[trigger] s[i + x] == e[x]) by {
        assert forall|x: int| 0 <= x < n implies #[trigger] s[i + x] == e[x] by {
            lemma_subrange_at(s, i, e, x);
        }
    }
    assert(s[i + 0] == e[0]);
    assert(s[i] == e[0]);
    match j {
        JsonV::Null => {
            assert(s[i] == 'n' && s[i + 1] == 'u' && s[i + 2] == 'l' && s[i + 3] == 'l');
            assert(n == 4);
            assert(!is_ws(s[i]));
            assert(parse_value(s, i) == Some((JsonV::Null, i + 4)));
        }
        JsonV::Bool(b) => {
            if b {
                assert(s[i] == 't' && s[i + 1] == 'r' && s[i + 2] == 'u' && s[i + 3] == 'e');
            } else {
                assert(s[i] == 'f' && s[i + 1] == 'a' && s[i + 2] == 'l' && s[i + 3] == 's' && s[i
                    + 4] == 'e');
            }
            assert(parse_value(s, i) == Some((j, i + enc(j).len())));
        }
        JsonV::Num(lex) => {
            assert(s[i] == lex[0]);
            assert(forall|x: int| i + 1 <= x < i + n ==> num_cont(#[trigger] s[x])) by {
                assert forall|x: int| i + 1 <= x < i + n implies num_cont(#[trigger] s[x]) by {
                    assert(s[i + (x - i)] == e[x - i]);
                    assert(num_cont(lex[x - i]));
                }
            }
            lemma_num_end_exact(s, i + 1, i + n);
            assert(s.subrange(i, i + n) =~= lex);
            assert(parse_value(s, i) == Some((j, i + enc(j).len())));
        }
        JsonV::Str(t) => {
            let et = esc_str(t);
            assert(e =~= seq!['"'] + (et + seq!['"']));
            lemma_subrange_split(s, i, seq!['"'], et + seq!['"']);
            lemma_subrange_split(s, i + 1, et, seq!['"']);
            assert(s[i] == '"');
            lemma_subrange_at(s, i + 1 + et.len(), seq!['"'], 0);
            assert(s[i + 1 + et.len()] == '"');
            lemma_parse_esc(t, s, i + 1);
            assert(parse_value(s, i) == Some((j, i + enc(j).len())));
        }
        JsonV::Arr(es) => {
            assert(s[i] == '[');
            if es.len() == 0 {
                assert(s[i + 1] == ']');
                lemma_skip_ws(s, i + 1);
                assert(skip_ws(s, i + 1) == i + 1);
                assert(es =~= Seq::<JsonV>::empty());
                assert(parse_value(s, i) == Some((JsonV::Arr(Seq::empty()), i + 2)));
            } else {
                let body = enc_elems(es);
                assert(e =~= seq!['['] + (body + seq![']']));
                lemma_subrange_split(s, i, seq!['['], body + seq![']']);
                lemma_subrange_split(s, i + 1, body, seq![']']);
                lemma_subrange_at(s, i + 1 + body.len(), seq![']'], 0);
                assert(s[i + 1 + body.len()] == ']');
                lemma_enc_elems_first(es);
                lemma_subrange_at(s, i + 1, body, 0);
                assert(s[i + 1] == body[0]);
                lemma_skip_ws(s, i + 1);
                assert(skip_ws(s, i + 1) == i + 1);
                lemma_parse_elems_enc(es, s, i + 1);
                assert(s[i + 1] != ']');
                assert(i + 1 < s.len());
                assert(parse_elems(s, i + 1) == Some((es, i + 1 + enc_elems(es).len() + 1)));
                assert(e.len() == body.len() + 2);
                assert(parse_value(s, i) == Some((JsonV::Arr(es), i + 1 + body.len() + 1)));
            }
            assert(parse_value(s, i) == Some((j, i + enc(j).len())));
        }
        JsonV::Obj(ms) => {
            assert(s[i] == '{');
            if ms.len() == 0 {
                assert(s[i + 1] == '}');
                lemma_skip_ws(s, i + 1);
                assert(skip_ws(s, i + 1) == i + 1);
                assert(ms =~= Seq::<(Seq<char>, JsonV)>::empty());
                assert(parse_value(s, i) == Some((JsonV::Obj(Seq::empty()), i + 2)));
            } else {
                let body = enc_members(ms);
                assert(e =~= seq!['{'] + (body + seq!['}']));
                lemma_subrange_split(s, i, seq!['{'], body + seq!['}']);
                lemma_subrange_split(s, i + 1, body, seq!['}']);
                lemma_subrange_at(s, i + 1 + body.len(), seq!['}'], 0);
                assert(s[i + 1 + body.len()] == '}');
                lemma_enc_members_first(ms);
                lemma_subrange_at(s, i + 1, body, 0);
                assert(s[i + 1] == body[0]);
                lemma_skip_ws(s, i + 1);
                assert(skip_ws(s, i + 1) == i + 1);
                lemma_parse_members_enc(ms, s, i + 1);
                assert(s[i + 1] != '}');
            }
            assert(parse_value(s, i) == Some((j, i + enc(j).len())));
        }
    }
}

/// The rendering of a non-empty element list starts with the first
/// element's first character.
pub proof fn lemma_enc_elems_first(es: Seq<JsonV>)
    requires
        es.len() > 0,
        wf_json(es[0]),
    ensures
        enc_elems(es).len() >= enc(es[0]).len(),
        enc_elems(es).len() >= 1,
        enc_elems(es)[0] == enc(es[0])[0],
        !is_ws(enc_elems(es)[0]),
        enc_elems(es)[0] != ']',
        enc_elems(es)[0] != '}',
{
    lemma_enc_first(es[0]);
    assert(enc(es[0]).len() >= 1);
    if es.len() == 1 {
    } else {
        assert(enc_elems(es) == enc(es[0]) + seq![','] + enc_elems(es.drop_first()));
        assert(enc_elems(es)[0] == enc(es[0])[0]);
    }
}

/// The rendering of a non-empty member list starts with a quote.
pub proof fn lemma_enc_members_first(ms: Seq<(Seq<char>, JsonV)>)
    requires
        ms.len() > 0,
    ensures
        enc_members(ms).len() >= 1,
        enc_members(ms)[0] == '"',
{
    let head = seq!['"'] + esc_str(ms[0].0) + seq!['"', ':'] + enc(ms[0].1);
    assert(head[0] == '"');
    if ms.len() == 1 {
        assert(enc_members(ms) == head);
    } else {
        assert(enc_members(ms) == head + seq![','] + enc_members(ms.drop_first()));
    }
}

/// Parsing the rendering of a non-empty element list, followed by the
/// closing bracket, recovers the elements.
#[verifier::rlimit(100)]
pub proof fn lemma_parse_elems_enc(es: Seq<JsonV>, s: Seq<char>, i: int)
    requires
        es.len() > 0,
        forall|k: int| 0 <= k < es.len() ==> wf_json(#[trigger] es[k]),
        0 <= i,
        i + enc_elems(es).len() + 1 <= s.len(),
        s.subrange(i, i + enc_elems(es).len() as int) == enc_elems(es),
        s[i + enc_elems(es).len()] == ']',
    ensures
        parse_elems(s, i) == Some((es, i + enc_elems(es).len() + 1)),
    decreases es,
{
    let body = enc_elems(es);
    let e0 = enc(es[0]);
    let j = i + e0.len();
    lemma_enc_first(es[0]);
    if es.len() == 1 {
        assert(body == e0);
        assert(s[j] == ']');
        lemma_parse_enc(es[0], s, i);
        lemma_skip_ws(s, j);
        assert(skip_ws(s, j) == j);
        assert(seq![es[0]] =~= es);
    } else {
        let rest = es.drop_first();
        let brest = enc_elems(rest);
        assert(body == e0 + seq![','] + brest);
        assert(body =~= e0 + (seq![','] + brest));
        lemma_subrange_split(s, i, e0, seq![','] + brest);
        lemma_subrange_split(s, j, seq![','], brest);
        lemma_subrange_at(s, j, seq![','], 0);
        assert(s[j] == ',');
        lemma_parse_enc(es[0], s, i);
        lemma_skip_ws(s, j);
        assert(skip_ws(s, j) == j);
        assert(s[j + 1 + brest.len()] == ']');
        assert(forall|k: int| 0 <= k < rest.len() ==> wf_json(#[trigger] rest[k]));
        lemma_parse_elems_enc(rest, s, j + 1);
        assert(parse_elems(s, i) == Some((seq![es[0]] + rest, j + 1 + brest.len() + 1)));
        assert(seq![es[0]] + rest =~= es);
        assert(j + 1 + brest.len() + 1 == i + body.len() + 1);
    }
}

/// Parsing the rendering of a non-empty member list, followed by the
/// closing brace, recovers the members.
#[verifier::rlimit(100)]
pub proof fn lemma_parse_members_enc(ms: Seq<(Seq<char>, JsonV)>, s: Seq<char>, i: int)
    requires
        ms.len() > 0,
        forall|k: int| 0 <= k < ms.len() ==> wf_json(#[trigger] ms[k].1),
        0 <= i,
        i + enc_members(ms).len() + 1 <= s.len(),
        s.subrange(i, i + enc_members(ms).len() as int) == enc_members(ms),
        s[i + enc_members(ms).len()] == '}',
    ensures
        parse_members(s, i) == Some((ms, i + enc_members(ms).len() + 1)),
    decreases ms,
{
    let body = enc_members(ms);
    let key = ms[0].0;
    let ek = esc_str(key);
    let e0 = enc(ms[0].1);
    let head = seq!['"'] + ek + seq!['"', ':'] + e0;
    let jk = i + 1 + ek.len();
    let jv = jk + 2;
    let j = jv + e0.len();
    if ms.len() == 1 {
        assert(body == head);
        assert(s.subrange(i, i + head.len() as int) == head);
    } else {
        let rest = ms.drop_first();
        let brest = enc_members(rest);
        assert(body == head + seq![','] + brest);
        assert(body =~= head + (seq![','] + brest));
        lemma_subrange_split(s, i, head, seq![','] + brest);
        lemma_subrange_split(s, j, seq![','], brest);
        lemma_subrange_at(s, j, seq![','], 0);
    }
    assert(head =~= seq!['"'] + (ek + (seq!['"', ':'] + e0)));
    lemma_subrange_split(s, i, seq!['"'], ek + (seq!['"', ':'] + e0));
    lemma_subrange_at(s, i, seq!['"'], 0);
    assert(s[i] == '"');
    lemma_skip_ws(s, i);
    assert(skip_ws(s, i) == i);
    lemma_subrange_split(s, i + 1, ek, seq!['"', ':'] + e0);
    lemma_subrange_split(s, jk, seq!['"', ':'], e0);
    lemma_subrange_at(s, jk, seq!['"', ':'], 0);
    lemma_subrange_at(s, jk, seq!['"', ':'], 1);
    assert(s[jk] == '"');
    lemma_parse_esc(key, s, i + 1);
    assert(parse_str_body(s, i + 1) == Some((key, jk + 1)));
    assert(s[jk + 1] == ':');
    lemma_skip_ws(s, jk + 1);
    assert(skip_ws(s, jk + 1) == jk + 1);
    lemma_enc_first(ms[0].1);
    if ms.len() == 1 {
        assert(s[j] == '}');
        lemma_parse_enc(ms[0].1, s, jv);
        lemma_skip_ws(s, j);
        assert(skip_ws(s, j) == j);
        assert(seq![(key, ms[0].1)] =~= ms);
    } else {
        let rest = ms.drop_first();
        let brest = enc_members(rest);
        assert(s[j] == ',');
        lemma_parse_enc(ms[0].1, s, jv);
        lemma_skip_ws(s, j);
        assert(skip_ws(s, j) == j);
        assert(s[j + 1 + brest.len()] == '}');
        assert(forall|k: int| 0 <= k < rest.len() ==> wf_json(#[trigger] rest[k].1));
        lemma_parse_members_enc(rest, s, j + 1);
        assert(parse_members(s, i) == Some((seq![(key, ms[0].1)] + rest, j + 1 + brest.len()
            + 1)));
        assert(seq![(key, ms[0].1)] + rest =~= ms);
        assert(j + 1 + brest.len() + 1 == i + body.len() + 1);
    }
}

/// The round trip: parsing the canonical rendering of a well-formed
/// value gives the value back.
pub proof fn lemma_parse_json_enc(j: JsonV)
    requires
        wf_json(j),
    ensures
        parse_json(enc(j)) == Some(j),
{
    let s = enc(j);
    assert(s.subrange(0, s.len() as int) =~= s);
    lemma_parse_enc(j, s, 0);
    lemma_skip_ws(s, s.len() as int);
    assert(skip_ws(s, s.len() as int) == s.len());
}

/// Parses a whole document.  Follows [`parse_json`] exactly.
pub fn parse_json_str(s: &str) -> (r: Option<Json>)
    ensures
        (match r {
            Some(j) => parse_json(s@) == Some(j@),
            None => parse_json(s@) is None,
        }),
{
    let v = crate::text::string_chars(s);
    match p_value(&v, 0) {
        Some(p) => {
            let j = skip_ws_x(&v, p.1);
            if j == v.len() {
                Some(p.0)
            } else {
                None
            }
        }
        None => None,
    }
}

} // verus!
