//! Characters and strings: conversions and digit helpers.
//!
//! The crate reasons about text as sequences of characters.  Executable
//! code scans a `&str` into a `Vec<char>` to work on it by index, and
//! builds output either in a `Vec<char>` or directly in a `String`.

use vstd::prelude::*;

verus! {

/// Relies on `String`'s `FromIterator<char>` impl (via `Iterator::collect`):
/// the string holds exactly the characters of the iterator, in order.
#[verifier::external_body]
pub fn chars_to_string(v: &Vec<char>) -> (s: String)
    ensures
        s@ == v@,
{
    v.iter().collect()
}

/// Relies on `String::push`: appends the given character to the string.
#[verifier::external_body]
pub fn push_char(s: &mut String, c: char) -> (r: ())
    ensures
        final(s)@ == old(s)@.push(c),
{
    s.push(c)
}

/// Relies on `char::from_u32`: `Some` exactly when `u` is a Unicode scalar
/// value (not a surrogate, at most 0x10FFFF), and the character's code is `u`.
#[verifier::external_body]
pub fn char_from_u32(u: u32) -> (r: Option<char>)
    ensures
        r is Some <==> (u < 0xD800 || (0xE000 <= u && u <= 0x10FFFF)),
        r matches Some(c) ==> c as u32 == u,
{
    char::from_u32(u)
}

/// The characters of `s`, as a vector.
pub fn string_chars(s: &str) -> (v: Vec<char>)
    ensures
        v@ == s@,
{
    let n = s.unicode_len();
    let mut v: Vec<char> = Vec::new();
    let mut i: usize = 0;
    while i < n
        invariant
            n == s@.len(),
            i <= n,
            v@ == s@.subrange(0, i as int),
        decreases n - i,
    {
        v.push(s.get_char(i));
        proof {
            assert(v@ =~= s@.subrange(0, i as int + 1));
        }
        i = i + 1;
    }
    proof {
        assert(v@ =~= s@);
    }
    v
}

/// Whether two character vectors hold the same characters.
pub fn chars_eq(a: &Vec<char>, b: &Vec<char>) -> (r: bool)
    ensures
        r == (a@ == b@),
{
    if a.len() != b.len() {
        proof {
            assert(a@.len() != b@.len());
        }
        return false;
    }
    let n = a.len();
    let mut i: usize = 0;
    while i < n
        invariant
            n == a@.len() == b@.len(),
            i <= n,
            forall|j: int| 0 <= j < i ==> a@[j] == b@[j],
        decreases n - i,
    {
        if a[i] != b[i] {
            return false;
        }
        i = i + 1;
    }
    proof {
        assert(a@ =~= b@);
    }
    true
}

/// Whether two strings hold the same characters.
pub fn str_eq(a: &str, b: &str) -> (r: bool)
    ensures
        r == (a@ == b@),
{
    let va = string_chars(a);
    let vb = string_chars(b);
    chars_eq(&va, &vb)
}

/// The decimal digit character for `n` in 0..=9.
pub open spec fn dchar(n: int) -> char {
    if n == 0 { '0' }
    else if n == 1 { '1' }
    else if n == 2 { '2' }
    else if n == 3 { '3' }
    else if n == 4 { '4' }
    else if n == 5 { '5' }
    else if n == 6 { '6' }
    else if n == 7 { '7' }
    else if n == 8 { '8' }
    else { '9' }
}

/// The value of a decimal digit character, or -1 when `c` is no digit.
pub open spec fn digit_val(c: char) -> int {
    if c == '0' { 0 }
    else if c == '1' { 1 }
    else if c == '2' { 2 }
    else if c == '3' { 3 }
    else if c == '4' { 4 }
    else if c == '5' { 5 }
    else if c == '6' { 6 }
    else if c == '7' { 7 }
    else if c == '8' { 8 }
    else if c == '9' { 9 }
    else { -1 }
}

/// Whether `c` is a decimal digit character.
pub open spec fn is_digit(c: char) -> bool {
    digit_val(c) >= 0
}

/// The decimal digit character for `n`.
pub fn dchar_x(n: u32) -> (c: char)
    requires
        n <= 9,
    ensures
        c == dchar(n as int),
        digit_val(c) == n as int,
{
    if n == 0 { '0' }
    else if n == 1 { '1' }
    else if n == 2 { '2' }
    else if n == 3 { '3' }
    else if n == 4 { '4' }
    else if n == 5 { '5' }
    else if n == 6 { '6' }
    else if n == 7 { '7' }
    else if n == 8 { '8' }
    else { '9' }
}

/// The value of a decimal digit character.
pub fn digit_val_x(c: char) -> (r: i32)
    ensures
        r == digit_val(c),
{
    if c == '0' { 0 }
    else if c == '1' { 1 }
    else if c == '2' { 2 }
    else if c == '3' { 3 }
    else if c == '4' { 4 }
    else if c == '5' { 5 }
    else if c == '6' { 6 }
    else if c == '7' { 7 }
    else if c == '8' { 8 }
    else if c == '9' { 9 }
    else { -1 }
}

/// The hexadecimal digit character for `n` in 0..=15, upper case.
pub open spec fn hchar(n: int) -> char {
    if n < 10 { dchar(n) }
    else if n == 10 { 'A' }
    else if n == 11 { 'B' }
    else if n == 12 { 'C' }
    else if n == 13 { 'D' }
    else if n == 14 { 'E' }
    else { 'F' }
}

/// The value of a hexadecimal digit character, or -1 when `c` is none.
pub open spec fn hex_val(c: char) -> int {
    if is_digit(c) { digit_val(c) }
    else if c == 'a' || c == 'A' { 10 }
    else if c == 'b' || c == 'B' { 11 }
    else if c == 'c' || c == 'C' { 12 }
    else if c == 'd' || c == 'D' { 13 }
    else if c == 'e' || c == 'E' { 14 }
    else if c == 'f' || c == 'F' { 15 }
    else { -1 }
}

/// Whether `c` is a hexadecimal digit character.
pub open spec fn is_hex(c: char) -> bool {
    hex_val(c) >= 0
}

/// The hexadecimal digit character for `n`, upper case.
pub fn hchar_x(n: u32) -> (c: char)
    requires
        n <= 15,
    ensures
        c == hchar(n as int),
        hex_val(c) == n as int,
{
    if n < 10 { dchar_x(n) }
    else if n == 10 { 'A' }
    else if n == 11 { 'B' }
    else if n == 12 { 'C' }
    else if n == 13 { 'D' }
    else if n == 14 { 'E' }
    else { 'F' }
}

/// The value of a hexadecimal digit character.
pub fn hex_val_x(c: char) -> (r: i32)
    ensures
        r == hex_val(c),
{
    let d = digit_val_x(c);
    if d >= 0 { d }
    else if c == 'a' || c == 'A' { 10 }
    else if c == 'b' || c == 'B' { 11 }
    else if c == 'c' || c == 'C' { 12 }
    else if c == 'd' || c == 'D' { 13 }
    else if c == 'e' || c == 'E' { 14 }
    else if c == 'f' || c == 'F' { 15 }
    else { -1 }
}

/// The decimal rendering of `n`, most significant digit first.
pub open spec fn dec_str(n: int) -> Seq<char>
    decreases n,
{
    if n <= 0 {
        Seq::empty()
    } else {
        dec_str(n / 10).push(dchar(n % 10))
    }
}

/// The decimal rendering of `n`, with "0" for zero.
pub open spec fn dec_str0(n: int) -> Seq<char> {
    if n == 0 { seq!['0'] } else { dec_str(n) }
}

/// Renders `n` in decimal.
pub fn dec_digits(n: u64) -> (v: Vec<char>)
    ensures
        v@ == dec_str0(n as int),
{
    if n == 0 {
        let mut v: Vec<char> = Vec::new();
        v.push('0');
        proof {
            assert(v@ =~= seq!['0']);
        }
        return v;
    }
    let mut rev: Vec<char> = Vec::new();
    let mut m: u64 = n;
    while m > 0
        invariant
            dec_str(n as int) == dec_str(m as int) + rev@.reverse(),
        decreases m,
    {
        let ghost prev = m;
        let ghost rev0 = rev@;
        let d = (m % 10) as u32;
        rev.push(dchar_x(d));
        m = m / 10;
        proof {
            assert(dec_str(prev as int) == dec_str(prev as int / 10).push(dchar(prev as int % 10)));
            assert(rev@.reverse() =~= seq![dchar(prev as int % 10)] + rev0.reverse());
            assert(dec_str(m as int) + rev@.reverse() =~= dec_str(prev as int) + rev0.reverse());
        }
    }
    let mut v: Vec<char> = Vec::new();
    let mut i: usize = rev.len();
    while i > 0
        invariant
            i <= rev@.len(),
            v@ == rev@.subrange(i as int, rev@.len() as int).reverse(),
        decreases i,
    {
        i = i - 1;
        v.push(rev[i]);
        proof {
            assert(v@ =~= rev@.subrange(i as int, rev@.len() as int).reverse());
        }
    }
    proof {
        assert(v@ =~= rev@.reverse());
        assert(dec_str(0) == Seq::<char>::empty());
        assert(v@ =~= dec_str(n as int));
    }
    v
}

/// Whether `sub` occurs in `s` as a contiguous substring.
pub open spec fn contains_sub(s: Seq<char>, sub: Seq<char>) -> bool {
    exists|k: int|
        0 <= k && k + sub.len() <= s.len() && #[trigger] s.subrange(k, k + sub.len() as int)
            == sub
}

/// Looks for `sub` in `s`.
pub fn find_sub(s: &Vec<char>, sub: &Vec<char>) -> (r: bool)
    ensures
        r == contains_sub(s@, sub@),
{
    if sub.len() == 0 {
        proof {
            assert(s@.subrange(0, 0 + sub@.len() as int) =~= sub@);
        }
        return true;
    }
    if sub.len() > s.len() {
        proof {
            assert(!contains_sub(s@, sub@));
        }
        return false;
    }
    let n = s.len();
    let last = n - sub.len();
    let mut k: usize = 0;
    loop
        invariant
            1 <= sub@.len() <= s@.len(),
            n == s@.len(),
            last == s@.len() - sub@.len(),
            k <= last + 1,
            forall|k0: int|
                0 <= k0 < k ==> #[trigger] s@.subrange(k0, k0 + sub@.len() as int) != sub@,
        decreases last + 1 - k,
    {
        if k > last {
            proof {
                assert(!contains_sub(s@, sub@));
            }
            return false;
        }
        let mut j: usize = 0;
        let mut hit = true;
        while j < sub.len()
            invariant
                k <= last,
                n == s@.len(),
                last == s@.len() - sub@.len(),
                j <= sub@.len(),
                hit == (forall|j0: int| 0 <= j0 < j ==> s@[k + j0] == sub@[j0]),
            decreases sub@.len() - j,
        {
            if s[k + j] != sub[j] {
                hit = false;
                proof {
                    assert(s@[k + j as int] != sub@[j as int]);
                }
                j = sub.len();
            } else {
                j = j + 1;
            }
        }
        if hit {
            proof {
                assert(s@.subrange(k as int, k as int + sub@.len() as int) =~= sub@);
            }
            return true;
        }
        proof {
            assert(s@.subrange(k as int, k as int + sub@.len() as int) != sub@);
        }
        k = k + 1;
    }
}

} // verus!
