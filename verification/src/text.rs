//! Character-level helpers shared by the query codec, the date parser and the
//! listing order: whitespace tests, decimal digits, integer parsing and
//! lexicographic comparison of strings.

use vstd::prelude::*;

verus! {

/// The characters that `str::trim` removes: Unicode `White_Space`.
pub open spec fn is_space_char(c: char) -> bool {
    let u = c as u32;
    u == 0x20 || (0x09 <= u && u <= 0x0d) || u == 0x85 || u == 0xa0 || u == 0x1680 || (0x2000
        <= u && u <= 0x200a) || u == 0x2028 || u == 0x2029 || u == 0x202f || u == 0x205f || u
        == 0x3000
}

pub open spec fn all_space(s: Seq<char>) -> bool {
    forall|i: int| 0 <= i < s.len() ==> is_space_char(#[trigger] s[i])
}

pub fn is_space(c: char) -> (r: bool)
    ensures
        r == is_space_char(c),
{
    let u: u32 = c as u32;
    u == 0x20 || (0x09 <= u && u <= 0x0d) || u == 0x85 || u == 0xa0 || u == 0x1680 || (0x2000
        <= u && u <= 0x200a) || u == 0x2028 || u == 0x2029 || u == 0x202f || u == 0x205f || u
        == 0x3000
}

pub fn is_all_space(v: &Vec<char>) -> (r: bool)
    ensures
        r == all_space(v@),
{
    let mut i: usize = 0;
    while i < v.len()
        invariant
            0 <= i <= v@.len(),
            forall|k: int| 0 <= k < i ==> is_space_char(#[trigger] v@[k]),
        decreases v@.len() - i,
    {
        if !is_space(v[i]) {
            return false;
        }
        i += 1;
    }
    true
}

/// The characters of a string, in order.
pub fn string_to_chars(s: &str) -> (v: Vec<char>)
    ensures
        v@ == s@,
{
    let n: usize = s.unicode_len();
    let mut v: Vec<char> = Vec::new();
    let mut i: usize = 0;
    while i < n
        invariant
            0 <= i <= n,
            n == s@.len(),
            v@ == s@.subrange(0, i as int),
        decreases n - i,
    {
        let c: char = s.get_char(i);
        v.push(c);
        proof {
            assert(s@.subrange(0, i + 1 as int) =~= s@.subrange(0, i as int).push(s@[i as int]));
        }
        i += 1;
    }
    proof {
        assert(s@.subrange(0, n as int) =~= s@);
    }
    v
}

/// Relies on std's `FromIterator<char> for String`: collecting characters
/// yields the string made of exactly those characters, in order.
#[verifier::external_body]
pub fn chars_to_string(v: &Vec<char>) -> (s: String)
    ensures
        s@ == v@,
{
    v.iter().collect()
}

pub open spec fn is_digit_char(c: char) -> bool {
    let u = c as u32;
    0x30 <= u && u <= 0x39
}

pub open spec fn digit_val(c: char) -> int {
    c as u32 - 0x30
}

pub open spec fn all_digits(s: Seq<char>) -> bool {
    forall|i: int| 0 <= i < s.len() ==> is_digit_char(#[trigger] s[i])
}

/// The number that a string of decimal digits denotes.
pub open spec fn digits_val(s: Seq<char>) -> int
    decreases s.len(),
{
    if s.len() == 0 {
        0
    } else {
        digits_val(s.drop_last()) * 10 + digit_val(s.last())
    }
}

pub proof fn lemma_digits_val_nonneg(s: Seq<char>)
    requires
        all_digits(s),
    ensures
        digits_val(s) >= 0,
    decreases s.len(),
{
    if s.len() > 0 {
        assert(all_digits(s.drop_last()));
        lemma_digits_val_nonneg(s.drop_last());
    }
}

/// Appending one digit multiplies the value by ten and adds that digit.
pub proof fn lemma_digits_val_push(s: Seq<char>, c: char)
    ensures
        digits_val(s.push(c)) == digits_val(s) * 10 + digit_val(c),
{
    assert(s.push(c).drop_last() =~= s);
    assert(s.push(c).last() == c);
}

/// The value that `str::parse::<i32>` accepts: an optional sign followed by
/// one or more decimal digits, fitting the type's range.
pub open spec fn int_str_val(s: Seq<char>) -> Option<int> {
    if s.len() > 0 && (s[0] == '+' || s[0] == '-') {
        let body = s.subrange(1, s.len() as int);
        if body.len() > 0 && all_digits(body) {
            if s[0] == '-' {
                Some(-digits_val(body))
            } else {
                Some(digits_val(body))
            }
        } else {
            None
        }
    } else if s.len() > 0 && all_digits(s) {
        Some(digits_val(s))
    } else {
        None
    }
}

pub open spec fn parse_i32_spec(s: Seq<char>) -> Option<i32> {
    match int_str_val(s) {
        Some(v) => if i32::MIN <= v && v <= i32::MAX {
            Some(v as i32)
        } else {
            None
        },
        None => None,
    }
}

/// Parse a string exactly as `str::parse::<i32>` does.
pub fn parse_i32(s: &str) -> (r: Option<i32>)
    ensures
        r == parse_i32_spec(s@),
{
    let v = string_to_chars(s);
    let n: usize = v.len();
    if n == 0 {
        return None;
    }
    let mut start: usize = 0;
    let mut neg: bool = false;
    let c0: char = v[0];
    if c0 == '-' {
        start = 1;
        neg = true;
    } else if c0 == '+' {
        start = 1;
    }
    if start >= n {
        return None;
    }
    let ghost body = v@.subrange(start as int, n as int);
    let mut i: usize = start;
    let mut mag: u64 = 0;
    let mut over: bool = false;
    while i < n
        invariant
            start <= i <= n,
            n == v@.len(),
            v@ == s@,
            start < n,
            start == 0 || start == 1,
            start == 1 <==> (v@[0] == '+' || v@[0] == '-'),
            neg <==> (start == 1 && v@[0] == '-'),
            all_digits(v@.subrange(start as int, i as int)),
            !over ==> mag == digits_val(v@.subrange(start as int, i as int)) && mag
                <= 0x8000_0000,
            over ==> digits_val(v@.subrange(start as int, i as int)) > 0x8000_0000,
        decreases n - i,
    {
        let c: char = v[i];
        let u: u32 = c as u32;
        proof {
            assert(v@.subrange(start as int, i + 1 as int) =~= v@.subrange(
                start as int,
                i as int,
            ).push(v@[i as int]));
        }
        if u < 0x30 || u > 0x39 {
            proof {
                assert(!is_digit_char(v@[i as int]));
                assert(v@.subrange(start as int, n as int)[i - start] == v@[i as int]);
                assert(!all_digits(v@.subrange(start as int, n as int)));
                if start == 1 {
                    assert(int_str_val(v@) is None);
                } else {
                    assert(int_str_val(v@) is None);
                }
            }
            return None;
        }
        let d: u64 = (u - 0x30) as u64;
        proof {
            lemma_digits_val_push(v@.subrange(start as int, i as int), v@[i as int]);
            if over {
                lemma_digits_val_nonneg(v@.subrange(start as int, i as int));
            }
        }
        if !over {
            let nm: u64 = mag * 10 + d;
            if nm > 0x8000_0000 {
                over = true;
            } else {
                mag = nm;
            }
        }
        i += 1;
    }
    proof {
        assert(v@.subrange(start as int, n as int) =~= body);
        if start == 1 {
            assert(body.len() > 0 && all_digits(body));
        } else {
            assert(v@ =~= body);
        }
    }
    if neg {
        if over {
            None
        } else if mag == 0x8000_0000 {
            Some(i32::MIN)
        } else {
            Some(0i32 - (mag as i32))
        }
    } else {
        if over || mag > 0x7fff_ffff {
            None
        } else {
            Some(mag as i32)
        }
    }
}

/// Character-for-character string equality.
pub fn str_eq(a: &str, b: &str) -> (r: bool)
    ensures
        r == (a@ == b@),
{
    let na: usize = a.unicode_len();
    let nb: usize = b.unicode_len();
    if na != nb {
        return false;
    }
    let mut i: usize = 0;
    while i < na
        invariant
            0 <= i <= na,
            na == a@.len(),
            na == b@.len(),
            forall|k: int| 0 <= k < i ==> a@[k] == b@[k],
        decreases na - i,
    {
        if a.get_char(i) != b.get_char(i) {
            return false;
        }
        i += 1;
    }
    proof {
        assert(a@ =~= b@);
    }
    true
}

/// Lexicographic order on character sequences, by code point.
pub open spec fn chars_le(a: Seq<char>, b: Seq<char>) -> bool
    decreases a.len(),
{
    if a.len() == 0 {
        true
    } else if b.len() == 0 {
        false
    } else if (a[0] as u32) < (b[0] as u32) {
        true
    } else if (a[0] as u32) > (b[0] as u32) {
        false
    } else {
        chars_le(a.skip(1), b.skip(1))
    }
}

pub proof fn lemma_chars_le_total(a: Seq<char>, b: Seq<char>)
    ensures
        chars_le(a, b) || chars_le(b, a),
    decreases a.len(),
{
    if a.len() != 0 && b.len() != 0 && (a[0] as u32) == (b[0] as u32) {
        lemma_chars_le_total(a.skip(1), b.skip(1));
    }
}

fn str_le_from(a: &Vec<char>, b: &Vec<char>, i: usize) -> (r: bool)
    requires
        i <= a@.len(),
        i <= b@.len(),
    ensures
        r == chars_le(a@.skip(i as int), b@.skip(i as int)),
    decreases a@.len() - i,
{
    if i == a.len() {
        true
    } else if i == b.len() {
        false
    } else {
        let ca: u32 = a[i] as u32;
        let cb: u32 = b[i] as u32;
        proof {
            assert(a@.skip(i as int)[0] == a@[i as int]);
            assert(b@.skip(i as int)[0] == b@[i as int]);
            assert(a@.skip(i as int).skip(1) =~= a@.skip(i + 1 as int));
            assert(b@.skip(i as int).skip(1) =~= b@.skip(i + 1 as int));
        }
        if ca < cb {
            true
        } else if ca > cb {
            false
        } else {
            str_le_from(a, b, i + 1)
        }
    }
}

/// Compare two strings in code-point lexicographic order.
pub fn str_le(a: &str, b: &str) -> (r: bool)
    ensures
        r == chars_le(a@, b@),
{
    let va = string_to_chars(a);
    let vb = string_to_chars(b);
    proof {
        assert(va@.skip(0) =~= va@);
        assert(vb@.skip(0) =~= vb@);
    }
    str_le_from(&va, &vb, 0)
}

/// Form-encoding convention: every `+` in a decoded value reads as a space.
pub open spec fn plus_to_space(s: Seq<char>) -> Seq<char> {
    s.map_values(|c: char| if c == '+' { ' ' } else { c })
}

pub fn replace_plus(v: &Vec<char>) -> (r: Vec<char>)
    ensures
        r@ == plus_to_space(v@),
{
    let mut r: Vec<char> = Vec::new();
    let mut i: usize = 0;
    while i < v.len()
        invariant
            0 <= i <= v@.len(),
            r@ == plus_to_space(v@.subrange(0, i as int)),
        decreases v@.len() - i,
    {
        let c: char = v[i];
        if c == '+' {
            r.push(' ');
        } else {
            r.push(c);
        }
        proof {
            assert(r@ =~= plus_to_space(v@.subrange(0, i + 1 as int)));
        }
        i += 1;
    }
    proof {
        assert(v@.subrange(0, v@.len() as int) =~= v@);
    }
    r
}

} // verus!
