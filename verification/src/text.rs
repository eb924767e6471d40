//! Character-level text utilities shared by the parsers and the routing
//! logic: conversions between `String` and `Vec<char>`, substring search,
//! and the case-folding primitive.

use vstd::prelude::*;

verus! {

/// The full Unicode lowercasing of a character sequence; the result depends
/// on the characters alone.
pub uninterp spec fn lower_of(s: Seq<char>) -> Seq<char>;

/// Whether a character is alphanumeric in the Unicode sense; depends on the
/// character alone.
pub uninterp spec fn alnum_of(c: char) -> bool;

/// Relies on str::to_lowercase: the result depends on the characters alone,
/// and an empty string stays empty.
#[verifier::external_body]
pub fn lowercase(s: &str) -> (r: String)
    ensures
        r@ == lower_of(s@),
        s@.len() == 0 ==> r@.len() == 0,
{
    s.to_lowercase()
}

/// Relies on char::is_alphanumeric: a pure character classification.
#[verifier::external_body]
pub fn char_is_alphanumeric(c: char) -> (r: bool)
    ensures
        r == alnum_of(c),
{
    c.is_alphanumeric()
}

/// Relies on str::chars, which yields exactly the characters of the string
/// in order.
#[verifier::external_body]
pub fn chars_of(s: &str) -> (r: Vec<char>)
    ensures
        r@ == s@,
{
    s.chars().collect()
}

/// Relies on String: FromIterator<char>, which builds the string holding
/// exactly the given characters in order.
#[verifier::external_body]
pub fn string_from_chars(v: &Vec<char>) -> (r: String)
    ensures
        r@ == v@,
{
    v.iter().collect()
}

/// `p` occurs in `t` starting at position `i`.
pub open spec fn occurs_at(t: Seq<char>, p: Seq<char>, i: int) -> bool {
    0 <= i && i + p.len() <= t.len() && t.subrange(i, i + p.len() as int) == p
}

/// `p` occurs somewhere in `t`.
pub open spec fn contains_seq(t: Seq<char>, p: Seq<char>) -> bool {
    exists|i: int| occurs_at(t, p, i)
}

/// Whether `p` occurs in `t` starting at `i`, decided character by character.
fn matches_at(t: &Vec<char>, p: &Vec<char>, i: usize) -> (r: bool)
    requires
        i + p@.len() <= t@.len(),
    ensures
        r == occurs_at(t@, p@, i as int),
{
    let n = t.len();
    let mut k: usize = 0;
    while k < p.len()
        invariant
            n == t@.len(),
            i + p@.len() <= t@.len(),
            k <= p@.len(),
            forall|j: int| 0 <= j < k ==> t@[i + j] == p@[j],
        decreases p@.len() - k,
    {
        if t[i + k] != p[k] {
            proof {
                assert(t@.subrange(i as int, i + p@.len() as int)[k as int] != p@[k as int]);
            }
            return false;
        }
        k += 1;
    }
    proof {
        assert(t@.subrange(i as int, i + p@.len() as int) =~= p@);
    }
    true
}

/// Substring search: whether `p` occurs anywhere in `t`.
pub fn contains_chars(t: &Vec<char>, p: &Vec<char>) -> (r: bool)
    ensures
        r == contains_seq(t@, p@),
{
    if p.len() > t.len() {
        proof {
            assert(forall|i: int| !occurs_at(t@, p@, i));
        }
        return false;
    }
    if p.len() == 0 {
        proof {
            assert(occurs_at(t@, p@, 0)) by {
                assert(t@.subrange(0, 0) =~= p@);
            }
        }
        return true;
    }
    let mut i: usize = 0;
    while i <= t.len() - p.len()
        invariant
            1 <= p@.len() <= t@.len(),
            t@.len() <= usize::MAX,
            i <= t@.len() - p@.len() + 1,
            forall|j: int| 0 <= j < i ==> !occurs_at(t@, p@, j),
        decreases t@.len() - p@.len() - i + 1,
    {
        if matches_at(t, p, i) {
            return true;
        }
        i += 1;
    }
    proof {
        assert(forall|j: int| occurs_at(t@, p@, j) ==> 0 <= j <= t@.len() - p@.len());
    }
    false
}

/// Whether the string `t` contains the string `p`, by characters.
pub fn str_contains(t: &str, p: &str) -> (r: bool)
    ensures
        r == contains_seq(t@, p@),
{
    let tv = chars_of(t);
    let pv = chars_of(p);
    contains_chars(&tv, &pv)
}

/// Whether `t` starts with `p`.
pub fn starts_with_chars(t: &Vec<char>, p: &Vec<char>) -> (r: bool)
    ensures
        r == (p@.len() <= t@.len() && t@.subrange(0, p@.len() as int) == p@),
{
    if p.len() > t.len() {
        return false;
    }
    matches_at(t, p, 0)
}


/// Whether two string slices hold the same characters.
pub fn str_eq(a: &str, b: &str) -> (r: bool)
    ensures
        r == (a@ == b@),
{
    let av = chars_of(a);
    let bv = chars_of(b);
    chars_eq(&av, &bv)
}

/// Whether two character vectors are equal.
pub fn chars_eq(a: &Vec<char>, b: &Vec<char>) -> (r: bool)
    ensures
        r == (a@ == b@),
{
    if a.len() != b.len() {
        return false;
    }
    let mut k: usize = 0;
    while k < a.len()
        invariant
            a@.len() == b@.len(),
            k <= a@.len(),
            forall|j: int| 0 <= j < k ==> a@[j] == b@[j],
        decreases a@.len() - k,
    {
        if a[k] != b[k] {
            return false;
        }
        k += 1;
    }
    proof {
        assert(a@ =~= b@);
    }
    true
}


/// An owned copy of a string slice.
pub fn own_str(s: &str) -> (r: String)
    ensures
        r@ == s@,
{
    string_from_chars(&chars_of(s))
}

/// The concatenation of two string slices.
pub fn concat_str(a: &str, b: &str) -> (r: String)
    ensures
        r@ == a@ + b@,
{
    let mut v = chars_of(a);
    let bv = chars_of(b);
    let mut k: usize = 0;
    while k < bv.len()
        invariant
            k <= bv@.len(),
            bv@ == b@,
            v@ == a@ + bv@.subrange(0, k as int),
        decreases bv@.len() - k,
    {
        v.push(bv[k]);
        proof {
            assert(a@ + bv@.subrange(0, (k + 1) as int) =~= (a@ + bv@.subrange(0, k as int)).push(
                bv@[k as int],
            ));
        }
        k += 1;
    }
    proof {
        assert(bv@.subrange(0, bv@.len() as int) =~= bv@);
    }
    string_from_chars(&v)
}


/// The decimal text of a number.
pub open spec fn dec_str(n: nat) -> Seq<char>
    decreases n,
{
    if n < 10 {
        seq![crate::json::hex_digit(n as int)]
    } else {
        dec_str(n / 10).push(crate::json::hex_digit((n % 10) as int))
    }
}

fn push_dec(n: u64, out: &mut Vec<char>)
    ensures
        final(out)@ == old(out)@ + dec_str(n as nat),
    decreases n,
{
    if n < 10 {
        out.push(crate::json::hex_digit_char(n as u32));
        proof {
            assert(out@ =~= old(out)@ + dec_str(n as nat));
        }
    } else {
        push_dec(n / 10, out);
        out.push(crate::json::hex_digit_char((n % 10) as u32));
        proof {
            assert(out@ =~= old(out)@ + dec_str(n as nat));
        }
    }
}

/// The decimal text of a u64.
pub fn u64_to_string(n: u64) -> (r: String)
    ensures
        r@ == dec_str(n as nat),
{
    let mut out: Vec<char> = Vec::new();
    push_dec(n, &mut out);
    proof {
        assert(out@ =~= dec_str(n as nat));
    }
    string_from_chars(&out)
}


/// Append the characters of a string slice to a vector.
pub fn extend_chars(v: &mut Vec<char>, s: &str)
    ensures
        final(v)@ == old(v)@ + s@,
{
    let sv = chars_of(s);
    let mut k: usize = 0;
    while k < sv.len()
        invariant
            k <= sv@.len(),
            sv@ == s@,
            v@ == old(v)@ + sv@.subrange(0, k as int),
        decreases sv@.len() - k,
    {
        v.push(sv[k]);
        proof {
            assert(old(v)@ + sv@.subrange(0, (k + 1) as int) =~= (old(v)@ + sv@.subrange(
                0,
                k as int,
            )).push(sv@[k as int]));
        }
        k += 1;
    }
    proof {
        assert(sv@.subrange(0, sv@.len() as int) =~= sv@);
    }
}

} // verus!
