//! Verified string utilities shared across the crate: character digits,
//! lexicographic comparison, substring search, ASCII case folding, and
//! integer-to-text conversion in a configurable radix.
use vstd::prelude::*;

verus! {

use vstd::string::StrSliceExecFns;
use vstd::string::StringExecFns;
use vstd::arithmetic::div_mod::lemma_div_is_strictly_smaller;

/// The sixteen digit characters, in value order, as used by lower-case
/// hexadecimal, octal and decimal renderings.
pub open spec fn spec_digits() -> Seq<char> {
    seq!['0', '1', '2', '3', '4', '5', '6', '7', '8', '9', 'a', 'b', 'c', 'd', 'e', 'f']
}

/// The digit character for a value below sixteen.
pub open spec fn spec_digit_char(d: int) -> char
    recommends
        0 <= d < 16,
{
    spec_digits()[d]
}

/// Digit value `d` rendered as a one-character string slice.
pub fn digit_str(d: u8) -> (r: &'static str)
    requires
        d < 16,
    ensures
        r@ == seq![spec_digit_char(d as int)],
{
    proof {
        reveal_strlit("0");
        reveal_strlit("1");
        reveal_strlit("2");
        reveal_strlit("3");
        reveal_strlit("4");
        reveal_strlit("5");
        reveal_strlit("6");
        reveal_strlit("7");
        reveal_strlit("8");
        reveal_strlit("9");
        reveal_strlit("a");
        reveal_strlit("b");
        reveal_strlit("c");
        reveal_strlit("d");
        reveal_strlit("e");
        reveal_strlit("f");
    }
    match d {
        0 => "0",
        1 => "1",
        2 => "2",
        3 => "3",
        4 => "4",
        5 => "5",
        6 => "6",
        7 => "7",
        8 => "8",
        9 => "9",
        10 => "a",
        11 => "b",
        12 => "c",
        13 => "d",
        14 => "e",
        _ => "f",
    }
}

/// The digits of `n` in base `base`, most significant first, with no
/// leading zeros (a single `'0'` for zero itself).
///
/// The extra guards on the recursive branch only serve to show
/// termination; `lemma_radix_unfold` shows that they never fire.
pub open spec fn spec_radix(n: int, base: int) -> Seq<char>
    recommends
        0 <= n,
        2 <= base <= 16,
    decreases n,
{
    if n < base || n / base >= n || n / base < 0 {
        seq![spec_digit_char(n % base)]
    } else {
        spec_radix(n / base, base).push(spec_digit_char(n % base))
    }
}

/// For `n >= base >= 2` the recursive branch of `spec_radix` is the one
/// that applies.
pub proof fn lemma_radix_unfold(n: int, base: int)
    requires
        2 <= base <= 16,
        n >= base,
    ensures
        0 <= n / base < n,
        spec_radix(n, base) == spec_radix(n / base, base).push(spec_digit_char(n % base)),
{
    lemma_div_is_strictly_smaller(n, base);
    vstd::arithmetic::div_mod::lemma_div_pos_is_pos(n, base);
}

/// Renders `n` in base `base` with lower-case digits, covering the
/// decimal, octal and hexadecimal texts the crate emits.
pub fn radix_string(n: u64, base: u64) -> (r: String)
    requires
        2 <= base <= 16,
    ensures
        r@ == spec_radix(n as int, base as int),
    decreases n,
{
    let d: u8 = (n % base) as u8;
    if n < base {
        digit_str(d).to_owned()
    } else {
        proof {
            lemma_radix_unfold(n as int, base as int);
        }
        let mut s = radix_string(n / base, base);
        s.append(digit_str(d));
        s
    }
}

/// Decimal rendering of `n`.
pub fn dec_string(n: u64) -> (r: String)
    ensures
        r@ == spec_radix(n as int, 10),
{
    radix_string(n, 10)
}

/// Lower-case hexadecimal rendering of `n`.
pub fn hex_string(n: u64) -> (r: String)
    ensures
        r@ == spec_radix(n as int, 16),
{
    radix_string(n, 16)
}

/// Octal rendering of `n`.
pub fn octal_string(n: u64) -> (r: String)
    ensures
        r@ == spec_radix(n as int, 8),
{
    radix_string(n, 8)
}

// --- equality and ordering ---

/// Character-for-character equality of two string slices.
pub fn str_eq(a: &str, b: &str) -> (r: bool)
    ensures
        r == (a@ == b@),
{
    let alen = a.unicode_len();
    let blen = b.unicode_len();
    if alen != blen {
        assert(a@ != b@) by {
            assert(a@.len() != b@.len());
        }
        return false;
    }
    let mut i: usize = 0;
    while i < alen
        invariant
            alen == a@.len(),
            alen == b@.len(),
            0 <= i <= alen,
            forall|k: int| 0 <= k < i ==> a@[k] == b@[k],
        decreases alen - i,
    {
        if a.get_char(i) != b.get_char(i) {
            return false;
        }
        i = i + 1;
    }
    proof {
        assert(a@ =~= b@);
    }
    true
}

/// Byte-for-byte equality of two slices.
pub fn bytes_eq(a: &[u8], b: &[u8]) -> (r: bool)
    ensures
        r == (a@ == b@),
{
    let alen = a.len();
    let blen = b.len();
    if alen != blen {
        assert(a@ != b@) by {
            assert(a@.len() != b@.len());
        }
        return false;
    }
    let mut i: usize = 0;
    while i < alen
        invariant
            alen == a@.len(),
            alen == b@.len(),
            0 <= i <= alen,
            forall|k: int| 0 <= k < i ==> a@[k] == b@[k],
        decreases alen - i,
    {
        if a[i] != b[i] {
            return false;
        }
        i = i + 1;
    }
    proof {
        assert(a@ =~= b@);
    }
    true
}

/// Strict lexicographic order on character sequences, by code point.
pub open spec fn spec_str_lt(a: Seq<char>, b: Seq<char>) -> bool
    decreases a.len(),
{
    if b.len() == 0 {
        false
    } else if a.len() == 0 {
        true
    } else if a[0] != b[0] {
        (a[0] as int) < (b[0] as int)
    } else {
        spec_str_lt(a.drop_first(), b.drop_first())
    }
}

/// Reflexive lexicographic order.
pub open spec fn spec_str_le(a: Seq<char>, b: Seq<char>) -> bool {
    a == b || spec_str_lt(a, b)
}

/// Compares two string slices in strict lexicographic order.
pub fn str_lt(a: &str, b: &str) -> (r: bool)
    ensures
        r == spec_str_lt(a@, b@),
{
    let alen = a.unicode_len();
    let blen = b.unicode_len();
    let mut i: usize = 0;
    proof {
        assert(a@.skip(0) =~= a@);
        assert(b@.skip(0) =~= b@);
    }
    loop
        invariant
            alen == a@.len(),
            blen == b@.len(),
            0 <= i <= alen,
            i <= blen,
            forall|k: int| 0 <= k < i ==> a@[k] == b@[k],
            spec_str_lt(a@, b@) == spec_str_lt(a@.skip(i as int), b@.skip(i as int)),
        ensures
            spec_str_lt(a@, b@) == spec_str_lt(a@.skip(i as int), b@.skip(i as int)),
            i <= alen && i <= blen,
            (i == alen || i == blen) || a@[i as int] != b@[i as int],
        decreases alen - i,
    {
        if i == alen || i == blen {
            break;
        }
        let ca = a.get_char(i);
        let cb = b.get_char(i);
        if ca != cb {
            break;
        }
        proof {
            assert(a@.skip(i as int).drop_first() =~= a@.skip(i as int + 1));
            assert(b@.skip(i as int).drop_first() =~= b@.skip(i as int + 1));
            assert(a@.skip(i as int)[0] == a@[i as int]);
            assert(b@.skip(i as int)[0] == b@[i as int]);
        }
        i = i + 1;
    }
    if i == alen {
        proof {
            assert(a@.skip(i as int).len() == 0);
        }
        i != blen
    } else if i == blen {
        proof {
            assert(b@.skip(i as int).len() == 0);
            assert(a@.skip(i as int).len() > 0);
        }
        false
    } else {
        let ca = a.get_char(i);
        let cb = b.get_char(i);
        proof {
            assert(a@.skip(i as int)[0] == a@[i as int]);
            assert(b@.skip(i as int)[0] == b@[i as int]);
            assert(a@.skip(i as int).len() > 0);
            assert(b@.skip(i as int).len() > 0);
        }
        (ca as u32) < (cb as u32)
    }
}

/// Lexicographic order is total: two sequences are equal, or one is
/// strictly below the other.
pub proof fn lemma_str_lt_total(a: Seq<char>, b: Seq<char>)
    ensures
        a == b || spec_str_lt(a, b) || spec_str_lt(b, a),
    decreases a.len(),
{
    if b.len() == 0 {
        if a.len() == 0 {
            assert(a =~= b);
        }
    } else if a.len() == 0 {
    } else if a[0] != b[0] {
    } else {
        lemma_str_lt_total(a.drop_first(), b.drop_first());
        if a.drop_first() == b.drop_first() {
            assert(a =~= b) by {
                assert forall|i: int| 0 <= i < a.len() implies a[i] == b[i] by {
                    assert(a.drop_first().len() == b.drop_first().len());
                    if i > 0 {
                        assert(a[i] == a.drop_first()[i - 1]);
                        assert(b[i] == b.drop_first()[i - 1]);
                    }
                }
            }
        }
    }
}

/// Lexicographic order is transitive.
pub proof fn lemma_str_lt_trans(a: Seq<char>, b: Seq<char>, c: Seq<char>)
    requires
        spec_str_lt(a, b),
        spec_str_lt(b, c),
    ensures
        spec_str_lt(a, c),
    decreases a.len(),
{
    if c.len() == 0 {
    } else if a.len() == 0 {
    } else if b.len() == 0 {
    } else {
        if a[0] != b[0] {
            if b[0] != c[0] {
            } else {
            }
        } else {
            if b[0] != c[0] {
            } else {
                lemma_str_lt_trans(a.drop_first(), b.drop_first(), c.drop_first());
            }
        }
    }
}

// --- substring search ---

/// `needle` occurs in `hay` starting at some position.
pub open spec fn spec_contains_seq<T>(hay: Seq<T>, needle: Seq<T>) -> bool {
    exists|i: int|
        0 <= i && i + needle.len() <= hay.len() && #[trigger] hay.subrange(i, i + needle.len())
            == needle
}

/// Whether `hay` matches `needle` at position `start`.
fn bytes_match_at(hay: &[u8], needle: &[u8], start: usize) -> (r: bool)
    requires
        start + needle@.len() <= hay@.len(),
    ensures
        r == (hay@.subrange(start as int, start as int + needle@.len()) == needle@),
{
    let n = needle.len();
    let hlen = hay.len();
    let mut j: usize = 0;
    while j < n
        invariant
            n == needle@.len(),
            hlen == hay@.len(),
            start + n <= hlen,
            0 <= j <= n,
            forall|k: int| 0 <= k < j ==> hay@[start + k] == needle@[k],
        decreases n - j,
    {
        if hay[start + j] != needle[j] {
            assert(hay@.subrange(start as int, start as int + needle@.len())[j as int]
                != needle@[j as int]);
            return false;
        }
        j = j + 1;
    }
    proof {
        assert(hay@.subrange(start as int, start as int + needle@.len()) =~= needle@);
    }
    true
}

/// Byte-level substring search, as `slice::windows` followed by a
/// comparison would perform it.
pub fn bytes_contain(hay: &[u8], needle: &[u8]) -> (r: bool)
    ensures
        r == spec_contains_seq(hay@, needle@),
{
    let n = needle.len();
    let h = hay.len();
    if n > h {
        return false;
    }
    if n == 0 {
        proof {
            let j: int = 0;
            assert(hay@.subrange(j, j + needle@.len()) =~= needle@);
        }
        return true;
    }
    let mut i: usize = 0;
    while i <= h - n
        invariant
            n == needle@.len(),
            h == hay@.len(),
            0 < n <= h,
            0 <= i <= h - n + 1,
            forall|k: int|
                0 <= k < i ==> #[trigger] hay@.subrange(k, k + needle@.len()) != needle@,
        decreases h - i,
    {
        if bytes_match_at(hay, needle, i) {
            proof {
                assert(hay@.subrange(i as int, i as int + needle@.len()) == needle@);
            }
            return true;
        }
        i = i + 1;
    }
    false
}

/// Character-level substring search over string slices.
pub fn str_contains(hay: &str, needle: &str) -> (r: bool)
    ensures
        r == spec_contains_seq(hay@, needle@),
{
    let n = needle.unicode_len();
    let h = hay.unicode_len();
    if n > h {
        return false;
    }
    if n == 0 {
        proof {
            let j: int = 0;
            assert(hay@.subrange(j, j + needle@.len()) =~= needle@);
        }
        return true;
    }
    let mut i: usize = 0;
    while i <= h - n
        invariant
            n == needle@.len(),
            h == hay@.len(),
            0 < n <= h,
            0 <= i <= h - n + 1,
            forall|k: int|
                0 <= k < i ==> #[trigger] hay@.subrange(k, k + needle@.len()) != needle@,
        decreases h - i,
    {
        let mut j: usize = 0;
        let mut matched = true;
        while j < n
            invariant
                n == needle@.len(),
                h == hay@.len(),
                i + n <= h,
                0 <= j <= n,
                matched ==> forall|k: int| 0 <= k < j ==> hay@[i + k] == needle@[k],
                !matched ==> hay@.subrange(i as int, i as int + needle@.len()) != needle@,
            decreases n - j,
        {
            if matched {
                if hay.get_char(i + j) != needle.get_char(j) {
                    assert(hay@.subrange(i as int, i as int + needle@.len())[j as int]
                        != needle@[j as int]);
                    matched = false;
                }
            }
            j = j + 1;
        }
        if matched {
            proof {
                assert(hay@.subrange(i as int, i as int + needle@.len()) =~= needle@);
                assert(spec_contains_seq(hay@, needle@));
            }
            return true;
        }
        i = i + 1;
    }
    false
}

// --- prefixes ---

/// `s` starts with `prefix`.
pub open spec fn spec_starts_with<T>(s: Seq<T>, prefix: Seq<T>) -> bool {
    prefix.len() <= s.len() && s.subrange(0, prefix.len() as int) == prefix
}

/// Prefix test over string slices.
pub fn str_starts_with(s: &str, prefix: &str) -> (r: bool)
    ensures
        r == spec_starts_with(s@, prefix@),
{
    let n = prefix.unicode_len();
    let h = s.unicode_len();
    if n > h {
        return false;
    }
    let mut j: usize = 0;
    while j < n
        invariant
            n == prefix@.len(),
            h == s@.len(),
            n <= h,
            0 <= j <= n,
            forall|k: int| 0 <= k < j ==> s@[k] == prefix@[k],
        decreases n - j,
    {
        if s.get_char(j) != prefix.get_char(j) {
            assert(s@.subrange(0, prefix@.len() as int)[j as int] != prefix@[j as int]);
            return false;
        }
        j = j + 1;
    }
    proof {
        assert(s@.subrange(0, prefix@.len() as int) =~= prefix@);
    }
    true
}

/// A sequence is a prefix of itself extended by anything.
pub proof fn lemma_starts_with_concat<T>(a: Seq<T>, b: Seq<T>)
    ensures
        spec_starts_with(a + b, a),
{
    assert((a + b).subrange(0, a.len() as int) =~= a);
}

/// Prefixes chain: a prefix of a prefix is a prefix.
pub proof fn lemma_starts_with_trans<T>(x: Seq<T>, y: Seq<T>, z: Seq<T>)
    requires
        spec_starts_with(x, y),
        spec_starts_with(y, z),
    ensures
        spec_starts_with(x, z),
{
    assert(x.subrange(0, z.len() as int) =~= y.subrange(0, z.len() as int));
}

// --- ASCII case folding ---

/// ASCII lower-casing of one character; anything outside `'A'..='Z'`
/// passes through unchanged.
pub open spec fn spec_ascii_lower_char(c: char) -> char {
    if 'A' <= c && c <= 'Z' {
        spec_lower_table()[(c as int) - ('A' as int)]
    } else {
        c
    }
}

/// The lower-case alphabet, in order.
pub open spec fn spec_lower_table() -> Seq<char> {
    seq![
        'a', 'b', 'c', 'd', 'e', 'f', 'g', 'h', 'i', 'j', 'k', 'l', 'm', 'n', 'o', 'p', 'q', 'r',
        's', 't', 'u', 'v', 'w', 'x', 'y', 'z',
    ]
}

/// ASCII lower-casing of one character.
pub fn ascii_lower_char(c: char) -> (r: char)
    ensures
        r == spec_ascii_lower_char(c),
{
    match c {
        'A' => 'a',
        'B' => 'b',
        'C' => 'c',
        'D' => 'd',
        'E' => 'e',
        'F' => 'f',
        'G' => 'g',
        'H' => 'h',
        'I' => 'i',
        'J' => 'j',
        'K' => 'k',
        'L' => 'l',
        'M' => 'm',
        'N' => 'n',
        'O' => 'o',
        'P' => 'p',
        'Q' => 'q',
        'R' => 'r',
        'S' => 's',
        'T' => 't',
        'U' => 'u',
        'V' => 'v',
        'W' => 'w',
        'X' => 'x',
        'Y' => 'y',
        'Z' => 'z',
        _ => c,
    }
}

/// ASCII lower-casing of a whole string.
pub open spec fn spec_ascii_lower(s: Seq<char>) -> Seq<char> {
    s.map_values(|c: char| spec_ascii_lower_char(c))
}

/// Relies on std's `String::push`: appends exactly the one character
/// given to the end of the string.
#[verifier::external_body]
pub fn push_char(s: &mut String, c: char)
    ensures
        final (s)@ == old(s)@.push(c),
{
    s.push(c)
}

/// Lower-cases the ASCII letters of `s`, leaving all other characters
/// unchanged.
pub fn ascii_lower(s: &str) -> (r: String)
    ensures
        r@ == spec_ascii_lower(s@),
{
    let n = s.unicode_len();
    let mut out = String::new();
    let mut i: usize = 0;
    while i < n
        invariant
            n == s@.len(),
            0 <= i <= n,
            out@ =~= spec_ascii_lower(s@.take(i as int)),
        decreases n - i,
    {
        let c = s.get_char(i);
        let lc = ascii_lower_char(c);
        push_char(&mut out, lc);
        proof {
            assert(s@.take(i as int).push(s@[i as int]) =~= s@.take(i as int + 1));
            assert(spec_ascii_lower(s@.take(i as int + 1)) =~= spec_ascii_lower(
                s@.take(i as int),
            ).push(spec_ascii_lower_char(s@[i as int])));
        }
        i = i + 1;
    }
    proof {
        assert(s@.take(n as int) =~= s@);
    }
    out
}

} // verus!
