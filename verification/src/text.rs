//! Small verified text utilities: decimal rendering of integers and
//! substring search, shared by the rule codec and the classifier.
use vstd::prelude::*;
use vstd::string::*;

verus! {

pub open spec fn is_digit(c: char) -> bool {
    '0' <= c && c <= '9'
}

/// The numeric value of a decimal digit character.
pub open spec fn digit_val(c: char) -> int {
    c as int - '0' as int
}

/// The decimal digit character for a value below ten.
pub open spec fn dec_digit_char(d: int) -> char {
    if d == 0 { '0' }
    else if d == 1 { '1' }
    else if d == 2 { '2' }
    else if d == 3 { '3' }
    else if d == 4 { '4' }
    else if d == 5 { '5' }
    else if d == 6 { '6' }
    else if d == 7 { '7' }
    else if d == 8 { '8' }
    else { '9' }
}

/// The decimal rendering of a nonnegative integer, most significant digit first.
pub open spec fn spec_udec(n: nat) -> Seq<char>
    decreases n,
{
    if n < 10 {
        seq![dec_digit_char(n as int)]
    } else {
        spec_udec(n / 10).push(dec_digit_char((n % 10) as int))
    }
}

/// The decimal rendering of a signed integer, with a leading minus sign
/// when it is negative.
pub open spec fn spec_idec(n: int) -> Seq<char> {
    if n < 0 {
        seq!['-'] + spec_udec((-n) as nat)
    } else {
        spec_udec(n as nat)
    }
}

/// A decimal rendering is a nonempty string of digits.
pub proof fn lemma_udec_digits(n: nat)
    ensures
        spec_udec(n).len() >= 1,
        forall|j: int| 0 <= j < spec_udec(n).len() ==> is_digit(#[trigger] spec_udec(n)[j]),
    decreases n,
{
    if n >= 10 {
        lemma_udec_digits(n / 10);
    }
}

/// Reading a decimal rendering back yields the rendered number.
pub proof fn lemma_udec_val(n: nat)
    ensures
        digits_val(spec_udec(n)) == n,
    decreases n,
{
    if n < 10 {
        let s = spec_udec(n);
        assert(s.drop_last() =~= Seq::<char>::empty());
        assert(digits_val(s) == digits_val(Seq::<char>::empty()) * 10 + digit_val(s.last()));
        assert(digits_val(Seq::<char>::empty()) == 0);
        assert(s.last() == dec_digit_char(n as int));
        assert(digit_val(dec_digit_char(n as int)) == n);
    } else {
        lemma_udec_val(n / 10);
        let s = spec_udec(n);
        assert(s.drop_last() =~= spec_udec(n / 10));
        assert(s.last() == dec_digit_char((n % 10) as int));
    }
}

/// The value of a digit string read as a decimal number.
pub open spec fn digits_val(s: Seq<char>) -> int
    decreases s.len(),
{
    if s.len() == 0 {
        0
    } else {
        digits_val(s.drop_last()) * 10 + digit_val(s.last())
    }
}

fn digit_str(d: u64) -> (r: &'static str)
    requires
        d < 10,
    ensures
        r@ == seq![dec_digit_char(d as int)],
{
    proof {
        reveal_strlit("0");
        reveal_strlit("1");
        reveal_strlit("2");
        reveal_strlit("3");
        reveal_strlit("4");
        reveal_strlit("5");
        reveal_strlit("6");
        reveal_strlit("7");
        reveal_strlit("8");
        reveal_strlit("9");
    }
    let r = if d == 0 { "0" }
    else if d == 1 { "1" }
    else if d == 2 { "2" }
    else if d == 3 { "3" }
    else if d == 4 { "4" }
    else if d == 5 { "5" }
    else if d == 6 { "6" }
    else if d == 7 { "7" }
    else if d == 8 { "8" }
    else { "9" };
    proof {
        assert(r@ =~= seq![dec_digit_char(d as int)]);
    }
    r
}

fn push_udec(s: &mut String, n: u64)
    ensures
        final(s)@ == old(s)@ + spec_udec(n as nat),
    decreases n,
{
    if n < 10 {
        s.append(digit_str(n));
        proof {
            assert(final(s)@ =~= old(s)@ + spec_udec(n as nat));
        }
    } else {
        push_udec(s, n / 10);
        s.append(digit_str(n % 10));
        proof {
            assert(final(s)@ =~= old(s)@ + spec_udec(n as nat));
        }
    }
}

/// Renders a `u64` in decimal.
pub fn u64_to_string(n: u64) -> (r: String)
    ensures
        r@ == spec_udec(n as nat),
{
    let mut s = String::new();
    push_udec(&mut s, n);
    proof {
        assert(s@ =~= spec_udec(n as nat));
    }
    s
}

/// Renders an `i64` in decimal, with a minus sign when negative.
pub fn i64_to_string(n: i64) -> (r: String)
    ensures
        r@ == spec_idec(n as int),
{
    if n >= 0 {
        u64_to_string(n as u64)
    } else {
        let mut s = String::new();
        s.append("-");
        let mag: u64 = if n == i64::MIN {
            9223372036854775808u64
        } else {
            (-n) as u64
        };
        push_udec(&mut s, mag);
        proof {
            reveal_strlit("-");
            assert(s@ =~= spec_idec(n as int));
        }
        s
    }
}

/// The pattern `p` occurs in `s` starting at index `i`.
pub open spec fn match_at(s: Seq<char>, p: Seq<char>, i: int) -> bool {
    0 <= i && i + p.len() <= s.len() && s.subrange(i, i + p.len()) == p
}

/// The pattern `p` occurs somewhere in `s`.
pub open spec fn spec_contains(s: Seq<char>, p: Seq<char>) -> bool {
    exists|i: int| match_at(s, p, i)
}

/// Compares `p` against the slice of `s` starting at `i`.
pub fn str_eq_at(s: &str, n: usize, p: &str, m: usize, i: usize) -> (r: bool)
    requires
        n == s@.len(),
        m == p@.len(),
        i + m <= n,
    ensures
        r == match_at(s@, p@, i as int),
{
    let mut j: usize = 0;
    while j < m
        invariant
            n == s@.len(),
            m == p@.len(),
            i + m <= n,
            j <= m,
            forall|k: int| 0 <= k < j ==> s@[i + k] == p@[k],
        decreases m - j,
    {
        if s.get_char(i + j) != p.get_char(j) {
            proof {
                assert(s@.subrange(i as int, i + m) != p@) by {
                    assert(s@.subrange(i as int, i + m)[j as int] == s@[i + j]);
                }
            }
            return false;
        }
        j += 1;
    }
    proof {
        assert(s@.subrange(i as int, i + m) =~= p@);
    }
    true
}

/// ASCII letters and digits, as bytes.
pub open spec fn is_alnum_byte(b: u8) -> bool {
    (0x30 <= b && b <= 0x39) || (0x61 <= b && b <= 0x7a) || (0x41 <= b && b <= 0x5a)
}

/// The uppercase hexadecimal digit for a value below sixteen, as a byte.
pub open spec fn hex_byte(d: int) -> u8 {
    if d < 10 {
        (0x30 + d) as u8
    } else {
        (0x37 + d) as u8
    }
}

/// The percent-encoding of one byte under the non-alphanumeric set:
/// letters and digits stand for themselves, every other byte becomes
/// `%` and two uppercase hexadecimal digits.
pub open spec fn spec_pct_byte(b: u8) -> Seq<u8> {
    if is_alnum_byte(b) {
        seq![b]
    } else {
        seq![0x25u8, hex_byte(b as int / 16), hex_byte(b as int % 16)]
    }
}

/// The percent-encoding of a byte string.
pub open spec fn spec_pct(bs: Seq<u8>) -> Seq<u8>
    decreases bs.len(),
{
    if bs.len() == 0 {
        Seq::empty()
    } else {
        spec_pct(bs.drop_last()) + spec_pct_byte(bs.last())
    }
}

/// The percent-encoding read back as text; its bytes are ASCII, so
/// each byte is one character.
pub open spec fn spec_pct_chars(bs: Seq<u8>) -> Seq<char> {
    spec_pct(bs).map_values(|b: u8| b as char)
}

proof fn lemma_pct_ascii(bs: Seq<u8>)
    ensures
        forall|i: int| 0 <= i < spec_pct(bs).len() ==> #[trigger] spec_pct(bs)[i] < 0x80,
    decreases bs.len(),
{
    if bs.len() > 0 {
        lemma_pct_ascii(bs.drop_last());
        let a = spec_pct(bs.drop_last());
        let b = spec_pct_byte(bs.last());
        assert(spec_pct(bs) == a + b);
        assert forall|i: int| 0 <= i < spec_pct(bs).len() implies #[trigger] spec_pct(bs)[i]
            < 0x80 by {
            if i < a.len() {
                assert(spec_pct(bs)[i] == a[i]);
            } else {
                assert(spec_pct(bs)[i] == b[i - a.len()]);
            }
        }
    }
}

/// Relies on `String::from_utf8`: a vector of ASCII bytes decodes to
/// the string with those characters.
#[verifier::external_body]
fn string_from_ascii(v: Vec<u8>) -> (r: String)
    requires
        forall|i: int| 0 <= i < v@.len() ==> #[trigger] v@[i] < 0x80,
    ensures
        r@.len() == v@.len(),
        forall|i: int| 0 <= i < v@.len() ==> r@[i] == #[trigger] v@[i] as char,
{
    String::from_utf8(v).unwrap_or_default()
}

fn pct_push(out: &mut Vec<u8>, b: u8)
    ensures
        final(out)@ == old(out)@ + spec_pct_byte(b),
{
    let alnum = (0x30 <= b && b <= 0x39) || (0x61 <= b && b <= 0x7a) || (0x41 <= b && b <= 0x5a);
    if alnum {
        out.push(b);
        proof {
            assert(final(out)@ =~= old(out)@ + spec_pct_byte(b));
        }
    } else {
        let hi = b / 16;
        let lo = b % 16;
        out.push(0x25);
        out.push(if hi < 10 { 0x30 + hi } else { 0x37 + hi });
        out.push(if lo < 10 { 0x30 + lo } else { 0x37 + lo });
        proof {
            assert(final(out)@ =~= old(out)@ + spec_pct_byte(b));
        }
    }
}

/// Percent-encodes a byte string under the non-alphanumeric set.
pub fn percent_encode_bytes(v: &[u8]) -> (r: Vec<u8>)
    ensures
        r@ == spec_pct(v@),
{
    let mut out: Vec<u8> = Vec::new();
    let mut i: usize = 0;
    proof {
        assert(v@.take(0) =~= Seq::<u8>::empty());
    }
    while i < v.len()
        invariant
            i <= v@.len(),
            out@ == spec_pct(v@.take(i as int)),
        decreases v@.len() - i,
    {
        let ghost prefix = v@.take(i as int);
        let ghost next = v@.take(i + 1);
        proof {
            assert(next.drop_last() =~= prefix);
            assert(next.last() == v@[i as int]);
        }
        pct_push(&mut out, v[i]);
        i += 1;
    }
    proof {
        assert(v@.take(v@.len() as int) =~= v@);
    }
    out
}

/// Percent-encodes the bytes of a string under the non-alphanumeric
/// set, as the default redirect does for the origin and the hostname.
pub fn percent_encode_str(s: &str) -> (r: String)
    ensures
        r@ == spec_pct_chars(vstd::utf8::encode_utf8(s@)),
{
    let bytes = s.as_bytes();
    let enc = percent_encode_bytes(bytes);
    proof {
        lemma_pct_ascii(s.spec_bytes());
    }
    let r = string_from_ascii(enc);
    proof {
        assert(r@ =~= spec_pct_chars(vstd::utf8::encode_utf8(s@)));
    }
    r
}

/// Index of the first occurrence of `c` at or after `i`.
pub open spec fn spec_find_char_from(s: Seq<char>, i: int, c: char) -> Option<int>
    decreases s.len() - i when 0 <= i
{
    if i >= s.len() {
        None
    } else if s[i] == c {
        Some(i)
    } else {
        spec_find_char_from(s, i + 1, c)
    }
}

/// Finds the first occurrence of a character.
pub fn find_char(s: &str, c: char) -> (r: Option<usize>)
    ensures
        match r {
            Some(j) => spec_find_char_from(s@, 0, c) == Some(j as int) && j < s@.len(),
            None => spec_find_char_from(s@, 0, c) is None,
        },
{
    let n = s.unicode_len();
    let mut i: usize = 0;
    while i < n
        invariant
            n == s@.len(),
            i <= n,
            spec_find_char_from(s@, 0, c) == spec_find_char_from(s@, i as int, c),
        decreases n - i,
    {
        if s.get_char(i) == c {
            return Some(i);
        }
        i += 1;
    }
    None
}

/// Character-for-character string equality.
pub fn str_eq(a: &str, b: &str) -> (r: bool)
    ensures
        r == (a@ == b@),
{
    let n = a.unicode_len();
    let m = b.unicode_len();
    if n != m {
        return false;
    }
    let r = str_eq_at(a, n, b, m, 0);
    proof {
        if r {
            assert(a@.subrange(0, m as int) =~= a@);
        } else {
            assert(a@.subrange(0, m as int) =~= a@);
        }
    }
    r
}

/// Substring search: does `s` contain `p`?
pub fn contains_sub(s: &str, p: &str) -> (r: bool)
    ensures
        r == spec_contains(s@, p@),
{
    let n = s.unicode_len();
    let m = p.unicode_len();
    if m > n {
        proof {
            assert(forall|i: int| !match_at(s@, p@, i));
        }
        return false;
    }
    if m == 0 {
        proof {
            assert(s@.subrange(0, 0) =~= p@);
            assert(match_at(s@, p@, 0));
        }
        return true;
    }
    let mut i: usize = 0;
    while i <= n - m
        invariant
            n == s@.len(),
            m == p@.len(),
            1 <= m <= n,
            i <= n - m + 1,
            forall|k: int| 0 <= k < i ==> !match_at(s@, p@, k),
        decreases n - m - i + 1,
    {
        if str_eq_at(s, n, p, m, i) {
            proof {
                assert(match_at(s@, p@, i as int));
            }
            return true;
        }
        i += 1;
    }
    proof {
        assert(forall|k: int| 0 <= k < n - m + 1 ==> !match_at(s@, p@, k));
        assert(forall|k: int| !match_at(s@, p@, k));
    }
    false
}

} // verus!
