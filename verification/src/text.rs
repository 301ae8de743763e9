//! Text helpers over the UTF-8 bytes of string slices: substring search,
//! equality, decimal rendering, and the few standard-library string calls
//! the compartments rely on.

use vstd::prelude::*;
use vstd::string::StringSliceAdditionalSpecFns;
use vstd::utf8::*;

verus! {

broadcast use vstd::utf8::encode_utf8_valid_utf8, vstd::utf8::encode_utf8_decode_utf8;

// ---------------------------------------------------------------------------
// Standard-library string operations
// ---------------------------------------------------------------------------

/// `String::push` appends one character at the end of the string.
pub assume_specification[ std::string::String::push ](string: &mut std::string::String, ch: char)
    ensures
        final(string)@ == old(string)@.push(ch),
;

/// The error `std::str::from_utf8` reports for bytes that are not UTF-8.
#[verifier::external_type_specification]
#[verifier::external_body]
pub struct ExUtf8Error(std::str::Utf8Error);

/// Calls `std::str::from_utf8`, which accepts exactly the well-formed UTF-8
/// byte sequences and then views the same bytes as a string slice.
#[verifier::external_body]
pub(crate) fn str_from_utf8(bytes: &[u8]) -> (r: Result<&str, std::str::Utf8Error>)
    ensures
        r is Ok <==> valid_utf8(bytes@),
        r matches Ok(s) ==> s.spec_bytes() == bytes@,
{
    std::str::from_utf8(bytes)
}

/// The characters that `char::is_whitespace` accepts: the Unicode
/// `White_Space` property.
pub open spec fn is_unicode_whitespace(c: char) -> bool {
    let u = c as u32;
    ||| 0x09 <= u <= 0x0d
    ||| u == 0x20
    ||| u == 0x85
    ||| u == 0xa0
    ||| u == 0x1680
    ||| 0x2000 <= u <= 0x200a
    ||| u == 0x2028
    ||| u == 0x2029
    ||| u == 0x202f
    ||| u == 0x205f
    ||| u == 0x3000
}

/// `s` without its leading whitespace characters.
pub open spec fn trim_start_chars(s: Seq<char>) -> Seq<char>
    decreases s.len(),
{
    if s.len() > 0 && is_unicode_whitespace(s[0]) {
        trim_start_chars(s.drop_first())
    } else {
        s
    }
}

/// `s` without its trailing whitespace characters.
pub open spec fn trim_end_chars(s: Seq<char>) -> Seq<char>
    decreases s.len(),
{
    if s.len() > 0 && is_unicode_whitespace(s.last()) {
        trim_end_chars(s.drop_last())
    } else {
        s
    }
}

/// `s` without leading and trailing whitespace characters.
pub open spec fn trim_chars(s: Seq<char>) -> Seq<char> {
    trim_end_chars(trim_start_chars(s))
}

/// Calls `str::trim`, which returns the slice of `s` without leading and
/// trailing whitespace (as `char::is_whitespace` defines it).
#[verifier::external_body]
pub(crate) fn trim_str(s: &str) -> (r: &str)
    ensures
        r@ == trim_chars(s@),
{
    s.trim()
}

// ---------------------------------------------------------------------------
// Byte search
// ---------------------------------------------------------------------------

/// `needle` occurs in `hay` starting at byte `i`.
pub open spec fn occurs_at(hay: Seq<u8>, needle: Seq<u8>, i: int) -> bool {
    0 <= i && i + needle.len() <= hay.len() && hay.subrange(i, i + needle.len()) == needle
}

/// `needle` occurs somewhere in `hay`.
pub open spec fn occurs_in(hay: Seq<u8>, needle: Seq<u8>) -> bool {
    exists|i: int| occurs_at(hay, needle, i)
}

/// The first byte offset, from `i` on, at which `needle` occurs in `hay`.
pub open spec fn first_occurrence_from(hay: Seq<u8>, needle: Seq<u8>, i: int) -> Option<int>
    decreases hay.len() + 1 - i,
{
    if i < 0 || i + needle.len() > hay.len() {
        None
    } else if occurs_at(hay, needle, i) {
        Some(i)
    } else {
        first_occurrence_from(hay, needle, i + 1)
    }
}

/// The first byte offset at which `needle` occurs in `hay`.
pub open spec fn first_occurrence(hay: Seq<u8>, needle: Seq<u8>) -> Option<int> {
    first_occurrence_from(hay, needle, 0)
}

/// The first occurrence is an occurrence, none comes before it, and there
/// is none exactly when `needle` does not occur at all.
pub proof fn lemma_first_occurrence_from(hay: Seq<u8>, needle: Seq<u8>, i: int)
    requires
        0 <= i,
    ensures
        first_occurrence_from(hay, needle, i) matches Some(k) ==> i <= k && occurs_at(hay, needle, k)
            && forall|j: int| i <= j < k ==> !occurs_at(hay, needle, j),
        first_occurrence_from(hay, needle, i) is None ==> forall|j: int| i <= j ==> !occurs_at(hay, needle, j),
    decreases hay.len() + 1 - i,
{
    if i + needle.len() > hay.len() {
    } else if occurs_at(hay, needle, i) {
    } else {
        lemma_first_occurrence_from(hay, needle, i + 1);
    }
}

/// Facts about `first_occurrence` over the whole of `hay`.
pub proof fn lemma_first_occurrence(hay: Seq<u8>, needle: Seq<u8>)
    ensures
        first_occurrence(hay, needle) matches Some(k) ==> occurs_at(hay, needle, k)
            && forall|j: int| 0 <= j < k ==> !occurs_at(hay, needle, j),
        first_occurrence(hay, needle) is None <==> !occurs_in(hay, needle),
{
    lemma_first_occurrence_from(hay, needle, 0);
    if let Some(k) = first_occurrence(hay, needle) {
        assert(occurs_at(hay, needle, k));
    }
}

fn matches_at(hay: &[u8], needle: &[u8], i: usize) -> (r: bool)
    requires
        i + needle@.len() <= hay@.len(),
    ensures
        r == occurs_at(hay@, needle@, i as int),
{
    let hay_len = hay.len();
    let mut k: usize = 0;
    while k < needle.len()
        invariant
            hay_len == hay@.len(),
            i + needle@.len() <= hay@.len(),
            0 <= k <= needle@.len(),
            forall|m: int| 0 <= m < k ==> hay@[i + m] == needle@[m],
        decreases needle@.len() - k,
    {
        if hay[i + k] != needle[k] {
            assert(hay@.subrange(i as int, i + needle@.len())[k as int] != needle@[k as int]);
            return false;
        }
        k = k + 1;
    }
    assert(hay@.subrange(i as int, i + needle@.len()) =~= needle@);
    true
}

proof fn lemma_first_occurrence_scan(hay: Seq<u8>, needle: Seq<u8>, i: int, k: int)
    requires
        0 <= i <= k,
        forall|j: int| i <= j < k ==> !occurs_at(hay, needle, j),
    ensures
        first_occurrence_from(hay, needle, i) == first_occurrence_from(hay, needle, k),
    decreases k - i,
{
    if i < k {
        lemma_first_occurrence_scan(hay, needle, i + 1, k);
        assert(!occurs_at(hay, needle, i));
        if i + needle.len() > hay.len() {
            if k + needle.len() <= hay.len() {
                assert(false);
            }
            assert(first_occurrence_from(hay, needle, k) is None);
        }
    }
}

/// Byte offset of the first occurrence of `needle` in `hay`.
pub fn find_bytes(hay: &[u8], needle: &[u8]) -> (r: Option<usize>)
    ensures
        r matches Some(i) ==> first_occurrence(hay@, needle@) == Some(i as int),
        r is None ==> first_occurrence(hay@, needle@) is None,
{
    if needle.len() > hay.len() {
        return None;
    }
    if needle.len() == 0 {
        assert(hay@.subrange(0, 0) =~= needle@);
        return Some(0);
    }
    let end = hay.len() - needle.len() + 1;
    let mut i: usize = 0;
    while i < end
        invariant
            end == hay@.len() - needle@.len() + 1,
            needle@.len() >= 1,
            0 <= i <= end,
            forall|j: int| 0 <= j < i ==> !occurs_at(hay@, needle@, j),
        decreases end - i,
    {
        if matches_at(hay, needle, i) {
            proof {
                lemma_first_occurrence_scan(hay@, needle@, 0, i as int);
            }
            return Some(i);
        }
        i = i + 1;
    }
    proof {
        lemma_first_occurrence_scan(hay@, needle@, 0, i as int);
    }
    None
}

/// Whether `needle` occurs in `hay`, as `str::contains` with a string
/// pattern answers it.
pub fn str_contains(hay: &str, needle: &str) -> (r: bool)
    ensures
        r == occurs_in(hay.spec_bytes(), needle.spec_bytes()),
{
    let r = find_bytes(hay.as_bytes(), needle.as_bytes()).is_some();
    proof {
        lemma_first_occurrence(hay.spec_bytes(), needle.spec_bytes());
    }
    r
}

/// Byte offset of the first occurrence of `needle` in `hay`, as `str::find`
/// with a string pattern answers it.
pub fn str_find(hay: &str, needle: &str) -> (r: Option<usize>)
    ensures
        r matches Some(i) ==> first_occurrence(hay.spec_bytes(), needle.spec_bytes()) == Some(i as int),
        r is None ==> first_occurrence(hay.spec_bytes(), needle.spec_bytes()) is None,
{
    find_bytes(hay.as_bytes(), needle.as_bytes())
}

/// Whether two byte slices hold the same bytes.
pub fn bytes_equal(a: &[u8], b: &[u8]) -> (r: bool)
    ensures
        r == (a@ == b@),
{
    if a.len() != b.len() {
        return false;
    }
    let mut k: usize = 0;
    while k < a.len()
        invariant
            a@.len() == b@.len(),
            0 <= k <= a@.len(),
            forall|m: int| 0 <= m < k ==> a@[m] == b@[m],
        decreases a@.len() - k,
    {
        if a[k] != b[k] {
            return false;
        }
        k = k + 1;
    }
    assert(a@ =~= b@);
    true
}

/// Whether two string slices hold the same characters.
pub fn str_equal(a: &str, b: &str) -> (r: bool)
    ensures
        r == (a@ == b@),
{
    let r = bytes_equal(a.as_bytes(), b.as_bytes());
    proof {
        if a.spec_bytes() == b.spec_bytes() {
            assert(decode_utf8(encode_utf8(a@)) == a@);
            assert(decode_utf8(encode_utf8(b@)) == b@);
        }
    }
    r
}

// ---------------------------------------------------------------------------
// Slicing after an ASCII byte
// ---------------------------------------------------------------------------

/// In UTF-8 text, the position right after an ASCII byte starts a character.
pub proof fn lemma_boundary_after_ascii(bytes: Seq<u8>, i: int)
    requires
        valid_utf8(bytes),
        0 < i <= bytes.len(),
        bytes[i - 1] < 0x80,
    ensures
        is_char_boundary(bytes, i),
{
    if i == bytes.len() {
        is_char_boundary_start_end_of_seq(bytes);
    } else {
        is_char_boundary_iff_not_is_continuation_byte(bytes, i - 1);
        valid_utf8_split(bytes, i - 1);
        let suffix = bytes.subrange(i - 1, bytes.len() as int);
        assert(valid_utf8(suffix));
        assert(length_of_first_scalar(suffix) == 1);
        let rest = pop_first_scalar(suffix);
        assert(rest =~= bytes.subrange(i, bytes.len() as int));
        assert(valid_utf8(rest));
        is_char_boundary_iff_not_is_continuation_byte(rest, 0);
        assert(rest[0] == bytes[i]);
        is_char_boundary_iff_not_is_continuation_byte(bytes, i);
    }
}

/// The part of `s` from byte `at` on, where the byte before `at` is ASCII.
pub fn suffix_after_ascii(s: &str, at: usize) -> (r: &str)
    requires
        0 < at <= s.spec_bytes().len(),
        s.spec_bytes()[at - 1] < 0x80,
    ensures
        r.spec_bytes() == s.spec_bytes().subrange(at as int, s.spec_bytes().len() as int),
{
    proof {
        lemma_boundary_after_ascii(s.spec_bytes(), at as int);
    }
    let (_, tail) = s.split_at(at);
    tail
}

// ---------------------------------------------------------------------------
// Decimal rendering
// ---------------------------------------------------------------------------

/// Number of decimal digits of `n` (one for zero).
pub open spec fn digit_count(n: nat) -> nat
    decreases n,
{
    if n < 10 {
        1
    } else {
        1 + digit_count(n / 10)
    }
}

/// The `k` least significant decimal digits of `n` as ASCII, most
/// significant first (zero-padded when `n` has fewer digits).
pub open spec fn low_digits(n: nat, k: nat) -> Seq<u8>
    decreases k,
{
    if k == 0 {
        Seq::empty()
    } else {
        low_digits(n / 10, (k - 1) as nat).push((48 + n % 10) as u8)
    }
}

/// `n` in decimal, as ASCII digits.
pub open spec fn decimal(n: nat) -> Seq<u8> {
    low_digits(n, digit_count(n))
}

/// The same digits as characters.
pub open spec fn ascii_chars(bytes: Seq<u8>) -> Seq<char> {
    bytes.map_values(|b: u8| b as char)
}

/// The number a sequence of ASCII decimal digits denotes.
pub open spec fn digits_value(s: Seq<u8>) -> nat
    decreases s.len(),
{
    if s.len() == 0 {
        0
    } else {
        digits_value(s.drop_last()) * 10 + (s.last() - 48) as nat
    }
}

/// Counts the decimal digits of `n`.
pub fn count_digits(n: u64) -> (c: usize)
    ensures
        c == digit_count(n as nat),
        1 <= c <= 20,
{
    let mut m: u64 = n;
    let mut c: usize = 1;
    proof {
        lemma_digit_count_bound(n as nat);
    }
    while m >= 10
        invariant
            digit_count(n as nat) == c - 1 + digit_count(m as nat),
            digit_count(n as nat) <= 20,
            1 <= c <= 20,
        decreases m,
    {
        assert(digit_count((m / 10) as nat) >= 1);
        m = m / 10;
        c = c + 1;
    }
    c
}

/// Ten to the power `k`.
pub open spec fn pow10(k: nat) -> nat
    decreases k,
{
    if k == 0 {
        1
    } else {
        10 * pow10((k - 1) as nat)
    }
}

pub proof fn lemma_pow10_positive(k: nat)
    ensures
        pow10(k) >= 1,
    decreases k,
{
    if k > 0 {
        lemma_pow10_positive((k - 1) as nat);
    }
}

proof fn lemma_digit_count_bound(n: nat)
    requires
        n <= u64::MAX,
    ensures
        digit_count(n) <= 20,
{
    assert(pow10(20) == 100000000000000000000) by {
        reveal_with_fuel(pow10, 21);
    }
    lemma_digit_count_below_pow(n, 20);
}

/// A number below `10^k` has at most `k` digits.
pub proof fn lemma_digit_count_below_pow(n: nat, k: nat)
    requires
        k >= 1,
        n < pow10(k),
    ensures
        digit_count(n) <= k,
    decreases k,
{
    if n >= 10 {
        if k == 1 {
            assert(pow10(1) == 10) by {
                reveal_with_fuel(pow10, 2);
            }
        } else {
            let p = pow10((k - 1) as nat);
            assert(n / 10 < p) by (nonlinear_arith)
                requires n < 10 * p, p > 0;
            lemma_digit_count_below_pow(n / 10, (k - 1) as nat);
        }
    }
}

/// Appends the `k` least significant decimal digits of `n`.
pub fn push_low_digits(out: &mut Vec<u8>, n: u64, k: usize)
    ensures
        final(out)@ == old(out)@ + low_digits(n as nat, k as nat),
    decreases k,
{
    if k > 0 {
        push_low_digits(out, n / 10, k - 1);
        out.push((48 + n % 10) as u8);
        assert(old(out)@ + low_digits(n as nat, k as nat) =~= old(out)@ + low_digits((n / 10) as nat, (k - 1) as nat) + seq![(48 + n % 10) as u8]);
    }
}

/// The decimal digits of `n`.
pub fn decimal_bytes(n: u64) -> (v: Vec<u8>)
    ensures
        v@ == decimal(n as nat),
{
    let mut v: Vec<u8> = Vec::new();
    let k = count_digits(n);
    push_low_digits(&mut v, n, k);
    assert(v@ =~= decimal(n as nat));
    v
}

/// Appends the decimal digits of `n` to `s`.
pub fn push_decimal(s: &mut std::string::String, n: u64)
    ensures
        final(s)@ == old(s)@ + ascii_chars(decimal(n as nat)),
{
    let digits = decimal_bytes(n);
    let mut i: usize = 0;
    while i < digits.len()
        invariant
            0 <= i <= digits@.len(),
            digits@ == decimal(n as nat),
            s@ == old(s)@ + ascii_chars(digits@.subrange(0, i as int)),
        decreases digits@.len() - i,
    {
        s.push(digits[i] as char);
        assert(ascii_chars(digits@.subrange(0, i + 1)) =~= ascii_chars(digits@.subrange(0, i as int)).push(digits@[i as int] as char));
        i = i + 1;
    }
    assert(digits@.subrange(0, digits@.len() as int) =~= digits@);
}

/// Appends the characters of `t` to `s`.
pub fn push_str(s: &mut std::string::String, t: &str)
    ensures
        final(s)@ == old(s)@ + t@,
{
    let mut it = t.chars();
    broadcast use vstd::string::axiom_spec_iter, vstd::string::next_postcondition;
    let ghost start = s@;
    loop
        invariant
            vstd::std_specs::iter::IteratorSpec::obeys_prophetic_iter_laws(&it),
            vstd::std_specs::iter::IteratorSpec::decrease(&it) is Some,
            start + t@ == s@ + vstd::std_specs::iter::IteratorSpec::remaining(&it),
            start == old(s)@,
        decreases vstd::std_specs::iter::IteratorSpec::decrease(&it)->0,
    {
        let ghost before = vstd::std_specs::iter::IteratorSpec::remaining(&it);
        match it.next() {
            Some(c) => {
                s.push(c);
                assert(before =~= seq![c] + vstd::std_specs::iter::IteratorSpec::remaining(&it));
            },
            None => {
                assert(s@ =~= start + t@);
                return;
            },
        }
    }
}

// ---------------------------------------------------------------------------
// Laws of decimal rendering
// ---------------------------------------------------------------------------

/// The `k` low digits of `n` denote `n mod 10^k`.
pub proof fn lemma_low_digits_value(n: nat, k: nat)
    ensures
        low_digits(n, k).len() == k,
        digits_value(low_digits(n, k)) == n % pow10(k),
    decreases k,
{
    lemma_pow10_positive(k);
    if k > 0 {
        lemma_low_digits_value(n / 10, (k - 1) as nat);
        let s = low_digits(n, k);
        assert(s.drop_last() =~= low_digits(n / 10, (k - 1) as nat));
        let p = pow10((k - 1) as nat);
        lemma_pow10_positive((k - 1) as nat);
        vstd::arithmetic::div_mod::lemma_breakdown(n as int, 10, p as int);
        assert(((n / 10) % p) * 10 == 10 * ((n / 10) % p)) by (nonlinear_arith);
    }
}

/// Every number is below `10^digit_count`.
pub proof fn lemma_below_pow_digit_count(n: nat)
    ensures
        n < pow10(digit_count(n)),
    decreases n,
{
    reveal_with_fuel(pow10, 2);
    if n >= 10 {
        lemma_below_pow_digit_count(n / 10);
        let k = digit_count(n / 10);
        let p = pow10(k);
        assert(n < 10 * p) by (nonlinear_arith)
            requires n / 10 < p, n >= 0;
    }
}

/// Decimal rendering is faithful: the digits of `n` denote `n`.
pub proof fn lemma_decimal_value(n: nat)
    ensures
        digits_value(decimal(n)) == n,
        decimal(n).len() == digit_count(n),
{
    lemma_low_digits_value(n, digit_count(n));
    lemma_below_pow_digit_count(n);
    vstd::arithmetic::div_mod::lemma_small_mod(n, pow10(digit_count(n)));
}

} // verus!

verus! {

/// Appends the bytes of `b` to `out`.
pub fn append_bytes(out: &mut Vec<u8>, b: &[u8])
    ensures
        final(out)@ == old(out)@ + b@,
{
    append_prefix(out, b, b.len());
    assert(b@.take(b@.len() as int) =~= b@);
}

/// Appends the first `n` bytes of `b` to `out`.
pub fn append_prefix(out: &mut Vec<u8>, b: &[u8], n: usize)
    requires
        n <= b@.len(),
    ensures
        final(out)@ == old(out)@ + b@.take(n as int),
{
    let mut i: usize = 0;
    while i < n
        invariant
            0 <= i <= n,
            n <= b@.len(),
            out@ == old(out)@ + b@.take(i as int),
        decreases n - i,
    {
        out.push(b[i]);
        assert(b@.take(i + 1) =~= b@.take(i as int).push(b@[i as int]));
        i = i + 1;
    }
}

} // verus!
