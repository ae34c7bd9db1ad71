//! Additive checksums over file contents.
//!
//! A file's bytes are summed twice during a scan: once over a short header
//! prefix as a cheap pre-filter, and once over the whole content to confirm
//! a suspected duplicate.

use vstd::prelude::*;
use vstd::string::StrSliceExecFns;

use crate::string_utils::chars_to_string;
use crate::string_utils::string_to_chars;
use crate::string_utils::to_uppercase;
use crate::string_utils::upper_of;

verus! {

/// Number of bytes of a file's header that feed the header checksum.
pub const HEADER_LEN: usize = 256;

/// Sum of the byte values of a sequence, as a mathematical integer.
pub open spec fn byte_sum(s: Seq<u8>) -> int
    decreases s.len(),
{
    if s.len() == 0 {
        0
    } else {
        byte_sum(s.drop_last()) + s.last()
    }
}

/// The byte sum is bounded by 255 per byte.
pub proof fn lemma_byte_sum_bounds(s: Seq<u8>)
    ensures
        0 <= byte_sum(s) <= 255 * s.len(),
    decreases s.len(),
{
    if s.len() > 0 {
        lemma_byte_sum_bounds(s.drop_last());
    }
}

/// Header checksum: the sum of the (at most `HEADER_LEN`) header bytes.
///
/// The caller hands in the bytes actually read from the start of the file.
/// A result of 0 doubles as the "unset" marker on a candidate, so a header
/// of all zero bytes is indistinguishable from a missing checksum; the scan
/// treats such candidates as unconfirmable, never as matching.
pub fn get_header_checksum(bytes: &Vec<u8>) -> (r: i64)
    requires
        bytes@.len() <= HEADER_LEN,
    ensures
        r == byte_sum(bytes@),
{
    proof {
        lemma_byte_sum_bounds(bytes@);
    }
    let mut sum: i64 = 0;
    let mut i: usize = 0;
    while i < bytes.len()
        invariant
            i <= bytes@.len() <= HEADER_LEN,
            sum == byte_sum(bytes@.take(i as int)),
            0 <= sum <= 255 * i,
        decreases bytes@.len() - i,
    {
        proof {
            assert(bytes@.take(i + 1 as int).drop_last() =~= bytes@.take(i as int));
        }
        sum = sum + bytes[i] as i64;
        i = i + 1;
    }
    proof {
        assert(bytes@.take(bytes@.len() as int) =~= bytes@);
    }
    sum
}

/// Full-content checksum: the sum of every byte of the file.
///
/// A `u128` accumulator cannot overflow: the sum is at most `255 * len`,
/// and `len` fits in a `usize`.
pub fn compute_file_checksum(bytes: &Vec<u8>) -> (r: u128)
    ensures
        r == byte_sum(bytes@),
{
    proof {
        lemma_byte_sum_bounds(bytes@);
    }
    let mut sum: u128 = 0;
    let mut i: usize = 0;
    while i < bytes.len()
        invariant
            i <= bytes@.len(),
            sum == byte_sum(bytes@.take(i as int)),
            sum <= 255 * i,
        decreases bytes@.len() - i,
    {
        proof {
            assert(bytes@.take(i + 1 as int).drop_last() =~= bytes@.take(i as int));
            lemma_byte_sum_bounds(bytes@.take(i + 1 as int));
        }
        sum = sum + bytes[i] as u128;
        i = i + 1;
    }
    proof {
        assert(bytes@.take(bytes@.len() as int) =~= bytes@);
    }
    sum
}

/// The character for a single decimal digit.
pub open spec fn dec_digit(n: int) -> char {
    (48 + n) as char
}

/// The decimal numeral of `n`, without a sign and without leading zeros.
pub open spec fn dec_str(n: int) -> Seq<char>
    decreases n,
{
    if n < 10 {
        seq![dec_digit(n)]
    } else {
        dec_str(n / 10) + seq![dec_digit(n % 10)]
    }
}

pub open spec fn is_digit_char(c: char) -> bool {
    48 <= c as int <= 57
}

/// A decimal numeral consists of digits; one digit for `n < 10`, two or
/// more otherwise.
pub proof fn lemma_dec_str_shape(n: int)
    requires
        n >= 0,
    ensures
        dec_str(n).len() >= 1,
        forall|j: int| 0 <= j < dec_str(n).len() ==> is_digit_char(#[trigger] dec_str(n)[j]),
        n < 10 ==> dec_str(n).len() == 1,
        n >= 10 ==> dec_str(n).len() >= 2,
    decreases n,
{
    if n >= 10 {
        lemma_dec_str_shape(n / 10);
    }
}

/// Distinct numbers have distinct decimal numerals.
pub proof fn lemma_dec_str_injective(a: int, b: int)
    requires
        a >= 0,
        b >= 0,
        dec_str(a) == dec_str(b),
    ensures
        a == b,
    decreases a,
{
    lemma_dec_str_shape(a);
    lemma_dec_str_shape(b);
    if a < 10 && b < 10 {
        assert(dec_str(a)[0] == dec_digit(a));
        assert(dec_str(b)[0] == dec_digit(b));
        assert(dec_digit(a) as int == 48 + a);
        assert(dec_digit(b) as int == 48 + b);
    } else if a < 10 || b < 10 {
        assert(dec_str(a).len() != dec_str(b).len());
    } else {
        assert(dec_str(a).last() == dec_digit(a % 10));
        assert(dec_str(b).last() == dec_digit(b % 10));
        assert(dec_digit(a % 10) as int == 48 + a % 10);
        assert(dec_digit(b % 10) as int == 48 + b % 10);
        assert(a % 10 == b % 10);
        assert(dec_str(a).drop_last() =~= dec_str(a / 10));
        assert(dec_str(b).drop_last() =~= dec_str(b / 10));
        lemma_dec_str_injective(a / 10, b / 10);
    }
}

/// The decimal numeral of `n`, as a string.
pub fn u64_to_string(n: u64) -> (r: String)
    ensures
        r@ == dec_str(n as int),
{
    let mut digits: Vec<char> = Vec::new();
    let mut m: u64 = n;
    while m >= 10
        invariant
            dec_str(n as int) =~= dec_str(m as int) + digits@.reverse(),
        decreases m,
    {
        let d: u8 = (m % 10) as u8;
        let ch: char = (48 + d) as char;
        proof {
            assert(ch == dec_digit(m as int % 10));
            assert(digits@.push(ch).reverse() =~= seq![ch] + digits@.reverse());
            assert(dec_str(m as int) + digits@.reverse() =~= dec_str(m as int / 10) + (seq![ch]
                + digits@.reverse()));
        }
        digits.push(ch);
        m = m / 10;
    }
    let d: u8 = m as u8;
    let ch: char = (48 + d) as char;
    proof {
        assert(ch == dec_digit(m as int));
        assert(digits@.push(ch).reverse() =~= seq![ch] + digits@.reverse());
    }
    digits.push(ch);
    let n_digits = digits.len();
    let mut out: Vec<char> = Vec::new();
    let mut i: usize = 0;
    while i < n_digits
        invariant
            i <= n_digits,
            n_digits == digits@.len(),
            out@ =~= digits@.reverse().take(i as int),
        decreases n_digits - i,
    {
        out.push(digits[n_digits - 1 - i]);
        proof {
            assert(digits@.reverse()[i as int] == digits@[n_digits - 1 - i]);
            assert(out@.drop_last() =~= digits@.reverse().take(i as int));
            assert(out@ =~= digits@.reverse().take(i + 1 as int));
        }
        i = i + 1;
    }
    proof {
        assert(out@ =~= digits@.reverse());
    }
    chars_to_string(&out)
}

/// Index of the last occurrence of `c` in `s`, or -1 when `c` is absent.
pub open spec fn last_index_of(s: Seq<char>, c: char) -> int
    decreases s.len(),
{
    if s.len() == 0 {
        -1
    } else if s[s.len() - 1] == c {
        s.len() - 1
    } else {
        last_index_of(s.drop_last(), c)
    }
}

/// `last_index_of` finds `c`, and nothing after it is `c`.
pub proof fn lemma_last_index_of(s: Seq<char>, c: char)
    ensures
        -1 <= last_index_of(s, c) < s.len(),
        last_index_of(s, c) == -1 ==> forall|j: int| 0 <= j < s.len() ==> s[j] != c,
        last_index_of(s, c) >= 0 ==> s[last_index_of(s, c)] == c && forall|j: int|
            last_index_of(s, c) < j < s.len() ==> s[j] != c,
    decreases s.len(),
{
    if s.len() > 0 && s[s.len() - 1] != c {
        lemma_last_index_of(s.drop_last(), c);
        let r = last_index_of(s, c);
        assert(r == last_index_of(s.drop_last(), c));
        if r == -1 {
            assert forall|j: int| 0 <= j < s.len() implies s[j] != c by {
                if j < s.len() - 1 {
                    assert(s.drop_last()[j] != c);
                    assert(s.drop_last()[j] == s[j]);
                }
            }
        } else {
            assert(s.drop_last()[r] == s[r]);
            assert forall|j: int| r < j < s.len() implies s[j] != c by {
                if j < s.len() - 1 {
                    assert(s.drop_last()[j] != c);
                    assert(s.drop_last()[j] == s[j]);
                }
            }
        }
    }
}

/// The extension of a path: everything from the last `'.'` on, uppercased;
/// empty when the path has no `'.'`.
pub open spec fn spec_extension_of(path: Seq<char>) -> Seq<char> {
    if last_index_of(path, '.') == -1 {
        Seq::empty()
    } else {
        upper_of(path.subrange(last_index_of(path, '.'), path.len() as int))
    }
}

/// A well-formed extension: empty, or led by the `'.'` it was cut at.
pub open spec fn wf_ext(x: Seq<char>) -> bool {
    x.len() == 0 || x[0] == '.'
}

/// The substring from the last `'.'` to the end, uppercased; the empty
/// string when the path holds no `'.'`.
pub fn get_extension(path: &str) -> (r: String)
    ensures
        r@ == spec_extension_of(path@),
        wf_ext(r@),
{
    let chars = string_to_chars(path);
    let n = chars.len();
    let mut found = false;
    let mut idx: usize = 0;
    let mut i: usize = 0;
    while i < n
        invariant
            i <= n,
            n == chars@.len(),
            chars@ == path@,
            !found ==> forall|j: int| 0 <= j < i ==> chars@[j] != '.',
            found ==> idx < i && chars@[idx as int] == '.' && forall|j: int|
                idx < j < i ==> chars@[j] != '.',
        decreases n - i,
    {
        if chars[i] == '.' {
            found = true;
            idx = i;
        }
        i = i + 1;
    }
    proof {
        lemma_last_index_of(path@, '.');
        if found {
            assert(last_index_of(path@, '.') == idx as int);
        } else {
            assert(last_index_of(path@, '.') == -1) by {
                if last_index_of(path@, '.') >= 0 {
                    assert(path@[last_index_of(path@, '.')] == '.');
                }
            }
        }
    }
    if found {
        let tail = path.substring_char(idx, n);
        let r = to_uppercase(tail);
        proof {
            assert(tail@ == path@.subrange(idx as int, path@.len() as int));
            assert(tail@[0] == '.');
        }
        r
    } else {
        String::new()
    }
}

/// The grouping key in content mode: the byte length's decimal numeral
/// followed by the uppercased extension.
pub open spec fn spec_binary_key(path: Seq<char>, size: u64) -> Seq<char> {
    dec_str(size as int) + spec_extension_of(path)
}

/// Keys built from distinct sizes differ, whatever the extensions, as long
/// as each extension is empty or led by a `'.'`.
pub proof fn lemma_distinct_sizes_distinct_keys(a: u64, b: u64, x: Seq<char>, y: Seq<char>)
    requires
        a != b,
        wf_ext(x),
        wf_ext(y),
    ensures
        dec_str(a as int) + x != dec_str(b as int) + y,
{
    lemma_dec_str_shape(a as int);
    lemma_dec_str_shape(b as int);
    let da = dec_str(a as int);
    let db = dec_str(b as int);
    if da + x == db + y {
        let s = da + x;
        if da.len() < db.len() {
            let i = da.len() as int;
            assert(s.len() >= db.len());
            assert(x.len() > 0);
            assert(s[i] == x[0]);
            assert(s[i] == db[i]);
            assert(is_digit_char(db[i]));
            assert(('.' as int) == 46);
        } else if db.len() < da.len() {
            let i = db.len() as int;
            assert(s.len() >= da.len());
            assert(y.len() > 0);
            assert(s[i] == y[0]);
            assert(s[i] == da[i]);
            assert(is_digit_char(da[i]));
            assert(('.' as int) == 46);
        } else {
            assert(da =~= s.subrange(0, da.len() as int));
            assert(db =~= s.subrange(0, db.len() as int));
            lemma_dec_str_injective(a as int, b as int);
        }
    }
}

} // verus!

