//! String normalization used for metadata keys.
//!
//! Comparable string fields (track title, artist, album) are normalized the
//! same way everywhere: lower-cased, stripped of bracketed annotations and of
//! a fixed punctuation set, with runs of a character collapsed and a single
//! trailing occurrence trimmed.

use vstd::prelude::*;
use vstd::string::StrSliceExecFns;

verus! {

/// What `str::to_lowercase` returns: a function of the characters alone.
pub uninterp spec fn lower_of(s: Seq<char>) -> Seq<char>;

/// What `str::to_uppercase` returns: a function of the characters alone.
pub uninterp spec fn upper_of(s: Seq<char>) -> Seq<char>;

/// Relies on str::to_lowercase: the result depends only on the characters,
/// and an empty string stays empty.
#[verifier::external_body]
pub(crate) fn to_lowercase(s: &str) -> (r: String)
    ensures
        r@ == lower_of(s@),
        s@.len() == 0 ==> r@.len() == 0,
{
    s.to_lowercase()
}

/// Relies on str::to_uppercase, which maps each character to its Unicode
/// uppercase mapping: an empty string stays empty, and a leading `'.'`
/// (which has no uppercase mapping) stays a leading `'.'`.
#[verifier::external_body]
pub(crate) fn to_uppercase(s: &str) -> (r: String)
    ensures
        r@ == upper_of(s@),
        s@.len() == 0 ==> r@.len() == 0,
        s@.len() > 0 && s@[0] == '.' ==> r@.len() > 0 && r@[0] == '.',
{
    s.to_uppercase()
}

/// Relies on String's FromIterator impl over chars: the collected string
/// holds exactly the given characters, in order.
#[verifier::external_body]
pub(crate) fn chars_to_string(v: &Vec<char>) -> (r: String)
    ensures
        r@ == v@,
{
    v.iter().collect()
}

/// The characters of a string slice, as a vector.
pub fn string_to_chars(s: &str) -> (r: Vec<char>)
    ensures
        r@ == s@,
{
    let n = s.unicode_len();
    let mut v: Vec<char> = Vec::new();
    let mut i: usize = 0;
    while i < n
        invariant
            i <= n,
            n == s@.len(),
            v@ =~= s@.take(i as int),
        decreases n - i,
    {
        v.push(s.get_char(i));
        i = i + 1;
    }
    proof {
        assert(v@ =~= s@);
    }
    v
}

/// Whether two string slices hold the same characters.
pub fn str_eq(a: &str, b: &str) -> (r: bool)
    ensures
        r == (a@ == b@),
{
    let na = a.unicode_len();
    let nb = b.unicode_len();
    if na != nb {
        return false;
    }
    let mut i: usize = 0;
    while i < na
        invariant
            i <= na,
            na == a@.len(),
            na == b@.len(),
            forall|j: int| 0 <= j < i ==> a@[j] == b@[j],
        decreases na - i,
    {
        if a.get_char(i) != b.get_char(i) {
            return false;
        }
        i = i + 1;
    }
    proof {
        assert(a@ =~= b@);
    }
    true
}

/// The punctuation and symbol set stripped during normalization.
pub open spec fn is_removed_char(c: char) -> bool {
    c == '\'' || c == '"' || c == '/' || c == '=' || c == '-' || c == ',' || c == '.'
        || c == ':' || c == ';' || c == '\n' || c == '\t' || c == '<' || c == '>' || c == '^'
        || c == '`' || c == '&' || c == '%' || c == '$' || c == '\u{a3}' || c == '@' || c == '#'
        || c == '!' || c == '?' || c == '\u{a7}' || c == '\u{b0}' || c == '*' || c == '+'
}

fn removed_char(c: char) -> (r: bool)
    ensures
        r == is_removed_char(c),
{
    c == '\'' || c == '"' || c == '/' || c == '=' || c == '-' || c == ',' || c == '.'
        || c == ':' || c == ';' || c == '\n' || c == '\t' || c == '<' || c == '>' || c == '^'
        || c == '`' || c == '&' || c == '%' || c == '$' || c == '\u{a3}' || c == '@' || c == '#'
        || c == '!' || c == '?' || c == '\u{a7}' || c == '\u{b0}' || c == '*' || c == '+'
}

/// What remains of `s[i..]` after collapsing runs of `c` and dropping a
/// final `c`; `prev` records whether the previous kept character was `c`.
pub open spec fn trim_from(s: Seq<char>, c: char, i: int, prev: bool) -> Seq<char>
    decreases s.len() - i,
{
    if i < 0 || i >= s.len() {
        Seq::empty()
    } else if s[i] == c && i == s.len() - 1 {
        trim_from(s, c, i + 1, prev)
    } else if s[i] == c && !prev {
        seq![s[i]] + trim_from(s, c, i + 1, true)
    } else if s[i] == c && prev {
        trim_from(s, c, i + 1, true)
    } else {
        seq![s[i]] + trim_from(s, c, i + 1, false)
    }
}

pub open spec fn spec_trim_char(s: Seq<char>, c: char) -> Seq<char> {
    trim_from(s, c, 0, false)
}

/// Collapse runs of `c` into a single `c` and drop `c` when it stands at
/// the very end.
pub fn trim_char(st: &String, c: char) -> (r: String)
    ensures
        r@ == spec_trim_char(st@, c),
{
    let chars = string_to_chars(st.as_str());
    let n = chars.len();
    let mut out: Vec<char> = Vec::new();
    let mut prev = false;
    let mut i: usize = 0;
    while i < n
        invariant
            i <= n,
            n == chars@.len(),
            chars@ == st@,
            spec_trim_char(st@, c) == out@ + trim_from(st@, c, i as int, prev),
        decreases n - i,
    {
        let ch = chars[i];
        if ch == c && i + 1 == n {
            // a final `c` is dropped
        } else if ch == c && !prev {
            proof {
                assert((out@ + seq![ch]) + trim_from(st@, c, i + 1, true) =~= out@ + (seq![ch]
                    + trim_from(st@, c, i + 1, true)));
            }
            prev = true;
            out.push(ch);
        } else if ch == c && prev {
            // a repeated `c` is dropped
        } else {
            proof {
                assert((out@ + seq![ch]) + trim_from(st@, c, i + 1, false) =~= out@ + (seq![ch]
                    + trim_from(st@, c, i + 1, false)));
            }
            prev = false;
            out.push(ch);
        }
        i = i + 1;
    }
    proof {
        assert(spec_trim_char(st@, c) =~= out@);
    }
    chars_to_string(&out)
}

/// What remains of `s[i..]` after removing everything between `c0` and `c1`
/// (the brackets included) and every character of the removed set; `ignore`
/// records whether the scan stands inside a bracketed stretch.
pub open spec fn strip_from(s: Seq<char>, c0: char, c1: char, i: int, ignore: bool) -> Seq<char>
    decreases s.len() - i,
{
    if i < 0 || i >= s.len() {
        Seq::empty()
    } else if s[i] == c1 {
        strip_from(s, c0, c1, i + 1, false)
    } else if s[i] == c0 {
        strip_from(s, c0, c1, i + 1, true)
    } else if ignore {
        strip_from(s, c0, c1, i + 1, true)
    } else if is_removed_char(s[i]) {
        strip_from(s, c0, c1, i + 1, false)
    } else {
        seq![s[i]] + strip_from(s, c0, c1, i + 1, false)
    }
}

pub open spec fn spec_remove_klammer(s: Seq<char>, c0: char, c1: char) -> Seq<char> {
    strip_from(s, c0, c1, 0, false)
}

/// Remove every stretch between `c0` and `c1`, the brackets themselves, and
/// the fixed punctuation set.
pub fn remove_klammer(st: &String, c0: char, c1: char) -> (r: String)
    ensures
        r@ == spec_remove_klammer(st@, c0, c1),
{
    let chars = string_to_chars(st.as_str());
    let n = chars.len();
    let mut out: Vec<char> = Vec::new();
    let mut ignore = false;
    let mut i: usize = 0;
    while i < n
        invariant
            i <= n,
            n == chars@.len(),
            chars@ == st@,
            spec_remove_klammer(st@, c0, c1) == out@ + strip_from(st@, c0, c1, i as int, ignore),
        decreases n - i,
    {
        let ch = chars[i];
        if ch == c1 {
            ignore = false;
        } else if ch == c0 {
            ignore = true;
        } else if ignore {
            // dropped: inside a bracketed stretch
        } else if removed_char(ch) {
            // dropped: punctuation
        } else {
            proof {
                assert((out@ + seq![ch]) + strip_from(st@, c0, c1, i + 1, false) =~= out@ + (
                seq![ch] + strip_from(st@, c0, c1, i + 1, false)));
            }
            out.push(ch);
        }
        i = i + 1;
    }
    proof {
        assert(spec_remove_klammer(st@, c0, c1) =~= out@);
    }
    chars_to_string(&out)
}

/// The normalization applied to every comparable metadata field.
pub open spec fn spec_normalize(s: Seq<char>) -> Seq<char> {
    spec_trim_char(
        spec_remove_klammer(spec_remove_klammer(lower_of(s), '(', ')'), '{', '}'),
        ' ',
    )
}

/// Lower-case, strip `(..)` and `{..}` stretches and punctuation, collapse
/// spaces and trim one trailing space.
pub fn normalize_string(value: &String) -> (r: String)
    ensures
        r@ == spec_normalize(value@),
{
    let lowered = to_lowercase(value.as_str());
    let a = remove_klammer(&lowered, '(', ')');
    let b = remove_klammer(&a, '{', '}');
    trim_char(&b, ' ')
}

/// Normalization lifted to an optional field: a missing field is empty.
pub fn normalize_option(value: Option<&String>) -> (r: String)
    ensures
        value is None ==> r@.len() == 0,
        value matches Some(v) ==> r@ == spec_normalize(v@),
{
    match value {
        None => String::new(),
        Some(v) => normalize_string(v),
    }
}

/// Lexicographic order on character sequences, by scalar value.
pub open spec fn chars_le(a: Seq<char>, b: Seq<char>) -> bool
    decreases a.len(),
{
    if a.len() == 0 {
        true
    } else if b.len() == 0 {
        false
    } else if a[0] == b[0] {
        chars_le(a.skip(1), b.skip(1))
    } else {
        a[0] < b[0]
    }
}

/// `chars_le` is decided by the first position where the strings differ.
proof fn lemma_chars_le_common_prefix(a: Seq<char>, b: Seq<char>, i: int)
    requires
        0 <= i <= a.len(),
        0 <= i <= b.len(),
        forall|j: int| 0 <= j < i ==> a[j] == b[j],
    ensures
        chars_le(a, b) == chars_le(a.skip(i), b.skip(i)),
    decreases i,
{
    if i == 0 {
        assert(a.skip(0) =~= a);
        assert(b.skip(0) =~= b);
    } else {
        assert(a[0] == b[0]);
        assert(forall|j: int| 0 <= j < i - 1 ==> a.skip(1)[j] == #[trigger] b.skip(1)[j]) by {
            assert(forall|j: int|
                0 <= j < i - 1 ==> a.skip(1)[j] == a[j + 1] && #[trigger] b.skip(1)[j] == b[j
                    + 1]);
        }
        lemma_chars_le_common_prefix(a.skip(1), b.skip(1), i - 1);
        assert(a.skip(1).skip(i - 1) =~= a.skip(i));
        assert(b.skip(1).skip(i - 1) =~= b.skip(i));
    }
}

/// Whether `a` precedes `b` (or equals it) in lexicographic order.
pub fn str_le(a: &String, b: &String) -> (r: bool)
    ensures
        r == chars_le(a@, b@),
{
    let na = a.as_str().unicode_len();
    let nb = b.as_str().unicode_len();
    let mut i: usize = 0;
    loop
        invariant
            i <= na,
            i <= nb,
            na == a@.len(),
            nb == b@.len(),
            forall|j: int| 0 <= j < i ==> a@[j] == b@[j],
        ensures
            (i <= na && i <= nb),
            (forall|j: int| 0 <= j < i ==> a@[j] == b@[j]),
            (i == na || i == nb || a@[i as int] != b@[i as int]),
        decreases na - i,
    {
        if i == na || i == nb {
            break ;
        }
        if a.as_str().get_char(i) != b.as_str().get_char(i) {
            break ;
        }
        i = i + 1;
    }
    proof {
        lemma_chars_le_common_prefix(a@, b@, i as int);
    }
    if i == na {
        proof {
            assert(a@.skip(i as int).len() == 0);
        }
        true
    } else if i == nb {
        proof {
            assert(b@.skip(i as int).len() == 0);
            assert(a@.skip(i as int).len() > 0);
        }
        false
    } else {
        let ca = a.as_str().get_char(i);
        let cb = b.as_str().get_char(i);
        proof {
            assert(a@.skip(i as int)[0] == a@[i as int]);
            assert(b@.skip(i as int)[0] == b@[i as int]);
        }
        ca < cb
    }
}


/// The lexicographic order is total: one of the two ways round always
/// holds.
pub proof fn lemma_chars_le_total(a: Seq<char>, b: Seq<char>)
    ensures
        chars_le(a, b) || chars_le(b, a),
    decreases a.len(),
{
    if a.len() == 0 {
    } else if b.len() == 0 {
    } else if a[0] == b[0] {
        lemma_chars_le_total(a.skip(1), b.skip(1));
    }
}

/// The lexicographic order is transitive.
pub proof fn lemma_chars_le_trans(a: Seq<char>, b: Seq<char>, c: Seq<char>)
    requires
        chars_le(a, b),
        chars_le(b, c),
    ensures
        chars_le(a, c),
    decreases a.len(),
{
    if a.len() == 0 {
    } else {
        assert(b.len() > 0);
        assert(c.len() > 0);
        if a[0] == b[0] {
            if b[0] == c[0] {
                lemma_chars_le_trans(a.skip(1), b.skip(1), c.skip(1));
            } else {
                assert(b[0] < c[0]);
            }
        } else {
            assert(a[0] < b[0]);
            if b[0] == c[0] {
            } else {
                assert(b[0] < c[0]);
            }
        }
    }
}

} // verus!
