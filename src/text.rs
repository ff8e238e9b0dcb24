//! Character-level string helpers and the few std string operations the
//! library relies on.
use vstd::prelude::*;

verus! {

/// `n` occurs in `h` starting at position `i`.
pub open spec fn occurs_at(h: Seq<char>, n: Seq<char>, i: int) -> bool {
    0 <= i && i + n.len() <= h.len() && h.subrange(i, i + n.len()) == n
}

/// `n` occurs somewhere in `h`.
pub open spec fn contains_seq(h: Seq<char>, n: Seq<char>) -> bool {
    exists|i: int| occurs_at(h, n, i)
}

/// `h` begins with `p`.
pub open spec fn starts_with_seq(h: Seq<char>, p: Seq<char>) -> bool {
    occurs_at(h, p, 0)
}

/// Two characters equal up to ASCII case; `p` is lower-case.
pub open spec fn ascii_ci_eq(c: char, p: char) -> bool {
    c == p || ('A' <= c <= 'Z' && (c as u32) + 32 == p as u32)
}

/// `h` begins with `p` up to ASCII case; `p` is lower-case.
pub open spec fn starts_with_ci_seq(h: Seq<char>, p: Seq<char>) -> bool {
    p.len() <= h.len() && forall|k: int| 0 <= k < p.len() ==> #[trigger] ascii_ci_eq(h[k], p[k])
}

/// What `str::to_lowercase` returns.
pub uninterp spec fn lower_of(s: Seq<char>) -> Seq<char>;

/// What `str::trim` leaves of a string.
pub uninterp spec fn trim_of(s: Seq<char>) -> Seq<char>;

/// What `str::lines` yields, each line as a string.
pub uninterp spec fn lines_of(s: Seq<char>) -> Seq<Seq<char>>;

/// What `String::from_utf8_lossy` makes of a byte string.
pub uninterp spec fn utf8_lossy_of(b: Seq<u8>) -> Seq<char>;

/// Relies on `str::to_lowercase`: the result depends on the characters alone.
#[verifier::external_body]
pub(crate) fn lowercase(s: &str) -> (r: String)
    ensures
        r@ == lower_of(s@),
{
    s.to_lowercase()
}

/// Relies on `str::trim`: leading and trailing whitespace removed.
#[verifier::external_body]
pub(crate) fn trim(s: &str) -> (r: String)
    ensures
        r@ == trim_of(s@),
{
    s.trim().to_string()
}

/// Relies on `str::lines`: the text split at line endings.
#[verifier::external_body]
pub(crate) fn lines(s: &str) -> (r: Vec<String>)
    ensures
        r@.len() == lines_of(s@).len(),
        forall|i: int| 0 <= i < r@.len() ==> #[trigger] r@[i]@ == lines_of(s@)[i],
{
    s.lines().map(|l| l.to_string()).collect()
}

/// Relies on `String::from_utf8_lossy`: invalid sequences become U+FFFD.
#[verifier::external_body]
pub(crate) fn utf8_lossy(b: &[u8]) -> (r: String)
    ensures
        r@ == utf8_lossy_of(b@),
{
    String::from_utf8_lossy(b).into_owned()
}

/// Whether `needle` occurs in `hay` at character position `i`.
fn matches_at(hay: &str, needle: &str, i: usize) -> (r: bool)
    requires
        i + needle@.len() <= hay@.len(),
    ensures
        r == occurs_at(hay@, needle@, i as int),
{
    let m = needle.unicode_len();
    let total = hay.unicode_len();
    let mut k: usize = 0;
    while k < m
        invariant
            m == needle@.len(),
            total == hay@.len(),
            i + m <= hay@.len(),
            k <= m,
            forall|t: int| 0 <= t < k ==> hay@[i + t] == needle@[t],
        decreases m - k,
    {
        if hay.get_char(i + k) != needle.get_char(k) {
            assert(hay@.subrange(i as int, i + m)[k as int] != needle@[k as int]);
            return false;
        }
        k += 1;
    }
    assert(hay@.subrange(i as int, i + m) =~= needle@);
    true
}

/// Substring test, as `str::contains` with a string pattern.
pub fn contains_str(hay: &str, needle: &str) -> (r: bool)
    ensures
        r == contains_seq(hay@, needle@),
{
    let n = hay.unicode_len();
    let m = needle.unicode_len();
    if m > n {
        return false;
    }
    let mut i: usize = 0;
    loop
        invariant
            n == hay@.len(),
            m == needle@.len(),
            m <= n,
            i <= n - m,
            forall|j: int| 0 <= j < i ==> !occurs_at(hay@, needle@, j),
        decreases n - m - i,
    {
        if matches_at(hay, needle, i) {
            return true;
        }
        if i == n - m {
            return false;
        }
        i += 1;
    }
}

/// Prefix test, as `str::starts_with` with a string pattern.
pub fn starts_with_str(hay: &str, prefix: &str) -> (r: bool)
    ensures
        r == starts_with_seq(hay@, prefix@),
{
    if prefix.unicode_len() > hay.unicode_len() {
        return false;
    }
    matches_at(hay, prefix, 0)
}

/// Prefix test ignoring ASCII case; `prefix` is lower-case.
pub fn starts_with_ascii_ci(hay: &str, prefix: &str) -> (r: bool)
    ensures
        r == starts_with_ci_seq(hay@, prefix@),
{
    let n = hay.unicode_len();
    let m = prefix.unicode_len();
    if m > n {
        return false;
    }
    let mut k: usize = 0;
    while k < m
        invariant
            n == hay@.len(),
            m == prefix@.len(),
            m <= n,
            k <= m,
            forall|t: int| 0 <= t < k ==> #[trigger] ascii_ci_eq(hay@[t], prefix@[t]),
        decreases m - k,
    {
        let c = hay.get_char(k);
        let p = prefix.get_char(k);
        if !(c == p || ('A' <= c && c <= 'Z' && (c as u32) + 32 == p as u32)) {
            assert(!ascii_ci_eq(hay@[k as int], prefix@[k as int]));
            return false;
        }
        k += 1;
    }
    true
}

/// The characters of `s` from position `from` on.
pub fn suffix_from(s: &str, from: usize) -> (r: String)
    requires
        from <= s@.len(),
    ensures
        r@ == s@.subrange(from as int, s@.len() as int),
{
    let n = s.unicode_len();
    let t = s.substring_char(from, n);
    t.to_string()
}

/// Suffix test on bytes, ignoring ASCII case; `suffix` is lower-case.
pub fn ends_with_ascii_ci(name: &[u8], suffix: &[u8]) -> (r: bool)
    ensures
        r == (suffix@.len() <= name@.len() && forall|t: int|
            0 <= t < suffix@.len() ==> #[trigger] ascii_lower(
                name@[name@.len() - suffix@.len() + t],
            ) == suffix@[t]),
{
    let n = name.len();
    let m = suffix.len();
    if m > n {
        return false;
    }
    let mut k: usize = 0;
    while k < m
        invariant
            n == name@.len(),
            m == suffix@.len(),
            m <= n,
            k <= m,
            forall|t: int| 0 <= t < k ==> #[trigger] ascii_lower(name@[n - m + t]) == suffix@[t],
        decreases m - k,
    {
        if to_ascii_lower(name[n - m + k]) != suffix[k] {
            return false;
        }
        k += 1;
    }
    true
}

/// ASCII lower-casing of one byte, as `u8::to_ascii_lowercase`.
pub open spec fn ascii_lower(b: u8) -> u8 {
    if 65 <= b <= 90 {
        (b + 32) as u8
    } else {
        b
    }
}

fn to_ascii_lower(b: u8) -> (r: u8)
    ensures
        r == ascii_lower(b),
{
    if 65 <= b && b <= 90 {
        b + 32
    } else {
        b
    }
}

} // verus!
