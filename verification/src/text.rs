//! Character-level string utilities shared by the parsers and formatters:
//! character vectors, prefix tests, whitespace trimming, decimal rendering,
//! lowercasing, grapheme segmentation and display width.

use vstd::prelude::*;
use unicode_segmentation::UnicodeSegmentation;
use unicode_width::UnicodeWidthStr;

verus! {

/// The characters of `s`, in order.
pub fn chars_of(s: &str) -> (v: Vec<char>)
    ensures
        v@ == s@,
{
    let n = s.unicode_len();
    let mut v: Vec<char> = Vec::new();
    let mut i: usize = 0;
    while i < n
        invariant
            n == s@.len(),
            i <= n,
            v@ == s@.subrange(0, i as int),
        decreases n - i,
    {
        let c = s.get_char(i);
        v.push(c);
        i += 1;
    }
    assert(s@.subrange(0, n as int) =~= s@);
    v
}

/// Appends one character to a string (`String::push`).
#[verifier::external_body]
pub(crate) fn push_char(s: &mut String, c: char)
    ensures
        final(s)@ == old(s)@.push(c),
{
    s.push(c)
}

/// Builds a string holding exactly the given characters.
pub fn string_from_chars(v: &[char]) -> (s: String)
    ensures
        s@ == v@,
{
    let mut s = String::new();
    let mut i: usize = 0;
    while i < v.len()
        invariant
            i <= v.len(),
            s@ == v@.subrange(0, i as int),
        decreases v.len() - i,
    {
        push_char(&mut s, v[i]);
        assert(v@.subrange(0, i + 1) =~= v@.subrange(0, i as int).push(v@[i as int]));
        i += 1;
    }
    assert(v@.subrange(0, v.len() as int) =~= v@);
    s
}

/// Appends every character of `v` to `s`.
pub fn push_chars(s: &mut String, v: &[char])
    ensures
        final(s)@ == old(s)@ + v@,
{
    let mut i: usize = 0;
    while i < v.len()
        invariant
            i <= v.len(),
            s@ == old(s)@ + v@.subrange(0, i as int),
        decreases v.len() - i,
    {
        push_char(s, v[i]);
        assert(old(s)@ + v@.subrange(0, i + 1) =~= (old(s)@ + v@.subrange(0, i as int)).push(
            v@[i as int],
        ));
        i += 1;
    }
    assert(v@.subrange(0, v.len() as int) =~= v@);
}

/// Appends the characters of `t` to `s`.
pub fn push_str(s: &mut String, t: &str)
    ensures
        final(s)@ == old(s)@ + t@,
{
    let v = chars_of(t);
    push_chars(s, v.as_slice());
}

/// `true` exactly when the two character sequences are equal.
pub fn chars_eq(a: &[char], b: &[char]) -> (r: bool)
    ensures
        r == (a@ == b@),
{
    if a.len() != b.len() {
        return false;
    }
    let mut i: usize = 0;
    while i < a.len()
        invariant
            a.len() == b.len(),
            i <= a.len(),
            forall|j: int| 0 <= j < i ==> a@[j] == b@[j],
        decreases a.len() - i,
    {
        if a[i] != b[i] {
            return false;
        }
        i += 1;
    }
    assert(a@ =~= b@);
    true
}

/// `true` exactly when the characters of `a` spell the string `lit`.
pub fn chars_eq_str(a: &[char], lit: &str) -> (r: bool)
    ensures
        r == (a@ == lit@),
{
    let b = chars_of(lit);
    chars_eq(a, b.as_slice())
}

/// `true` exactly when `p` is a prefix of `s`.
pub fn starts_with_chars(s: &[char], p: &[char]) -> (r: bool)
    ensures
        r == p@.is_prefix_of(s@),
{
    if p.len() > s.len() {
        return false;
    }
    let mut i: usize = 0;
    while i < p.len()
        invariant
            p.len() <= s.len(),
            i <= p.len(),
            forall|j: int| 0 <= j < i ==> p@[j] == s@[j],
        decreases p.len() - i,
    {
        if p[i] != s[i] {
            return false;
        }
        i += 1;
    }
    true
}

/// `t` occurs in `s` starting at `i`.
pub open spec fn occurs_at(s: Seq<char>, t: Seq<char>, i: int) -> bool {
    0 <= i && i + t.len() <= s.len() && s.subrange(i, i + t.len()) == t
}

/// `t` occurs somewhere in `s` (as `str::contains` with a string pattern).
pub open spec fn has_substring(s: Seq<char>, t: Seq<char>) -> bool {
    exists|i: int| #[trigger] occurs_at(s, t, i)
}

/// `true` exactly when `t` occurs in `s`.
pub fn contains_str(s: &str, t: &str) -> (r: bool)
    ensures
        r == has_substring(s@, t@),
{
    let a = chars_of(s);
    let b = chars_of(t);
    if b.len() > a.len() {
        proof {
            assert forall|i: int| !occurs_at(s@, t@, i) by {}
        }
        return false;
    }
    let n = a.len();
    let mut i: usize = 0;
    while i <= a.len() - b.len()
        invariant
            n == a@.len(),
            a@ == s@,
            b@ == t@,
            b@.len() <= a@.len(),
            i <= a@.len() - b@.len() + 1,
            forall|k: int| 0 <= k < i ==> !#[trigger] occurs_at(s@, t@, k),
        decreases a@.len() - b@.len() + 1 - i,
    {
        let mut j: usize = 0;
        let mut same = true;
        while j < b.len()
            invariant
                n == a@.len(),
                a@ == s@,
                b@ == t@,
                i + b@.len() <= a@.len(),
                j <= b@.len(),
                same == (forall|q: int| 0 <= q < j ==> a@[i + q] == b@[q]),
            decreases b@.len() - j,
        {
            if a[i + j] != b[j] {
                same = false;
            }
            j += 1;
        }
        if same {
            assert(a@.subrange(i as int, i + b@.len()) =~= b@);
            assert(occurs_at(s@, t@, i as int));
            return true;
        }
        proof {
            assert(!occurs_at(s@, t@, i as int)) by {
                if occurs_at(s@, t@, i as int) {
                    let q = choose|q: int| 0 <= q < b@.len() && a@[i + q] != b@[q];
                    assert(a@.subrange(i as int, i + b@.len())[q] == a@[i + q]);
                }
            }
        }
        i += 1;
    }
    proof {
        assert forall|k: int| !occurs_at(s@, t@, k) by {
            if 0 <= k < i {
            }
        }
    }
    false
}

/// `true` exactly when `c` occurs in `s`.
pub fn contains_char(s: &[char], c: char) -> (r: bool)
    ensures
        r == s@.contains(c),
{
    let mut i: usize = 0;
    while i < s.len()
        invariant
            i <= s.len(),
            forall|j: int| 0 <= j < i ==> s@[j] != c,
        decreases s.len() - i,
    {
        if s[i] == c {
            return true;
        }
        i += 1;
    }
    false
}

/// A copy of `s[from..to]`.
pub fn slice_chars(s: &[char], from: usize, to: usize) -> (v: Vec<char>)
    requires
        from <= to <= s.len(),
    ensures
        v@ == s@.subrange(from as int, to as int),
{
    let mut v: Vec<char> = Vec::new();
    let mut i = from;
    while i < to
        invariant
            from <= i <= to <= s.len(),
            v@ == s@.subrange(from as int, i as int),
        decreases to - i,
    {
        v.push(s[i]);
        i += 1;
    }
    v
}

/// The Unicode `White_Space` property.
pub open spec fn is_white_space(c: char) -> bool {
    let u = c as u32;
    ||| 0x09 <= u <= 0x0d
    ||| u == 0x20
    ||| u == 0x85
    ||| u == 0xa0
    ||| u == 0x1680
    ||| 0x2000 <= u <= 0x200a
    ||| u == 0x2028
    ||| u == 0x2029
    ||| u == 0x202f
    ||| u == 0x205f
    ||| u == 0x3000
}

/// Whether `c` has the Unicode `White_Space` property (as `char::is_whitespace`).
pub fn char_is_whitespace(c: char) -> (r: bool)
    ensures
        r == is_white_space(c),
{
    let u = c as u32;
    (0x09 <= u && u <= 0x0d) || u == 0x20 || u == 0x85 || u == 0xa0 || u == 0x1680 || (0x2000
        <= u && u <= 0x200a) || u == 0x2028 || u == 0x2029 || u == 0x202f || u == 0x205f || u
        == 0x3000
}

/// Number of leading whitespace characters of `s`.
pub open spec fn leading_ws(s: Seq<char>) -> nat
    decreases s.len(),
{
    if s.len() > 0 && is_white_space(s[0]) {
        1 + leading_ws(s.drop_first())
    } else {
        0
    }
}

/// Number of trailing whitespace characters of `s`.
pub open spec fn trailing_ws(s: Seq<char>) -> nat
    decreases s.len(),
{
    if s.len() > 0 && is_white_space(s.last()) {
        1 + trailing_ws(s.drop_last())
    } else {
        0
    }
}

/// `s` with leading and trailing whitespace removed (as `str::trim`).
pub open spec fn trimmed(s: Seq<char>) -> Seq<char> {
    let t = s.skip(leading_ws(s) as int);
    t.take(t.len() - trailing_ws(t))
}

proof fn lemma_leading_ws_bound(s: Seq<char>)
    ensures
        leading_ws(s) <= s.len(),
    decreases s.len(),
{
    if s.len() > 0 && is_white_space(s[0]) {
        lemma_leading_ws_bound(s.drop_first());
    }
}

proof fn lemma_trailing_ws_bound(s: Seq<char>)
    ensures
        trailing_ws(s) <= s.len(),
    decreases s.len(),
{
    if s.len() > 0 && is_white_space(s.last()) {
        lemma_trailing_ws_bound(s.drop_last());
    }
}

/// Trimming keeps a string all ASCII.
pub proof fn lemma_all_ascii_trimmed(s: Seq<char>)
    requires
        all_ascii(s),
    ensures
        all_ascii(trimmed(s)),
{
    lemma_leading_ws_bound(s);
    let t = s.skip(leading_ws(s) as int);
    lemma_trailing_ws_bound(t);
    let u = trimmed(s);
    assert forall|i: int| 0 <= i < u.len() implies (#[trigger] u[i] as u32) < 128 by {
        assert(u[i] == t[i]);
        assert(t[i] == s[i + leading_ws(s)]);
    }
}

/// Trimming a trimmed string changes nothing.
pub proof fn lemma_trimmed_idempotent(s: Seq<char>)
    ensures
        trimmed(trimmed(s)) == trimmed(s),
{
    lemma_leading_ws_bound(s);
    let t = s.skip(leading_ws(s) as int);
    lemma_trailing_ws_bound(t);
    let u = trimmed(s);
    assert(u =~= t.take(t.len() - trailing_ws(t)));
    if u.len() > 0 {
        assert(leading_ws(u) == 0) by {
            assert(leading_ws(t) == 0) by {
                lemma_leading_ws_rest(s);
            }
            assert(u[0] == t[0]);
        }
        assert(trailing_ws(u) == 0) by {
            lemma_trailing_ws_prefix(t);
        }
        assert(u.skip(0) =~= u);
        assert(u.take(u.len() as int) =~= u);
    } else {
        assert(u.skip(0) =~= u);
    }
}

proof fn lemma_leading_ws_rest(s: Seq<char>)
    ensures
        leading_ws(s.skip(leading_ws(s) as int)) == 0,
    decreases s.len(),
{
    lemma_leading_ws_bound(s);
    if s.len() > 0 && is_white_space(s[0]) {
        lemma_leading_ws_rest(s.drop_first());
        assert(s.skip(leading_ws(s) as int) =~= s.drop_first().skip(leading_ws(s.drop_first()) as int));
    } else {
        assert(s.skip(0) =~= s);
    }
}

proof fn lemma_trailing_ws_prefix(t: Seq<char>)
    ensures
        trailing_ws(t.take(t.len() - trailing_ws(t))) == 0,
    decreases t.len(),
{
    lemma_trailing_ws_bound(t);
    if t.len() > 0 && is_white_space(t.last()) {
        lemma_trailing_ws_prefix(t.drop_last());
        assert(t.take(t.len() - trailing_ws(t)) =~= t.drop_last().take(
            t.drop_last().len() - trailing_ws(t.drop_last()),
        ));
    } else {
        assert(t.take(t.len() as int) =~= t);
    }
}

/// Removes leading and trailing whitespace.
pub fn trim_chars(s: &[char]) -> (v: Vec<char>)
    ensures
        v@ == trimmed(s@),
{
    let n = s.len();
    let mut a: usize = 0;
    assert(s@.skip(0) =~= s@);
    while a < n && char_is_whitespace(s[a])
        invariant
            a <= n == s.len(),
            leading_ws(s@) == a + leading_ws(s@.skip(a as int)),
        decreases n - a,
    {
        assert(s@.skip(a as int).drop_first() =~= s@.skip(a + 1));
        a += 1;
    }
    assert(leading_ws(s@.skip(a as int)) == 0);
    let ghost t = s@.skip(a as int);
    let mut b: usize = n;
    assert(t =~= s@.subrange(a as int, n as int));
    while b > a && char_is_whitespace(s[b - 1])
        invariant
            a <= b <= n == s.len(),
            t == s@.skip(a as int),
            trailing_ws(t) == (n - b) + trailing_ws(s@.subrange(a as int, b as int)),
        decreases b - a,
    {
        assert(s@.subrange(a as int, b as int).drop_last() =~= s@.subrange(a as int, b - 1));
        b -= 1;
    }
    assert(trailing_ws(s@.subrange(a as int, b as int)) == 0);
    proof {
        lemma_trailing_ws_bound(t);
    }
    assert(t.take(t.len() - trailing_ws(t)) =~= s@.subrange(a as int, b as int));
    slice_chars(s, a, b)
}

/// The ASCII lowercase of a character (`char::to_ascii_lowercase`).
pub open spec fn ascii_lower(c: char) -> char {
    if 0x41 <= (c as u32) <= 0x5a {
        ((c as u32) + 32) as char
    } else {
        c
    }
}

/// Maps an ASCII uppercase letter to lowercase and leaves every other character alone.
pub fn to_ascii_lower(c: char) -> (r: char)
    ensures
        r == ascii_lower(c),
{
    let cu = c as u32;
    if 0x41 <= cu && cu <= 0x5a {
        let u = cu + 32;
        assert(0x61 <= u <= 0x7a);
        char_from_ascii(u as u8)
    } else {
        c
    }
}

/// The character with an ASCII code point.
pub fn char_from_ascii(b: u8) -> (c: char)
    requires
        b < 128,
    ensures
        c == (b as char),
        c as u32 == b as u32,
{
    b as char
}

/// The decimal digit character for `d < 10`.
pub open spec fn digit_char(d: nat) -> char {
    ((d + 48) as u32) as char
}

/// The decimal representation of `n` (as `format!("{}", n)`).
pub open spec fn decimal(n: nat) -> Seq<char>
    decreases n,
{
    if n < 10 {
        seq![digit_char(n)]
    } else {
        decimal(n / 10).push(digit_char(n % 10))
    }
}

/// Renders `n` in decimal.
pub fn decimal_chars(n: u64) -> (v: Vec<char>)
    ensures
        v@ == decimal(n as nat),
        v@.len() >= 1,
    decreases n,
{
    let d = (n % 10) as u8;
    let c = char_from_ascii(48 + d);
    if n < 10 {
        let mut v: Vec<char> = Vec::new();
        v.push(c);
        assert(v@ =~= seq![digit_char(n as nat)]);
        v
    } else {
        let mut v = decimal_chars(n / 10);
        v.push(c);
        v
    }
}

/// Appends the decimal rendering of `n` to `s`.
pub fn push_decimal(s: &mut String, n: u64)
    ensures
        final(s)@ == old(s)@ + decimal(n as nat),
{
    let v = decimal_chars(n);
    push_chars(s, v.as_slice());
}

/// The number of bytes of the UTF-8 encoding of `c`.
pub open spec fn char_utf8_len(c: char) -> nat {
    let u = c as u32;
    if u < 0x80 {
        1
    } else if u < 0x800 {
        2
    } else if u < 0x10000 {
        3
    } else {
        4
    }
}

/// The number of bytes of the UTF-8 encoding of `s` (as `str::len`).
pub open spec fn utf8_len(s: Seq<char>) -> nat
    decreases s.len(),
{
    if s.len() == 0 {
        0
    } else {
        utf8_len(s.drop_last()) + char_utf8_len(s.last())
    }
}

proof fn lemma_utf8_len_prefix(s: Seq<char>, i: int)
    requires
        0 <= i <= s.len(),
    ensures
        utf8_len(s.subrange(0, i)) <= utf8_len(s),
    decreases s.len() - i,
{
    if i < s.len() {
        lemma_utf8_len_prefix(s, i + 1);
        assert(s.subrange(0, i + 1).drop_last() =~= s.subrange(0, i));
    } else {
        assert(s.subrange(0, i) =~= s);
    }
}

/// A string is at least as many bytes long as it has characters, and at
/// most four times as many.
pub proof fn lemma_utf8_len_at_least_len(s: Seq<char>)
    ensures
        s.len() <= utf8_len(s) <= 4 * s.len(),
    decreases s.len(),
{
    if s.len() > 0 {
        lemma_utf8_len_at_least_len(s.drop_last());
    }
}

/// The length in bytes of the UTF-8 encoding of `s`, or `bound` when that
/// length is `bound` or more.
pub fn utf8_len_up_to(s: &[char], bound: usize) -> (n: usize)
    requires
        bound <= 0x1000,
    ensures
        n as nat == if utf8_len(s@) < bound { utf8_len(s@) } else { bound as nat },
{
    let mut n: usize = 0;
    let mut i: usize = 0;
    while i < s.len() && n < bound
        invariant
            i <= s.len(),
            bound <= 0x1000,
            n as nat == utf8_len(s@.subrange(0, i as int)),
            n < bound + 4,
        decreases s.len() - i,
    {
        let u = s[i] as u32;
        let w: usize = if u < 0x80 {
            1
        } else if u < 0x800 {
            2
        } else if u < 0x10000 {
            3
        } else {
            4
        };
        assert(s@.subrange(0, i + 1).drop_last() =~= s@.subrange(0, i as int));
        n = n + w;
        i += 1;
    }
    proof {
        lemma_utf8_len_prefix(s@, i as int);
        if i == s.len() {
            assert(s@.subrange(0, i as int) =~= s@);
        }
    }
    if n < bound {
        n
    } else {
        bound
    }
}

/// `true` exactly when the two strings hold the same characters.
pub fn str_eq(a: &str, b: &str) -> (r: bool)
    ensures
        r == (a@ == b@),
{
    let x = chars_of(a);
    let y = chars_of(b);
    chars_eq(x.as_slice(), y.as_slice())
}

/// The lowercase mapping of a string, as `str::to_lowercase` computes it.
pub uninterp spec fn lowercase(s: Seq<char>) -> Seq<char>;

/// Every character of `s` is ASCII.
pub open spec fn all_ascii(s: Seq<char>) -> bool {
    forall|i: int| 0 <= i < s.len() ==> (#[trigger] s[i] as u32) < 128
}

/// The ASCII lowercase of each character of `s`.
pub open spec fn ascii_lower_str(s: Seq<char>) -> Seq<char> {
    s.map_values(|c: char| ascii_lower(c))
}

/// `str::to_lowercase` from the standard library. Its result is a function
/// of the characters of `s` alone; on an all-ASCII string it maps `A`..`Z` to
/// `a`..`z` and keeps every other character (Unicode's lowercase mapping
/// agrees with ASCII's there). The mapping of other characters is not stated.
#[verifier::external_body]
pub(crate) fn to_lowercase(s: &str) -> (r: String)
    ensures
        r@ == lowercase(s@),
        all_ascii(s@) ==> r@ == ascii_lower_str(s@),
{
    s.to_lowercase()
}

/// The extended grapheme clusters of a string, as `unicode_segmentation` splits them.
pub uninterp spec fn grapheme_split(s: Seq<char>) -> Seq<Seq<char>>;

/// `UnicodeSegmentation::graphemes(s, true)`: the extended grapheme clusters
/// of `s`, each collected into a string. Stated: the clusters are not empty
/// and, joined in order, give back `s` (the iterator yields consecutive
/// slices from the start of `s` to its end). Where the boundaries fall
/// (UAX #29) is not stated; the result is named as a function of the
/// characters of `s`.
#[verifier::external_body]
pub(crate) fn graphemes(s: &str) -> (g: Vec<String>)
    ensures
        g.deep_view() == grapheme_split(s@),
        g.deep_view().flatten() == s@,
        forall|i: int| 0 <= i < g.deep_view().len() ==> #[trigger] g.deep_view()[i].len() > 0,
{
    s.graphemes(true).map(|x| x.to_string()).collect()
}

/// The display width in terminal columns, as `unicode_width` computes it.
pub uninterp spec fn display_width(s: Seq<char>) -> nat;

/// `UnicodeWidthStr::width(s)`: the number of terminal columns `s` occupies.
/// The width tables (UAX #11) are not stated; the result is named as a
/// function of the characters of `s`.
#[verifier::external_body]
pub(crate) fn str_width(s: &str) -> (w: usize)
    ensures
        w as nat == display_width(s@),
{
    UnicodeWidthStr::width(s)
}

} // verus!
