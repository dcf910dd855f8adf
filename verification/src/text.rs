//! Character-level text primitives shared by every extractor.
//!
//! Text is handled as a sequence of `char`s: exec code works on `&[char]` and
//! `Vec<char>`, and contracts speak of `Seq<char>`, which is also the view of
//! `str` and `String`.

use vstd::prelude::*;

verus! {

// ---------------------------------------------------------------------------
// Character classes
// ---------------------------------------------------------------------------

/// The Unicode `White_Space` property, which is what `char::is_whitespace` tests.
pub open spec fn is_ws(c: char) -> bool {
    let v = c as u32;
    ||| v == 0x20
    ||| 0x09 <= v <= 0x0D
    ||| v == 0x85 || v == 0xA0 || v == 0x1680
    ||| 0x2000 <= v <= 0x200A
    ||| v == 0x2028 || v == 0x2029 || v == 0x202F || v == 0x205F || v == 0x3000
}

/// Whether `c` has the Unicode `White_Space` property.
pub fn is_whitespace(c: char) -> (b: bool)
    ensures
        b == is_ws(c),
{
    let v = c as u32;
    v == 0x20 || (0x09 <= v && v <= 0x0D) || v == 0x85 || v == 0xA0 || v == 0x1680 || (0x2000 <= v
        && v <= 0x200A) || v == 0x2028 || v == 0x2029 || v == 0x202F || v == 0x205F || v == 0x3000
}

/// ASCII whitespace as `u8::is_ascii_whitespace` defines it: space, tab, line feed,
/// form feed and carriage return.
pub open spec fn is_ascii_ws(c: char) -> bool {
    c == ' ' || c == '\t' || c == '\n' || c == '\x0C' || c == '\r'
}

/// Whether `c` is ASCII whitespace.
pub fn is_ascii_whitespace(c: char) -> (b: bool)
    ensures
        b == is_ascii_ws(c),
{
    c == ' ' || c == '\t' || c == '\n' || c == '\x0C' || c == '\r'
}

/// What `char::is_alphabetic` returns for `c` (the Unicode `Alphabetic` property).
pub uninterp spec fn alphabetic(c: char) -> bool;

/// What `char::is_numeric` returns for `c` (Unicode general categories `Nd`, `Nl`, `No`).
pub uninterp spec fn numeric(c: char) -> bool;

/// Calls `char::is_alphabetic`; the result is named `alphabetic(c)`. Among
/// ASCII characters it holds of the letters alone.
#[verifier::external_body]
pub(crate) fn is_alphabetic(c: char) -> (b: bool)
    ensures
        b == alphabetic(c),
        (c as u32) < 0x80 ==> (b <==> ('a' <= c <= 'z' || 'A' <= c <= 'Z')),
{
    c.is_alphabetic()
}

/// Calls `char::is_numeric`; the result is named `numeric(c)`. Among ASCII
/// characters it holds of the digits alone.
#[verifier::external_body]
pub(crate) fn is_numeric(c: char) -> (b: bool)
    ensures
        b == numeric(c),
        (c as u32) < 0x80 ==> (b <==> '0' <= c <= '9'),
{
    c.is_numeric()
}

/// What `char::is_uppercase` returns for `c` (the Unicode `Uppercase` property).
pub uninterp spec fn uppercase(c: char) -> bool;

/// Calls `char::is_uppercase`; the result is named `uppercase(c)`. Among ASCII
/// characters it holds of the capitals alone.
#[verifier::external_body]
pub(crate) fn is_uppercase(c: char) -> (b: bool)
    ensures
        b == uppercase(c),
        'A' <= c <= 'Z' ==> b,
        (c as u32) < 0x80 ==> (b <==> 'A' <= c <= 'Z'),
{
    c.is_uppercase()
}

/// Number of bytes that `c` takes in UTF-8 (what `char::len_utf8` returns).
pub open spec fn char_utf8_len(c: char) -> nat {
    let v = c as u32;
    if v < 0x80 {
        1
    } else if v < 0x800 {
        2
    } else if v < 0x10000 {
        3
    } else {
        4
    }
}

/// Number of bytes that `s` takes in UTF-8.
pub open spec fn utf8_len(s: Seq<char>) -> nat
    decreases s.len(),
{
    if s.len() == 0 {
        0
    } else {
        utf8_len(s.drop_last()) + char_utf8_len(s.last())
    }
}

/// The UTF-8 length of one character.
pub fn len_utf8(c: char) -> (n: usize)
    ensures
        n == char_utf8_len(c),
{
    let v = c as u32;
    if v < 0x80 {
        1
    } else if v < 0x800 {
        2
    } else if v < 0x10000 {
        3
    } else {
        4
    }
}

/// The UTF-8 length of a concatenation is the sum of the lengths.
pub proof fn lemma_utf8_len_concat(a: Seq<char>, b: Seq<char>)
    ensures
        utf8_len(a + b) == utf8_len(a) + utf8_len(b),
    decreases b.len(),
{
    if b.len() == 0 {
        assert(a + b =~= a);
    } else {
        lemma_utf8_len_concat(a, b.drop_last());
        assert((a + b).drop_last() =~= a + b.drop_last());
    }
}

/// A text takes at most four bytes per character.
pub proof fn lemma_utf8_len_bound(s: Seq<char>)
    ensures
        utf8_len(s) <= 4 * s.len(),
    decreases s.len(),
{
    if s.len() > 0 {
        lemma_utf8_len_bound(s.drop_last());
    }
}

/// The UTF-8 length of a text.
pub fn utf8_len_exec(s: &[char]) -> (n: u128)
    ensures
        n == utf8_len(s@),
        n <= 4 * s@.len(),
{
    let mut n: u128 = 0;
    let mut k: usize = 0;
    while k < s.len()
        invariant
            k <= s@.len(),
            n == utf8_len(s@.take(k as int)),
            n <= 4 * k,
        decreases s@.len() - k,
    {
        assert(s@.take(k + 1).drop_last() =~= s@.take(k as int));
        n = n + len_utf8(s[k]) as u128;
        k = k + 1;
    }
    assert(s@.take(k as int) =~= s@);
    n
}

// ---------------------------------------------------------------------------
// Conversions between `str`/`String` and characters
// ---------------------------------------------------------------------------

/// The characters of `s`.
pub fn str_chars(s: &str) -> (v: Vec<char>)
    ensures
        v@ == s@,
{
    let mut v: Vec<char> = Vec::new();
    for c in it: s.chars()
        invariant
            v@ == it.seq().take(it.index() as int),
    {
        v.push(c);
    }
    v
}

/// Collects characters into a `String` (`FromIterator<char>` for `String`).
#[verifier::external_body]
pub fn chars_string(v: &[char]) -> (s: String)
    ensures
        s@ == v@,
{
    v.iter().collect()
}

/// A fresh vector holding `s[a..b]`.
pub fn slice_vec(s: &[char], a: usize, b: usize) -> (r: Vec<char>)
    requires
        a <= b <= s@.len(),
    ensures
        r@ == s@.subrange(a as int, b as int),
{
    let mut r: Vec<char> = Vec::new();
    let mut k = a;
    while k < b
        invariant
            a <= k <= b <= s@.len(),
            r@ == s@.subrange(a as int, k as int),
        decreases b - k,
    {
        r.push(s[k]);
        k = k + 1;
    }
    r
}

/// Whether two character slices are equal.
pub fn slice_eq(a: &[char], b: &[char]) -> (r: bool)
    ensures
        r == (a@ == b@),
{
    if a.len() != b.len() {
        return false;
    }
    let mut k: usize = 0;
    while k < a.len()
        invariant
            k <= a@.len() == b@.len(),
            forall|j: int| 0 <= j < k ==> a@[j] == b@[j],
        decreases a@.len() - k,
    {
        if a[k] != b[k] {
            assert(a@[k as int] != b@[k as int]);
            return false;
        }
        k = k + 1;
    }
    assert(a@ =~= b@);
    true
}

/// Whether two strings are equal.
pub fn str_eq(a: &str, b: &str) -> (r: bool)
    ensures
        r == (a@ == b@),
{
    let av = str_chars(a);
    let bv = str_chars(b);
    slice_eq(av.as_slice(), bv.as_slice())
}

/// Appends all of `s` to `out`.
pub fn push_all(out: &mut Vec<char>, s: &[char])
    ensures
        final(out)@ == old(out)@ + s@,
{
    let mut k: usize = 0;
    while k < s.len()
        invariant
            k <= s@.len(),
            out@ == old(out)@ + s@.subrange(0, k as int),
        decreases s@.len() - k,
    {
        out.push(s[k]);
        k = k + 1;
    }
    assert(s@.subrange(0, s@.len() as int) =~= s@);
}

/// Appends the characters of `s` to `out`.
pub fn push_str(out: &mut Vec<char>, s: &str)
    ensures
        final(out)@ == old(out)@ + s@,
{
    let v = str_chars(s);
    push_all(out, v.as_slice());
}


// ---------------------------------------------------------------------------
// Trimming
// ---------------------------------------------------------------------------

/// `s` without its leading whitespace (`str::trim_start`).
pub open spec fn trim_start(s: Seq<char>) -> Seq<char>
    decreases s.len(),
{
    if s.len() > 0 && is_ws(s[0]) {
        trim_start(s.drop_first())
    } else {
        s
    }
}

/// `s` without its trailing whitespace (`str::trim_end`).
pub open spec fn trim_end(s: Seq<char>) -> Seq<char>
    decreases s.len(),
{
    if s.len() > 0 && is_ws(s.last()) {
        trim_end(s.drop_last())
    } else {
        s
    }
}

/// `s` without leading and trailing whitespace (`str::trim`).
pub open spec fn trim(s: Seq<char>) -> Seq<char> {
    trim_end(trim_start(s))
}

/// Where a run of leading whitespace of length `i` ends, `trim_start` begins.
pub proof fn lemma_trim_start_at(s: Seq<char>, i: int)
    requires
        0 <= i <= s.len(),
        forall|k: int| 0 <= k < i ==> is_ws(#[trigger] s[k]),
        i == s.len() || !is_ws(s[i]),
    ensures
        trim_start(s) == s.subrange(i, s.len() as int),
    decreases i,
{
    if i == 0 {
        assert(s.subrange(0, s.len() as int) =~= s);
    } else {
        let t = s.drop_first();
        assert forall|k: int| 0 <= k < i - 1 implies is_ws(#[trigger] t[k]) by {
            assert(t[k] == s[k + 1]);
        }
        if i - 1 < t.len() {
            assert(t[i - 1] == s[i]);
        }
        lemma_trim_start_at(t, i - 1);
        assert(t.subrange(i - 1, t.len() as int) =~= s.subrange(i, s.len() as int));
    }
}

/// Where a run of trailing whitespace starting at `j` begins, `trim_end` ends.
pub proof fn lemma_trim_end_at(s: Seq<char>, j: int)
    requires
        0 <= j <= s.len(),
        forall|k: int| j <= k < s.len() ==> is_ws(#[trigger] s[k]),
        j == 0 || !is_ws(s[j - 1]),
    ensures
        trim_end(s) == s.subrange(0, j),
    decreases s.len() - j,
{
    if j == s.len() {
        assert(s.subrange(0, j) =~= s);
    } else {
        let t = s.drop_last();
        assert forall|k: int| j <= k < t.len() implies is_ws(#[trigger] t[k]) by {
            assert(t[k] == s[k]);
        }
        if j > 0 {
            assert(t[j - 1] == s[j - 1]);
        }
        lemma_trim_end_at(t, j);
        assert(t.subrange(0, j) =~= s.subrange(0, j));
    }
}

proof fn lemma_trim_start_first(s: Seq<char>)
    ensures
        trim_start(s).len() > 0 ==> !is_ws(trim_start(s)[0]),
    decreases s.len(),
{
    if s.len() > 0 && is_ws(s[0]) {
        lemma_trim_start_first(s.drop_first());
    }
}

proof fn lemma_trim_end_prefix(s: Seq<char>)
    ensures
        trim_end(s).len() <= s.len(),
        trim_end(s) == s.take(trim_end(s).len() as int),
        trim_end(s).len() > 0 ==> !is_ws(trim_end(s).last()),
    decreases s.len(),
{
    if s.len() > 0 && is_ws(s.last()) {
        lemma_trim_end_prefix(s.drop_last());
        assert(s.drop_last().take(trim_end(s).len() as int) =~= s.take(trim_end(s).len() as int));
    } else {
        assert(s.take(s.len() as int) =~= s);
    }
}

/// Trimming trimmed text changes nothing.
pub proof fn lemma_trim_idempotent(s: Seq<char>)
    ensures
        trim(trim(s)) == trim(s),
{
    let a = trim_start(s);
    let t = trim(s);
    lemma_trim_start_first(s);
    lemma_trim_end_prefix(a);
    if t.len() > 0 {
        assert(t[0] == a[0]);
        lemma_trim_start_at(t, 0);
        assert(t.subrange(0, t.len() as int) =~= t);
        lemma_trim_end_at(t, t.len() as int);
        assert(t.subrange(0, t.len() as int) =~= t);
    } else {
        assert(trim_start(t) == t);
    }
}

/// Bounds `(a, b)` such that `s[a..b]` is `s` trimmed.
pub fn trim_bounds(s: &[char]) -> (r: (usize, usize))
    ensures
        r.0 <= r.1 <= s@.len(),
        s@.subrange(r.0 as int, r.1 as int) == trim(s@),
        s@.subrange(r.0 as int, s@.len() as int) == trim_start(s@),
{
    let n = s.len();
    let mut a: usize = 0;
    while a < n && is_whitespace(s[a])
        invariant
            a <= n == s@.len(),
            forall|k: int| 0 <= k < a ==> is_ws(#[trigger] s@[k]),
        decreases n - a,
    {
        a = a + 1;
    }
    proof {
        lemma_trim_start_at(s@, a as int);
    }
    let mut b: usize = n;
    while b > a && is_whitespace(s[b - 1])
        invariant
            a <= b <= n == s@.len(),
            forall|k: int| b <= k < n ==> is_ws(#[trigger] s@[k]),
        decreases b - a,
    {
        b = b - 1;
    }
    proof {
        let t = s@.subrange(a as int, n as int);
        assert forall|k: int| b - a <= k < t.len() implies is_ws(#[trigger] t[k]) by {
            assert(t[k] == s@[a + k]);
        }
        if b > a {
            assert(t[b - a - 1] == s@[b - 1]);
        }
        lemma_trim_end_at(t, b - a);
        assert(t.subrange(0, b - a) =~= s@.subrange(a as int, b as int));
    }
    (a, b)
}

/// `s` trimmed, as a fresh vector.
pub fn trim_vec(s: &[char]) -> (r: Vec<char>)
    ensures
        r@ == trim(s@),
{
    let (a, b) = trim_bounds(s);
    slice_vec(s, a, b)
}

/// `s` without leading whitespace, as a fresh vector.
pub fn trim_start_vec(s: &[char]) -> (r: Vec<char>)
    ensures
        r@ == trim_start(s@),
{
    let (a, _b) = trim_bounds(s);
    slice_vec(s, a, s.len())
}

// ---------------------------------------------------------------------------
// Matching and searching
// ---------------------------------------------------------------------------

/// `p` occurs in `s` at position `i`.
pub open spec fn matches_at(s: Seq<char>, i: int, p: Seq<char>) -> bool {
    0 <= i && i + p.len() <= s.len() && s.subrange(i, i + p.len()) =~= p
}

/// `s` begins with `p` (`str::starts_with`).
pub open spec fn starts_with(s: Seq<char>, p: Seq<char>) -> bool {
    matches_at(s, 0, p)
}

/// `s` ends with `p` (`str::ends_with`).
pub open spec fn ends_with(s: Seq<char>, p: Seq<char>) -> bool {
    p.len() <= s.len() && matches_at(s, s.len() - p.len(), p)
}

/// The first position at or after `i` where `p` occurs in `s`.
pub open spec fn find_from(s: Seq<char>, p: Seq<char>, i: nat) -> Option<nat>
    decreases s.len() - i,
{
    if i + p.len() > s.len() {
        None
    } else if matches_at(s, i as int, p) {
        Some(i)
    } else {
        find_from(s, p, i + 1)
    }
}

/// The first position where `p` occurs in `s` (`str::find`).
pub open spec fn find(s: Seq<char>, p: Seq<char>) -> Option<nat> {
    find_from(s, p, 0)
}

/// `p` occurs in `s` (`str::contains`).
pub open spec fn contains(s: Seq<char>, p: Seq<char>) -> bool {
    find(s, p) is Some
}

/// What `find_from` returns: the first match at or after `i`.
pub proof fn lemma_find_from(s: Seq<char>, p: Seq<char>, i: nat)
    ensures
        find_from(s, p, i) matches Some(k) ==> i <= k && matches_at(s, k as int, p)
            && forall|j: int| i <= j < k ==> !matches_at(s, j, p),
        find_from(s, p, i) is None ==> forall|j: int| i <= j ==> !matches_at(s, j, p),
    decreases s.len() - i,
{
    if i + p.len() > s.len() {
    } else if matches_at(s, i as int, p) {
    } else {
        lemma_find_from(s, p, i + 1);
    }
}

/// Whether `p` occurs in `s` at position `i`.
pub fn matches_at_exec(s: &[char], i: usize, p: &[char]) -> (b: bool)
    ensures
        b == matches_at(s@, i as int, p@),
{
    if p.len() > s.len() || i > s.len() - p.len() {
        return false;
    }
    let mut k: usize = 0;
    while k < p.len()
        invariant
            i + p@.len() <= s@.len(),
            s@.len() == s.len(),
            k <= p@.len(),
            forall|j: int| 0 <= j < k ==> s@[i + j] == p@[j],
        decreases p@.len() - k,
    {
        if s[i + k] != p[k] {
            assert(s@.subrange(i as int, i + p@.len())[k as int] != p@[k as int]);
            return false;
        }
        k = k + 1;
    }
    assert(s@.subrange(i as int, i + p@.len()) =~= p@);
    true
}

/// Whether `s` begins with `p`.
pub fn starts_with_exec(s: &[char], p: &[char]) -> (b: bool)
    ensures
        b == starts_with(s@, p@),
{
    matches_at_exec(s, 0, p)
}

/// Whether `s` begins with the characters of the literal `p`.
pub fn starts_with_str(s: &[char], p: &str) -> (b: bool)
    ensures
        b == starts_with(s@, p@),
{
    let pv = str_chars(p);
    matches_at_exec(s, 0, pv.as_slice())
}

/// Whether `s` ends with `p`.
pub fn ends_with_exec(s: &[char], p: &[char]) -> (b: bool)
    ensures
        b == ends_with(s@, p@),
{
    if p.len() > s.len() {
        false
    } else {
        matches_at_exec(s, s.len() - p.len(), p)
    }
}

/// The first position at or after `i` where `p` occurs in `s`.
pub fn find_from_exec(s: &[char], p: &[char], i: usize) -> (r: Option<usize>)
    ensures
        r matches Some(k) ==> find_from(s@, p@, i as nat) == Some(k as nat),
        r is None ==> find_from(s@, p@, i as nat) is None,
{
    let mut j = i;
    while j <= s.len() && p.len() <= s.len() - j
        invariant
            i <= j,
            find_from(s@, p@, i as nat) == find_from(s@, p@, j as nat),
        decreases s@.len() + 1 - j,
    {
        if matches_at_exec(s, j, p) {
            return Some(j);
        }
        j = j + 1;
    }
    None
}

/// The first position where `p` occurs in `s`.
pub fn find_exec(s: &[char], p: &[char]) -> (r: Option<usize>)
    ensures
        r matches Some(k) ==> find(s@, p@) == Some(k as nat),
        r is None ==> find(s@, p@) is None,
{
    find_from_exec(s, p, 0)
}

/// The first position where the literal `p` occurs in `s`.
pub fn find_str(s: &[char], p: &str) -> (r: Option<usize>)
    ensures
        r matches Some(k) ==> find(s@, p@) == Some(k as nat),
        r is None ==> find(s@, p@) is None,
{
    let pv = str_chars(p);
    find_from_exec(s, pv.as_slice(), 0)
}

/// Whether the literal `p` occurs in `s`.
pub fn contains_str(s: &[char], p: &str) -> (b: bool)
    ensures
        b == contains(s@, p@),
{
    find_str(s, p).is_some()
}

/// The first position of `c` in `s`.
pub open spec fn find_char(s: Seq<char>, c: char) -> Option<nat> {
    find(s, seq![c])
}

/// The first position of `c` in `s` (`str::find` with a `char`).
pub fn find_char_exec(s: &[char], c: char) -> (r: Option<usize>)
    ensures
        r matches Some(k) ==> find_char(s@, c) == Some(k as nat),
        r is None ==> find_char(s@, c) is None,
{
    let mut p: Vec<char> = Vec::new();
    p.push(c);
    assert(p@ =~= seq![c]);
    find_from_exec(s, p.as_slice(), 0)
}


/// `c` first occurs in `t` at `k`.
pub proof fn lemma_find_char_at(t: Seq<char>, c: char, k: int)
    requires
        0 <= k < t.len(),
        t[k] == c,
        forall|j: int| 0 <= j < k ==> t[j] != c,
    ensures
        find_char(t, c) == Some(k as nat),
{
    lemma_find_from(t, seq![c], 0);
    assert(matches_at(t, k, seq![c])) by {
        assert(t.subrange(k, k + 1) =~= seq![c]);
    }
    if let Some(m) = find_char(t, c) {
        if m < k {
            assert(t.subrange(m as int, m as int + 1)[0] == c);
        }
    }
}

/// `c` does not occur in `t`.
pub proof fn lemma_find_char_none(t: Seq<char>, c: char)
    requires
        forall|j: int| 0 <= j < t.len() ==> t[j] != c,
    ensures
        find_char(t, c) is None,
{
    lemma_find_from(t, seq![c], 0);
    if let Some(m) = find_char(t, c) {
        assert(t.subrange(m as int, m as int + 1)[0] == c);
    }
}

/// The position of `c` found by `find_char` holds `c` and lies inside `t`.
pub proof fn lemma_find_char_some(t: Seq<char>, c: char)
    ensures
        find_char(t, c) matches Some(k) ==> k < t.len() && t[k as int] == c && forall|j: int|
            0 <= j < k ==> t[j] != c,
{
    lemma_find_from(t, seq![c], 0);
    if let Some(k) = find_char(t, c) {
        assert(t.subrange(k as int, k as int + 1)[0] == c);
        assert forall|j: int| 0 <= j < k implies t[j] != c by {
            if t[j] == c {
                assert(t.subrange(j, j + 1) =~= seq![c]);
                assert(matches_at(t, j, seq![c]));
            }
        }
    }
}

/// The first position at or after `i` where `c` occurs in `s`.
pub fn find_char_from(s: &[char], c: char, i: usize) -> (r: Option<usize>)
    requires
        i <= s@.len(),
    ensures
        r matches Some(k) ==> i <= k < s@.len() && find_char(s@.skip(i as int), c) == Some(
            (k - i) as nat,
        ),
        r is None ==> find_char(s@.skip(i as int), c) is None,
{
    let mut j = i;
    while j < s.len()
        invariant
            i <= j <= s@.len(),
            forall|m: int| i <= m < j ==> s@[m] != c,
        decreases s@.len() - j,
    {
        if s[j] == c {
            proof {
                lemma_find_char_at(s@.skip(i as int), c, j - i);
            }
            return Some(j);
        }
        j = j + 1;
    }
    proof {
        lemma_find_char_none(s@.skip(i as int), c);
    }
    None
}

/// The views of a sequence of character vectors.
pub open spec fn views(v: Seq<Vec<char>>) -> Seq<Seq<char>> {
    v.map_values(|x: Vec<char>| x@)
}

// ---------------------------------------------------------------------------
// Lines, splitting, replacing, counting
// ---------------------------------------------------------------------------

/// A line without the carriage return of a `\r\n` ending.
pub open spec fn strip_cr(l: Seq<char>) -> Seq<char> {
    if l.len() > 0 && l.last() == '\r' {
        l.drop_last()
    } else {
        l
    }
}

/// The lines of `s` (`str::lines`): split at `\n`, a `\r` before the `\n` dropped,
/// and no empty line after a final line ending.
pub open spec fn lines(s: Seq<char>) -> Seq<Seq<char>>
    decreases s.len(),
{
    if s.len() == 0 {
        seq![]
    } else {
        match find_char(s, '\n') {
            None => seq![s],
            Some(k) => {
                proof {
                    lemma_find_char_some(s, '\n');
                }
                seq![strip_cr(s.take(k as int))] + lines(s.skip(k as int + 1))
            },
        }
    }
}

/// `s` split at every occurrence of `c` (`str::split` with a `char`).
pub open spec fn split_char(s: Seq<char>, c: char) -> Seq<Seq<char>>
    decreases s.len(),
{
    match find_char(s, c) {
        None => seq![s],
        Some(k) => {
            proof {
                lemma_find_char_some(s, c);
            }
            seq![s.take(k as int)] + split_char(s.skip(k as int + 1), c)
        },
    }
}

/// `s` with every non-overlapping occurrence of a non-empty `from`, scanned from the
/// left, replaced by `to` (`str::replace`). An empty `from` leaves `s` as it is.
pub open spec fn replace(s: Seq<char>, from: Seq<char>, to: Seq<char>) -> Seq<char>
    decreases s.len(),
{
    if s.len() == 0 {
        seq![]
    } else if from.len() > 0 && starts_with(s, from) {
        to + replace(s.skip(from.len() as int), from, to)
    } else {
        seq![s[0]] + replace(s.drop_first(), from, to)
    }
}

/// Number of non-overlapping occurrences of a non-empty `p` in `s`, scanned from the
/// left (`str::matches(..).count()`); zero for an empty `p`.
pub open spec fn count_matches(s: Seq<char>, p: Seq<char>) -> nat
    decreases s.len(),
{
    if s.len() == 0 {
        0
    } else if p.len() > 0 && starts_with(s, p) {
        1 + count_matches(s.skip(p.len() as int), p)
    } else {
        count_matches(s.drop_first(), p)
    }
}

/// The lines of `s`.
pub fn lines_exec(s: &[char]) -> (r: Vec<Vec<char>>)
    ensures
        views(r@) == lines(s@),
{
    let mut r: Vec<Vec<char>> = Vec::new();
    let mut start: usize = 0;
    let n = s.len();
    assert(s@.skip(0) =~= s@);
    assert(views(r@) =~= Seq::<Seq<char>>::empty());
    while start < n
        invariant
            start <= n == s@.len(),
            views(r@) + lines(s@.skip(start as int)) == lines(s@),
        decreases n - start,
    {
        let t = Ghost(s@.skip(start as int));
        match find_char_from(s, '\n', start) {
            None => {
                let line = slice_vec(s, start, n);
                proof {
                    assert(line@ =~= t@);
                    assert(lines(t@) == seq![t@]);
                    assert(views(r@.push(line)) =~= views(r@) + seq![line@]);
                    assert(s@.skip(n as int) =~= Seq::<char>::empty());
                }
                r.push(line);
                start = n;
            },
            Some(k) => {
                let mut end = k;
                if end > start && s[end - 1] == '\r' {
                    end = end - 1;
                }
                let line = slice_vec(s, start, end);
                proof {
                    let kk: int = k - start;
                    assert(t@.take(kk) =~= s@.subrange(start as int, k as int));
                    assert(line@ =~= strip_cr(t@.take(kk)));
                    assert(t@.skip(kk + 1) =~= s@.skip(k + 1));
                    assert(lines(t@) == seq![strip_cr(t@.take(kk))] + lines(t@.skip(kk + 1)));
                    assert(views(r@.push(line)) =~= views(r@) + seq![line@]);
                }
                r.push(line);
                start = k + 1;
            },
        }
    }
    proof {
        assert(s@.skip(start as int) =~= Seq::<char>::empty());
        assert(views(r@) + lines(Seq::<char>::empty()) =~= views(r@));
    }
    r
}

/// `s` split at every occurrence of `c`.
pub fn split_char_exec(s: &[char], c: char) -> (r: Vec<Vec<char>>)
    ensures
        views(r@) == split_char(s@, c),
{
    let mut r: Vec<Vec<char>> = Vec::new();
    let mut start: usize = 0;
    let n = s.len();
    assert(s@.skip(0) =~= s@);
    assert(views(r@) =~= Seq::<Seq<char>>::empty());
    loop
        invariant
            start <= n == s@.len(),
            views(r@) + split_char(s@.skip(start as int), c) == split_char(s@, c),
        decreases n - start,
    {
        let t = Ghost(s@.skip(start as int));
        match find_char_from(s, c, start) {
            None => {
                let piece = slice_vec(s, start, n);
                proof {
                    assert(piece@ =~= t@);
                    assert(views(r@.push(piece)) =~= views(r@) + seq![piece@]);
                }
                r.push(piece);
                return r;
            },
            Some(k) => {
                let piece = slice_vec(s, start, k);
                proof {
                    let kk: int = k - start;
                    assert(t@.take(kk) =~= piece@);
                    assert(t@.skip(kk + 1) =~= s@.skip(k + 1));
                    assert(views(r@.push(piece)) =~= views(r@) + seq![piece@]);
                }
                r.push(piece);
                start = k + 1;
            },
        }
    }
}

/// `s` with every occurrence of `from` replaced by `to`.
pub fn replace_exec(s: &[char], from: &[char], to: &[char]) -> (r: Vec<char>)
    ensures
        r@ == replace(s@, from@, to@),
{
    let mut out: Vec<char> = Vec::new();
    let mut i: usize = 0;
    let n = s.len();
    assert(s@.skip(0) =~= s@);
    assert(out@ + replace(s@, from@, to@) =~= replace(s@, from@, to@));
    while i < n
        invariant
            i <= n == s@.len(),
            out@ + replace(s@.skip(i as int), from@, to@) == replace(s@, from@, to@),
        decreases n - i,
    {
        let ghost t = s@.skip(i as int);
        if from.len() > 0 && matches_at_exec(s, i, from) {
            proof {
                assert(t.subrange(0, from@.len() as int) =~= s@.subrange(
                    i as int,
                    i + from@.len(),
                ));
                assert(t.skip(from@.len() as int) =~= s@.skip(i + from@.len()));
            }
            let ghost prev = out@;
            push_all(&mut out, to);
            proof {
                assert(out@ + replace(s@.skip(i + from@.len()), from@, to@) =~= prev + (to@
                    + replace(t.skip(from@.len() as int), from@, to@)));
            }
            i = i + from.len();
        } else {
            proof {
                if from@.len() > 0 && starts_with(t, from@) {
                    assert(s@.subrange(i as int, i + from@.len()) =~= t.subrange(
                        0,
                        from@.len() as int,
                    ));
                }
                assert(t.drop_first() =~= s@.skip(i + 1));
                assert(t[0] == s@[i as int]);
            }
            let ghost prev = out@;
            out.push(s[i]);
            proof {
                assert(out@ + replace(s@.skip(i + 1), from@, to@) =~= prev + (seq![t[0]] + replace(
                    t.drop_first(),
                    from@,
                    to@,
                )));
            }
            i = i + 1;
        }
    }
    proof {
        assert(s@.skip(i as int) =~= Seq::<char>::empty());
        assert(out@ + Seq::<char>::empty() =~= out@);
    }
    out
}

/// `s` with every occurrence of the literal `from` replaced by the literal `to`.
pub fn replace_str(s: &[char], from: &str, to: &str) -> (r: Vec<char>)
    ensures
        r@ == replace(s@, from@, to@),
{
    let f = str_chars(from);
    let t = str_chars(to);
    replace_exec(s, f.as_slice(), t.as_slice())
}

/// Number of non-overlapping occurrences of `p` in `s`.
pub fn count_matches_exec(s: &[char], p: &[char]) -> (r: usize)
    ensures
        r == count_matches(s@, p@),
{
    let mut count: usize = 0;
    let mut i: usize = 0;
    let n = s.len();
    assert(s@.skip(0) =~= s@);
    while i < n
        invariant
            i <= n == s@.len(),
            count + count_matches(s@.skip(i as int), p@) == count_matches(s@, p@),
            count <= i,
        decreases n - i,
    {
        let ghost t = s@.skip(i as int);
        if p.len() > 0 && matches_at_exec(s, i, p) {
            proof {
                assert(t.subrange(0, p@.len() as int) =~= s@.subrange(i as int, i + p@.len()));
                assert(t.skip(p@.len() as int) =~= s@.skip(i + p@.len()));
            }
            count = count + 1;
            i = i + p.len();
        } else {
            proof {
                if p@.len() > 0 && starts_with(t, p@) {
                    assert(s@.subrange(i as int, i + p@.len()) =~= t.subrange(0, p@.len() as int));
                }
                assert(t.drop_first() =~= s@.skip(i + 1));
            }
            i = i + 1;
        }
    }
    proof {
        assert(s@.skip(i as int) =~= Seq::<char>::empty());
    }
    count
}


// ---------------------------------------------------------------------------
// Decimal numbers
// ---------------------------------------------------------------------------

/// The decimal digit for `d < 10`.
pub open spec fn digit(d: nat) -> char {
    if d == 0 {
        '0'
    } else if d == 1 {
        '1'
    } else if d == 2 {
        '2'
    } else if d == 3 {
        '3'
    } else if d == 4 {
        '4'
    } else if d == 5 {
        '5'
    } else if d == 6 {
        '6'
    } else if d == 7 {
        '7'
    } else if d == 8 {
        '8'
    } else {
        '9'
    }
}

/// The decimal representation of `n`, as `Display` writes it.
pub open spec fn decimal(n: nat) -> Seq<char>
    decreases n,
{
    if n < 10 {
        seq![digit(n)]
    } else {
        decimal(n / 10) + seq![digit(n % 10)]
    }
}

fn digit_exec(d: u128) -> (c: char)
    requires
        d < 10,
    ensures
        c == digit(d as nat),
{
    if d == 0 {
        '0'
    } else if d == 1 {
        '1'
    } else if d == 2 {
        '2'
    } else if d == 3 {
        '3'
    } else if d == 4 {
        '4'
    } else if d == 5 {
        '5'
    } else if d == 6 {
        '6'
    } else if d == 7 {
        '7'
    } else if d == 8 {
        '8'
    } else {
        '9'
    }
}

/// Appends the decimal representation of `n` to `out`.
pub fn push_decimal(out: &mut Vec<char>, n: u128)
    ensures
        final(out)@ == old(out)@ + decimal(n as nat),
    decreases n,
{
    if n < 10 {
        out.push(digit_exec(n));
    } else {
        push_decimal(out, n / 10);
        out.push(digit_exec(n % 10));
        assert(out@ =~= old(out)@ + decimal(n as nat));
    }
}

// ---------------------------------------------------------------------------
// Joining
// ---------------------------------------------------------------------------

/// `parts` joined with single spaces.
pub open spec fn join_spaces(parts: Seq<Seq<char>>) -> Seq<char>
    decreases parts.len(),
{
    if parts.len() == 0 {
        seq![]
    } else if parts.len() == 1 {
        parts[0]
    } else {
        join_spaces(parts.drop_last()) + " "@ + parts.last()
    }
}

/// Joins `parts` with single spaces.
pub fn join_with_spaces(parts: &Vec<Vec<char>>) -> (r: Vec<char>)
    ensures
        r@ == join_spaces(views(parts@)),
{
    let ghost pv = views(parts@);
    let mut out: Vec<char> = Vec::new();
    let mut k: usize = 0;
    assert(pv.take(0) =~= Seq::<Seq<char>>::empty());
    while k < parts.len()
        invariant
            k <= parts@.len(),
            pv == views(parts@),
            out@ == join_spaces(pv.take(k as int)),
        decreases parts@.len() - k,
    {
        assert(pv.take(k + 1).drop_last() =~= pv.take(k as int));
        assert(pv.take(k + 1).last() == parts@[k as int]@);
        if k > 0 {
            push_str(&mut out, " ");
        } else {
            assert(out@ =~= Seq::<char>::empty());
        }
        push_all(&mut out, parts[k].as_slice());
        assert(k == 0 ==> out@ =~= pv.take(1)[0]);
        k = k + 1;
    }
    assert(pv.take(k as int) =~= pv);
    out
}

} // verus!
