//! Character-level utilities shared by the pipeline: ASCII classification,
//! lowercasing, trimming, substring search and conversions between `&str`,
//! `Vec<char>` and `String`.

use vstd::prelude::*;

verus! {

/// ASCII whitespace, the set respected by the trimming operations.
pub open spec fn is_space_char(c: char) -> bool {
    c == ' ' || c == '\t' || c == '\n' || c == '\r' || c == '\u{b}' || c == '\u{c}'
}

/// ASCII alphanumeric characters.
pub open spec fn is_alnum_char(c: char) -> bool {
    ('0' <= c && c <= '9') || ('a' <= c && c <= 'z') || ('A' <= c && c <= 'Z')
}

/// ASCII lowercasing of a single character; everything else is unchanged.
pub open spec fn lower_char(c: char) -> char {
    if 'A' <= c && c <= 'Z' {
        (((c as u8) + 32) as u8) as char
    } else {
        c
    }
}

/// ASCII lowercasing of a whole sequence.
pub open spec fn lower_seq(s: Seq<char>) -> Seq<char> {
    s.map_values(|c: char| lower_char(c))
}

/// Number of ASCII alphanumeric characters in `s`.
pub open spec fn alnum_count(s: Seq<char>) -> nat
    decreases s.len(),
{
    if s.len() == 0 {
        0
    } else {
        (if is_alnum_char(s[0]) {
            1nat
        } else {
            0nat
        }) + alnum_count(s.drop_first())
    }
}

/// `p` occurs at the front of `s`.
pub open spec fn starts_with_seq(s: Seq<char>, p: Seq<char>) -> bool {
    p.len() <= s.len() && s.subrange(0, p.len() as int) == p
}

/// `p` occurs somewhere in `s`.
pub open spec fn contains_seq(s: Seq<char>, p: Seq<char>) -> bool {
    exists|i: int| 0 <= i && i + p.len() <= s.len() && #[trigger] s.subrange(i, i + p.len()) == p
}

/// Index of the first occurrence of `c` in `s`, or `s.len()` when absent.
pub open spec fn find_char_spec(s: Seq<char>, c: char) -> int
    decreases s.len(),
{
    if s.len() == 0 {
        0
    } else if s[0] == c {
        0
    } else {
        1 + find_char_spec(s.drop_first(), c)
    }
}

/// The first index characterises `find_char_spec` completely.
pub proof fn lemma_find_char_spec(s: Seq<char>, c: char)
    ensures
        0 <= find_char_spec(s, c) <= s.len(),
        find_char_spec(s, c) < s.len() ==> s[find_char_spec(s, c)] == c,
        forall|k: int| 0 <= k < find_char_spec(s, c) ==> s[k] != c,
    decreases s.len(),
{
    if s.len() > 0 && s[0] != c {
        lemma_find_char_spec(s.drop_first(), c);
        assert forall|k: int| 0 <= k < find_char_spec(s, c) implies s[k] != c by {
            if k > 0 {
                assert(s.drop_first()[k - 1] == s[k]);
            }
        }
    }
}

/// Longest prefix of spaces dropped.
pub open spec fn trim_start_spec(s: Seq<char>) -> Seq<char>
    decreases s.len(),
{
    if s.len() > 0 && is_space_char(s[0]) {
        trim_start_spec(s.drop_first())
    } else {
        s
    }
}

/// Longest suffix of spaces dropped.
pub open spec fn trim_end_spec(s: Seq<char>) -> Seq<char>
    decreases s.len(),
{
    if s.len() > 0 && is_space_char(s.last()) {
        trim_end_spec(s.drop_last())
    } else {
        s
    }
}

/// Both ends trimmed of whitespace.
pub open spec fn trim_spec(s: Seq<char>) -> Seq<char> {
    trim_end_spec(trim_start_spec(s))
}

/// Longest prefix of the character `q` dropped.
pub open spec fn trim_start_char_spec(s: Seq<char>, q: char) -> Seq<char>
    decreases s.len(),
{
    if s.len() > 0 && s[0] == q {
        trim_start_char_spec(s.drop_first(), q)
    } else {
        s
    }
}

/// Longest suffix of the character `q` dropped.
pub open spec fn trim_end_char_spec(s: Seq<char>, q: char) -> Seq<char>
    decreases s.len(),
{
    if s.len() > 0 && s.last() == q {
        trim_end_char_spec(s.drop_last(), q)
    } else {
        s
    }
}

/// Both ends trimmed of the character `q`, as `str::trim_matches` does.
pub open spec fn trim_char_spec(s: Seq<char>, q: char) -> Seq<char> {
    trim_end_char_spec(trim_start_char_spec(s, q), q)
}

/// The characters of `s` as a vector.
pub fn str_to_chars(s: &str) -> (r: Vec<char>)
    ensures
        r@ == s@,
{
    let n = s.unicode_len();
    let mut r: Vec<char> = Vec::with_capacity(n);
    for i in 0..n
        invariant
            n == s@.len(),
            r@ =~= s@.take(i as int),
    {
        r.push(s.get_char(i));
        proof {
            assert(r@ =~= s@.take(i + 1));
        }
    }
    proof {
        assert(s@.take(n as int) =~= s@);
    }
    r
}

/// Relies on `String::push` from std: appends the character to the string.
#[verifier::external_body]
fn string_push(s: &mut String, c: char)
    ensures
        final(s)@ == old(s)@.push(c),
{
    s.push(c);
}

/// A `String` with exactly the given characters.
pub fn chars_to_string(v: &Vec<char>) -> (r: String)
    ensures
        r@ == v@,
{
    let mut r = String::new();
    let n = v.len();
    for i in 0..n
        invariant
            n == v@.len(),
            r@ =~= v@.take(i as int),
    {
        string_push(&mut r, v[i]);
        proof {
            assert(r@ =~= v@.take(i + 1));
        }
    }
    proof {
        assert(v@.take(n as int) =~= v@);
    }
    r
}

/// A copy of `s[a..b]`.
pub fn sub_vec(s: &Vec<char>, a: usize, b: usize) -> (r: Vec<char>)
    requires
        a <= b <= s@.len(),
    ensures
        r@ == s@.subrange(a as int, b as int),
{
    let mut r: Vec<char> = Vec::with_capacity(b - a);
    for i in a..b
        invariant
            a <= i <= b <= s@.len(),
            r@ =~= s@.subrange(a as int, i as int),
    {
        r.push(s[i]);
        proof {
            assert(r@ =~= s@.subrange(a as int, i + 1));
        }
    }
    r
}

/// Lowercases every character, as `str::to_ascii_lowercase` does.
pub fn lower_vec(s: &Vec<char>) -> (r: Vec<char>)
    ensures
        r@ == lower_seq(s@),
{
    let n = s.len();
    let mut r: Vec<char> = Vec::with_capacity(n);
    for i in 0..n
        invariant
            n == s@.len(),
            r@ =~= lower_seq(s@).take(i as int),
    {
        let c = s[i];
        if c >= 'A' && c <= 'Z' {
            r.push((((c as u8) + 32) as u8) as char);
        } else {
            r.push(c);
        }
        proof {
            assert(r@ =~= lower_seq(s@).take(i + 1));
        }
    }
    proof {
        assert(lower_seq(s@).take(n as int) =~= lower_seq(s@));
    }
    r
}

/// Counts the ASCII alphanumeric characters.
pub fn alnum_len(s: &Vec<char>) -> (r: usize)
    ensures
        r == alnum_count(s@),
{
    let n = s.len();
    let mut count: usize = 0;
    proof {
        lemma_alnum_count_le_len(s@);
        assert(s@.skip(0) =~= s@);
    }
    for i in 0..n
        invariant
            n == s@.len(),
            count + alnum_count(s@.skip(i as int)) == alnum_count(s@),
            count <= i,
    {
        proof {
            assert(s@.skip(i as int).drop_first() =~= s@.skip(i + 1));
            assert(s@.skip(i as int)[0] == s@[i as int]);
        }
        let c = s[i];
        if ('0' <= c && c <= '9') || ('a' <= c && c <= 'z') || ('A' <= c && c <= 'Z') {
            count += 1;
        }
    }
    proof {
        assert(s@.skip(n as int) =~= Seq::<char>::empty());
    }
    count
}

/// An alphanumeric count never exceeds the length.
pub proof fn lemma_alnum_count_le_len(s: Seq<char>)
    ensures
        alnum_count(s) <= s.len(),
    decreases s.len(),
{
    if s.len() > 0 {
        lemma_alnum_count_le_len(s.drop_first());
    }
}

/// Whether the character ranges of `sub_eq_at` match at offset `off`.
fn sub_eq_at(s: &Vec<char>, off: usize, p: &Vec<char>) -> (r: bool)
    requires
        off + p@.len() <= s@.len(),
    ensures
        r == (s@.subrange(off as int, off + p@.len()) == p@),
{
    let n = s.len();
    let m = p.len();
    for j in 0..m
        invariant
            n == s@.len(),
            off + m <= n,
            m == p@.len(),
            forall|k: int| 0 <= k < j ==> s@[off + k] == p@[k],
    {
        if s[off + j] != p[j] {
            proof {
                assert(s@.subrange(off as int, off + p@.len())[j as int] != p@[j as int]);
            }
            return false;
        }
    }
    proof {
        assert(s@.subrange(off as int, off + p@.len()) =~= p@);
    }
    true
}

/// Whether `s` starts with `p`.
pub fn starts_with_chars(s: &Vec<char>, p: &Vec<char>) -> (r: bool)
    ensures
        r == starts_with_seq(s@, p@),
{
    if p.len() > s.len() {
        return false;
    }
    sub_eq_at(s, 0, p)
}

/// Whether `p` occurs anywhere in `s`.
pub fn contains_chars(s: &Vec<char>, p: &Vec<char>) -> (r: bool)
    ensures
        r == contains_seq(s@, p@),
{
    let n = s.len();
    let m = p.len();
    if m > n {
        return false;
    }
    if m == 0 {
        proof {
            assert(s@.subrange(0, 0 + p@.len() as int) =~= p@);
        }
        return true;
    }
    let last = n - m;
    for i in 0..last + 1
        invariant
            n == s@.len(),
            m == p@.len(),
            last == n - m,
            forall|k: int| 0 <= k < i ==> #[trigger] s@.subrange(k, k + p@.len()) != p@,
    {
        if sub_eq_at(s, i, p) {
            proof {
                assert(contains_seq(s@, p@));
            }
            return true;
        }
    }
    false
}

/// Appends every character of `src` to `dst`.
pub fn push_all(dst: &mut Vec<char>, src: &Vec<char>)
    ensures
        final(dst)@ == old(dst)@ + src@,
{
    let n = src.len();
    let ghost base = dst@;
    for i in 0..n
        invariant
            n == src@.len(),
            dst@ =~= base + src@.take(i as int),
    {
        dst.push(src[i]);
        proof {
            assert(dst@ =~= base + src@.take(i + 1));
        }
    }
    proof {
        assert(base + src@.take(n as int) =~= base + src@);
    }
}

/// The decimal digit character for a value below 10.
pub open spec fn digit_char(d: int) -> char {
    ((48 + d) as u8) as char
}

/// The decimal representation of a natural number, most significant digit
/// first, with no leading zeros except for zero itself.
pub open spec fn dec_rep(n: nat) -> Seq<char>
    decreases n,
{
    if n < 10 {
        seq![digit_char(n as int)]
    } else {
        dec_rep(n / 10).push(digit_char((n % 10) as int))
    }
}

/// The decimal representation padded with leading zeros to at least three
/// digits.
pub open spec fn dec_pad3_spec(n: nat) -> Seq<char> {
    if n < 10 {
        seq!['0', '0'] + dec_rep(n)
    } else if n < 100 {
        seq!['0'] + dec_rep(n)
    } else {
        dec_rep(n)
    }
}

/// The decimal representation of a signed value, with a leading minus sign
/// when negative.
pub open spec fn dec_i64_spec(v: int) -> Seq<char> {
    if v < 0 {
        seq!['-'] + dec_rep((-v) as nat)
    } else {
        dec_rep(v as nat)
    }
}

/// The decimal digits of `n`.
pub fn u64_to_dec_chars(n: u64) -> (r: Vec<char>)
    ensures
        r@ == dec_rep(n as nat),
    decreases n,
{
    if n < 10 {
        let mut r: Vec<char> = Vec::new();
        r.push((48 + n as u8) as char);
        proof {
            assert(r@ =~= dec_rep(n as nat));
        }
        r
    } else {
        let mut r = u64_to_dec_chars(n / 10);
        r.push((48 + (n % 10) as u8) as char);
        r
    }
}

/// The decimal rendering of an unsigned value.
pub fn u64_to_string(n: u64) -> (r: String)
    ensures
        r@ == dec_rep(n as nat),
{
    let digits = u64_to_dec_chars(n);
    chars_to_string(&digits)
}

/// The decimal digits of `n`, zero-padded to at least three.
pub fn u64_to_pad3_chars(n: u64) -> (r: Vec<char>)
    ensures
        r@ == dec_pad3_spec(n as nat),
{
    let mut r: Vec<char> = Vec::new();
    if n < 10 {
        r.push('0');
        r.push('0');
    } else if n < 100 {
        r.push('0');
    }
    let digits = u64_to_dec_chars(n);
    push_all(&mut r, &digits);
    proof {
        assert(r@ =~= dec_pad3_spec(n as nat));
    }
    r
}

/// The decimal rendering of a signed value.
pub fn i64_to_string(v: i64) -> (r: String)
    ensures
        r@ == dec_i64_spec(v as int),
{
    if v >= 0 {
        u64_to_string(v as u64)
    } else {
        let mag: u64 = ((-(v + 1)) as u64) + 1;
        proof {
            assert(mag == -(v as int));
        }
        let mut r: Vec<char> = Vec::new();
        r.push('-');
        let digits = u64_to_dec_chars(mag);
        push_all(&mut r, &digits);
        proof {
            assert(r@ =~= dec_i64_spec(v as int));
        }
        chars_to_string(&r)
    }
}

/// Whether two character vectors hold the same characters.
pub fn chars_eq(a: &Vec<char>, b: &Vec<char>) -> (r: bool)
    ensures
        r == (a@ == b@),
{
    let n = a.len();
    if n != b.len() {
        return false;
    }
    for i in 0..n
        invariant
            n == a@.len() == b@.len(),
            forall|k: int| 0 <= k < i ==> a@[k] == b@[k],
    {
        if a[i] != b[i] {
            return false;
        }
    }
    proof {
        assert(a@ =~= b@);
    }
    true
}

/// Index of the first occurrence of `c`, or the length when absent.
pub fn find_char(s: &Vec<char>, c: char) -> (r: usize)
    ensures
        r == find_char_spec(s@, c),
        r <= s@.len(),
{
    let n = s.len();
    for i in 0..n
        invariant
            n == s@.len(),
            forall|k: int| 0 <= k < i ==> s@[k] != c,
    {
        if s[i] == c {
            proof {
                lemma_find_char_agrees(s@, c, i as int);
            }
            return i;
        }
    }
    proof {
        lemma_find_char_agrees(s@, c, n as int);
    }
    n
}

/// A position with no earlier occurrence that either holds `c` or is the end
/// is exactly `find_char_spec`.
proof fn lemma_find_char_agrees(s: Seq<char>, c: char, i: int)
    requires
        0 <= i <= s.len(),
        forall|k: int| 0 <= k < i ==> s[k] != c,
        i < s.len() ==> s[i] == c,
    ensures
        find_char_spec(s, c) == i,
    decreases s.len(),
{
    if s.len() > 0 && s[0] != c {
        lemma_find_char_agrees(s.drop_first(), c, i - 1);
    }
}

/// Executable test for `is_space_char`.
pub fn is_space(c: char) -> (r: bool)
    ensures
        r == is_space_char(c),
{
    c == ' ' || c == '\t' || c == '\n' || c == '\r' || c == '\u{b}' || c == '\u{c}'
}

/// A trim keeps a contiguous middle slice: the bounds found by scanning
/// from both ends identify `trim_spec` exactly.
proof fn lemma_trim_start_agrees(s: Seq<char>, a: int)
    requires
        0 <= a <= s.len(),
        forall|k: int| 0 <= k < a ==> is_space_char(s[k]),
        a < s.len() ==> !is_space_char(s[a]),
    ensures
        trim_start_spec(s) =~= s.skip(a),
    decreases s.len(),
{
    if s.len() > 0 && is_space_char(s[0]) {
        lemma_trim_start_agrees(s.drop_first(), a - 1);
        assert(s.drop_first().skip(a - 1) =~= s.skip(a));
    } else {
        assert(s.skip(0) =~= s);
    }
}

proof fn lemma_trim_end_agrees(s: Seq<char>, b: int)
    requires
        0 <= b <= s.len(),
        forall|k: int| b <= k < s.len() ==> is_space_char(s[k]),
        b > 0 ==> !is_space_char(s[b - 1]),
    ensures
        trim_end_spec(s) =~= s.take(b),
    decreases s.len(),
{
    if s.len() > 0 && is_space_char(s.last()) {
        lemma_trim_end_agrees(s.drop_last(), b);
        assert(s.drop_last().take(b) =~= s.take(b));
    } else {
        assert(s.take(s.len() as int) =~= s);
    }
}

/// Whitespace trimmed from both ends, as `str::trim` does for ASCII input.
pub fn trim_chars(s: &Vec<char>) -> (r: Vec<char>)
    ensures
        r@ == trim_spec(s@),
{
    let n = s.len();
    let mut a: usize = 0;
    while a < n && is_space(s[a])
        invariant
            n == s@.len(),
            a <= n,
            forall|k: int| 0 <= k < a ==> is_space_char(s@[k]),
        decreases n - a,
    {
        a += 1;
    }
    proof {
        lemma_trim_start_agrees(s@, a as int);
    }
    let mut b: usize = n;
    while b > a && is_space(s[b - 1])
        invariant
            n == s@.len(),
            a <= b <= n,
            forall|k: int| b <= k < n ==> is_space_char(s@[k]),
        decreases b,
    {
        b -= 1;
    }
    if b == a {
        proof {
            lemma_trim_end_agrees(s@.skip(a as int), 0);
            assert(s@.skip(a as int).take(0) =~= s@.subrange(a as int, a as int));
        }
        return sub_vec(s, a, a);
    }
    proof {
        lemma_trim_end_agrees(s@.skip(a as int), b - a);
        assert(s@.skip(a as int).take(b - a) =~= s@.subrange(a as int, b as int));
    }
    sub_vec(s, a, b)
}

pub proof fn lemma_trim_start_char_agrees(s: Seq<char>, q: char, a: int)
    requires
        0 <= a <= s.len(),
        forall|k: int| 0 <= k < a ==> s[k] == q,
        a < s.len() ==> s[a] != q,
    ensures
        trim_start_char_spec(s, q) =~= s.skip(a),
    decreases s.len(),
{
    if s.len() > 0 && s[0] == q {
        lemma_trim_start_char_agrees(s.drop_first(), q, a - 1);
        assert(s.drop_first().skip(a - 1) =~= s.skip(a));
    } else {
        assert(s.skip(0) =~= s);
    }
}

proof fn lemma_trim_end_char_agrees(s: Seq<char>, q: char, b: int)
    requires
        0 <= b <= s.len(),
        forall|k: int| b <= k < s.len() ==> s[k] == q,
        b > 0 ==> s[b - 1] != q,
    ensures
        trim_end_char_spec(s, q) =~= s.take(b),
    decreases s.len(),
{
    if s.len() > 0 && s.last() == q {
        lemma_trim_end_char_agrees(s.drop_last(), q, b);
        assert(s.drop_last().take(b) =~= s.take(b));
    } else {
        assert(s.take(s.len() as int) =~= s);
    }
}

/// All leading and trailing copies of `q` removed, as `str::trim_matches`
/// does for a single pattern character.
pub fn trim_match_char(s: &Vec<char>, q: char) -> (r: Vec<char>)
    ensures
        r@ == trim_char_spec(s@, q),
{
    let n = s.len();
    let mut a: usize = 0;
    while a < n && s[a] == q
        invariant
            n == s@.len(),
            a <= n,
            forall|k: int| 0 <= k < a ==> s@[k] == q,
        decreases n - a,
    {
        a += 1;
    }
    proof {
        lemma_trim_start_char_agrees(s@, q, a as int);
    }
    let mut b: usize = n;
    while b > a && s[b - 1] == q
        invariant
            n == s@.len(),
            a <= b <= n,
            forall|k: int| b <= k < n ==> s@[k] == q,
        decreases b,
    {
        b -= 1;
    }
    if b == a {
        proof {
            lemma_trim_end_char_agrees(s@.skip(a as int), q, 0);
            assert(s@.skip(a as int).take(0) =~= s@.subrange(a as int, a as int));
        }
        return sub_vec(s, a, a);
    }
    proof {
        lemma_trim_end_char_agrees(s@.skip(a as int), q, b - a);
        assert(s@.skip(a as int).take(b - a) =~= s@.subrange(a as int, b as int));
    }
    sub_vec(s, a, b)
}

} // verus!
