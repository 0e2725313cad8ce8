//! Character-sequence utilities.
//!
//! All string logic in this crate works over `Vec<char>` / `&[char]`, whose
//! views coincide with the `Seq<char>` views of `String` and `&str`.  Two
//! trusted bridges convert between the representations; everything else here
//! is verified against spec functions over `Seq<char>`.

use vstd::prelude::*;

verus! {

/// ASCII whitespace, as trimmed from query strings and parsed lines.
pub open spec fn is_space_char(c: char) -> bool {
    c == ' ' || c == '\t' || c == '\n' || c == '\r'
}

/// Executable twin of [`is_space_char`].
pub fn is_space(c: char) -> (r: bool)
    ensures
        r == is_space_char(c),
{
    c == ' ' || c == '\t' || c == '\n' || c == '\r'
}

pub open spec fn spec_trim_start(s: Seq<char>) -> Seq<char>
    decreases s.len(),
{
    if s.len() > 0 && is_space_char(s[0]) {
        spec_trim_start(s.drop_first())
    } else {
        s
    }
}

pub open spec fn spec_trim_end(s: Seq<char>) -> Seq<char>
    decreases s.len(),
{
    if s.len() > 0 && is_space_char(s[s.len() - 1]) {
        spec_trim_end(s.drop_last())
    } else {
        s
    }
}

/// A sequence with leading and trailing whitespace removed.
pub open spec fn spec_trim(s: Seq<char>) -> Seq<char> {
    spec_trim_end(spec_trim_start(s))
}

/// Removes leading and trailing whitespace.
pub fn trim_chars(v: &[char]) -> (r: Vec<char>)
    ensures
        r@ == spec_trim(v@),
{
    let ghost n = v@.len() as int;
    proof {
        assert(v@.subrange(0, n) =~= v@);
    }
    let mut lo: usize = 0;
    while lo < v.len() && is_space(v[lo])
        invariant
            0 <= lo <= v@.len(),
            spec_trim_start(v@) == spec_trim_start(v@.subrange(lo as int, n)),
            n == v@.len(),
        decreases v@.len() - lo,
    {
        proof {
            assert(v@.subrange(lo as int, n).drop_first() =~= v@.subrange(lo as int + 1, n));
        }
        lo = lo + 1;
    }
    proof {
        assert(spec_trim_start(v@.subrange(lo as int, n)) == v@.subrange(lo as int, n));
    }
    let mut hi: usize = v.len();
    while hi > lo && is_space(v[hi - 1])
        invariant
            lo <= hi <= v@.len(),
            n == v@.len(),
            spec_trim_end(v@.subrange(lo as int, n)) == spec_trim_end(
                v@.subrange(lo as int, hi as int),
            ),
        decreases hi,
    {
        proof {
            assert(v@.subrange(lo as int, hi as int).drop_last() =~= v@.subrange(
                lo as int,
                hi as int - 1,
            ));
        }
        hi = hi - 1;
    }
    proof {
        assert(spec_trim_end(v@.subrange(lo as int, hi as int)) == v@.subrange(
            lo as int,
            hi as int,
        ));
    }
    let mut r: Vec<char> = Vec::new();
    let mut i: usize = lo;
    while i < hi
        invariant
            lo <= i <= hi <= v@.len(),
            r@ == v@.subrange(lo as int, i as int),
        decreases hi - i,
    {
        r.push(v[i]);
        proof {
            assert(v@.subrange(lo as int, i as int).push(v@[i as int]) =~= v@.subrange(
                lo as int,
                i as int + 1,
            ));
        }
        i = i + 1;
    }
    r
}

/// Splits a sequence at every occurrence of `sep`.  The result always has at
/// least one segment; a separator at the end yields a trailing empty segment.
pub open spec fn spec_split(s: Seq<char>, sep: char) -> Seq<Seq<char>>
    decreases s.len(),
{
    if s.len() == 0 {
        seq![Seq::<char>::empty()]
    } else if s[0] == sep {
        seq![Seq::<char>::empty()] + spec_split(s.drop_first(), sep)
    } else {
        let rest = spec_split(s.drop_first(), sep);
        seq![seq![s[0]] + rest[0]] + rest.drop_first()
    }
}

pub proof fn lemma_split_nonempty(s: Seq<char>, sep: char)
    ensures
        spec_split(s, sep).len() >= 1,
    decreases s.len(),
{
    if s.len() > 0 {
        lemma_split_nonempty(s.drop_first(), sep);
    }
}

/// Splits `v` at every occurrence of `sep`.
pub fn split_chars(v: &[char], sep: char) -> (r: Vec<Vec<char>>)
    ensures
        r@.map_values(|x: Vec<char>| x@) == spec_split(v@, sep),
{
    let ghost n = v@.len() as int;
    let mut out: Vec<Vec<char>> = Vec::new();
    let mut cur: Vec<char> = Vec::new();
    let mut i: usize = 0;
    proof {
        assert(v@.subrange(0, n) =~= v@);
        lemma_split_nonempty(v@, sep);
        let f = |x: Vec<char>| x@;
        assert(out@.map_values(f) =~= Seq::<Seq<char>>::empty());
        assert(cur@ + spec_split(v@, sep)[0] =~= spec_split(v@, sep)[0]);
        assert(spec_split(v@, sep) =~= out@.map_values(f) + seq![
            cur@ + spec_split(v@.subrange(0, n), sep)[0],
        ] + spec_split(v@.subrange(0, n), sep).drop_first());
    }
    while i < v.len()
        invariant
            0 <= i <= v@.len(),
            n == v@.len(),
            spec_split(v@.subrange(i as int, n), sep).len() >= 1,
            spec_split(v@, sep) == out@.map_values(|x: Vec<char>| x@) + seq![
                cur@ + spec_split(v@.subrange(i as int, n), sep)[0],
            ] + spec_split(v@.subrange(i as int, n), sep).drop_first(),
        decreases v@.len() - i,
    {
        let ghost tail = v@.subrange(i as int, n);
        proof {
            assert(tail.drop_first() =~= v@.subrange(i as int + 1, n));
            lemma_split_nonempty(v@.subrange(i as int + 1, n), sep);
        }
        let c = v[i];
        if c == sep {
            let done = cur;
            cur = Vec::new();
            let ghost prev_out = out@;
            out.push(done);
            proof {
                let f = |x: Vec<char>| x@;
                assert(out@.map_values(f) =~= prev_out.map_values(f).push(done@));
                assert(tail[0] == sep);
                assert(spec_split(tail, sep) == seq![Seq::<char>::empty()] + spec_split(
                    tail.drop_first(),
                    sep,
                ));
                assert(done@ + spec_split(tail, sep)[0] =~= done@);
                assert(spec_split(tail, sep).drop_first() =~= spec_split(tail.drop_first(), sep));
                assert(spec_split(v@, sep) =~= out@.map_values(f) + seq![
                    cur@ + spec_split(v@.subrange(i as int + 1, n), sep)[0],
                ] + spec_split(v@.subrange(i as int + 1, n), sep).drop_first());
            }
        } else {
            let ghost prev_cur = cur@;
            cur.push(c);
            proof {
                let rest = spec_split(tail.drop_first(), sep);
                assert(tail[0] == c);
                assert(spec_split(tail, sep) == seq![seq![c] + rest[0]] + rest.drop_first());
                assert(spec_split(tail, sep)[0] =~= seq![c] + rest[0]);
                assert(prev_cur + spec_split(tail, sep)[0] =~= cur@ + rest[0]);
                assert(spec_split(tail, sep).drop_first() =~= rest.drop_first());
                assert(spec_split(v@, sep) =~= out@.map_values(|x: Vec<char>| x@) + seq![
                    cur@ + spec_split(v@.subrange(i as int + 1, n), sep)[0],
                ] + spec_split(v@.subrange(i as int + 1, n), sep).drop_first());
            }
        }
        i = i + 1;
    }
    proof {
        assert(v@.subrange(i as int, n) =~= Seq::<char>::empty());
        assert(spec_split(v@.subrange(i as int, n), sep) == seq![Seq::<char>::empty()]);
        assert(cur@ + Seq::<char>::empty() =~= cur@);
    }
    let ghost prev_out = out@;
    out.push(cur);
    proof {
        let f = |x: Vec<char>| x@;
        assert(out@.map_values(f) =~= prev_out.map_values(f).push(cur@));
        assert(out@.map_values(f) =~= spec_split(v@, sep));
    }
    out
}

/// First index of `c` in `v`, if any.
pub fn find_char(v: &[char], c: char) -> (r: Option<usize>)
    ensures
        match r {
            Some(i) => 0 <= i < v@.len() && v@[i as int] == c && forall|k: int|
                0 <= k < i ==> v@[k] != c,
            None => forall|k: int| 0 <= k < v@.len() ==> v@[k] != c,
        },
{
    let mut i: usize = 0;
    while i < v.len()
        invariant
            0 <= i <= v@.len(),
            forall|k: int| 0 <= k < i ==> v@[k] != c,
        decreases v@.len() - i,
    {
        if v[i] == c {
            return Some(i);
        }
        i = i + 1;
    }
    None
}

/// The needle `n` occurs in `h` starting at index `i`.
pub open spec fn spec_match_at(h: Seq<char>, n: Seq<char>, i: int) -> bool {
    0 <= i && i + n.len() <= h.len() && h.subrange(i, i + n.len()) == n
}

/// Substring containment.
pub open spec fn spec_contains(h: Seq<char>, n: Seq<char>) -> bool {
    exists|i: int| spec_match_at(h, n, i)
}

/// Does `n` occur in `h` starting at `i`?
pub fn match_at(h: &[char], n: &[char], i: usize) -> (r: bool)
    requires
        i + n@.len() <= h@.len(),
    ensures
        r == spec_match_at(h@, n@, i as int),
{
    let hl: usize = h.len();
    let nl: usize = n.len();
    let mut j: usize = 0;
    while j < nl
        invariant
            0 <= j <= n@.len(),
            nl == n@.len(),
            hl == h@.len(),
            i + n@.len() <= h@.len(),
            forall|k: int| 0 <= k < j ==> h@[i + k] == n@[k],
        decreases n@.len() - j,
    {
        if h[i + j] != n[j] {
            proof {
                assert(h@.subrange(i as int, i + n@.len())[j as int] != n@[j as int]);
            }
            return false;
        }
        j = j + 1;
    }
    proof {
        assert(h@.subrange(i as int, i + n@.len()) =~= n@);
    }
    true
}

/// Substring search.
pub fn contains_chars(h: &[char], n: &[char]) -> (r: bool)
    ensures
        r == spec_contains(h@, n@),
{
    if n.len() > h.len() {
        proof {
            assert(forall|i: int| !spec_match_at(h@, n@, i));
        }
        return false;
    }
    let m: usize = h.len() - n.len();
    let mut i: usize = 0;
    loop
        invariant
            0 <= i <= m,
            m == h@.len() - n@.len(),
            n@.len() <= h@.len(),
            forall|k: int| 0 <= k < i ==> !spec_match_at(h@, n@, k),
        decreases m - i,
    {
        if match_at(h, n, i) {
            proof {
                assert(spec_match_at(h@, n@, i as int));
            }
            return true;
        }
        if i == m {
            proof {
                assert(forall|k: int| 0 <= k <= m ==> !spec_match_at(h@, n@, k));
                assert(forall|k: int| k > m ==> !spec_match_at(h@, n@, k));
            }
            return false;
        }
        i = i + 1;
    }
}

/// Prefix test.
pub open spec fn spec_starts_with(h: Seq<char>, n: Seq<char>) -> bool {
    spec_match_at(h, n, 0)
}

pub fn starts_with_chars(h: &[char], n: &[char]) -> (r: bool)
    ensures
        r == spec_starts_with(h@, n@),
{
    if n.len() > h.len() {
        return false;
    }
    match_at(h, n, 0)
}

/// Exact equality of two character slices.
pub fn eq_chars(a: &[char], b: &[char]) -> (r: bool)
    ensures
        r == (a@ == b@),
{
    if a.len() != b.len() {
        return false;
    }
    let mut i: usize = 0;
    while i < a.len()
        invariant
            0 <= i <= a@.len(),
            a@.len() == b@.len(),
            forall|k: int| 0 <= k < i ==> a@[k] == b@[k],
        decreases a@.len() - i,
    {
        if a[i] != b[i] {
            return false;
        }
        i = i + 1;
    }
    proof {
        assert(a@ =~= b@);
    }
    true
}

/// ASCII lowercasing of a single character; other characters are unchanged.
pub open spec fn ascii_lower_char(c: char) -> char {
    if 'A' <= c && c <= 'Z' {
        ((c as u32) + 32) as char
    } else {
        c
    }
}

/// A sequence mapped through [`ascii_lower_char`].
pub open spec fn seq_ascii_lower(s: Seq<char>) -> Seq<char> {
    s.map_values(|c: char| ascii_lower_char(c))
}

/// Executable twin of [`ascii_lower_char`].
pub fn to_ascii_lower(c: char) -> (r: char)
    ensures
        r == ascii_lower_char(c),
{
    if c >= 'A' && c <= 'Z' {
        let code: u32 = (c as u32) + 32;
        proof {
            assert(code < 128);
        }
        (code as u8) as char
    } else {
        c
    }
}

/// ASCII-case-insensitive equality of two character slices.
pub fn eq_ignore_ascii_chars(a: &[char], b: &[char]) -> (r: bool)
    ensures
        r == (seq_ascii_lower(a@) == seq_ascii_lower(b@)),
{
    if a.len() != b.len() {
        proof {
            assert(seq_ascii_lower(a@).len() != seq_ascii_lower(b@).len());
        }
        return false;
    }
    let mut i: usize = 0;
    while i < a.len()
        invariant
            0 <= i <= a@.len(),
            a@.len() == b@.len(),
            forall|k: int| 0 <= k < i ==> ascii_lower_char(a@[k]) == ascii_lower_char(b@[k]),
        decreases a@.len() - i,
    {
        if to_ascii_lower(a[i]) != to_ascii_lower(b[i]) {
            proof {
                assert(seq_ascii_lower(a@)[i as int] != seq_ascii_lower(b@)[i as int]);
            }
            return false;
        }
        i = i + 1;
    }
    proof {
        assert(seq_ascii_lower(a@) =~= seq_ascii_lower(b@));
    }
    true
}

/// Lexicographic order on character sequences by code point, which agrees
/// with the byte order on the UTF-8 encodings.
pub open spec fn lex_le(a: Seq<char>, b: Seq<char>) -> bool
    decreases a.len(),
{
    if a.len() == 0 {
        true
    } else if b.len() == 0 {
        false
    } else if a[0] != b[0] {
        (a[0] as u32) < (b[0] as u32)
    } else {
        lex_le(a.drop_first(), b.drop_first())
    }
}

/// If `a` and `b` agree on their first `i` characters, the order is decided
/// by the remainders.
pub proof fn lemma_lex_skip(a: Seq<char>, b: Seq<char>, i: int)
    requires
        0 <= i <= a.len(),
        i <= b.len(),
        forall|k: int| 0 <= k < i ==> a[k] == b[k],
    ensures
        lex_le(a, b) == lex_le(a.skip(i), b.skip(i)),
    decreases i,
{
    if i > 0 {
        lemma_lex_skip(a.drop_first(), b.drop_first(), i - 1);
        assert(a.drop_first().skip(i - 1) =~= a.skip(i));
        assert(b.drop_first().skip(i - 1) =~= b.skip(i));
    } else {
        assert(a.skip(0) =~= a);
        assert(b.skip(0) =~= b);
    }
}

/// The order is total.
pub proof fn lemma_lex_total(a: Seq<char>, b: Seq<char>)
    ensures
        lex_le(a, b) || lex_le(b, a),
    decreases a.len(),
{
    if a.len() > 0 && b.len() > 0 {
        if a[0] == b[0] {
            lemma_lex_total(a.drop_first(), b.drop_first());
        } else {
            vstd::utf8::char_u32_cast(a[0], a[0] as u32);
            vstd::utf8::char_u32_cast(b[0], b[0] as u32);
            assert((a[0] as u32) != (b[0] as u32));
        }
    }
}

/// Executable twin of [`lex_le`].
pub fn lex_le_chars(a: &[char], b: &[char]) -> (r: bool)
    ensures
        r == lex_le(a@, b@),
{
    let mut i: usize = 0;
    while i < a.len() && i < b.len()
        invariant
            0 <= i <= a@.len(),
            i <= b@.len(),
            forall|k: int| 0 <= k < i ==> a@[k] == b@[k],
        decreases a@.len() - i,
    {
        let ca = a[i];
        let cb = b[i];
        if ca != cb {
            proof {
                lemma_lex_skip(a@, b@, i as int);
                assert(a@.skip(i as int)[0] == ca);
                assert(b@.skip(i as int)[0] == cb);
            }
            return (ca as u32) < (cb as u32);
        }
        i = i + 1;
    }
    proof {
        lemma_lex_skip(a@, b@, i as int);
    }
    if i >= a.len() {
        proof {
            assert(a@.skip(i as int).len() == 0);
        }
        true
    } else {
        proof {
            assert(b@.skip(i as int).len() == 0);
            assert(a@.skip(i as int).len() > 0);
        }
        false
    }
}

/// Copies the range `[lo, hi)` of a character slice.
pub fn sub_chars(v: &[char], lo: usize, hi: usize) -> (r: Vec<char>)
    requires
        lo <= hi <= v@.len(),
    ensures
        r@ == v@.subrange(lo as int, hi as int),
{
    let mut r: Vec<char> = Vec::new();
    let mut i: usize = lo;
    while i < hi
        invariant
            lo <= i <= hi <= v@.len(),
            r@ == v@.subrange(lo as int, i as int),
        decreases hi - i,
    {
        r.push(v[i]);
        proof {
            assert(v@.subrange(lo as int, i as int).push(v@[i as int]) =~= v@.subrange(
                lo as int,
                i as int + 1,
            ));
        }
        i = i + 1;
    }
    r
}

/// The order is transitive.
pub proof fn lemma_lex_trans(a: Seq<char>, b: Seq<char>, c: Seq<char>)
    requires
        lex_le(a, b),
        lex_le(b, c),
    ensures
        lex_le(a, c),
    decreases a.len(),
{
    if a.len() > 0 {
        assert(b.len() > 0);
        if c.len() == 0 {
            assert(!lex_le(b, c));
        } else {
            vstd::utf8::char_u32_cast(a[0], a[0] as u32);
            vstd::utf8::char_u32_cast(b[0], b[0] as u32);
            vstd::utf8::char_u32_cast(c[0], c[0] as u32);
            if a[0] == b[0] && b[0] == c[0] {
                lemma_lex_trans(a.drop_first(), b.drop_first(), c.drop_first());
            } else if a[0] == b[0] {
                assert((b[0] as u32) < (c[0] as u32));
                assert(a[0] != c[0]);
            } else if b[0] == c[0] {
                assert((a[0] as u32) < (b[0] as u32));
                assert(a[0] != c[0]);
            } else {
                assert((a[0] as u32) < (b[0] as u32) < (c[0] as u32));
                assert(a[0] != c[0]);
            }
        }
    }
}

/// The decimal digit character for `d` in 0..10.
pub open spec fn spec_digit(d: int) -> char {
    (('0' as u32) + d) as char
}

/// Decimal rendering of a non-negative integer.
pub open spec fn spec_dec_nat(n: int) -> Seq<char>
    decreases n,
{
    if n < 10 {
        seq![spec_digit(if n < 0 {
            0
        } else {
            n
        })]
    } else {
        spec_dec_nat(n / 10) + seq![spec_digit(n % 10)]
    }
}

/// Decimal rendering of an integer, with a leading minus when negative.
pub open spec fn spec_dec_int(n: int) -> Seq<char> {
    if n < 0 {
        seq!['-'] + spec_dec_nat(-n)
    } else {
        spec_dec_nat(n)
    }
}

fn digit_char(d: u64) -> (r: char)
    requires
        d < 10,
    ensures
        r == spec_digit(d as int),
{
    let b: u8 = 48 + (d as u8);
    proof {
        assert(('0' as u32) == 48);
    }
    b as char
}

/// Renders an unsigned integer in decimal.
pub fn u64_to_dec(n: u64) -> (r: Vec<char>)
    ensures
        r@ == spec_dec_nat(n as int),
    decreases n,
{
    if n < 10 {
        let mut v: Vec<char> = Vec::new();
        v.push(digit_char(n));
        proof {
            assert(v@ =~= seq![spec_digit(n as int)]);
        }
        v
    } else {
        let mut v = u64_to_dec(n / 10);
        v.push(digit_char(n % 10));
        proof {
            assert(v@ =~= spec_dec_nat(n as int / 10) + seq![spec_digit(n as int % 10)]);
        }
        v
    }
}

/// Renders a signed integer in decimal.
pub fn i64_to_dec(n: i64) -> (r: Vec<char>)
    ensures
        r@ == spec_dec_int(n as int),
{
    if n >= 0 {
        u64_to_dec(n as u64)
    } else {
        let m: u64 = ((-(n + 1)) as u64) + 1;
        proof {
            assert(m as int == -(n as int));
        }
        let mut v: Vec<char> = Vec::new();
        v.push('-');
        let mut d = u64_to_dec(m);
        v.append(&mut d);
        proof {
            assert(v@ =~= seq!['-'] + spec_dec_nat(m as int));
        }
        v
    }
}

/// Relies on `str::chars`: the characters of a string slice are its view.
#[verifier::external_body]
pub fn chars_of(s: &str) -> (r: Vec<char>)
    ensures
        r@ == s@,
{
    s.chars().collect()
}

/// Relies on `FromIterator<char> for String`: collecting characters builds
/// the string whose view is exactly those characters.
#[verifier::external_body]
pub fn string_from_chars(v: &[char]) -> (r: String)
    ensures
        r@ == v@,
{
    v.iter().collect()
}

/// What `str::to_lowercase` returns: a function of the characters alone.
pub uninterp spec fn lower_of(s: Seq<char>) -> Seq<char>;

/// Relies on `str::to_lowercase`: the result depends on the characters
/// alone, and an empty string stays empty.
#[verifier::external_body]
pub fn lowercase(s: &str) -> (r: String)
    ensures
        r@ == lower_of(s@),
        s@.len() == 0 ==> r@.len() == 0,
{
    s.to_lowercase()
}

/// Lowercases a character slice through [`lowercase`].
pub fn lowercase_chars(v: &[char]) -> (r: Vec<char>)
    ensures
        r@ == lower_of(v@),
        v@.len() == 0 ==> r@.len() == 0,
{
    let s = string_from_chars(v);
    let l = lowercase(s.as_str());
    chars_of(l.as_str())
}

} // verus!
