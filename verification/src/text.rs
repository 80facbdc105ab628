//! Character-level helpers shared by the text parsers: Unicode whitespace,
//! trimming, ASCII case folding, decimal parsing and substring search, each
//! stated over `Seq<char>`.

use vstd::prelude::*;

verus! {

// ---------------------------------------------------------------------------
// Conversions between `str`/`String` and `Vec<char>`.
// ---------------------------------------------------------------------------

/// The characters of `s`, in order.
pub fn chars_of(s: &str) -> (v: Vec<char>)
    ensures
        v@ == s@,
{
    let mut v: Vec<char> = Vec::new();
    for c in it: s.chars()
        invariant
            v@ == it.seq().take(it.index() as int),
    {
        v.push(c);
    }
    v
}

/// `String::from_iter` over characters: the contract claims the string holds
/// exactly the characters of `v`, in order.
#[verifier::external_body]
pub(crate) fn string_from_chars(v: Vec<char>) -> (s: String)
    ensures
        s@ == v@,
{
    String::from_iter(v)
}

/// Copies `v[lo..hi]` into a new vector.
pub fn slice_chars(v: &Vec<char>, lo: usize, hi: usize) -> (r: Vec<char>)
    requires
        lo <= hi <= v.len(),
    ensures
        r@ == v@.subrange(lo as int, hi as int),
{
    let mut r: Vec<char> = Vec::new();
    let mut i = lo;
    while i < hi
        invariant
            lo <= i <= hi <= v.len(),
            r@ == v@.subrange(lo as int, i as int),
        decreases hi - i,
    {
        r.push(v[i]);
        i += 1;
    }
    r
}

/// The string made of `v[lo..hi]`.
pub fn string_of_range(v: &Vec<char>, lo: usize, hi: usize) -> (s: String)
    requires
        lo <= hi <= v.len(),
    ensures
        s@ == v@.subrange(lo as int, hi as int),
{
    string_from_chars(slice_chars(v, lo, hi))
}

/// Whether `a` and `b` hold the same characters.
pub fn vec_eq(a: &Vec<char>, b: &Vec<char>) -> (r: bool)
    ensures
        r == (a@ == b@),
{
    if a.len() != b.len() {
        return false;
    }
    let mut i: usize = 0;
    while i < a.len()
        invariant
            i <= a.len() == b.len(),
            forall|k: int| 0 <= k < i ==> a@[k] == b@[k],
        decreases a.len() - i,
    {
        if a[i] != b[i] {
            return false;
        }
        i += 1;
    }
    proof {
        assert(a@ =~= b@);
    }
    true
}

/// Whether `v` spells `lit`.
pub fn eq_str(v: &Vec<char>, lit: &str) -> (r: bool)
    ensures
        r == (v@ == lit@),
{
    let w = chars_of(lit);
    vec_eq(v, &w)
}

/// Appends all of `src` to `dst`.
pub fn extend_chars(dst: &mut Vec<char>, src: &Vec<char>)
    ensures
        final(dst)@ == old(dst)@ + src@,
{
    let mut i: usize = 0;
    while i < src.len()
        invariant
            i <= src.len(),
            dst@ == old(dst)@ + src@.take(i as int),
        decreases src.len() - i,
    {
        dst.push(src[i]);
        i += 1;
    }
}

// ---------------------------------------------------------------------------
// Whitespace and trimming.
// ---------------------------------------------------------------------------

/// Unicode `White_Space`: the characters for which `char::is_whitespace`
/// holds.
pub open spec fn is_ws(c: char) -> bool {
    let u = c as u32;
    ||| 0x09 <= u <= 0x0D
    ||| u == 0x20
    ||| u == 0x85
    ||| u == 0xA0
    ||| u == 0x1680
    ||| 0x2000 <= u <= 0x200A
    ||| u == 0x2028
    ||| u == 0x2029
    ||| u == 0x202F
    ||| u == 0x205F
    ||| u == 0x3000
}

pub fn is_whitespace(c: char) -> (r: bool)
    ensures
        r == is_ws(c),
{
    let u = c as u32;
    (0x09 <= u && u <= 0x0D) || u == 0x20 || u == 0x85 || u == 0xA0 || u == 0x1680 || (0x2000
        <= u && u <= 0x200A) || u == 0x2028 || u == 0x2029 || u == 0x202F || u == 0x205F || u
        == 0x3000
}

/// `s` without its leading whitespace.
pub open spec fn trim_start(s: Seq<char>) -> Seq<char>
    decreases s.len(),
{
    if s.len() > 0 && is_ws(s[0]) {
        trim_start(s.drop_first())
    } else {
        s
    }
}

/// `s` without its trailing whitespace.
pub open spec fn trim_end(s: Seq<char>) -> Seq<char>
    decreases s.len(),
{
    if s.len() > 0 && is_ws(s.last()) {
        trim_end(s.drop_last())
    } else {
        s
    }
}

/// `s` without leading and trailing whitespace (`str::trim`).
pub open spec fn trim(s: Seq<char>) -> Seq<char> {
    trim_end(trim_start(s))
}

proof fn lemma_trim_start_step(s: Seq<char>, i: int)
    requires
        0 <= i < s.len(),
        is_ws(s[i]),
    ensures
        trim_start(s.skip(i)) == trim_start(s.skip(i + 1)),
{
    assert(s.skip(i).drop_first() =~= s.skip(i + 1));
}

proof fn lemma_trim_end_step(s: Seq<char>, lo: int, j: int)
    requires
        0 <= lo < j <= s.len(),
        is_ws(s[j - 1]),
    ensures
        trim_end(s.subrange(lo, j)) == trim_end(s.subrange(lo, j - 1)),
{
    assert(s.subrange(lo, j).drop_last() =~= s.subrange(lo, j - 1));
}

/// Every character of `s` is whitespace.
pub open spec fn all_ws(s: Seq<char>) -> bool {
    forall|i: int| 0 <= i < s.len() ==> is_ws(#[trigger] s[i])
}

/// Leading whitespace does not survive `trim_start`.
pub proof fn lemma_trim_start_skips_ws(w: Seq<char>, rest: Seq<char>)
    requires
        all_ws(w),
    ensures
        trim_start(w + rest) == trim_start(rest),
    decreases w.len(),
{
    if w.len() > 0 {
        assert((w + rest).drop_first() =~= w.drop_first() + rest);
        lemma_trim_start_skips_ws(w.drop_first(), rest);
    } else {
        assert(w + rest =~= rest);
    }
}

/// Trailing whitespace does not survive `trim_end`.
pub proof fn lemma_trim_end_skips_ws(rest: Seq<char>, w: Seq<char>)
    requires
        all_ws(w),
    ensures
        trim_end(rest + w) == trim_end(rest),
    decreases w.len(),
{
    if w.len() > 0 {
        assert((rest + w).drop_last() =~= rest + w.drop_last());
        assert((rest + w).last() == w.last());
        lemma_trim_end_skips_ws(rest, w.drop_last());
    } else {
        assert(rest + w =~= rest);
    }
}

proof fn lemma_trim_start_suffix(s: Seq<char>) -> (k: int)
    ensures
        0 <= k <= s.len(),
        trim_start(s) == s.skip(k),
        k < s.len() ==> !is_ws(s[k]),
    decreases s.len(),
{
    if s.len() > 0 && is_ws(s[0]) {
        let k = lemma_trim_start_suffix(s.drop_first());
        assert(s.drop_first().skip(k) =~= s.skip(k + 1));
        if k < s.drop_first().len() {
            assert(s.drop_first()[k] == s[k + 1]);
        }
        k + 1
    } else {
        assert(s.skip(0) =~= s);
        0
    }
}

proof fn lemma_trim_end_prefix(s: Seq<char>) -> (m: int)
    ensures
        0 <= m <= s.len(),
        trim_end(s) == s.take(m),
        m > 0 ==> !is_ws(s[m - 1]),
    decreases s.len(),
{
    if s.len() > 0 && is_ws(s.last()) {
        let m = lemma_trim_end_prefix(s.drop_last());
        assert(s.drop_last().take(m) =~= s.take(m));
        m
    } else {
        assert(s.take(s.len() as int) =~= s);
        s.len() as int
    }
}

/// `trim(f)` is a stretch of `f` that neither starts nor ends with
/// whitespace.
pub proof fn lemma_trim_bounds(f: Seq<char>) -> (r: (int, int))
    ensures
        0 <= r.0 <= r.1 <= f.len(),
        trim(f) == f.subrange(r.0, r.1),
        trim(f).len() > 0 ==> !is_ws(trim(f)[0]) && !is_ws(trim(f).last()),
{
    let k = lemma_trim_start_suffix(f);
    let g = f.skip(k);
    let m = lemma_trim_end_prefix(g);
    assert(g.take(m) =~= f.subrange(k, k + m));
    if m > 0 {
        assert(g[0] == f[k]);
    }
    (k, k + m)
}

/// Text that neither starts nor ends with whitespace, surrounded by
/// whitespace, trims to itself.
pub proof fn lemma_trim_surrounded(w1: Seq<char>, d: Seq<char>, w2: Seq<char>)
    requires
        all_ws(w1),
        all_ws(w2),
        d.len() > 0,
        !is_ws(d[0]),
        !is_ws(d.last()),
    ensures
        trim(w1 + d + w2) == d,
{
    assert(w1 + d + w2 =~= w1 + (d + w2));
    lemma_trim_start_skips_ws(w1, d + w2);
    assert((d + w2)[0] == d[0]);
    lemma_trim_end_skips_ws(d, w2);
}

/// Bounds of `trim(v[lo..hi])` inside `v`.
pub fn trim_range(v: &Vec<char>, lo: usize, hi: usize) -> (r: (usize, usize))
    requires
        lo <= hi <= v.len(),
    ensures
        lo <= r.0 <= r.1 <= hi,
        v@.subrange(r.0 as int, r.1 as int) == trim(v@.subrange(lo as int, hi as int)),
        r.0 < r.1 ==> !is_ws(v@[r.0 as int]) && !is_ws(v@[r.1 - 1]),
{
    let ghost s = v@.subrange(lo as int, hi as int);
    let mut a = lo;
    proof {
        assert(s.skip(0) =~= s);
    }
    while a < hi && is_whitespace(v[a])
        invariant
            lo <= a <= hi <= v.len(),
            s == v@.subrange(lo as int, hi as int),
            trim_start(s) == trim_start(s.skip(a - lo)),
        decreases hi - a,
    {
        proof {
            lemma_trim_start_step(s, a - lo);
        }
        a += 1;
    }
    proof {
        assert(s.skip(a - lo) =~= v@.subrange(a as int, hi as int));
        if a == hi {
            assert(s.skip(a - lo).len() == 0);
        }
    }
    let mut b = hi;
    while b > a && is_whitespace(v[b - 1])
        invariant
            lo <= a <= b <= hi <= v.len(),
            trim(s) == trim_end(v@.subrange(a as int, b as int)),
            a < hi ==> !is_ws(v@[a as int]),
        decreases b - a,
    {
        proof {
            lemma_trim_end_step(v@, a as int, b as int);
        }
        b -= 1;
    }
    (a, b)
}

/// `trim(v)` as a new vector.
pub fn trimmed(v: &Vec<char>) -> (r: Vec<char>)
    ensures
        r@ == trim(v@),
{
    let (a, b) = trim_range(v, 0, v.len());
    proof {
        assert(v@.subrange(0, v@.len() as int) =~= v@);
    }
    slice_chars(v, a, b)
}

// ---------------------------------------------------------------------------
// ASCII classes and case folding.
// ---------------------------------------------------------------------------

pub open spec fn is_ascii_digit(c: char) -> bool {
    '0' <= c <= '9'
}

pub open spec fn is_ascii_upper(c: char) -> bool {
    'A' <= c <= 'Z'
}

pub open spec fn is_ascii_lower(c: char) -> bool {
    'a' <= c <= 'z'
}

pub open spec fn is_ascii_alpha(c: char) -> bool {
    is_ascii_upper(c) || is_ascii_lower(c)
}

pub open spec fn is_ascii_alnum(c: char) -> bool {
    is_ascii_alpha(c) || is_ascii_digit(c)
}

/// `char::to_ascii_lowercase`.
pub open spec fn ascii_lower(c: char) -> char {
    if is_ascii_upper(c) {
        ((c as u32) + 32) as char
    } else {
        c
    }
}

pub open spec fn ascii_lower_seq(s: Seq<char>) -> Seq<char> {
    s.map_values(|c: char| ascii_lower(c))
}

pub fn to_ascii_lower(c: char) -> (r: char)
    ensures
        r == ascii_lower(c),
{
    if 'A' <= c && c <= 'Z' {
        let u = (c as u32) + 32;
        proof {
            assert(0x61 <= u <= 0x7A);
        }
        char_from_ascii(u)
    } else {
        c
    }
}

/// The character with code `u` (an ASCII code point).
fn char_from_ascii(u: u32) -> (c: char)
    requires
        u < 128,
    ensures
        c == u as char,
{
    (u as u8) as char
}

/// `v` with every ASCII upper-case letter folded to lower case.
pub fn ascii_lowercase(v: &Vec<char>) -> (r: Vec<char>)
    ensures
        r@ == ascii_lower_seq(v@),
{
    let mut r: Vec<char> = Vec::new();
    let mut i: usize = 0;
    while i < v.len()
        invariant
            i <= v.len(),
            r@ == ascii_lower_seq(v@.take(i as int)),
        decreases v.len() - i,
    {
        r.push(to_ascii_lower(v[i]));
        proof {
            assert(ascii_lower_seq(v@.take(i + 1)) =~= ascii_lower_seq(v@.take(i as int)).push(
                ascii_lower(v@[i as int]),
            ));
        }
        i += 1;
    }
    proof {
        assert(v@.take(v@.len() as int) =~= v@);
    }
    r
}

// ---------------------------------------------------------------------------
// Decimal parsing.
// ---------------------------------------------------------------------------

pub open spec fn all_ascii_digits(s: Seq<char>) -> bool {
    forall|i: int| 0 <= i < s.len() ==> is_ascii_digit(#[trigger] s[i])
}

pub open spec fn digit_value(c: char) -> int {
    (c as u32) - ('0' as u32)
}

/// The number written by the decimal digits `s` (most significant first).
pub open spec fn digits_value(s: Seq<char>) -> nat
    decreases s.len(),
{
    if s.len() == 0 {
        0
    } else {
        (digits_value(s.drop_last()) * 10 + digit_value(s.last())) as nat
    }
}

/// The text after an optional leading `+`.
pub open spec fn unsigned_body(s: Seq<char>) -> Seq<char> {
    if s.len() > 0 && s[0] == '+' {
        s.drop_first()
    } else {
        s
    }
}

/// `str::parse::<u32>`: an optional `+`, then one or more ASCII digits whose
/// value fits in a `u32`.
pub open spec fn parse_u32_spec(s: Seq<char>) -> Option<u32> {
    let body = unsigned_body(s);
    if body.len() > 0 && all_ascii_digits(body) && digits_value(body) <= u32::MAX {
        Some(digits_value(body) as u32)
    } else {
        None
    }
}

/// `str::parse::<i64>`: an optional `+` or `-`, then one or more ASCII
/// digits whose signed value fits in an `i64`.
pub open spec fn parse_i64_spec(s: Seq<char>) -> Option<i64> {
    if s.len() > 0 && s[0] == '-' {
        let body = s.drop_first();
        if body.len() > 0 && all_ascii_digits(body) && digits_value(body) <= 0x8000_0000_0000_0000 {
            Some((0 - digits_value(body)) as i64)
        } else {
            None
        }
    } else {
        let body = unsigned_body(s);
        if body.len() > 0 && all_ascii_digits(body) && digits_value(body) <= i64::MAX {
            Some(digits_value(body) as i64)
        } else {
            None
        }
    }
}

proof fn lemma_digits_value_mono(s: Seq<char>, i: int, j: int)
    requires
        0 <= i <= j <= s.len(),
        all_ascii_digits(s),
    ensures
        digits_value(s.take(i)) <= digits_value(s.take(j)),
    decreases j - i,
{
    if i < j {
        lemma_digits_value_mono(s, i, j - 1);
        assert(s.take(j).drop_last() =~= s.take(j - 1));
    }
}

/// Value of the digits `v[lo..hi]`, or `None` when a character is not an
/// ASCII digit or the value exceeds `limit`.
fn digits_in_range(v: &Vec<char>, lo: usize, hi: usize, limit: u64) -> (r: Option<u64>)
    requires
        lo <= hi <= v.len(),
    ensures
        ({
            let s = v@.subrange(lo as int, hi as int);
            match r {
                Some(x) => all_ascii_digits(s) && x == digits_value(s) && x <= limit,
                None => !all_ascii_digits(s) || digits_value(s) > limit,
            }
        }),
{
    let ghost s = v@.subrange(lo as int, hi as int);
    let mut acc: u64 = 0;
    let mut i = lo;
    while i < hi
        invariant
            lo <= i <= hi <= v.len(),
            s == v@.subrange(lo as int, hi as int),
            all_ascii_digits(s.take(i - lo)),
            acc == digits_value(s.take(i - lo)),
            acc <= limit,
        decreases hi - i,
    {
        let c = v[i];
        if !('0' <= c && c <= '9') {
            proof {
                assert(s[i - lo] == c);
            }
            return None;
        }
        let d = (c as u32 - '0' as u32) as u64;
        proof {
            assert(s.take(i - lo + 1).drop_last() =~= s.take(i - lo));
            assert(s.take(i - lo + 1).last() == c);
            assert(all_ascii_digits(s.take(i - lo + 1)));
        }
        if d > limit || acc > (limit - d) / 10 {
            proof {
                if d <= limit {
                    assert(acc * 10 + d > limit) by (nonlinear_arith)
                        requires
                            acc > (limit - d) / 10,
                            d <= limit,
                    ;
                }
                // Later digits only make the value larger.
                if all_ascii_digits(s) {
                    lemma_digits_value_mono(s, i - lo + 1, s.len() as int);
                    assert(s.take(s.len() as int) =~= s);
                }
            }
            return None;
        }
        proof {
            assert(acc * 10 + d <= limit) by (nonlinear_arith)
                requires
                    acc <= (limit - d) / 10,
                    d <= limit,
            ;
        }
        acc = acc * 10 + d;
        i += 1;
    }
    proof {
        assert(s.take(hi - lo) =~= s);
    }
    Some(acc)
}

/// `v[lo..hi]` parsed as a `u32` (`str::parse::<u32>`).
pub fn parse_u32_range(v: &Vec<char>, lo: usize, hi: usize) -> (r: Option<u32>)
    requires
        lo <= hi <= v.len(),
    ensures
        r == parse_u32_spec(v@.subrange(lo as int, hi as int)),
{
    let ghost s = v@.subrange(lo as int, hi as int);
    let mut start = lo;
    if lo < hi && v[lo] == '+' {
        start = lo + 1;
    }
    proof {
        assert(unsigned_body(s) =~= v@.subrange(start as int, hi as int));
    }
    if start == hi {
        return None;
    }
    match digits_in_range(v, start, hi, 0xFFFF_FFFF) {
        Some(x) => Some(x as u32),
        None => None,
    }
}

/// `s` parsed as a `u32` (`str::parse::<u32>`).
pub fn parse_u32(v: &Vec<char>) -> (r: Option<u32>)
    ensures
        r == parse_u32_spec(v@),
{
    proof {
        assert(v@.subrange(0, v@.len() as int) =~= v@);
    }
    parse_u32_range(v, 0, v.len())
}

/// `v[lo..hi]` parsed as an `i64` (`str::parse::<i64>`).
pub fn parse_i64_range(v: &Vec<char>, lo: usize, hi: usize) -> (r: Option<i64>)
    requires
        lo <= hi <= v.len(),
    ensures
        r == parse_i64_spec(v@.subrange(lo as int, hi as int)),
{
    let ghost s = v@.subrange(lo as int, hi as int);
    if lo < hi && v[lo] == '-' {
        proof {
            assert(s.drop_first() =~= v@.subrange(lo + 1, hi as int));
        }
        if lo + 1 == hi {
            return None;
        }
        match digits_in_range(v, lo + 1, hi, 0x8000_0000_0000_0000) {
            Some(x) => {
                if x == 0x8000_0000_0000_0000 {
                    Some(i64::MIN)
                } else {
                    Some(0 - (x as i64))
                }
            },
            None => None,
        }
    } else {
        let mut start = lo;
        if lo < hi && v[lo] == '+' {
            start = lo + 1;
        }
        proof {
            assert(unsigned_body(s) =~= v@.subrange(start as int, hi as int));
        }
        if start == hi {
            return None;
        }
        match digits_in_range(v, start, hi, 0x7FFF_FFFF_FFFF_FFFF) {
            Some(x) => Some(x as i64),
            None => None,
        }
    }
}

// ---------------------------------------------------------------------------
// Prefixes and substring search.
// ---------------------------------------------------------------------------

/// `pat` occurs in `s` at position `i`.
pub open spec fn occurs_at(s: Seq<char>, pat: Seq<char>, i: int) -> bool {
    0 <= i && i + pat.len() <= s.len() && s.subrange(i, i + pat.len()) == pat
}

/// Position of the first occurrence of `pat` in `s` (`str::find`).
#[verifier::opaque]
pub open spec fn first_occurrence(s: Seq<char>, pat: Seq<char>) -> Option<int> {
    if exists|i: int| occurs_at(s, pat, i) {
        Some(choose|i: int| occurs_at(s, pat, i) && forall|j: int| 0 <= j < i ==> !occurs_at(s, pat, j))
    } else {
        None
    }
}

/// Whether `v[i..]` starts with `pat`.
pub fn matches_at(v: &Vec<char>, pat: &Vec<char>, i: usize) -> (r: bool)
    requires
        i <= v.len(),
    ensures
        r == occurs_at(v@, pat@, i as int),
{
    if pat.len() > v.len() - i {
        return false;
    }
    let mut k: usize = 0;
    while k < pat.len()
        invariant
            k <= pat.len(),
            i + pat.len() <= v.len(),
            forall|t: int| 0 <= t < k ==> v@[i + t] == pat@[t],
        decreases pat.len() - k,
    {
        if v[i + k] != pat[k] {
            proof {
                assert(v@.subrange(i as int, i + pat.len())[k as int] != pat@[k as int]);
            }
            return false;
        }
        k += 1;
    }
    proof {
        assert(v@.subrange(i as int, i + pat.len()) =~= pat@);
    }
    true
}

/// First position at or after `from` where `pat` occurs in `v`.
pub fn find_from(v: &Vec<char>, pat: &Vec<char>, from: usize) -> (r: Option<usize>)
    requires
        from <= v.len(),
    ensures
        match r {
            Some(i) => from <= i && occurs_at(v@, pat@, i as int) && forall|j: int|
                from <= j < i ==> !occurs_at(v@, pat@, j),
            None => forall|j: int| from <= j ==> !occurs_at(v@, pat@, j),
        },
{
    let mut i = from;
    while i < v.len()
        invariant
            from <= i <= v.len(),
            forall|j: int| from <= j < i ==> !occurs_at(v@, pat@, j),
        decreases v.len() - i,
    {
        if matches_at(v, pat, i) {
            return Some(i);
        }
        i += 1;
    }
    if matches_at(v, pat, i) {
        return Some(i);
    }
    proof {
        assert forall|j: int| from <= j implies !occurs_at(v@, pat@, j) by {
            if j > v.len() {
                assert(j + pat@.len() > v@.len());
            }
        }
    }
    None
}

/// `str::find` for a string pattern.
pub fn find(v: &Vec<char>, pat: &Vec<char>) -> (r: Option<usize>)
    ensures
        r matches Some(i) ==> occurs_at(v@, pat@, i as int),
        r matches Some(i) ==> first_occurrence(v@, pat@) == Some(i as int),
        r is None ==> first_occurrence(v@, pat@) is None,
{
    let r = find_from(v, pat, 0);
    proof {
        reveal(first_occurrence);
        match r {
            Some(i) => {
                let k = choose|k: int| occurs_at(v@, pat@, k) && forall|j: int| 0 <= j < k ==> !occurs_at(v@, pat@, j);
                assert(occurs_at(v@, pat@, i as int));
                if k < i {
                    assert(!occurs_at(v@, pat@, k));
                } else if k > i {
                    assert(!occurs_at(v@, pat@, i as int));
                }
            },
            None => {},
        }
    }
    r
}

/// First index `>= from` and `< hi` holding `c`.
pub fn find_char(v: &Vec<char>, c: char, from: usize, hi: usize) -> (r: Option<usize>)
    requires
        from <= hi <= v.len(),
    ensures
        match r {
            Some(i) => from <= i < hi && v@[i as int] == c && forall|j: int|
                from <= j < i ==> v@[j] != c,
            None => forall|j: int| from <= j < hi ==> v@[j] != c,
        },
{
    let mut i = from;
    while i < hi
        invariant
            from <= i <= hi <= v.len(),
            forall|j: int| from <= j < i ==> v@[j] != c,
        decreases hi - i,
    {
        if v[i] == c {
            return Some(i);
        }
        i += 1;
    }
    None
}

} // verus!

verus! {

// ---------------------------------------------------------------------------
// Unicode classes that only the standard library's tables decide.
// ---------------------------------------------------------------------------

/// Whether `c` is Unicode alphabetic or numeric (`char::is_alphanumeric`).
pub uninterp spec fn unicode_alphanumeric(c: char) -> bool;

/// `char::is_alphanumeric`: true for characters with the Unicode
/// `Alphabetic` or `Numeric` property. Stated here: the result is the named
/// property, and on ASCII it is exactly `[A-Za-z0-9]`, as the standard
/// library documents.
#[verifier::external_body]
pub(crate) fn is_alphanumeric(c: char) -> (r: bool)
    ensures
        r == unicode_alphanumeric(c),
        (c as u32) < 128 ==> (r <==> is_ascii_alnum(c)),
{
    c.is_alphanumeric()
}

/// Number of bytes `c` takes in UTF-8.
pub open spec fn utf8_width(c: char) -> nat {
    let u = c as u32;
    if u < 0x80 {
        1
    } else if u < 0x800 {
        2
    } else if u < 0x10000 {
        3
    } else {
        4
    }
}

/// Number of bytes `s` takes in UTF-8 (`str::len`).
pub open spec fn utf8_len(s: Seq<char>) -> nat
    decreases s.len(),
{
    if s.len() == 0 {
        0
    } else {
        utf8_len(s.drop_last()) + utf8_width(s.last())
    }
}

pub fn char_utf8_width(c: char) -> (r: usize)
    ensures
        r == utf8_width(c),
{
    let u = c as u32;
    if u < 0x80 {
        1
    } else if u < 0x800 {
        2
    } else if u < 0x10000 {
        3
    } else {
        4
    }
}

} // verus!

verus! {

// ---------------------------------------------------------------------------
// Splitting on a separator character.
// ---------------------------------------------------------------------------

/// Splitting `s` on `sep`, scanned left to right: the pieces already closed by
/// a separator, and the piece still open.
pub open spec fn split_state(s: Seq<char>, sep: char) -> (Seq<Seq<char>>, Seq<char>)
    decreases s.len(),
{
    if s.len() == 0 {
        (Seq::empty(), Seq::empty())
    } else {
        let (done, cur) = split_state(s.drop_last(), sep);
        if s.last() == sep {
            (done.push(cur), Seq::empty())
        } else {
            (done, cur.push(s.last()))
        }
    }
}

/// Text without the separator only extends the piece still open.
pub proof fn lemma_split_state_extends(a: Seq<char>, n: Seq<char>, sep: char)
    requires
        forall|i: int| 0 <= i < n.len() ==> n[i] != sep,
    ensures
        split_state(a + n, sep) == (split_state(a, sep).0, split_state(a, sep).1 + n),
    decreases n.len(),
{
    if n.len() == 0 {
        assert(a + n =~= a);
        assert(split_state(a, sep).1 + n =~= split_state(a, sep).1);
    } else {
        let m = n.drop_last();
        lemma_split_state_extends(a, m, sep);
        assert((a + n).drop_last() =~= a + m);
        assert((a + n).last() == n.last());
        assert(split_state(a, sep).1 + m.push(n.last()) =~= (split_state(a, sep).1 + m).push(
            n.last(),
        ));
        assert(m.push(n.last()) =~= n);
    }
}

/// The pieces of `prefix` followed by `n`, where `prefix` is empty or ends
/// with the separator and `n` holds none: `n` is the last piece.
pub proof fn lemma_split_last_piece(prefix: Seq<char>, n: Seq<char>, sep: char)
    requires
        prefix.len() == 0 || prefix.last() == sep,
        forall|i: int| 0 <= i < n.len() ==> n[i] != sep,
    ensures
        split_spec(prefix + n, sep) == split_spec(prefix, sep).drop_last().push(n),
{
    lemma_split_state_extends(prefix, n, sep);
    if prefix.len() == 0 {
        assert(split_state(prefix, sep).1 =~= Seq::<char>::empty());
    } else {
        assert(prefix.drop_last().push(sep) =~= prefix);
        assert(split_state(prefix, sep).1 =~= Seq::<char>::empty());
    }
    assert(split_state(prefix, sep).1 + n =~= n);
    assert(split_spec(prefix, sep).drop_last() =~= split_state(prefix, sep).0);
}

/// The pieces of `s` between occurrences of `sep` (`str::split`).
pub open spec fn split_spec(s: Seq<char>, sep: char) -> Seq<Seq<char>> {
    split_state(s, sep).0.push(split_state(s, sep).1)
}

/// A separator at the end closes the open piece and opens an empty one.
pub proof fn lemma_split_trailing_sep(x: Seq<char>, sep: char)
    ensures
        split_spec(x.push(sep), sep).drop_last() == split_spec(x, sep),
{
    assert(x.push(sep).drop_last() =~= x);
    assert(split_spec(x.push(sep), sep).drop_last() =~= split_spec(x, sep));
}

pub open spec fn views_match(v: Seq<Vec<char>>, s: Seq<Seq<char>>) -> bool {
    v.len() == s.len() && forall|i: int| 0 <= i < v.len() ==> #[trigger] v[i]@ == s[i]
}

/// `str::split` on a single character.
pub fn split_char(v: &Vec<char>, sep: char) -> (r: Vec<Vec<char>>)
    ensures
        views_match(r@, split_spec(v@, sep)),
{
    let mut done: Vec<Vec<char>> = Vec::new();
    let mut cur: Vec<char> = Vec::new();
    let mut i: usize = 0;
    while i < v.len()
        invariant
            i <= v.len(),
            views_match(done@, split_state(v@.take(i as int), sep).0),
            cur@ == split_state(v@.take(i as int), sep).1,
        decreases v.len() - i,
    {
        proof {
            assert(v@.take(i + 1).drop_last() =~= v@.take(i as int));
        }
        if v[i] == sep {
            let piece = cur;
            done.push(piece);
            cur = Vec::new();
        } else {
            cur.push(v[i]);
        }
        i += 1;
    }
    proof {
        assert(v@.take(i as int) =~= v@);
    }
    done.push(cur);
    done
}

} // verus!
