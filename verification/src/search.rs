//! Live-search query shaping: the last word of a query becomes a prefix
//! query so results appear while the user is still typing, and very short
//! plain tokens fall back to a substring scan.

use vstd::prelude::*;
use crate::text::{
    char_utf8_width, chars_of, extend_chars, find_char, is_alphanumeric, is_ws, is_whitespace,
    string_from_chars, trim, trimmed, unicode_alphanumeric, utf8_len, utf8_width,
};

verus! {

/// Number of `"` characters in `s`.
pub open spec fn quote_count(s: Seq<char>) -> nat
    decreases s.len(),
{
    if s.len() == 0 {
        0
    } else {
        quote_count(s.drop_last()) + if s.last() == '"' {
            1nat
        } else {
            0nat
        }
    }
}

/// An odd number of `"` in the query: the user is inside a phrase.
pub open spec fn in_open_phrase(q: Seq<char>) -> bool {
    quote_count(q) % 2 == 1
}

/// Whether `s` has a whitespace character.
pub open spec fn has_ws(s: Seq<char>) -> bool {
    exists|i: int| 0 <= i < s.len() && is_ws(s[i])
}

/// Index of the last whitespace character of `s` (meaningful when
/// `has_ws(s)`).
pub open spec fn last_ws_index(s: Seq<char>) -> int {
    choose|i: int| 0 <= i < s.len() && is_ws(s[i]) && forall|j: int| i < j < s.len() ==> !is_ws(s[j])
}

/// Where the last whitespace-separated token of `q` starts.
pub open spec fn last_token_start(q: Seq<char>) -> int {
    if has_ws(q) {
        last_ws_index(q) + 1
    } else {
        0
    }
}

/// The last token looks like a structured query fragment (negation, phrase,
/// prefix query or field operator) or holds no letter or digit.
pub open spec fn token_left_alone(tok: Seq<char>) -> bool {
    ||| tok.len() == 0
    ||| tok[0] == '-'
    ||| tok[0] == '"'
    ||| tok.last() == '*'
    ||| tok.last() == '"'
    ||| tok.contains(':')
    ||| !(exists|i: int| 0 <= i < tok.len() && unicode_alphanumeric(tok[i]))
}

/// The rewritten query: `q` followed by `*` when its last token is an
/// unfinished plain word, `q` unchanged otherwise.
pub open spec fn rewrite_as_prefix_spec(q: Seq<char>) -> Seq<char> {
    if q.len() == 0 || in_open_phrase(q) || token_left_alone(q.skip(last_token_start(q))) {
        q
    } else {
        q.push('*')
    }
}

/// The rewrite slices the query right after its last whitespace character,
/// counting that character as one byte: a multi-byte last whitespace (such as
/// U+3000) makes the slice fall inside a character.
pub open spec fn rewrite_as_prefix_defined(q: Seq<char>) -> bool {
    q.len() > 0 && !in_open_phrase(q) && has_ws(q) ==> (q[last_ws_index(q)] as u32) < 0x80
}

proof fn lemma_quote_count_step(s: Seq<char>, i: int)
    requires
        0 <= i < s.len(),
    ensures
        quote_count(s.take(i + 1)) == quote_count(s.take(i)) + if s[i] == '"' {
            1nat
        } else {
            0nat
        },
{
    assert(s.take(i + 1).drop_last() =~= s.take(i));
}

/// Whether `q` holds an odd number of `"`.
fn open_phrase(q: &Vec<char>) -> (r: bool)
    ensures
        r == in_open_phrase(q@),
{
    let ghost s = q@;
    let mut in_phrase = false;
    let mut i: usize = 0;
    while i < q.len()
        invariant
            i <= q.len(),
            s == q@,
            in_phrase == (quote_count(s.take(i as int)) % 2 == 1),
        decreases q.len() - i,
    {
        proof {
            lemma_quote_count_step(s, i as int);
        }
        if q[i] == '"' {
            in_phrase = !in_phrase;
        }
        i += 1;
    }
    proof {
        assert(s.take(i as int) =~= s);
    }
    in_phrase
}

/// Turn `que` into `que*` so live search feels responsive. Multi-token
/// queries only get the rewrite on the last word; phrases, negations, field
/// operators, prefix queries and punctuation are passed through unchanged.
pub fn rewrite_as_prefix(query: &str) -> (r: String)
    requires
        rewrite_as_prefix_defined(query@),
    ensures
        r@ == rewrite_as_prefix_spec(query@),
{
    let q = chars_of(query);
    let ghost s = q@;
    if q.len() == 0 {
        return string_from_chars(q);
    }
    // Inside an open phrase the last word is left alone.
    if open_phrase(&q) {
        return string_from_chars(q);
    }
    // Find the last whitespace-separated token.
    let mut j = q.len();
    while j > 0 && !is_whitespace(q[j - 1])
        invariant
            j <= q.len(),
            s == q@,
            forall|k: int| j <= k < s.len() ==> !is_ws(s[k]),
        decreases j,
    {
        j -= 1;
    }
    proof {
        if j > 0 {
            assert(has_ws(s));
            let w = last_ws_index(s);
            assert(0 <= w < s.len() && is_ws(s[w]));
            assert(w == j - 1);
        } else {
            assert(!has_ws(s));
        }
        assert(last_token_start(s) == j);
    }
    let last_start = j;
    let ghost tok = s.skip(j as int);
    if last_start == q.len() {
        return string_from_chars(q);
    }
    let first = q[last_start];
    let last = q[q.len() - 1];
    proof {
        assert(tok[0] == first);
        assert(tok.last() == last);
    }
    if first == '-' || first == '"' || last == '*' || last == '"' {
        return string_from_chars(q);
    }
    match find_char(&q, ':', last_start, q.len()) {
        Some(k) => {
            proof {
                assert(tok[k - j] == ':');
            }
            return string_from_chars(q);
        },
        None => {
            proof {
                assert(!tok.contains(':'));
            }
        },
    }
    // Skip if the token is just punctuation.
    let mut k = last_start;
    while k < q.len() && !is_alphanumeric(q[k])
        invariant
            last_start <= k <= q.len(),
            s == q@,
            tok == s.skip(last_start as int),
            forall|t: int| last_start <= t < k ==> !unicode_alphanumeric(s[t]),
        decreases q.len() - k,
    {
        k += 1;
    }
    if k < q.len() {
        proof {
            assert(unicode_alphanumeric(tok[k - last_start]));
        }
    }
    if k == q.len() {
        proof {
            assert forall|t: int| 0 <= t < tok.len() implies !unicode_alphanumeric(tok[t]) by {
                assert(tok[t] == s[t + last_start]);
            }
        }
        return string_from_chars(q);
    }
    let mut out = q;
    out.push('*');
    string_from_chars(out)
}

/// True when `query`, trimmed, is a single short token: at most two bytes,
/// all letters or digits. Full-text search skips one-character tokens, so
/// such queries fall back to a substring scan.
pub open spec fn is_short_simple_token_spec(q: Seq<char>) -> bool {
    let t = trim(q);
    t.len() > 0 && utf8_len(t) <= 2 && forall|i: int| 0 <= i < t.len() ==> unicode_alphanumeric(t[i])
}

proof fn lemma_utf8_len_ge_len(s: Seq<char>)
    ensures
        utf8_len(s) >= s.len(),
    decreases s.len(),
{
    if s.len() > 0 {
        lemma_utf8_len_ge_len(s.drop_last());
    }
}

pub fn is_short_simple_token(query: &str) -> (r: bool)
    ensures
        r == is_short_simple_token_spec(query@),
{
    let q = chars_of(query);
    let t = trimmed(&q);
    let ghost ts = t@;
    if t.len() == 0 {
        return false;
    }
    if t.len() > 2 {
        proof {
            lemma_utf8_len_ge_len(ts);
        }
        return false;
    }
    let mut bytes: usize = 0;
    let mut i: usize = 0;
    while i < t.len()
        invariant
            i <= t.len() <= 2,
            ts == t@,
            bytes == utf8_len(ts.take(i as int)),
            bytes <= 4 * i,
        decreases t.len() - i,
    {
        proof {
            assert(ts.take(i + 1).drop_last() =~= ts.take(i as int));
        }
        bytes = bytes + char_utf8_width(t[i]);
        i += 1;
    }
    proof {
        assert(ts.take(i as int) =~= ts);
    }
    if bytes > 2 {
        return false;
    }
    let mut k: usize = 0;
    while k < t.len()
        invariant
            k <= t.len(),
            ts == t@,
            ts == trim(query@),
            forall|j: int| 0 <= j < k ==> unicode_alphanumeric(ts[j]),
        decreases t.len() - k,
    {
        if !is_alphanumeric(t[k]) {
            proof {
                assert(!unicode_alphanumeric(ts[k as int]));
                assert(ts == trim(query@));
                assert(!(forall|j: int| 0 <= j < ts.len() ==> unicode_alphanumeric(ts[j])));
            }
            return false;
        }
        k += 1;
    }
    true
}

/// The `LIKE` pattern matching any text that contains `query`.
pub fn like_contains_pattern(query: &str) -> (r: String)
    ensures
        r@ == seq!['%'] + query@ + seq!['%'],
{
    let q = chars_of(query);
    let mut out: Vec<char> = Vec::new();
    out.push('%');
    extend_chars(&mut out, &q);
    out.push('%');
    string_from_chars(out)
}

proof fn lemma_last_ws_exists(s: Seq<char>)
    requires
        has_ws(s),
    ensures
        exists|i: int|
            0 <= i < s.len() && is_ws(s[i]) && forall|j: int| i < j < s.len() ==> !is_ws(s[j]),
    decreases s.len(),
{
    let n = s.len() as int;
    if is_ws(s[n - 1]) {
        assert(0 <= n - 1 < s.len() && is_ws(s[n - 1]) && forall|j: int| n - 1 < j < s.len() ==> !is_ws(s[j]));
    } else {
        let t = s.drop_last();
        let w = choose|i: int| 0 <= i < s.len() && is_ws(s[i]);
        assert(w < n - 1);
        assert(t[w] == s[w]);
        assert(has_ws(t));
        lemma_last_ws_exists(t);
        let i = choose|i: int|
            0 <= i < t.len() && is_ws(t[i]) && forall|j: int| i < j < t.len() ==> !is_ws(t[j]);
        assert(t[i] == s[i]);
        assert forall|j: int| i < j < s.len() implies !is_ws(s[j]) by {
            if j < n - 1 {
                assert(t[j] == s[j]);
            }
        }
    }
}

/// Rewriting a query that was already rewritten changes nothing: the `*`
/// it gained ends its last token, which is then left alone.
pub proof fn law_rewrite_idempotent(q: Seq<char>)
    ensures
        rewrite_as_prefix_spec(rewrite_as_prefix_spec(q)) == rewrite_as_prefix_spec(q),
{
    let r = rewrite_as_prefix_spec(q);
    if r != q {
        assert(r == q.push('*'));
        assert(r.drop_last() =~= q);
        assert(!is_ws('*'));
        let n = r.len() as int;
        assert(r[n - 1] == '*');
        if has_ws(r) {
            lemma_last_ws_exists(r);
            let w = last_ws_index(r);
            assert(0 <= w < r.len() && is_ws(r[w]));
            assert(w < n - 1);
        }
        let start = last_token_start(r);
        assert(0 <= start < n);
        let tok = r.skip(start);
        assert(tok.last() == '*');
        assert(token_left_alone(tok));
    }
}

/// The `"` characters of `s`, counted by filtering.
pub open spec fn quotes_in(s: Seq<char>) -> nat {
    s.filter(|c: char| c == '"').len()
}

proof fn lemma_quote_count_is_filter(s: Seq<char>)
    ensures
        quote_count(s) == quotes_in(s),
    decreases s.len(),
{
    if s.len() > 0 {
        lemma_quote_count_is_filter(s.drop_last());
        s.drop_last().lemma_filter_push(s.last(), |c: char| c == '"');
        assert(s.drop_last().push(s.last()) =~= s);
    } else {
        reveal_with_fuel(Seq::<char>::filter, 1);
    }
}

/// Where the last token starts when `q` is `p` then `tok`, `p` empty or
/// ending in whitespace and `tok` free of it.
proof fn lemma_last_token_of(p: Seq<char>, tok: Seq<char>)
    requires
        p.len() == 0 || is_ws(p.last()),
        forall|i: int| 0 <= i < tok.len() ==> !is_ws(#[trigger] tok[i]),
    ensures
        last_token_start(p + tok) == p.len(),
        (p + tok).skip(p.len() as int) == tok,
{
    let q = p + tok;
    let n = p.len() as int;
    assert(q.skip(n) =~= tok);
    if p.len() == 0 {
        assert forall|i: int| 0 <= i < q.len() implies !is_ws(q[i]) by {
            assert(q[i] == tok[i]);
        }
        assert(!has_ws(q));
    } else {
        assert(q[n - 1] == p.last());
        assert(has_ws(q));
        assert forall|j: int| n - 1 < j < q.len() implies !is_ws(q[j]) by {
            assert(q[j] == tok[j - n]);
        }
        lemma_last_ws_exists(q);
        let w = last_ws_index(q);
        if w < n - 1 {
            assert(is_ws(q[n - 1]));
        }
        assert(w == n - 1);
    }
}

/// The last word of a query becomes a prefix query whenever it can be one:
/// when the query holds an even number of `"` and its last
/// whitespace-separated token is non-empty, does not start with `-` or `"`,
/// does not end with `*` or `"`, holds no `:` and holds at least one letter
/// or digit, the query gains a `*` (`don't` gives `don't*`, `ac/dc` gives
/// `ac/dc*`). Punctuation inside the word does not matter.
pub proof fn law_rewrite_completes_last_word(p: Seq<char>, tok: Seq<char>)
    requires
        p.len() == 0 || is_ws(p.last()),
        tok.len() > 0,
        forall|i: int| 0 <= i < tok.len() ==> !is_ws(#[trigger] tok[i]),
        tok[0] != '-' && tok[0] != '"',
        tok.last() != '*' && tok.last() != '"',
        forall|i: int| 0 <= i < tok.len() ==> #[trigger] tok[i] != ':',
        exists|i: int| 0 <= i < tok.len() && unicode_alphanumeric(#[trigger] tok[i]),
        quotes_in(p + tok) % 2 == 0,
    ensures
        rewrite_as_prefix_spec(p + tok) == (p + tok).push('*'),
{
    lemma_last_token_of(p, tok);
    lemma_quote_count_is_filter(p + tok);
    assert(!tok.contains(':'));
}

/// A last token with no letter or digit at all is left alone, and so is
/// every query inside an open phrase (an odd number of `"`); in every case
/// the result is the query, possibly followed by one `*`.
pub proof fn law_rewrite_leaves_punctuation_and_phrases(p: Seq<char>, tok: Seq<char>, q: Seq<char>)
    requires
        p.len() == 0 || is_ws(p.last()),
        forall|i: int| 0 <= i < tok.len() ==> !is_ws(#[trigger] tok[i]),
        forall|i: int| 0 <= i < tok.len() ==> !unicode_alphanumeric(#[trigger] tok[i]),
    ensures
        rewrite_as_prefix_spec(p + tok) == p + tok,
        quotes_in(q) % 2 == 1 ==> rewrite_as_prefix_spec(q) == q,
        rewrite_as_prefix_spec(q) == q || rewrite_as_prefix_spec(q) == q.push('*'),
{
    lemma_last_token_of(p, tok);
    lemma_quote_count_is_filter(q);
}

/// Whether the rewrite is defined on `query` (see
/// [`rewrite_as_prefix_defined`]); the rewrite panics where it is not.
pub fn rewrite_defined(query: &str) -> (r: bool)
    ensures
        r == rewrite_as_prefix_defined(query@),
{
    let q = chars_of(query);
    let ghost s = q@;
    if q.len() == 0 {
        return true;
    }
    if open_phrase(&q) {
        return true;
    }
    let mut j = q.len();
    while j > 0 && !is_whitespace(q[j - 1])
        invariant
            j <= q.len(),
            s == q@,
            forall|k: int| j <= k < s.len() ==> !is_ws(s[k]),
        decreases j,
    {
        j -= 1;
    }
    if j == 0 {
        proof {
            assert(!has_ws(s));
        }
        return true;
    }
    proof {
        assert(has_ws(s));
        let w = last_ws_index(s);
        assert(0 <= w < s.len() && is_ws(s[w]));
        assert(w == j - 1);
    }
    (q[j - 1] as u32) < 0x80
}

/// The `LIKE` pattern of the substring fallback, when full-text search
/// found nothing and the (rewritten) query is a single short token;
/// otherwise `None`.
pub fn like_fallback(fts_found_nothing: bool, rewritten: &str) -> (r: Option<String>)
    ensures
        (fts_found_nothing && is_short_simple_token_spec(rewritten@)) <==> r is Some,
        r matches Some(p) ==> p@ == seq!['%'] + rewritten@ + seq!['%'],
{
    if fts_found_nothing && is_short_simple_token(rewritten) {
        Some(like_contains_pattern(rewritten))
    } else {
        None
    }
}

} // verus!
