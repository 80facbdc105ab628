//! Artist sort names.

use vstd::prelude::*;
use crate::folders::starts_with;
use crate::text::{chars_of, is_ascii_alpha, is_ws, string_from_chars, trim, trim_end, trim_start, trimmed};

verus! {

/// The lower-case form of a string, as `str::to_lowercase` computes it
/// (full Unicode case mapping).
pub uninterp spec fn unicode_lowercase(s: Seq<char>) -> Seq<char>;

/// `str::to_lowercase`; the contract only names the result.
#[verifier::external_body]
fn to_lowercase(s: &str) -> (r: String)
    ensures
        r@ == unicode_lowercase(s@),
{
    s.to_lowercase()
}

/// `s` without a leading `the ` or else `a ` (already lower case).
pub open spec fn without_article(s: Seq<char>) -> Seq<char> {
    if starts_with(s, "the "@) {
        s.skip(4)
    } else if starts_with(s, "a "@) {
        s.skip(2)
    } else {
        s
    }
}

/// `upper` or `lower` by the parity of `u`: blocks of Latin letters alternate
/// capital and small forms.
pub open spec fn by_case(u: u32, upper: char, lower: char, upper_even: bool) -> Option<char> {
    if (u % 2 == 0) == upper_even {
        Some(upper)
    } else {
        Some(lower)
    }
}

/// The ASCII letter that a letter of the Latin Extended-A block (U+0100 to
/// U+017F) decomposes to once its diacritics are dropped (canonical
/// decomposition); `None` for the letters that have no such decomposition
/// (`Đ`, `Ħ`, `ı`, `Ł`, `Œ`, ...).
pub open spec fn extended_a_base(u: u32) -> Option<char> {
    if 0x100 <= u <= 0x105 {
        by_case(u, 'A', 'a', true)
    } else if 0x106 <= u <= 0x10D {
        by_case(u, 'C', 'c', true)
    } else if 0x10E <= u <= 0x10F {
        by_case(u, 'D', 'd', true)
    } else if 0x112 <= u <= 0x11B {
        by_case(u, 'E', 'e', true)
    } else if 0x11C <= u <= 0x123 {
        by_case(u, 'G', 'g', true)
    } else if 0x124 <= u <= 0x125 {
        by_case(u, 'H', 'h', true)
    } else if 0x128 <= u <= 0x12F {
        by_case(u, 'I', 'i', true)
    } else if u == 0x130 {
        Some('I')
    } else if 0x134 <= u <= 0x135 {
        by_case(u, 'J', 'j', true)
    } else if 0x136 <= u <= 0x137 {
        by_case(u, 'K', 'k', true)
    } else if 0x139 <= u <= 0x13E {
        by_case(u, 'L', 'l', false)
    } else if 0x143 <= u <= 0x148 {
        by_case(u, 'N', 'n', false)
    } else if 0x14C <= u <= 0x151 {
        by_case(u, 'O', 'o', true)
    } else if 0x154 <= u <= 0x159 {
        by_case(u, 'R', 'r', true)
    } else if 0x15A <= u <= 0x161 {
        by_case(u, 'S', 's', true)
    } else if 0x162 <= u <= 0x165 {
        by_case(u, 'T', 't', true)
    } else if 0x168 <= u <= 0x173 {
        by_case(u, 'U', 'u', true)
    } else if 0x174 <= u <= 0x175 {
        by_case(u, 'W', 'w', true)
    } else if 0x176 <= u <= 0x177 {
        by_case(u, 'Y', 'y', true)
    } else if u == 0x178 {
        Some('Y')
    } else if 0x179 <= u <= 0x17E {
        by_case(u, 'Z', 'z', false)
    } else {
        None
    }
}

/// The ASCII letter that a Latin letter with diacritics decomposes to once
/// they are dropped (canonical decomposition): `ö` gives `o`, `Å` gives
/// `A`. Covers the Latin-1 Supplement and Latin Extended-A blocks; `None`
/// for every other character and for letters without such a decomposition
/// (`Æ`, `Ø`, `ß`, ...).
pub open spec fn latin_base(c: char) -> Option<char> {
    let u = c as u32;
    if 0xC0 <= u <= 0xC5 {
        Some('A')
    } else if u == 0xC7 {
        Some('C')
    } else if 0xC8 <= u <= 0xCB {
        Some('E')
    } else if 0xCC <= u <= 0xCF {
        Some('I')
    } else if u == 0xD1 {
        Some('N')
    } else if 0xD2 <= u <= 0xD6 {
        Some('O')
    } else if 0xD9 <= u <= 0xDC {
        Some('U')
    } else if u == 0xDD {
        Some('Y')
    } else if 0xE0 <= u <= 0xE5 {
        Some('a')
    } else if u == 0xE7 {
        Some('c')
    } else if 0xE8 <= u <= 0xEB {
        Some('e')
    } else if 0xEC <= u <= 0xEF {
        Some('i')
    } else if u == 0xF1 {
        Some('n')
    } else if 0xF2 <= u <= 0xF6 {
        Some('o')
    } else if 0xF9 <= u <= 0xFC {
        Some('u')
    } else if u == 0xFD || u == 0xFF {
        Some('y')
    } else if 0x100 <= u <= 0x17F {
        extended_a_base(u)
    } else {
        None
    }
}

/// What a character contributes to a sort key: an ASCII letter itself, a
/// Latin letter with diacritics its ASCII base letter, anything else a space.
pub open spec fn sort_char(c: char) -> char {
    if is_ascii_alpha(c) {
        c
    } else {
        match latin_base(c) {
            Some(b) => b,
            None => ' ',
        }
    }
}

/// Every character replaced by what it contributes to a sort key.
pub open spec fn folded_letters(s: Seq<char>) -> Seq<char> {
    s.map_values(|c: char| sort_char(c))
}

fn by_case_of(u: u32, upper: char, lower: char, upper_even: bool) -> (r: char)
    ensures
        by_case(u, upper, lower, upper_even) == Some(r),
{
    if (u % 2 == 0) == upper_even {
        upper
    } else {
        lower
    }
}

fn extended_a_base_of(u: u32) -> (r: Option<char>)
    ensures
        r == extended_a_base(u),
{
    if 0x100 <= u && u <= 0x105 {
        Some(by_case_of(u, 'A', 'a', true))
    } else if 0x106 <= u && u <= 0x10D {
        Some(by_case_of(u, 'C', 'c', true))
    } else if 0x10E <= u && u <= 0x10F {
        Some(by_case_of(u, 'D', 'd', true))
    } else if 0x112 <= u && u <= 0x11B {
        Some(by_case_of(u, 'E', 'e', true))
    } else if 0x11C <= u && u <= 0x123 {
        Some(by_case_of(u, 'G', 'g', true))
    } else if 0x124 <= u && u <= 0x125 {
        Some(by_case_of(u, 'H', 'h', true))
    } else if 0x128 <= u && u <= 0x12F {
        Some(by_case_of(u, 'I', 'i', true))
    } else if u == 0x130 {
        Some('I')
    } else if 0x134 <= u && u <= 0x135 {
        Some(by_case_of(u, 'J', 'j', true))
    } else if 0x136 <= u && u <= 0x137 {
        Some(by_case_of(u, 'K', 'k', true))
    } else if 0x139 <= u && u <= 0x13E {
        Some(by_case_of(u, 'L', 'l', false))
    } else if 0x143 <= u && u <= 0x148 {
        Some(by_case_of(u, 'N', 'n', false))
    } else if 0x14C <= u && u <= 0x151 {
        Some(by_case_of(u, 'O', 'o', true))
    } else if 0x154 <= u && u <= 0x159 {
        Some(by_case_of(u, 'R', 'r', true))
    } else if 0x15A <= u && u <= 0x161 {
        Some(by_case_of(u, 'S', 's', true))
    } else if 0x162 <= u && u <= 0x165 {
        Some(by_case_of(u, 'T', 't', true))
    } else if 0x168 <= u && u <= 0x173 {
        Some(by_case_of(u, 'U', 'u', true))
    } else if 0x174 <= u && u <= 0x175 {
        Some(by_case_of(u, 'W', 'w', true))
    } else if 0x176 <= u && u <= 0x177 {
        Some(by_case_of(u, 'Y', 'y', true))
    } else if u == 0x178 {
        Some('Y')
    } else if 0x179 <= u && u <= 0x17E {
        Some(by_case_of(u, 'Z', 'z', false))
    } else {
        None
    }
}

/// The sort-key character of `c` (see [`sort_char`]).
pub fn sort_char_of(c: char) -> (r: char)
    ensures
        r == sort_char(c),
{
    if ('a' <= c && c <= 'z') || ('A' <= c && c <= 'Z') {
        return c;
    }
    let u = c as u32;
    let base = if 0xC0 <= u && u <= 0xC5 {
        Some('A')
    } else if u == 0xC7 {
        Some('C')
    } else if 0xC8 <= u && u <= 0xCB {
        Some('E')
    } else if 0xCC <= u && u <= 0xCF {
        Some('I')
    } else if u == 0xD1 {
        Some('N')
    } else if 0xD2 <= u && u <= 0xD6 {
        Some('O')
    } else if 0xD9 <= u && u <= 0xDC {
        Some('U')
    } else if u == 0xDD {
        Some('Y')
    } else if 0xE0 <= u && u <= 0xE5 {
        Some('a')
    } else if u == 0xE7 {
        Some('c')
    } else if 0xE8 <= u && u <= 0xEB {
        Some('e')
    } else if 0xEC <= u && u <= 0xEF {
        Some('i')
    } else if u == 0xF1 {
        Some('n')
    } else if 0xF2 <= u && u <= 0xF6 {
        Some('o')
    } else if 0xF9 <= u && u <= 0xFC {
        Some('u')
    } else if u == 0xFD || u == 0xFF {
        Some('y')
    } else if 0x100 <= u && u <= 0x17F {
        extended_a_base_of(u)
    } else {
        None
    };
    match base {
        Some(b) => b,
        None => ' ',
    }
}

/// The sort key of an artist name: lower-cased, without a leading article,
/// diacritics folded away, everything but letters blanked out and the ends
/// trimmed.
pub open spec fn sort_name_spec(name: Seq<char>) -> Seq<char> {
    sort_key(unicode_lowercase(name))
}

/// The sort key of a name that is already lower case.
pub open spec fn sort_key(lower: Seq<char>) -> Seq<char> {
    trim(folded_letters(without_article(lower)))
}

fn skip_article(v: &Vec<char>) -> (r: usize)
    ensures
        r <= v@.len(),
        without_article(v@) == v@.skip(r as int),
{
    let the = chars_of("the ");
    let a = chars_of("a ");
    proof {
        reveal_strlit("the ");
        reveal_strlit("a ");
    }
    if crate::folders::starts_with_chars(v, &the) {
        4
    } else if crate::folders::starts_with_chars(v, &a) {
        2
    } else {
        proof {
            assert(v@.skip(0) =~= v@);
        }
        0
    }
}

/// The sort key of a name that is already lower case: a leading `the ` or
/// `a ` removed, diacritics folded to the base ASCII letter, every other
/// character that is not an ASCII letter blanked, then trimmed.
pub fn sort_key_of_lowercase(lower: &str) -> (r: String)
    ensures
        r@ == sort_key(lower@),
        r@ == trim(folded_letters(without_article(lower@))),
{
    let lower = chars_of(lower);
    let start = skip_article(&lower);
    let mut mapped: Vec<char> = Vec::new();
    let mut i: usize = start;
    while i < lower.len()
        invariant
            start <= i <= lower.len(),
            mapped@ == folded_letters(lower@.subrange(start as int, i as int)),
        decreases lower.len() - i,
    {
        let c = lower[i];
        proof {
            assert(lower@.subrange(start as int, i + 1) =~= lower@.subrange(start as int, i as int).push(c));
        }
        mapped.push(sort_char_of(c));
        proof {
            assert(mapped@ =~= folded_letters(lower@.subrange(start as int, i + 1)));
        }
        i += 1;
    }
    proof {
        assert(lower@.subrange(start as int, lower@.len() as int) =~= lower@.skip(start as int));
    }
    string_from_chars(trimmed(&mapped))
}

/// Sort key of an artist name: lower-cased, a leading `the ` or `a `
/// removed, diacritics folded (`Björk` sorts as `bjork`), every other
/// non-letter blanked, then trimmed.
pub fn sort_name(name: &str) -> (r: String)
    ensures
        r@ == sort_name_spec(name@),
{
    let lower = to_lowercase(name);
    sort_key_of_lowercase(lower.as_str())
}

/// Text made of ASCII letters and single inner spaces, which starts with a
/// letter, ends with a letter, and does not open with an article.
pub open spec fn plain_words(s: Seq<char>) -> bool {
    &&& s.len() > 0
    &&& is_ascii_alpha(s[0])
    &&& is_ascii_alpha(s.last())
    &&& forall|i: int| 0 <= i < s.len() ==> is_ascii_alpha(#[trigger] s[i]) || s[i] == ' '
}

proof fn lemma_no_article_prefix(s: Seq<char>)
    requires
        !(s.len() >= 4 && s.take(4) == seq!['t', 'h', 'e', ' ']),
        !(s.len() >= 2 && s.take(2) == seq!['a', ' ']),
    ensures
        without_article(s) == s,
{
    reveal_strlit("the ");
    reveal_strlit("a ");
    assert("the "@ =~= seq!['t', 'h', 'e', ' ']);
    assert("a "@ =~= seq!['a', ' ']);
}

proof fn lemma_trim_keeps(s: Seq<char>)
    requires
        s.len() > 0,
        !is_ws(s[0]),
        !is_ws(s.last()),
    ensures
        trim(s) == s,
{
    assert(trim_start(s) == s);
}

/// A lower-case name without a leading article keeps every letter: a name of
/// plain words sorts under itself (`thelonious monk` stays whole; only
/// `the ` or `a `, with the space, counts as an article).
pub proof fn law_plain_names_keep_every_letter(s: Seq<char>)
    requires
        plain_words(s),
        !(s.len() >= 4 && s.take(4) == seq!['t', 'h', 'e', ' ']),
        !(s.len() >= 2 && s.take(2) == seq!['a', ' ']),
    ensures
        sort_key(s) == s,
{
    lemma_no_article_prefix(s);
    let f = folded_letters(s);
    assert forall|i: int| 0 <= i < s.len() implies f[i] == s[i] by {
        if !is_ascii_alpha(s[i]) {
            assert(s[i] == ' ');
            assert((' ' as u32) == 0x20);
        }
    }
    assert(f =~= s);
    lemma_trim_keeps(s);
}

/// A name made of ASCII letters only sorts under itself: no letter is ever
/// taken for an article.
pub proof fn law_single_words_keep_every_letter(s: Seq<char>)
    requires
        s.len() > 0,
        forall|i: int| 0 <= i < s.len() ==> is_ascii_alpha(#[trigger] s[i]),
    ensures
        sort_key(s) == s,
{
    if s.len() >= 4 {
        assert(s.take(4)[3] == s[3]);
    }
    if s.len() >= 2 {
        assert(s.take(2)[1] == s[1]);
    }
    law_plain_names_keep_every_letter(s);
}

/// A leading `the ` or `a ` (with its space) does not change where a name
/// sorts, when the rest does not open with an article itself.
pub proof fn law_article_is_ignored(s: Seq<char>)
    requires
        !(s.len() >= 4 && s.take(4) == seq!['t', 'h', 'e', ' ']),
        !(s.len() >= 2 && s.take(2) == seq!['a', ' ']),
    ensures
        sort_key(seq!['t', 'h', 'e', ' '] + s) == sort_key(s),
        sort_key(seq!['a', ' '] + s) == sort_key(s),
{
    lemma_no_article_prefix(s);
    reveal_strlit("the ");
    reveal_strlit("a ");
    let t = seq!['t', 'h', 'e', ' '] + s;
    let a = seq!['a', ' '] + s;
    assert(t.take(4) =~= "the "@);
    assert(t.skip(4) =~= s);
    assert(a.take(2) =~= "a "@);
    assert(a.skip(2) =~= s);
    assert(!(a.len() >= 4 && a.take(4) == "the "@)) by {
        if a.len() >= 4 && a.take(4) == "the "@ {
            assert(a.take(4)[0] == a[0]);
        }
    }
}

/// A sort key holds only ASCII letters and spaces, and neither starts nor
/// ends with a space.
pub proof fn law_sort_key_is_plain_letters(lower: Seq<char>)
    ensures
        forall|i: int| 0 <= i < sort_key(lower).len() ==> is_ascii_alpha(#[trigger] sort_key(lower)[i])
            || sort_key(lower)[i] == ' ',
        sort_key(lower).len() > 0 ==> sort_key(lower)[0] != ' ' && sort_key(lower).last() != ' ',
{
    let f = folded_letters(without_article(lower));
    assert forall|i: int| 0 <= i < f.len() implies is_ascii_alpha(#[trigger] f[i]) || f[i] == ' ' by {
        let c = without_article(lower)[i];
        lemma_latin_base_is_letter(c);
    }
    let (lo, hi) = crate::text::lemma_trim_bounds(f);
    let k = sort_key(lower);
    assert(k == f.subrange(lo, hi));
    assert forall|i: int| 0 <= i < k.len() implies is_ascii_alpha(#[trigger] k[i]) || k[i] == ' ' by {
        assert(k[i] == f[lo + i]);
    }
    assert((' ' as u32) == 0x20);
}

proof fn lemma_latin_base_is_letter(c: char)
    ensures
        latin_base(c) matches Some(b) ==> is_ascii_alpha(b),
{
}

} // verus!
