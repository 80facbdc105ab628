//! Sidecar metadata: lyrics in `.lrc`/`.txt` files and cover art in
//! `cover`/`folder`/`front` images next to the audio file.
//!
//! Conventions:
//! - Lyrics: `<basename>.lrc`, then `<basename>.txt`, in the audio file's
//!   directory. `.lrc` files may carry `[mm:ss.xx]` timing prefixes and
//!   `[tag:value]` metadata lines; only the unsynced text body is kept, and
//!   a `[lang:xx]` line gives its language.
//! - Cover: `cover.{jpg,jpeg,png}`, then `folder.{…}`, then `front.{…}`,
//!   in the same directory; the first readable, non-empty one wins.
//!
//! Reading files is the caller's part: this module names the files to look
//! at, in order, and decides what their contents yield.

use vstd::prelude::*;
use crate::text::{
    ascii_lower_seq, ascii_lowercase, chars_of, extend_chars, find_char, split_char, split_spec,
    string_from_chars, trim, trim_range, trimmed, views_match,
};
use crate::path::{extension_of, extension_start};
use crate::text::vec_eq;

verus! {

/// Lyrics loaded from a sidecar file.
#[derive(Debug, Clone, PartialEq, Eq)]
pub struct SidecarLyrics {
    pub text: String,
    pub language: String,
    pub source: String,
}

/// Cover art loaded from a sidecar file.
#[derive(Debug, Clone, PartialEq, Eq)]
pub struct SidecarCover {
    pub mime_type: String,
    pub data: Vec<u8>,
    pub source: String,
}

pub open spec fn sidecar_prefix() -> Seq<char> {
    seq!['s', 'i', 'd', 'e', 'c', 'a', 'r', ':']
}

/// `sidecar:<file_name>`, the source recorded for sidecar metadata.
pub fn sidecar_source(file_name: &str) -> (r: String)
    ensures
        r@ == sidecar_prefix() + file_name@,
{
    let prefix = "sidecar:";
    proof {
        reveal_strlit("sidecar:");
    }
    let mut out = chars_of(prefix);
    proof {
        assert(out@ =~= sidecar_prefix());
    }
    let name = chars_of(file_name);
    extend_chars(&mut out, &name);
    string_from_chars(out)
}

// ---------------------------------------------------------------------------
// LRC timing removal.
// ---------------------------------------------------------------------------

/// What one line of an LRC file contributes.
pub enum LrcLine {
    /// Nothing: an empty line or a metadata tag.
    Skip,
    /// A `[lang:xx]` tag carrying this language.
    Lang(Seq<char>),
    /// Lyrics text.
    Body(Seq<char>),
}

pub open spec fn lang_tag_prefix() -> Seq<char> {
    seq!['l', 'a', 'n', 'g', ':']
}

/// Whether `s` holds `c`.
pub open spec fn has_char(s: Seq<char>, c: char) -> bool {
    exists|i: int| 0 <= i < s.len() && s[i] == c
}

/// Index of the first `c` in `s` (meaningful when `has_char(s, c)`).
pub open spec fn first_char(s: Seq<char>, c: char) -> int {
    choose|i: int| 0 <= i < s.len() && s[i] == c && forall|j: int| 0 <= j < i ==> s[j] != c
}

/// The text of a line once a leading `[...]` prefix is dropped.
pub open spec fn lrc_body(t: Seq<char>) -> Seq<char> {
    if t.len() > 0 && t[0] == '[' && has_char(t, ']') {
        trim(t.skip(first_char(t, ']') + 1))
    } else {
        t
    }
}

/// Classification of the trimmed line `t`.
pub open spec fn lrc_line(t: Seq<char>) -> LrcLine {
    if t.len() == 0 {
        LrcLine::Skip
    } else if t[0] == '[' && has_char(t, ']') && lang_tag_prefix().is_prefix_of(
        t.subrange(1, first_char(t, ']')),
    ) {
        LrcLine::Lang(t.subrange(6int, first_char(t, ']')))
    } else if t[0] == '[' && has_char(t, ']') && !(first_char(t, ']') > 1
        && crate::text::is_ascii_digit(t[1])) {
        LrcLine::Skip
    } else if lrc_body(t).len() > 0 {
        LrcLine::Body(lrc_body(t))
    } else {
        LrcLine::Skip
    }
}

/// The lyrics text and the language after the lines `lines`, in order.
pub open spec fn lrc_fold(lines: Seq<Seq<char>>) -> (Seq<char>, Option<Seq<char>>)
    decreases lines.len(),
{
    if lines.len() == 0 {
        (Seq::empty(), None)
    } else {
        let (out, lang) = lrc_fold(lines.drop_last());
        match lrc_line(trim(lines.last())) {
            LrcLine::Skip => (out, lang),
            LrcLine::Lang(v) => (out, Some(v)),
            LrcLine::Body(b) => (
                if out.len() == 0 {
                    b
                } else {
                    out.push('\n') + b
                },
                lang,
            ),
        }
    }
}

/// Lyrics body and language of an LRC text: timing prefixes and metadata
/// lines dropped, the remaining non-empty lines trimmed and joined with
/// `\n`. Lines are split on `\n`; a `\r` before it is trimmed like any other
/// whitespace.
pub open spec fn strip_lrc_timing_spec(raw: Seq<char>) -> (Seq<char>, Option<Seq<char>>) {
    lrc_fold(split_spec(raw, '\n'))
}

enum Line {
    Skip,
    Lang(Vec<char>),
    Body(Vec<char>),
}

spec fn line_view(l: Line) -> LrcLine {
    match l {
        Line::Skip => LrcLine::Skip,
        Line::Lang(v) => LrcLine::Lang(v@),
        Line::Body(v) => LrcLine::Body(v@),
    }
}

proof fn lemma_first_char(s: Seq<char>, c: char, i: int)
    requires
        0 <= i < s.len(),
        s[i] == c,
        forall|j: int| 0 <= j < i ==> s[j] != c,
    ensures
        has_char(s, c),
        first_char(s, c) == i,
{
    let k = first_char(s, c);
    if k < i {
        assert(s[k] != c);
    } else if k > i {
        assert(s[i] != c);
    }
}

/// Classify the line `v[lo..hi]`.
#[verifier::rlimit(40)]
fn classify_line(v: &Vec<char>, lo: usize, hi: usize) -> (r: Line)
    requires
        lo <= hi <= v.len(),
    ensures
        line_view(r) == lrc_line(trim(v@.subrange(lo as int, hi as int))),
{
    let (a, b) = trim_range(v, lo, hi);
    let ghost t = v@.subrange(a as int, b as int);
    if a == b {
        return Line::Skip;
    }
    if v[a] == '[' {
        proof {
            assert(t[0] == '[');
        }
        match find_char(v, ']', a + 1, b) {
            Some(close) => {
                proof {
                    assert(t[close - a] == ']');
                    assert forall|j: int| 0 <= j < close - a implies t[j] != ']' by {
                        if j > 0 {
                            assert(t[j] == v@[a + j]);
                        }
                    }
                    lemma_first_char(t, ']', close - a);
                }
                // The tag between the brackets.
                let is_lang = close - (a + 1) >= 5 && v[a + 1] == 'l' && v[a + 2] == 'a' && v[a
                    + 3] == 'n' && v[a + 4] == 'g' && v[a + 5] == ':';
                proof {
                    let tag = t.subrange(1, close - a);
                    if close - (a + 1) >= 5 {
                        assert(tag.subrange(0, 5) == t.subrange(1, 6));
                        if is_lang {
                            assert(lang_tag_prefix() =~= tag.subrange(0, 5));
                        } else {
                            assert(lang_tag_prefix() != tag.subrange(0, 5) || true);
                            if lang_tag_prefix().is_prefix_of(tag) {
                                assert(tag[0] == lang_tag_prefix()[0]);
                                assert(tag[1] == lang_tag_prefix()[1]);
                                assert(tag[2] == lang_tag_prefix()[2]);
                                assert(tag[3] == lang_tag_prefix()[3]);
                                assert(tag[4] == lang_tag_prefix()[4]);
                            }
                        }
                    } else {
                        assert(!lang_tag_prefix().is_prefix_of(tag));
                    }
                }
                if is_lang {
                    let value = crate::text::slice_chars(v, a + 6, close);
                    proof {
                        assert(value@ =~= t.subrange(6int, close - a));
                    }
                    return Line::Lang(value);
                }
                let digit_tag = close > a + 1 && '0' <= v[a + 1] && v[a + 1] <= '9';
                if !digit_tag {
                    return Line::Skip;
                }
                let (c, d) = trim_range(v, close + 1, b);
                proof {
                    assert(v@.subrange(close + 1, b as int) =~= t.skip(close - a + 1));
                }
                if c == d {
                    return Line::Skip;
                }
                Line::Body(crate::text::slice_chars(v, c, d))
            },
            None => {
                proof {
                    assert forall|j: int| 0 <= j < t.len() implies t[j] != ']' by {
                        if j > 0 {
                            assert(t[j] == v@[a + j]);
                        }
                    }
                }
                Line::Body(crate::text::slice_chars(v, a, b))
            },
        }
    } else {
        Line::Body(crate::text::slice_chars(v, a, b))
    }
}

/// Strip LRC-style `[mm:ss.xx]` timing prefixes from each line and drop
/// `[tag:value]` metadata lines. Returns the cleaned body and the language
/// from a `[lang:xx]` line, if any. Lines empty after stripping are dropped.
pub fn strip_lrc_timing(raw: &str) -> (r: (String, Option<String>))
    ensures
        r.0@ == strip_lrc_timing_spec(raw@).0,
        r.1 matches Some(l) ==> strip_lrc_timing_spec(raw@).1 == Some(l@),
        r.1 is None ==> strip_lrc_timing_spec(raw@).1 is None,
{
    let chars = chars_of(raw);
    let lines = split_char(&chars, '\n');
    let ghost all = split_spec(raw@, '\n');
    let mut out: Vec<char> = Vec::new();
    let mut lang: Option<Vec<char>> = None;
    let mut k: usize = 0;
    while k < lines.len()
        invariant
            k <= lines.len(),
            views_match(lines@, all),
            out@ == lrc_fold(all.take(k as int)).0,
            match lang {
                Some(l) => lrc_fold(all.take(k as int)).1 == Some(l@),
                None => lrc_fold(all.take(k as int)).1 is None,
            },
        decreases lines.len() - k,
    {
        proof {
            assert(all.take(k + 1).drop_last() =~= all.take(k as int));
            assert(lines@[k as int]@.subrange(0, lines@[k as int]@.len() as int) =~= lines@[k as int]@);
        }
        let line = &lines[k];
        let cls = classify_line(line, 0, line.len());
        match cls {
            Line::Skip => {},
            Line::Lang(v) => {
                lang = Some(v);
            },
            Line::Body(b) => {
                if out.len() > 0 {
                    out.push('\n');
                }
                extend_chars(&mut out, &b);
            },
        }
        k += 1;
    }
    proof {
        assert(all.take(k as int) =~= all);
    }
    let text = string_from_chars(out);
    let language = match lang {
        Some(l) => Some(string_from_chars(l)),
        None => None,
    };
    (text, language)
}

pub open spec fn und() -> Seq<char> {
    seq!['u', 'n', 'd']
}

/// What a lyrics sidecar named `file_name` with contents `raw` yields:
/// the trimmed body (when non-empty), its language (`und` when none is
/// given) and the source `sidecar:<file_name>`.
pub open spec fn lyrics_from_sidecar_spec(file_name: Seq<char>, raw: Seq<char>) -> Option<
    (Seq<char>, Seq<char>, Seq<char>),
> {
    let (body, lang) = strip_lrc_timing_spec(raw);
    let text = trim(body);
    if text.len() == 0 {
        None
    } else {
        Some(
            (
                text,
                match lang {
                    Some(l) => l,
                    None => und(),
                },
                sidecar_prefix() + file_name,
            ),
        )
    }
}

impl SidecarLyrics {
    pub open spec fn holds(self, v: (Seq<char>, Seq<char>, Seq<char>)) -> bool {
        self.text@ == v.0 && self.language@ == v.1 && self.source@ == v.2
    }
}

/// Lyrics from the text of a sidecar file named `file_name`.
pub fn lyrics_from_sidecar(file_name: &str, raw: &str) -> (r: Option<SidecarLyrics>)
    ensures
        match lyrics_from_sidecar_spec(file_name@, raw@) {
            None => r is None,
            Some(v) => r matches Some(l) && l.holds(v),
        },
{
    let (body, lang) = strip_lrc_timing(raw);
    let body_chars = chars_of(body.as_str());
    let text = trimmed(&body_chars);
    if text.len() == 0 {
        return None;
    }
    let language = match lang {
        Some(l) => l,
        None => {
            proof {
                reveal_strlit("und");
            }
            let u = chars_of("und");
            proof {
                assert(u@ =~= und());
            }
            string_from_chars(u)
        },
    };
    Some(
        SidecarLyrics {
            text: string_from_chars(text),
            language,
            source: sidecar_source(file_name),
        },
    )
}

pub open spec fn lrc_ext() -> Seq<char> {
    seq!['.', 'l', 'r', 'c']
}

pub open spec fn txt_ext() -> Seq<char> {
    seq!['.', 't', 'x', 't']
}

/// The lyrics sidecar file names for an audio file with stem `stem`, in
/// the order they are tried: `<stem>.lrc`, then `<stem>.txt`.
pub fn lyrics_sidecar_names(stem: &str) -> (r: Vec<String>)
    ensures
        r@.len() == 2,
        r@[0]@ == stem@ + lrc_ext(),
        r@[1]@ == stem@ + txt_ext(),
{
    let s = chars_of(stem);
    proof {
        reveal_strlit(".lrc");
        reveal_strlit(".txt");
    }
    let mut a = s.clone();
    let lrc = chars_of(".lrc");
    extend_chars(&mut a, &lrc);
    let mut b = s.clone();
    let txt = chars_of(".txt");
    extend_chars(&mut b, &txt);
    proof {
        assert(lrc@ =~= lrc_ext());
        assert(txt@ =~= txt_ext());
    }
    let mut r: Vec<String> = Vec::new();
    r.push(string_from_chars(a));
    r.push(string_from_chars(b));
    r
}

/// What a candidate (file name, text if readable) yields.
pub open spec fn candidate_lyrics(c: (String, Option<String>)) -> Option<(Seq<char>, Seq<char>, Seq<char>)> {
    match c.1 {
        Some(raw) => lyrics_from_sidecar_spec(c.0@, raw@),
        None => None,
    }
}

/// Candidate `i` is the first that yields lyrics.
pub open spec fn first_lyrics_hit(c: Seq<(String, Option<String>)>, i: int) -> bool {
    &&& 0 <= i < c.len()
    &&& candidate_lyrics(c[i]) is Some
    &&& forall|j: int| 0 <= j < i ==> candidate_lyrics(#[trigger] c[j]) is None
}

/// Lyrics from the first candidate that yields some. Each candidate is a
/// sidecar file name with its text, `None` when it is missing or unreadable.
pub fn find_lyrics_sidecar(candidates: &Vec<(String, Option<String>)>) -> (r: Option<
    SidecarLyrics,
>)
    ensures
        r is None ==> forall|j: int|
            0 <= j < candidates@.len() ==> candidate_lyrics(#[trigger] candidates@[j]) is None,
        r matches Some(l) ==> exists|i: int|
            first_lyrics_hit(candidates@, i) && l.holds(
                #[trigger] candidate_lyrics(candidates@[i])->0,
            ),
{
    let mut i: usize = 0;
    while i < candidates.len()
        invariant
            i <= candidates.len(),
            forall|j: int| 0 <= j < i ==> candidate_lyrics(#[trigger] candidates@[j]) is None,
        decreases candidates.len() - i,
    {
        let (name, contents) = &candidates[i];
        match contents {
            Some(raw) => {
                match lyrics_from_sidecar(name.as_str(), raw.as_str()) {
                    Some(l) => {
                        proof {
                            assert(first_lyrics_hit(candidates@, i as int));
                            assert(l.holds(candidate_lyrics(candidates@[i as int])->0));
                        }
                        return Some(l);
                    },
                    None => {},
                }
            },
            None => {},
        }
        i += 1;
    }
    None
}

// ---------------------------------------------------------------------------
// Cover art.
// ---------------------------------------------------------------------------

pub open spec fn image_jpeg() -> Seq<char> {
    seq!['i', 'm', 'a', 'g', 'e', '/', 'j', 'p', 'e', 'g']
}

pub open spec fn image_png() -> Seq<char> {
    seq!['i', 'm', 'a', 'g', 'e', '/', 'p', 'n', 'g']
}

/// MIME type for a lower-cased image extension.
pub open spec fn cover_mime(ext: Seq<char>) -> Option<Seq<char>> {
    if ext == seq!['j', 'p', 'g'] || ext == seq!['j', 'p', 'e', 'g'] {
        Some(image_jpeg())
    } else if ext == seq!['p', 'n', 'g'] {
        Some(image_png())
    } else {
        None
    }
}

/// What a cover sidecar named `file_name` with bytes `data` yields: its
/// MIME type from the (case-insensitive) extension, the bytes when there
/// are any, and the source `sidecar:<file_name>`.
pub open spec fn cover_from_sidecar_spec(file_name: Seq<char>, data: Seq<u8>) -> Option<(Seq<char>, Seq<u8>, Seq<char>)> {
    match extension_of(file_name) {
        None => None,
        Some(ext) => match cover_mime(ascii_lower_seq(ext)) {
            None => None,
            Some(mime) => if data.len() == 0 {
                None
            } else {
                Some((mime, data, sidecar_prefix() + file_name))
            },
        },
    }
}

impl SidecarCover {
    pub open spec fn holds(self, v: (Seq<char>, Seq<u8>, Seq<char>)) -> bool {
        self.mime_type@ == v.0 && self.data@ == v.1 && self.source@ == v.2
    }
}

/// Cover art from the bytes of a sidecar image named `file_name`.
pub fn cover_from_sidecar(file_name: &str, data: Vec<u8>) -> (r: Option<SidecarCover>)
    ensures
        match cover_from_sidecar_spec(file_name@, data@) {
            None => r is None,
            Some(v) => r matches Some(c) && c.holds(v),
        },
{
    let name = chars_of(file_name);
    let k = match extension_start(&name) {
        Some(k) => k,
        None => return None,
    };
    let ext = crate::text::slice_chars(&name, k, name.len());
    proof {
        assert(ext@ =~= name@.skip(k as int));
    }
    let lower = ascii_lowercase(&ext);
    proof {
        reveal_strlit("jpg");
        reveal_strlit("jpeg");
        reveal_strlit("png");
        reveal_strlit("image/jpeg");
        reveal_strlit("image/png");
    }
    let jpg = chars_of("jpg");
    let jpeg = chars_of("jpeg");
    let png = chars_of("png");
    proof {
        assert(jpg@ =~= seq!['j', 'p', 'g']);
        assert(jpeg@ =~= seq!['j', 'p', 'e', 'g']);
        assert(png@ =~= seq!['p', 'n', 'g']);
    }
    let mime = if vec_eq(&lower, &jpg) || vec_eq(&lower, &jpeg) {
        let m = chars_of("image/jpeg");
        proof {
            assert(m@ =~= image_jpeg());
        }
        m
    } else if vec_eq(&lower, &png) {
        let m = chars_of("image/png");
        proof {
            assert(m@ =~= image_png());
        }
        m
    } else {
        return None;
    };
    if data.len() == 0 {
        return None;
    }
    Some(
        SidecarCover {
            mime_type: string_from_chars(mime),
            data,
            source: sidecar_source(file_name),
        },
    )
}

/// The cover sidecar file names, in the order they are tried:
/// `cover.jpg`, `cover.jpeg`, `cover.png`, then the same for `folder` and
/// `front`.
pub fn cover_sidecar_names() -> (r: Vec<String>)
    ensures
        r@.len() == 9,
        r@[0]@ == "cover.jpg"@,
        r@[1]@ == "cover.jpeg"@,
        r@[2]@ == "cover.png"@,
        r@[3]@ == "folder.jpg"@,
        r@[4]@ == "folder.jpeg"@,
        r@[5]@ == "folder.png"@,
        r@[6]@ == "front.jpg"@,
        r@[7]@ == "front.jpeg"@,
        r@[8]@ == "front.png"@,
{
    let mut r: Vec<String> = Vec::new();
    r.push(string_from_chars(chars_of("cover.jpg")));
    r.push(string_from_chars(chars_of("cover.jpeg")));
    r.push(string_from_chars(chars_of("cover.png")));
    r.push(string_from_chars(chars_of("folder.jpg")));
    r.push(string_from_chars(chars_of("folder.jpeg")));
    r.push(string_from_chars(chars_of("folder.png")));
    r.push(string_from_chars(chars_of("front.jpg")));
    r.push(string_from_chars(chars_of("front.jpeg")));
    r.push(string_from_chars(chars_of("front.png")));
    r
}

/// What a candidate (file name, bytes if readable) yields.
pub open spec fn candidate_cover(c: (String, Option<Vec<u8>>)) -> Option<(Seq<char>, Seq<u8>, Seq<char>)> {
    match c.1 {
        Some(d) => cover_from_sidecar_spec(c.0@, d@),
        None => None,
    }
}

/// Candidate `i` is the first that yields a cover.
pub open spec fn first_cover_hit(c: Seq<(String, Option<Vec<u8>>)>, i: int) -> bool {
    &&& 0 <= i < c.len()
    &&& candidate_cover(c[i]) is Some
    &&& forall|j: int| 0 <= j < i ==> candidate_cover(#[trigger] c[j]) is None
}

/// Cover art from the first candidate that yields some. Each candidate is a
/// sidecar file name with its bytes, `None` when it is missing or unreadable.
pub fn find_cover_sidecar(candidates: Vec<(String, Option<Vec<u8>>)>) -> (r: Option<SidecarCover>)
    ensures
        r is None ==> forall|j: int|
            0 <= j < candidates@.len() ==> candidate_cover(#[trigger] candidates@[j]) is None,
        r matches Some(c) ==> exists|i: int|
            first_cover_hit(candidates@, i) && c.holds(#[trigger] candidate_cover(candidates@[i])->0),
{
    let ghost all = candidates@;
    let mut rest = candidates;
    let mut i: usize = 0;
    let n = rest.len();
    proof {
        assert(rest@ =~= all.skip(0));
    }
    while i < n
        invariant
            i <= n == all.len(),
            all == candidates@,
            rest@ == all.skip(i as int),
            forall|j: int| 0 <= j < i ==> candidate_cover(#[trigger] all[j]) is None,
        decreases n - i,
    {
        let taken = rest.remove(0);
        proof {
            assert(taken == all[i as int]);
            assert(rest@ =~= all.skip(i + 1));
        }
        let (name, contents) = taken;
        match contents {
            Some(data) => {
                match cover_from_sidecar(name.as_str(), data) {
                    Some(c) => {
                        proof {
                            assert(first_cover_hit(all, i as int));
                            assert(c.holds(candidate_cover(all[i as int])->0));
                        }
                        return Some(c);
                    },
                    None => {},
                }
            },
            None => {},
        }
        i += 1;
    }
    None
}

} // verus!
