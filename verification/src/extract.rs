//! Interpreting embedded tag values: track/disc numbers, years, artists,
//! and the merge with filename heuristics.
//!
//! Reading the tag block of a file is the caller's part; it hands over the
//! text of each tag item it found (see [`TagValues`]).

use vstd::prelude::*;
use crate::heuristic::HeuristicTags;
use crate::text::{
    all_ascii_digits, all_ws, chars_of, digits_value, find_char, is_ascii_digit, is_ws,
    lemma_trim_surrounded, parse_u32_range, parse_u32_spec, string_of_range, trim, trim_range,
};
use crate::fmt::{decimal, lemma_decimal_reads_back};

verus! {

/// Errors while extracting tags.
#[derive(Debug, Clone, PartialEq, Eq)]
pub enum ExtractError {
    /// The tag reader could not handle the file.
    Lofty(String),
    /// The file could not be read.
    Io(String),
}

/// The text of each tag item of interest, as found in a file's primary tag.
#[derive(Debug, Clone, Default, PartialEq, Eq)]
pub struct TagValues {
    pub title: Option<String>,
    pub artist: Option<String>,
    pub album: Option<String>,
    pub album_artist: Option<String>,
    pub track_number: Option<String>,
    pub disc_number: Option<String>,
    /// Full recording date, e.g. `2024-03-15`, or a bare year.
    pub recording_date: Option<String>,
    /// Four-digit year (`TYER`-style).
    pub year: Option<String>,
    pub genre: Option<String>,
    pub composer: Option<String>,
    pub lyrics: Option<String>,
}

/// Tags used for browsing and searching. ReplayGain values are floating
/// point and are carried beside these by the caller.
#[derive(Debug, Clone, PartialEq, Eq)]
pub struct Tags {
    pub title: Option<String>,
    pub artist: Option<String>,
    pub album: Option<String>,
    pub album_artist: Option<String>,
    pub track_no: Option<u32>,
    pub disc_no: Option<u32>,
    pub year: Option<u32>,
    pub genre: Option<String>,
    pub composer: Option<String>,
    pub lyrics: Option<String>,
}

impl Default for Tags {
    fn default() -> (r: Self)
        ensures
            r.title is None && r.artist is None && r.album is None && r.album_artist is None,
            r.track_no is None && r.disc_no is None && r.year is None,
            r.genre is None && r.composer is None && r.lyrics is None,
    {
        Tags {
            title: None,
            artist: None,
            album: None,
            album_artist: None,
            track_no: None,
            disc_no: None,
            year: None,
            genre: None,
            composer: None,
            lyrics: None,
        }
    }
}

// ---------------------------------------------------------------------------
// Years.
// ---------------------------------------------------------------------------

/// The ASCII digits at the start of `s`.
pub open spec fn leading_digits(s: Seq<char>) -> Seq<char>
    decreases s.len(),
{
    if s.len() > 0 && is_ascii_digit(s[0]) {
        seq![s[0]] + leading_digits(s.drop_first())
    } else {
        Seq::empty()
    }
}

/// The first run of ASCII digits in `s`.
pub open spec fn first_digit_run(s: Seq<char>) -> Seq<char>
    decreases s.len(),
{
    if s.len() == 0 {
        Seq::empty()
    } else if is_ascii_digit(s[0]) {
        leading_digits(s)
    } else {
        first_digit_run(s.drop_first())
    }
}

/// The year in a date text: the first four digits of its first run of
/// digits, when that run has at least four. Handles `2024`, `2024-03-15`,
/// `2024/03/15` and `20240315`.
pub open spec fn parse_year_spec(s: Seq<char>) -> Option<u32> {
    let run = first_digit_run(s);
    if run.len() >= 4 {
        Some(digits_value(run.take(4)) as u32)
    } else {
        None
    }
}

proof fn lemma_leading_digits(s: Seq<char>, i: int, k: int)
    requires
        0 <= i <= k <= s.len(),
        forall|j: int| i <= j < k ==> is_ascii_digit(s[j]),
        k == s.len() || !is_ascii_digit(s[k]),
    ensures
        leading_digits(s.skip(i)) == s.subrange(i, k),
    decreases k - i,
{
    if i < k {
        lemma_leading_digits(s, i + 1, k);
        assert(s.skip(i).drop_first() =~= s.skip(i + 1));
        assert(seq![s[i]] + s.subrange(i + 1, k) =~= s.subrange(i, k));
    } else {
        assert(s.skip(i).len() == 0 || !is_ascii_digit(s.skip(i)[0]));
        assert(s.subrange(i, k) =~= Seq::<char>::empty());
    }
}

proof fn lemma_digits_value_bound(s: Seq<char>)
    requires
        s.len() <= 4,
        forall|j: int| 0 <= j < s.len() ==> is_ascii_digit(s[j]),
    ensures
        digits_value(s) < 10000,
    decreases s.len(),
{
    if s.len() > 0 {
        lemma_digits_value_bound(s.drop_last());
        assert(digits_value(s.drop_last()) < 1000) by {
            lemma_digits_value_bound_len(s.drop_last());
        }
    }
}

proof fn lemma_digits_value_bound_len(s: Seq<char>)
    requires
        forall|j: int| 0 <= j < s.len() ==> is_ascii_digit(s[j]),
        s.len() <= 3,
    ensures
        s.len() <= 3 ==> digits_value(s) < 1000,
        s.len() <= 2 ==> digits_value(s) < 100,
        s.len() <= 1 ==> digits_value(s) < 10,
    decreases s.len(),
{
    if s.len() > 0 {
        lemma_digits_value_bound_len(s.drop_last());
    }
}

/// The year in a date text (see [`parse_year_spec`]).
pub fn parse_year_string(text: &str) -> (r: Option<u32>)
    ensures
        r == parse_year_spec(text@),
{
    let v = chars_of(text);
    let ghost s = v@;
    // Skip to the first digit.
    let mut i: usize = 0;
    proof {
        assert(s.skip(0) =~= s);
    }
    while i < v.len() && !('0' <= v[i] && v[i] <= '9')
        invariant
            i <= v.len(),
            s == v@,
            first_digit_run(s) == first_digit_run(s.skip(i as int)),
        decreases v.len() - i,
    {
        proof {
            assert(s.skip(i as int).drop_first() =~= s.skip(i + 1));
        }
        i += 1;
    }
    // The run of digits from there.
    let mut k = i;
    while k < v.len() && '0' <= v[k] && v[k] <= '9'
        invariant
            i <= k <= v.len(),
            s == v@,
            forall|j: int| i <= j < k ==> is_ascii_digit(s[j]),
        decreases v.len() - k,
    {
        k += 1;
    }
    proof {
        lemma_leading_digits(s, i as int, k as int);
        if i < v.len() {
            assert(is_ascii_digit(s.skip(i as int)[0]));
        } else {
            assert(s.skip(i as int).len() == 0);
        }
        assert(first_digit_run(s) == s.subrange(i as int, k as int));
    }
    if k - i < 4 {
        return None;
    }
    let r = parse_u32_range(&v, i, i + 4);
    proof {
        let run = s.subrange(i as int, k as int);
        assert(s.subrange(i as int, i + 4) =~= run.take(4));
        lemma_digits_value_bound(run.take(4));
        assert(crate::text::unsigned_body(run.take(4)) == run.take(4));
    }
    r
}

// ---------------------------------------------------------------------------
// Track numbers and artists.
// ---------------------------------------------------------------------------

/// The text before the first `/` (all of it when there is none).
pub open spec fn before_slash(s: Seq<char>) -> Seq<char> {
    if exists|i: int| 0 <= i < s.len() && s[i] == '/' {
        s.take(choose|i: int| 0 <= i < s.len() && s[i] == '/' && forall|j: int| 0 <= j < i ==> s[j] != '/')
    } else {
        s
    }
}

/// A track or disc number: `3`, `03` or `3/12` (track 3 of 12).
pub open spec fn track_no_spec(s: Seq<char>) -> Option<u32> {
    parse_u32_spec(trim(before_slash(s)))
}

/// Read a track or disc number from its tag text.
pub fn read_track_no(text: &str) -> (r: Option<u32>)
    ensures
        r == track_no_spec(text@),
{
    let v = chars_of(text);
    let end = match find_char(&v, '/', 0, v.len()) {
        Some(k) => k,
        None => v.len(),
    };
    proof {
        if end < v.len() {
            let c = choose|i: int| 0 <= i < v@.len() && v@[i] == '/' && forall|j: int| 0 <= j < i ==> v@[j] != '/';
            if c < end {
                assert(v@[c] != '/');
            } else if c > end {
                assert(v@[end as int] != '/');
            }
        }
        assert(v@.subrange(0, end as int) =~= before_slash(v@));
    }
    let (a, b) = trim_range(&v, 0, end);
    parse_u32_range(&v, a, b)
}

/// A track number written in decimal, with whitespace around it and
/// optionally followed by `/` and a total, reads back as that number: the
/// whole trimmed text before the first `/` is the number.
pub proof fn law_track_number_reads_back(n: u32, w1: Seq<char>, w2: Seq<char>, total: Seq<char>)
    requires
        all_ws(w1),
        all_ws(w2),
    ensures
        track_no_spec(w1 + decimal(n as nat) + w2) == Some(n),
        track_no_spec(w1 + decimal(n as nat) + w2 + seq!['/'] + total) == Some(n),
{
    let d = decimal(n as nat);
    lemma_decimal_reads_back(n as nat);
    let x = w1 + d + w2;
    assert forall|i: int| 0 <= i < x.len() implies x[i] != '/' by {
        if i < w1.len() {
            assert(is_ws(w1[i]));
        } else if i < w1.len() + d.len() {
            assert(x[i] == d[i - w1.len()]);
            assert(is_ascii_digit(d[i - w1.len()]));
        } else {
            assert(x[i] == w2[i - w1.len() - d.len()]);
            assert(is_ws(w2[i - w1.len() - d.len()]));
        }
    }
    assert(before_slash(x) == x);
    let y = x + seq!['/'] + total;
    assert(y[x.len() as int] == '/');
    let k = choose|i: int| 0 <= i < y.len() && y[i] == '/' && forall|j: int| 0 <= j < i ==> y[j] != '/';
    assert(0 <= x.len() < y.len() && y[x.len() as int] == '/' && forall|j: int|
        0 <= j < x.len() ==> y[j] != '/') by {
        assert forall|j: int| 0 <= j < x.len() implies y[j] != '/' by {
            assert(y[j] == x[j]);
        }
    }
    if k < x.len() {
        assert(y[k] == x[k]);
    }
    assert(k == x.len());
    assert(y.take(k) =~= x);
    assert(before_slash(y) == x);
    assert(is_ascii_digit(d[0]));
    assert(is_ascii_digit(d.last()));
    lemma_trim_surrounded(w1, d, w2);
    assert(d[0] != '+');
    assert(parse_u32_spec(d) == Some(n));
}

/// An artist name: trimmed, and absent when nothing is left. Some taggers
/// pad names with whitespace that confuses joins and equality checks.
pub open spec fn artist_spec(s: Seq<char>) -> Option<Seq<char>> {
    if trim(s).len() == 0 {
        None
    } else {
        Some(trim(s))
    }
}

/// Read an artist name from its tag text.
pub fn read_artist(text: &str) -> (r: Option<String>)
    ensures
        r matches Some(a) ==> artist_spec(text@) == Some(a@),
        r is None ==> artist_spec(text@) is None,
{
    let v = chars_of(text);
    let (a, b) = trim_range(&v, 0, v.len());
    proof {
        assert(v@.subrange(0, v@.len() as int) =~= v@);
    }
    if a == b {
        None
    } else {
        Some(string_of_range(&v, a, b))
    }
}

pub open spec fn opt_view(o: Option<String>) -> Option<Seq<char>> {
    match o {
        Some(s) => Some(s@),
        None => None,
    }
}

/// The year of a tag block: the recording date when it holds a year, else
/// the year item.
pub open spec fn read_year_spec(recording_date: Option<Seq<char>>, year: Option<Seq<char>>) -> Option<u32> {
    let from_date = match recording_date {
        Some(t) => parse_year_spec(t),
        None => None,
    };
    if from_date is Some {
        from_date
    } else {
        match year {
            Some(t) => parse_year_spec(t),
            None => None,
        }
    }
}

pub fn read_year(recording_date: &Option<String>, year: &Option<String>) -> (r: Option<u32>)
    ensures
        r == read_year_spec(opt_view(*recording_date), opt_view(*year)),
{
    match recording_date {
        Some(t) => {
            let y = parse_year_string(t.as_str());
            if y.is_some() {
                return y;
            }
        },
        None => {},
    }
    match year {
        Some(t) => parse_year_string(t.as_str()),
        None => None,
    }
}

fn clone_opt(o: &Option<String>) -> (r: Option<String>)
    ensures
        opt_view(r) == opt_view(*o),
{
    match o {
        Some(s) => Some(s.clone()),
        None => None,
    }
}

pub open spec fn opt_artist(o: Option<String>) -> Option<Seq<char>> {
    match o {
        Some(s) => artist_spec(s@),
        None => None,
    }
}

pub open spec fn opt_track_no(o: Option<String>) -> Option<u32> {
    match o {
        Some(s) => track_no_spec(s@),
        None => None,
    }
}

/// The tags read from a tag block's item texts.
pub fn extract_from_values(v: &TagValues) -> (r: Tags)
    ensures
        opt_view(r.title) == opt_view(v.title),
        opt_view(r.artist) == opt_artist(v.artist),
        opt_view(r.album) == opt_view(v.album),
        opt_view(r.album_artist) == opt_artist(v.album_artist),
        r.track_no == opt_track_no(v.track_number),
        r.disc_no == opt_track_no(v.disc_number),
        r.year == read_year_spec(opt_view(v.recording_date), opt_view(v.year)),
        opt_view(r.genre) == opt_view(v.genre),
        opt_view(r.composer) == opt_view(v.composer),
        opt_view(r.lyrics) == opt_view(v.lyrics),
{
    let artist = match &v.artist {
        Some(t) => read_artist(t.as_str()),
        None => None,
    };
    let album_artist = match &v.album_artist {
        Some(t) => read_artist(t.as_str()),
        None => None,
    };
    let track_no = match &v.track_number {
        Some(t) => read_track_no(t.as_str()),
        None => None,
    };
    let disc_no = match &v.disc_number {
        Some(t) => read_track_no(t.as_str()),
        None => None,
    };
    Tags {
        title: clone_opt(&v.title),
        artist,
        album: clone_opt(&v.album),
        album_artist,
        track_no,
        disc_no,
        year: read_year(&v.recording_date, &v.year),
        genre: clone_opt(&v.genre),
        composer: clone_opt(&v.composer),
        lyrics: clone_opt(&v.lyrics),
    }
}

// ---------------------------------------------------------------------------
// Merging with filename heuristics.
// ---------------------------------------------------------------------------

/// Fill the gaps in `tags` from the filename heuristic: the artist only when
/// neither artist nor album artist is known, and album, track number and
/// title each when missing.
pub fn apply_heuristic(tags: &mut Tags, heuristic: Option<HeuristicTags>)
    ensures
        match heuristic {
            None => *final(tags) == *old(tags),
            Some(h) => {
                &&& final(tags).artist == (if old(tags).artist is None && old(tags).album_artist is None {
                    h.artist
                } else {
                    old(tags).artist
                })
                &&& final(tags).album == (if old(tags).album is None {
                    h.album
                } else {
                    old(tags).album
                })
                &&& final(tags).track_no == (if old(tags).track_no is None {
                    h.track_no
                } else {
                    old(tags).track_no
                })
                &&& final(tags).title == (if old(tags).title is None {
                    h.title
                } else {
                    old(tags).title
                })
                &&& final(tags).album_artist == old(tags).album_artist
                &&& final(tags).disc_no == old(tags).disc_no
                &&& final(tags).year == old(tags).year
                &&& final(tags).genre == old(tags).genre
                &&& final(tags).composer == old(tags).composer
                &&& final(tags).lyrics == old(tags).lyrics
            },
        },
{
    match heuristic {
        None => {},
        Some(h) => {
            let HeuristicTags { artist, album, track_no, title } = h;
            if tags.artist.is_none() && tags.album_artist.is_none() {
                tags.artist = artist;
            }
            if tags.album.is_none() {
                tags.album = album;
            }
            if tags.track_no.is_none() {
                tags.track_no = track_no;
            }
            if tags.title.is_none() {
                tags.title = title;
            }
        },
    }
}

/// The name an album is filed under: the track artist, else the album
/// artist.
pub fn album_artist_name(tags: &Tags) -> (r: Option<String>)
    ensures
        opt_view(r) == (if tags.artist is Some {
            opt_view(tags.artist)
        } else {
            opt_view(tags.album_artist)
        }),
{
    match &tags.artist {
        Some(a) => Some(a.clone()),
        None => clone_opt(&tags.album_artist),
    }
}

} // verus!
