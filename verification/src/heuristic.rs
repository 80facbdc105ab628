//! Filename-based fallback when no embedded tags are present.
//!
//! Recognises the common `<Artist>/<Album>/<TrackNo> - <Title>.<ext>` layout
//! used by music libraries. Anything ambiguous gives `None`: better no tags
//! than wrong ones.

use vstd::prelude::*;
use crate::text::{
    chars_of, find, first_occurrence, parse_u32_range, parse_u32_spec, split_char, split_spec,
    string_of_range, trim, trim_range, views_match,
};

verus! {

/// Tags recovered from a filename.
#[derive(Debug, Clone, PartialEq, Eq)]
pub struct HeuristicTags {
    pub artist: Option<String>,
    pub album: Option<String>,
    pub track_no: Option<u32>,
    pub title: Option<String>,
}

impl HeuristicTags {
    /// These tags hold exactly `parts` (artist, album, track number, title).
    pub open spec fn matches_parts(self, parts: (Seq<char>, Seq<char>, Option<u32>, Seq<char>)) -> bool {
        &&& self.artist matches Some(a) && a@ == parts.0
        &&& self.album matches Some(b) && b@ == parts.1
        &&& self.track_no == parts.2
        &&& self.title matches Some(t) && t@ == parts.3
    }
}

/// A path piece that names a file or directory (not empty, `.` or `..`).
pub open spec fn is_normal_component(piece: Seq<char>) -> bool {
    piece.len() > 0 && piece != seq!['.'] && piece != seq!['.', '.']
}

pub open spec fn normal_component_pred() -> spec_fn(Seq<char>) -> bool {
    |c: Seq<char>| is_normal_component(c)
}

/// The named components of a `/`-separated path, in order.
pub open spec fn path_components(p: Seq<char>) -> Seq<Seq<char>> {
    split_spec(p, '/').filter(normal_component_pred())
}

/// Whether `s` holds a `.`.
pub open spec fn has_dot(s: Seq<char>) -> bool {
    exists|i: int| 0 <= i < s.len() && s[i] == '.'
}

/// Index of the last `.` in `s` (meaningful when `has_dot(s)`).
pub open spec fn last_dot(s: Seq<char>) -> int {
    choose|i: int| 0 <= i < s.len() && s[i] == '.' && forall|j: int| i < j < s.len() ==> s[j] != '.'
}

/// `name` without its extension: everything before the last `.`.
pub open spec fn strip_extension(name: Seq<char>) -> Seq<char> {
    if has_dot(name) {
        name.take(last_dot(name))
    } else {
        name
    }
}

/// In `base.ext` with a dot-free `ext`, the last `.` is the one before
/// `ext`.
pub proof fn lemma_last_dot_before_ext(base: Seq<char>, ext: Seq<char>)
    requires
        forall|i: int| 0 <= i < ext.len() ==> ext[i] != '.',
    ensures
        has_dot(base + seq!['.'] + ext),
        last_dot(base + seq!['.'] + ext) == base.len(),
        (base + seq!['.'] + ext).take(base.len() as int) == base,
        (base + seq!['.'] + ext).skip(base.len() + 1int) == ext,
{
    let n = base + seq!['.'] + ext;
    let b = base.len() as int;
    assert(n[b] == '.');
    assert forall|j: int| b < j < n.len() implies n[j] != '.' by {
        assert(n[j] == ext[j - b - 1]);
    }
    assert(has_dot(n));
    let d = last_dot(n);
    assert(0 <= d < n.len() && n[d] == '.' && forall|j: int| d < j < n.len() ==> n[j] != '.');
    if d < b {
        assert(n[b] != '.');
    }
    assert(d == b);
    assert(n.take(b) =~= base);
    assert(n.skip(b + 1) =~= ext);
}

/// Only the extension is dropped from a file name: the text after the last
/// `.` goes, everything before it stays, dots included; a name without a
/// dot is kept whole.
pub proof fn law_only_the_extension_is_dropped(base: Seq<char>, ext: Seq<char>, plain: Seq<char>)
    requires
        forall|i: int| 0 <= i < ext.len() ==> ext[i] != '.',
        forall|i: int| 0 <= i < plain.len() ==> plain[i] != '.',
    ensures
        strip_extension(base + seq!['.'] + ext) == base,
        strip_extension(plain) == plain,
{
    lemma_last_dot_before_ext(base, ext);
}

/// The leaf `NN - Title` split into track number and title. Without a
/// number before the first ` - `, the whole trimmed leaf is the title.
pub open spec fn parse_leaf_spec(leaf: Seq<char>) -> (Option<u32>, Seq<char>) {
    match first_occurrence(leaf, seq![' ', '-', ' ']) {
        Some(idx) => match parse_u32_spec(trim(leaf.take(idx))) {
            Some(n) => (Some(n), trim(leaf.skip(idx + 3))),
            None => (None, trim(leaf)),
        },
        None => (None, trim(leaf)),
    }
}

/// What `parse_filename` finds in `p`: artist, album, track number and
/// title, from the last three named components.
pub open spec fn parse_filename_spec(p: Seq<char>) -> Option<(Seq<char>, Seq<char>, Option<u32>, Seq<char>)> {
    let comps = path_components(p);
    let n = comps.len();
    if n < 3 {
        None
    } else {
        let leaf = strip_extension(comps[n - 1]);
        let (track_no, title) = parse_leaf_spec(leaf);
        Some((comps[n - 3], comps[n - 2], track_no, title))
    }
}

/// The named components of `p`.
fn components(p: &Vec<char>) -> (r: Vec<Vec<char>>)
    ensures
        views_match(r@, path_components(p@)),
{
    let pieces = split_char(p, '/');
    let ghost all = split_spec(p@, '/');
    let mut out: Vec<Vec<char>> = Vec::new();
    let mut i: usize = 0;
    while i < pieces.len()
        invariant
            i <= pieces.len(),
            views_match(pieces@, all),
            views_match(out@, all.take(i as int).filter(normal_component_pred())),
        decreases pieces.len() - i,
    {
        proof {
            assert(all.take(i + 1).drop_last() =~= all.take(i as int));
        }
        let piece = &pieces[i];
        let normal = piece.len() > 0 && !(piece.len() == 1 && piece[0] == '.') && !(piece.len()
            == 2 && piece[0] == '.' && piece[1] == '.');
        proof {
            let pv = pieces@[i as int]@;
            if pv.len() == 1 && pv[0] == '.' {
                assert(pv =~= seq!['.']);
            }
            if pv.len() == 2 && pv[0] == '.' && pv[1] == '.' {
                assert(pv =~= seq!['.', '.']);
            }
            assert(normal == is_normal_component(pv));
        }
        let ghost prev = all.take(i as int).filter(normal_component_pred());
        let ghost out_before = out@;
        proof {
            reveal_with_fuel(Seq::<Seq<char>>::filter, 1);
            assert(all.take(i + 1).last() == all[i as int]);
            assert(all.take(i + 1).drop_last() == all.take(i as int));
            assert(normal_component_pred()(all[i as int]) == is_normal_component(all[i as int]));
            assert(all.take(i + 1).filter(normal_component_pred()) == if is_normal_component(all[i as int]) {
                prev.push(all[i as int])
            } else {
                prev
            });
        }
        if normal {
            let copy = crate::text::slice_chars(piece, 0, piece.len());
            proof {
                assert(copy@ =~= pieces@[i as int]@);
            }
            out.push(copy);
            proof {
                assert forall|k: int| 0 <= k < out@.len() implies #[trigger] out@[k]@ == prev.push(all[i as int])[k] by {
                    if k < out_before.len() {
                        assert(out@[k] == out_before[k]);
                    }
                }
            }
        }
        i += 1;
    }
    proof {
        assert(all.take(i as int) =~= all);
    }
    out
}

/// `name` up to (not including) its last `.`, or all of it.
fn strip_extension_len(name: &Vec<char>) -> (r: usize)
    ensures
        r <= name.len(),
        name@.take(r as int) == strip_extension(name@),
{
    let mut j = name.len();
    while j > 0 && name[j - 1] != '.'
        invariant
            j <= name.len(),
            forall|k: int| j <= k < name.len() ==> name@[k] != '.',
        decreases j,
    {
        j -= 1;
    }
    if j == 0 {
        proof {
            assert(!has_dot(name@));
            assert(name@.take(name.len() as int) =~= name@);
        }
        name.len()
    } else {
        proof {
            assert(has_dot(name@));
            let d = last_dot(name@);
            assert(d == j - 1);
        }
        j - 1
    }
}

/// Parse the leaf `v[0..len]` of the form `NN - Title`.
#[verifier::rlimit(40)]
fn parse_leaf(v: &Vec<char>, len: usize) -> (r: (Option<u32>, String))
    requires
        len <= v.len(),
    ensures
        r.0 == parse_leaf_spec(v@.take(len as int)).0,
        r.1@ == parse_leaf_spec(v@.take(len as int)).1,
{
    let leaf = crate::text::slice_chars(v, 0, len);
    proof {
        assert(leaf@ =~= v@.take(len as int));
    }
    let sep: Vec<char> = vec![' ', '-', ' '];
    proof {
        assert(sep@ =~= seq![' ', '-', ' ']);
    }
    match find(&leaf, &sep) {
        Some(idx) => {
            let (a, b) = trim_range(&leaf, 0, idx);
            proof {
                assert(leaf@.subrange(0, idx as int) =~= leaf@.take(idx as int));
            }
            match parse_u32_range(&leaf, a, b) {
                Some(n) => {
                    let (c, d) = trim_range(&leaf, idx + 3, leaf.len());
                    proof {
                        assert(leaf@.subrange(idx + 3, leaf.len() as int) =~= leaf@.skip(idx + 3));
                    }
                    (Some(n), string_of_range(&leaf, c, d))
                },
                None => {
                    let (c, d) = trim_range(&leaf, 0, leaf.len());
                    proof {
                        assert(leaf@.subrange(0, leaf.len() as int) =~= leaf@);
                    }
                    (None, string_of_range(&leaf, c, d))
                },
            }
        },
        None => {
            let (c, d) = trim_range(&leaf, 0, leaf.len());
            proof {
                assert(leaf@.subrange(0, leaf.len() as int) =~= leaf@);
            }
            (None, string_of_range(&leaf, c, d))
        },
    }
}

/// Try to parse the conventional `Artist/Album/TrackNo - Title.ext` layout.
///
/// The layout needs at least two directories above the file: the
/// grandparent names the artist, the parent the album.
pub fn parse_filename(path: &str) -> (r: Option<HeuristicTags>)
    ensures
        match parse_filename_spec(path@) {
            None => r is None,
            Some(t) => r matches Some(h) && h.matches_parts(t),
        },
{
    let p = chars_of(path);
    let comps = components(&p);
    let n = comps.len();
    if n < 3 {
        return None;
    }
    let last = &comps[n - 1];
    let cut = strip_extension_len(last);
    let (track_no, title) = parse_leaf(last, cut);
    let artist = crate::text::string_from_chars(comps[n - 3].clone());
    let album = crate::text::string_from_chars(comps[n - 2].clone());
    Some(HeuristicTags { artist: Some(artist), album: Some(album), track_no, title: Some(title) })
}

/// The conventional layout is read back part by part: a path ending in
/// `artist/album/NN - title.ext` gives that artist and album, track number
/// `NN` and the trimmed title, whatever the title holds (dots and dashes
/// included) and whatever comes before the artist.
pub proof fn law_filename_layout_read_back(
    pre: Seq<char>,
    artist: Seq<char>,
    album: Seq<char>,
    n: u32,
    title: Seq<char>,
    ext: Seq<char>,
)
    requires
        pre.len() == 0 || pre.last() == '/',
        is_normal_component(artist),
        is_normal_component(album),
        forall|i: int| 0 <= i < artist.len() ==> artist[i] != '/',
        forall|i: int| 0 <= i < album.len() ==> album[i] != '/',
        forall|i: int| 0 <= i < title.len() ==> title[i] != '/',
        forall|i: int| 0 <= i < ext.len() ==> ext[i] != '/' && ext[i] != '.',
    ensures
        parse_filename_spec(
            pre + artist + seq!['/'] + album + seq!['/'] + (crate::fmt::decimal(n as nat) + seq![
                ' ',
                '-',
                ' ',
            ] + title + seq!['.'] + ext),
        ) == Some((artist, album, Some(n), trim(title))),
{
    let d = crate::fmt::decimal(n as nat);
    crate::fmt::lemma_decimal_reads_back(n as nat);
    let stem = d + seq![' ', '-', ' '] + title;
    let leaf = stem + seq!['.'] + ext;
    let x1 = pre + artist;
    let x2 = x1.push('/') + album;
    let x3 = x2.push('/');
    let path = pre + artist + seq!['/'] + album + seq!['/'] + leaf;
    assert(path =~= x3 + leaf);
    assert(leaf[0] == d[0]);
    assert(crate::text::is_ascii_digit(d[0]));
    assert forall|i: int| 0 <= i < leaf.len() implies leaf[i] != '/' by {
        if i < d.len() {
            assert(leaf[i] == d[i]);
            assert(crate::text::is_ascii_digit(d[i]));
        } else if i < d.len() + 3 {
        } else if i < stem.len() {
            assert(leaf[i] == title[i - d.len() - 3]);
        } else if i > stem.len() {
            assert(leaf[i] == ext[i - stem.len() - 1]);
        }
    }
    crate::text::lemma_split_last_piece(x3, leaf, '/');
    crate::text::lemma_split_trailing_sep(x2, '/');
    crate::text::lemma_split_last_piece(x1.push('/'), album, '/');
    crate::text::lemma_split_trailing_sep(x1, '/');
    crate::text::lemma_split_last_piece(pre, artist, '/');
    let base = split_spec(pre, '/').drop_last();
    assert(split_spec(path, '/') =~= base.push(artist).push(album).push(leaf));
    let pred = normal_component_pred();
    base.lemma_filter_push(artist, pred);
    base.push(artist).lemma_filter_push(album, pred);
    base.push(artist).push(album).lemma_filter_push(leaf, pred);
    assert(is_normal_component(leaf)) by {
        assert(leaf.len() >= 4);
    }
    let comps = path_components(path);
    let f = base.filter(pred);
    assert(comps == f.push(artist).push(album).push(leaf));
    let k = comps.len();
    assert(comps[k - 3] == artist);
    assert(comps[k - 2] == album);
    assert(comps[k - 1] == leaf);
    lemma_last_dot_before_ext(stem, ext);
    assert(strip_extension(leaf) == stem);
    // The first ` - ` of the stem follows the number.
    let sep = seq![' ', '-', ' '];
    let idx = d.len() as int;
    assert(stem.subrange(idx, idx + 3) =~= sep);
    assert(crate::text::occurs_at(stem, sep, idx));
    assert forall|j: int| 0 <= j < idx implies !crate::text::occurs_at(stem, sep, j) by {
        assert(stem[j] == d[j]);
        assert(crate::text::is_ascii_digit(d[j]));
        if crate::text::occurs_at(stem, sep, j) {
            assert(stem.subrange(j, j + 3)[0] == stem[j]);
        }
    }
    reveal(crate::text::first_occurrence);
    let w = choose|i: int| crate::text::occurs_at(stem, sep, i) && forall|j: int|
        0 <= j < i ==> !crate::text::occurs_at(stem, sep, j);
    if w < idx {
    } else if w > idx {
    }
    assert(w == idx);
    assert(first_occurrence(stem, sep) == Some(idx));
    assert(stem.take(idx) =~= d);
    assert(stem.skip(idx + 3) =~= title);
    assert(crate::text::all_ws(Seq::<char>::empty()));
    crate::text::lemma_trim_surrounded(Seq::empty(), d, Seq::empty());
    assert(Seq::<char>::empty() + d + Seq::<char>::empty() =~= d);
    assert(!crate::text::is_ws(d.last()));
    assert(d[0] != '+');
    assert(parse_u32_spec(d) == Some(n));
}

} // verus!
