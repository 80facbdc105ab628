//! Rows of the read-side listings, and the statement behind the faceted
//! track listing.

use vstd::prelude::*;
use crate::edit::{opt_text, SqlParam, SqlValue, params_of};
use crate::text::{chars_of, extend_chars, string_from_chars};

verus! {

/// A track row as returned by the read-side query layer.
#[derive(Debug, Clone, PartialEq, Eq)]
pub struct TrackRow {
    pub id: i64,
    pub path: String,
    pub title: Option<String>,
    pub track_no: Option<i32>,
    pub disc_no: Option<i32>,
    pub duration_ms: Option<i32>,
    pub codec: String,
    pub genre: Option<String>,
    pub year: Option<i32>,
    pub album_id: Option<i64>,
    pub album_title: Option<String>,
    pub artist_id: Option<i64>,
    pub artist_name: Option<String>,
}

/// An album with its artist and track count.
#[derive(Debug, Clone, PartialEq, Eq)]
pub struct AlbumRow {
    pub id: i64,
    pub title: String,
    pub year: Option<i32>,
    pub artist_id: Option<i64>,
    pub artist_name: Option<String>,
    pub track_count: i64,
}

/// An artist with its track count.
#[derive(Debug, Clone, PartialEq, Eq)]
pub struct ArtistRow {
    pub id: i64,
    pub name: String,
    pub sort_name: Option<String>,
    pub track_count: i64,
}

/// A distinct genre with its track count.
#[derive(Debug, Clone, PartialEq, Eq)]
pub struct GenreRow {
    pub name: String,
    pub track_count: i64,
}

/// A distinct album year with its track count.
#[derive(Debug, Clone, PartialEq, Eq)]
pub struct YearRow {
    pub year: i32,
    pub track_count: i64,
}

/// The cover of an album: mime type and bytes.
#[derive(Debug, Clone, PartialEq, Eq)]
pub struct CoverRow {
    pub mime_type: String,
    pub data: Vec<u8>,
}

/// Stored lyrics of a track.
#[derive(Debug, Clone, PartialEq, Eq)]
pub struct LyricsRow {
    pub text: String,
    pub language: String,
    pub source: String,
}

/// Lyrics for a track as `(text, language, source)`, as the front-end gets
/// them.
#[derive(Debug, Clone, PartialEq, Eq)]
pub struct LyricsPayload {
    pub text: String,
    pub language: String,
    pub source: String,
}

impl LyricsPayload {
    /// The payload carrying a stored lyrics row.
    pub fn from_row(row: LyricsRow) -> (r: Self)
        ensures
            r.text == row.text,
            r.language == row.language,
            r.source == row.source,
    {
        LyricsPayload { text: row.text, language: row.language, source: row.source }
    }
}

/// Optional facets of the track listing; `None` means "do not filter on
/// this facet".
#[derive(Debug, Clone, PartialEq, Eq)]
pub struct TrackFilter {
    /// Genre to match exactly (case-sensitive).
    pub genre: Option<String>,
    /// Album year to match.
    pub year: Option<i32>,
    /// Artist id.
    pub artist_id: Option<i64>,
    /// Album id.
    pub album_id: Option<i64>,
}

impl Default for TrackFilter {
    fn default() -> (r: Self)
        ensures
            r.genre is None,
            r.year is None,
            r.artist_id is None,
            r.album_id is None,
    {
        TrackFilter { genre: None, year: None, artist_id: None, album_id: None }
    }
}

/// The listing's `SELECT` up to its (always true) `WHERE` clause.
pub open spec fn listing_head() -> Seq<char> {
    "SELECT t.id, t.path, t.title, t.track_no, t.disc_no, t.duration_ms, t.codec, \
            t.genre, a.year, \
            a.id, a.title, ar.id, ar.name \
     FROM track t \
     LEFT JOIN album a  ON a.id  = t.album_id \
     LEFT JOIN artist ar ON ar.id = a.album_artist_id \
     WHERE 1 = 1"@
}

pub open spec fn clause_if(present: bool, clause: Seq<char>) -> Seq<char> {
    if present {
        clause
    } else {
        Seq::empty()
    }
}

/// The filtered listing's statement: one `AND` condition per facet given,
/// in the order genre, year, artist, album; ordered by track id and paged.
pub open spec fn filter_sql(f: TrackFilter) -> Seq<char> {
    listing_head() + clause_if(f.genre is Some, " AND t.genre = ?"@) + clause_if(
        f.year is Some,
        " AND a.year = ?"@,
    ) + clause_if(f.artist_id is Some, " AND ar.id = ?"@) + clause_if(
        f.album_id is Some,
        " AND a.id = ?"@,
    ) + " ORDER BY t.id LIMIT ? OFFSET ?"@
}

/// The values bound to the filtered listing's placeholders.
pub open spec fn filter_params(f: TrackFilter, limit: i64, offset: i64) -> Seq<SqlParam> {
    let g: Seq<SqlParam> = match f.genre {
        Some(s) => seq![SqlParam::Text(Some(s@))],
        None => Seq::empty(),
    };
    let y: Seq<SqlParam> = match f.year {
        Some(v) => seq![SqlParam::Int(Some(v as int))],
        None => Seq::empty(),
    };
    let a: Seq<SqlParam> = match f.artist_id {
        Some(v) => seq![SqlParam::Int(Some(v as int))],
        None => Seq::empty(),
    };
    let b: Seq<SqlParam> = match f.album_id {
        Some(v) => seq![SqlParam::Int(Some(v as int))],
        None => Seq::empty(),
    };
    g + y + a + b + seq![SqlParam::Int(Some(limit as int)), SqlParam::Int(Some(offset as int))]
}

impl TrackFilter {
    /// The statement and bound values listing up to `limit` tracks from
    /// `offset` that match every facet given, ordered by track id.
    pub fn statement(&self, limit: i64, offset: i64) -> (r: (String, Vec<SqlValue>))
        ensures
            r.0@ == filter_sql(*self),
            params_of(r.1@) == filter_params(*self, limit, offset),
    {
        let mut sql = chars_of(
            "SELECT t.id, t.path, t.title, t.track_no, t.disc_no, t.duration_ms, t.codec, \
                    t.genre, a.year, \
                    a.id, a.title, ar.id, ar.name \
             FROM track t \
             LEFT JOIN album a  ON a.id  = t.album_id \
             LEFT JOIN artist ar ON ar.id = a.album_artist_id \
             WHERE 1 = 1",
        );
        let mut binds: Vec<SqlValue> = Vec::new();
        let ghost s0 = sql@;
        match &self.genre {
            Some(g) => {
                extend_chars(&mut sql, &chars_of(" AND t.genre = ?"));
                binds.push(SqlValue::Text(Some(g.clone())));
            },
            None => {},
        }
        let ghost s1 = sql@;
        let ghost b1 = params_of(binds@);
        match self.year {
            Some(y) => {
                extend_chars(&mut sql, &chars_of(" AND a.year = ?"));
                binds.push(SqlValue::Int(Some(y as i64)));
            },
            None => {},
        }
        let ghost s2 = sql@;
        let ghost b2 = params_of(binds@);
        match self.artist_id {
            Some(a) => {
                extend_chars(&mut sql, &chars_of(" AND ar.id = ?"));
                binds.push(SqlValue::Int(Some(a)));
            },
            None => {},
        }
        let ghost s3 = sql@;
        let ghost b3 = params_of(binds@);
        match self.album_id {
            Some(a) => {
                extend_chars(&mut sql, &chars_of(" AND a.id = ?"));
                binds.push(SqlValue::Int(Some(a)));
            },
            None => {},
        }
        let ghost b4 = params_of(binds@);
        extend_chars(&mut sql, &chars_of(" ORDER BY t.id LIMIT ? OFFSET ?"));
        binds.push(SqlValue::Int(Some(limit)));
        binds.push(SqlValue::Int(Some(offset)));
        proof {
            assert(s1 =~= s0 + clause_if(self.genre is Some, " AND t.genre = ?"@));
            assert(s2 =~= s1 + clause_if(self.year is Some, " AND a.year = ?"@));
            assert(s3 =~= s2 + clause_if(self.artist_id is Some, " AND ar.id = ?"@));
            assert(sql@ =~= filter_sql(*self));
            if self.genre is Some {
                assert(b1 =~= seq![SqlParam::Text(Some(self.genre->0@))]);
            } else {
                assert(b1 =~= Seq::<SqlParam>::empty());
            }
            assert(params_of(binds@) =~= b4 + seq![
                SqlParam::Int(Some(limit as int)),
                SqlParam::Int(Some(offset as int)),
            ]);
            assert(params_of(binds@) =~= filter_params(*self, limit, offset));
        }
        (string_from_chars(sql), binds)
    }
}

} // verus!
