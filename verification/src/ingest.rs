//! What ingesting one scanned file writes: the artist and album it is filed
//! under, the values of its track row, and its lyrics.

use vstd::prelude::*;
use crate::edit::opt_text;
use crate::extract::{album_artist_name, Tags};
use crate::probe::{Probe, ProbeError};
use crate::text::{chars_of, extend_chars, string_from_chars};

verus! {

/// Why a file could not be ingested.
#[derive(Debug, Clone, PartialEq, Eq)]
pub enum IngestError {
    Io(String),
    Sqlite(String),
    Probe(String),
}

impl IngestError {
    /// The human-readable text of the error.
    pub fn message(&self) -> (r: String)
        ensures
            match self {
                IngestError::Io(m) => r@ == "io: "@ + m@,
                IngestError::Sqlite(m) => r@ == "sqlite: "@ + m@,
                IngestError::Probe(m) => r@ == "probe: "@ + m@,
            },
    {
        let (prefix, m) = match self {
            IngestError::Io(m) => ("io: ", m),
            IngestError::Sqlite(m) => ("sqlite: ", m),
            IngestError::Probe(m) => ("probe: ", m),
        };
        let mut v = chars_of(prefix);
        extend_chars(&mut v, &chars_of(m.as_str()));
        string_from_chars(v)
    }
}

/// The ingest error for a file that could not be probed: a reader or
/// extension failure is a probe error with its message, an I/O failure
/// stays one.
pub fn ingest_error_of_probe(e: ProbeError) -> (r: IngestError)
    ensures
        match e {
            ProbeError::Lofty(m) => r == IngestError::Probe(m),
            ProbeError::UnknownExtension(m) => r == IngestError::Probe(m),
            ProbeError::Io(m) => r == IngestError::Io(m),
        },
{
    match e {
        ProbeError::Lofty(m) => IngestError::Probe(m),
        ProbeError::UnknownExtension(m) => IngestError::Probe(m),
        ProbeError::Io(m) => IngestError::Io(m),
    }
}

/// The values a track row is written with (ReplayGain aside).
#[derive(Debug, Clone, PartialEq, Eq)]
pub struct TrackValues {
    pub path: String,
    pub codec: String,
    pub duration_ms: Option<i32>,
    pub sample_rate: Option<i32>,
    pub channels: Option<i32>,
    pub bitrate: Option<i32>,
    pub title: Option<String>,
    pub genre: Option<String>,
    pub track_no: Option<i64>,
    pub disc_no: Option<i64>,
}

/// Everything ingesting one file writes.
#[derive(Debug, Clone, PartialEq, Eq)]
pub struct IngestPlan {
    /// The artist the track is filed under; `None` files it under the
    /// seeded "Unknown Artist" row.
    pub artist: Option<String>,
    /// The album title and year, when the tags name an album.
    pub album: Option<(String, Option<u32>)>,
    /// The track row.
    pub track: TrackValues,
    /// Embedded lyrics to store (language `und`, source `embedded`).
    pub lyrics: Option<String>,
}

fn copy_text(o: &Option<String>) -> (r: Option<String>)
    ensures
        r == *o,
{
    match o {
        Some(s) => Some(s.clone()),
        None => None,
    }
}

pub open spec fn widen_u8(o: Option<u8>) -> Option<i32> {
    match o {
        Some(c) => Some(c as i32),
        None => None,
    }
}

pub open spec fn widen_u32(o: Option<u32>) -> Option<i64> {
    match o {
        Some(c) => Some(c as i64),
        None => None,
    }
}

/// What ingesting the file at `path` writes, given its probe and its tags
/// (already merged with the file-name heuristics): the artist is the track
/// artist, else the album artist; an album is filed only when the tags name
/// one; the track row takes the probe's properties and the tags' title,
/// genre and numbers.
pub fn plan_ingest(path: &str, probe: &Probe, tags: &Tags) -> (r: IngestPlan)
    ensures
        opt_text(r.artist) == (if tags.artist is Some {
            opt_text(tags.artist)
        } else {
            opt_text(tags.album_artist)
        }),
        tags.album is None ==> r.album is None,
        tags.album matches Some(a) ==> (r.album matches Some(p) && p.0@ == a@ && p.1 == tags.year),
        r.track.path@ == path@,
        r.track.codec@ == probe.codec@,
        r.track.duration_ms == probe.duration_ms,
        r.track.sample_rate == probe.sample_rate,
        r.track.channels == widen_u8(probe.channels),
        r.track.bitrate == probe.bitrate,
        r.track.title == tags.title,
        r.track.genre == tags.genre,
        r.track.track_no == widen_u32(tags.track_no),
        r.track.disc_no == widen_u32(tags.disc_no),
        r.lyrics == tags.lyrics,
{
    let artist = album_artist_name(tags);
    proof {
        assert(opt_text(artist) == crate::extract::opt_view(artist));
        assert(opt_text(tags.artist) == crate::extract::opt_view(tags.artist));
        assert(opt_text(tags.album_artist) == crate::extract::opt_view(tags.album_artist));
    }
    let album = match &tags.album {
        Some(t) => Some((t.clone(), tags.year)),
        None => None,
    };
    let channels = match probe.channels {
        Some(c) => Some(c as i32),
        None => None,
    };
    let track_no = match tags.track_no {
        Some(n) => Some(n as i64),
        None => None,
    };
    let disc_no = match tags.disc_no {
        Some(n) => Some(n as i64),
        None => None,
    };
    IngestPlan {
        artist,
        album,
        track: TrackValues {
            path: string_from_chars(chars_of(path)),
            codec: probe.codec.clone(),
            duration_ms: probe.duration_ms,
            sample_rate: probe.sample_rate,
            channels,
            bitrate: probe.bitrate,
            title: copy_text(&tags.title),
            genre: copy_text(&tags.genre),
            track_no,
            disc_no,
        },
        lyrics: copy_text(&tags.lyrics),
    }
}

} // verus!
