//! Codec and audio properties of a file, and the choice of its embedded
//! cover art.

use vstd::prelude::*;
use crate::path::{path_extension, path_extension_of};
use crate::text::{ascii_lower_seq, ascii_lowercase, chars_of, eq_str, string_from_chars};

verus! {

/// Coarse audio properties extracted from the container header.
#[derive(Debug, Clone, PartialEq, Eq)]
pub struct Probe {
    /// Lower-case codec string: `mp3`, `flac`, `vorbis`, `opus`, `wav`, ...
    pub codec: String,
    /// Track duration in milliseconds, if known.
    pub duration_ms: Option<i32>,
    /// Sample rate in Hz, if known.
    pub sample_rate: Option<i32>,
    /// Channel count, if known.
    pub channels: Option<u8>,
    /// Bitrate in bits per second, if known.
    pub bitrate: Option<i32>,
}

/// Why a file could not be probed.
#[derive(Debug, Clone, PartialEq, Eq)]
pub enum ProbeError {
    /// Reading the file failed; the error's text.
    Io(String),
    /// The tag reader rejected the file; its message.
    Lofty(String),
    /// The file extension is not a known audio format.
    UnknownExtension(String),
}

/// The container formats the tag reader recognises.
#[derive(Debug, Clone, Copy, PartialEq, Eq, Structural)]
pub enum FileKind {
    Aac,
    Aiff,
    Ape,
    Flac,
    Mpeg,
    Mp4,
    Mpc,
    Opus,
    Vorbis,
    Speex,
    Wav,
    WavPack,
    /// A format registered by an application.
    Custom,
}

/// The codec string recorded for a container format.
pub open spec fn codec_name_spec(kind: FileKind) -> Seq<char> {
    match kind {
        FileKind::Mpeg => "mp3"@,
        FileKind::Flac => "flac"@,
        FileKind::Vorbis => "vorbis"@,
        FileKind::Opus => "opus"@,
        FileKind::Wav => "wav"@,
        FileKind::Aiff => "aiff"@,
        FileKind::Mp4 => "mp4"@,
        FileKind::Aac => "aac"@,
        _ => "unknown"@,
    }
}

/// The codec string recorded for a container format.
pub fn codec_name(kind: FileKind) -> (r: &'static str)
    ensures
        r@ == codec_name_spec(kind),
{
    match kind {
        FileKind::Mpeg => "mp3",
        FileKind::Flac => "flac",
        FileKind::Vorbis => "vorbis",
        FileKind::Opus => "opus",
        FileKind::Wav => "wav",
        FileKind::Aiff => "aiff",
        FileKind::Mp4 => "mp4",
        FileKind::Aac => "aac",
        _ => "unknown",
    }
}

/// The codec implied by a lower-case file extension, if it is an audio one.
pub open spec fn codec_for_ext(e: Seq<char>) -> Option<Seq<char>> {
    if e == "mp3"@ {
        Some("mp3"@)
    } else if e == "flac"@ {
        Some("flac"@)
    } else if e == "ogg"@ {
        Some("vorbis"@)
    } else if e == "opus"@ {
        Some("opus"@)
    } else if e == "wav"@ {
        Some("wav"@)
    } else if e == "aiff"@ || e == "aif"@ {
        Some("aiff"@)
    } else if e == "m4a"@ || e == "mp4"@ {
        Some("mp4"@)
    } else if e == "aac"@ {
        Some("aac"@)
    } else if e == "alac"@ {
        Some("alac"@)
    } else {
        None
    }
}

/// The codec implied by a path's extension, in any letter case.
pub open spec fn codec_from_extension_spec(path: Seq<char>) -> Option<Seq<char>> {
    match path_extension(path) {
        Some(e) => codec_for_ext(ascii_lower_seq(e)),
        None => None,
    }
}

fn codec_for_lower_ext(e: &Vec<char>) -> (r: Option<&'static str>)
    ensures
        match r {
            Some(c) => codec_for_ext(e@) == Some(c@),
            None => codec_for_ext(e@) is None,
        },
{
    if eq_str(e, "mp3") {
        Some("mp3")
    } else if eq_str(e, "flac") {
        Some("flac")
    } else if eq_str(e, "ogg") {
        Some("vorbis")
    } else if eq_str(e, "opus") {
        Some("opus")
    } else if eq_str(e, "wav") {
        Some("wav")
    } else if eq_str(e, "aiff") || eq_str(e, "aif") {
        Some("aiff")
    } else if eq_str(e, "m4a") || eq_str(e, "mp4") {
        Some("mp4")
    } else if eq_str(e, "aac") {
        Some("aac")
    } else if eq_str(e, "alac") {
        Some("alac")
    } else {
        None
    }
}

/// The codec implied by `path`'s extension (case-insensitive), if any.
pub fn codec_from_extension(path: &str) -> (r: Option<&'static str>)
    ensures
        match r {
            Some(c) => codec_from_extension_spec(path@) == Some(c@),
            None => codec_from_extension_spec(path@) is None,
        },
{
    let p = chars_of(path);
    match path_extension_of(&p) {
        Some(e) => {
            let lower = ascii_lowercase(&e);
            codec_for_lower_ext(&lower)
        },
        None => None,
    }
}

/// A count that fits in an `i32`, else `None`.
pub open spec fn fit_i32(v: int) -> Option<i32> {
    if 0 <= v <= i32::MAX {
        Some(v as i32)
    } else {
        None
    }
}

pub open spec fn fit_opt_i32(v: Option<u32>) -> Option<i32> {
    match v {
        Some(x) => fit_i32(x as int),
        None => None,
    }
}

fn narrow(v: Option<u32>) -> (r: Option<i32>)
    ensures
        r == fit_opt_i32(v),
{
    match v {
        Some(x) => if x <= 2147483647 {
            Some(x as i32)
        } else {
            None
        },
        None => None,
    }
}

impl Probe {
    /// The probe of a file the tag reader recognised: its format, duration
    /// in milliseconds, sample rate, channel count and audio bitrate. A
    /// value that does not fit in an `i32` is dropped.
    pub fn from_properties(
        kind: FileKind,
        duration_ms: u128,
        sample_rate: Option<u32>,
        channels: Option<u8>,
        bitrate: Option<u32>,
    ) -> (r: Probe)
        ensures
            r.codec@ == codec_name_spec(kind),
            r.duration_ms == fit_i32(duration_ms as int),
            r.sample_rate == fit_opt_i32(sample_rate),
            r.channels == channels,
            r.bitrate == fit_opt_i32(bitrate),
    {
        let duration = if duration_ms <= 2147483647 {
            Some(duration_ms as i32)
        } else {
            None
        };
        Probe {
            codec: string_from_chars(chars_of(codec_name(kind))),
            duration_ms: duration,
            sample_rate: narrow(sample_rate),
            channels,
            bitrate: narrow(bitrate),
        }
    }
}

/// The probe result for `path` given what reading its tags gave: the
/// reader's probe when it succeeded; otherwise a probe with only the codec
/// implied by the extension; otherwise the reader's error.
pub fn probe_outcome(path: &str, read: Result<Probe, ProbeError>) -> (r: Result<Probe, ProbeError>)
    ensures
        read is Ok ==> r == read,
        read is Err && codec_from_extension_spec(path@) is None ==> r == read,
        read is Err && codec_from_extension_spec(path@) is Some ==> (r matches Ok(p) && p.codec@
            == codec_from_extension_spec(path@)->0 && p.duration_ms is None && p.sample_rate is None
            && p.channels is None && p.bitrate is None),
{
    match read {
        Ok(p) => Ok(p),
        Err(e) => match codec_from_extension(path) {
            Some(c) => Ok(
                Probe {
                    codec: string_from_chars(chars_of(c)),
                    duration_ms: None,
                    sample_rate: None,
                    channels: None,
                    bitrate: None,
                },
            ),
            None => Err(e),
        },
    }
}

// ---------------------------------------------------------------------------
// Cover art.
// ---------------------------------------------------------------------------

/// A single cover art candidate extracted from a tag block.
#[derive(Debug, Clone, PartialEq, Eq)]
pub struct CoverArt {
    pub mime_type: String,
    pub data: Vec<u8>,
}

/// Image formats a picture frame can declare.
#[derive(Debug, Clone, Copy, PartialEq, Eq, Structural)]
pub enum MimeKind {
    Png,
    Jpeg,
    Tiff,
    Bmp,
    Gif,
    /// Some other MIME type.
    Unknown,
}

/// What cover selection reads of an embedded picture frame.
#[derive(Debug, Clone, PartialEq, Eq)]
pub struct PictureInfo {
    /// The frame is marked as the front cover.
    pub front_cover: bool,
    /// The declared MIME type, if any.
    pub mime: Option<MimeKind>,
    /// The image bytes.
    pub data: Vec<u8>,
}

/// The MIME string recorded for a declared picture type.
pub open spec fn mime_text(m: Option<MimeKind>) -> Seq<char> {
    match m {
        Some(MimeKind::Jpeg) => "image/jpeg"@,
        Some(MimeKind::Png) => "image/png"@,
        Some(MimeKind::Bmp) => "image/bmp"@,
        Some(MimeKind::Gif) => "image/gif"@,
        Some(MimeKind::Tiff) => "image/tiff"@,
        _ => "application/octet-stream"@,
    }
}

/// The MIME string of a declared picture type.
pub fn mime_to_str(m: MimeKind) -> (r: &'static str)
    ensures
        r@ == mime_text(Some(m)),
{
    match m {
        MimeKind::Jpeg => "image/jpeg",
        MimeKind::Png => "image/png",
        MimeKind::Bmp => "image/bmp",
        MimeKind::Gif => "image/gif",
        MimeKind::Tiff => "image/tiff",
        MimeKind::Unknown => "application/octet-stream",
    }
}

/// Position of the first front-cover picture.
pub open spec fn first_front(pics: Seq<PictureInfo>) -> Option<int>
    decreases pics.len(),
{
    if pics.len() == 0 {
        None
    } else if pics[0].front_cover {
        Some(0)
    } else {
        match first_front(pics.drop_first()) {
            Some(i) => Some(i + 1),
            None => None,
        }
    }
}

/// The picture chosen as cover: the first front cover, else the first.
pub open spec fn chosen_picture(pics: Seq<PictureInfo>) -> int {
    match first_front(pics) {
        Some(i) => i,
        None => 0,
    }
}

proof fn lemma_first_front_bounds(pics: Seq<PictureInfo>)
    ensures
        first_front(pics) matches Some(i) ==> 0 <= i < pics.len() && pics[i].front_cover,
    decreases pics.len(),
{
    if pics.len() > 0 && !pics[0].front_cover {
        lemma_first_front_bounds(pics.drop_first());
    }
}

fn find_front(pics: &Vec<PictureInfo>) -> (r: Option<usize>)
    ensures
        match r {
            Some(i) => first_front(pics@) == Some(i as int),
            None => first_front(pics@) is None,
        },
{
    let mut i: usize = 0;
    proof {
        assert(pics@.skip(0) =~= pics@);
    }
    while i < pics.len()
        invariant
            i <= pics.len(),
            first_front(pics@) == (match first_front(pics@.skip(i as int)) {
                Some(j) => Some(j + i),
                None => None::<int>,
            }),
        decreases pics.len() - i,
    {
        proof {
            assert(pics@.skip(i as int).drop_first() =~= pics@.skip(i + 1));
        }
        if pics[i].front_cover {
            proof {
                assert(pics@.skip(i as int)[0] == pics@[i as int]);
            }
            return Some(i);
        }
        i += 1;
    }
    proof {
        assert(pics@.skip(i as int).len() == 0);
    }
    None
}

/// Choose the cover among embedded pictures: the first front cover, else
/// the first picture; `None` when there is none. The MIME string is that of
/// the declared type (`application/octet-stream` when none or unknown).
pub fn select_cover(pictures: &Vec<PictureInfo>) -> (r: Option<CoverArt>)
    ensures
        pictures@.len() == 0 <==> r is None,
        r matches Some(c) ==> {
            let p = pictures@[chosen_picture(pictures@)];
            &&& c.mime_type@ == mime_text(p.mime)
            &&& c.data@ == p.data@
        },
{
    if pictures.len() == 0 {
        return None;
    }
    proof {
        lemma_first_front_bounds(pictures@);
    }
    let idx = match find_front(pictures) {
        Some(i) => i,
        None => 0,
    };
    let picked = &pictures[idx];
    let mime = match picked.mime {
        Some(m) => mime_to_str(m),
        None => "application/octet-stream",
    };
    Some(CoverArt { mime_type: string_from_chars(chars_of(mime)), data: picked.data.clone() })
}

/// The embedded cover of a file given what reading its tags gave: an I/O
/// failure is returned, any other reader failure or a missing tag block
/// means no cover, and otherwise the cover is chosen among the primary
/// tag's pictures.
pub fn cover_outcome(read: Result<Option<Vec<PictureInfo>>, ProbeError>) -> (r: Result<
    Option<CoverArt>,
    ProbeError,
>)
    ensures
        read matches Err(ProbeError::Io(m)) ==> r == Err::<Option<CoverArt>, ProbeError>(
            ProbeError::Io(m),
        ),
        read matches Err(e) && !(e is Io) ==> r == Ok::<Option<CoverArt>, ProbeError>(None),
        read == Ok::<Option<Vec<PictureInfo>>, ProbeError>(None) ==> r == Ok::<
            Option<CoverArt>,
            ProbeError,
        >(None),
        read matches Ok(Some(pics)) ==> (r matches Ok(c) && (c is None <==> pics@.len() == 0) && (
        c matches Some(cv) ==> cv.mime_type@ == mime_text(pics@[chosen_picture(pics@)].mime)
            && cv.data@ == pics@[chosen_picture(pics@)].data@)),
{
    match read {
        Err(ProbeError::Io(m)) => Err(ProbeError::Io(m)),
        Err(_) => Ok(None),
        Ok(None) => Ok(None),
        Ok(Some(pics)) => Ok(select_cover(&pics)),
    }
}

} // verus!
